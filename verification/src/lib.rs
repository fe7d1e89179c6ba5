//! The integer core of a Mandelbrot renderer: reading the view from a query
//! string, the escape-time count, the palette and the pixel buffer.
//!
//! The library holds no real arithmetic. A caller maps pixels to points of the
//! plane and tells, step by step, whether the orbit of a point has left the
//! disc of radius two; everything that is decided from those answers is
//! decided, and proved, here.

pub mod escape;
pub mod number;
pub mod palette;
pub mod params;
pub mod query;
pub mod raster;

pub use crate::escape::EscapeScan;
pub use crate::palette::color;
pub use crate::params::{params, Params};
pub use crate::raster::{draw_mandelbrot_set, iter_area};

//! The sixteen bands of colour and the rule that picks one for a count.

use vstd::prelude::*;

verus! {

/// Red, green, blue and alpha, one byte each.
pub type Color = [u8; 4];

/// The bands, in the order in which the counts run through them.
pub const PALETTE: [[u8; 4]; 16] = [
    [66, 30, 15, 255],
    [25, 7, 26, 255],
    [9, 1, 47, 255],
    [4, 4, 73, 255],
    [0, 7, 100, 255],
    [12, 44, 138, 255],
    [24, 82, 177, 255],
    [57, 125, 209, 255],
    [134, 181, 229, 255],
    [211, 236, 248, 255],
    [241, 233, 191, 255],
    [248, 201, 95, 255],
    [255, 170, 0, 255],
    [204, 128, 0, 255],
    [153, 87, 0, 255],
    [106, 52, 3, 255],
];

/// Opaque black: the colour of the set itself and of points that are outside
/// the disc before the first step.
pub const BLACK: [u8; 4] = [0, 0, 0, 255];

/// A count gets a band when the orbit left the disc after at least one step
/// and before the cap.
pub open spec fn in_band(v: int, limit: int) -> bool {
    0 < v < limit
}

/// The colour of a count: its band, taken cyclically, or black.
pub open spec fn color_of(v: int, limit: int) -> Seq<u8> {
    if in_band(v, limit) {
        PALETTE@[v % 16]@
    } else {
        BLACK@
    }
}

/// The colour for the count `v` under the cap `limit`.
pub fn color(v: i32, limit: i32) -> (c: Color)
    ensures
        c@ == color_of(v as int, limit as int),
{
    if v > 0 && v < limit {
        let band: usize = (v % 16) as usize;
        PALETTE[band]
    } else {
        BLACK
    }
}

} // verus!

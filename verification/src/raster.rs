//! The pixel grid and the buffer of bytes that holds the picture.
//!
//! Pixels are numbered row by row from the top left. Pixel `i` of a grid that
//! is `width` wide stands in column `i % width` of row `i / width`, and its
//! four bytes are those from `4 * i` on.

use vstd::prelude::*;
use vstd::arithmetic::div_mod::lemma_fundamental_div_mod_converse;
use vstd::arithmetic::div_mod::lemma_fundamental_div_mod;
use crate::palette::{color, color_of, Color};

verus! {

/// The number of pixels of a grid; a grid without a positive width and
/// height has none.
pub open spec fn pixel_count(width: i32, height: i32) -> int {
    if width > 0 && height > 0 {
        width * height
    } else {
        0
    }
}

/// In a grid of positive size, every column and row has one index, that
/// index is in the grid, and column and row are read back from it.
pub proof fn lemma_index_of_cell(width: i32, height: i32, x: int, y: int)
    requires
        0 <= x < width,
        0 <= y < height,
    ensures
        0 <= y * width + x < pixel_count(width, height),
        (y * width + x) % (width as int) == x,
        (y * width + x) / (width as int) == y,
{
    lemma_fundamental_div_mod_converse(y * width + x, width as int, y, x);
    assert(y * width + x < width * height) by (nonlinear_arith)
        requires
            0 <= x < width,
            0 <= y < height,
    ;
    assert(0 <= y * width) by (nonlinear_arith)
        requires
            0 <= y,
            0 < width,
    ;
}

/// Every index of a grid has its column and its row in the grid, and is the
/// index of that cell.
pub proof fn lemma_cell_of_index(width: i32, height: i32, i: int)
    requires
        0 <= i < pixel_count(width, height),
    ensures
        0 <= i % (width as int) < width,
        0 <= i / (width as int) < height,
        (i / (width as int)) * width + i % (width as int) == i,
{
    let w = width as int;
    let h = height as int;
    lemma_fundamental_div_mod(i, w);
    let q = i / w;
    let r = i % w;
    assert(q * w == w * q) by (nonlinear_arith);
    assert(0 <= q < h) by (nonlinear_arith)
        requires
            0 <= r < w,
            0 <= q * w + r < w * h,
            0 < w,
    ;
}

/// The cells of a grid in the order of their indices, each as its column and
/// its row. A width or a height that is not positive gives no cell.
pub fn iter_area(w: i32, h: i32) -> (cells: Vec<(i32, i32)>)
    ensures
        cells@.len() == pixel_count(w, h),
        forall|i: int|
            0 <= i < cells@.len() ==> (#[trigger] cells@[i]).0 == i % (w as int) && cells@[i].1 == i
                / (w as int),
{
    let mut cells: Vec<(i32, i32)> = Vec::new();
    if w <= 0 || h <= 0 {
        return cells;
    }
    let mut y: i32 = 0;
    while y < h
        invariant
            0 < w,
            0 <= y <= h,
            cells@.len() == y * w,
            forall|i: int|
                0 <= i < cells@.len() ==> (#[trigger] cells@[i]).0 == i % (w as int) && cells@[i].1
                    == i / (w as int),
        decreases h - y,
    {
        let mut x: i32 = 0;
        while x < w
            invariant
                0 < w,
                0 <= y < h,
                0 <= x <= w,
                cells@.len() == y * w + x,
                forall|i: int|
                    0 <= i < cells@.len() ==> (#[trigger] cells@[i]).0 == i % (w as int)
                        && cells@[i].1 == i / (w as int),
            decreases w - x,
        {
            proof {
                lemma_index_of_cell(w, h, x as int, y as int);
            }
            cells.push((x, y));
            x = x + 1;
        }
        assert((y + 1) * w == y * w + w) by (nonlinear_arith);
        y = y + 1;
    }
    assert(h * w == w * h) by (nonlinear_arith);
    cells
}

/// The number of bytes of the picture of a grid: four for each pixel. `None`
/// where the width or the height is not positive, or the number does not fit
/// the machine's index.
pub fn image_len(width: i32, height: i32) -> (len: Option<usize>)
    ensures
        len == if width > 0 && height > 0 && 4 * pixel_count(width, height) <= usize::MAX {
            Some((4 * pixel_count(width, height)) as usize)
        } else {
            None
        },
{
    if width <= 0 || height <= 0 {
        return None;
    }
    assert(0 < width * height <= 0x7fff_ffff * 0x7fff_ffff) by (nonlinear_arith)
        requires
            0 < width <= 0x7fff_ffff,
            0 < height <= 0x7fff_ffff,
    ;
    let bytes: u64 = (width as u64) * (height as u64) * 4;
    if bytes > usize::MAX as u64 {
        None
    } else {
        Some(bytes as usize)
    }
}

/// The picture of a list of counts under a cap: the colour of each count, four
/// bytes each, in the order of the counts.
pub open spec fn image_of(counts: Seq<i32>, limit: i32) -> Seq<u8> {
    Seq::new(4 * counts.len(), |k: int| color_of(counts[k / 4] as int, limit as int)[k % 4])
}

/// Writes the four bytes of `pixel` as pixel `i` of the buffer and leaves
/// every other byte as it is.
pub fn put_pixel(img: &mut Vec<u8>, i: usize, pixel: Color)
    requires
        4 * i + 4 <= old(img)@.len(),
    ensures
        final(img)@.len() == old(img)@.len(),
        forall|k: int|
            0 <= k < old(img)@.len() ==> #[trigger] final(img)@[k] == if 4 * i <= k < 4 * i + 4 {
                pixel@[k - 4 * i]
            } else {
                old(img)@[k]
            },
{
    let len = img.len();
    assert(4 * i + 4 <= len);
    let offset: usize = i * 4;
    let mut b: usize = 0;
    while b < 4
        invariant
            b <= 4,
            offset == 4 * i,
            offset + 4 <= img@.len(),
            img@.len() == old(img)@.len(),
            forall|k: int|
                0 <= k < img@.len() ==> #[trigger] img@[k] == if offset <= k < offset + b {
                    pixel@[k - offset]
                } else {
                    old(img)@[k]
                },
        decreases 4 - b,
    {
        img[offset + b] = pixel[b];
        b = b + 1;
    }
}

/// Draws the picture of the counts into the front of the buffer: pixel `i`
/// gets the colour of `counts[i]` under the cap `limit`. Bytes behind the
/// picture stay as they are.
pub fn draw_mandelbrot_set(limit: i32, counts: &Vec<i32>, img: &mut Vec<u8>)
    requires
        4 * counts@.len() <= old(img)@.len(),
    ensures
        final(img)@.len() == old(img)@.len(),
        final(img)@.take(4 * counts@.len() as int) == image_of(counts@, limit),
        final(img)@.skip(4 * counts@.len() as int) == old(img)@.skip(4 * counts@.len() as int),
{
    let n = counts.len();
    let mut i: usize = 0;
    while i < n
        invariant
            i <= n == counts@.len(),
            4 * n <= img@.len() == old(img)@.len(),
            forall|k: int| 0 <= k < 4 * i ==> #[trigger] img@[k] == image_of(counts@, limit)[k],
            forall|k: int| 4 * i <= k < img@.len() ==> #[trigger] img@[k] == old(img)@[k],
        decreases n - i,
    {
        let pixel = color(counts[i], limit);
        put_pixel(img, i, pixel);
        i = i + 1;
    }
    assert(img@.take(4 * n as int) =~= image_of(counts@, limit));
    assert(img@.skip(4 * n as int) =~= old(img)@.skip(4 * n as int));
}

/// A buffer that holds, for each count, the four bytes of its colour at four
/// times its index is the picture of the counts: the counts and the cap leave
/// no choice, and two such buffers are the same byte for byte.
pub proof fn lemma_picture_is_determined(
    counts: Seq<i32>,
    limit: i32,
    first: Seq<u8>,
    second: Seq<u8>,
)
    requires
        first.len() == 4 * counts.len(),
        second.len() == 4 * counts.len(),
        forall|i: int, b: int|
            0 <= i < counts.len() && 0 <= b < 4 ==> #[trigger] first[4 * i + b] == color_of(
                counts[i] as int,
                limit as int,
            )[b],
        forall|i: int, b: int|
            0 <= i < counts.len() && 0 <= b < 4 ==> #[trigger] second[4 * i + b] == color_of(
                counts[i] as int,
                limit as int,
            )[b],
    ensures
        first == image_of(counts, limit),
        second == first,
{
    let picture = image_of(counts, limit);
    assert forall|k: int| 0 <= k < picture.len() implies first[k] == picture[k] && second[k]
        == picture[k] by {
        let i = k / 4;
        let b = k % 4;
        assert(first[4 * i + b] == color_of(counts[i] as int, limit as int)[b]);
        assert(second[4 * i + b] == color_of(counts[i] as int, limit as int)[b]);
    }
    assert(first =~= picture);
    assert(second =~= picture);
}

} // verus!

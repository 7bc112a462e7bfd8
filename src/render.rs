//! Filling a row-major grayscale buffer from per-pixel escape times.

use vstd::prelude::*;
use crate::bands::{Band, covers, is_row_band};

verus! {

/// Iterations allowed per point before it is taken to be in the set.
pub const ITERATION_LIMIT: u32 = 255;

/// Intensity of a pixel whose point escaped after `escape` iterations:
/// black for a point that never escaped, brighter the sooner it escaped.
pub open spec fn shade_of(escape: Option<u32>) -> u8 {
    match escape {
        None => 0u8,
        Some(count) => (255 - (count as u8)) as u8,
    }
}

/// The intensity of one pixel from the escape time of its point.
pub fn shade(escape: Option<u32>) -> (r: u8)
    ensures
        r == shade_of(escape),
{
    match escape {
        None => 0,
        Some(count) => 255 - (count as u8),
    }
}

/// Pixel `(col, row)` of `pixels`, a buffer `width` pixels wide, holds the
/// shade of a value that `escape_at` may return for that pixel.
pub open spec fn pixel_rendered<F: Fn(usize, usize, u32) -> Option<u32>>(
    pixels: Seq<u8>,
    width: int,
    escape_at: F,
    col: int,
    row: int,
) -> bool {
    exists|e: Option<u32>|
        call_ensures(escape_at, (col as usize, row as usize, ITERATION_LIMIT), e)
            && pixels[row * width + col] == shade_of(e)
}

proof fn lemma_index_in_buffer(width: int, height: int, col: int, row: int)
    requires
        0 <= col < width,
        0 <= row < height,
    ensures
        0 <= row * width + col < width * height,
{
    assert(0 <= row * width) by (nonlinear_arith) requires row >= 0, width > 0;
    assert((row + 1) * width <= width * height) by (nonlinear_arith) requires row + 1 <= height, width > 0;
    assert((row + 1) * width == row * width + width) by (nonlinear_arith);
}

proof fn lemma_index_distinct(width: int, c1: int, r1: int, c2: int, r2: int)
    requires
        0 <= c1 < width,
        0 <= c2 < width,
        0 <= r1,
        0 <= r2,
        c1 != c2 || r1 != r2,
    ensures
        r1 * width + c1 != r2 * width + c2,
{
    if r1 < r2 {
        assert((r1 + 1) * width <= r2 * width) by (nonlinear_arith) requires r1 + 1 <= r2, width > 0;
        assert((r1 + 1) * width == r1 * width + width) by (nonlinear_arith);
    } else if r2 < r1 {
        assert((r2 + 1) * width <= r1 * width) by (nonlinear_arith) requires r2 + 1 <= r1, width > 0;
        assert((r2 + 1) * width == r2 * width + width) by (nonlinear_arith);
    }
}

/// Renders a `bounds.0` by `bounds.1` rectangle into `pixels`, row-major:
/// pixel `(col, row)` goes to index `row * bounds.0 + col` and holds the
/// shade of `escape_at(col, row, ITERATION_LIMIT)`.
pub fn render<F: Fn(usize, usize, u32) -> Option<u32>>(
    pixels: &mut [u8],
    bounds: (usize, usize),
    escape_at: &F,
)
    requires
        old(pixels)@.len() == bounds.0 * bounds.1,
        forall|col: usize, row: usize|
            col < bounds.0 && row < bounds.1 ==> call_requires(*escape_at, (col, row, ITERATION_LIMIT)),
    ensures
        final(pixels)@.len() == old(pixels)@.len(),
        forall|col: int, row: int|
            0 <= col < bounds.0 && 0 <= row < bounds.1
                ==> #[trigger] pixel_rendered(final(pixels)@, bounds.0 as int, *escape_at, col, row),
{
    let (width, height) = bounds;
    let total = pixels.len();
    let mut row: usize = 0;
    while row < height
        invariant
            pixels@.len() == total,
            total == width * height,
            row <= height,
            forall|col: usize, row: usize|
                col < width && row < height ==> call_requires(*escape_at, (col, row, ITERATION_LIMIT)),
            forall|c: int, r: int|
                0 <= c < width && 0 <= r < row ==> #[trigger] pixel_rendered(pixels@, width as int, *escape_at, c, r),
        decreases height - row,
    {
        let mut col: usize = 0;
        while col < width
            invariant
                pixels@.len() == total,
                total == width * height,
                row < height,
                col <= width,
                forall|col: usize, row: usize|
                    col < width && row < height ==> call_requires(*escape_at, (col, row, ITERATION_LIMIT)),
                forall|c: int, r: int|
                    0 <= c < width && 0 <= r < row ==> #[trigger] pixel_rendered(pixels@, width as int, *escape_at, c, r),
                forall|c: int| 0 <= c < col ==> #[trigger] pixel_rendered(pixels@, width as int, *escape_at, c, row as int),
            decreases width - col,
        {
            proof {
                lemma_index_in_buffer(width as int, height as int, col as int, row as int);
            }
            let escape = escape_at(col, row, ITERATION_LIMIT);
            let index: usize = row * width + col;
            let ghost before = pixels@;
            pixels[index] = shade(escape);
            proof {
                assert(pixel_rendered(pixels@, width as int, *escape_at, col as int, row as int));
                assert forall|c: int, r: int|
                    0 <= c < width && 0 <= r <= row && (r < row || c < col)
                        implies #[trigger] pixel_rendered(pixels@, width as int, *escape_at, c, r) by {
                    assert(pixel_rendered(before, width as int, *escape_at, c, r));
                    lemma_index_in_buffer(width as int, height as int, c, r);
                    let e = choose|e: Option<u32>|
                        call_ensures(*escape_at, (c as usize, r as usize, ITERATION_LIMIT), e)
                            && before[r * width + c] == shade_of(e);
                    lemma_index_distinct(width as int, c, r, col as int, row as int);
                    assert(pixels@[r * width + c] == before[r * width + c]);
                }
            }
            col = col + 1;
        }
        row = row + 1;
    }
}

/// With an escape evaluation that has one result per pixel, two renders of
/// the same rectangle give byte-identical buffers, whatever order the
/// pixels were computed in.
pub proof fn lemma_render_deterministic<F: Fn(usize, usize, u32) -> Option<u32>>(
    first: Seq<u8>,
    second: Seq<u8>,
    bounds: (usize, usize),
    escape_at: F,
)
    requires
        first.len() == bounds.0 * bounds.1,
        second.len() == bounds.0 * bounds.1,
        forall|col: int, row: int|
            0 <= col < bounds.0 && 0 <= row < bounds.1
                ==> #[trigger] pixel_rendered(first, bounds.0 as int, escape_at, col, row),
        forall|col: int, row: int|
            0 <= col < bounds.0 && 0 <= row < bounds.1
                ==> #[trigger] pixel_rendered(second, bounds.0 as int, escape_at, col, row),
        forall|args: (usize, usize, u32), e1: Option<u32>, e2: Option<u32>|
            call_ensures(escape_at, args, e1) && call_ensures(escape_at, args, e2) ==> e1 == e2,
    ensures
        first == second,
{
    let width = bounds.0 as int;
    assert forall|p: int| 0 <= p < first.len() implies first[p] == second[p] by {
        let row = p / width;
        let col = p % width;
        assert(p == row * width + col && 0 <= col < width && 0 <= row < bounds.1) by (nonlinear_arith)
            requires
                width > 0,
                0 <= p < width * bounds.1,
                row == p / width,
                col == p % width,
        {
            vstd::arithmetic::div_mod::lemma_fundamental_div_mod(p, width);
        }
        assert(pixel_rendered(first, width, escape_at, col, row));
        assert(pixel_rendered(second, width, escape_at, col, row));
    }
    assert(first =~= second);
}

/// A 1 by 1 image is one band whose upper-left corner is pixel `(0, 0)`,
/// and its single byte is the shade of the escape evaluation of that pixel.
pub proof fn lemma_single_pixel<F: Fn(usize, usize, u32) -> Option<u32>>(
    bands: Seq<Band>,
    pixels: Seq<u8>,
    escape_at: F,
)
    requires
        bands.len() == 1,
        is_row_band(bands[0], 1, 0),
        pixels.len() == 1,
        pixel_rendered(pixels, 1, escape_at, 0, 0),
    ensures
        bands[0].upper_left_pixel == (0usize, 0usize),
        covers(bands[0], 0),
        exists|e: Option<u32>|
            call_ensures(escape_at, (0usize, 0usize, ITERATION_LIMIT), e) && pixels[0] == shade_of(e),
{
    let e = choose|e: Option<u32>|
        call_ensures(escape_at, (0usize, 0usize, ITERATION_LIMIT), e) && pixels[0] == shade_of(e);
    assert(pixels[0] == shade_of(e));
}

} // verus!

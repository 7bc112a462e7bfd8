//! The split of a row-major pixel buffer into one-row bands, the unit of
//! work that the renderer hands to its workers.

use vstd::prelude::*;
use vstd::arithmetic::div_mod::lemma_fundamental_div_mod;
use vstd::arithmetic::mul::{lemma_mul_inequality, lemma_mul_is_distributive_add_other_way};

verus! {

/// One horizontal band of the image: the pixel indices `start..end` of the
/// whole buffer, which hold image row `top`.
#[derive(Clone, Copy, Debug, PartialEq, Eq)]
pub struct Band {
    pub top: usize,
    pub start: usize,
    pub end: usize,
    /// Width and height of the band, in pixels.
    pub bounds: (usize, usize),
    /// Pixel of the whole image at the band's upper-left corner.
    pub upper_left_pixel: (usize, usize),
    /// Pixel of the whole image at the band's lower-right corner (one past
    /// its last column and row).
    pub lower_right_pixel: (usize, usize),
}

/// `b` is the band of image row `top` in an image `width` pixels wide.
pub open spec fn is_row_band(b: Band, width: int, top: int) -> bool {
    &&& b.top == top
    &&& b.start == top * width
    &&& b.end == (top + 1) * width
    &&& b.bounds == (width as usize, 1usize)
    &&& b.upper_left_pixel == (0usize, top as usize)
    &&& b.lower_right_pixel == (width as usize, (top + 1) as usize)
}

/// Pixel index `p` of the whole buffer lies in band `b`.
pub open spec fn covers(b: Band, p: int) -> bool {
    b.start <= p < b.end
}

/// The bands of an image of `bounds` (width, height): one per row, in order
/// from the top, each owning the buffer indices of its row.
pub fn plan_bands(bounds: (usize, usize)) -> (r: Vec<Band>)
    requires
        bounds.0 > 0,
        bounds.0 * bounds.1 <= usize::MAX,
    ensures
        r@.len() == bounds.1,
        forall|i: int| 0 <= i < bounds.1 ==> is_row_band(#[trigger] r@[i], bounds.0 as int, i),
{
    let (width, height) = bounds;
    let mut r: Vec<Band> = Vec::new();
    let mut top: usize = 0;
    let mut start: usize = 0;
    while top < height
        invariant
            top <= height,
            width * height <= usize::MAX,
            start == top * width,
            r@.len() == top,
            forall|i: int| 0 <= i < top ==> is_row_band(#[trigger] r@[i], width as int, i),
        decreases height - top,
    {
        proof {
            lemma_mul_is_distributive_add_other_way(width as int, top as int, 1);
            lemma_mul_inequality(top as int + 1, height as int, width as int);
            assert((top + 1) * width == width * (top + 1)) by (nonlinear_arith);
            assert(width * height == height * width) by (nonlinear_arith);
        }
        let end: usize = start + width;
        r.push(Band {
            top,
            start,
            end,
            bounds: (width, 1),
            upper_left_pixel: (0, top),
            lower_right_pixel: (width, top + 1),
        });
        top = top + 1;
        start = end;
    }
    r
}

/// Some band of `bands` holds pixel index `p`.
pub open spec fn covered(bands: Seq<Band>, p: int) -> bool {
    exists|i: int| 0 <= i < bands.len() && covers(#[trigger] bands[i], p)
}

/// The bands of a plan partition the buffer: every pixel index of an image
/// `width` by `height` lies in exactly one band, and no band reaches past
/// the buffer's end.
pub proof fn lemma_bands_partition(width: int, height: int, bands: Seq<Band>)
    requires
        width > 0,
        height >= 0,
        bands.len() == height,
        forall|i: int| 0 <= i < height ==> is_row_band(#[trigger] bands[i], width, i),
    ensures
        forall|p: int| 0 <= p < width * height ==> #[trigger] covered(bands, p),
        forall|i: int, j: int, p: int|
            0 <= i < height && 0 <= j < height && #[trigger] covers(bands[i], p) && #[trigger] covers(bands[j], p)
                ==> i == j,
        forall|i: int, p: int| 0 <= i < height && #[trigger] covers(bands[i], p) ==> 0 <= p < width * height,
{
    assert forall|p: int| 0 <= p < width * height implies #[trigger] covered(bands, p) by {
        let i = p / width;
        lemma_fundamental_div_mod(p, width);
        assert(0 <= p % width < width);
        assert(i >= 0) by (nonlinear_arith) requires p >= 0, width > 0, i == p / width;
        assert(i * width <= p < (i + 1) * width) by (nonlinear_arith)
            requires p == width * i + p % width, 0 <= p % width < width;
        assert(i < height) by (nonlinear_arith)
            requires i * width <= p, p < width * height, width > 0;
        assert(covers(bands[i], p));
    }
    assert forall|i: int, j: int, p: int|
        0 <= i < height && 0 <= j < height && #[trigger] covers(bands[i], p) && #[trigger] covers(bands[j], p)
            implies i == j by {
        assert(i * width <= p < (i + 1) * width);
        assert(j * width <= p < (j + 1) * width);
        if i < j {
            assert((i + 1) * width <= j * width) by (nonlinear_arith) requires i + 1 <= j, width > 0;
        } else if j < i {
            assert((j + 1) * width <= i * width) by (nonlinear_arith) requires j + 1 <= i, width > 0;
        }
    }
    assert forall|i: int, p: int| 0 <= i < height && #[trigger] covers(bands[i], p) implies 0 <= p < width * height by {
        assert(0 <= i * width) by (nonlinear_arith) requires i >= 0, width > 0;
        assert((i + 1) * width <= width * height) by (nonlinear_arith) requires i + 1 <= height, width > 0;
    }
}

} // verus!

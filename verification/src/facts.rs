//! What holds of the filter on every image.

use vstd::prelude::*;
use vstd::arithmetic::div_mod::{lemma_fundamental_div_mod, lemma_mod_bound};
use crate::blend::halfway;
use crate::color::{blue, green, is_black, lemma_channel_range, lemma_channels_of_pack, red};
use crate::rules::{flat, lemma_corner, lemma_flat_window, lemma_lone_center};
use crate::sampler::{lemma_index_in_bounds, pixel, well_sized, window};
use crate::scan::{lemma_locate, output_pixel, upscaled};

verus! {

/// Every pixel of the image is `c`.
pub open spec fn uniform(image: Seq<u32>, c: u32) -> bool {
    forall|i: int| 0 <= i < image.len() ==> #[trigger] image[i] == c
}

/// The image of `len` pixels that are all `c`.
pub open spec fn filled(len: int, c: u32) -> Seq<u32> {
    Seq::new(len as nat, |i: int| c)
}

/// The filter is a function of the image: whatever two runs on the same
/// image, width and height leave in their destinations, it is the same.
pub proof fn lemma_deterministic(
    first: Seq<u32>,
    second: Seq<u32>,
    image: Seq<u32>,
    width: int,
    height: int,
)
    requires
        first == upscaled(image, width, height),
        second == upscaled(image, width, height),
    ensures
        first == second,
{
}

/// The destination has `2 * width` times `2 * height` pixels: twice the
/// source's width and twice its height. Of an image without columns or
/// without rows it is empty.
pub proof fn lemma_dimensions(image: Seq<u32>, width: int, height: int)
    requires
        0 <= width,
        0 <= height,
    ensures
        upscaled(image, width, height).len() == 4 * (width * height),
        upscaled(image, width, height).len() == (2 * width) * (2 * height),
        width == 0 || height == 0 ==> upscaled(image, width, height).len() == 0,
        well_sized(image, width, height) ==> upscaled(image, width, height).len() == 4
            * image.len(),
{
    assert((2 * width) * (2 * height) == 4 * (width * height) && (2 * width) * (2 * height) >= 0)
        by (nonlinear_arith)
        requires
            0 <= width,
            0 <= height,
    ;
    assert(width == 0 || height == 0 ==> width * height == 0) by (nonlinear_arith);
}

/// The destination cell `i` lies at a column below `2 * width` and in a row
/// below `2 * height`, and the source pixel that decides it lies in the image.
pub proof fn lemma_cell_position(width: int, height: int, i: int)
    requires
        0 <= i < 4 * (width * height),
        0 < width,
        0 < height,
    ensures
        0 <= i % (2 * width) < 2 * width,
        0 <= i / (2 * width) < 2 * height,
        0 <= (i % (2 * width)) / 2 < width,
        0 <= (i / (2 * width)) / 2 < height,
{
    let stride = 2 * width;
    assert(stride * (2 * height) == 4 * (width * height)) by (nonlinear_arith)
        requires
            stride == 2 * width,
    ;
    lemma_fundamental_div_mod(i, stride);
    lemma_mod_bound(i, stride);
    let q = i / stride;
    assert(0 <= q < 2 * height) by (nonlinear_arith)
        requires
            i == stride * q + i % stride,
            0 <= i % stride < stride,
            0 <= i < stride * (2 * height),
            stride > 0,
    ;
}

/// The destination by coordinates: the cell of column `x` and row `y` holds
/// the destination pixel at `(x, y)`.
pub proof fn lemma_upscaled_at(image: Seq<u32>, width: int, height: int, x: int, y: int)
    requires
        0 <= x < 2 * width,
        0 <= y < 2 * height,
    ensures
        0 <= y * (2 * width) + x < upscaled(image, width, height).len(),
        upscaled(image, width, height)[y * (2 * width) + x] == output_pixel(
            image,
            width,
            height,
            x,
            y,
        ),
{
    let stride = 2 * width;
    assert(stride * (2 * height) == 4 * (width * height)) by (nonlinear_arith)
        requires
            stride == 2 * width,
    ;
    lemma_locate(stride, x, y);
    assert(0 <= y * stride && y * stride + stride <= stride * (2 * height)) by (nonlinear_arith)
        requires
            0 <= y < 2 * height,
            0 < stride,
    ;
}

/// Where all the window around a source pixel shows one colour, the four
/// destination pixels of that source pixel repeat it.
pub proof fn lemma_flat_region(image: Seq<u32>, width: int, height: int, x: int, y: int)
    requires
        0 <= x,
        0 <= y,
        flat(window(image, width, height, x / 2, y / 2)),
    ensures
        output_pixel(image, width, height, x, y) == pixel(image, width, height, x / 2, y / 2),
{
    lemma_flat_window(window(image, width, height, x / 2, y / 2));
}

/// Away from the border a uniform image stays as it is: a destination pixel
/// whose source pixel is at least two pixels from every border has the
/// image's colour.
pub proof fn lemma_uniform_interior(
    image: Seq<u32>,
    width: int,
    height: int,
    c: u32,
    x: int,
    y: int,
)
    requires
        well_sized(image, width, height),
        uniform(image, c),
        2 <= x / 2 < width - 2,
        2 <= y / 2 < height - 2,
    ensures
        output_pixel(image, width, height, x, y) == c,
        upscaled(image, width, height)[y * (2 * width) + x] == c,
{
    lemma_upscaled_at(image, width, height, x, y);
    let m = window(image, width, height, x / 2, y / 2);
    assert forall|i: int| 0 <= i < 21 implies #[trigger] m[i] == c by {
        lemma_index_in_bounds(
            width,
            height,
            x / 2 + crate::sampler::offset_x(i),
            y / 2 + crate::sampler::offset_y(i),
        );
    }
    lemma_flat_region(image, width, height, x, y);
}

/// A uniform black image stays as it is: every destination pixel is the
/// image's pixel. (Black is any pixel whose three channels are zero.) So does
/// an image without pixels. Of any other uniform image the corners lose
/// brightness to the black that surrounds the image.
pub proof fn lemma_uniform_black(image: Seq<u32>, width: int, height: int, c: u32)
    requires
        0 <= width,
        0 <= height,
        well_sized(image, width, height),
        uniform(image, c),
        is_black(c) || width == 0 || height == 0,
    ensures
        upscaled(image, width, height) == filled(4 * (width * height), c),
{
    let out = upscaled(image, width, height);
    lemma_dimensions(image, width, height);
    assert forall|i: int| 0 <= i < out.len() implies out[i] == c by {
        lemma_cell_position(width, height, i);
        let x = i % (2 * width);
        let y = i / (2 * width);
        let m = window(image, width, height, x / 2, y / 2);
        lemma_index_in_bounds(width, height, x / 2, y / 2);
        assert(m[10] == c);
        assert forall|j: int| 0 <= j < 21 implies is_black(#[trigger] m[j]) by {
            let nx = x / 2 + crate::sampler::offset_x(j);
            let ny = y / 2 + crate::sampler::offset_y(j);
            if 0 <= nx < width && 0 <= ny < height {
                lemma_index_in_bounds(width, height, nx, ny);
            }
        }
        lemma_flat_region(image, width, height, x, y);
    }
    assert(out =~= filled(4 * (width * height), c));
}

/// A uniform image that is not black loses brightness at its first pixel:
/// the first destination pixel is the even blend of the image's colour with
/// black, and differs from the image's colour.
pub proof fn lemma_uniform_corner(image: Seq<u32>, width: int, height: int, c: u32)
    requires
        0 < width,
        0 < height,
        well_sized(image, width, height),
        uniform(image, c),
        !is_black(c),
    ensures
        upscaled(image, width, height)[0] == halfway(0, c) as u32,
        upscaled(image, width, height)[0] != c,
{
    lemma_upscaled_at(image, width, height, 0, 0);
    let m = window(image, width, height, 0, 0);
    lemma_index_in_bounds(width, height, 0, 0);
    assert(m[10] == c);
    assert(m[13] == 0 && m[14] == 0);
    lemma_corner(m);
    lemma_channel_range(c);
    lemma_channels_of_pack(red(c) / 2, green(c) / 2, blue(c) / 2);
}

/// A uniform image stays as it is exactly where it is black or has no
/// pixels.
pub proof fn lemma_uniform(image: Seq<u32>, width: int, height: int, c: u32)
    requires
        0 <= width,
        0 <= height,
        well_sized(image, width, height),
        uniform(image, c),
    ensures
        upscaled(image, width, height) == filled(4 * (width * height), c) <==> is_black(c)
            || width == 0 || height == 0,
{
    if is_black(c) || width == 0 || height == 0 {
        lemma_uniform_black(image, width, height, c);
    } else {
        lemma_uniform_corner(image, width, height, c);
        lemma_upscaled_at(image, width, height, 0, 0);
        assert(filled(4 * (width * height), c)[0] == c);
    }
}

/// The image of a single pixel: a black pixel stays as it is, four times over;
/// any other pixel is taken for a corner in front of the black that surrounds
/// the image, and comes out four times at half its brightness.
pub proof fn lemma_single_pixel(v: u32)
    ensures
        is_black(v) ==> upscaled(seq![v], 1, 1) == filled(4, v),
        !is_black(v) ==> upscaled(seq![v], 1, 1) == filled(4, halfway(0, v) as u32),
        upscaled(seq![v], 1, 1) == filled(4, v) <==> is_black(v),
{
    let image = seq![v];
    let out = upscaled(image, 1, 1);
    let m = window(image, 1, 1, 0, 0);
    let half = halfway(0, v) as u32;
    let same = if is_black(v) {
        v
    } else {
        half
    };
    lemma_dimensions(image, 1, 1);
    assert(m[10] == v);
    lemma_lone_center(m);
    assert forall|i: int| 0 <= i < 4 implies #[trigger] out[i] == same by {
        assert(window(image, 1, 1, (i % 2) / 2, (i / 2) / 2) == m);
    }
    assert(out =~= filled(4, same));
    if !is_black(v) {
        lemma_channel_range(v);
        lemma_channels_of_pack(red(v) / 2, green(v) / 2, blue(v) / 2);
        assert(out[0] == half);
        assert(filled(4, v)[0] == v);
        assert(half != v);
    }
}

} // verus!

//! The scan driver: the filter applied to a whole image.

use vstd::prelude::*;
use vstd::arithmetic::div_mod::lemma_fundamental_div_mod_converse;
use crate::rules::{
    bottom_left, bottom_left_rule, bottom_right, bottom_right_rule, top_left, top_left_rule,
    top_right, top_right_rule,
};
use crate::sampler::{sample, well_sized, window};

verus! {

/// The destination pixel at `(x, y)`: the source pixel at `(x / 2, y / 2)`
/// decides it, by the rule that belongs to the pixel's place in its 2x2 block.
pub open spec fn output_pixel(image: Seq<u32>, width: int, height: int, x: int, y: int) -> u32 {
    let m = window(image, width, height, x / 2, y / 2);
    if y % 2 == 0 {
        if x % 2 == 0 {
            top_left(m)
        } else {
            top_right(m)
        }
    } else {
        if x % 2 == 0 {
            bottom_left(m)
        } else {
            bottom_right(m)
        }
    }
}

/// The destination pixel at index `i` of the row-major destination, whose
/// rows are `2 * width` long.
pub open spec fn output_cell(image: Seq<u32>, width: int, height: int, i: int) -> u32 {
    output_pixel(image, width, height, i % (2 * width), i / (2 * width))
}

/// The filtered image: `2 * width` by `2 * height` pixels, row-major.
pub open spec fn upscaled(image: Seq<u32>, width: int, height: int) -> Seq<u32> {
    Seq::new(
        (4 * (width * height)) as nat,
        |i: int| output_cell(image, width, height, i),
    )
}

/// The index `y * stride + x` lies in row `y`, at column `x`.
pub proof fn lemma_locate(stride: int, x: int, y: int)
    requires
        0 <= x < stride,
    ensures
        (y * stride + x) % stride == x,
        (y * stride + x) / stride == y,
{
    lemma_fundamental_div_mod_converse(y * stride + x, stride, y, x);
}

/// The four destination cells of the source pixel `(x, y)` hold the outcomes
/// of the four rules on the window at `(x, y)`.
pub proof fn lemma_block(image: Seq<u32>, width: int, height: int, x: int, y: int)
    requires
        0 <= x < width,
        0 <= y,
    ensures
        output_cell(image, width, height, (2 * y) * (2 * width) + 2 * x) == top_left(
            window(image, width, height, x, y),
        ),
        output_cell(image, width, height, (2 * y) * (2 * width) + 2 * x + 1) == top_right(
            window(image, width, height, x, y),
        ),
        output_cell(image, width, height, (2 * y + 1) * (2 * width) + 2 * x) == bottom_left(
            window(image, width, height, x, y),
        ),
        output_cell(image, width, height, (2 * y + 1) * (2 * width) + 2 * x + 1) == bottom_right(
            window(image, width, height, x, y),
        ),
{
    lemma_locate(2 * width, 2 * x, 2 * y);
    lemma_locate(2 * width, 2 * x + 1, 2 * y);
    lemma_locate(2 * width, 2 * x, 2 * y + 1);
    lemma_locate(2 * width, 2 * x + 1, 2 * y + 1);
}

/// Applies the filter: fills `buf` with the image twice as wide and twice as
/// high as `image`. Every cell of `buf` is overwritten.
pub fn apply(buf: &mut [u32], image: &[u32], width: u32, height: u32)
    requires
        well_sized(image@, width as int, height as int),
        old(buf)@.len() == 4 * (width * height),
    ensures
        final(buf)@ == upscaled(image@, width as int, height as int),
{
    let ghost w: int = width as int;
    let ghost h: int = height as int;
    let ghost src: Seq<u32> = image@;
    let total: usize = buf.len();
    assert((2 * w) * (2 * h) == 4 * (w * h)) by (nonlinear_arith);
    if width == 0 || height == 0 {
        assert((2 * w) * (2 * h) == 0) by (nonlinear_arith)
            requires
                w == 0 || h == 0,
        ;
        assert(buf@ =~= upscaled(src, w, h));
        return ;
    }
    assert(2 * w <= (2 * w) * (2 * h) && 2 * h <= (2 * w) * (2 * h)) by (nonlinear_arith)
        requires
            w >= 1,
            h >= 1,
    ;
    let scaled_width: usize = width as usize * 2;
    let mut y: u32 = 0;
    assert((2 * y) * (2 * w) == 0) by (nonlinear_arith)
        requires
            y == 0,
    ;
    while y < height
        invariant
            y <= height,
            w == width as int,
            h == height as int,
            w >= 1,
            src == image@,
            well_sized(src, w, h),
            scaled_width == 2 * w,
            total == (2 * w) * (2 * h),
            buf@.len() == total,
            2 * h <= total,
            (2 * y) * (2 * w) <= total,
            forall|i: int|
                0 <= i < (2 * y) * (2 * w) ==> #[trigger] buf@[i] == output_cell(src, w, h, i),
        decreases height - y,
    {
        assert((2 * y) * (2 * w) + 2 * (2 * w) <= (2 * w) * (2 * h) && 0 <= (2 * y) * (2 * w))
            by (nonlinear_arith)
            requires
                0 <= y < h,
                w >= 1,
        ;
        let top: usize = (y as usize * 2) * scaled_width;
        let bottom: usize = top + scaled_width;
        let mut x: u32 = 0;
        while x < width
            invariant
                x <= width,
                y < height,
                w == width as int,
                h == height as int,
                src == image@,
                well_sized(src, w, h),
                scaled_width == 2 * w,
                top == (2 * y) * (2 * w),
                bottom == top + 2 * w,
                bottom + 2 * w <= total,
                buf@.len() == total,
                forall|i: int| 0 <= i < top ==> #[trigger] buf@[i] == output_cell(src, w, h, i),
                forall|i: int|
                    top <= i < top + 2 * x ==> #[trigger] buf@[i] == output_cell(src, w, h, i),
                forall|i: int|
                    bottom <= i < bottom + 2 * x ==> #[trigger] buf@[i] == output_cell(
                        src,
                        w,
                        h,
                        i,
                    ),
            decreases width - x,
        {
            let m: [u32; 21] = sample(image, width, height, x, y);
            let column: usize = x as usize * 2;
            proof {
                lemma_block(src, w, h, x as int, y as int);
                assert((2 * y + 1) * (2 * w) == (2 * y) * (2 * w) + 2 * w) by (nonlinear_arith);
            }
            buf[top + column] = top_left_rule(&m);
            buf[top + column + 1] = top_right_rule(&m);
            buf[bottom + column] = bottom_left_rule(&m);
            buf[bottom + column + 1] = bottom_right_rule(&m);
            x += 1;
        }
        proof {
            assert((2 * (y + 1)) * (2 * w) == bottom + 2 * w) by (nonlinear_arith)
                requires
                    top == (2 * y) * (2 * w),
                    bottom == top + 2 * w,
            ;
        }
        y += 1;
    }
    assert((2 * w) * (2 * h) == (2 * h) * (2 * w)) by (nonlinear_arith);
    assert((2 * w) * (2 * h) == 4 * (w * h)) by (nonlinear_arith);
    assert(buf@ =~= upscaled(src, w, h));
}

/// Allocates a destination for a source of the given size: a zero-filled
/// buffer of `(2 * width) * (2 * height)` pixels, with the destination's width
/// and height.
pub fn get_buffer_for_size(width: u32, height: u32) -> (out: (Vec<u32>, u32, u32))
    requires
        2 * width <= u32::MAX,
        2 * height <= u32::MAX,
        4 * (width * height) <= usize::MAX,
    ensures
        out.0@ == Seq::new((4 * (width * height)) as nat, |i: int| 0u32),
        out.0@.len() == 4 * (width * height),
        out.1 == 2 * width,
        out.2 == 2 * height,
{
    let scaled_width: u32 = width * 2;
    let scaled_height: u32 = height * 2;
    assert((2 * width) * (2 * height) == 4 * (width * height) && 0 <= width * height)
        by (nonlinear_arith);
    let buffer: Vec<u32> = vec![0; scaled_width as usize * scaled_height as usize];
    assert(buffer@ =~= Seq::new((4 * (width * height)) as nat, |i: int| 0u32));
    (buffer, scaled_width, scaled_height)
}

} // verus!

//! Blending: a channel-wise linear mix of two pixels.
//!
//! The mix is computed in single-precision arithmetic, as the metric is. The
//! blend factor is a value in the unit `2^-27`: `ONE` stands for the factor
//! one, `HALF` for one half.

use vstd::prelude::*;
use crate::color::{
    blue, blue_u8, color_u32_to_u32, green, green_u8, lemma_channel_range,
    lemma_pack_of_channels, pack, red, red_u8, PIXEL_MAX,
};
use crate::metric::{plus, product, sum, times};
use crate::single::{lemma_rounded_halves, lemma_rounded_near};

verus! {

/// The blend factor one.
pub const ONE: i64 = 0x800_0000;

/// The blend factor one half.
pub const HALF: i64 = 0x400_0000;

/// The largest magnitude of a blend factor that `blend` takes: 8192 times
/// `ONE`.
pub const ALPHA_MAX: i64 = 0x100_0000_0000;

/// One channel of a blend, before it is cut to a whole number:
/// `alpha * b + (1 - alpha) * a`, each operation rounded.
pub open spec fn mix(a: int, b: int, alpha: int) -> int {
    sum(product(alpha, b), product(sum(ONE as int, -alpha), a))
}

/// The whole part of a value, in the range of `u32`: a negative value gives
/// zero, a value beyond the range its upper end.
pub open spec fn truncated(v: int) -> int {
    if v < 0 {
        0
    } else if v / (ONE as int) > u32::MAX {
        u32::MAX as int
    } else {
        v / (ONE as int)
    }
}

/// The blend of two pixels: each channel is the low eight bits of the whole
/// part of the mix of the two pixels' channels.
pub open spec fn blended(a: u32, b: u32, alpha: int) -> int {
    pack(
        truncated(mix(red(a), red(b), alpha)) % 0x100,
        truncated(mix(green(a), green(b), alpha)) % 0x100,
        truncated(mix(blue(a), blue(b), alpha)) % 0x100,
    )
}

/// The even blend of two pixels: each channel is the mean of the two
/// channels, rounded down.
pub open spec fn halfway(a: u32, b: u32) -> int {
    pack((red(a) + red(b)) / 2, (green(a) + green(b)) / 2, (blue(a) + blue(b)) / 2)
}

/// Cuts a value to its whole part, in the range of `u32`.
pub fn truncate(v: i64) -> (t: u32)
    ensures
        t == truncated(v as int),
{
    if v < 0 {
        0
    } else {
        let whole: i64 = v / ONE;
        if whole > u32::MAX as i64 {
            u32::MAX
        } else {
            whole as u32
        }
    }
}

/// Packs three channels given as values: each is cut to its whole part, of
/// which the low eight bits are kept. A channel out of range wraps around, it
/// does not saturate.
pub fn color_value_to_u32(r: i64, g: i64, b: i64) -> (p: u32)
    ensures
        p as int == pack(
            truncated(r as int) % 0x100,
            truncated(g as int) % 0x100,
            truncated(b as int) % 0x100,
        ),
        p <= PIXEL_MAX,
{
    color_u32_to_u32(truncate(r), truncate(g), truncate(b))
}

fn mix_channel(a: u8, b: u8, alpha: i64) -> (v: i64)
    requires
        -ALPHA_MAX <= alpha <= ALPHA_MAX,
    ensures
        v == mix(a as int, b as int, alpha as int),
{
    assert(-0x100_0000_0000 * 0xFF <= alpha * b <= 0x100_0000_0000 * 0xFF) by (nonlinear_arith)
        requires
            -0x100_0000_0000 <= alpha <= 0x100_0000_0000,
            0 <= b <= 0xFF,
    ;
    let toward: i64 = times(alpha, b as i64);
    let reverse_alpha: i64 = plus(ONE, -alpha);
    assert(-0x200_0000_0000 * 0xFF <= reverse_alpha * a <= 0x200_0000_0000 * 0xFF)
        by (nonlinear_arith)
        requires
            -0x200_0000_0000 <= reverse_alpha <= 0x200_0000_0000,
            0 <= a <= 0xFF,
    ;
    let away: i64 = times(reverse_alpha, a as i64);
    plus(toward, away)
}

/// Blends two pixels together and returns a new pixel: `alpha` parts of
/// `pixel_b` and `1 - alpha` parts of `pixel_a`, channel by channel.
///
/// The factor is meant to lie between zero and `ONE`, but others are taken
/// too: a channel that leaves `0..=255` keeps its low eight bits.
pub fn blend(pixel_a: u32, pixel_b: u32, alpha: i64) -> (p: u32)
    requires
        -ALPHA_MAX <= alpha <= ALPHA_MAX,
    ensures
        p as int == blended(pixel_a, pixel_b, alpha as int),
        p <= PIXEL_MAX,
{
    color_value_to_u32(
        mix_channel(red_u8(pixel_a), red_u8(pixel_b), alpha),
        mix_channel(green_u8(pixel_a), green_u8(pixel_b), alpha),
        mix_channel(blue_u8(pixel_a), blue_u8(pixel_b), alpha),
    )
}

/// Blends two pixels evenly.
pub fn blend_half(pixel_a: u32, pixel_b: u32) -> (p: u32)
    ensures
        p as int == halfway(pixel_a, pixel_b),
        p <= PIXEL_MAX,
{
    proof {
        lemma_blended_half(pixel_a, pixel_b);
    }
    blend(pixel_a, pixel_b, HALF)
}

/// The mix of two channels at the factors zero, one half and one: the first
/// channel, the mean of the two, and the second channel, all without any
/// rounding.
pub proof fn lemma_mix_exact(a: int, b: int)
    requires
        0 <= a <= 0xFF,
        0 <= b <= 0xFF,
    ensures
        mix(a, b, 0) == a * 0x800_0000,
        mix(a, b, 0x400_0000) == (a + b) * 0x400_0000,
        mix(a, b, 0x800_0000) == b * 0x800_0000,
        truncated(mix(a, b, 0)) == a,
        truncated(mix(a, b, 0x400_0000)) == (a + b) / 2,
        truncated(mix(a, b, 0x800_0000)) == b,
{
    lemma_rounded_near(0);
    lemma_rounded_halves(1);
    lemma_rounded_halves(2);
    lemma_rounded_halves(a);
    lemma_rounded_halves(b);
    lemma_rounded_halves(2 * a);
    lemma_rounded_halves(2 * b);
    lemma_rounded_halves(a + b);
    assert(ONE == 0x800_0000);
    // the factor zero
    assert(product(0, b) == 0);
    assert(sum(0x800_0000, -0) == 0x800_0000);
    assert(0x800_0000 * a == (2 * a) * 0x400_0000);
    assert(product(0x800_0000, a) == a * 0x800_0000);
    assert(sum(0, a * 0x800_0000) == a * 0x800_0000);
    // the factor one half
    assert(product(0x400_0000, b) == b * 0x400_0000);
    assert(sum(0x800_0000, -0x400_0000) == 0x400_0000);
    assert(product(0x400_0000, a) == a * 0x400_0000);
    assert(b * 0x400_0000 + a * 0x400_0000 == (a + b) * 0x400_0000);
    assert(sum(b * 0x400_0000, a * 0x400_0000) == (a + b) * 0x400_0000);
    // the factor one
    assert(0x800_0000 * b == (2 * b) * 0x400_0000);
    assert(product(0x800_0000, b) == b * 0x800_0000);
    assert(sum(0x800_0000, -0x800_0000) == 0);
    assert(product(0, a) == 0);
    assert(sum(b * 0x800_0000, 0) == b * 0x800_0000);
}

/// With the factor one half, a blend is the even blend.
pub proof fn lemma_blended_half(a: u32, b: u32)
    ensures
        blended(a, b, HALF as int) == halfway(a, b),
{
    lemma_channel_range(a);
    lemma_channel_range(b);
    lemma_mix_exact(red(a), red(b));
    lemma_mix_exact(green(a), green(b));
    lemma_mix_exact(blue(a), blue(b));
}

/// The two ends of a blend, whatever the pixels' high bits hold: the result
/// has the channels of the first pixel with the factor zero, and those of the
/// second with the factor one.
pub proof fn lemma_blend_boundary_channels(a: u32, b: u32)
    ensures
        blended(a, b, 0) == pack(red(a), green(a), blue(a)),
        blended(a, b, ONE as int) == pack(red(b), green(b), blue(b)),
{
    lemma_channel_range(a);
    lemma_channel_range(b);
    lemma_mix_exact(red(a), red(b));
    lemma_mix_exact(green(a), green(b));
    lemma_mix_exact(blue(a), blue(b));
}

/// The two ends of a blend: with the factor zero it is the first pixel, with
/// the factor one the second, for pixels without stray high bits.
pub proof fn lemma_blend_boundary(a: u32, b: u32)
    requires
        a <= PIXEL_MAX,
        b <= PIXEL_MAX,
    ensures
        blended(a, b, 0) == a,
        blended(a, b, ONE as int) == b,
{
    lemma_blend_boundary_channels(a, b);
    lemma_pack_of_channels(a);
    lemma_pack_of_channels(b);
}

} // verus!

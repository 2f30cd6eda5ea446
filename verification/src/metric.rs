//! The colour-difference metric: a luma-weighted distance between two pixels.
//!
//! The channel-wise absolute differences are taken through a fixed linear
//! luma/chroma transform and the three components are weighted so that
//! brightness dominates. The metric is defined in single-precision
//! arithmetic: each product and each sum is rounded, in the order in which the
//! formulas are written. A value `v` of the metric is held as the integer
//! `v * 2^27`; the coefficients below are the single-precision values nearest
//! to the decimal coefficients, in that unit.

use vstd::prelude::*;
use crate::color::{blue, blue_u8, green, green_u8, red, red_u8, same_color};
use crate::single::{lemma_rounded_near, magnitude, round, rounded, slack};

verus! {

/// Weight of the luma component.
pub const Y_WEIGHT: i64 = 48;

/// Weight of the first chroma component.
pub const U_WEIGHT: i64 = 7;

/// Weight of the second chroma component.
pub const V_WEIGHT: i64 = 6;

/// `0.299`, the share of red in luma.
pub const Y_RED: i64 = 40_131_100;

/// `0.587`, the share of green in luma.
pub const Y_GREEN: i64 = 78_785_808;

/// `0.114`, the share of blue in luma.
pub const Y_BLUE: i64 = 15_300_821;

/// `-0.168736`, the share of red in the first chroma component.
pub const U_RED: i64 = -22_647_362;

/// `-0.331264`, the share of green in the first chroma component.
pub const U_GREEN: i64 = -44_461_500;

/// `0.5`, the share of blue in the first chroma component.
pub const U_BLUE: i64 = 67_108_864;

/// `0.5`, the share of red in the second chroma component.
pub const V_RED: i64 = 67_108_864;

/// `-0.418688`, the share of green in the second chroma component.
pub const V_GREEN: i64 = -56_195_352;

/// `-0.081312`, the share of blue in the second chroma component.
pub const V_BLUE: i64 = -10_913_512;

/// A bound on the magnitude of every distance.
pub const DISTANCE_BOUND: i64 = 0x800_0000_0000;

/// The absolute difference of two channel values.
pub open spec fn gap(a: int, b: int) -> int {
    if a <= b {
        b - a
    } else {
        a - b
    }
}

/// The single-precision product of a value and a whole factor.
pub open spec fn product(x: int, k: int) -> int {
    rounded(x * k)
}

/// The single-precision sum of two values.
pub open spec fn sum(x: int, y: int) -> int {
    rounded(x + y)
}

/// A linear form `x1 * k1 + x2 * k2 + x3 * k3`, summed from left to right.
pub open spec fn combine(x1: int, k1: int, x2: int, k2: int, x3: int, k3: int) -> int {
    sum(sum(product(x1, k1), product(x2, k2)), product(x3, k3))
}

/// Luma of a difference: `0.299 r + 0.587 g + 0.114 b`.
pub open spec fn luma(r: int, g: int, b: int) -> int {
    combine(Y_RED as int, r, Y_GREEN as int, g, Y_BLUE as int, b)
}

/// First chroma component of a difference:
/// `-0.168736 r - 0.331264 g + 0.5 b`.
pub open spec fn chroma_u(r: int, g: int, b: int) -> int {
    combine(U_RED as int, r, U_GREEN as int, g, U_BLUE as int, b)
}

/// Second chroma component of a difference:
/// `0.5 r - 0.418688 g - 0.081312 b`.
pub open spec fn chroma_v(r: int, g: int, b: int) -> int {
    combine(V_RED as int, r, V_GREEN as int, g, V_BLUE as int, b)
}

/// The weighted sum `48 y + 7 u + 6 v` of the three components of a
/// difference.
pub open spec fn weigh(r: int, g: int, b: int) -> int {
    combine(
        luma(r, g, b),
        Y_WEIGHT as int,
        chroma_u(r, g, b),
        U_WEIGHT as int,
        chroma_v(r, g, b),
        V_WEIGHT as int,
    )
}

/// The distance between two pixels: the weighted transform of their
/// channel-wise absolute differences.
#[verifier::opaque]
pub open spec fn distance(a: u32, b: u32) -> int {
    weigh(gap(red(a), red(b)), gap(green(a), green(b)), gap(blue(a), blue(b)))
}

fn channel_gap(a: u8, b: u8) -> (d: i64)
    ensures
        d == gap(a as int, b as int),
        0 <= d <= 0xFF,
{
    if a <= b {
        (b - a) as i64
    } else {
        (a - b) as i64
    }
}

/// The largest magnitude of a value that `times` and `plus` take.
pub const VALUE_MAX: i64 = 0x4_0000_0000_0000;

/// The largest magnitude of a whole factor that `times` takes.
pub const FACTOR_MAX: i64 = 0xFF;

/// Multiplies a value by a whole factor, in single precision.
pub fn times(x: i64, k: i64) -> (p: i64)
    requires
        -VALUE_MAX <= x <= VALUE_MAX,
        -FACTOR_MAX <= k <= FACTOR_MAX,
    ensures
        p == product(x as int, k as int),
        magnitude(p - x * k) <= slack(magnitude(x * k)),
{
    assert(-0x4_0000_0000_0000 * 0xFF <= x * k <= 0x4_0000_0000_0000 * 0xFF) by (nonlinear_arith)
        requires
            -0x4_0000_0000_0000 <= x <= 0x4_0000_0000_0000,
            -0xFF <= k <= 0xFF,
    ;
    round(x * k)
}

/// Adds two values, in single precision.
pub fn plus(x: i64, y: i64) -> (s: i64)
    requires
        -VALUE_MAX <= x <= VALUE_MAX,
        -VALUE_MAX <= y <= VALUE_MAX,
    ensures
        s == sum(x as int, y as int),
        magnitude(s - (x + y)) <= slack(magnitude(x + y)),
{
    round(x + y)
}

/// A bound on the three components of a difference.
pub const COMPONENT_BOUND: i64 = 0x20_0000_0000;

fn linear(
    x1: i64,
    k1: i64,
    x2: i64,
    k2: i64,
    x3: i64,
    k3: i64,
    Ghost(bound): Ghost<int>,
) -> (s: i64)
    requires
        0 <= bound <= COMPONENT_BOUND,
        -bound <= x1 <= bound && -bound <= x2 <= bound && -bound <= x3 <= bound,
        -FACTOR_MAX <= k1 <= FACTOR_MAX,
        -FACTOR_MAX <= k2 <= FACTOR_MAX,
        -FACTOR_MAX <= k3 <= FACTOR_MAX,
    ensures
        s == combine(x1 as int, k1 as int, x2 as int, k2 as int, x3 as int, k3 as int),
{
    proof {
        lemma_product_bound(x1 as int, k1 as int, bound, 0xFF);
        lemma_product_bound(x2 as int, k2 as int, bound, 0xFF);
        lemma_product_bound(x3 as int, k3 as int, bound, 0xFF);
        assert(bound * 0xFF <= 0x20_0000_0000 * 0xFF) by (nonlinear_arith)
            requires
                bound <= 0x20_0000_0000,
        ;
    }
    let first: i64 = times(x1, k1);
    let second: i64 = times(x2, k2);
    let third: i64 = times(x3, k3);
    plus(plus(first, second), third)
}

/// Computes the weighted difference between two pixels.
///
/// 1. Takes the absolute difference of the two pixels, channel by channel.
/// 2. Converts that difference into luma and chroma.
/// 3. Weights the three components, luma most.
pub fn diff(pixel_a: u32, pixel_b: u32) -> (weight: i64)
    ensures
        weight == distance(pixel_a, pixel_b),
        0 <= weight <= DISTANCE_BOUND,
        weight == 0 <==> same_color(pixel_a, pixel_b),
{
    let r: i64 = channel_gap(red_u8(pixel_a), red_u8(pixel_b));
    let g: i64 = channel_gap(green_u8(pixel_a), green_u8(pixel_b));
    let b: i64 = channel_gap(blue_u8(pixel_a), blue_u8(pixel_b));
    proof {
        reveal(distance);
        lemma_distance_bound(pixel_a, pixel_b);
        if same_color(pixel_a, pixel_b) {
            lemma_distance_same_color(pixel_a, pixel_b, pixel_a);
        } else {
            lemma_distance_positive(pixel_a, pixel_b);
        }
        let (ri, gi, bi) = (r as int, g as int, b as int);
        lemma_component_bound(Y_RED as int, ri, Y_GREEN as int, gi, Y_BLUE as int, bi);
        lemma_component_bound(U_RED as int, ri, U_GREEN as int, gi, U_BLUE as int, bi);
        lemma_component_bound(V_RED as int, ri, V_GREEN as int, gi, V_BLUE as int, bi);
    }
    let y: i64 = linear(Y_RED, r, Y_GREEN, g, Y_BLUE, b, Ghost(0x800_0000));
    let u: i64 = linear(U_RED, r, U_GREEN, g, U_BLUE, b, Ghost(0x800_0000));
    let v: i64 = linear(V_RED, r, V_GREEN, g, V_BLUE, b, Ghost(0x800_0000));
    linear(y, Y_WEIGHT, u, U_WEIGHT, v, V_WEIGHT, Ghost(0x20_0000_0000))
}

/// A product stays within the product of the bounds of its factors, but for
/// what rounding adds.
pub proof fn lemma_product_bound(x: int, k: int, bx: int, bk: int)
    requires
        -bx <= x <= bx,
        -bk <= k <= bk,
    ensures
        -(bx * bk) <= x * k <= bx * bk,
        magnitude(product(x, k) - x * k) <= slack(magnitude(x * k)),
{
    assert(-(bx * bk) <= x * k <= bx * bk) by (nonlinear_arith)
        requires
            -bx <= x <= bx,
            -bk <= k <= bk,
    ;
    lemma_rounded_near(x * k);
}

/// A sum is as near to the exact sum as rounding allows.
pub proof fn lemma_sum_near(x: int, y: int)
    ensures
        magnitude(sum(x, y) - (x + y)) <= slack(magnitude(x + y)),
{
    lemma_rounded_near(x + y);
}

/// A linear form of three channel differences, with coefficients below one
/// in magnitude, stays below 1024 in magnitude.
pub proof fn lemma_component_bound(c1: int, r: int, c2: int, g: int, c3: int, b: int)
    requires
        0 <= r <= 0xFF,
        0 <= g <= 0xFF,
        0 <= b <= 0xFF,
        -0x800_0000 <= c1 <= 0x800_0000,
        -0x800_0000 <= c2 <= 0x800_0000,
        -0x800_0000 <= c3 <= 0x800_0000,
    ensures
        -COMPONENT_BOUND <= combine(c1, r, c2, g, c3, b) <= COMPONENT_BOUND,
{
    lemma_product_bound(c1, r, 0x800_0000, 0xFF);
    lemma_product_bound(c2, g, 0x800_0000, 0xFF);
    lemma_product_bound(c3, b, 0x800_0000, 0xFF);
    lemma_sum_near(product(c1, r), product(c2, g));
    lemma_sum_near(sum(product(c1, r), product(c2, g)), product(c3, b));
}

/// Every distance is at most `DISTANCE_BOUND` in magnitude.
pub proof fn lemma_distance_bound(a: u32, b: u32)
    ensures
        -DISTANCE_BOUND <= distance(a, b) <= DISTANCE_BOUND,
{
    reveal(distance);
    let r = gap(red(a), red(b));
    let g = gap(green(a), green(b));
    let bl = gap(blue(a), blue(b));
    lemma_component_bound(Y_RED as int, r, Y_GREEN as int, g, Y_BLUE as int, bl);
    lemma_component_bound(U_RED as int, r, U_GREEN as int, g, U_BLUE as int, bl);
    lemma_component_bound(V_RED as int, r, V_GREEN as int, g, V_BLUE as int, bl);
    let y = luma(r, g, bl);
    let u = chroma_u(r, g, bl);
    let v = chroma_v(r, g, bl);
    lemma_product_bound(y, Y_WEIGHT as int, 0x20_0000_0000, 48);
    lemma_product_bound(u, U_WEIGHT as int, 0x20_0000_0000, 7);
    lemma_product_bound(v, V_WEIGHT as int, 0x20_0000_0000, 6);
    lemma_sum_near(product(y, Y_WEIGHT as int), product(u, U_WEIGHT as int));
    lemma_sum_near(
        sum(product(y, Y_WEIGHT as int), product(u, U_WEIGHT as int)),
        product(v, V_WEIGHT as int),
    );
}

/// Rounding changes a value below `2^23 * (e + 1)` in magnitude by at most
/// `e`.
pub proof fn lemma_rounded_error(x: int, e: int)
    requires
        0 <= e,
        magnitude(x) < 0x80_0000 * (e + 1),
    ensures
        magnitude(rounded(x) - x) <= e,
{
    lemma_rounded_near(x);
}

/// A linear form of three channel differences, with coefficients below one
/// in magnitude, is as near to its exact value as five roundings allow.
pub proof fn lemma_component_near(c1: int, r: int, c2: int, g: int, c3: int, b: int)
    requires
        0 <= r <= 0xFF,
        0 <= g <= 0xFF,
        0 <= b <= 0xFF,
        -0x800_0000 <= c1 <= 0x800_0000,
        -0x800_0000 <= c2 <= 0x800_0000,
        -0x800_0000 <= c3 <= 0x800_0000,
    ensures
        magnitude(combine(c1, r, c2, g, c3, b) - (c1 * r + c2 * g + c3 * b)) <= 48 * (r + g + b),
        magnitude(combine(c1, r, c2, g, c3, b)) <= 0x800_0030 * (r + g + b),
{
    let x1 = c1 * r;
    let x2 = c2 * g;
    let x3 = c3 * b;
    assert(magnitude(x1) <= 0x800_0000 * r) by (nonlinear_arith)
        requires
            x1 == c1 * r,
            0 <= r,
            -0x800_0000 <= c1 <= 0x800_0000,
    ;
    assert(magnitude(x2) <= 0x800_0000 * g) by (nonlinear_arith)
        requires
            x2 == c2 * g,
            0 <= g,
            -0x800_0000 <= c2 <= 0x800_0000,
    ;
    assert(magnitude(x3) <= 0x800_0000 * b) by (nonlinear_arith)
        requires
            x3 == c3 * b,
            0 <= b,
            -0x800_0000 <= c3 <= 0x800_0000,
    ;
    lemma_rounded_error(x1, 16 * r);
    lemma_rounded_error(x2, 16 * g);
    lemma_rounded_error(x3, 16 * b);
    let p1 = product(c1, r);
    let p2 = product(c2, g);
    let p3 = product(c3, b);
    assert(magnitude(p1 + p2) <= 0x800_0010 * (r + g));
    lemma_rounded_error(p1 + p2, 16 * (r + g));
    let s1 = sum(p1, p2);
    assert(magnitude(s1 + p3) <= 0x800_0020 * (r + g + b));
    lemma_rounded_error(s1 + p3, 16 * (r + g + b));
}

/// The weighted sum of three components that are small for the channel
/// differences' total `n` is as near to its exact value as five roundings
/// allow.
pub proof fn lemma_weigh_near(y: int, u: int, v: int, n: int)
    requires
        0 <= n <= 765,
        -0x800_0030 * n <= y <= 0x800_0030 * n,
        -0x800_0030 * n <= u <= 0x800_0030 * n,
        -0x800_0030 * n <= v <= 0x800_0030 * n,
    ensures
        48 * y + 7 * u + 6 * v - 2832 * n <= combine(y, 48, u, 7, v, 6) <= 48 * y + 7 * u + 6 * v
            + 2832 * n,
{
    lemma_rounded_error(y * 48, 768 * n);
    lemma_rounded_error(u * 7, 112 * n);
    lemma_rounded_error(v * 6, 96 * n);
    let py = product(y, 48);
    let pu = product(u, 7);
    let pv = product(v, 6);
    assert(y * 48 - 768 * n <= py <= y * 48 + 768 * n);
    assert(u * 7 - 112 * n <= pu <= u * 7 + 112 * n);
    assert(v * 6 - 96 * n <= pv <= v * 6 + 96 * n);
    lemma_rounded_error(py + pu, 880 * n);
    let s1 = sum(py, pu);
    assert(py + pu - 880 * n <= s1 <= py + pu + 880 * n);
    lemma_rounded_error(s1 + pv, 976 * n);
}

/// Pixels of different colours are at a positive distance.
pub proof fn lemma_distance_positive(a: u32, b: u32)
    requires
        !same_color(a, b),
    ensures
        distance(a, b) > 0,
{
    reveal(distance);
    let r = gap(red(a), red(b));
    let g = gap(green(a), green(b));
    let bl = gap(blue(a), blue(b));
    let n = r + g + bl;
    lemma_component_near(40_131_100, r, 78_785_808, g, 15_300_821, bl);
    lemma_component_near(-22_647_362, r, -44_461_500, g, 67_108_864, bl);
    lemma_component_near(67_108_864, r, -56_195_352, g, -10_913_512, bl);
    let y = luma(r, g, bl);
    let u = chroma_u(r, g, bl);
    let v = chroma_v(r, g, bl);
    lemma_weigh_near(y, u, v, n);
    let exact = 2_170_414_450 * r + 3_133_316_172 * g + 1_138_720_384 * bl;
    assert(exact >= 1_138_720_384 * n);
    assert(48 * y + 7 * u + 6 * v >= exact - 2928 * n);
}

/// The distance does not depend on the order of the two pixels.
pub proof fn lemma_distance_symmetric(a: u32, b: u32)
    ensures
        distance(a, b) == distance(b, a),
{
    reveal(distance);
}

/// Pixels of the same colour are at the same distance from any third pixel,
/// and at no distance from each other.
pub proof fn lemma_distance_same_color(a: u32, b: u32, c: u32)
    requires
        same_color(a, b),
    ensures
        distance(a, c) == distance(b, c),
        distance(c, a) == distance(c, b),
        distance(a, b) == 0,
{
    reveal(distance);
    lemma_rounded_near(0);
    assert(forall|x: int| #[trigger] (x * 0) == 0) by (nonlinear_arith);
}

} // verus!

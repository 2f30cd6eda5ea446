//! Single-precision rounding, carried out on integers.
//!
//! The filter's metric is defined in IEEE 754 single-precision arithmetic:
//! every product and every sum is rounded to 24 significant bits, to the
//! nearest value, ties to the even one. All values that occur are whole
//! multiples of a fixed power of two and far from the format's limits, so a
//! value is held here as that whole multiple, and one rounding function on
//! integers gives each operation its exact single-precision result.

use vstd::prelude::*;
use vstd::arithmetic::div_mod::{
    lemma_div_denominator, lemma_fundamental_div_mod, lemma_fundamental_div_mod_converse,
    lemma_mod_bound,
};
use vstd::arithmetic::power2::{lemma2_to64, lemma_pow2_unfold, pow2};

verus! {

/// The first magnitude that does not fit in 24 bits.
pub const MANTISSA_END: u64 = 0x100_0000;

/// The largest magnitude that `round` takes.
pub const ROUND_MAX: i64 = 0x1000_0000_0000_0000;

/// The spacing of the representable values around the magnitude `a`: the
/// power of two that the 24 leading bits of `a` are counted in.
pub open spec fn unit_of(a: nat) -> nat
    decreases a,
{
    if a < 0x100_0000 {
        1
    } else {
        2 * unit_of(a / 2)
    }
}

/// The magnitude `a` rounded to 24 significant bits: the nearest multiple of
/// `unit_of(a)`, and of two that are equally near the even one.
pub open spec fn rounded_nat(a: nat) -> nat {
    let unit = unit_of(a);
    let q = a / unit;
    let rest = a % unit;
    if 2 * rest < unit || (2 * rest == unit && q % 2 == 0) {
        q * unit
    } else {
        (q + 1) * unit
    }
}

/// The value `n` rounded to 24 significant bits. Rounding is symmetric about
/// zero.
#[verifier::opaque]
pub open spec fn rounded(n: int) -> int {
    if n >= 0 {
        rounded_nat(n as nat) as int
    } else {
        -(rounded_nat((-n) as nat) as int)
    }
}

/// The most by which rounding can change a value of magnitude `m`.
pub open spec fn slack(m: int) -> int {
    m / 0x80_0000
}

/// The magnitude of `n`.
pub open spec fn magnitude(n: int) -> int {
    if n >= 0 {
        n
    } else {
        -n
    }
}

/// The spacing is positive, and where it is more than one, the value is at
/// least `2^23` spacings large.
pub proof fn lemma_unit_of(a: nat)
    ensures
        unit_of(a) >= 1,
        unit_of(a) > 1 ==> unit_of(a) * 0x80_0000 <= a,
        a < 0x100_0000 ==> unit_of(a) == 1,
    decreases a,
{
    if a >= 0x100_0000 {
        lemma_unit_of(a / 2);
    }
}

/// Rounding moves a magnitude by less than one spacing, which is at most the
/// `2^23`th part of the magnitude. It keeps zero at zero and everything else
/// away from zero.
pub proof fn lemma_rounded_nat_near(a: nat)
    ensures
        a - slack(a as int) <= rounded_nat(a) <= a + slack(a as int),
        a > 0 ==> rounded_nat(a) > 0,
        a < 0x100_0000 ==> rounded_nat(a) == a,
{
    let unit = unit_of(a);
    lemma_unit_of(a);
    lemma_fundamental_div_mod(a as int, unit as int);
    lemma_mod_bound(a as int, unit as int);
    let q = a / unit;
    let rest = a % unit;
    assert(unit * q == q * unit) by (nonlinear_arith);
    assert((q + 1) * unit == q * unit + unit) by (nonlinear_arith);
    if unit == 1 {
        assert(rest == 0);
        assert(q * unit == a);
    } else {
        assert(0 <= q) by (nonlinear_arith)
            requires
                a == q * unit + rest,
                0 <= rest < unit,
                0 <= a,
                unit >= 1,
        ;
        assert(q >= 1) by (nonlinear_arith)
            requires
                a == q * unit + rest,
                0 <= rest < unit,
                unit * 0x80_0000 <= a,
                0 <= q,
        ;
        assert(q * unit >= unit) by (nonlinear_arith)
            requires
                q >= 1,
                unit >= 1,
        ;
    }
}

/// Rounding moves a value by at most the `2^23`th part of its magnitude,
/// keeps its sign, and leaves whole values below `2^24` as they are.
pub proof fn lemma_rounded_near(n: int)
    ensures
        magnitude(rounded(n) - n) <= slack(magnitude(n)),
        n > 0 ==> rounded(n) > 0,
        n < 0 ==> rounded(n) < 0,
        -0x100_0000 < n < 0x100_0000 ==> rounded(n) == n,
{
    reveal(rounded);
    lemma_rounded_nat_near(magnitude(n) as nat);
}

/// Rounding commutes with doubling.
pub proof fn lemma_rounded_nat_twice(a: nat)
    ensures
        rounded_nat(2 * a) == 2 * rounded_nat(a),
{
    if 2 * a < 0x100_0000 {
        lemma_rounded_nat_near(a);
        lemma_rounded_nat_near(2 * a);
    } else {
        let unit = unit_of(a);
        lemma_unit_of(a);
        assert((2 * a) / 2 == a);
        assert(unit_of(2 * a) == 2 * unit);
        let q = a / unit;
        let rest = a % unit;
        lemma_fundamental_div_mod(a as int, unit as int);
        lemma_mod_bound(a as int, unit as int);
        assert(2 * a == q * (2 * unit) + 2 * rest) by (nonlinear_arith)
            requires
                a == unit * q + rest,
        ;
        lemma_fundamental_div_mod_converse((2 * a) as int, (2 * unit) as int, q as int, (2 * rest) as int);
        assert(q * (2 * unit) == 2 * (q * unit)) by (nonlinear_arith);
        assert((q + 1) * (2 * unit) == 2 * ((q + 1) * unit)) by (nonlinear_arith);
    }
}

/// Rounding commutes with scaling by a power of two.
pub proof fn lemma_rounded_nat_scaled(a: nat, k: nat)
    ensures
        rounded_nat(a * pow2(k)) == rounded_nat(a) * pow2(k),
    decreases k,
{
    if k == 0 {
        lemma2_to64();
        assert(a * 1 == a && rounded_nat(a) * 1 == rounded_nat(a));
    } else {
        let below = pow2((k - 1) as nat);
        lemma_pow2_unfold(k);
        lemma_rounded_nat_scaled(a, (k - 1) as nat);
        lemma_rounded_nat_twice(a * below);
        assert(a * (2 * below) == 2 * (a * below)) by (nonlinear_arith);
        assert(rounded_nat(a) * (2 * below) == 2 * (rounded_nat(a) * below)) by (nonlinear_arith);
    }
}

/// A whole number of halves that fits in 24 bits is held exactly, in the unit
/// `2^-27`.
pub proof fn lemma_rounded_halves(c: int)
    requires
        -0x100_0000 < c < 0x100_0000,
    ensures
        rounded(c * 0x400_0000) == c * 0x400_0000,
{
    reveal(rounded);
    lemma2_to64();
    let a = magnitude(c) as nat;
    lemma_rounded_nat_scaled(a, 26);
    lemma_rounded_nat_near(a);
}

/// Rounds the magnitude `a` to 24 significant bits.
pub fn round_magnitude(a: u64) -> (r: u64)
    requires
        a <= ROUND_MAX,
    ensures
        r == rounded_nat(a as nat),
        a - slack(a as int) <= r <= a + slack(a as int),
{
    proof {
        lemma_rounded_nat_near(a as nat);
    }
    let mut q: u64 = a;
    let mut unit: u64 = 1;
    while q >= MANTISSA_END
        invariant
            unit >= 1,
            q == a as int / unit as int,
            unit * q <= a,
            a <= ROUND_MAX,
            unit_of(a as nat) == unit * unit_of(q as nat),
        decreases q,
    {
        proof {
            lemma_div_denominator(a as int, unit as int, 2);
            assert(unit * 2 <= ROUND_MAX && (unit * 2) * (q / 2) <= a) by (nonlinear_arith)
                requires
                    unit * q <= a,
                    q >= 0x100_0000,
                    a <= ROUND_MAX,
                    unit >= 1,
            ;
            assert(unit * (2 * unit_of((q / 2) as nat)) == (unit * 2) * unit_of((q / 2) as nat))
                by (nonlinear_arith);
        }
        q = q / 2;
        unit = unit * 2;
    }
    assert(unit_of(a as nat) == unit) by (nonlinear_arith)
        requires
            unit_of(a as nat) == unit * unit_of(q as nat),
            unit_of(q as nat) == 1,
    ;
    proof {
        lemma_fundamental_div_mod(a as int, unit as int);
        lemma_mod_bound(a as int, unit as int);
        assert(unit * q == q * unit) by (nonlinear_arith);
        assert((q + 1) * unit == q * unit + unit) by (nonlinear_arith);
    }
    let rest: u64 = a % unit;
    if 2 * rest < unit || (2 * rest == unit && q % 2 == 0) {
        q * unit
    } else {
        (q + 1) * unit
    }
}

/// Rounds `n` to 24 significant bits.
pub fn round(n: i64) -> (r: i64)
    requires
        -ROUND_MAX <= n <= ROUND_MAX,
    ensures
        r == rounded(n as int),
        magnitude(r - n) <= slack(magnitude(n as int)),
{
    proof {
        reveal(rounded);
        lemma_rounded_near(n as int);
    }
    if n >= 0 {
        round_magnitude(n as u64) as i64
    } else {
        -(round_magnitude((-n) as u64) as i64)
    }
}

} // verus!

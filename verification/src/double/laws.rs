//! Laws of the arithmetic.

use vstd::arithmetic::div_mod::*;
use vstd::arithmetic::power2::*;
use vstd::prelude::*;

use super::arithmetic;
use super::arithmetic::UNIT;
use super::rounding;
use super::rounding::{HIDDEN, INFINITE};
use super::value;
use super::value::Double;

verus! {

/// What `signed` builds has the sign and the magnitude that it was given.
pub proof fn lemma_signed(negative: bool, magnitude: int)
    requires
        0 <= magnitude <= INFINITE,
    ensures
        value::signed(negative, magnitude).is_negative() == negative,
        value::signed(negative, magnitude).mag() == magnitude,
        !value::signed(negative, magnitude).is_nan(),
{
}

/// The ratio of naturals is no less than zero and below infinity.
pub proof fn lemma_ratio(n: u32, d: u32)
    requires
        d > 0,
    ensures
        Double::ratio(n, d).is_finite(),
        !Double::ratio(n, d).is_negative(),
        Double::ratio(n, d).mag() == rounding::rounded(n as nat * pow2(UNIT as nat), d as nat),
        n == 0 ==> Double::ratio(n, d).mag() == 0,
{
    reveal(Double::spec_ratio);
    let one: nat = pow2(UNIT as nat);
    let p: nat = n as nat * one;
    lemma_pow2_pos(UNIT as nat);
    // At most 2^32, which is finite.
    lemma2_to64();
    lemma2_to64_rest();
    lemma_pow2_adds(52, (UNIT - 20) as nat);
    lemma_pow2_adds(32, UNIT as nat);
    assert(HIDDEN * pow2((UNIT - 20) as nat) == pow2(32) * one);
    rounding::lemma_rounded_exact(HIDDEN as nat, (UNIT - 20) as nat);
    assert(p * 1 <= (pow2(32) * one) * d) by (nonlinear_arith)
        requires
            p == n * one,
            n <= pow2(32),
            d >= 1,
    ;
    rounding::lemma_rounded_monotone(p, d as nat, pow2(32) * one, 1);
    rounding::lemma_excess_fits(p, d as nat);
    if n == 0 {
        assert(p == 0);
        lemma_zero_rounds(d as nat);
    }
}

/// Zero rounds to zero.
pub proof fn lemma_zero_rounds(q: nat)
    requires
        q > 0,
    ensures
        rounding::rounded(0, q) == 0,
{
    rounding::lemma_rounded_exact(0, 0);
    lemma2_to64();
    assert(0 * pow2(0) == 0);
    rounding::lemma_rounded_scale(0, 1, q);
    assert(0 * q == 0);
    assert(1 * q == q);
}

/// Decimal fractions are ordered like the fractions they denote.
pub proof fn lemma_ratio_order(n1: u32, d1: u32, n2: u32, d2: u32)
    requires
        d1 > 0,
        d2 > 0,
        n1 * d2 <= n2 * d1,
    ensures
        Double::ratio(n1, d1).le(Double::ratio(n2, d2)),
{
    lemma_ratio(n1, d1);
    lemma_ratio(n2, d2);
    let one: nat = pow2(UNIT as nat);
    assert((n1 * one) * d2 <= (n2 * one) * d1) by (nonlinear_arith)
        requires
            n1 * d2 <= n2 * d1,
    ;
    rounding::lemma_rounded_monotone(n1 as nat * one, d1 as nat, n2 as nat * one, d2 as nat);
}

/// A negative power of two is exact.
pub proof fn lemma_binary_fraction(k: nat, d: u32)
    requires
        k <= 20,
        d == pow2(k),
    ensures
        d > 0,
        Double::ratio(1, d).units() == pow2((UNIT - k) as nat),
        Double::ratio(1, d).mag() == (UNIT - k - 52) * HIDDEN + HIDDEN,
        Double::ratio(1, d).is_finite(),
        !Double::ratio(1, d).is_negative(),
{
    reveal(Double::spec_ratio);
    let e: nat = (UNIT - k - 52) as nat;
    lemma_pow2_pos(k);
    lemma2_to64();
    lemma2_to64_rest();
    lemma_pow2_adds(k, (UNIT - k) as nat);
    lemma_pow2_adds(52, e);
    let m: nat = pow2((UNIT - k) as nat);
    assert(m * (d as nat) == pow2(UNIT as nat)) by (nonlinear_arith)
        requires
            pow2(k) * m == pow2(UNIT as nat),
            d == pow2(k),
    ;
    assert(1 * (d as nat) == d);
    rounding::lemma_rounded_scale(m, 1, d as nat);
    rounding::lemma_rounded_exact(HIDDEN as nat, e);
    assert(1nat * pow2(UNIT as nat) == pow2(UNIT as nat));
    let x = Double::ratio(1, d);
    lemma_signed(false, e * HIDDEN + HIDDEN);
    assert(x.mag() == e * HIDDEN + HIDDEN);
    assert(x.exp() == e) by (nonlinear_arith)
        requires
            x.mag() == e * HIDDEN + HIDDEN,
            x.exp() == (if x.mag() < HIDDEN { 0 } else { (x.mag() / HIDDEN as int - 1) as nat }),
            HIDDEN == 0x10_0000_0000_0000,
    ;
}

/// Rounding to a multiple of `w` adds or takes away no more than half of it.
pub proof fn lemma_nearest_error(p: nat, w: nat)
    requires
        w > 0,
    ensures
        2 * (rounding::nearest_even(p, w) * w) <= 2 * p + w,
        2 * p <= 2 * (rounding::nearest_even(p, w) * w) + w,
{
    lemma_fundamental_div_mod(p as int, w as int);
    lemma_mod_bound(p as int, w as int);
    let f: int = p as int / w as int;
    let r: int = p as int % w as int;
    assert(w * f == f * w) by (nonlinear_arith);
    assert((f + 1) * w == f * w + w) by (nonlinear_arith);
}

/// What a rounded ratio of units is, in units.
pub proof fn lemma_rounded_units(p: nat, q: nat)
    requires
        q > 0,
        rounding::rounded(p, q) < INFINITE,
    ensures
        value::signed(false, rounding::rounded(p, q)).units() == rounding::nearest_even(
            p,
            q * pow2(rounding::excess(p, q)),
        ) * pow2(rounding::excess(p, q)),
{
    let e: nat = rounding::excess(p, q);
    let w: nat = pow2(e);
    rounding::lemma_significand_range(p, q);
    let n: nat = rounding::nearest_even(p, q * w);
    let x = value::signed(false, rounding::rounded(p, q));
    rounding::lemma_excess_fits(p, q);
    lemma_pow2_unfold(e + 1);
    lemma_pow2_pos(e);
    lemma_signed(false, rounding::rounded(p, q));
    assert(x.mag() == e * HIDDEN + n);
    if n == 2 * HIDDEN {
        assert(x.exp() == e + 1) by (nonlinear_arith)
            requires
                x.mag() == e * HIDDEN + 2 * HIDDEN,
                x.exp() == (if x.mag() < HIDDEN {
                    0
                } else {
                    (x.mag() / HIDDEN as int - 1) as nat
                }),
                HIDDEN == 0x10_0000_0000_0000,
        ;
        assert((e + 1) * HIDDEN == e * HIDDEN + HIDDEN) by (nonlinear_arith);
        assert(HIDDEN * (2 * w) == (2 * HIDDEN) * w) by (nonlinear_arith);
    } else {
        assert(x.exp() == e) by (nonlinear_arith)
            requires
                x.mag() == e * HIDDEN + n,
                n < 2 * HIDDEN,
                e > 0 ==> n >= HIDDEN,
                x.exp() == (if x.mag() < HIDDEN {
                    0
                } else {
                    (x.mag() / HIDDEN as int - 1) as nat
                }),
                HIDDEN == 0x10_0000_0000_0000,
        ;
    }
}

/// A number below two to the power `53 + k` units grows by no more than half of two to the
/// power `k` when it is rounded.
pub proof fn lemma_rounding_error(v: nat, k: nat)
    requires
        v < 2 * HIDDEN * pow2(k),
        rounding::rounded(v, 1) < INFINITE,
    ensures
        2 * value::signed(false, rounding::rounded(v, 1)).units() <= 2 * v + pow2(k),
{
    let e: nat = rounding::excess(v, 1);
    rounding::lemma_excess_fits(v, 1);
    lemma_rounded_units(v, 1);
    assert(1 * pow2(e) == pow2(e));
    lemma_pow2_pos(e);
    lemma_nearest_error(v, pow2(e));
    if e > k {
        lemma_pow2_unfold(e);
        if e - 1 > k {
            lemma_pow2_strictly_increases(k, (e - 1) as nat);
        }
        assert(1 * HIDDEN * pow2(e) >= 2 * HIDDEN * pow2(k)) by (nonlinear_arith)
            requires
                pow2(e) >= 2 * pow2(k),
        ;
    } else if e < k {
        lemma_pow2_strictly_increases(e, k);
    }
}

} // verus!

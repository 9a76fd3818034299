//! How far the arithmetic is from the exact results.

use vstd::arithmetic::div_mod::*;
use vstd::arithmetic::mul::*;
use vstd::arithmetic::power2::*;
use vstd::prelude::*;

use super::arithmetic;
use super::arithmetic::UNIT;
use super::integers;
use super::laws;
use super::order;
use super::rounding;
use super::rounding::{HIDDEN, INFINITE};
use super::value;
use super::value::Double;

verus! {

/// Whether `a` is near `b`: not further than a part in two to the power 53 of `b`, and half of
/// `unit`.
pub open spec fn near(a: int, b: int, unit: int) -> bool {
    let size = if b < 0 {
        -b
    } else {
        b
    };
    &&& 2 * HIDDEN * (a - b) <= size + HIDDEN * unit
    &&& 2 * HIDDEN * (b - a) <= size + HIDDEN * unit
}

/// What it is to be near, in figures.
pub proof fn near_in_figures(a: int, b: int, unit: int, size: int)
    requires
        near(a, b, unit),
        size == (if b < 0 {
            -b
        } else {
            b
        }),
    ensures
        0x20_0000_0000_0000 * (a - b) <= size + 0x10_0000_0000_0000 * unit,
        0x20_0000_0000_0000 * (b - a) <= size + 0x10_0000_0000_0000 * unit,
{
    assert(2 * HIDDEN * (a - b) == 0x20_0000_0000_0000 * (a - b)) by (nonlinear_arith)
        requires
            HIDDEN == 0x10_0000_0000_0000,
    ;
    assert(2 * HIDDEN * (b - a) == 0x20_0000_0000_0000 * (b - a)) by (nonlinear_arith)
        requires
            HIDDEN == 0x10_0000_0000_0000,
    ;
    assert(HIDDEN * unit == 0x10_0000_0000_0000 * unit) by (nonlinear_arith)
        requires
            HIDDEN == 0x10_0000_0000_0000,
    ;
}

/// A ratio that is not too large rounds to a number that is near it.
pub proof fn lemma_near(p: nat, q: nat)
    requires
        q > 0,
        p <= q * pow2(2000),
    ensures
        rounding::rounded(p, q) < INFINITE,
        rounding::rounded(p, q) >= 0,
        near(
            (value::signed(false, rounding::rounded(p, q)).units() * q) as int,
            p as int,
            q as int,
        ),
{
    integers::lemma_exact(1, 2000);
    assert(1 * pow2(2000) == pow2(2000));
    assert(p * 1 <= pow2(2000) * q) by (nonlinear_arith)
        requires
            p <= q * pow2(2000),
    ;
    rounding::lemma_rounded_monotone(p, q, pow2(2000), 1);
    laws::lemma_zero_rounds(q);
    assert(0 * q == 0);
    rounding::lemma_rounded_monotone(0, q, p, q);
    let e = rounding::excess(p, q);
    let w: nat = q * pow2(e);
    rounding::lemma_excess_fits(p, q);
    lemma_pow2_pos(e);
    lemma_mul_strictly_positive(q as int, pow2(e) as int);
    laws::lemma_nearest_error(p, w);
    laws::lemma_rounded_units(p, q);
    let n = rounding::nearest_even(p, w);
    let u = value::signed(false, rounding::rounded(p, q)).units();
    assert(u * q == n * w) by (nonlinear_arith)
        requires
            u == n * pow2(e),
            w == q * pow2(e),
    ;
    lemma2_to64();
    assert(HIDDEN * w <= p + HIDDEN * q) by {
        if e == 0 {
            assert(w == q) by (nonlinear_arith)
                requires
                    w == q * pow2(e),
                    pow2(e) == 1,
            ;
        } else {
            assert(HIDDEN * w == q * HIDDEN * pow2(e)) by (nonlinear_arith)
                requires
                    w == q * pow2(e),
            ;
        }
    }
    let d: int = n * w - p;
    assert(-(w as int) <= 2 * d <= w);
    assert(2 * HIDDEN * d <= HIDDEN * w && 2 * HIDDEN * (-d) <= HIDDEN * w);
}

/// A sum that is not too large is near the exact sum.
pub proof fn plus_is_near(a: Double, b: Double)
    requires
        a.is_finite(),
        b.is_finite(),
        -pow2(2000) <= a.val() + b.val() <= pow2(2000),
    ensures
        a.plus(b).is_finite(),
        near(a.plus(b).val(), a.val() + b.val(), 1),
{
    reveal(Double::spec_plus);
    let sum = a.val() + b.val();
    let m = arithmetic::magnitude_of(sum);
    lemma_near(m, 1);
    let r = rounding::rounded(m, 1);
    let negative = sum < 0 || (sum == 0 && a.is_negative() && b.is_negative());
    laws::lemma_signed(negative, r);
    laws::lemma_signed(false, r);
    let u = value::signed(false, r).units();
    assert(a.plus(b).units() == u);
    assert(u * 1 == u);
    if sum == 0 {
        laws::lemma_zero_rounds(1);
        value::lemma_finite_parts(a.plus(b));
    }
}

/// The opposite number has the opposite value.
pub proof fn negated_value(a: Double)
    requires
        a.is_finite(),
    ensures
        a.negated().is_finite(),
        a.negated().val() == -a.val(),
{
    laws::lemma_signed(!a.is_negative(), a.mag());
    value::lemma_finite_parts(a);
    value::lemma_finite_parts(a.negated());
}

/// A quotient by a number above zero, if it is not too large, is near the exact quotient.
pub proof fn over_is_near(a: Double, t: Double)
    requires
        a.is_finite(),
        t.is_finite(),
        t.val() > 0,
        a.units() * pow2(UNIT as nat) <= t.units() * pow2(2000),
    ensures
        a.over(t).is_finite(),
        near(a.over(t).val() * t.val(), a.val() * pow2(UNIT as nat), t.val()),
{
    reveal(Double::spec_over);
    let one = pow2(UNIT as nat);
    let p: nat = a.units() * one;
    let q = t.units();
    value::lemma_finite_parts(t);
    lemma_near(p, q);
    let r = rounding::rounded(p, q);
    laws::lemma_signed(a.is_negative(), r);
    laws::lemma_signed(false, r);
    let u = value::signed(false, r).units();
    let c = a.over(t);
    assert(c.units() == u);
    if a.is_negative() {
        assert(c.val() * t.val() == -(u * q) && a.val() * one == -p) by (nonlinear_arith)
            requires
                c.val() == -(u as int),
                t.val() == q,
                a.val() == -(a.units() as int),
                p == a.units() * one,
        ;
    }
}

/// A product that is not too large is near the exact product.
pub proof fn times_is_near(a: Double, b: Double)
    requires
        a.is_finite(),
        b.is_finite(),
        a.units() * b.units() <= pow2(UNIT as nat) * pow2(2000),
    ensures
        a.times(b).is_finite(),
        near(a.times(b).val() * pow2(UNIT as nat), a.val() * b.val(), pow2(UNIT as nat) as int),
{
    reveal(Double::spec_times);
    let one = pow2(UNIT as nat);
    let p: nat = a.units() * b.units();
    lemma_pow2_pos(UNIT as nat);
    lemma_near(p, one);
    let r = rounding::rounded(p, one);
    let negative = a.is_negative() != b.is_negative();
    laws::lemma_signed(negative, r);
    laws::lemma_signed(false, r);
    let u = value::signed(false, r).units();
    let c = a.times(b);
    assert(c.units() == u);
    assert(a.val() * b.val() == (if negative {
        -(p as int)
    } else {
        p as int
    })) by (nonlinear_arith)
        requires
            p == a.units() * b.units(),
            a.val() == (if a.is_negative() {
                -(a.units() as int)
            } else {
                a.units() as int
            }),
            b.val() == (if b.is_negative() {
                -(b.units() as int)
            } else {
                b.units() as int
            }),
            negative == (a.is_negative() != b.is_negative()),
    ;
    if negative {
        assert(c.val() * one == -(u * one)) by (nonlinear_arith)
            requires
                c.val() == -(u as int),
        ;
    }
}

/// The number nearest to a fraction of one is near it.
pub proof fn fraction_is_near(n: u32)
    requires
        n > 0,
    ensures
        Double::ratio(1, n).is_finite(),
        Double::ratio(1, n).val() > 0,
        2 * HIDDEN * (Double::ratio(1, n).val() * n - pow2(UNIT as nat)) <= 2 * pow2(UNIT as nat),
        2 * HIDDEN * (pow2(UNIT as nat) - Double::ratio(1, n).val() * n) <= 2 * pow2(UNIT as nat),
{
    reveal(Double::spec_ratio);
    let one = pow2(UNIT as nat);
    let x = Double::ratio(1, n);
    laws::lemma_ratio(1, n);
    lemma2_to64();
    lemma2_to64_rest();
    lemma_pow2_adds(64, (UNIT - 64) as nat);
    lemma_pow2_adds(84, (UNIT - 84) as nat);
    lemma_pow2_adds(52, 32);
    lemma_pow2_pos((UNIT - 84) as nat);
    lemma_pow2_strictly_increases(UNIT as nat, 2000);
    assert(1nat * one == one);
    assert(one <= n * pow2(2000)) by (nonlinear_arith)
        requires
            one <= pow2(2000),
            n >= 1,
    ;
    lemma_near(one, n as nat);
    assert(HIDDEN * n <= one) by (nonlinear_arith)
        requires
            n < 0x1_0000_0000,
            one == pow2(84) * pow2((UNIT - 84) as nat),
            pow2(84) == HIDDEN * 0x1_0000_0000,
            pow2((UNIT - 84) as nat) >= 1,
    ;
    if x.val() == 0 {
        assert(x.units() * n == 0) by (nonlinear_arith)
            requires
                x.units() == 0,
        ;
    }
}

/// The whole numbers below and above a number, where they are below two to the power 53.
pub proof fn whole_values(x: Double)
    requires
        x.is_finite(),
        -HIDDEN * pow2(UNIT as nat) <= x.val() <= HIDDEN * pow2(UNIT as nat),
    ensures
        x.floor().is_finite(),
        x.ceil().is_finite(),
        x.floor().val() == (x.val() / pow2(UNIT as nat) as int) * pow2(UNIT as nat),
        x.ceil().val() == -((-x.val()) / pow2(UNIT as nat) as int) * pow2(UNIT as nat),
        -HIDDEN <= x.val() / pow2(UNIT as nat) as int <= HIDDEN,
        -HIDDEN <= (-x.val()) / pow2(UNIT as nat) as int <= HIDDEN,
{
    let one = pow2(UNIT as nat);
    lemma_pow2_pos(UNIT as nat);
    order::lemma_whole_keys(x);
    assert(-(HIDDEN * one) == -HIDDEN * one) by (nonlinear_arith);
    lemma_whole_part(x.val(), one as int);
    lemma_whole_part(-x.val(), one as int);
    lemma_from_key(x.floor(), x.val() / one as int);
    lemma_from_key(x.ceil(), -((-x.val()) / one as int));
    assert((-((-x.val()) / one as int)) * one == -((-x.val()) / one as int) * one);
}

/// The whole part of a number in bounds is in bounds.
proof fn lemma_whole_part(v: int, one: int)
    requires
        one > 0,
        -HIDDEN * one <= v <= HIDDEN * one,
    ensures
        -HIDDEN <= v / one <= HIDDEN,
{
    lemma_fundamental_div_mod(v, one);
    lemma_mod_bound(v, one);
    let k = v / one;
    assert(-HIDDEN <= k <= HIDDEN) by (nonlinear_arith)
        requires
            v == one * k + v % one,
            0 <= v % one < one,
            -HIDDEN * one <= v <= HIDDEN * one,
            one > 0,
    ;
}

/// The value of a number with the key of a whole one.
proof fn lemma_from_key(x: Double, k: int)
    requires
        -HIDDEN <= k <= HIDDEN,
        !x.is_nan(),
        x.key() == order::rounded_key(k * pow2(UNIT as nat), 1),
    ensures
        x.is_finite(),
        x.val() == k * pow2(UNIT as nat),
{
    let one = pow2(UNIT as nat);
    lemma_pow2_pos(UNIT as nat);
    let m: nat = if k < 0 {
        (-k) as nat
    } else {
        k as nat
    };
    integers::lemma_exact(m, UNIT as nat);
    let r = rounding::rounded(m * one, 1);
    assert(k < 0 ==> k * one < 0 && -(k * one) == m * one) by (nonlinear_arith)
        requires
            one > 0,
            k < 0 ==> m == -k,
    ;
    assert(k >= 0 ==> k * one >= 0) by (nonlinear_arith)
        requires
            one > 0,
    ;
    order::lemma_key_monotone(0, (m * one) as int, 1);
    laws::lemma_zero_rounds(1);
    laws::lemma_signed(false, r);
    let y = value::signed(false, r);
    assert(x.mag() == r);
    assert(x.units() == y.units());
    value::lemma_finite_parts(x);
    if k == 0 {
        assert(m * one == 0) by (nonlinear_arith)
            requires
                m == 0,
        ;
        assert(k * one == 0) by (nonlinear_arith)
            requires
                k == 0,
        ;
    } else if r == 0 {
        assert(m * one > 0) by (nonlinear_arith)
            requires
                m > 0,
                one > 0,
        ;
    }
}

} // verus!

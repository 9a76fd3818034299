//! Whole numbers: up to two to the power 53 they are exact.

use vstd::arithmetic::div_mod::*;
use vstd::arithmetic::mul::*;
use vstd::arithmetic::power2::*;
use vstd::prelude::*;

use super::arithmetic;
use super::arithmetic::UNIT;
use super::laws;
use super::rounding;
use super::rounding::{HIDDEN, INFINITE};
use super::value;
use super::value::Double;

verus! {

/// A number of at most 53 binary digits, times a power of two, is its own rounding.
pub proof fn lemma_exact(m: nat, e: nat)
    requires
        m < 2 * HIDDEN,
        e <= 2045,
    ensures
        rounding::rounded(m * pow2(e), 1) < INFINITE,
        value::signed(false, rounding::rounded(m * pow2(e), 1)).units() == m * pow2(e),
    decreases e,
{
    if e == 0 || m >= HIDDEN {
        rounding::lemma_rounded_exact(m, e);
        let x = value::signed(false, rounding::rounded(m * pow2(e), 1));
        laws::lemma_signed(false, e * HIDDEN + m);
        assert(x.exp() == e && x.sig() == m) by (nonlinear_arith)
            requires
                x.mag() == e * HIDDEN + m,
                m < 2 * HIDDEN,
                e > 0 ==> m >= HIDDEN,
                x.exp() == (if x.mag() < HIDDEN {
                    0
                } else {
                    (x.mag() / HIDDEN as int - 1) as nat
                }),
                x.sig() == (x.mag() - x.exp() * HIDDEN) as nat,
                HIDDEN == 0x10_0000_0000_0000,
        ;
    } else {
        lemma_exact(2 * m, (e - 1) as nat);
        lemma_pow2_unfold(e);
        assert((2 * m) * pow2((e - 1) as nat) == m * pow2(e)) by (nonlinear_arith)
            requires
                pow2(e) == 2 * pow2((e - 1) as nat),
        ;
    }
}

/// A whole number stands for itself.
pub proof fn whole_numbers_are_exact(n: u32)
    ensures
        Double::ratio(n, 1).is_finite(),
        !Double::ratio(n, 1).is_negative(),
        Double::ratio(n, 1).val() == n * pow2(UNIT as nat),
        Double::ratio(n, 1).units() == n * pow2(UNIT as nat),
{
    reveal(Double::spec_ratio);
    lemma_exact(n as nat, UNIT as nat);
    laws::lemma_ratio(n, 1);
}

/// Whole numbers are ordered like the numbers they stand for.
pub proof fn whole_numbers_are_ordered(m: u32, n: u32)
    ensures
        Double::ratio(m, 1).lt(Double::ratio(n, 1)) <==> m < n,
        Double::ratio(m, 1).le(Double::ratio(n, 1)) <==> m <= n,
        Double::ratio(m, 1).same(Double::ratio(n, 1)) <==> m == n,
{
    whole_numbers_are_exact(m);
    whole_numbers_are_exact(n);
    lemma_pow2_pos(UNIT as nat);
    let one = pow2(UNIT as nat) as int;
    assert(m * one < n * one <==> m < n) by (nonlinear_arith)
        requires
            one > 0,
    ;
    assert(m * one == n * one <==> m == n) by (nonlinear_arith)
        requires
            one > 0,
    ;
    value::lemma_order(Double::ratio(m, 1), Double::ratio(n, 1));
}

/// Sums, differences and products of whole numbers are exact.
pub proof fn whole_numbers_add_and_multiply(m: u32, n: u32)
    ensures
        m + n <= u32::MAX ==> Double::ratio(m, 1).plus(Double::ratio(n, 1)) == Double::ratio(
            (m + n) as u32,
            1,
        ),
        m >= n ==> Double::ratio(m, 1).minus(Double::ratio(n, 1)) == Double::ratio(
            (m - n) as u32,
            1,
        ),
        m * n <= u32::MAX ==> Double::ratio(m, 1).times(Double::ratio(n, 1)) == Double::ratio(
            (m * n) as u32,
            1,
        ),
{
    let a = Double::ratio(m, 1);
    let b = Double::ratio(n, 1);
    let one = pow2(UNIT as nat);
    whole_numbers_are_exact(m);
    whole_numbers_are_exact(n);
    lemma_pow2_pos(UNIT as nat);
    if m + n <= u32::MAX {
        assert(a.val() + b.val() == (m + n) * one) by (nonlinear_arith)
            requires
                a.val() == m * one,
                b.val() == n * one,
        ;
        lemma_mul_nonnegative(m + n, one as int);
        reveal(Double::spec_plus);
        reveal(Double::spec_ratio);
    }
    if m >= n {
        laws::lemma_signed(true, b.mag());
        value::lemma_order(b, b.negated());
        value::lemma_finite_parts(b);
        value::lemma_finite_parts(b.negated());
        assert(b.negated().val() == -b.val());
        assert(a.val() - b.val() == (m - n) * one) by (nonlinear_arith)
            requires
                a.val() == m * one,
                b.val() == n * one,
        ;
        lemma_mul_nonnegative(m - n, one as int);
        reveal(Double::spec_plus);
        reveal(Double::spec_ratio);
    }
    if m * n <= u32::MAX {
        let p: nat = (m * n) as nat;
        assert(a.units() * b.units() == (p * one) * one) by (nonlinear_arith)
            requires
                a.units() == m * one,
                b.units() == n * one,
                p == m * n,
        ;
        assert(1 * one == one);
        rounding::lemma_rounded_scale(p * one, 1, one);
        reveal(Double::spec_times);
        reveal(Double::spec_ratio);
    }
}

/// An integer of at most 53 binary digits comes back from its number.
pub proof fn integers_come_back(n: i64)
    requires
        -0x20_0000_0000_0000 < n < 0x20_0000_0000_0000,
    ensures
        Double::from_int(n).to_int() == n,
        n >= 0 ==> Double::from_nat(n as u64).to_nat() == n,
{
    reveal(Double::spec_from_int);
    reveal(Double::spec_to_int);
    reveal(Double::spec_from_nat);
    reveal(Double::spec_to_nat);
    let one = pow2(UNIT as nat);
    let m = arithmetic::magnitude_of(n as int);
    lemma_pow2_pos(UNIT as nat);
    lemma_exact(m, UNIT as nat);
    let r = rounding::rounded(m * one, 1);
    laws::lemma_zero_rounds(1);
    lemma_mul_nonnegative(m as int, one as int);
    rounding::lemma_rounded_monotone(0, 1, m * one, 1);
    laws::lemma_signed(false, r);
    laws::lemma_signed(n < 0, r);
    let x = Double::from_int(n);
    assert(x.units() == value::signed(false, r).units());
    lemma_div_multiples_vanish(m as int, one as int);
    assert(one * m == m * one) by (nonlinear_arith);
    assert(x.whole() == n);
}

/// The number of a natural number is finite and not below zero.
pub proof fn lemma_from_nat(n: u64)
    ensures
        Double::from_nat(n).is_finite(),
        !Double::from_nat(n).is_negative(),
        Double::from_nat(n).mag() == rounding::rounded(n as nat * pow2(UNIT as nat), 1),
        n < 0x20_0000_0000_0000 ==> Double::from_nat(n).units() == n * pow2(UNIT as nat),
{
    reveal(Double::spec_from_nat);
    let one = pow2(UNIT as nat);
    lemma_pow2_pos(UNIT as nat);
    lemma2_to64();
    lemma2_to64_rest();
    lemma_pow2_adds(64, UNIT as nat);
    lemma_exact(1, (UNIT + 64) as nat);
    assert(1 * pow2((UNIT + 64) as nat) == pow2((UNIT + 64) as nat));
    assert(n as nat * one * 1 <= pow2(64) * one * 1) by (nonlinear_arith)
        requires
            n <= pow2(64),
    ;
    rounding::lemma_rounded_monotone(n as nat * one, 1, pow2(64) * one, 1);
    laws::lemma_zero_rounds(1);
    lemma_mul_nonnegative(n as int, one as int);
    rounding::lemma_rounded_monotone(0, 1, n as nat * one, 1);
    laws::lemma_signed(false, rounding::rounded(n as nat * one, 1));
    if n < 0x20_0000_0000_0000 {
        lemma_exact(n as nat, UNIT as nat);
    }
}

/// A natural number that is not above the whole part of a number is not above the number.
pub proof fn whole_part_is_not_above(x: Double, n: u64)
    requires
        Double::ratio(0, 1).le(x),
        n <= x.to_nat(),
    ensures
        Double::from_nat(n).le(x),
        Double::from_nat(n).is_finite(),
        Double::ratio(0, 1).le(Double::from_nat(n)),
{
    reveal(Double::spec_to_nat);
    lemma_from_nat(n);
    laws::lemma_ratio(0, 1);
    let one = pow2(UNIT as nat);
    lemma_pow2_pos(UNIT as nat);
    if x.is_finite() {
        value::lemma_finite_parts(x);
        let u = x.units();
        lemma_fundamental_div_mod(u as int, one as int);
        lemma_mod_bound(u as int, one as int);
        if x.is_negative() {
            laws::lemma_zero_rounds(1);
        } else {
            assert(n * one <= u) by (nonlinear_arith)
                requires
                    n <= u / one,
                    u == one * (u / one) + u % one,
                    u % one >= 0,
                    one > 0,
            ;
            rounding::lemma_rounded_monotone(n as nat * one, 1, u, 1);
        }
    }
}

/// Taking a whole number other than zero away from a number with no more than 53 binary digits
/// before the point makes it smaller.
pub proof fn taking_away_lowers(x: Double, n: u64)
    requires
        Double::ratio(0, 1).le(x),
        1 <= n <= x.to_nat(),
        x.to_nat() < 0x20_0000_0000_0000,
    ensures
        x.minus(Double::from_nat(n)).lt(x),
{
    reveal(Double::spec_to_nat);
    reveal(Double::spec_plus);
    let m = Double::from_nat(n);
    lemma_from_nat(n);
    whole_part_is_not_above(x, n);
    laws::lemma_ratio(0, 1);
    let one = pow2(UNIT as nat);
    lemma_pow2_pos(UNIT as nat);
    value::lemma_finite_parts(x);
    value::lemma_finite_parts(m);
    laws::lemma_signed(true, m.mag());
    value::lemma_order(m, x);
    let u = x.units();
    lemma_fundamental_div_mod(u as int, one as int);
    lemma_mod_bound(u as int, one as int);
    assert(n * one <= u && u < 0x20_0000_0000_0000 * one) by (nonlinear_arith)
        requires
            n <= u / one,
            u / one < 0x20_0000_0000_0000,
            u == one * (u / one) + u % one,
            0 <= u % one < one,
            one > 0,
    ;
    assert(n * one >= one) by (nonlinear_arith)
        requires
            n >= 1,
            one > 0,
    ;
    let v: nat = (u - n * one) as nat;
    assert(x.val() + m.negated().val() == v);
    rounding::lemma_rounded_monotone(v, 1, u, 1);
    laws::lemma_zero_rounds(1);
    rounding::lemma_rounded_monotone(0, 1, v, 1);
    laws::lemma_rounding_error(v, UNIT as nat);
    laws::lemma_signed(false, rounding::rounded(v, 1));
    value::lemma_order(x.minus(m), x);
}

/// How often a number goes into another that is not less, if that is a number of at most 53
/// binary digits: the rounded quotient tells it, or is one too high, as the product tells.
pub proof fn goes_into(a: Double, b: Double) -> (n: u64)
    requires
        Double::ratio(0, 1).lt(b),
        b.le(a),
        a.is_finite(),
        a.over(b).lt(Double::from_nat(0x20_0000_0000_0000)),
    ensures
        1 <= n < 0x20_0000_0000_0000,
        a.over(b).floor() == Double::from_nat(n),
        b.times(Double::from_nat(n)).le(a) || (n >= 2 && b.times(
            Double::from_nat((n - 1) as u64),
        ).le(a)),
        b.val() * (n + 1) > a.val(),
        !b.times(Double::from_nat(n)).le(a) ==> b.val() * n > a.val(),
{
    let one = pow2(UNIT as nat);
    let q = a.over(b);
    lemma_pow2_pos(UNIT as nat);
    laws::lemma_ratio(0, 1);
    value::lemma_order(b, a);
    value::lemma_finite_parts(a);
    value::lemma_finite_parts(b);
    let u = a.units();
    let p = b.units();
    assert(p <= u && p > 0);
    // The quotient, and its whole part.
    reveal(Double::spec_over);
    let m = rounding::rounded(u * one, p);
    let top = Double::from_nat(0x20_0000_0000_0000);
    lemma_from_nat(0x20_0000_0000_0000);
    assert(one * p <= u * one * 1) by (nonlinear_arith)
        requires
            p <= u,
    ;
    rounding::lemma_rounded_monotone(one, 1, u * one, p);
    whole_numbers_are_exact(1);
    value::lemma_finite_parts(Double::ratio(1, 1));
    assert(1 * one == one);
    laws::lemma_zero_rounds(1);
    lemma_excess_bound(u * one, p);
    laws::lemma_signed(false, m);
    assert(q == value::signed(false, m));
    value::lemma_order(Double::ratio(1, 1), q);
    value::lemma_finite_parts(q);
    lemma_exact_top();
    value::lemma_order(q, top);
    let w = q.units();
    let n: nat = w / one;
    lemma_fundamental_div_mod(w as int, one as int);
    lemma_mod_bound(w as int, one as int);
    assert(n * one <= w && w < (n + 1) * one) by (nonlinear_arith)
        requires
            n == w / one,
            w == one * (w / one) + w % one,
            0 <= w % one < one,
    ;
    assert(1 <= n < 0x20_0000_0000_0000) by (nonlinear_arith)
        requires
            one <= w,
            w < 0x20_0000_0000_0000 * one,
            n * one <= w,
            w < (n + 1) * one,
            one > 0,
    ;
    let k = n as u64;
    assert(q.floor() == Double::from_nat(k)) by {
        reveal(Double::spec_floor);
        reveal(Double::spec_from_nat);
    }
    let more: nat = n + 1;
    if p * more <= u {
        assert(more * one * p <= u * one * 1) by (nonlinear_arith)
            requires
                p * more <= u,
        ;
        rounding::lemma_rounded_monotone(more * one, 1, u * one, p);
        lemma_from_nat(more as u64);
        value::lemma_order(Double::from_nat(more as u64), q);
        assert(false);
    }
    if p * n <= u {
        lemma_scaled_below(a, b, k);
    } else {
        if n == 1 {
            assert(p * n == p);
        }
        let less: nat = (n - 1) as nat;
        if u < p * less {
            assert(u * one * 1 <= less * one * p) by (nonlinear_arith)
                requires
                    u < p * less,
            ;
            rounding::lemma_rounded_monotone(u * one, p, less * one, 1);
            lemma_from_nat(less as u64);
            value::lemma_order(q, Double::from_nat(less as u64));
            assert(less * one < n * one) by (nonlinear_arith)
                requires
                    less == n - 1,
                    one > 0,
            ;
            assert(false);
        }
        lemma_scaled_below(a, b, less as u64);
    }
    k
}

/// What a rounded magnitude can be.
proof fn lemma_excess_bound(p: nat, q: nat)
    requires
        q > 0,
    ensures
        0 <= rounding::rounded(p, q) <= INFINITE,
{
    laws::lemma_zero_rounds(q);
    assert(0 * q == 0);
    rounding::lemma_rounded_monotone(0, q, p, q);
}

/// Two to the power 53 is exact.
proof fn lemma_exact_top()
    ensures
        Double::from_nat(0x20_0000_0000_0000).units() == 0x20_0000_0000_0000 * pow2(UNIT as nat),
{
    lemma_from_nat(0x20_0000_0000_0000);
    lemma2_to64();
    lemma2_to64_rest();
    lemma_pow2_adds(53, UNIT as nat);
    lemma_exact(1, (UNIT + 53) as nat);
    assert(1 * pow2((UNIT + 53) as nat) == pow2((UNIT + 53) as nat));
    reveal(Double::spec_from_nat);
}

/// A product that is not above a number exactly is not above it when rounded.
proof fn lemma_scaled_below(a: Double, b: Double, n: u64)
    requires
        a.is_finite(),
        b.is_finite(),
        !a.is_negative(),
        !b.is_negative(),
        n < 0x20_0000_0000_0000,
        b.units() * n <= a.units(),
    ensures
        b.times(Double::from_nat(n)).le(a),
{
    let one = pow2(UNIT as nat);
    let m = Double::from_nat(n);
    lemma_pow2_pos(UNIT as nat);
    lemma_from_nat(n);
    value::lemma_finite_parts(a);
    let p = b.units() * m.units();
    assert(p * 1 <= a.units() * one) by (nonlinear_arith)
        requires
            p == b.units() * m.units(),
            m.units() == n * one,
            b.units() * n <= a.units(),
    ;
    rounding::lemma_rounded_monotone(p, one, a.units(), 1);
    lemma_excess_bound(p, one);
    laws::lemma_signed(false, rounding::rounded(p, one));
    reveal(Double::spec_times);
}

/// Natural numbers of at most 53 binary digits are counted down exactly.
pub proof fn one_less(n: u64)
    requires
        1 <= n < 0x20_0000_0000_0000,
    ensures
        Double::from_nat(n).minus(Double::ratio(1, 1)) == Double::from_nat((n - 1) as u64),
        Double::ratio(1, 1).le(Double::from_nat(n)),
{
    let one = pow2(UNIT as nat);
    let x = Double::from_nat(n);
    let y = Double::ratio(1, 1);
    lemma_pow2_pos(UNIT as nat);
    lemma_from_nat(n);
    whole_numbers_are_exact(1);
    laws::lemma_ratio(1, 1);
    laws::lemma_signed(true, y.mag());
    value::lemma_finite_parts(y);
    value::lemma_finite_parts(y.negated());
    assert(y.negated().val() == -y.val());
    assert(x.val() - y.val() == (n - 1) * one) by (nonlinear_arith)
        requires
            x.val() == n * one,
            y.val() == 1 * one,
    ;
    lemma_mul_nonnegative(n - 1, one as int);
    assert(y.val() <= x.val());
    value::lemma_order(y, x);
    reveal(Double::spec_plus);
    reveal(Double::spec_from_nat);
}

} // verus!

//! Arithmetic and order: operations keep the order of their arguments.

use vstd::arithmetic::div_mod::*;
use vstd::arithmetic::mul::*;
use vstd::arithmetic::power2::*;
use vstd::prelude::*;

use super::arithmetic;
use super::arithmetic::UNIT;
use super::laws;
use super::rounding;
use super::rounding::INFINITE;
use super::value;
use super::value::Double;

verus! {

/// Position in the order of the number nearest to `v / q` units.
pub open spec fn rounded_key(v: int, q: nat) -> int {
    if v < 0 {
        -rounding::rounded((-v) as nat, q)
    } else {
        rounding::rounded(v as nat, q)
    }
}

/// Rounding keeps the order, across zero too.
pub proof fn lemma_key_monotone(v: int, w: int, q: nat)
    requires
        q > 0,
        v <= w,
    ensures
        rounded_key(v, q) <= rounded_key(w, q),
        -INFINITE <= rounded_key(v, q) <= INFINITE,
{
    laws::lemma_zero_rounds(q);
    assert(0 * q == 0);
    if v < 0 {
        lemma_mul_nonnegative(-v, q as int);
        rounding::lemma_rounded_monotone(0, q, (-v) as nat, q);
        if w < 0 {
            lemma_mul_inequality(-w, -v, q as int);
            rounding::lemma_rounded_monotone((-w) as nat, q, (-v) as nat, q);
        } else {
            lemma_mul_nonnegative(w, q as int);
            rounding::lemma_rounded_monotone(0, q, w as nat, q);
        }
    } else {
        lemma_mul_nonnegative(v, q as int);
        rounding::lemma_rounded_monotone(0, q, v as nat, q);
        lemma_mul_inequality(v, w, q as int);
        rounding::lemma_rounded_monotone(v as nat, q, w as nat, q);
    }
}

/// The key of a finite sum.
pub proof fn lemma_plus_key(a: Double, b: Double)
    requires
        a.is_finite(),
        b.is_finite(),
    ensures
        a.plus(b).key() == rounded_key(a.val() + b.val(), 1),
        !a.plus(b).is_nan(),
{
    reveal(Double::spec_plus);
    let sum = a.val() + b.val();
    lemma_key_monotone(sum, sum, 1);
    laws::lemma_zero_rounds(1);
    lemma_key_monotone(0, if sum < 0 {
        -sum
    } else {
        sum
    }, 1);
    let m = rounding::rounded(arithmetic::magnitude_of(sum), 1);
    laws::lemma_signed(sum < 0 || (sum == 0 && a.is_negative() && b.is_negative()), m);
}

/// Addition is commutative.
pub proof fn plus_commutes(a: Double, b: Double)
    ensures
        a.plus(b).same(b.plus(a)) || (a.plus(b).is_nan() && b.plus(a).is_nan()),
        a.plus(b).key() == b.plus(a).key() || a.plus(b).is_nan(),
{
    reveal(Double::spec_plus);
    if a.is_finite() && b.is_finite() {
        lemma_plus_key(a, b);
        lemma_plus_key(b, a);
    }
}

/// Multiplication is commutative.
pub proof fn times_commutes(a: Double, b: Double)
    ensures
        a.times(b) == b.times(a),
{
    reveal(Double::spec_times);
    lemma_mul_is_commutative(a.units() as int, b.units() as int);
}

/// Adding the same number keeps the order.
pub proof fn plus_keeps_order(a: Double, b: Double, c: Double)
    requires
        a.le(b),
        !a.plus(c).is_nan(),
        !b.plus(c).is_nan(),
    ensures
        a.plus(c).le(b.plus(c)),
{
    reveal(Double::spec_plus);
    if c.is_finite() {
        if a.is_finite() && b.is_finite() {
            value::lemma_order(a, b);
            lemma_plus_key(a, c);
            lemma_plus_key(b, c);
            lemma_key_monotone(a.val() + c.val(), b.val() + c.val(), 1);
        } else if a.is_finite() {
            lemma_plus_key(a, c);
            lemma_key_monotone(a.val() + c.val(), a.val() + c.val(), 1);
        } else if b.is_finite() {
            lemma_plus_key(b, c);
            lemma_key_monotone(b.val() + c.val(), b.val() + c.val(), 1);
        }
    }
}

/// Adding to the same number keeps the order.
pub proof fn plus_keeps_order_right(a: Double, b: Double, c: Double)
    requires
        a.le(b),
        !c.plus(a).is_nan(),
        !c.plus(b).is_nan(),
    ensures
        c.plus(a).le(c.plus(b)),
{
    plus_commutes(c, a);
    plus_commutes(c, b);
    plus_keeps_order(a, b, c);
}

/// The key of a number under a positive scale.
proof fn lemma_times_key(a: Double, t: Double)
    requires
        a.is_finite(),
        t.is_finite(),
        !t.is_negative(),
    ensures
        a.times(t).key() == rounded_key(a.val() * t.units(), pow2(UNIT as nat)),
        !a.times(t).is_nan(),
{
    reveal(Double::spec_times);
    lemma_pow2_pos(UNIT as nat);
    let one = pow2(UNIT as nat);
    let p = a.units() * t.units();
    lemma_mul_nonnegative(a.units() as int, t.units() as int);
    lemma_key_monotone(0, p as int, one);
    laws::lemma_zero_rounds(one);
    let m = rounding::rounded(p, one);
    laws::lemma_signed(a.is_negative(), m);
    if a.is_negative() {
        assert(a.val() * t.units() == -(p as int)) by (nonlinear_arith)
            requires
                a.val() == -(a.units() as int),
                p == a.units() * t.units(),
        ;
    }
}

/// Multiplying by the same number, which is not below zero, keeps the order.
pub proof fn times_keeps_order(a: Double, b: Double, t: Double)
    requires
        a.le(b),
        !t.is_negative(),
        !a.times(t).is_nan(),
        !b.times(t).is_nan(),
    ensures
        a.times(t).le(b.times(t)),
{
    reveal(Double::spec_times);
    lemma_pow2_pos(UNIT as nat);
    if t.is_finite() && a.is_finite() && b.is_finite() {
        value::lemma_order(a, b);
        lemma_times_key(a, t);
        lemma_times_key(b, t);
        lemma_mul_inequality(a.val(), b.val(), t.units() as int);
        lemma_key_monotone(a.val() * t.units(), b.val() * t.units(), pow2(UNIT as nat));
    } else if t.is_finite() && a.is_finite() {
        lemma_times_key(a, t);
        lemma_key_monotone(a.val() * t.units(), a.val() * t.units(), pow2(UNIT as nat));
        laws::lemma_signed(b.is_negative(), INFINITE as int);
    } else if t.is_finite() && b.is_finite() {
        lemma_times_key(b, t);
        lemma_key_monotone(b.val() * t.units(), b.val() * t.units(), pow2(UNIT as nat));
        laws::lemma_signed(a.is_negative(), INFINITE as int);
    } else {
        laws::lemma_signed(a.is_negative(), INFINITE as int);
        laws::lemma_signed(b.is_negative(), INFINITE as int);
    }
}

/// The key of a number divided by a positive one.
pub proof fn lemma_over_key(a: Double, t: Double)
    requires
        a.is_finite(),
        t.is_finite(),
        !t.is_negative(),
        t.mag() > 0,
    ensures
        a.over(t).key() == rounded_key(a.val() * pow2(UNIT as nat), t.units()),
        !a.over(t).is_nan(),
        t.units() > 0,
{
    reveal(Double::spec_over);
    value::lemma_finite_parts(t);
    lemma_pow2_pos(UNIT as nat);
    let one = pow2(UNIT as nat);
    let p = a.units() * one;
    lemma_mul_nonnegative(a.units() as int, one as int);
    lemma_key_monotone(0, p as int, t.units());
    laws::lemma_zero_rounds(t.units());
    let m = rounding::rounded(p, t.units());
    laws::lemma_signed(a.is_negative(), m);
    if a.is_negative() {
        assert(a.val() * one == -(p as int)) by (nonlinear_arith)
            requires
                a.val() == -(a.units() as int),
                p == a.units() * one,
        ;
    }
}

/// Dividing by the same number, which is above zero, keeps the order.
pub proof fn over_keeps_order(a: Double, b: Double, t: Double)
    requires
        a.le(b),
        !t.is_negative(),
        t.mag() > 0,
        !a.over(t).is_nan(),
        !b.over(t).is_nan(),
    ensures
        a.over(t).le(b.over(t)),
{
    reveal(Double::spec_over);
    lemma_pow2_pos(UNIT as nat);
    let one = pow2(UNIT as nat);
    if t.is_finite() && a.is_finite() && b.is_finite() {
        value::lemma_order(a, b);
        lemma_over_key(a, t);
        lemma_over_key(b, t);
        lemma_mul_inequality(a.val(), b.val(), one as int);
        lemma_key_monotone(a.val() * one, b.val() * one, t.units());
    } else if t.is_finite() && a.is_finite() {
        lemma_over_key(a, t);
        lemma_key_monotone(a.val() * one, a.val() * one, t.units());
        laws::lemma_signed(b.is_negative(), INFINITE as int);
    } else if t.is_finite() && b.is_finite() {
        lemma_over_key(b, t);
        lemma_key_monotone(b.val() * one, b.val() * one, t.units());
        laws::lemma_signed(a.is_negative(), INFINITE as int);
    } else {
        laws::lemma_signed(a.is_negative(), INFINITE as int);
        laws::lemma_signed(b.is_negative(), INFINITE as int);
        laws::lemma_signed(a.is_negative(), 0);
        laws::lemma_signed(b.is_negative(), 0);
    }
}

/// Rounding down does not go above a number, and rounding up does not go below it.
pub proof fn floor_and_ceil_enclose(x: Double)
    requires
        !x.is_nan(),
    ensures
        x.floor().le(x),
        x.le(x.ceil()),
{
    reveal(Double::spec_floor);
    reveal(Double::spec_ceil);
    if x.is_finite() {
        let one = pow2(UNIT as nat);
        lemma_pow2_pos(UNIT as nat);
        let u = x.units();
        let w = u / one;
        lemma_fundamental_div_mod(u as int, one as int);
        lemma_mod_bound(u as int, one as int);
        assert(w * one <= u && u < (w + 1) * one) by (nonlinear_arith)
            requires
                u == one * w + u % one,
                0 <= u % one < one,
        ;
        assert(u % one == 0 ==> w * one == u) by (nonlinear_arith)
            requires
                u == one * w + u % one,
        ;
        value::lemma_finite_parts(x);
        lemma_key_monotone((w * one) as int, u as int, 1);
        lemma_key_monotone(u as int, ((w + 1) * one) as int, 1);
        lemma_key_monotone(0, (w * one) as int, 1);
        lemma_key_monotone(0, ((w + 1) * one) as int, 1);
        laws::lemma_zero_rounds(1);
        laws::lemma_signed(x.is_negative(), rounding::rounded(w * one, 1));
        laws::lemma_signed(x.is_negative(), rounding::rounded((w + 1) * one, 1));
    }
}

/// Taking away a number that is not below zero does not make greater.
pub proof fn minus_does_not_grow(a: Double, m: Double)
    requires
        Double::ratio(0, 1).le(m),
        !a.minus(m).is_nan(),
    ensures
        a.minus(m).le(a),
{
    reveal(Double::spec_plus);
    laws::lemma_ratio(0, 1);
    laws::lemma_signed(!m.is_negative(), m.mag());
    if a.is_finite() && m.is_finite() {
        lemma_plus_key(a, m.negated());
        value::lemma_finite_parts(a);
        value::lemma_finite_parts(m);
        value::lemma_finite_parts(m.negated());
        lemma_key_monotone(a.val() + m.negated().val(), a.val(), 1);
    }
}

/// A number that is not infinite is at no distance from itself; elsewhere there is no distance.
pub proof fn no_distance_to_itself(x: Double)
    ensures
        x.is_finite() ==> x.minus(x) == Double::ratio(0, 1),
        !x.is_finite() ==> x.minus(x).is_nan(),
{
    reveal(Double::spec_plus);
    if !x.is_nan() {
        laws::lemma_signed(!x.is_negative(), x.mag());
    }
    if x.is_finite() {
        value::lemma_finite_parts(x);
        value::lemma_finite_parts(x.negated());
        assert(x.val() + x.negated().val() == 0);
        reveal(Double::spec_ratio);
        laws::lemma_zero_rounds(1);
    }
}

/// Equal numbers that are not infinite are at no distance from each other.
pub proof fn equals_are_not_apart(a: Double, b: Double)
    requires
        a.is_finite(),
        a.same(b),
    ensures
        a.minus(b).same(Double::ratio(0, 1)),
        a.minus(b).abs().same(Double::ratio(0, 1)),
{
    laws::lemma_signed(!b.is_negative(), b.mag());
    value::lemma_order(a, b);
    assert(a.val() + b.negated().val() == 0);
    lemma_plus_key(a, b.negated());
    laws::lemma_zero_rounds(1);
    laws::lemma_ratio(0, 1);
    laws::lemma_signed(false, a.minus(b).mag());
}

/// Changing signs turns the order round.
pub proof fn negation_turns_order(a: Double, b: Double)
    requires
        a.le(b),
    ensures
        b.negated().le(a.negated()),
{
    laws::lemma_signed(!a.is_negative(), a.mag());
    laws::lemma_signed(!b.is_negative(), b.mag());
}

/// The key of a number that is rounded down, and of one that is rounded up.
pub proof fn lemma_whole_keys(x: Double)
    requires
        x.is_finite(),
    ensures
        !x.floor().is_nan(),
        !x.ceil().is_nan(),
        x.floor().key() == rounded_key((x.val() / pow2(UNIT as nat) as int) * pow2(UNIT as nat), 1),
        x.ceil().key() == rounded_key(
            -((-x.val()) / pow2(UNIT as nat) as int) * pow2(UNIT as nat),
            1,
        ),
{
    reveal(Double::spec_floor);
    reveal(Double::spec_ceil);
    let one = pow2(UNIT as nat);
    lemma_pow2_pos(UNIT as nat);
    let u = x.units();
    let w = u / one;
    lemma_fundamental_div_mod(u as int, one as int);
    lemma_mod_bound(u as int, one as int);
    let rest = u % one;
    let (low, back): (int, int) = if rest == 0 {
        (-(w as int), 0)
    } else {
        (-(w as int) - 1, one - rest)
    };
    assert(-(u as int) == low * one + back) by (nonlinear_arith)
        requires
            u == one * w + rest,
            low == -(w as int) && back == 0 && rest == 0 || low == -(w as int) - 1 && back == one
                - rest,
    ;
    lemma_fundamental_div_mod_converse(-(u as int), one as int, low, back);
    assert(-(w as int) * one == -(w * one)) by (nonlinear_arith);
    assert((-(w as int) - 1) * one == -((w + 1) * one)) by (nonlinear_arith);
    assert(0 <= w * one && 0 < (w + 1) * one) by (nonlinear_arith)
        requires
            one > 0,
    ;
    lemma_key_monotone(0, (w * one) as int, 1);
    lemma_key_monotone(0, ((w + 1) * one) as int, 1);
    laws::lemma_zero_rounds(1);
    laws::lemma_signed(x.is_negative(), rounding::rounded(w * one, 1));
    laws::lemma_signed(x.is_negative(), rounding::rounded((w + 1) * one, 1));
}

/// Rounding down or up to whole numbers keeps the order.
pub proof fn rounding_to_wholes_keeps_order(a: Double, b: Double)
    requires
        a.le(b),
    ensures
        a.floor().le(b.floor()),
        a.ceil().le(b.ceil()),
{
    let one = pow2(UNIT as nat) as int;
    lemma_pow2_pos(UNIT as nat);
    if a.is_finite() {
        lemma_whole_keys(a);
        lemma_key_monotone((a.val() / one) * one, (a.val() / one) * one, 1);
        lemma_key_monotone(-((-a.val()) / one) * one, -((-a.val()) / one) * one, 1);
    } else {
        reveal(Double::spec_floor);
        reveal(Double::spec_ceil);
    }
    if b.is_finite() {
        lemma_whole_keys(b);
        lemma_key_monotone((b.val() / one) * one, (b.val() / one) * one, 1);
        lemma_key_monotone(-((-b.val()) / one) * one, -((-b.val()) / one) * one, 1);
    } else {
        reveal(Double::spec_floor);
        reveal(Double::spec_ceil);
    }
    if a.is_finite() && b.is_finite() {
        value::lemma_order(a, b);
        lemma_div_is_ordered(a.val(), b.val(), one);
        lemma_div_is_ordered(-b.val(), -a.val(), one);
        lemma_mul_inequality(a.val() / one, b.val() / one, one);
        lemma_mul_inequality(-((-a.val()) / one), -((-b.val()) / one), one);
        lemma_key_monotone((a.val() / one) * one, (b.val() / one) * one, 1);
        lemma_key_monotone(-((-a.val()) / one) * one, -((-b.val()) / one) * one, 1);
    }
}

/// The whole part of a number that is not below zero does not shrink as the number grows.
pub proof fn whole_parts_keep_order(a: Double, b: Double)
    requires
        Double::ratio(0, 1).le(a),
        a.le(b),
    ensures
        a.to_nat() <= b.to_nat(),
{
    reveal(Double::spec_to_nat);
    laws::lemma_ratio(0, 1);
    lemma_pow2_pos(UNIT as nat);
    if a.is_finite() {
        value::lemma_finite_parts(a);
    }
    if a.is_finite() && b.is_finite() {
        value::lemma_order(a, b);
        value::lemma_finite_parts(b);
        lemma_div_is_ordered(a.units() as int, b.units() as int, pow2(UNIT as nat) as int);
    }
    assert(0int / (pow2(UNIT as nat) as int) == 0) by {
        lemma_basic_div(0, pow2(UNIT as nat) as int);
    }
}

/// A quotient by a number above zero is on the same side of zero as what was divided.
pub proof fn quotient_keeps_sign(a: Double, t: Double)
    requires
        !t.is_negative(),
        t.mag() > 0,
        !a.over(t).is_nan(),
    ensures
        Double::ratio(0, 1).le(a) ==> Double::ratio(0, 1).le(a.over(t)),
        a.le(Double::ratio(0, 1)) ==> a.over(t).le(Double::ratio(0, 1)),
{
    reveal(Double::spec_over);
    laws::lemma_ratio(0, 1);
    laws::lemma_zero_rounds(1);
    if a.is_finite() && t.is_finite() {
        lemma_over_key(a, t);
        laws::lemma_zero_rounds(t.units());
        value::lemma_finite_parts(a);
        let one = pow2(UNIT as nat) as int;
        lemma_pow2_pos(UNIT as nat);
        assert(a.val() >= 0 ==> a.val() * one >= 0) by (nonlinear_arith)
            requires
                one > 0,
        ;
        assert(a.val() <= 0 ==> a.val() * one <= 0) by (nonlinear_arith)
            requires
                one > 0,
        ;
        if a.val() >= 0 {
            lemma_key_monotone(0, a.val() * one, t.units());
        }
        if a.val() <= 0 {
            lemma_key_monotone(a.val() * one, 0, t.units());
        }
    } else {
        laws::lemma_signed(a.is_negative(), INFINITE as int);
        laws::lemma_signed(a.is_negative(), 0);
    }
}

/// A product with a number above zero is on the same side of zero as the other factor.
pub proof fn product_keeps_sign(a: Double, t: Double)
    requires
        !t.is_negative(),
        !a.times(t).is_nan(),
    ensures
        Double::ratio(0, 1).le(a) ==> Double::ratio(0, 1).le(a.times(t)),
        a.le(Double::ratio(0, 1)) ==> a.times(t).le(Double::ratio(0, 1)),
{
    reveal(Double::spec_times);
    laws::lemma_ratio(0, 1);
    if a.is_finite() && t.is_finite() {
        lemma_times_key(a, t);
        let one = pow2(UNIT as nat);
        lemma_pow2_pos(UNIT as nat);
        laws::lemma_zero_rounds(one);
        value::lemma_finite_parts(a);
        let u = t.units();
        assert(a.val() >= 0 ==> a.val() * u >= 0) by (nonlinear_arith)
            requires
                u >= 0,
        ;
        assert(a.val() <= 0 ==> a.val() * u <= 0) by (nonlinear_arith)
            requires
                u >= 0,
        ;
        if a.val() >= 0 {
            lemma_key_monotone(0, a.val() * u, one);
        }
        if a.val() <= 0 {
            lemma_key_monotone(a.val() * u, 0, one);
        }
    } else {
        laws::lemma_signed(a.is_negative(), INFINITE as int);
    }
}

} // verus!

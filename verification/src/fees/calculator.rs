//! Dynamic taker fee.  Makers pay nothing; this is for awareness of taker economics.

use vstd::arithmetic::div_mod::*;
use vstd::arithmetic::mul::*;
use vstd::arithmetic::power2::*;
use vstd::prelude::*;

use crate::double::rounding::HIDDEN;
use crate::double::{arithmetic, error, integers, laws, order, rounding, value, Double};

verus! {

/// Dynamic taker fee calculator.
#[derive(Clone, Copy, Debug)]
pub struct FeeCalculator;

/// The maker fee rate is always zero.
pub fn maker_fee_rate() -> (r: Double)
    ensures
        r == (Double { bits: 0 }),
{
    Double::from_bits(0)
}

impl FeeCalculator {
    /// `p`, held between 0 and 1.
    pub open spec fn probability(p: Double) -> Double {
        p.clamp(Double::ratio(0, 1), Double::ratio(1, 1))
    }

    /// The taker fee rate `0.25 * (p * (1 - p))^2`.
    pub open spec fn spec_taker_fee_rate(p: Double) -> Double {
        let q = Self::probability(p);
        let variance = q.times(Double::ratio(1, 1).minus(q));
        Double::ratio(1, 4).times(variance.times(variance))
    }

    pub fn new() -> (r: Self)
        ensures
            r == FeeCalculator,
    {
        FeeCalculator
    }

    /// Taker fee rate, as a fraction, at probability `p`.
    #[verifier::when_used_as_spec(spec_taker_fee_rate)]
    pub fn taker_fee_rate(p: Double) -> (r: Double)
        ensures
            r == Self::taker_fee_rate(p),
    {
        let zero: Double = Double::ratio(0, 1);
        let one: Double = Double::ratio(1, 1);
        proof {
            laws::lemma_ratio_order(0, 1, 1, 1);
        }
        let q: Double = p.clamp(zero, one);
        let variance: Double = q.times(one.minus(q));
        Double::ratio(1, 4).times(variance.times(variance))
    }

    /// Taker fee in dollars for `shares` at probability `p`.
    pub fn taker_fee(shares: Double, p: Double) -> (r: Double)
        ensures
            r == shares.times(Self::taker_fee_rate(p)),
    {
        shares.times(Self::taker_fee_rate(p))
    }

    /// Least edge, in basis points, at which a taker breaks even.
    pub fn taker_breakeven_edge_bps(p: Double) -> (r: Double)
        ensures
            r == Self::taker_fee_rate(p).times(Double::ratio(10_000, 1)),
    {
        Self::taker_fee_rate(p).times(Double::ratio(10_000, 1))
    }
}

/// The powers of two that the proofs use, as multiples of one of them.
proof fn lemma_scales()
    ensures
        pow2(1019) > 0,
        pow2(1020) == 2 * pow2(1019),
        pow2(1021) == 4 * pow2(1019),
        pow2(1072) == 0x20_0000_0000_0000 * pow2(1019),
        pow2(1073) == 0x40_0000_0000_0000 * pow2(1019),
        pow2(1074) == 0x80_0000_0000_0000 * pow2(1019),
{
    lemma2_to64();
    lemma2_to64_rest();
    lemma_pow2_pos(1019);
    lemma_pow2_adds(1, 1019);
    lemma_pow2_adds(2, 1019);
    lemma_pow2_adds(53, 1019);
    lemma_pow2_adds(54, 1019);
    lemma_pow2_adds(55, 1019);
}

/// One, in units.
proof fn lemma_one()
    ensures
        Double::ratio(1, 1).is_finite(),
        !Double::ratio(1, 1).is_negative(),
        Double::ratio(1, 1).units() == pow2(1074),
        Double::ratio(1, 1).val() == pow2(1074),
{
    lemma2_to64();
    laws::lemma_binary_fraction(0, 1);
}

/// `1 - q` for a number from zero to one: it lies in the same range, and rounding adds at most
/// a part in two to the power 54, and half of that where `q` is at least one half.
proof fn lemma_complement(q: Double)
    requires
        q.is_finite(),
        0 <= q.val() <= pow2(1074),
    ensures
        ({
            let r = Double::ratio(1, 1).minus(q);
            &&& r.is_finite()
            &&& 0 <= r.val() <= pow2(1074)
            &&& q.val() > 0 ==> 2 * r.val() <= 2 * (pow2(1074) - q.val()) + pow2(1021)
            &&& 2 * q.val() > pow2(1074) ==> 2 * r.val() <= 2 * (pow2(1074) - q.val()) + pow2(
                1020,
            )
            &&& 2 * q.val() == pow2(1074) ==> 2 * r.val() == pow2(1074)
        }),
{
    let one = Double::ratio(1, 1);
    let r = one.minus(q);
    lemma_one();
    lemma_scales();
    value::lemma_finite_parts(q);
    laws::lemma_signed(!q.is_negative(), q.mag());
    value::lemma_finite_parts(q.negated());
    let v: int = pow2(1074) - q.val();
    assert(q.negated().val() == -q.val());
    assert(r == arithmetic::nearest(
        v < 0 || (v == 0 && one.is_negative() && q.negated().is_negative()),
        arithmetic::magnitude_of(v),
        1,
    )) by {
        reveal(Double::spec_plus);
    }
    rounding::lemma_rounded_exact(HIDDEN as nat, 1022);
    lemma2_to64();
    lemma2_to64_rest();
    lemma_pow2_adds(52, 1022);
    rounding::lemma_rounded_monotone(v as nat, 1, pow2(1074), 1);
    laws::lemma_zero_rounds(1);
    rounding::lemma_rounded_monotone(0, 1, v as nat, 1);
    laws::lemma_signed(false, rounding::rounded(v as nat, 1));
    value::lemma_order(r, one);
    assert(one.mag() == rounding::rounded(pow2(1074), 1)) by {
        value::lemma_finite_parts(one);
    }
    if q.val() > 0 {
        laws::lemma_rounding_error(v as nat, 1021);
    }
    if 2 * q.val() > pow2(1074) {
        laws::lemma_rounding_error(v as nat, 1020);
    }
    if 2 * q.val() == pow2(1074) {
        rounding::lemma_rounded_exact(HIDDEN as nat, 1021);
        lemma_pow2_adds(52, 1021);
        laws::lemma_binary_fraction(1, 2);
        value::lemma_finite_parts(Double::ratio(1, 2));
        assert(r.mag() == Double::ratio(1, 2).mag());
        value::lemma_order(r, Double::ratio(1, 2));
    }
}

/// The exact product of `q` and the rounded `1 - q` is below one quarter and half a step.
proof fn lemma_product(q: int, r: int, h: int)
    requires
        h > 0,
        0 <= q <= 0x80_0000_0000_0000 * h,
        0 <= r <= 0x80_0000_0000_0000 * h,
        q > 0 ==> 2 * r <= 2 * (0x80_0000_0000_0000 * h - q) + 4 * h,
        2 * q > 0x80_0000_0000_0000 * h ==> 2 * r <= 2 * (0x80_0000_0000_0000 * h - q) + 2 * h,
        2 * q == 0x80_0000_0000_0000 * h ==> 2 * r == 0x80_0000_0000_0000 * h,
        q == 0x80_0000_0000_0000 * h ==> r == 0,
    ensures
        q * r < (0x80_0000_0000_0000 * h) * (0x20_0000_0000_0000 * h) + (0x80_0000_0000_0000 * h)
            * h,
{
    let one: int = 0x80_0000_0000_0000 * h;
    let four: int = 0x20_0000_0000_0000 * h;
    assert(4 * four == one);
    assert(4 * (q * (one - q)) <= one * one) by (nonlinear_arith);
    assert(4 * (one * four) == one * one) by (nonlinear_arith)
        requires
            4 * four == one,
    ;
    assert(one * h > 0) by (nonlinear_arith)
        requires
            h > 0,
            one == 0x80_0000_0000_0000 * h,
    ;
    if q == 0 {
        assert(q * r == 0) by (nonlinear_arith)
            requires
                q == 0,
        ;
        assert(one * four > 0) by (nonlinear_arith)
            requires
                h > 0,
                one == 0x80_0000_0000_0000 * h,
                four == 0x20_0000_0000_0000 * h,
        ;
    } else if 2 * q == one {
        assert(q * r == one * four) by (nonlinear_arith)
            requires
                2 * q == one,
                2 * r == one,
                4 * four == one,
        ;
    } else if 2 * q < one {
        assert(q * r <= q * (one - q) + q * (2 * h)) by (nonlinear_arith)
            requires
                r <= one - q + 2 * h,
                q >= 0,
        ;
        assert(q * (2 * h) < one * h) by (nonlinear_arith)
            requires
                2 * q < one,
                h > 0,
        ;
    } else if q == one {
        assert(q * r == 0) by (nonlinear_arith)
            requires
                r == 0,
        ;
        assert(one * four > 0) by (nonlinear_arith)
            requires
                h > 0,
                one == 0x80_0000_0000_0000 * h,
                four == 0x20_0000_0000_0000 * h,
        ;
    } else {
        assert(q * r <= q * (one - q) + q * h) by (nonlinear_arith)
            requires
                r <= one - q + h,
                q >= 0,
        ;
        assert(q * h < one * h) by (nonlinear_arith)
            requires
                q < one,
                h > 0,
        ;
    }
}

/// `q * (1 - q)` is at most one quarter.
proof fn lemma_variance(q: Double)
    requires
        Double::ratio(0, 1).le(q),
        q.le(Double::ratio(1, 1)),
    ensures
        ({
            let v = q.times(Double::ratio(1, 1).minus(q));
            &&& Double::ratio(0, 1).le(v)
            &&& v.le(Double::ratio(1, 4))
        }),
{
    let one = Double::ratio(1, 1);
    let zero = Double::ratio(0, 1);
    lemma_one();
    lemma_scales();
    laws::lemma_ratio(0, 1);
    value::lemma_order(zero, q);
    value::lemma_order(q, one);
    value::lemma_finite_parts(zero);
    value::lemma_finite_parts(q);
    let r = one.minus(q);
    lemma_complement(q);
    value::lemma_finite_parts(r);
    let h: nat = pow2(1019);
    if q.val() == pow2(1074) {
        laws::lemma_signed(!q.is_negative(), q.mag());
        value::lemma_finite_parts(q.negated());
        reveal(Double::spec_plus);
        laws::lemma_zero_rounds(1);
    }
    lemma_product(q.val(), r.val(), h as int);
    let v = q.times(r);
    let p: nat = q.units() * r.units();
    let negative = q.is_negative() != r.is_negative();
    assert(v == arithmetic::nearest(negative, p, pow2(1074))) by {
        reveal(Double::spec_times);
    }
    assert(p == q.val() * r.val()) by {
        if q.val() == 0 || r.val() == 0 {
            assert(q.units() == 0 || r.units() == 0);
            assert(p == 0) by (nonlinear_arith)
                requires
                    p == q.units() * r.units(),
                    q.units() == 0 || r.units() == 0,
            ;
            assert(q.val() * r.val() == 0) by (nonlinear_arith)
                requires
                    q.val() == 0 || r.val() == 0,
            ;
        }
    }
    lemma2_to64();
    laws::lemma_binary_fraction(2, 4);
    let quarter = Double::ratio(1, 4);
    let w: nat = pow2(1074) * pow2(1020);
    let target: nat = pow2(1074) * pow2(1072);
    assert(w > 0) by (nonlinear_arith)
        requires
            w == pow2(1074) * pow2(1020),
            pow2(1074) > 0,
            pow2(1020) > 0,
    ;
    rounding::lemma_rounded_exact(HIDDEN as nat, 1020);
    lemma2_to64_rest();
    lemma_pow2_adds(52, 1020);
    laws::lemma_zero_rounds(pow2(1074));
    assert(0 * pow2(1074) == 0);
    rounding::lemma_rounded_monotone(0, pow2(1074), p, pow2(1074));
    if p <= target {
        assert(p * 1 <= pow2(1072) * pow2(1074)) by (nonlinear_arith)
            requires
                p <= target,
                target == pow2(1074) * pow2(1072),
        ;
        rounding::lemma_rounded_monotone(p, pow2(1074), pow2(1072), 1);
    } else {
        // Between one quarter and half a step above it: rounded down.
        assert(target == HIDDEN * w) by (nonlinear_arith)
            requires
                target == pow2(1074) * pow2(1072),
                w == pow2(1074) * pow2(1020),
                pow2(1072) == HIDDEN * pow2(1020),
        ;
        assert(2 * (pow2(1074) * h) == w) by (nonlinear_arith)
            requires
                w == pow2(1074) * pow2(1020),
                pow2(1020) == 2 * h,
        ;
        let rest: int = p - target;
        lemma_fundamental_div_mod_converse(p as int, w as int, HIDDEN as int, rest);
        assert(rounding::nearest_even(p, w) == HIDDEN);
        assert(pow2(1074) * HIDDEN * pow2(1020) == HIDDEN * w) by (nonlinear_arith)
            requires
                w == pow2(1074) * pow2(1020),
        ;
        assert(pow2(1074) * (2 * HIDDEN) * pow2(1020) == 2 * (HIDDEN * w)) by (nonlinear_arith)
            requires
                w == pow2(1074) * pow2(1020),
        ;
        assert(HIDDEN * w >= w) by (nonlinear_arith)
            requires
                w > 0,
                HIDDEN >= 1,
        ;
        rounding::lemma_fits_unique(p, pow2(1074), 1020);
    }
    laws::lemma_signed(negative, rounding::rounded(p, pow2(1074)));
    assert(v.mag() <= quarter.mag());
    assert(negative ==> v.mag() == 0) by {
        if negative {
            assert(q.units() == 0 || r.units() == 0);
            assert(p == 0) by (nonlinear_arith)
                requires
                    p == q.units() * r.units(),
                    q.units() == 0 || r.units() == 0,
            ;
        }
    }
}

/// The square of a number of at most one quarter, taken four times less, is at most 1/64.
proof fn lemma_square(v: Double)
    requires
        Double::ratio(0, 1).le(v),
        v.le(Double::ratio(1, 4)),
    ensures
        Double::ratio(0, 1).le(Double::ratio(1, 4).times(v.times(v))),
        Double::ratio(1, 4).times(v.times(v)).le(Double::ratio(1, 64)),
        v == Double::ratio(1, 4) ==> Double::ratio(1, 4).times(v.times(v)) == Double::ratio(1, 64),
        v.mag() == 0 ==> Double::ratio(1, 4).times(v.times(v)).mag() == 0,
{
    lemma2_to64();
    let quarter = Double::ratio(1, 4);
    laws::lemma_binary_fraction(2, 4);
    laws::lemma_binary_fraction(4, 16);
    laws::lemma_binary_fraction(6, 64);
    laws::lemma_ratio(0, 1);
    value::lemma_order(v, quarter);
    value::lemma_finite_parts(v);
    lemma_pow2_pos(1074);
    lemma_pow2_adds(1072, 1072);
    lemma_pow2_adds(1074, 1070);
    lemma_pow2_adds(1070, 1072);
    lemma_pow2_adds(1074, 1068);
    assert(v.units() * v.units() * 1 <= pow2(1070) * pow2(1074)) by (nonlinear_arith)
        requires
            v.units() <= pow2(1072),
            pow2(1072) * pow2(1072) == pow2(1074) * pow2(1070),
    ;
    laws::lemma_zero_rounds(1);
    laws::lemma_zero_rounds(pow2(1074));
    assert(0 * pow2(1074) == 0);
    let s = v.times(v);
    let p: nat = v.units() * v.units();
    lemma_mul_nonnegative(v.units() as int, v.units() as int);
    rounding::lemma_rounded_monotone(p, pow2(1074), pow2(1070), 1);
    rounding::lemma_rounded_monotone(0, pow2(1074), p, pow2(1074));
    let sixteenth = Double::ratio(1, 16);
    value::lemma_finite_parts(sixteenth);
    assert(s == arithmetic::nearest(false, p, pow2(1074))) by {
        reveal(Double::spec_times);
    }
    laws::lemma_signed(false, rounding::rounded(p, pow2(1074)));
    assert(s.mag() <= sixteenth.mag());
    value::lemma_order(s, sixteenth);
    let t = quarter.times(s);
    let u: nat = quarter.units() * s.units();
    assert(t == arithmetic::nearest(false, u, pow2(1074))) by {
        reveal(Double::spec_times);
    }
    assert(u * 1 <= pow2(1068) * pow2(1074)) by (nonlinear_arith)
        requires
            s.units() <= pow2(1070),
            quarter.units() == pow2(1072),
            u == quarter.units() * s.units(),
            pow2(1070) * pow2(1072) == pow2(1074) * pow2(1068),
    ;
    rounding::lemma_rounded_monotone(u, pow2(1074), pow2(1068), 1);
    rounding::lemma_rounded_monotone(0, pow2(1074), u, pow2(1074));
    laws::lemma_signed(false, rounding::rounded(u, pow2(1074)));
    let top = Double::ratio(1, 64);
    value::lemma_finite_parts(top);
    if v == quarter {
        assert(p == pow2(1070) * pow2(1074)) by (nonlinear_arith)
            requires
                p == pow2(1072) * pow2(1072),
                pow2(1072) * pow2(1072) == pow2(1074) * pow2(1070),
        ;
        rounding::lemma_rounded_scale(pow2(1070), 1, pow2(1074));
        assert(1 * pow2(1074) == pow2(1074));
        assert(s.mag() == sixteenth.mag());
        assert(u == pow2(1068) * pow2(1074)) by (nonlinear_arith)
            requires
                u == pow2(1072) * pow2(1070),
                pow2(1070) * pow2(1072) == pow2(1074) * pow2(1068),
        ;
        rounding::lemma_rounded_scale(pow2(1068), 1, pow2(1074));
        assert(t.mag() == top.mag());
    }
    if v.mag() == 0 {
        assert(p == 0) by (nonlinear_arith)
            requires
                p == v.units() * v.units(),
                v.units() == 0,
        ;
        value::lemma_finite_parts(s);
        assert(u == 0) by (nonlinear_arith)
            requires
                u == quarter.units() * s.units(),
                s.units() == 0,
        ;
    }
}

/// The taker fee rate is never below zero and never above 1/64.
pub proof fn fee_rate_is_bounded(p: Double)
    requires
        !p.is_nan(),
    ensures
        Double::ratio(0, 1).le(FeeCalculator::taker_fee_rate(p)),
        FeeCalculator::taker_fee_rate(p).le(Double::ratio(1, 64)),
{
    laws::lemma_ratio_order(0, 1, 1, 1);
    let q = FeeCalculator::probability(p);
    lemma_variance(q);
    lemma_square(q.times(Double::ratio(1, 1).minus(q)));
}

/// What is certain has no variance.
proof fn lemma_certain(q: Double)
    requires
        q.same(Double::ratio(0, 1)) || q.same(Double::ratio(1, 1)),
    ensures
        ({
            let v = q.times(Double::ratio(1, 1).minus(q));
            &&& v.mag() == 0
            &&& Double::ratio(0, 1).le(v)
            &&& v.le(Double::ratio(1, 4))
        }),
{
    let one = Double::ratio(1, 1);
    let r = one.minus(q);
    laws::lemma_ratio(0, 1);
    lemma_one();
    lemma_scales();
    laws::lemma_ratio_order(0, 1, 1, 1);
    lemma_variance(q);
    value::lemma_finite_parts(q);
    value::lemma_order(q, Double::ratio(0, 1));
    value::lemma_order(q, one);
    value::lemma_finite_parts(Double::ratio(0, 1));
    lemma_complement(q);
    if q.same(one) {
        order::equals_are_not_apart(one, q);
    }
    value::lemma_finite_parts(r);
    laws::lemma_zero_rounds(pow2(1074));
    assert(q.units() * r.units() == 0) by (nonlinear_arith)
        requires
            q.units() == 0 || r.units() == 0,
    ;
    reveal(Double::spec_times);
    laws::lemma_signed(q.is_negative() != r.is_negative(), 0);
}

/// Where the outcome is certain, or the number is out of range, there is no fee.
pub proof fn certainty_is_free(p: Double)
    requires
        p.le(Double::ratio(0, 1)) || Double::ratio(1, 1).le(p),
    ensures
        FeeCalculator::taker_fee_rate(p).same(Double::ratio(0, 1)),
{
    laws::lemma_ratio(0, 1);
    lemma_one();
    laws::lemma_ratio_order(0, 1, 1, 1);
    let q = FeeCalculator::probability(p);
    lemma_certain(q);
    lemma_square(q.times(Double::ratio(1, 1).minus(q)));
}

/// From one half up to one, the distance to one is exact, and so is the way back.
pub proof fn complement_comes_back(p: Double)
    requires
        Double::ratio(1, 2).le(p),
        p.le(Double::ratio(1, 1)),
    ensures
        Double::ratio(1, 1).minus(p).val() == Double::ratio(1, 1).val() - p.val(),
        Double::ratio(1, 1).minus(Double::ratio(1, 1).minus(p)) == p,
{
    let one = Double::ratio(1, 1);
    let half = Double::ratio(1, 2);
    let r = one.minus(p);
    lemma2_to64();
    lemma2_to64_rest();
    lemma_one();
    laws::lemma_binary_fraction(0, 1);
    laws::lemma_binary_fraction(1, 2);
    value::lemma_finite_parts(p);
    value::lemma_finite_parts(one);
    lemma_pow2_adds(53, 1021);
    lemma_pow2_adds(1, 1021);
    // In steps of two to the power -53.
    let step: nat = pow2(1021);
    let k: nat = if p.mag() == one.mag() {
        0x20_0000_0000_0000
    } else {
        p.sig()
    };
    if p.mag() == one.mag() {
        value::lemma_order(p, one);
    } else {
        assert(p.exp() == 1021) by {
            let m: int = p.mag();
            assert(1022 * 0x10_0000_0000_0000 <= m < 1023 * 0x10_0000_0000_0000);
            assert(m / 0x10_0000_0000_0000 == 1022);
        }
    }
    assert(p.units() == k * step);
    let m: nat = (0x20_0000_0000_0000 - k) as nat;
    assert(pow2(1074) - k * step == m * step) by (nonlinear_arith)
        requires
            pow2(1074) == 0x20_0000_0000_0000 * step,
            m == 0x20_0000_0000_0000 - k,
    ;
    integers::lemma_exact(m, 1021);
    laws::lemma_signed(!p.is_negative(), p.mag());
    value::lemma_finite_parts(p.negated());
    assert(p.negated().val() == -p.val());
    assert(r == value::signed(false, rounding::rounded(m * step, 1))) by {
        reveal(Double::spec_plus);
    }
    laws::lemma_signed(false, rounding::rounded(m * step, 1));
    assert(r.val() == m * step);
    laws::lemma_signed(!r.is_negative(), r.mag());
    value::lemma_finite_parts(r.negated());
    assert(r.negated().val() == -r.val());
    assert(one.minus(r) == value::signed(false, rounding::rounded(p.units(), 1))) by {
        reveal(Double::spec_plus);
    }
    assert(value::signed(false, p.mag()) == p);
}

/// The taker fee rate is symmetric: YES and NO pay the same. It is so wherever the distance to
/// one is exact, which it is for the more likely of the two.
pub proof fn fee_rate_is_symmetric(p: Double)
    requires
        Double::ratio(0, 1).le(p),
        p.le(Double::ratio(1, 1)),
        Double::ratio(1, 2).le(p) || Double::ratio(1, 1).minus(Double::ratio(1, 1).minus(p)) == p,
    ensures
        FeeCalculator::taker_fee_rate(Double::ratio(1, 1).minus(p))
            == FeeCalculator::taker_fee_rate(p),
{
    let zero = Double::ratio(0, 1);
    let one = Double::ratio(1, 1);
    let r = one.minus(p);
    if Double::ratio(1, 2).le(p) {
        complement_comes_back(p);
    }
    lemma_one();
    laws::lemma_ratio(0, 1);
    laws::lemma_ratio_order(0, 1, 1, 1);
    value::lemma_finite_parts(zero);
    value::lemma_order(zero, p);
    value::lemma_order(p, one);
    lemma_complement(p);
    value::lemma_order(zero, r);
    value::lemma_order(r, one);
    order::times_commutes(p, r);
}

/// The taker fee rate is 1/64 at one half, and zero at either end.
pub proof fn fee_rate_peaks_in_the_middle()
    ensures
        FeeCalculator::taker_fee_rate(Double::ratio(1, 2)) == Double::ratio(1, 64),
        FeeCalculator::taker_fee_rate(Double::ratio(0, 1)).same(Double::ratio(0, 1)),
        FeeCalculator::taker_fee_rate(Double::ratio(1, 1)).same(Double::ratio(0, 1)),
{
    let zero = Double::ratio(0, 1);
    let one = Double::ratio(1, 1);
    let half = Double::ratio(1, 2);
    lemma2_to64();
    lemma_one();
    lemma_scales();
    laws::lemma_ratio(0, 1);
    laws::lemma_ratio_order(0, 1, 1, 1);
    laws::lemma_ratio_order(0, 1, 1, 2);
    laws::lemma_ratio_order(1, 2, 1, 1);
    laws::lemma_binary_fraction(1, 2);
    laws::lemma_binary_fraction(2, 4);
    laws::lemma_ratio_order(0, 1, 1, 4);
    value::lemma_finite_parts(zero);
    value::lemma_finite_parts(half);
    // At one half.
    lemma_complement(half);
    let r = one.minus(half);
    value::lemma_finite_parts(r);
    value::lemma_order(r, half);
    lemma_pow2_adds(1073, 1073);
    lemma_pow2_adds(1074, 1072);
    let v = half.times(r);
    assert(v == Double::ratio(1, 4)) by {
        reveal(Double::spec_times);
        assert(half.units() * r.units() == pow2(1072) * pow2(1074)) by (nonlinear_arith)
            requires
                half.units() == pow2(1073),
                r.units() == pow2(1073),
                pow2(1073) * pow2(1073) == pow2(1074) * pow2(1072),
        ;
        rounding::lemma_rounded_scale(pow2(1072), 1, pow2(1074));
        assert(1 * pow2(1074) == pow2(1074));
        value::lemma_finite_parts(Double::ratio(1, 4));
        assert(!r.is_negative());
    }
    lemma_square(v);
    // At the ends.
    lemma_variance(zero);
    lemma_variance(one);
    let a = zero.times(one.minus(zero));
    let b = one.times(one.minus(one));
    lemma_complement(zero);
    lemma_complement(one);
    laws::lemma_zero_rounds(pow2(1074));
    laws::lemma_zero_rounds(1);
    assert(a.mag() == 0) by {
        reveal(Double::spec_times);
        assert(zero.units() * one.minus(zero).units() == 0) by (nonlinear_arith)
            requires
                zero.units() == 0,
        ;
    }
    assert(b.mag() == 0) by {
        reveal(Double::spec_times);
        reveal(Double::spec_plus);
        laws::lemma_signed(true, one.mag());
        value::lemma_finite_parts(one.negated());
        value::lemma_finite_parts(one.minus(one));
        assert(one.units() * one.minus(one).units() == 0) by (nonlinear_arith)
            requires
                one.minus(one).units() == 0,
        ;
    }
    lemma_square(a);
    lemma_square(b);
}

/// A bound on a rounding, told without the figures of binary64.
proof fn lemma_rounding(a: int, b: int, unit: int, h: int, most: int)
    requires
        error::near(a, b, unit),
        0 <= b <= most,
        0 < unit,
        0x10_0000_0000_0000 * unit <= most,
        0x4_0000_0000_0000 * h == most,
    ensures
        -h <= a - b <= h,
{
    error::near_in_figures(a, b, unit, b);
    let d = a - b;
    assert(h > 0);
    assert(0x20_0000_0000_0000 * d <= 0x8_0000_0000_0000 * h);
    assert(0x20_0000_0000_0000 * (-d) <= 0x8_0000_0000_0000 * h);
    assert(d <= h) by (nonlinear_arith)
        requires
            0x20_0000_0000_0000 * d <= 0x8_0000_0000_0000 * h,
            h > 0,
    ;
    assert(-d <= h) by (nonlinear_arith)
        requires
            0x20_0000_0000_0000 * (-d) <= 0x8_0000_0000_0000 * h,
            h > 0,
    ;
}

/// Four roundings together: complement, variance, square and quarter.
proof fn lemma_rate(one: int, h: int, p: int, c: int, v: int, s: int, r: int)
    requires
        0 < h <= one,
        0 <= p <= one,
        0 <= c <= one,
        0 <= v <= one,
        0 <= s <= one,
        -h <= c - (one - p) <= h,
        -(h * one) <= v * one - p * c <= h * one,
        -(h * one) <= s * one - v * v <= h * one,
        -(4 * h) <= 4 * r - s <= 4 * h,
    ensures
        ({
            let x = p * (one - p);
            let cube = one * one * one;
            -(9 * h * cube) <= 4 * r * cube - x * x <= 9 * h * cube
        }),
{
    let x = p * (one - p);
    let square = one * one;
    let cube = one * one * one;
    // The variance.
    let d = v * one - x;
    assert(-(2 * (h * one)) <= d <= 2 * (h * one)) by {
        let e = c - (one - p);
        assert(p * c - x == p * e) by (nonlinear_arith)
            requires
                x == p * (one - p),
                e == c - (one - p),
        ;
        assert(-(h * one) <= p * e <= h * one) by (nonlinear_arith)
            requires
                0 <= p <= one,
                -h <= e <= h,
                h > 0,
        ;
    }
    // Its square.
    let sum = v * one + x;
    assert(0 <= x <= square) by (nonlinear_arith)
        requires
            x == p * (one - p),
            0 <= p <= one,
            square == one * one,
    ;
    assert(0 <= v * one <= square) by (nonlinear_arith)
        requires
            0 <= v <= one,
            square == one * one,
    ;
    assert((v * one) * (v * one) - x * x == d * sum) by (nonlinear_arith)
        requires
            d == v * one - x,
            sum == v * one + x,
    ;
    assert(-(4 * h * cube) <= d * sum <= 4 * h * cube) by {
        let k = 2 * (h * one);
        assert(-(k * (2 * square)) <= d * sum <= k * (2 * square)) by (nonlinear_arith)
            requires
                -k <= d <= k,
                0 <= sum <= 2 * square,
        ;
        assert(k * (2 * square) == 4 * h * cube) by (nonlinear_arith)
            requires
                k == 2 * (h * one),
                square == one * one,
                cube == one * one * one,
        ;
    }
    assert(-(h * cube) <= s * cube - (v * one) * (v * one) <= h * cube) by {
        let f = s * one - v * v;
        assert(s * cube - (v * one) * (v * one) == f * square) by (nonlinear_arith)
            requires
                f == s * one - v * v,
                square == one * one,
                cube == one * one * one,
        ;
        assert(-((h * one) * square) <= f * square <= (h * one) * square) by (nonlinear_arith)
            requires
                -(h * one) <= f <= h * one,
                square >= 0,
        ;
        assert((h * one) * square == h * cube) by (nonlinear_arith)
            requires
                square == one * one,
                cube == one * one * one,
        ;
    }
    // The quarter.
    assert(-(4 * h * cube) <= 4 * r * cube - s * cube <= 4 * h * cube) by (nonlinear_arith)
        requires
            -(4 * h) <= 4 * r - s <= 4 * h,
            cube >= 0,
    ;
    assert(9 * h * cube == 4 * h * cube + h * cube + 4 * h * cube) by (nonlinear_arith);
}

/// The fee rate is a quarter of the square of the product of both probabilities, up to the
/// rounding: nine parts in two to the power 50 at most. One is two to the power 1074 here.
pub proof fn fee_rate_is_near_its_formula(p: Double)
    requires
        Double::ratio(0, 1).le(p),
        p.le(Double::ratio(1, 1)),
    ensures
        ({
            let one = pow2(1074) as int;
            let cube = one * one * one;
            let x = p.val() * (one - p.val());
            let r = FeeCalculator::taker_fee_rate(p).val();
            -(9 * pow2(1024) * cube) <= 4 * r * cube - x * x <= 9 * pow2(1024) * cube
        }),
{
    let one = pow2(1074) as int;
    let h = pow2(1024) as int;
    let o = Double::ratio(1, 1);
    let zero = Double::ratio(0, 1);
    lemma2_to64();
    lemma2_to64_rest();
    lemma_one();
    laws::lemma_ratio(0, 1);
    lemma_pow2_pos(1024);
    lemma_pow2_adds(50, 1024);
    lemma_pow2_adds(52, 1022);
    lemma_pow2_pos(1022);
    lemma_pow2_strictly_increases(1074, 2000);
    lemma_pow2_strictly_increases(2000, 2001);
    assert(one == 0x4_0000_0000_0000 * h);
    value::lemma_finite_parts(zero);
    value::lemma_order(zero, p);
    value::lemma_order(p, o);
    let c = o.minus(p);
    lemma_complement(p);
    error::negated_value(p);
    error::plus_is_near(o, p.negated());
    lemma_rounding(c.val(), one - p.val(), 1, h, one);
    let v = p.times(c);
    lemma_variance(p);
    lemma_product_near(p, c, one, h);
    laws::lemma_binary_fraction(2, 4);
    let quarter = Double::ratio(1, 4);
    value::lemma_order(zero, v);
    value::lemma_order(v, quarter);
    lemma_pow2_adds(2, 1072);
    let s = v.times(v);
    lemma_product_near(v, v, one, h);
    assert(0 <= s.val() <= one) by {
        assert(16 * (v.val() * v.val()) <= one * one) by (nonlinear_arith)
            requires
                0 <= 4 * v.val() <= one,
        ;
        lemma_not_negative(v);
        assert(s.val() <= one) by (nonlinear_arith)
            requires
                s.val() * one <= v.val() * v.val() + h * one,
                16 * (v.val() * v.val()) <= one * one,
                4 * h <= one,
                one > 0,
        ;
    }
    let r = quarter.times(s);
    lemma_product_near(quarter, s, one, h);
    assert(-(4 * h) <= 4 * r.val() - s.val() <= 4 * h) by (nonlinear_arith)
        requires
            -(h * one) <= r.val() * one - quarter.val() * s.val() <= h * one,
            4 * quarter.val() == one,
            one > 0,
    ;
    lemma_rate(one, h, p.val(), c.val(), v.val(), s.val(), r.val());
}

/// A square is not below zero.
proof fn lemma_not_negative(v: Double)
    requires
        v.is_finite(),
        v.times(v).is_finite(),
    ensures
        v.times(v).val() >= 0,
{
    reveal(Double::spec_times);
    value::lemma_finite_parts(v.times(v));
    let p = v.units() * v.units();
    laws::lemma_signed(false, rounding::rounded(p, pow2(1074)));
}

/// A product of numbers from zero to one is near the exact one.
proof fn lemma_product_near(a: Double, b: Double, one: int, h: int)
    requires
        a.is_finite(),
        b.is_finite(),
        0 <= a.val() <= one,
        0 <= b.val() <= one,
        one == pow2(1074),
        one == 0x4_0000_0000_0000 * h,
        h > 0,
    ensures
        a.times(b).is_finite(),
        -(h * one) <= a.times(b).val() * one - a.val() * b.val() <= h * one,
{
    lemma2_to64();
    lemma2_to64_rest();
    lemma_pow2_adds(52, 1022);
    lemma_pow2_pos(1022);
    lemma_pow2_strictly_increases(1074, 2000);
    value::lemma_finite_parts(a);
    value::lemma_finite_parts(b);
    let exact = a.val() * b.val();
    assert(0 <= exact <= one * one) by (nonlinear_arith)
        requires
            exact == a.val() * b.val(),
            0 <= a.val() <= one,
            0 <= b.val() <= one,
    ;
    assert(a.units() * b.units() <= pow2(1074) * pow2(2000)) by (nonlinear_arith)
        requires
            a.units() <= one,
            b.units() <= one,
            one == pow2(1074),
            one <= pow2(2000),
    ;
    error::times_is_near(a, b);
    assert(0x10_0000_0000_0000 * one <= one * one) by (nonlinear_arith)
        requires
            0x10_0000_0000_0000 <= one,
    ;
    assert(0x4_0000_0000_0000 * (h * one) == one * one) by (nonlinear_arith)
        requires
            one == 0x4_0000_0000_0000 * h,
    ;
    lemma_rounding(a.times(b).val() * one, exact, one, h * one, one * one);
}

} // verus!

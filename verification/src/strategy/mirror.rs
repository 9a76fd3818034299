//! How the quotes for YES and those for NO hang together: what is paid for one is what is asked
//! of the other, but for the rounding.

use vstd::arithmetic::div_mod::*;
use vstd::arithmetic::power2::*;
use vstd::prelude::*;

use super::pricing;
use super::pricing::MarketInventory;
use crate::config::StrategyConfig;
use crate::double::rounding::HIDDEN;
use crate::double::{error, laws, value, Double};
use crate::feeds::types::{OracleSnapshot, OrderBookView};

verus! {

/// One, in units of two to the power -1074.
pub open spec fn one() -> int {
    pow2(1074) as int
}

/// What rounding is allowed to change of a sum of two quotes: two to the power -36, which is
/// less than a ten-billionth.
pub open spec fn hair() -> int {
    pow2(1038) as int
}

/// Whether two prices add up to one, within a distance.
pub open spec fn adds_up(a: Double, b: Double, within: int) -> bool {
    &&& a.is_finite() && b.is_finite()
    &&& -within <= a.val() + b.val() - one() <= within
}

/// Whether a price is further than a hair from every whole number of ticks, so that rounding
/// cannot take it past one.
pub open spec fn is_off_ticks(price: Double, tick: Double) -> bool {
    forall|j: int|
        price.val() - #[trigger] (j * tick.val()) > hair() || price.val() - (j * tick.val())
            < -hair()
}

/// Whether a number lies within 1024 of zero.
pub open spec fn is_moderate(x: Double) -> bool {
    x.is_finite() && -1024 * one() <= x.val() <= 1024 * one()
}

pub proof fn lemma_scales()
    ensures
        one() == 0x10_0000_0000 * hair(),
        hair() > 0x1_0000_0000,
        0x2_0000_0000_0000 * hair() <= pow2(2000),
        one() <= pow2(2000),
        0x2_0000_0000_0000 * hair() * one() <= hair() * pow2(2000),
{
    lemma2_to64();
    lemma2_to64_rest();
    lemma_pow2_adds(36, 1038);
    lemma_pow2_adds(49, 1038);
    lemma_pow2_adds(32, 1006);
    lemma_pow2_adds(49, 1074);
    lemma_pow2_pos(1038);
    lemma_pow2_strictly_increases(0, 1006);
    lemma_pow2_strictly_increases(1087, 2000);
    lemma_pow2_strictly_increases(1074, 2000);
    lemma_pow2_strictly_increases(1123, 2000);
    let h = hair();
    let u = one();
    assert(0x1_0000_0000 * pow2(1006) > 0x1_0000_0000) by (nonlinear_arith)
        requires
            pow2(1006) > 1,
    ;
    assert(0x2_0000_0000_0000 * h * u <= h * pow2(2000)) by (nonlinear_arith)
        requires
            0x2_0000_0000_0000 * u <= pow2(2000),
            h > 0,
    ;
}

/// Sums of moderate size are exact but for a sixteenth of a hair.
pub proof fn lemma_sum(a: Double, b: Double)
    requires
        a.is_finite(),
        b.is_finite(),
        -0x1_0000_0000_0000 * hair() <= a.val() + b.val() <= 0x1_0000_0000_0000 * hair(),
    ensures
        a.plus(b).is_finite(),
        -hair() <= 16 * (a.plus(b).val() - (a.val() + b.val())) <= hair(),
{
    lemma_scales();
    error::plus_is_near(a, b);
    let s = a.val() + b.val();
    let size = if s < 0 {
        -s
    } else {
        s
    };
    error::near_in_figures(a.plus(b).val(), s, 1, size);
    lemma_small(a.plus(b).val() - s, size, 1, hair());
}

/// A part in two to the power 53 is small.
pub proof fn lemma_small(d: int, size: int, unit: int, h: int)
    requires
        0x20_0000_0000_0000 * d <= size + 0x10_0000_0000_0000 * unit,
        0x20_0000_0000_0000 * (-d) <= size + 0x10_0000_0000_0000 * unit,
        size <= 0x1_0000_0000_0000 * h,
        0 <= 16 * unit <= h,
    ensures
        -h <= 16 * d <= h,
{
}

/// The quotient by a tick, and the whole numbers of ticks around a price: how far they are from
/// the exact ones.
pub proof fn lemma_ticks(x: Double, tick: Double) -> (r: (int, int))
    requires
        x.is_finite(),
        tick.is_finite(),
        8 * hair() <= tick.val() <= one() + hair(),
        -0x1_0000_0000_0000 * hair() <= x.val() <= 0x1_0000_0000_0000 * hair(),
    ensures
        x.over(tick).is_finite(),
        x.over(tick).floor().is_finite(),
        x.over(tick).ceil().is_finite(),
        x.over(tick).floor().val() == r.0 * one(),
        x.over(tick).ceil().val() == r.1 * one(),
        16 * (r.0 * tick.val()) <= 16 * x.val() + hair(),
        16 * (r.0 * tick.val()) > 16 * x.val() - hair() - 16 * tick.val(),
        16 * (r.1 * tick.val()) >= 16 * x.val() - hair(),
        16 * (r.1 * tick.val()) < 16 * x.val() + hair() + 16 * tick.val(),
{
    lemma_scales();
    let u = one();
    let h = hair();
    let t = tick.val();
    let v = x.val();
    let xu = x.units();
    assert(xu * pow2(1074) <= tick.units() * pow2(2000)) by (nonlinear_arith)
        requires
            xu <= 0x1_0000_0000_0000 * h,
            0x2_0000_0000_0000 * h * u <= h * pow2(2000),
            u == pow2(1074),
            tick.units() >= h,
            h > 0,
            u > 0,
    ;
    error::over_is_near(x, tick);
    let q = x.over(tick);
    let a = q.val();
    let size = if v * u < 0 {
        -(v * u)
    } else {
        v * u
    };
    assert(size <= 0x1_0000_0000_0000 * (h * u)) by (nonlinear_arith)
        requires
            -0x1_0000_0000_0000 * h <= v <= 0x1_0000_0000_0000 * h,
            u > 0,
            size == v * u || size == -(v * u),
    ;
    assert(0x1_0000_0000 * u <= h * u) by (nonlinear_arith)
        requires
            h > 0x1_0000_0000,
            u > 0,
    ;
    error::near_in_figures(a * t, v * u, t, size);
    assert(16 * t <= h * u);
    lemma_small(a * t - v * u, size, t, h * u);
    assert((-a) * t == -(a * t) && (-v) * u == -(v * u)) by (nonlinear_arith);
    // Within the whole numbers that are exact.
    assert(-HIDDEN * u <= a <= HIDDEN * u) by (nonlinear_arith)
        requires
            -(h * u) <= 16 * (a * t - v * u) <= h * u,
            -0x1_0000_0000_0000 * h <= v <= 0x1_0000_0000_0000 * h,
            8 * h <= t,
            h > 0,
            u > 0,
            HIDDEN == 0x10_0000_0000_0000,
    ;
    error::whole_values(q);
    let k = a / u;
    let m = -((-a) / u);
    lemma_fundamental_div_mod(a, u);
    lemma_mod_bound(a, u);
    lemma_fundamental_div_mod(-a, u);
    lemma_mod_bound(-a, u);
    assert(k * u <= a && a < k * u + u) by (nonlinear_arith)
        requires
            a == u * k + a % u,
            0 <= a % u < u,
    ;
    assert(m * u >= a && a > m * u - u) by (nonlinear_arith)
        requires
            -a == u * (-m) + (-a) % u,
            0 <= (-a) % u < u,
    ;
    lemma_not_above(k, a, v, t, u, h);
    lemma_below(k, a, v, t, u, h);
    assert((-m) * u == -(m * u)) by (nonlinear_arith);
    lemma_not_above(-m, -a, -v, t, u, h);
    lemma_below(-m, -a, -v, t, u, h);
    assert((-m) * t == -(m * t)) by (nonlinear_arith);
    (k, m)
}

proof fn lemma_not_above(k: int, a: int, v: int, t: int, u: int, h: int)
    requires
        k * u <= a,
        16 * (a * t - v * u) <= h * u,
        t > 0,
        u > 0,
    ensures
        16 * (k * t) <= 16 * v + h,
{
    assert((k * u) * t <= a * t) by (nonlinear_arith)
        requires
            k * u <= a,
            t > 0,
    ;
    assert(16 * (k * t) <= 16 * v + h) by (nonlinear_arith)
        requires
            16 * ((k * u) * t) <= 16 * (v * u) + h * u,
            u > 0,
    ;
}

proof fn lemma_below(k: int, a: int, v: int, t: int, u: int, h: int)
    requires
        a < k * u + u,
        -(h * u) <= 16 * (a * t - v * u),
        t > 0,
        u > 0,
    ensures
        16 * (k * t) > 16 * v - h - 16 * t,
{
    assert(a * t < (k * u + u) * t) by (nonlinear_arith)
        requires
            a < k * u + u,
            t > 0,
    ;
    assert(16 * (k * t) > 16 * v - h - 16 * t) by (nonlinear_arith)
        requires
            16 * ((k * u + u) * t) > 16 * (v * u) - h * u,
            u > 0,
    ;
}

/// The price of a whole number of ticks is exact but for a sixteenth of a hair.
pub proof fn lemma_price(count: Double, tick: Double, k: int)
    requires
        count.is_finite(),
        tick.is_finite(),
        count.val() == k * one(),
        0 < tick.val() <= one() + hair(),
        -0x1_8000_0000_0000 * hair() <= k * tick.val() <= 0x1_8000_0000_0000 * hair(),
    ensures
        count.times(tick).is_finite(),
        -hair() <= 8 * (count.times(tick).val() - k * tick.val()) <= hair(),
{
    lemma_scales();
    let u = one();
    let h = hair();
    let t = tick.val();
    let p = k * t;
    assert(count.val() * t == p * u) by (nonlinear_arith)
        requires
            count.val() == k * u,
            p == k * t,
    ;
    let size = if p * u < 0 {
        -(p * u)
    } else {
        p * u
    };
    assert(size <= 0x1_8000_0000_0000 * h * u) by (nonlinear_arith)
        requires
            -0x1_8000_0000_0000 * h <= p <= 0x1_8000_0000_0000 * h,
            u > 0,
            size == p * u || size == -(p * u),
    ;
    assert(count.units() * tick.units() == size) by (nonlinear_arith)
        requires
            count.val() * t == p * u,
            tick.units() == t,
            t > 0,
            count.units() == count.val() || count.units() == -count.val(),
            count.units() >= 0,
            size >= 0,
            size == p * u || size == -(p * u),
    ;
    assert(size <= pow2(1074) * pow2(2000)) by (nonlinear_arith)
        requires
            size <= 0x1_8000_0000_0000 * h * u,
            0x2_0000_0000_0000 * h <= pow2(2000),
            u == pow2(1074),
            h > 0,
            u > 0,
    ;
    error::times_is_near(count, tick);
    let c = count.times(tick).val();
    error::near_in_figures(c * u, p * u, u, size);
    let d = c - p;
    assert(c * u - p * u == d * u) by (nonlinear_arith)
        requires
            d == c - p,
    ;
    assert(-h <= 8 * d <= h) by (nonlinear_arith)
        requires
            0x20_0000_0000_0000 * (d * u) <= 0x1_8000_0000_0000 * h * u + 0x10_0000_0000_0000 * u,
            0x20_0000_0000_0000 * (-(d * u)) <= 0x1_8000_0000_0000 * h * u + 0x10_0000_0000_0000
                * u,
            u > 0,
            h > 0x1_0000_0000,
    ;
}

/// A tick that is a part of one: many of them are one.
pub proof fn lemma_parts(n: u32)
    requires
        n > 0,
    ensures
        ({
            let t = Double::ratio(1, n);
            &&& t.is_finite()
            &&& 8 * hair() <= t.val() <= one() + hair()
            &&& -hair() <= 16 * (n * t.val() - one()) <= hair()
            &&& !t.le(Double::ratio(0, 1))
        }),
{
    lemma_scales();
    error::fraction_is_near(n);
    laws::lemma_ratio(0, 1);
    laws::lemma_ratio(1, n);
    let tick = Double::ratio(1, n);
    let t = tick.val();
    let u = one();
    let h = hair();
    value::lemma_finite_parts(tick);
    value::lemma_finite_parts(Double::ratio(0, 1));
    value::lemma_order(Double::ratio(0, 1), tick);
    assert(t * n == n * t) by (nonlinear_arith);
    let d = n * t - u;
    assert(0x20_0000_0000_0000 * d <= 2 * u && 0x20_0000_0000_0000 * (-d) <= 2 * u)
        by (nonlinear_arith)
        requires
            2 * HIDDEN * d <= 2 * u,
            2 * HIDDEN * (-d) <= 2 * u,
            HIDDEN == 0x10_0000_0000_0000,
    ;
    assert(-h <= 16 * d <= h);
    assert(8 * h <= t <= u + h) by (nonlinear_arith)
        requires
            -h <= 16 * (n * t - u) <= h,
            u == 0x10_0000_0000 * h,
            1 <= n < 0x1_0000_0000,
            h > 0,
            t > 0,
    ;
}

/// The bounds of a quote add up to one.
pub proof fn lemma_bounds_add_up()
    ensures
        pricing::lowest().is_finite(),
        pricing::highest().is_finite(),
        0 < pricing::lowest().val() < pricing::highest().val() < one(),
        -hair() <= 16 * (pricing::lowest().val() + pricing::highest().val() - one()) <= hair(),
{
    lemma_scales();
    let u = one();
    let h = hair();
    let low = pricing::lowest();
    let high = pricing::highest();
    laws::lemma_ratio(1, 100);
    laws::lemma_ratio(99, 100);
    reveal(Double::spec_ratio);
    lemma_pow2_pos(1074);
    assert(1nat * pow2(1074) == pow2(1074));
    assert(pow2(1074) <= 100 * pow2(2000));
    assert(99 * pow2(1074) <= 100 * pow2(2000));
    error::lemma_near(pow2(1074), 100);
    error::lemma_near(99 * pow2(1074), 100);
    assert(low.units() * 100 == 100 * low.val());
    assert(high.units() * 100 == 100 * high.val());
    error::near_in_figures(100 * low.val(), u, 100, u);
    error::near_in_figures(100 * high.val(), 99 * u, 100, 99 * u);
    lemma_cents(low.val(), high.val(), u, h);
}

proof fn lemma_cents(low: int, high: int, u: int, h: int)
    requires
        u == 0x10_0000_0000 * h,
        h > 0x1_0000_0000,
        0x20_0000_0000_0000 * (100 * low - u) <= u + 0x10_0000_0000_0000 * 100,
        0x20_0000_0000_0000 * (u - 100 * low) <= u + 0x10_0000_0000_0000 * 100,
        0x20_0000_0000_0000 * (100 * high - 99 * u) <= 99 * u + 0x10_0000_0000_0000 * 100,
        0x20_0000_0000_0000 * (99 * u - 100 * high) <= 99 * u + 0x10_0000_0000_0000 * 100,
    ensures
        0 < low < high < u,
        -h <= 16 * (low + high - u) <= h,
{
    assert(-h <= 160 * (100 * low - u) <= h);
    assert(-h <= 160 * (100 * high - 99 * u) <= h);
}

/// Where two prices add up, they still do so when both are held within the bounds of a quote.
proof fn lemma_clamped(a: Double, b: Double, within: int)
    requires
        a.is_finite(),
        b.is_finite(),
        -within <= a.val() + b.val() - one() <= within,
    ensures
        adds_up(
            a.clamp(pricing::lowest(), pricing::highest()),
            b.clamp(pricing::lowest(), pricing::highest()),
            within + hair() / 8,
        ),
{
    lemma_scales();
    lemma_bounds_add_up();
    let low = pricing::lowest();
    let high = pricing::highest();
    value::lemma_order(a, low);
    value::lemma_order(b, low);
    value::lemma_order(high, a);
    value::lemma_order(high, b);
}

/// A bid and an ask, rounded outward to ticks that are parts of one, of prices that add up: they
/// add up but for a tick, and without it where either price is off the ticks.
proof fn lemma_opposite(x: Double, y: Double, n: u32)
    requires
        n > 0,
        x.is_finite(),
        y.is_finite(),
        -0x1_0000_0000_0000 * hair() <= x.val() <= 0x1_0000_0000_0000 * hair(),
        -0x1_0000_0000_0000 * hair() <= y.val() <= 0x1_0000_0000_0000 * hair(),
        -5 * hair() <= 16 * (x.val() + y.val() - one()) <= 5 * hair(),
    ensures
        ({
            let tick = Double::ratio(1, n);
            let low = pricing::lowest();
            let high = pricing::highest();
            let bid = pricing::quantize_down(x, tick).clamp(low, high);
            let ask = pricing::quantize_up(y, tick).clamp(low, high);
            &&& adds_up(bid, ask, tick.val() + hair())
            &&& is_off_ticks(x, tick) || is_off_ticks(y, tick) ==> adds_up(bid, ask, hair())
        }),
{
    lemma_scales();
    lemma_parts(n);
    let tick = Double::ratio(1, n);
    let t = tick.val();
    let u = one();
    let h = hair();
    let (k, _) = lemma_ticks(x, tick);
    let (_, m) = lemma_ticks(y, tick);
    let kt = k * t;
    let mt = m * t;
    lemma_price(x.over(tick).floor(), tick, k);
    lemma_price(y.over(tick).ceil(), tick, m);
    let c = k + m - n;
    assert(c * t == kt + mt - n * t) by (nonlinear_arith)
        requires
            c == k + m - n,
            kt == k * t,
            mt == m * t,
    ;
    assert(-16 * t - 8 * h < 16 * (c * t) < 16 * t + 8 * h);
    assert(-1 <= c <= 1) by (nonlinear_arith)
        requires
            -16 * t - 8 * h < 16 * (c * t) < 16 * t + 8 * h,
            8 * h <= t,
            h > 0,
    ;
    assert(-t <= c * t <= t) by (nonlinear_arith)
        requires
            -1 <= c <= 1,
            t > 0,
    ;
    let bid = pricing::quantize_down(x, tick);
    let ask = pricing::quantize_up(y, tick);
    lemma_clamped(bid, ask, t + h / 2);
    if is_off_ticks(x, tick) {
        let above = (k + 1) * t;
        assert(above == kt + t) by (nonlinear_arith)
            requires
                above == (k + 1) * t,
                kt == k * t,
        ;
        assert(x.val() - (k * tick.val()) > h || x.val() - (k * tick.val()) < -h);
        assert(x.val() - ((k + 1) * tick.val()) > h || x.val() - ((k + 1) * tick.val()) < -h);
        assert(16 * kt < 16 * x.val() - 16 * h);
        assert(16 * above > 16 * x.val() + 16 * h);
        assert(-16 * t < 16 * (c * t) < 16 * t);
    }
    if is_off_ticks(y, tick) {
        let below = (m - 1) * t;
        assert(below == mt - t) by (nonlinear_arith)
            requires
                below == (m - 1) * t,
                mt == m * t,
        ;
        assert(y.val() - (m * tick.val()) > h || y.val() - (m * tick.val()) < -h);
        assert(y.val() - ((m - 1) * tick.val()) > h || y.val() - ((m - 1) * tick.val()) < -h);
        assert(16 * mt > 16 * y.val() + 16 * h);
        assert(16 * below < 16 * y.val() - 16 * h);
        assert(-16 * t < 16 * (c * t) < 16 * t);
    }
    if is_off_ticks(x, tick) || is_off_ticks(y, tick) {
        assert(c == 0) by (nonlinear_arith)
            requires
                -16 * t < 16 * (c * t) < 16 * t,
                t > 0,
        ;
        assert(c * t == 0) by (nonlinear_arith)
            requires
                c == 0,
        ;
        lemma_clamped(bid, ask, h / 2);
    }
}

/// Prices moved apart by a spread and shifted by a skew, seen from both sides, add up to one but
/// for the rounding of five sums.
pub proof fn lemma_both_sides(fair: Double, half: Double, skew: Double)
    requires
        fair.is_finite(),
        0 <= fair.val() <= one(),
        is_moderate(half),
        is_moderate(skew),
    ensures
        ({
            let x = fair.minus(half).minus(skew);
            let y = Double::ratio(1, 1).minus(fair).plus(half).plus(skew);
            &&& x.is_finite() && y.is_finite()
            &&& -0x1_0000_0000_0000 * hair() <= x.val() <= 0x1_0000_0000_0000 * hair()
            &&& -0x1_0000_0000_0000 * hair() <= y.val() <= 0x1_0000_0000_0000 * hair()
            &&& -5 * hair() <= 16 * (x.val() + y.val() - one()) <= 5 * hair()
        }),
{
    lemma_scales();
    lemma_unit();
    let unit = Double::ratio(1, 1);
    error::negated_value(fair);
    error::negated_value(half);
    error::negated_value(skew);
    lemma_sum(fair, half.negated());
    lemma_sum(fair.minus(half), skew.negated());
    lemma_sum(unit, fair.negated());
    lemma_sum(unit.minus(fair), half);
    lemma_sum(unit.minus(fair).plus(half), skew);
}

/// The other way round: the ask for YES and the bid for NO.
pub proof fn lemma_other_sides(fair: Double, half: Double, skew: Double)
    requires
        fair.is_finite(),
        0 <= fair.val() <= one(),
        is_moderate(half),
        is_moderate(skew),
    ensures
        ({
            let x = Double::ratio(1, 1).minus(fair).minus(half).plus(skew);
            let y = fair.plus(half).minus(skew);
            &&& x.is_finite() && y.is_finite()
            &&& -0x1_0000_0000_0000 * hair() <= x.val() <= 0x1_0000_0000_0000 * hair()
            &&& -0x1_0000_0000_0000 * hair() <= y.val() <= 0x1_0000_0000_0000 * hair()
            &&& -5 * hair() <= 16 * (x.val() + y.val() - one()) <= 5 * hair()
        }),
{
    lemma_scales();
    lemma_unit();
    let unit = Double::ratio(1, 1);
    error::negated_value(fair);
    error::negated_value(half);
    error::negated_value(skew);
    lemma_sum(fair, half);
    lemma_sum(fair.plus(half), skew.negated());
    lemma_sum(unit, fair.negated());
    lemma_sum(unit.minus(fair), half.negated());
    lemma_sum(unit.minus(fair).minus(half), skew);
}

pub proof fn lemma_unit()
    ensures
        Double::ratio(1, 1).is_finite(),
        Double::ratio(1, 1).val() == one(),
{
    lemma2_to64();
    laws::lemma_binary_fraction(0, 1);
}

/// The quotes for NO mirror those for YES: the bid for one token and the ask for the other add
/// up to one, where the tick is a part of one. Rounding may take a price past a whole number of
/// ticks, but not far: the sum is off by no more than a tick and a hair, and by no more than a
/// hair where the price of YES is off the ticks.
pub proof fn opposite_quotes_add_up(
    fair: Double,
    half: Double,
    skew: Double,
    n: u32,
    size: Double,
)
    requires
        n > 0,
        pricing::lowest().le(fair),
        fair.le(pricing::highest()),
        is_moderate(half),
        is_moderate(skew),
    ensures
        ({
            let tick = Double::ratio(1, n);
            let q = pricing::quotes_around(fair, half, skew, tick, size);
            &&& adds_up(q.yes_bid, q.no_ask, tick.val() + hair())
            &&& adds_up(q.yes_ask, q.no_bid, tick.val() + hair())
            &&& is_off_ticks(fair.minus(half).minus(skew), tick) ==> adds_up(
                q.yes_bid,
                q.no_ask,
                hair(),
            )
            &&& is_off_ticks(fair.plus(half).minus(skew), tick) ==> adds_up(
                q.yes_ask,
                q.no_bid,
                hair(),
            )
        }),
{
    let other = Double::ratio(1, 1).minus(fair);
    lemma_bounds_add_up();
    value::lemma_order(pricing::lowest(), fair);
    value::lemma_order(fair, pricing::highest());
    lemma_both_sides(fair, half, skew);
    lemma_other_sides(fair, half, skew);
    lemma_opposite(fair.minus(half).minus(skew), other.plus(half).plus(skew), n);
    lemma_opposite(other.minus(half).plus(skew), fair.plus(half).minus(skew), n);
}

/// What holds of the quotes of a market whose tick is a part of one: bid and ask of opposite
/// tokens add up to one but for the rounding, a bid is not above the ask of its token, all prices
/// lie between a cent and 99 cents, and all sizes are the configured one.
pub proof fn quotes_hang_together(
    config: StrategyConfig,
    oracle: OracleSnapshot,
    book: OrderBookView,
    inventory: MarketInventory,
    max_position: Double,
    n: u32,
)
    requires
        n > 0,
        book.tick_size == Double::ratio(1, n),
        Double::ratio(0, 1).le(config.min_half_spread),
        !pricing::fair_value(oracle, book).is_nan(),
        is_moderate(pricing::half_spread(config, oracle)),
        is_moderate(pricing::skew(config, inventory, max_position)),
    ensures
        ({
            let q = pricing::quotes_for(config, oracle, book, inventory, max_position);
            let within = book.tick_size.val() + hair();
            &&& adds_up(q.yes_bid, q.no_ask, within)
            &&& adds_up(q.yes_ask, q.no_bid, within)
            &&& q.yes_bid.le(q.yes_ask)
            &&& q.no_bid.le(q.no_ask)
            &&& pricing::lowest().le(q.yes_bid) && q.yes_ask.le(pricing::highest())
            &&& pricing::lowest().le(q.no_bid) && q.no_ask.le(pricing::highest())
            &&& q.yes_bid_size == config.quote_size && q.yes_ask_size == config.quote_size
            &&& q.no_bid_size == config.quote_size && q.no_ask_size == config.quote_size
        }),
{
    let fair = pricing::fair_value(oracle, book);
    let half = pricing::half_spread(config, oracle);
    let skew = pricing::skew(config, inventory, max_position);
    pricing::fair_value_is_in_range(oracle, book);
    opposite_quotes_add_up(fair, half, skew, n, config.quote_size);
    pricing::spread_has_a_minimum(config, oracle);
    pricing::quotes_are_in_range(fair, half, skew, book.tick_size, config.quote_size);
    pricing::quotes_do_not_cross(fair, half, skew, book.tick_size, config.quote_size);
}

} // verus!

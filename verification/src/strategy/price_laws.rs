//! What the quotes are, told by the inventory, the books and the settings that go in, and the
//! prices that come out.

use vstd::arithmetic::mul::*;
use vstd::arithmetic::power2::*;
use vstd::prelude::*;

use super::mirror;
use super::mirror::{hair, one};
use super::pricing;
use super::pricing::MarketInventory;
use crate::config::StrategyConfig;
use crate::double::arithmetic::UNIT;
use crate::double::rounding::{HIDDEN, INFINITE};
use crate::double::{error, laws, rounding, value, Double};
use crate::feeds::types::{OracleSnapshot, OrderBookView};

verus! {

/// Whether a number lies within two to the power 64 of zero.
pub open spec fn is_usual(x: Double) -> bool {
    x.is_finite() && -pow2(1138) <= x.val() <= pow2(1138)
}

proof fn lemma_usual()
    ensures
        pow2(1138) * pow2(1138) <= pow2(1074) * pow2(2000),
        pow2(1010) > 0,
        pow2(1074) > 0,
        pow2(1010) <= pow2(1074),
        pow2(1204) * pow2(1074) <= pow2(1010) * pow2(2000),
        4 * pow2(1202) <= pow2(1204),
        pow2(1138) * pow2(1138) == pow2(1202) * pow2(1074),
        pow2(1074) <= pow2(1202),
{
    lemma2_to64();
    lemma_pow2_adds(1138, 1138);
    lemma_pow2_adds(1202, 1074);
    lemma_pow2_adds(1074, 2000);
    lemma_pow2_adds(1010, 2000);
    lemma_pow2_adds(1204, 1074);
    lemma_pow2_adds(2, 1202);
    lemma_pow2_pos(1010);
    lemma_pow2_pos(1074);
    lemma_pow2_strictly_increases(2276, 3074);
    lemma_pow2_strictly_increases(2278, 3010);
    lemma_pow2_strictly_increases(1010, 1074);
    lemma_pow2_strictly_increases(1074, 1202);
}

/// With as much of YES beyond NO as may be held, the skew is the configured factor, but for the
/// rounding of a product and a quotient.
pub proof fn full_position_skews_by_the_factor(
    config: StrategyConfig,
    inventory: MarketInventory,
    max_position: Double,
)
    requires
        is_usual(config.inventory_skew_factor),
        is_usual(max_position),
        max_position.val() >= pow2(1010),
        inventory.yes_shares.minus(inventory.no_shares) == max_position,
    ensures
        ({
            let s = pricing::skew(config, inventory, max_position);
            let k = config.inventory_skew_factor.val();
            let size = if k < 0 {
                -k
            } else {
                k
            };
            let m = max_position.val();
            // Two parts in two to the power 52, and the least steps of numbers.
            let error = (2 * (size * m) + HIDDEN * (2 * one() + 2 * m));
            &&& s.is_finite()
            &&& HIDDEN * ((s.val() - k) * m) <= error
            &&& HIDDEN * ((k - s.val()) * m) <= error
        }),
{
    lemma_usual();
    laws::lemma_ratio(0, 1);
    value::lemma_finite_parts(Double::ratio(0, 1));
    value::lemma_order(Double::ratio(0, 1), max_position);
    let f = config.inventory_skew_factor;
    let k = f.val();
    let m = max_position.val();
    let u = one();
    let size = if k < 0 {
        -k
    } else {
        k
    };
    assert(f.units() == size && max_position.units() == m);
    assert(size * m <= pow2(1138) * pow2(1138)) by (nonlinear_arith)
        requires
            0 <= size <= pow2(1138),
            0 <= m <= pow2(1138),
    ;
    error::times_is_near(f, max_position);
    let p = f.times(max_position);
    let km = k * m;
    let kms = size * m;
    assert(kms == (if km < 0 {
        -km
    } else {
        km
    })) by (nonlinear_arith)
        requires
            km == k * m,
            kms == size * m,
            m > 0,
            size == k || size == -k,
            size >= 0,
    ;
    let pu = p.val() * u;
    error::near_in_figures(pu, km, u, kms);
    let pus = if pu < 0 {
        -pu
    } else {
        pu
    };
    assert(pus <= 2 * kms + u);
    assert(p.units() * pow2(1074) == pus) by (nonlinear_arith)
        requires
            pu == p.val() * u,
            u == pow2(1074),
            p.units() == p.val() || p.units() == -p.val(),
            p.units() >= 0,
            pus == pu || pus == -pu,
            pus >= 0,
    ;
    assert(kms <= pow2(1202) * u);
    assert(u <= pow2(1202) * u) by (nonlinear_arith)
        requires
            pow2(1202) >= 1,
            u > 0,
    ;
    assert(pus <= pow2(1204) * pow2(1074)) by (nonlinear_arith)
        requires
            pus <= 3 * (pow2(1202) * u),
            4 * pow2(1202) <= pow2(1204),
            u == pow2(1074),
            u > 0,
            pow2(1202) >= 0,
    ;
    assert(pow2(1010) * pow2(2000) <= max_position.units() * pow2(2000)) by (nonlinear_arith)
        requires
            max_position.units() >= pow2(1010),
    ;
    error::over_is_near(p, max_position);
    let s = p.over(max_position);
    let sm = s.val() * m;
    error::near_in_figures(sm, pu, m, pus);
    let d = sm - km;
    assert((s.val() - k) * m == d && (k - s.val()) * m == -d) by (nonlinear_arith)
        requires
            d == s.val() * m - k * m,
    ;
    lemma_two_steps(sm, pu, km, kms, u, m);
    assert(HIDDEN * d == 0x10_0000_0000_0000 * d) by (nonlinear_arith)
        requires
            HIDDEN == 0x10_0000_0000_0000,
    ;
    assert(HIDDEN * (-d) == 0x10_0000_0000_0000 * (-d)) by (nonlinear_arith)
        requires
            HIDDEN == 0x10_0000_0000_0000,
    ;
    assert(HIDDEN * (2 * u + 2 * m) == 0x10_0000_0000_0000 * (2 * u + 2 * m))
        by (nonlinear_arith)
        requires
            HIDDEN == 0x10_0000_0000_0000,
    ;
}

proof fn lemma_two_steps(sm: int, pu: int, km: int, kms: int, u: int, m: int)
    requires
        kms == km || kms == -km,
        kms >= 0,
        u > 0,
        m > 0,
        0x20_0000_0000_0000 * (pu - km) <= kms + 0x10_0000_0000_0000 * u,
        0x20_0000_0000_0000 * (km - pu) <= kms + 0x10_0000_0000_0000 * u,
        0x20_0000_0000_0000 * (sm - pu) <= (if pu < 0 {
            -pu
        } else {
            pu
        }) + 0x10_0000_0000_0000 * m,
        0x20_0000_0000_0000 * (pu - sm) <= (if pu < 0 {
            -pu
        } else {
            pu
        }) + 0x10_0000_0000_0000 * m,
    ensures
        0x10_0000_0000_0000 * (sm - km) <= 2 * kms + 0x10_0000_0000_0000 * (2 * u + 2 * m),
        0x10_0000_0000_0000 * (km - sm) <= 2 * kms + 0x10_0000_0000_0000 * (2 * u + 2 * m),
{
}

/// For the same inventory, the less may be held, the greater is the skew.
pub proof fn tighter_limits_skew_more(
    config: StrategyConfig,
    inventory: MarketInventory,
    tight: Double,
    wide: Double,
)
    requires
        Double::ratio(0, 1).lt(tight),
        tight.le(wide),
        wide.is_finite(),
        !config.inventory_skew_factor.times(
            inventory.yes_shares.minus(inventory.no_shares),
        ).is_nan(),
    ensures
        pricing::skew(config, inventory, wide).abs().le(
            pricing::skew(config, inventory, tight).abs(),
        ),
{
    let p = config.inventory_skew_factor.times(inventory.yes_shares.minus(inventory.no_shares));
    laws::lemma_ratio(0, 1);
    value::lemma_finite_parts(tight);
    value::lemma_finite_parts(wide);
    value::lemma_order(tight, wide);
    reveal(Double::spec_over);
    if p.is_finite() {
        let a: nat = p.units() * pow2(UNIT as nat);
        assert(a * tight.units() <= a * wide.units()) by (nonlinear_arith)
            requires
                tight.units() <= wide.units(),
                a >= 0,
        ;
        rounding::lemma_rounded_monotone(a, wide.units(), a, tight.units());
        lemma_range(a, wide.units());
        lemma_range(a, tight.units());
        laws::lemma_signed(p.is_negative(), rounding::rounded(a, wide.units()));
        laws::lemma_signed(p.is_negative(), rounding::rounded(a, tight.units()));
        laws::lemma_signed(false, rounding::rounded(a, wide.units()));
        laws::lemma_signed(false, rounding::rounded(a, tight.units()));
    } else {
        laws::lemma_signed(p.is_negative(), INFINITE as int);
        laws::lemma_signed(false, INFINITE as int);
    }
}

proof fn lemma_range(p: nat, q: nat)
    requires
        q > 0,
    ensures
        0 <= rounding::rounded(p, q) <= INFINITE,
{
    laws::lemma_zero_rounds(q);
    assert(0 * q == 0);
    rounding::lemma_rounded_monotone(0, q, p, q);
}

/// Where half as much may be held, the skew is twice as great: exactly so, but for numbers that
/// are too small or too large for that.
pub proof fn half_the_limit_doubles_the_skew(
    config: StrategyConfig,
    inventory: MarketInventory,
    half: Double,
    full: Double,
)
    requires
        half.is_finite(),
        full.is_finite(),
        half.val() > 0,
        full.val() == 2 * half.val(),
        pricing::skew(config, inventory, half).is_finite(),
        pricing::skew(config, inventory, half).units() > 2 * HIDDEN,
    ensures
        pricing::skew(config, inventory, half).val() == 2 * pricing::skew(
            config,
            inventory,
            full,
        ).val(),
{
    let p = config.inventory_skew_factor.times(inventory.yes_shares.minus(inventory.no_shares));
    laws::lemma_ratio(0, 1);
    value::lemma_finite_parts(Double::ratio(0, 1));
    value::lemma_order(Double::ratio(0, 1), half);
    value::lemma_order(Double::ratio(0, 1), full);
    value::lemma_finite_parts(half);
    value::lemma_finite_parts(full);
    reveal(Double::spec_over);
    let s = p.over(half);
    laws::lemma_signed(p.is_negative(), INFINITE as int);
    assert(p.is_finite());
    let a: nat = p.units() * pow2(UNIT as nat);
    let q = half.units();
    assert(full.units() == 2 * q);
    lemma_range(a, q);
    lemma_range(a, 2 * q);
    laws::lemma_signed(p.is_negative(), rounding::rounded(a, q));
    laws::lemma_signed(false, rounding::rounded(a, q));
    assert(rounding::rounded(a, q) < INFINITE);
    assert(a * q <= a * (2 * q)) by (nonlinear_arith)
        requires
            q > 0,
            a >= 0,
    ;
    rounding::lemma_rounded_monotone(a, 2 * q, a, q);
    laws::lemma_signed(p.is_negative(), rounding::rounded(a, 2 * q));
    laws::lemma_signed(false, rounding::rounded(a, 2 * q));
    laws::lemma_rounded_units(a, q);
    laws::lemma_rounded_units(a, 2 * q);
    let e = rounding::excess(a, q);
    if a < q * (2 * HIDDEN) {
        assert(e == 0);
        lemma2_to64();
        rounding::lemma_significand_range(a, q);
        assert(false) by (nonlinear_arith)
            requires
                s.units() > 2 * HIDDEN,
                s.units() == rounding::nearest_even(a, q * pow2(e)) * pow2(e),
                rounding::nearest_even(a, q * pow2(e)) <= 2 * HIDDEN,
                pow2(e) == 1,
        ;
    }
    let d = rounding::excess(a, 2 * q);
    assert(e == 1 + d);
    lemma_pow2_unfold(e);
    assert((2 * q) * pow2(d) == q * pow2(e)) by (nonlinear_arith)
        requires
            pow2(e) == 2 * pow2(d),
    ;
    let n = rounding::nearest_even(a, q * pow2(e));
    assert(n * pow2(e) == 2 * (n * pow2(d))) by (nonlinear_arith)
        requires
            pow2(e) == 2 * pow2(d),
    ;
}

/// Without a limit above zero, a hundred shares stand for it.
pub proof fn missing_limits_are_a_hundred(
    config: StrategyConfig,
    inventory: MarketInventory,
    max_position: Double,
)
    requires
        !Double::ratio(0, 1).lt(max_position),
    ensures
        pricing::skew(config, inventory, max_position) == pricing::skew(
            config,
            inventory,
            Double::ratio(100, 1),
        ),
{
}

/// The skew is a matter of what is held of YES beyond NO alone, and turns with it.
pub proof fn skew_turns_with_the_inventory(
    config: StrategyConfig,
    inventory: MarketInventory,
    turned: MarketInventory,
    max_position: Double,
)
    requires
        Double::ratio(0, 1).lt(max_position),
        max_position.is_finite(),
        turned.yes_shares.minus(turned.no_shares) == inventory.yes_shares.minus(
            inventory.no_shares,
        ).negated(),
        !pricing::skew(config, inventory, max_position).is_nan(),
    ensures
        pricing::skew(config, turned, max_position) == pricing::skew(
            config,
            inventory,
            max_position,
        ).negated(),
{
    let n = inventory.yes_shares.minus(inventory.no_shares);
    let f = config.inventory_skew_factor;
    laws::lemma_ratio(0, 1);
    reveal(Double::spec_times);
    reveal(Double::spec_over);
    laws::lemma_signed(!n.is_negative(), n.mag());
    lemma_pow2_pos(UNIT as nat);
    value::lemma_finite_parts(max_position);
    let p = f.times(n);
    let q = f.times(n.negated());
    assert(n.negated().mag() == n.mag());
    assert(n.negated().units() == n.units());
    lemma_range(f.units() * n.units(), pow2(UNIT as nat));
    let negative = f.is_negative() != n.is_negative();
    laws::lemma_signed(negative, rounding::rounded(f.units() * n.units(), pow2(UNIT as nat)));
    laws::lemma_signed(!negative, rounding::rounded(f.units() * n.units(), pow2(UNIT as nat)));
    laws::lemma_signed(negative, INFINITE as int);
    laws::lemma_signed(!negative, INFINITE as int);
    assert(p.mag() == q.mag() && p.is_negative() != q.is_negative());
    assert(p.units() == q.units());
    let a: nat = p.units() * pow2(UNIT as nat);
    lemma_range(a, max_position.units());
    laws::lemma_signed(p.is_negative(), rounding::rounded(a, max_position.units()));
    laws::lemma_signed(q.is_negative(), rounding::rounded(a, max_position.units()));
}

/// Whether a quote is a price rounded down to ticks and held between a cent and 99 cents.
pub open spec fn is_bid_for(bid: Double, price: int, tick: int) -> bool {
    let low = Double::ratio(1, 100).val();
    let high = Double::ratio(99, 100).val();
    &&& bid.is_finite()
    &&& low <= bid.val() <= high
    &&& bid.val() <= price + hair() || bid.val() == low
    &&& bid.val() >= price - tick - hair() || bid.val() == high
}

/// Whether a quote is a price rounded up to ticks and held between a cent and 99 cents.
pub open spec fn is_ask_for(ask: Double, price: int, tick: int) -> bool {
    let low = Double::ratio(1, 100).val();
    let high = Double::ratio(99, 100).val();
    &&& ask.is_finite()
    &&& low <= ask.val() <= high
    &&& ask.val() >= price - hair() || ask.val() == high
    &&& ask.val() <= price + tick + hair() || ask.val() == low
}

/// Rounding to ticks goes the right way, and not further than a tick.
proof fn lemma_rounded_price(x: Double, price: int, n: u32)
    requires
        n > 0,
        x.is_finite(),
        -0x1_0000_0000_0000 * hair() <= x.val() <= 0x1_0000_0000_0000 * hair(),
        -3 * hair() <= 16 * (x.val() - price) <= 3 * hair(),
    ensures
        ({
            let tick = Double::ratio(1, n);
            let low = Double::ratio(1, 100);
            let high = Double::ratio(99, 100);
            &&& is_bid_for(
                pricing::quantize_down(x, tick).clamp(low, high),
                price,
                tick.val(),
            )
            &&& is_ask_for(pricing::quantize_up(x, tick).clamp(low, high), price, tick.val())
        }),
{
    mirror::lemma_scales();
    mirror::lemma_parts(n);
    mirror::lemma_bounds_add_up();
    let tick = Double::ratio(1, n);
    let low = Double::ratio(1, 100);
    let high = Double::ratio(99, 100);
    let (k, m) = mirror::lemma_ticks(x, tick);
    mirror::lemma_price(x.over(tick).floor(), tick, k);
    mirror::lemma_price(x.over(tick).ceil(), tick, m);
    let bid = pricing::quantize_down(x, tick);
    let ask = pricing::quantize_up(x, tick);
    value::lemma_order(bid, low);
    value::lemma_order(high, bid);
    value::lemma_order(ask, low);
    value::lemma_order(high, ask);
}

/// The quotes of a market whose tick is a part of one: the fair value less half the spread is bid
/// for YES and the fair value with half the spread asked, both less the skew; for NO it is the
/// same around what is left of one, with the skew added. Bids are rounded down and asks up, by
/// less than a tick.
pub proof fn quotes_are_near_their_prices(
    config: StrategyConfig,
    oracle: OracleSnapshot,
    book: OrderBookView,
    inventory: MarketInventory,
    max_position: Double,
    n: u32,
)
    requires
        n > 0,
        book.tick_size == Double::ratio(1, n),
        !pricing::fair_value(oracle, book).is_nan(),
        mirror::is_moderate(pricing::half_spread(config, oracle)),
        mirror::is_moderate(pricing::skew(config, inventory, max_position)),
    ensures
        ({
            let q = pricing::quotes_for(config, oracle, book, inventory, max_position);
            let fair = pricing::fair_value(oracle, book).val();
            let half = pricing::half_spread(config, oracle).val();
            let skew = pricing::skew(config, inventory, max_position).val();
            let tick = book.tick_size.val();
            &&& is_bid_for(q.yes_bid, fair - half - skew, tick)
            &&& is_ask_for(q.yes_ask, fair + half - skew, tick)
            &&& is_bid_for(q.no_bid, one() - fair - half + skew, tick)
            &&& is_ask_for(q.no_ask, one() - fair + half + skew, tick)
            &&& q.yes_bid_size == config.quote_size
            &&& q.yes_ask_size == config.quote_size
            &&& q.no_bid_size == config.quote_size
            &&& q.no_ask_size == config.quote_size
        }),
{
    let fair = pricing::fair_value(oracle, book);
    let half = pricing::half_spread(config, oracle);
    let skew = pricing::skew(config, inventory, max_position);
    let unit = Double::ratio(1, 1);
    mirror::lemma_scales();
    mirror::lemma_unit();
    mirror::lemma_bounds_add_up();
    pricing::fair_value_is_in_range(oracle, book);
    value::lemma_order(pricing::lowest(), fair);
    value::lemma_order(fair, pricing::highest());
    error::negated_value(fair);
    error::negated_value(half);
    error::negated_value(skew);
    mirror::lemma_sum(fair, half.negated());
    mirror::lemma_sum(fair.minus(half), skew.negated());
    mirror::lemma_sum(fair, half);
    mirror::lemma_sum(fair.plus(half), skew.negated());
    mirror::lemma_sum(unit, fair.negated());
    let other = unit.minus(fair);
    mirror::lemma_sum(other, half.negated());
    mirror::lemma_sum(other.minus(half), skew);
    mirror::lemma_sum(other, half);
    mirror::lemma_sum(other.plus(half), skew);
    lemma_rounded_price(
        fair.minus(half).minus(skew),
        fair.val() - half.val() - skew.val(),
        n,
    );
    lemma_rounded_price(
        fair.plus(half).minus(skew),
        fair.val() + half.val() - skew.val(),
        n,
    );
    lemma_rounded_price(
        other.minus(half).plus(skew),
        one() - fair.val() - half.val() + skew.val(),
        n,
    );
    lemma_rounded_price(
        other.plus(half).plus(skew),
        one() - fair.val() + half.val() + skew.val(),
        n,
    );
}

/// The middle of a book with prices on both sides is the middle of its best prices, but for the
/// rounding of a sum; with prices on one side, its best price; without prices, one half.
pub proof fn the_middle_is_in_the_middle(book: OrderBookView)
    ensures
        ({
            let zero = Double::ratio(0, 1);
            let has_bid = book.bids.len() > 0 && zero.lt(book.bids[0].price);
            let has_ask = book.asks.len() > 0 && zero.lt(book.asks[0].price);
            &&& !has_bid && !has_ask ==> book.mid() == Double::ratio(1, 2)
            &&& has_bid && !has_ask ==> book.mid() == book.bids[0].price
            &&& !has_bid && has_ask ==> book.mid() == book.asks[0].price
            &&& has_bid && has_ask ==> book.mid() == book.bids[0].price.plus(
                book.asks[0].price,
            ).over(Double::ratio(2, 1))
            &&& has_bid && has_ask && book.bids[0].price.is_finite()
                && book.asks[0].price.is_finite() && book.bids[0].price.val() <= one()
                && book.asks[0].price.val() <= one() ==> {
                &&& book.mid().is_finite()
                &&& -hair() <= 2 * book.mid().val() - book.bids[0].price.val()
                    - book.asks[0].price.val() <= hair()
            }
        }),
{
    laws::lemma_ratio(0, 1);
    value::lemma_finite_parts(Double::ratio(0, 1));
    let zero = Double::ratio(0, 1);
    if book.bids.len() > 0 && book.asks.len() > 0 && zero.lt(book.bids[0].price) && zero.lt(
        book.asks[0].price,
    ) && book.bids[0].price.is_finite() && book.asks[0].price.is_finite()
        && book.bids[0].price.val() <= one() && book.asks[0].price.val() <= one() {
        let a = book.bids[0].price;
        let b = book.asks[0].price;
        mirror::lemma_scales();
        value::lemma_order(zero, a);
        value::lemma_order(zero, b);
        mirror::lemma_sum(a, b);
        let s = a.plus(b);
        lemma_halved(s);
    }
}

/// Half of a number, but for rounding.
proof fn lemma_halved(s: Double)
    requires
        s.is_finite(),
        -3 * one() <= s.val() <= 3 * one(),
    ensures
        s.over(Double::ratio(2, 1)).is_finite(),
        -hair() <= 16 * (2 * s.over(Double::ratio(2, 1)).val() - s.val()) <= hair(),
{
    mirror::lemma_scales();
    let two = Double::ratio(2, 1);
    let u = one();
    let h = hair();
    crate::double::integers::whole_numbers_are_exact(2);
    lemma_pow2_pos(1074);
    assert(two.val() == 2 * u);
    let v = s.val();
    let size = if v < 0 {
        -v
    } else {
        v
    };
    assert(s.units() * pow2(1074) <= two.units() * pow2(2000)) by (nonlinear_arith)
        requires
            s.units() <= 3 * u,
            u == pow2(1074),
            two.units() == 2 * u,
            u <= pow2(2000),
            0x2_0000_0000_0000 * h <= pow2(2000),
            u == 0x10_0000_0000 * h,
            h > 0,
    ;
    error::over_is_near(s, two);
    let c = s.over(two).val();
    let sized = size * u;
    assert(c * two.val() == (2 * c) * u && v * pow2(1074) == v * u) by (nonlinear_arith)
        requires
            two.val() == 2 * u,
            u == pow2(1074),
    ;
    assert(sized == (if v * u < 0 {
        -(v * u)
    } else {
        v * u
    })) by (nonlinear_arith)
        requires
            sized == size * u,
            u > 0,
            size == v || size == -v,
            size >= 0,
    ;
    error::near_in_figures((2 * c) * u, v * u, 2 * u, sized);
    let d = 2 * c - v;
    assert((2 * c) * u - v * u == d * u) by (nonlinear_arith)
        requires
            d == 2 * c - v,
    ;
    assert(-h <= 16 * d <= h) by (nonlinear_arith)
        requires
            0x20_0000_0000_0000 * (d * u) <= size * u + 0x10_0000_0000_0000 * (2 * u),
            0x20_0000_0000_0000 * (-(d * u)) <= size * u + 0x10_0000_0000_0000 * (2 * u),
            size <= 3 * (0x10_0000_0000 * h),
            h > 0x1_0000_0000,
            u > 0,
    ;
}

/// A ten-thousandth of a number, but for rounding.
proof fn lemma_ten_thousandth(p: Double, size: int)
    requires
        p.is_finite(),
        size == p.units(),
        size <= 0x10_0000_0000 * one(),
    ensures
        ({
            let x = p.over(Double::ratio(10_000, 1));
            &&& x.is_finite()
            &&& 0x20_0000_0000_0000 * (10_000 * x.val() - p.val()) <= size + 0x10_0000_0000_0000
                * 10_000
            &&& 0x20_0000_0000_0000 * (p.val() - 10_000 * x.val()) <= size + 0x10_0000_0000_0000
                * 10_000
        }),
{
    mirror::lemma_scales();
    let whole = Double::ratio(10_000, 1);
    let u = one();
    let h = hair();
    crate::double::integers::whole_numbers_are_exact(10_000);
    lemma_pow2_pos(1074);
    lemma2_to64();
    lemma2_to64_rest();
    lemma_pow2_adds(36, 1074);
    lemma_pow2_strictly_increases(1110, 2000);
    let v = p.val();
    assert(p.units() * pow2(1074) <= whole.units() * pow2(2000)) by (nonlinear_arith)
        requires
            p.units() <= 0x10_0000_0000 * u,
            u == pow2(1074),
            whole.units() == 10_000 * u,
            0x10_0000_0000 * u <= pow2(2000),
            u > 0,
    ;
    error::over_is_near(p, whole);
    let x = p.over(whole).val();
    let sized = size * u;
    assert(x * whole.val() == (10_000 * x) * u && v * pow2(1074) == v * u) by (nonlinear_arith)
        requires
            whole.val() == 10_000 * u,
            u == pow2(1074),
    ;
    assert(sized == (if v * u < 0 {
        -(v * u)
    } else {
        v * u
    })) by (nonlinear_arith)
        requires
            sized == size * u,
            u > 0,
            size == v || size == -v,
            size >= 0,
    ;
    error::near_in_figures((10_000 * x) * u, v * u, 10_000 * u, sized);
    let d = 10_000 * x - v;
    assert((10_000 * x) * u - v * u == d * u) by (nonlinear_arith)
        requires
            d == 10_000 * x - v,
    ;
    assert(0x20_0000_0000_0000 * d <= size + 0x10_0000_0000_0000 * 10_000 && 0x20_0000_0000_0000
        * (-d) <= size + 0x10_0000_0000_0000 * 10_000) by (nonlinear_arith)
        requires
            0x20_0000_0000_0000 * (d * u) <= size * u + 0x10_0000_0000_0000 * (10_000 * u),
            0x20_0000_0000_0000 * (-(d * u)) <= size * u + 0x10_0000_0000_0000 * (10_000 * u),
            u > 0,
    ;
}

/// The fair value is the middle of the book, moved by half of what Binance did in the last
/// second: by half a cent for every hundred basis points. It is held between a cent and 99 cents.
pub proof fn fair_value_is_the_moved_middle(oracle: OracleSnapshot, book: OrderBookView)
    requires
        book.mid().is_finite(),
        0 <= book.mid().val() <= one(),
        oracle.binance_delta_1s.delta_bps.is_finite(),
        oracle.binance_delta_1s.delta_bps.units() <= 0x10_0000 * one(),
    ensures
        ({
            let fair = pricing::fair_value(oracle, book);
            let low = Double::ratio(1, 100).val();
            let high = Double::ratio(99, 100).val();
            let moved = 20_000 * book.mid().val() + oracle.binance_delta_1s.delta_bps.val();
            &&& fair.is_finite()
            &&& low <= fair.val() <= high
            &&& 20_000 * fair.val() <= moved + 20_000 * hair() || fair.val() == low
            &&& 20_000 * fair.val() >= moved - 20_000 * hair() || fair.val() == high
        }),
{
    mirror::lemma_scales();
    mirror::lemma_bounds_add_up();
    lemma2_to64();
    let d = oracle.binance_delta_1s.delta_bps;
    let mid = book.mid();
    let u = one();
    let h = hair();
    lemma_ten_thousandth(d, d.units() as int);
    let a = d.over(Double::ratio(10_000, 1));
    laws::lemma_binary_fraction(1, 2);
    let half = Double::ratio(1, 2);
    lemma_pow2_adds(1, 1073);
    lemma_pow2_pos(1074);
    assert(2 * half.val() == u);
    let size = a.units() as int;
    assert(size <= 0x2000 * u);
    lemma_half_of(a);
    let b = a.times(half);
    mirror::lemma_sum(mid, b);
    let c = mid.plus(b);
    value::lemma_order(c, Double::ratio(1, 100));
    value::lemma_order(Double::ratio(99, 100), c);
}

/// Half of a number by multiplication, but for rounding.
proof fn lemma_half_of(a: Double)
    requires
        a.is_finite(),
        a.units() <= 0x2000 * one(),
    ensures
        a.times(Double::ratio(1, 2)).is_finite(),
        -hair() <= 8 * (2 * a.times(Double::ratio(1, 2)).val() - a.val()) <= hair(),
{
    mirror::lemma_scales();
    lemma2_to64();
    laws::lemma_binary_fraction(1, 2);
    lemma_pow2_adds(1, 1073);
    lemma_pow2_pos(1074);
    let half = Double::ratio(1, 2);
    let u = one();
    let h = hair();
    let v = a.val();
    let f = half.val();
    assert(2 * f == u);
    assert(a.units() * half.units() <= pow2(1074) * pow2(2000)) by (nonlinear_arith)
        requires
            a.units() <= 0x2000 * u,
            half.units() <= u,
            u == pow2(1074),
            0x2_0000_0000_0000 * h <= pow2(2000),
            u == 0x10_0000_0000 * h,
            h > 0,
            half.units() >= 0,
    ;
    error::times_is_near(a, half);
    let b = a.times(half).val();
    let w = v * f;
    let size = if w < 0 {
        -w
    } else {
        w
    };
    error::near_in_figures(b * u, w, u, size);
    let d = 2 * b - v;
    assert(2 * (b * u - w) == d * u) by (nonlinear_arith)
        requires
            w == v * f,
            2 * f == u,
            d == 2 * b - v,
    ;
    assert(size <= 0x1000 * (u * u)) by (nonlinear_arith)
        requires
            w == v * f,
            2 * f == u,
            -0x2000 * u <= v <= 0x2000 * u,
            size == w || size == -w,
            u > 0,
    ;
    assert(u * u == 0x10_0000_0000 * (h * u)) by (nonlinear_arith)
        requires
            u == 0x10_0000_0000 * h,
    ;
    assert(0x1_0000_0000 * u <= h * u) by (nonlinear_arith)
        requires
            h > 0x1_0000_0000,
            u > 0,
    ;
    assert(-(h * u) <= 8 * (d * u) <= h * u);
    assert(-h <= 8 * d <= h) by (nonlinear_arith)
        requires
            -(h * u) <= 8 * (d * u) <= h * u,
            u > 0,
    ;
}

/// Half of the spread is the configured minimum, or a ten-thousandth of the volatility coefficient
/// times the basis points that Binance moved in three seconds, whichever is more; the direction
/// of the move does not matter.
pub proof fn spread_is_minimum_or_volatility(config: StrategyConfig, oracle: OracleSnapshot)
    requires
        config.min_half_spread.is_finite(),
        config.volatility_coefficient.is_finite(),
        config.volatility_coefficient.units() <= 0x400 * one(),
        oracle.binance_delta_3s.delta_bps.is_finite(),
        oracle.binance_delta_3s.delta_bps.units() <= 0x10_0000 * one(),
    ensures
        ({
            let half = pricing::half_spread(config, oracle);
            let wild = config.volatility_coefficient.val()
                * oracle.binance_delta_3s.delta_bps.units();
            let slack = 40_000 * (hair() * one());
            &&& half.is_finite()
            &&& half.val() >= config.min_half_spread.val()
            &&& 10_000 * (half.val() * one()) >= wild - slack
            &&& half == config.min_half_spread || 10_000 * (half.val() * one()) <= wild + slack
        }),
{
    mirror::lemma_scales();
    lemma2_to64();
    lemma2_to64_rest();
    lemma_pow2_pos(1074);
    lemma_pow2_adds(30, 1074);
    lemma_pow2_strictly_increases(1104, 2000);
    let c = config.volatility_coefficient;
    let v = oracle.binance_delta_3s.delta_bps.abs();
    let u = one();
    let h = hair();
    laws::lemma_signed(false, oracle.binance_delta_3s.delta_bps.mag());
    assert(v.units() == oracle.binance_delta_3s.delta_bps.units());
    assert(v.val() == v.units());
    let wild = c.val() * v.val();
    let size = if wild < 0 {
        -wild
    } else {
        wild
    };
    assert(size <= 0x4000_0000 * (u * u)) by (nonlinear_arith)
        requires
            wild == c.val() * v.val(),
            -0x400 * u <= c.val() <= 0x400 * u,
            0 <= v.val() <= 0x10_0000 * u,
            size == wild || size == -wild,
            u > 0,
    ;
    assert(c.units() * v.units() <= pow2(1074) * pow2(2000)) by (nonlinear_arith)
        requires
            c.units() <= 0x400 * u,
            v.units() <= 0x10_0000 * u,
            u == pow2(1074),
            0x2_0000_0000_0000 * h <= pow2(2000),
            u == 0x10_0000_0000 * h,
            h > 0,
            v.units() >= 0,
            0x4000_0000 * u <= pow2(2000),
    ;
    error::times_is_near(c, v);
    let p = c.times(v);
    error::near_in_figures(p.val() * u, wild, u, size);
    let pu = p.val() * u;
    assert(u * u == 0x10_0000_0000 * (h * u)) by (nonlinear_arith)
        requires
            u == 0x10_0000_0000 * h,
    ;
    assert(u <= h * u) by (nonlinear_arith)
        requires
            h >= 1,
            u > 0,
    ;
    let ps = p.units() as int;
    lemma_not_twice(pu, wild, size, u);
    assert(ps * u <= 0x8000_0000 * (u * u) + u) by (nonlinear_arith)
        requires
            -2 * size - u <= pu <= 2 * size + u,
            pu == p.val() * u,
            size <= 0x4000_0000 * (u * u),
            ps == p.val() || ps == -p.val(),
    ;
    assert(ps <= 0x8000_0000 * u + 1) by (nonlinear_arith)
        requires
            ps * u <= 0x8000_0000 * (u * u) + u,
            u > 0,
    ;
    lemma_ten_thousandth(p, ps);
    let x = p.over(Double::ratio(10_000, 1));
    let xv = x.val();
    let half = pricing::half_spread(config, oracle);
    value::lemma_order(config.min_half_spread, x);
    assert(0x20_0000_0000_0000 * ((10_000 * xv - p.val()) * u) <= (ps + 0x10_0000_0000_0000
        * 10_000) * u && 0x20_0000_0000_0000 * ((p.val() - 10_000 * xv) * u) <= (ps
        + 0x10_0000_0000_0000 * 10_000) * u) by (nonlinear_arith)
        requires
            0x20_0000_0000_0000 * (10_000 * xv - p.val()) <= ps + 0x10_0000_0000_0000 * 10_000,
            0x20_0000_0000_0000 * (p.val() - 10_000 * xv) <= ps + 0x10_0000_0000_0000 * 10_000,
            u > 0,
    ;
    let xu = xv * u;
    assert((10_000 * xv - p.val()) * u == 10_000 * xu - pu && (p.val() - 10_000 * xv) * u == pu
        - 10_000 * xu) by (nonlinear_arith)
        requires
            xu == xv * u,
            pu == p.val() * u,
    ;
    assert((ps + 0x10_0000_0000_0000 * 10_000) * u <= 0x8000_0000 * (u * u) + u
        + 0x10_0000_0000_0000 * 10_000 * u) by (nonlinear_arith)
        requires
            ps <= 0x8000_0000 * u + 1,
            u > 0,
    ;
    assert(0x1_0000_0000 * u <= h * u) by (nonlinear_arith)
        requires
            h > 0x1_0000_0000,
            u > 0,
    ;
    lemma_slack(xu, pu, wild, size, u, h * u);
    if half == config.min_half_spread {
        assert(config.min_half_spread.val() >= xv || x == config.min_half_spread);
        assert(half.val() * u >= xu) by (nonlinear_arith)
            requires
                half.val() >= xv,
                xu == xv * u,
                u > 0,
        ;
    }
}

proof fn lemma_not_twice(pu: int, wild: int, size: int, u: int)
    requires
        size == wild || size == -wild,
        size >= 0,
        u > 0,
        0x20_0000_0000_0000 * (pu - wild) <= size + 0x10_0000_0000_0000 * u,
        0x20_0000_0000_0000 * (wild - pu) <= size + 0x10_0000_0000_0000 * u,
    ensures
        -2 * size - u <= pu <= 2 * size + u,
{
}

proof fn lemma_slack(xu: int, pu: int, wild: int, size: int, u: int, hu: int)
    requires
        size <= 0x4000_0000 * (0x10_0000_0000 * hu),
        0x1_0000_0000 * u <= hu,
        u > 0,
        0x20_0000_0000_0000 * (pu - wild) <= size + 0x10_0000_0000_0000 * u,
        0x20_0000_0000_0000 * (wild - pu) <= size + 0x10_0000_0000_0000 * u,
        0x20_0000_0000_0000 * (10_000 * xu - pu) <= 0x8000_0000 * (0x10_0000_0000 * hu) + u
            + 0x10_0000_0000_0000 * 10_000 * u,
        0x20_0000_0000_0000 * (pu - 10_000 * xu) <= 0x8000_0000 * (0x10_0000_0000 * hu) + u
            + 0x10_0000_0000_0000 * 10_000 * u,
    ensures
        wild - 40_000 * hu <= 10_000 * xu <= wild + 40_000 * hu,
{
    let a = pu - wild;
    let b = 10_000 * xu - pu;
    assert(-10_000 * hu <= a <= 10_000 * hu) by (nonlinear_arith)
        requires
            0x20_0000_0000_0000 * a <= size + 0x10_0000_0000_0000 * u,
            0x20_0000_0000_0000 * (-a) <= size + 0x10_0000_0000_0000 * u,
            size <= 0x4000_0000 * (0x10_0000_0000 * hu),
            0x1_0000_0000 * u <= hu,
            u > 0,
    ;
    assert(-20_000 * hu <= b <= 20_000 * hu) by (nonlinear_arith)
        requires
            0x20_0000_0000_0000 * b <= 0x8000_0000 * (0x10_0000_0000 * hu) + u
                + 0x10_0000_0000_0000 * 10_000 * u,
            0x20_0000_0000_0000 * (-b) <= 0x8000_0000 * (0x10_0000_0000 * hu) + u
                + 0x10_0000_0000_0000 * 10_000 * u,
            0x1_0000_0000 * u <= hu,
            u > 0,
    ;
}

} // verus!

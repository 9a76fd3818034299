//! Bid and ask quotes for two-sided market making.

use vstd::prelude::*;

use crate::config::StrategyConfig;
use crate::double::rounding::INFINITE;
use crate::double::{integers, laws, order, Double};
use crate::feeds::types;
use crate::feeds::types::{OracleSnapshot, OrderBook, OrderBookView};

verus! {

/// Quotes for both tokens of a market.
#[derive(Clone, Copy, Debug)]
pub struct QuoteSet {
    pub yes_bid: Double,
    pub yes_ask: Double,
    pub no_bid: Double,
    pub no_ask: Double,
    pub yes_bid_size: Double,
    pub yes_ask_size: Double,
    pub no_bid_size: Double,
    pub no_ask_size: Double,
}

/// Shares held of a market.
#[derive(Clone, Copy, Debug)]
pub struct MarketInventory {
    pub yes_shares: Double,
    pub no_shares: Double,
}

impl Default for MarketInventory {
    fn default() -> (r: Self)
        ensures
            r.yes_shares == Double::ratio(0, 1),
            r.no_shares == Double::ratio(0, 1),
    {
        MarketInventory { yes_shares: Double::ratio(0, 1), no_shares: Double::ratio(0, 1) }
    }
}

impl MarketInventory {
    pub open spec fn spec_net_yes(&self) -> Double {
        self.yes_shares.minus(self.no_shares)
    }

    /// What is held of YES beyond what is held of NO.
    #[verifier::when_used_as_spec(spec_net_yes)]
    pub fn net_yes(&self) -> (r: Double)
        ensures
            r == self.net_yes(),
    {
        self.yes_shares.minus(self.no_shares)
    }
}

/// The lowest price of a quote.
pub open spec fn spec_lowest() -> Double {
    Double::ratio(1, 100)
}

#[verifier::when_used_as_spec(spec_lowest)]
pub fn lowest() -> (r: Double)
    ensures
        r == lowest(),
{
    Double::ratio(1, 100)
}

/// The highest price of a quote.
pub open spec fn spec_highest() -> Double {
    Double::ratio(99, 100)
}

#[verifier::when_used_as_spec(spec_highest)]
pub fn highest() -> (r: Double)
    ensures
        r == highest(),
{
    Double::ratio(99, 100)
}

/// The bounds of a quote are in order.
pub proof fn lemma_bounds()
    ensures
        lowest().le(highest()),
{
    laws::lemma_ratio_order(1, 100, 99, 100);
}

pub open spec fn spec_quantize_down(price: Double, tick: Double) -> Double {
    if tick.le(Double::ratio(0, 1)) {
        price
    } else {
        price.over(tick).floor().times(tick)
    }
}

/// Rounds a price down to a whole number of ticks.
#[verifier::when_used_as_spec(spec_quantize_down)]
pub fn quantize_down(price: Double, tick: Double) -> (r: Double)
    ensures
        r == quantize_down(price, tick),
{
    if tick.le(Double::ratio(0, 1)) {
        return price;
    }
    price.over(tick).floor().times(tick)
}

pub open spec fn spec_quantize_up(price: Double, tick: Double) -> Double {
    if tick.le(Double::ratio(0, 1)) {
        price
    } else {
        price.over(tick).ceil().times(tick)
    }
}

/// Rounds a price up to a whole number of ticks.
#[verifier::when_used_as_spec(spec_quantize_up)]
pub fn quantize_up(price: Double, tick: Double) -> (r: Double)
    ensures
        r == quantize_up(price, tick),
{
    if tick.le(Double::ratio(0, 1)) {
        return price;
    }
    price.over(tick).ceil().times(tick)
}

/// The chance of YES: the middle of the book, moved by half of what Binance did in the last
/// second.
pub open spec fn fair_value(oracle: OracleSnapshot, book: OrderBookView) -> Double {
    book.mid().plus(
        oracle.binance_delta_1s.delta_bps.over(Double::ratio(10_000, 1)).times(
            Double::ratio(1, 2),
        ),
    ).clamp(lowest(), highest())
}

/// Half of the distance between bid and ask: it grows with volatility from a minimum.
pub open spec fn half_spread(config: StrategyConfig, oracle: OracleSnapshot) -> Double {
    config.min_half_spread.max(
        config.volatility_coefficient.times(oracle.binance_delta_3s.delta_bps.abs()).over(
            Double::ratio(10_000, 1),
        ),
    )
}

/// How far prices are moved to bring the inventory back.
pub open spec fn skew(
    config: StrategyConfig,
    inventory: MarketInventory,
    max_position: Double,
) -> Double {
    config.inventory_skew_factor.times(inventory.net_yes()).over(
        if types::positive(max_position) {
            max_position
        } else {
            Double::ratio(100, 1)
        },
    )
}

/// The quotes around a fair value.
pub open spec fn quotes_around(
    fair: Double,
    half: Double,
    skew: Double,
    tick: Double,
    size: Double,
) -> QuoteSet {
    let other = Double::ratio(1, 1).minus(fair);
    QuoteSet {
        yes_bid: quantize_down(fair.minus(half).minus(skew), tick).clamp(lowest(), highest()),
        yes_ask: quantize_up(fair.plus(half).minus(skew), tick).clamp(lowest(), highest()),
        no_bid: quantize_down(other.minus(half).plus(skew), tick).clamp(lowest(), highest()),
        no_ask: quantize_up(other.plus(half).plus(skew), tick).clamp(lowest(), highest()),
        yes_bid_size: size,
        yes_ask_size: size,
        no_bid_size: size,
        no_ask_size: size,
    }
}

/// The quotes of a market.
pub open spec fn quotes_for(
    config: StrategyConfig,
    oracle: OracleSnapshot,
    book: OrderBookView,
    inventory: MarketInventory,
    max_position: Double,
) -> QuoteSet {
    quotes_around(
        fair_value(oracle, book),
        half_spread(config, oracle),
        skew(config, inventory, max_position),
        book.tick_size,
        config.quote_size,
    )
}

/// Quote pricing model for two-sided market making.
pub struct QuotePricer {
    pub config: StrategyConfig,
    pub bayesian_weights: Option<Vec<Double>>,
}

impl QuotePricer {
    pub fn new(config: StrategyConfig, bayesian_weights: Option<Vec<Double>>) -> (r: Self)
        ensures
            r.config == config,
            r.bayesian_weights == bayesian_weights,
    {
        QuotePricer { config, bayesian_weights }
    }

    /// Computes the quotes for both tokens of a market.
    pub fn compute_quotes(
        &self,
        oracle: &OracleSnapshot,
        book: &OrderBook,
        secs_left: Double,
        inventory: &MarketInventory,
        max_position: Double,
    ) -> (r: QuoteSet)
        ensures
            r == quotes_for(self.config, *oracle, book@, *inventory, max_position),
    {
        proof {
            lemma_bounds();
        }
        let fair: Double = self.estimate_fair_value(oracle, book, secs_left);
        let vol: Double = oracle.binance_delta_3s.delta_bps.abs();
        let half: Double = self.config.min_half_spread.max(
            self.config.volatility_coefficient.times(vol).over(Double::ratio(10_000, 1)),
        );
        let max_pos: Double = if Double::ratio(0, 1).lt(max_position) {
            max_position
        } else {
            Double::ratio(100, 1)
        };
        let skew: Double = self.config.inventory_skew_factor.times(inventory.net_yes()).over(
            max_pos,
        );
        let other: Double = Double::ratio(1, 1).minus(fair);
        let tick: Double = book.tick_size;
        let yes_bid: Double = quantize_down(fair.minus(half).minus(skew), tick);
        let yes_ask: Double = quantize_up(fair.plus(half).minus(skew), tick);
        let no_bid: Double = quantize_down(other.minus(half).plus(skew), tick);
        let no_ask: Double = quantize_up(other.plus(half).plus(skew), tick);
        let size: Double = self.config.quote_size;
        QuoteSet {
            yes_bid: yes_bid.clamp(lowest(), highest()),
            yes_ask: yes_ask.clamp(lowest(), highest()),
            no_bid: no_bid.clamp(lowest(), highest()),
            no_ask: no_ask.clamp(lowest(), highest()),
            yes_bid_size: size,
            yes_ask_size: size,
            no_bid_size: size,
            no_ask_size: size,
        }
    }

    /// Estimates the chance of YES.
    pub fn estimate_fair_value(
        &self,
        oracle: &OracleSnapshot,
        book: &OrderBook,
        _secs_left: Double,
    ) -> (r: Double)
        ensures
            r == fair_value(*oracle, book@),
    {
        proof {
            lemma_bounds();
        }
        let adjustment: Double = oracle.binance_delta_1s.delta_bps.over(
            Double::ratio(10_000, 1),
        ).times(Double::ratio(1, 2));
        book.mid().plus(adjustment).clamp(lowest(), highest())
    }
}

/// A quote that is a number lies between a cent and 99 cents.
pub proof fn quotes_are_in_range(
    fair: Double,
    half: Double,
    skew: Double,
    tick: Double,
    size: Double,
)
    ensures
        ({
            let q = quotes_around(fair, half, skew, tick, size);
            &&& !q.yes_bid.is_nan() ==> lowest().le(q.yes_bid) && q.yes_bid.le(highest())
            &&& !q.yes_ask.is_nan() ==> lowest().le(q.yes_ask) && q.yes_ask.le(highest())
            &&& !q.no_bid.is_nan() ==> lowest().le(q.no_bid) && q.no_bid.le(highest())
            &&& !q.no_ask.is_nan() ==> lowest().le(q.no_ask) && q.no_ask.le(highest())
        }),
{
    lemma_bounds();
}

/// Rounding two prices outward to ticks, and holding them in bounds, keeps their order.
proof fn lemma_outward(low: Double, high: Double, tick: Double)
    requires
        !low.is_nan() && !high.is_nan() ==> low.le(high),
        !quantize_down(low, tick).is_nan(),
        !quantize_up(high, tick).is_nan(),
    ensures
        quantize_down(low, tick).clamp(lowest(), highest()).le(
            quantize_up(high, tick).clamp(lowest(), highest()),
        ),
{
    lemma_bounds();
    laws::lemma_ratio(0, 1);
    if !tick.le(Double::ratio(0, 1)) {
        assert(!low.is_nan() && !high.is_nan() && !tick.is_nan() && !low.over(tick).is_nan()
            && !high.over(tick).is_nan()) by {
            reveal(Double::spec_over);
            reveal(Double::spec_floor);
            reveal(Double::spec_ceil);
            reveal(Double::spec_times);
        }
        let a = low.over(tick);
        let b = high.over(tick);
        order::over_keeps_order(low, high, tick);
        order::floor_and_ceil_enclose(a);
        order::floor_and_ceil_enclose(b);
        order::times_keeps_order(a.floor(), b.ceil(), tick);
    }
}

/// Quotes do not cross: a bid is never above the ask of the same token.
pub proof fn quotes_do_not_cross(
    fair: Double,
    half: Double,
    skew: Double,
    tick: Double,
    size: Double,
)
    requires
        Double::ratio(0, 1).le(half),
    ensures
        ({
            let q = quotes_around(fair, half, skew, tick, size);
            &&& !q.yes_bid.is_nan() && !q.yes_ask.is_nan() ==> q.yes_bid.le(q.yes_ask)
            &&& !q.no_bid.is_nan() && !q.no_ask.is_nan() ==> q.no_bid.le(q.no_ask)
        }),
{
    let q = quotes_around(fair, half, skew, tick, size);
    lemma_bounds();
    if !q.yes_bid.is_nan() && !q.yes_ask.is_nan() {
        lemma_apart(fair, half, skew.negated());
        lemma_outward(fair.minus(half).minus(skew), fair.plus(half).minus(skew), tick);
    }
    if !q.no_bid.is_nan() && !q.no_ask.is_nan() {
        let other = Double::ratio(1, 1).minus(fair);
        lemma_apart(other, half, skew);
        lemma_outward(other.minus(half).plus(skew), other.plus(half).plus(skew), tick);
    }
}

/// Going down and up by the same amount from one number, and then moving both, keeps them in
/// order.
proof fn lemma_apart(x: Double, half: Double, shift: Double)
    requires
        Double::ratio(0, 1).le(half),
    ensures
        !x.minus(half).plus(shift).is_nan() && !x.plus(half).plus(shift).is_nan()
            ==> x.minus(half).plus(shift).le(x.plus(half).plus(shift)),
{
    if !x.minus(half).plus(shift).is_nan() && !x.plus(half).plus(shift).is_nan() {
        laws::lemma_ratio(0, 1);
        laws::lemma_signed(!half.is_negative(), half.mag());
        assert(!x.minus(half).is_nan() && !x.plus(half).is_nan()) by {
            reveal(Double::spec_plus);
        }
        order::plus_keeps_order_right(half.negated(), half, x);
        order::plus_keeps_order(x.minus(half), x.plus(half), shift);
    }
}

/// The spread is never below the configured minimum.
pub proof fn spread_has_a_minimum(config: StrategyConfig, oracle: OracleSnapshot)
    requires
        !config.min_half_spread.is_nan(),
    ensures
        config.min_half_spread.le(half_spread(config, oracle)),
{
}

/// The fair value, where it is a number, lies between a cent and 99 cents.
pub proof fn fair_value_is_in_range(oracle: OracleSnapshot, book: OrderBookView)
    ensures
        !fair_value(oracle, book).is_nan() ==> lowest().le(fair_value(oracle, book))
            && fair_value(oracle, book).le(highest()),
{
    lemma_bounds();
}

/// What is divided or multiplied to something that is a number was a number.
proof fn lemma_scaled_number(x: Double, y: Double)
    ensures
        !x.over(y).is_nan() ==> !x.is_nan(),
        !x.times(y).is_nan() ==> !x.is_nan() && !y.is_nan(),
        !x.plus(y).is_nan() ==> !x.is_nan() && !y.is_nan(),
        !x.floor().is_nan() ==> !x.is_nan(),
        !x.ceil().is_nan() ==> !x.is_nan(),
{
    reveal(Double::spec_over);
    reveal(Double::spec_times);
    reveal(Double::spec_plus);
    reveal(Double::spec_floor);
    reveal(Double::spec_ceil);
}

/// A whole number other than zero is above zero.
proof fn lemma_above_zero(n: u32)
    requires
        n > 0,
    ensures
        Double::ratio(n, 1).mag() > 0,
        !Double::ratio(n, 1).is_negative(),
{
    integers::whole_numbers_are_ordered(0, n);
    laws::lemma_ratio(0, 1);
    laws::lemma_ratio(n, 1);
}

/// When Binance goes up, the fair value does not go down.
pub proof fn fair_value_follows_the_oracle(
    before: OracleSnapshot,
    after: OracleSnapshot,
    book: OrderBookView,
)
    requires
        before.binance_delta_1s.delta_bps.le(after.binance_delta_1s.delta_bps),
    ensures
        !fair_value(before, book).is_nan() && !fair_value(after, book).is_nan() ==> fair_value(
            before,
            book,
        ).le(fair_value(after, book)),
{
    lemma_bounds();
    if !fair_value(before, book).is_nan() && !fair_value(after, book).is_nan() {
        let whole = Double::ratio(10_000, 1);
        let half = Double::ratio(1, 2);
        let a = before.binance_delta_1s.delta_bps;
        let b = after.binance_delta_1s.delta_bps;
        lemma_above_zero(10_000);
        laws::lemma_ratio(1, 2);
        lemma_scaled_number(book.mid(), a.over(whole).times(half));
        lemma_scaled_number(book.mid(), b.over(whole).times(half));
        lemma_scaled_number(a.over(whole), half);
        lemma_scaled_number(b.over(whole), half);
        order::over_keeps_order(a, b, whole);
        order::times_keeps_order(a.over(whole), b.over(whole), half);
        order::plus_keeps_order_right(
            a.over(whole).times(half),
            b.over(whole).times(half),
            book.mid(),
        );
    }
}

/// The more the price moves, in whichever direction, the wider the spread.
pub proof fn spread_widens_with_volatility(
    config: StrategyConfig,
    calm: OracleSnapshot,
    rough: OracleSnapshot,
)
    requires
        calm.binance_delta_3s.delta_bps.abs().le(rough.binance_delta_3s.delta_bps.abs()),
        !config.min_half_spread.is_nan(),
        !config.volatility_coefficient.is_negative(),
        !config.volatility_coefficient.times(rough.binance_delta_3s.delta_bps.abs()).is_nan(),
    ensures
        half_spread(config, calm).le(half_spread(config, rough)),
{
    let k = config.volatility_coefficient;
    let a = calm.binance_delta_3s.delta_bps.abs();
    let b = rough.binance_delta_3s.delta_bps.abs();
    let whole = Double::ratio(10_000, 1);
    lemma_above_zero(10_000);
    order::times_commutes(k, a);
    order::times_commutes(k, b);
    lemma_scaled_number(k, b);
    if !k.times(a).over(whole).is_nan() {
        lemma_scaled_number(k.times(a), whole);
        order::times_keeps_order(a, b, k);
        assert(!k.times(b).over(whole).is_nan()) by {
            reveal(Double::spec_over);
            laws::lemma_ratio(10_000, 1);
            laws::lemma_signed(k.times(b).is_negative(), INFINITE as int);
            if k.times(b).is_finite() {
                order::lemma_over_key(k.times(b), whole);
            }
        }
        order::over_keeps_order(k.times(a), k.times(b), whole);
    }
}

/// The more is held of YES, the greater the skew.
pub proof fn skew_grows_with_inventory(
    config: StrategyConfig,
    less: MarketInventory,
    more: MarketInventory,
    max_position: Double,
)
    requires
        less.net_yes().le(more.net_yes()),
        !config.inventory_skew_factor.is_negative(),
    ensures
        !skew(config, less, max_position).is_nan() && !skew(config, more, max_position).is_nan()
            ==> skew(config, less, max_position).le(skew(config, more, max_position)),
{
    if !skew(config, less, max_position).is_nan() && !skew(config, more, max_position).is_nan() {
        let k = config.inventory_skew_factor;
        let a = less.net_yes();
        let b = more.net_yes();
        let most = if types::positive(max_position) {
            max_position
        } else {
            Double::ratio(100, 1)
        };
        laws::lemma_ratio(0, 1);
        lemma_above_zero(100);
        order::times_commutes(k, a);
        order::times_commutes(k, b);
        lemma_scaled_number(k.times(a), most);
        lemma_scaled_number(k.times(b), most);
        order::times_keeps_order(a, b, k);
        order::over_keeps_order(k.times(a), k.times(b), most);
    }
}

/// Rounding to ticks in one direction, and holding in bounds, keeps the order.
proof fn lemma_quantized(low: Double, high: Double, tick: Double)
    requires
        !low.is_nan() && !high.is_nan() ==> low.le(high),
    ensures
        !quantize_down(low, tick).is_nan() && !quantize_down(high, tick).is_nan() ==> quantize_down(
            low,
            tick,
        ).clamp(lowest(), highest()).le(
            quantize_down(high, tick).clamp(lowest(), highest()),
        ),
        !quantize_up(low, tick).is_nan() && !quantize_up(high, tick).is_nan() ==> quantize_up(
            low,
            tick,
        ).clamp(lowest(), highest()).le(quantize_up(high, tick).clamp(lowest(), highest())),
{
    lemma_bounds();
    laws::lemma_ratio(0, 1);
    if !tick.le(Double::ratio(0, 1)) {
        let a = low.over(tick);
        let b = high.over(tick);
        lemma_scaled_number(a.floor(), tick);
        lemma_scaled_number(b.floor(), tick);
        lemma_scaled_number(a.ceil(), tick);
        lemma_scaled_number(b.ceil(), tick);
        lemma_scaled_number(a, tick);
        lemma_scaled_number(b, tick);
        lemma_scaled_number(low, tick);
        lemma_scaled_number(high, tick);
        if !a.is_nan() && !b.is_nan() && !tick.is_nan() {
            order::over_keeps_order(low, high, tick);
            order::rounding_to_wholes_keeps_order(a, b);
            if !a.floor().times(tick).is_nan() && !b.floor().times(tick).is_nan() {
                order::times_keeps_order(a.floor(), b.floor(), tick);
            }
            if !a.ceil().times(tick).is_nan() && !b.ceil().times(tick).is_nan() {
                order::times_keeps_order(a.ceil(), b.ceil(), tick);
            }
        }
    }
}

/// Prices lean against the inventory: with a greater skew no quote for YES is higher and no
/// quote for NO is lower.
pub proof fn skew_leans_against_inventory(
    fair: Double,
    half: Double,
    less: Double,
    more: Double,
    tick: Double,
    size: Double,
)
    requires
        less.le(more),
    ensures
        ({
            let a = quotes_around(fair, half, less, tick, size);
            let b = quotes_around(fair, half, more, tick, size);
            &&& !a.yes_bid.is_nan() && !b.yes_bid.is_nan() ==> b.yes_bid.le(a.yes_bid)
            &&& !a.yes_ask.is_nan() && !b.yes_ask.is_nan() ==> b.yes_ask.le(a.yes_ask)
            &&& !a.no_bid.is_nan() && !b.no_bid.is_nan() ==> a.no_bid.le(b.no_bid)
            &&& !a.no_ask.is_nan() && !b.no_ask.is_nan() ==> a.no_ask.le(b.no_ask)
        }),
{
    let other = Double::ratio(1, 1).minus(fair);
    lemma_bounds();
    order::negation_turns_order(less, more);
    lemma_shifted(fair.minus(half), more.negated(), less.negated());
    lemma_shifted(fair.plus(half), more.negated(), less.negated());
    lemma_shifted(other.minus(half), less, more);
    lemma_shifted(other.plus(half), less, more);
    lemma_quantized(fair.minus(half).minus(more), fair.minus(half).minus(less), tick);
    lemma_quantized(fair.plus(half).minus(more), fair.plus(half).minus(less), tick);
    lemma_quantized(other.minus(half).plus(less), other.minus(half).plus(more), tick);
    lemma_quantized(other.plus(half).plus(less), other.plus(half).plus(more), tick);
}

/// Moving a number by more does not put it lower.
proof fn lemma_shifted(x: Double, less: Double, more: Double)
    requires
        less.le(more),
    ensures
        !x.plus(less).is_nan() && !x.plus(more).is_nan() ==> x.plus(less).le(x.plus(more)),
{
    if !x.plus(less).is_nan() && !x.plus(more).is_nan() {
        order::plus_keeps_order_right(less, more, x);
    }
}

/// What is rounded to ticks and held in bounds is a number only where it was one before.
proof fn lemma_quote_number(price: Double, tick: Double)
    ensures
        !quantize_down(price, tick).clamp(lowest(), highest()).is_nan() ==> !price.is_nan(),
        !quantize_up(price, tick).clamp(lowest(), highest()).is_nan() ==> !price.is_nan(),
{
    if !tick.le(Double::ratio(0, 1)) {
        let q = price.over(tick);
        lemma_scaled_number(price, tick);
        lemma_scaled_number(q, tick);
        lemma_scaled_number(q.floor(), tick);
        lemma_scaled_number(q.ceil(), tick);
    }
}

/// The more is held of YES beyond what is held of NO, the lower are the quotes for YES and the
/// higher those for NO, as far as the rounding to ticks shows it: none moves the other way.
pub proof fn quotes_lean_against_inventory(
    config: StrategyConfig,
    oracle: OracleSnapshot,
    book: OrderBookView,
    less: MarketInventory,
    more: MarketInventory,
    max_position: Double,
)
    requires
        less.net_yes().le(more.net_yes()),
        !config.inventory_skew_factor.is_negative(),
    ensures
        ({
            let a = quotes_for(config, oracle, book, less, max_position);
            let b = quotes_for(config, oracle, book, more, max_position);
            &&& !a.yes_bid.is_nan() && !b.yes_bid.is_nan() ==> b.yes_bid.le(a.yes_bid)
            &&& !a.yes_ask.is_nan() && !b.yes_ask.is_nan() ==> b.yes_ask.le(a.yes_ask)
            &&& !a.no_bid.is_nan() && !b.no_bid.is_nan() ==> a.no_bid.le(b.no_bid)
            &&& !a.no_ask.is_nan() && !b.no_ask.is_nan() ==> a.no_ask.le(b.no_ask)
        }),
{
    let fair = fair_value(oracle, book);
    let half = half_spread(config, oracle);
    let low = skew(config, less, max_position);
    let high = skew(config, more, max_position);
    if low.is_nan() {
        lemma_no_quotes(fair, half, low, book.tick_size, config.quote_size);
    } else if high.is_nan() {
        lemma_no_quotes(fair, half, high, book.tick_size, config.quote_size);
    } else {
        skew_grows_with_inventory(config, less, more, max_position);
        skew_leans_against_inventory(fair, half, low, high, book.tick_size, config.quote_size);
    }
}

/// Without a skew there are no quotes.
proof fn lemma_no_quotes(fair: Double, half: Double, skew: Double, tick: Double, size: Double)
    requires
        skew.is_nan(),
    ensures
        ({
            let q = quotes_around(fair, half, skew, tick, size);
            q.yes_bid.is_nan() && q.yes_ask.is_nan() && q.no_bid.is_nan() && q.no_ask.is_nan()
        }),
{
    let other = Double::ratio(1, 1).minus(fair);
    assert(skew.negated().is_nan());
    lemma_scaled_number(fair.minus(half), skew.negated());
    lemma_scaled_number(fair.plus(half), skew.negated());
    lemma_scaled_number(other.minus(half), skew);
    lemma_scaled_number(other.plus(half), skew);
    lemma_quote_number(fair.minus(half).minus(skew), tick);
    lemma_quote_number(fair.plus(half).minus(skew), tick);
    lemma_quote_number(other.minus(half).plus(skew), tick);
    lemma_quote_number(other.plus(half).plus(skew), tick);
}

/// The quotes for NO mirror those for YES: they are what the quotes for YES would be at the
/// chance of NO and with the inventory turned round.
pub proof fn no_mirrors_yes(fair: Double, half: Double, skew: Double, tick: Double, size: Double)
    ensures
        ({
            let q = quotes_around(fair, half, skew, tick, size);
            let m = quotes_around(
                Double::ratio(1, 1).minus(fair),
                half,
                skew.negated(),
                tick,
                size,
            );
            &&& q.no_bid == m.yes_bid
            &&& q.no_ask == m.yes_ask
            &&& q.no_bid_size == m.yes_bid_size
            &&& q.no_ask_size == m.yes_ask_size
        }),
{
    assert(skew.negated().negated() == skew);
}

} // verus!

//! Endgame strategy: ten seconds before the close of a market the direction is mostly decided,
//! and a single maker order is posted on the winning side at 90 to 95 cents.

use vstd::prelude::*;

use crate::config::ArticleConfig;
use crate::double::Double;
use crate::feeds::types;
use crate::feeds::types::{OracleSnapshot, OrderBook, OrderBookView};

verus! {

/// An order of the endgame strategy.
#[derive(Debug)]
pub struct ArticleOrder {
    pub direction: String,
    pub price: Double,
    pub size: Double,
    pub conviction: Double,
}

/// What such an order says.
pub struct ArticleOrderView {
    pub direction: Seq<char>,
    pub price: Double,
    pub size: Double,
    pub conviction: Double,
}

impl View for ArticleOrder {
    type V = ArticleOrderView;

    open spec fn view(&self) -> ArticleOrderView {
        ArticleOrderView {
            direction: self.direction@,
            price: self.price,
            size: self.size,
            conviction: self.conviction,
        }
    }
}

impl Clone for ArticleOrder {
    fn clone(&self) -> (r: ArticleOrder)
        ensures
            r@ == self@,
    {
        ArticleOrder {
            direction: self.direction.clone(),
            price: self.price,
            size: self.size,
            conviction: self.conviction,
        }
    }
}

/// Whether both changes are numbers and have the same sign; zero has the sign it was given.
pub open spec fn agree(a: Double, b: Double) -> bool {
    !a.is_nan() && !b.is_nan() && a.is_negative() == b.is_negative()
}

/// Whether the time left is in the zone in which the strategy acts.
pub open spec fn in_zone(config: ArticleConfig, secs_left: Double) -> bool {
    &&& !config.trigger_seconds_before_close.lt(secs_left)
    &&& !secs_left.lt(config.min_seconds_before_close)
}

/// Whether both exchanges show a strong enough move in one direction over the last minute.
pub open spec fn has_direction(config: ArticleConfig, oracle: OracleSnapshot) -> bool {
    let bn = oracle.binance_delta_60s;
    let cb = oracle.coinbase_delta_60s;
    &&& bn.available && cb.available
    &&& agree(bn.delta_bps, cb.delta_bps)
    &&& !bn.delta_bps.abs().lt(config.min_bn_delta_60s_bps)
    &&& !cb.delta_bps.abs().lt(config.min_cb_delta_60s_bps)
}

/// Whether the move is upward.
pub open spec fn is_up(oracle: OracleSnapshot) -> bool {
    types::positive(oracle.binance_delta_60s.delta_bps)
}

/// The middle of the book, seen from the winning side.
pub open spec fn trending_mid(oracle: OracleSnapshot, book: OrderBookView) -> Double {
    if is_up(oracle) {
        book.mid()
    } else {
        Double::ratio(1, 1).minus(book.mid())
    }
}

/// The price to enter at: what the winning side asks, but no more than the cap and no less than
/// 90 cents.
pub open spec fn entry_price(
    config: ArticleConfig,
    oracle: OracleSnapshot,
    book: OrderBookView,
) -> Double {
    (if is_up(oracle) {
        types::top_price(book.asks)
    } else {
        Double::ratio(1, 1).minus(types::top_price(book.bids))
    }).min(config.entry_price_cap).max(Double::ratio(90, 100))
}

/// What the strategy decides.
pub open spec fn decision(
    config: ArticleConfig,
    oracle: OracleSnapshot,
    book: OrderBookView,
    secs_left: Double,
) -> Option<ArticleOrderView> {
    if config.enabled && in_zone(config, secs_left) && has_direction(config, oracle)
        && !trending_mid(oracle, book).lt(config.min_trending_mid) {
        Some(
            ArticleOrderView {
                direction: if is_up(oracle) {
                    "UP"@
                } else {
                    "DOWN"@
                },
                price: entry_price(config, oracle, book),
                size: config.article_size,
                conviction: trending_mid(oracle, book),
            },
        )
    } else {
        None
    }
}

/// Endgame strategy for five-minute markets.
pub struct ArticleStrategy {
    pub config: ArticleConfig,
}

impl ArticleStrategy {
    pub fn new(config: ArticleConfig) -> (r: Self)
        ensures
            r.config == config,
    {
        ArticleStrategy { config }
    }

    /// Decides whether to act, and how.
    pub fn evaluate(
        &self,
        oracle: &OracleSnapshot,
        book: &OrderBook,
        secs_left: Double,
    ) -> (r: Option<ArticleOrder>)
        ensures
            r is Some <==> decision(self.config, *oracle, book@, secs_left) is Some,
            r matches Some(order) ==> order@ == decision(
                self.config,
                *oracle,
                book@,
                secs_left,
            )->0,
    {
        if !self.config.enabled {
            return None;
        }
        if self.config.trigger_seconds_before_close.lt(secs_left) || secs_left.lt(
            self.config.min_seconds_before_close,
        ) {
            return None;
        }
        if !oracle.binance_delta_60s.available || !oracle.coinbase_delta_60s.available {
            return None;
        }
        let bn: Double = oracle.binance_delta_60s.delta_bps;
        let cb: Double = oracle.coinbase_delta_60s.delta_bps;
        if bn.is_nan() || cb.is_nan() || bn.is_negative() != cb.is_negative() {
            return None;
        }
        if bn.abs().lt(self.config.min_bn_delta_60s_bps) {
            return None;
        }
        if cb.abs().lt(self.config.min_cb_delta_60s_bps) {
            return None;
        }
        let up: bool = Double::ratio(0, 1).lt(bn);
        let one: Double = Double::ratio(1, 1);
        let mid: Double = book.mid();
        let trending: Double = if up { mid } else { one.minus(mid) };
        if trending.lt(self.config.min_trending_mid) {
            return None;
        }
        let asked: Double = if up {
            book.best_ask().min(self.config.entry_price_cap)
        } else {
            one.minus(book.best_bid()).min(self.config.entry_price_cap)
        };
        let direction: &str = if up { "UP" } else { "DOWN" };
        Some(
            ArticleOrder {
                direction: direction.to_string(),
                price: asked.max(Double::ratio(90, 100)),
                size: self.config.article_size,
                conviction: trending,
            },
        )
    }
}

/// The endgame never bids less than 90 cents, and never more than its cap where that is higher:
/// with the cap that is the default, 95 cents.
pub proof fn entry_price_is_bounded(
    config: ArticleConfig,
    oracle: OracleSnapshot,
    book: OrderBookView,
)
    requires
        Double::ratio(90, 100).le(config.entry_price_cap),
    ensures
        Double::ratio(90, 100).le(entry_price(config, oracle, book)),
        entry_price(config, oracle, book).le(config.entry_price_cap),
        config.entry_price_cap == Double::ratio(95, 100) ==> entry_price(config, oracle, book).le(
            Double::ratio(95, 100),
        ),
{
    crate::double::laws::lemma_ratio(90, 100);
}

/// An order is made only where the trend is confirmed: no order has a conviction below the
/// configured one, and its direction is that of both exchanges.
pub proof fn orders_follow_the_trend(
    config: ArticleConfig,
    oracle: OracleSnapshot,
    book: OrderBookView,
    secs_left: Double,
)
    ensures
        decision(config, oracle, book, secs_left) matches Some(order) ==> {
            &&& config.enabled
            &&& !order.conviction.lt(config.min_trending_mid)
            &&& order.size == config.article_size
            &&& order.direction == "UP"@ || order.direction == "DOWN"@
            &&& oracle.binance_delta_60s.delta_bps.is_negative()
                == oracle.coinbase_delta_60s.delta_bps.is_negative()
            &&& order.direction == "UP"@
                ==> !oracle.binance_delta_60s.delta_bps.is_negative()
                && !oracle.coinbase_delta_60s.delta_bps.is_negative()
        },
{
    reveal_strlit("UP");
    reveal_strlit("DOWN");
    crate::double::laws::lemma_ratio(0, 1);
    assert("UP"@.len() != "DOWN"@.len());
}

} // verus!

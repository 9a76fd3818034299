//! What the limits, the endgame and the life of a market come to, told by the numbers that go in
//! and the orders, events and states that come out.

use vstd::prelude::*;

use super::article;
use super::engine;
use super::engine::MarketState;
use super::pricing::MarketInventory;
use super::risk::RiskManager;
use crate::config::ArticleConfig;
use crate::double::{integers, laws, order, Double};
use crate::events::bus::BotEventView;
use crate::feeds::types::{BookLevel, OracleSnapshot, OrderBookView};

verus! {

/// Whether the limits, what is held and the order are numbers that are not infinite.
pub open spec fn has_numbers(risk: RiskManager, size: Double, inventory: MarketInventory) -> bool {
    &&& risk.config.max_order_size.is_finite()
    &&& risk.config.min_order_size.is_finite()
    &&& risk.config.max_yes_position.is_finite()
    &&& risk.config.max_no_position.is_finite()
    &&& risk.config.max_total_exposure_usd.is_finite()
    &&& risk.total_exposure.is_finite()
    &&& size.is_finite()
    &&& inventory.yes_shares.is_finite()
    &&& inventory.no_shares.is_finite()
}

/// An order that is permitted lies between the least and the greatest size; with it at half a
/// dollar a share the exposure stays within its limit; and a purchase keeps the shares of YES
/// within theirs.
pub proof fn permitted_orders_are_within_limits(
    risk: RiskManager,
    side: Seq<char>,
    size: Double,
    inventory: MarketInventory,
)
    requires
        has_numbers(risk, size, inventory),
        !inventory.yes_shares.plus(size).is_nan(),
        !risk.total_exposure.plus(size.times(Double::ratio(1, 2))).is_nan(),
    ensures
        risk.permits(side, size, inventory) ==> {
            &&& !risk.halted
            &&& risk.config.min_order_size.le(size)
            &&& size.le(risk.config.max_order_size)
            &&& risk.total_exposure.plus(size.times(Double::ratio(1, 2))).le(
                risk.config.max_total_exposure_usd,
            )
            &&& risk.active_market_count < risk.config.max_concurrent_markets
        },
        risk.permits("BUY"@, size, inventory) ==> inventory.yes_shares.plus(size).le(
            risk.config.max_yes_position,
        ),
{
}

/// An order that breaks no limit is permitted.
pub proof fn orders_within_limits_are_permitted(
    risk: RiskManager,
    side: Seq<char>,
    size: Double,
    inventory: MarketInventory,
)
    requires
        !risk.halted,
        risk.config.min_order_size.le(size),
        size.le(risk.config.max_order_size),
        risk.total_exposure.plus(size.times(Double::ratio(1, 2))).le(
            risk.config.max_total_exposure_usd,
        ),
        risk.active_market_count < risk.config.max_concurrent_markets,
        side != "BUY"@ || inventory.yes_shares.plus(size).le(risk.config.max_yes_position),
    ensures
        risk.permits(side, size, inventory),
{
}

/// A smaller order is permitted where a greater one is, unless it is too small.
pub proof fn smaller_orders_are_permitted(
    risk: RiskManager,
    side: Seq<char>,
    small: Double,
    great: Double,
    inventory: MarketInventory,
)
    requires
        has_numbers(risk, small, inventory),
        has_numbers(risk, great, inventory),
        small.le(great),
        risk.config.min_order_size.le(small),
        risk.permits(side, great, inventory),
    ensures
        risk.permits(side, small, inventory),
{
    laws::lemma_ratio(1, 2);
    laws::lemma_ratio(0, 1);
    let half = Double::ratio(1, 2);
    reveal(Double::spec_plus);
    reveal(Double::spec_times);
    order::lemma_plus_key(inventory.yes_shares, small);
    order::lemma_plus_key(inventory.yes_shares, great);
    order::plus_keeps_order_right(small, great, inventory.yes_shares);
    order::times_keeps_order(small, great, half);
    order::plus_keeps_order_right(small.times(half), great.times(half), risk.total_exposure);
}

/// The room that is left for an order: what a purchase would add to YES up to its limit, or a
/// sale to NO up to its own, and any amount for another side.
pub proof fn room_is_up_to_the_limit(risk: RiskManager, side: Seq<char>, inventory: MarketInventory)
    ensures
        risk.room("BUY"@, inventory) == risk.config.max_yes_position.minus(inventory.yes_shares),
        risk.room("SELL"@, inventory) == risk.config.max_no_position.minus(inventory.no_shares),
        side != "BUY"@ && side != "SELL"@ ==> risk.room(side, inventory)
            == risk.config.max_order_size,
{
    reveal_strlit("BUY");
    reveal_strlit("SELL");
    assert("BUY"@.len() != "SELL"@.len());
}

/// A gain or loss is added to that of the day. It halts trading where it takes the day below the
/// greatest loss, lifts no halt, and changes nothing else.
pub proof fn losses_add_up(risk: RiskManager, change: Double)
    ensures
        risk.after_pnl(change).daily_pnl == risk.daily_pnl.plus(change),
        risk.after_pnl(change).halted == (risk.halted || risk.daily_pnl.plus(change).lt(
            risk.config.max_daily_loss_usd.negated(),
        )),
        risk.after_pnl(change).config == risk.config,
        risk.after_pnl(change).total_exposure == risk.total_exposure,
        risk.after_pnl(change).active_market_count == risk.active_market_count,
{
}

/// The events of a gain or loss: the circuit breaker where trading was not halted and the day is
/// now below the greatest loss, an alert where it is below three quarters of the loss and not
/// below the loss, and else none.
pub proof fn losses_are_reported(risk: RiskManager, change: Double)
    ensures
        ({
            let pnl = risk.daily_pnl.plus(change);
            let most = risk.config.max_daily_loss_usd.negated();
            let events = risk.pnl_events(change);
            let breaks = !risk.halted && pnl.lt(most);
            let nears = pnl.lt(most.times(Double::ratio(3, 4))) && most.le(pnl);
            let alert = BotEventView::RiskAlert {
                message: "Daily PnL at "@ + pnl.over(most).times(
                    Double::ratio(100, 1),
                ).spec_fixed(1) + "% of limit"@,
                daily_pnl: pnl,
                exposure_usd: risk.total_exposure,
            };
            &&& breaks ==> events == seq![BotEventView::CircuitBreaker { daily_pnl: pnl }]
            &&& nears ==> events == seq![alert]
            &&& !breaks && !nears ==> events.len() == 0
        }),
{
}

/// A new day starts with no gain, no loss and no halt, and with the limits and what is held as
/// they were.
pub proof fn new_days_start_even(risk: RiskManager)
    ensures
        risk.renewed().daily_pnl.val() == 0,
        !risk.renewed().halted,
        risk.renewed().config == risk.config,
        risk.renewed().total_exposure == risk.total_exposure,
        risk.renewed().active_market_count == risk.active_market_count,
{
    integers::whole_numbers_are_exact(0);
}

/// Best price of one side of a book that has levels.
pub open spec fn best(levels: Seq<BookLevel>) -> Double {
    levels[0].price
}

/// Whether both exchanges went up, or both down, by enough within a minute.
pub open spec fn moved_together(config: ArticleConfig, oracle: OracleSnapshot, up: bool) -> bool {
    let first = oracle.binance_delta_60s;
    let second = oracle.coinbase_delta_60s;
    &&& first.available && !first.delta_bps.is_nan() && first.delta_bps.is_negative() != up
    &&& second.available && !second.delta_bps.is_nan() && second.delta_bps.is_negative() != up
    &&& first.delta_bps.mag() > 0
    &&& config.min_bn_delta_60s_bps.le(first.delta_bps.abs())
    &&& config.min_cb_delta_60s_bps.le(second.delta_bps.abs())
}

/// Whether the endgame is on and the time left is within its bounds.
pub open spec fn is_endgame(config: ArticleConfig, secs_left: Double) -> bool {
    &&& config.enabled
    &&& config.min_seconds_before_close.le(secs_left)
    &&& secs_left.le(config.trigger_seconds_before_close)
}

/// In the endgame, with both exchanges up by enough and the middle of the YES book high enough,
/// the order is for UP at the best ask of YES, but at no more than the cap and no less than 90
/// cents; its conviction is the middle.
pub proof fn rises_are_bought(
    config: ArticleConfig,
    oracle: OracleSnapshot,
    book: OrderBookView,
    secs_left: Double,
)
    requires
        is_endgame(config, secs_left),
        moved_together(config, oracle, true),
        config.min_trending_mid.le(book.mid()),
        book.asks.len() > 0,
        Double::ratio(90, 100).le(config.entry_price_cap),
        !best(book.asks).is_nan(),
    ensures
        article::decision(config, oracle, book, secs_left) matches Some(o) && {
            &&& o.direction == "UP"@
            &&& o.size == config.article_size
            &&& o.conviction == book.mid()
            &&& Double::ratio(90, 100).le(best(book.asks)) && best(book.asks).le(
                config.entry_price_cap,
            ) ==> o.price == best(book.asks)
            &&& best(book.asks).lt(Double::ratio(90, 100)) ==> o.price == Double::ratio(90, 100)
            &&& config.entry_price_cap.lt(best(book.asks)) ==> o.price == config.entry_price_cap
        },
{
    laws::lemma_ratio(0, 1);
    laws::lemma_ratio(90, 100);
}

/// In the endgame, with both exchanges down by enough and the middle of the YES book low enough,
/// the order is for DOWN at one less the best bid of YES, but at no more than the cap and no less
/// than 90 cents; its conviction is one less the middle.
pub proof fn falls_are_bought(
    config: ArticleConfig,
    oracle: OracleSnapshot,
    book: OrderBookView,
    secs_left: Double,
)
    requires
        is_endgame(config, secs_left),
        moved_together(config, oracle, false),
        config.min_trending_mid.le(Double::ratio(1, 1).minus(book.mid())),
        book.bids.len() > 0,
        Double::ratio(90, 100).le(config.entry_price_cap),
        !Double::ratio(1, 1).minus(best(book.bids)).is_nan(),
    ensures
        article::decision(config, oracle, book, secs_left) matches Some(o) && {
            let price = Double::ratio(1, 1).minus(best(book.bids));
            &&& o.direction == "DOWN"@
            &&& o.size == config.article_size
            &&& o.conviction == Double::ratio(1, 1).minus(book.mid())
            &&& Double::ratio(90, 100).le(price) && price.le(config.entry_price_cap) ==> o.price
                == price
            &&& price.lt(Double::ratio(90, 100)) ==> o.price == Double::ratio(90, 100)
            &&& config.entry_price_cap.lt(price) ==> o.price == config.entry_price_cap
        },
{
    laws::lemma_ratio(0, 1);
    laws::lemma_ratio(90, 100);
}

/// There is no order outside the endgame, without a move of both exchanges in one direction by
/// enough, nor where the middle of the book does not bear the move out.
pub proof fn no_order_without_a_trend(
    config: ArticleConfig,
    oracle: OracleSnapshot,
    book: OrderBookView,
    secs_left: Double,
)
    requires
        ({
            let first = oracle.binance_delta_60s;
            let second = oracle.coinbase_delta_60s;
            ||| !config.enabled
            ||| config.trigger_seconds_before_close.lt(secs_left)
            ||| secs_left.lt(config.min_seconds_before_close)
            ||| !first.available
            ||| !second.available
            ||| first.delta_bps.is_nan()
            ||| second.delta_bps.is_nan()
            ||| first.delta_bps.is_negative() != second.delta_bps.is_negative()
            ||| first.delta_bps.abs().lt(config.min_bn_delta_60s_bps)
            ||| second.delta_bps.abs().lt(config.min_cb_delta_60s_bps)
            ||| first.delta_bps.key() > 0 && book.mid().lt(config.min_trending_mid)
            ||| first.delta_bps.key() <= 0 && Double::ratio(1, 1).minus(book.mid()).lt(
                config.min_trending_mid,
            )
        }),
    ensures
        article::decision(config, oracle, book, secs_left) is None,
{
    laws::lemma_ratio(0, 1);
}

/// A market that was found, or was in a state that is no longer used, is watched from the next
/// look on, and its orders stay.
pub proof fn found_markets_are_watched(state: MarketState, secs_left: Double)
    requires
        !(state is Monitoring || state is Settlement || state is Withdrawn),
    ensures
        engine::next_state(state, false, secs_left) == (MarketState::Monitoring, false),
{
}

/// A watched market settles, with its orders cancelled, at the first look with less than two
/// seconds left; until it does it is watched on.
pub proof fn watched_markets_settle_at_the_close(secs_left: Double)
    ensures
        secs_left.lt(Double::ratio(2, 1)) ==> engine::next_state(
            MarketState::Monitoring,
            false,
            secs_left,
        ) == (MarketState::Settlement, true),
        Double::ratio(2, 1).le(secs_left) ==> engine::next_state(
            MarketState::Monitoring,
            false,
            secs_left,
        ) == (MarketState::Monitoring, false),
{
}

/// A market that was left is watched again after the halt where more than half a minute is left,
/// and else stays left.
pub proof fn left_markets_come_back(secs_left: Double)
    ensures
        Double::ratio(30, 1).lt(secs_left) ==> engine::next_state(
            MarketState::Withdrawn,
            false,
            secs_left,
        ) == (MarketState::Monitoring, false),
        secs_left.le(Double::ratio(30, 1)) ==> engine::next_state(
            MarketState::Withdrawn,
            false,
            secs_left,
        ) == (MarketState::Withdrawn, false),
        engine::next_state(MarketState::Settlement, false, secs_left) == (
            MarketState::Settlement,
            false,
        ),
{
}

/// The time left is the close less the time, and zero from the close on; it does not grow as time
/// goes on.
pub proof fn time_runs_out(end_time: Double, now: Double, later: Double)
    requires
        end_time.is_finite(),
        now.is_finite(),
        later.is_finite(),
        now.le(later),
    ensures
        Double::ratio(0, 1).le(end_time.minus(now)) ==> engine::time_left(end_time, now)
            == end_time.minus(now),
        end_time.minus(now).lt(Double::ratio(0, 1)) ==> engine::time_left(end_time, now)
            == Double::ratio(0, 1),
        engine::time_left(end_time, later).le(engine::time_left(end_time, now)),
{
    laws::lemma_ratio(0, 1);
    order::negation_turns_order(now, later);
    order::lemma_plus_key(end_time, now.negated());
    order::lemma_plus_key(end_time, later.negated());
    order::plus_keeps_order_right(later.negated(), now.negated(), end_time);
}

} // verus!

//! The life of a market.

use vstd::prelude::*;

use super::article::ArticleOrder;
use super::article::ArticleStrategy;
use super::pricing::{MarketInventory, QuotePricer, QuoteSet};
use super::risk::RiskManager;
use crate::double::Double;
use crate::feeds::types::{OracleSnapshot, OrderBook};
use crate::text;

verus! {

/// States in the life of a market.
#[derive(Clone, Copy, Debug, PartialEq, Eq, Structural)]
pub enum MarketState {
    Discovered,
    /// Books are watched, no orders are placed.
    Monitoring,
    Qualifying,
    Quoting,
    ArticleZone,
    Settlement,
    Withdrawn,
}

/// A market that is tracked.
#[derive(Debug)]
pub struct MarketContext {
    pub condition_id: String,
    pub asset: String,
    pub timeframe: String,
    pub yes_token_id: String,
    pub no_token_id: String,
    pub start_time: Double,
    pub end_time: Double,
    pub state: MarketState,
    pub neg_risk: bool,
    pub tick_size: Double,
    pub min_order_size: Double,
    pub db_market_id: Option<i64>,
}

/// What is known of a market.
pub struct MarketContextView {
    pub condition_id: Seq<char>,
    pub asset: Seq<char>,
    pub timeframe: Seq<char>,
    pub yes_token_id: Seq<char>,
    pub no_token_id: Seq<char>,
    pub start_time: Double,
    pub end_time: Double,
    pub state: MarketState,
    pub neg_risk: bool,
    pub tick_size: Double,
    pub min_order_size: Double,
    pub db_market_id: Option<i64>,
}

impl View for MarketContext {
    type V = MarketContextView;

    open spec fn view(&self) -> MarketContextView {
        MarketContextView {
            condition_id: self.condition_id@,
            asset: self.asset@,
            timeframe: self.timeframe@,
            yes_token_id: self.yes_token_id@,
            no_token_id: self.no_token_id@,
            start_time: self.start_time,
            end_time: self.end_time,
            state: self.state,
            neg_risk: self.neg_risk,
            tick_size: self.tick_size,
            min_order_size: self.min_order_size,
            db_market_id: self.db_market_id,
        }
    }
}

impl Clone for MarketContext {
    fn clone(&self) -> (r: MarketContext)
        ensures
            r@ == self@,
    {
        MarketContext {
            condition_id: self.condition_id.clone(),
            asset: self.asset.clone(),
            timeframe: self.timeframe.clone(),
            yes_token_id: self.yes_token_id.clone(),
            no_token_id: self.no_token_id.clone(),
            start_time: self.start_time,
            end_time: self.end_time,
            state: self.state,
            neg_risk: self.neg_risk,
            tick_size: self.tick_size,
            min_order_size: self.min_order_size,
            db_market_id: self.db_market_id,
        }
    }
}

/// Seconds from `now` to the close, or zero after it.
pub open spec fn time_left(end_time: Double, now: Double) -> Double {
    end_time.minus(now).max(Double::ratio(0, 1))
}

impl MarketContext {
    /// Seconds from `now` to the close of the market, or zero after it.
    pub fn seconds_until_close(&self, now: Double) -> (r: Double)
        ensures
            r == time_left(self@.end_time, now),
    {
        self.end_time.minus(now).max(Double::ratio(0, 1))
    }

    /// Whether this is a five-minute market.
    pub fn is_5min(&self) -> (r: bool)
        ensures
            r == (self@.timeframe == "5min"@),
    {
        text::same(self.timeframe.as_str(), "5min")
    }
}

/// What is to be done for a market.
#[derive(Debug)]
pub enum StrategyAction {
    /// Post or update two-sided quotes.
    PostQuotes(QuoteSet),
    /// Post an order of the endgame strategy.
    PostArticle(ArticleOrder),
    /// Cancel all orders of the market.
    CancelAll,
    /// Do nothing.
    Hold,
    /// Leave the market.
    Withdraw,
}

/// The state after a look at a market, and whether its orders are cancelled.
pub open spec fn next_state(state: MarketState, halted: bool, secs_left: Double) -> (
    MarketState,
    bool,
) {
    if halted {
        (MarketState::Withdrawn, true)
    } else {
        match state {
            MarketState::Discovered => (MarketState::Monitoring, false),
            MarketState::Monitoring => if secs_left.lt(Double::ratio(2, 1)) {
                (MarketState::Settlement, true)
            } else {
                (MarketState::Monitoring, false)
            },
            MarketState::Qualifying | MarketState::Quoting | MarketState::ArticleZone => (
                MarketState::Monitoring,
                false,
            ),
            MarketState::Settlement => (MarketState::Settlement, false),
            MarketState::Withdrawn => if Double::ratio(30, 1).lt(secs_left) {
                (MarketState::Monitoring, false)
            } else {
                (MarketState::Withdrawn, false)
            },
        }
    }
}

/// Drives the decisions for each market.
pub struct StrategyEngine {
    pub pricer: QuotePricer,
    pub article: ArticleStrategy,
    pub risk: RiskManager,
}

impl StrategyEngine {
    pub fn new(pricer: QuotePricer, article: ArticleStrategy, risk: RiskManager) -> (r: Self)
        ensures
            r.pricer == pricer,
            r.article == article,
            r.risk == risk,
    {
        StrategyEngine { pricer, article, risk }
    }

    /// Moves a market on and decides what to do. Markets are only watched: no quotes and no
    /// endgame orders come from here.
    pub fn process_market(
        &self,
        market: &mut MarketContext,
        _oracle: &OracleSnapshot,
        _yes_book: &OrderBook,
        _inventory: &MarketInventory,
        now: Double,
    ) -> (r: StrategyAction)
        ensures
            final(market)@ == (MarketContextView {
                state: next_state(
                    old(market)@.state,
                    self.risk.halted,
                    time_left(old(market)@.end_time, now),
                ).0,
                ..old(market)@
            }),
            r == if next_state(
                old(market)@.state,
                self.risk.halted,
                time_left(old(market)@.end_time, now),
            ).1 {
                StrategyAction::CancelAll
            } else {
                StrategyAction::Hold
            },
    {
        let secs_left: Double = market.seconds_until_close(now);
        if self.risk.is_halted() {
            market.state = MarketState::Withdrawn;
            return StrategyAction::CancelAll;
        }
        match market.state {
            MarketState::Discovered => {
                market.state = MarketState::Monitoring;
                StrategyAction::Hold
            },
            MarketState::Monitoring => {
                if secs_left.lt(Double::ratio(2, 1)) {
                    market.state = MarketState::Settlement;
                    return StrategyAction::CancelAll;
                }
                StrategyAction::Hold
            },
            MarketState::Qualifying | MarketState::Quoting | MarketState::ArticleZone => {
                market.state = MarketState::Monitoring;
                StrategyAction::Hold
            },
            MarketState::Settlement => StrategyAction::Hold,
            MarketState::Withdrawn => {
                if Double::ratio(30, 1).lt(secs_left) {
                    market.state = MarketState::Monitoring;
                }
                StrategyAction::Hold
            },
        }
    }
}

/// The state after a row of looks, each with what was known at the time.
pub open spec fn after_looks(state: MarketState, looks: Seq<(bool, Double)>) -> MarketState
    decreases looks.len(),
{
    if looks.len() == 0 {
        state
    } else {
        next_state(
            after_looks(state, looks.drop_last()),
            looks.last().0,
            looks.last().1,
        ).0
    }
}

/// Unless trading is halted, a market that settles stays so, and its orders are cancelled only
/// once.
pub proof fn settlement_lasts(looks: Seq<(bool, Double)>)
    requires
        forall|i: int| 0 <= i < looks.len() ==> !(#[trigger] looks[i]).0,
    ensures
        after_looks(MarketState::Settlement, looks) is Settlement,
        forall|secs_left: Double|
            !next_state(after_looks(MarketState::Settlement, looks), false, secs_left).1,
    decreases looks.len(),
{
    if looks.len() > 0 {
        assert(!looks[looks.len() - 1].0);
        assert forall|i: int| 0 <= i < looks.drop_last().len() implies !(
        #[trigger] looks.drop_last()[i]).0 by {
            assert(!looks[i].0);
        }
        settlement_lasts(looks.drop_last());
    }
}

/// While trading is halted every look withdraws the market and cancels its orders.
pub proof fn halt_withdraws(state: MarketState, secs_left: Double)
    ensures
        next_state(state, true, secs_left) == (MarketState::Withdrawn, true),
{
}

/// Orders are cancelled only on a halt or when a watched market is about to close, and the
/// market is then withdrawn or settles.
pub proof fn cancellation_ends_watching(state: MarketState, halted: bool, secs_left: Double)
    requires
        next_state(state, halted, secs_left).1,
    ensures
        halted || (state is Monitoring && secs_left.lt(Double::ratio(2, 1))),
        next_state(state, halted, secs_left).0 is Withdrawn || next_state(
            state,
            halted,
            secs_left,
        ).0 is Settlement,
{
}

/// The time left is never below zero.
pub proof fn time_left_is_not_negative(end_time: Double, now: Double)
    ensures
        Double::ratio(0, 1).le(time_left(end_time, now)),
{
    crate::double::laws::lemma_ratio(0, 1);
}

} // verus!

//! Risk management: position limits, exposure caps and a circuit breaker.

use vstd::prelude::*;
use vstd::string::*;

use super::pricing::MarketInventory;
use crate::config::RiskConfig;
use crate::double::{laws, Double};
use crate::events::bus;
use crate::events::bus::{BotEvent, BotEventView};
use crate::text;

verus! {

/// Current state of the portfolio.
#[derive(Clone, Copy, Debug)]
pub struct RiskState {
    pub total_exposure_usd: Double,
    pub daily_pnl: Double,
    pub active_markets: usize,
    pub halted: bool,
}

/// Enforces position limits and halts trading on losses.
#[derive(Clone, Copy, Debug)]
pub struct RiskManager {
    pub config: RiskConfig,
    pub halted: bool,
    pub daily_pnl: Double,
    pub total_exposure: Double,
    pub active_market_count: usize,
}

/// Text of the alert at a profit.
pub open spec fn alert_text(pnl: Double, max_loss: Double) -> Seq<char> {
    "Daily PnL at "@ + pnl.over(max_loss.negated()).times(Double::ratio(100, 1)).spec_fixed(1)
        + "% of limit"@
}

impl RiskManager {
    /// Whether an order may be posted.
    pub open spec fn permits(
        self,
        side: Seq<char>,
        size: Double,
        inventory: MarketInventory,
    ) -> bool {
        &&& !self.halted
        &&& !self.config.max_order_size.lt(size)
        &&& !size.lt(self.config.min_order_size)
        &&& side == "BUY"@ ==> !self.config.max_yes_position.lt(inventory.yes_shares.plus(size))
        &&& !self.config.max_total_exposure_usd.lt(
            self.total_exposure.plus(size.times(Double::ratio(1, 2))),
        )
        &&& self.active_market_count < self.config.max_concurrent_markets
    }

    /// What a side still has room for, before the limit on orders.
    pub open spec fn room(self, side: Seq<char>, inventory: MarketInventory) -> Double {
        if side == "BUY"@ {
            self.config.max_yes_position.minus(inventory.yes_shares)
        } else if side == "SELL"@ {
            self.config.max_no_position.minus(inventory.no_shares)
        } else {
            self.config.max_order_size
        }
    }

    /// Whether the loss of the day is beyond the limit.
    pub open spec fn beyond_limit(self, pnl: Double) -> bool {
        pnl.lt(self.config.max_daily_loss_usd.negated())
    }

    /// Whether the loss of the day is beyond three quarters of the limit, but not beyond it.
    pub open spec fn near_limit(self, pnl: Double) -> bool {
        &&& pnl.lt(self.config.max_daily_loss_usd.negated().times(Double::ratio(3, 4)))
        &&& self.config.max_daily_loss_usd.negated().le(pnl)
    }

    /// The state after a profit or loss.
    pub open spec fn after_pnl(self, change: Double) -> RiskManager {
        let pnl = self.daily_pnl.plus(change);
        RiskManager { daily_pnl: pnl, halted: self.halted || self.beyond_limit(pnl), ..self }
    }

    /// The events that a profit or loss causes.
    pub open spec fn pnl_events(self, change: Double) -> Seq<BotEventView> {
        let pnl = self.daily_pnl.plus(change);
        (if self.beyond_limit(pnl) && !self.halted {
            seq![BotEventView::CircuitBreaker { daily_pnl: pnl }]
        } else {
            Seq::empty()
        }) + (if self.near_limit(pnl) {
            seq![
                BotEventView::RiskAlert {
                    message: alert_text(pnl, self.config.max_daily_loss_usd),
                    daily_pnl: pnl,
                    exposure_usd: self.total_exposure,
                },
            ]
        } else {
            Seq::empty()
        })
    }

    /// The state at the start of a new day.
    pub open spec fn renewed(self) -> RiskManager {
        RiskManager { daily_pnl: Double::ratio(0, 1), halted: false, ..self }
    }

    pub fn new(config: RiskConfig) -> (r: Self)
        ensures
            r == (RiskManager {
                config,
                halted: false,
                daily_pnl: Double::ratio(0, 1),
                total_exposure: Double::ratio(0, 1),
                active_market_count: 0,
            }),
    {
        RiskManager {
            config,
            halted: false,
            daily_pnl: Double::ratio(0, 1),
            total_exposure: Double::ratio(0, 1),
            active_market_count: 0,
        }
    }

    /// Whether an order may be posted, given what is held.
    pub fn can_post_order(
        &self,
        side: &str,
        _token: &str,
        size: Double,
        inventory: &MarketInventory,
    ) -> (r: bool)
        ensures
            r == self.permits(side@, size, *inventory),
    {
        if self.is_halted() {
            return false;
        }
        if self.config.max_order_size.lt(size) {
            return false;
        }
        if size.lt(self.config.min_order_size) {
            return false;
        }
        if text::same(side, "BUY") {
            if self.config.max_yes_position.lt(inventory.yes_shares.plus(size)) {
                return false;
            }
        }
        if self.config.max_total_exposure_usd.lt(
            self.total_exposure.plus(size.times(Double::ratio(1, 2))),
        ) {
            return false;
        }
        self.active_market_count < self.config.max_concurrent_markets
    }

    /// Whether the inventory is balanced enough.
    pub fn check_inventory_imbalance(&self, inventory: &MarketInventory) -> (r: bool)
        ensures
            r == inventory.net_yes().abs().le(self.config.max_inventory_imbalance),
    {
        inventory.net_yes().abs().le(self.config.max_inventory_imbalance)
    }

    /// The greatest size of an order, given what is held.
    pub fn get_max_order_size(&self, side: &str, inventory: &MarketInventory) -> (r: Double)
        ensures
            r == self.room(side@, *inventory).min(self.config.max_order_size).max(
                Double::ratio(0, 1),
            ),
            Double::ratio(0, 1).le(r),
            r == Double::ratio(0, 1) || r.le(self.config.max_order_size)
                || self.config.max_order_size.is_nan(),
            side@ == "BUY"@ ==> r == Double::ratio(0, 1) || r.le(
                self.config.max_yes_position.minus(inventory.yes_shares),
            ) || self.config.max_yes_position.minus(inventory.yes_shares).is_nan(),
            side@ == "SELL"@ ==> r == Double::ratio(0, 1) || r.le(
                self.config.max_no_position.minus(inventory.no_shares),
            ) || self.config.max_no_position.minus(inventory.no_shares).is_nan(),
    {
        proof {
            laws::lemma_ratio(0, 1);
            reveal_strlit("BUY");
            reveal_strlit("SELL");
            assert("BUY"@.len() != "SELL"@.len());
        }
        let remaining: Double = if text::same(side, "BUY") {
            self.config.max_yes_position.minus(inventory.yes_shares)
        } else if text::same(side, "SELL") {
            self.config.max_no_position.minus(inventory.no_shares)
        } else {
            self.config.max_order_size
        };
        remaining.min(self.config.max_order_size).max(Double::ratio(0, 1))
    }

    /// Takes in a profit or loss: halts trading beyond the limit, and says what to publish.
    pub fn update_daily_pnl(&mut self, pnl_change: Double) -> (r: Vec<BotEvent>)
        ensures
            *final(self) == old(self).after_pnl(pnl_change),
            bus::event_views(r@) == old(self).pnl_events(pnl_change),
    {
        let mut events: Vec<BotEvent> = Vec::new();
        let pnl: Double = self.daily_pnl.plus(pnl_change);
        self.daily_pnl = pnl;
        let limit: Double = self.config.max_daily_loss_usd.negated();
        assert(bus::event_views(events@) =~= Seq::<BotEventView>::empty());
        if pnl.lt(limit) {
            let was_halted: bool = self.halted;
            self.halted = true;
            if !was_halted {
                events.push(BotEvent::CircuitBreaker { daily_pnl: pnl });
            }
        }
        if pnl.lt(limit.times(Double::ratio(3, 4))) && limit.le(pnl) {
            let mut message: String = "Daily PnL at ".to_string();
            message.append(pnl.over(limit).times(Double::ratio(100, 1)).fixed(1).as_str());
            message.append("% of limit");
            events.push(
                BotEvent::RiskAlert {
                    message,
                    daily_pnl: pnl,
                    exposure_usd: self.total_exposure,
                },
            );
        }
        assert(bus::event_views(events@) =~= old(self).pnl_events(pnl_change));
        events
    }

    pub fn set_total_exposure(&mut self, exposure: Double)
        ensures
            *final(self) == (RiskManager { total_exposure: exposure, ..*old(self) }),
    {
        self.total_exposure = exposure;
    }

    pub fn set_active_market_count(&mut self, count: usize)
        ensures
            *final(self) == (RiskManager { active_market_count: count, ..*old(self) }),
    {
        self.active_market_count = count;
    }

    /// Whether trading is halted.
    pub fn is_halted(&self) -> (r: bool)
        ensures
            r == self.halted,
    {
        self.halted
    }

    /// The current state.
    pub fn state(&self) -> (r: RiskState)
        ensures
            r == (RiskState {
                total_exposure_usd: self.total_exposure,
                daily_pnl: self.daily_pnl,
                active_markets: self.active_market_count,
                halted: self.halted,
            }),
    {
        RiskState {
            total_exposure_usd: self.total_exposure,
            daily_pnl: self.daily_pnl,
            active_markets: self.active_market_count,
            halted: self.halted,
        }
    }

    /// Starts a new day.
    pub fn reset_daily(&mut self)
        ensures
            *final(self) == old(self).renewed(),
    {
        self.daily_pnl = Double::ratio(0, 1);
        self.halted = false;
    }
}

/// The state after a row of profits and losses.
pub open spec fn after_pnls(risk: RiskManager, changes: Seq<Double>) -> RiskManager
    decreases changes.len(),
{
    if changes.len() == 0 {
        risk
    } else {
        after_pnls(risk, changes.drop_last()).after_pnl(changes.last())
    }
}

/// Once trading is halted no order is permitted, whatever is won or lost afterwards, and the
/// circuit breaker is not reported again.
pub proof fn halt_lasts(
    risk: RiskManager,
    changes: Seq<Double>,
    change: Double,
    side: Seq<char>,
    size: Double,
    inventory: MarketInventory,
)
    requires
        risk.halted,
    ensures
        after_pnls(risk, changes).halted,
        !after_pnls(risk, changes).permits(side, size, inventory),
        forall|i: int|
            0 <= i < after_pnls(risk, changes).pnl_events(change).len()
                ==> !(#[trigger] after_pnls(risk, changes).pnl_events(
                change,
            )[i] is CircuitBreaker),
    decreases changes.len(),
{
    if changes.len() > 0 {
        halt_lasts(risk, changes.drop_last(), change, side, size, inventory);
    }
}

/// A new day lifts the halt.
pub proof fn new_day_lifts_halt(risk: RiskManager)
    ensures
        !risk.renewed().halted,
        risk.renewed().daily_pnl == Double::ratio(0, 1),
        risk.renewed().config == risk.config,
{
}

/// A loss beyond the limit halts trading and is reported at once; a loss that is only near the
/// limit is reported too, but does not halt.
pub proof fn loss_limit(risk: RiskManager, change: Double)
    requires
        !risk.halted,
    ensures
        risk.after_pnl(change).halted <==> risk.beyond_limit(risk.daily_pnl.plus(change)),
        risk.after_pnl(change).halted ==> risk.pnl_events(change).len() == 1
            && risk.pnl_events(change)[0] == (BotEventView::CircuitBreaker {
            daily_pnl: risk.daily_pnl.plus(change),
        }),
        risk.near_limit(risk.daily_pnl.plus(change)) ==> !risk.after_pnl(change).halted,
{
}

/// The greatest size of an order is no less than zero and within the limit on orders.
pub proof fn max_order_size_is_bounded(
    risk: RiskManager,
    side: Seq<char>,
    inventory: MarketInventory,
)
    requires
        Double::ratio(0, 1).le(risk.config.max_order_size),
    ensures
        ({
            let r = risk.room(side, inventory).min(risk.config.max_order_size).max(
                Double::ratio(0, 1),
            );
            Double::ratio(0, 1).le(r) && r.le(risk.config.max_order_size)
        }),
{
    laws::lemma_ratio(0, 1);
}

} // verus!

//! The trading cycle of a market: watch both books for an edge, move the market on, and place
//! or replace orders.

use vstd::prelude::*;

use super::order_manager;
use super::order_manager::{LiveOrder, LiveOrderView, OrderManager};
use crate::config::ArbConfig;
use crate::double::{integers, laws, order, Double};
use crate::events::bus::{BotEvent, BotEventView};
use crate::feeds::types;
use crate::feeds::types::{OracleSnapshot, OrderBook, OrderBookView};
use crate::feeds::FeedHub;
use crate::position::tracker;
use crate::position::tracker::{PositionTracker, TokenPositionView};
use crate::strategy::engine;
use crate::strategy::engine::{
    MarketContext,
    MarketContextView,
    MarketState,
    StrategyAction,
    StrategyEngine,
};
use crate::strategy::pricing::{MarketInventory, QuoteSet};
use crate::text;

verus! {

/// Length of a cycle in nanoseconds, where no feed update ends it earlier.
pub const CYCLE: u64 = 50_000_000;

/// Cycles are meant to take no longer than this, in nanoseconds.
pub const TARGET: u64 = 100_000_000;

/// What is remembered of a market's edges, so that the same one is not reported again and
/// again.
#[derive(Clone, Copy, Debug)]
pub struct EdgeTracker {
    /// Whether there is an edge for buying both sides at their bids.
    pub maker_edge_active: bool,
    /// Whether there is an edge for buying both sides at their asks.
    pub taker_edge_active: bool,
    /// When the current edge appeared, in nanoseconds.
    pub edge_window_start: Option<u64>,
    pub last_yes_bid: Double,
    pub last_no_bid: Double,
    pub last_yes_ask: Double,
    pub last_no_ask: Double,
    /// Whether orders were placed on the current edge.
    pub arb_orders_placed: bool,
    /// Shares held of each side, from fills.
    pub up_shares: Double,
    pub dn_shares: Double,
}

impl EdgeTracker {
    /// A market of which nothing was seen.
    pub open spec fn fresh() -> EdgeTracker {
        EdgeTracker {
            maker_edge_active: false,
            taker_edge_active: false,
            edge_window_start: None,
            last_yes_bid: Double::ratio(0, 1),
            last_no_bid: Double::ratio(0, 1),
            last_yes_ask: Double::ratio(0, 1),
            last_no_ask: Double::ratio(0, 1),
            arb_orders_placed: false,
            up_shares: Double::ratio(0, 1),
            dn_shares: Double::ratio(0, 1),
        }
    }
}

impl Default for EdgeTracker {
    fn default() -> (r: EdgeTracker)
        ensures
            r == EdgeTracker::fresh(),
    {
        let zero: Double = Double::ratio(0, 1);
        EdgeTracker {
            maker_edge_active: false,
            taker_edge_active: false,
            edge_window_start: None,
            last_yes_bid: zero,
            last_no_bid: zero,
            last_yes_ask: zero,
            last_no_ask: zero,
            arb_orders_placed: false,
            up_shares: zero,
            dn_shares: zero,
        }
    }
}

/// The best prices of both books of a market.
#[derive(Clone, Copy, Debug)]
pub struct TopPrices {
    pub yes_bid: Double,
    pub yes_ask: Double,
    pub no_bid: Double,
    pub no_ask: Double,
}

/// The best prices of two books.
pub open spec fn tops(yes: OrderBookView, no: OrderBookView) -> TopPrices {
    TopPrices {
        yes_bid: types::top_price(yes.bids),
        yes_ask: types::top_price(yes.asks),
        no_bid: types::top_price(no.bids),
        no_ask: types::top_price(no.asks),
    }
}

/// An amount of dollars in cents.
pub open spec fn spec_in_cents(dollars: Double) -> Double {
    dollars.times(Double::ratio(100, 1))
}

#[verifier::when_used_as_spec(spec_in_cents)]
pub fn in_cents(dollars: Double) -> (r: Double)
    ensures
        r == in_cents(dollars),
{
    dollars.times(Double::ratio(100, 1))
}

impl TopPrices {
    /// Whether the prices are those of a book that can be traded: bids of a cent and asks of
    /// 99 cents stand for an empty one.
    pub open spec fn is_real(self) -> bool {
        &&& Double::ratio(10, 100).le(self.yes_bid)
        &&& Double::ratio(10, 100).le(self.no_bid)
        &&& self.yes_ask.le(Double::ratio(90, 100))
        &&& self.no_ask.le(Double::ratio(90, 100))
        &&& Double::ratio(0, 1).lt(self.yes_ask)
        &&& Double::ratio(0, 1).lt(self.no_ask)
    }

    /// What is won by buying both sides at their bids.
    pub open spec fn maker_edge(self) -> Double {
        Double::ratio(1, 1).minus(self.yes_bid.plus(self.no_bid))
    }

    /// What is won by buying both sides at their bids, in cents.
    pub open spec fn maker_cents(self) -> Double {
        in_cents(self.maker_edge())
    }

    /// What both sides cost at their asks.
    pub open spec fn taker_cost(self) -> Double {
        self.yes_ask.plus(self.no_ask)
    }

    /// What is won by buying both sides at their asks.
    pub open spec fn taker_edge(self) -> Double {
        Double::ratio(1, 1).minus(self.taker_cost())
    }

    /// What is won by buying both sides at their asks, in cents.
    pub open spec fn taker_cents(self) -> Double {
        in_cents(self.taker_edge())
    }

    /// Whether any price differs from those last remembered.
    pub open spec fn moved_from(self, t: EdgeTracker) -> bool {
        let step = Double::ratio(1, 1000);
        ||| step.lt(self.yes_bid.minus(t.last_yes_bid).abs())
        ||| step.lt(self.no_bid.minus(t.last_no_bid).abs())
        ||| step.lt(self.yes_ask.minus(t.last_yes_ask).abs())
        ||| step.lt(self.no_ask.minus(t.last_no_ask).abs())
    }

    /// Whether the prices are those of a book that can be traded.
    pub fn realistic(self) -> (r: bool)
        ensures
            r == self.is_real(),
    {
        let low: Double = Double::ratio(10, 100);
        let high: Double = Double::ratio(90, 100);
        let zero: Double = Double::ratio(0, 1);
        low.le(self.yes_bid) && low.le(self.no_bid) && self.yes_ask.le(high) && self.no_ask.le(
            high,
        ) && zero.lt(self.yes_ask) && zero.lt(self.no_ask)
    }

    fn moved(self, t: &EdgeTracker) -> (r: bool)
        ensures
            r == self.moved_from(*t),
    {
        let step: Double = Double::ratio(1, 1000);
        step.lt(self.yes_bid.minus(t.last_yes_bid).abs()) || step.lt(
            self.no_bid.minus(t.last_no_bid).abs(),
        ) || step.lt(self.yes_ask.minus(t.last_yes_ask).abs()) || step.lt(
            self.no_ask.minus(t.last_no_ask).abs(),
        )
    }
}

/// Whole shares that an amount of money pays for. The quotient may have been rounded up to a
/// whole number; then one share less is paid for.
pub open spec fn spec_shares_for(usd: Double, price: Double) -> Double {
    let most = usd.over(price).floor();
    if price.times(most).le(usd) {
        most
    } else {
        most.minus(Double::ratio(1, 1))
    }
}

#[verifier::when_used_as_spec(spec_shares_for)]
pub fn shares_for(usd: Double, price: Double) -> (r: Double)
    ensures
        r == shares_for(usd, price),
{
    let most: Double = usd.over(price).floor();
    if price.times(most).le(usd) {
        most
    } else {
        most.minus(Double::ratio(1, 1))
    }
}

/// Whether an amount of money pays for a share at least, and for all that are bought with it.
pub open spec fn spec_affords(usd: Double, price: Double) -> bool {
    &&& Double::ratio(1, 1).le(shares_for(usd, price))
    &&& price.times(shares_for(usd, price)).le(usd)
}

#[verifier::when_used_as_spec(spec_affords)]
pub fn affords(usd: Double, price: Double) -> (r: bool)
    ensures
        r == affords(usd, price),
{
    let shares: Double = shares_for(usd, price);
    Double::ratio(1, 1).le(shares) && price.times(shares).le(usd)
}

/// What is remembered after a look at the maker edge.
pub open spec fn after_maker(
    t: EdgeTracker,
    prices: TopPrices,
    min_edge: Double,
    now_ns: u64,
) -> EdgeTracker {
    if min_edge.lt(prices.maker_cents()) {
        if !t.maker_edge_active {
            EdgeTracker {
                maker_edge_active: true,
                edge_window_start: Some(now_ns),
                arb_orders_placed: false,
                ..t
            }
        } else {
            t
        }
    } else if t.maker_edge_active {
        EdgeTracker {
            maker_edge_active: false,
            edge_window_start: None,
            arb_orders_placed: false,
            ..t
        }
    } else {
        t
    }
}

/// Whether orders are placed on the maker edge, given what is remembered after a look at it:
/// once for each time it appears, with more than a minute left, only where nothing is held, and
/// only where the money for each side pays for a share of it.
pub open spec fn places(
    t: EdgeTracker,
    prices: TopPrices,
    arb: ArbConfig,
    secs_left: Double,
) -> bool {
    &&& arb.min_alert_edge_cents.lt(prices.maker_cents())
    &&& !t.arb_orders_placed
    &&& !arb.monitor_only
    &&& Double::ratio(60, 1).lt(secs_left)
    &&& t.up_shares.lt(Double::ratio(1, 1))
    &&& t.dn_shares.lt(Double::ratio(1, 1))
    &&& affords(arb.order_size_usd, prices.yes_bid)
    &&& affords(arb.order_size_usd, prices.no_bid)
}

/// What a look at the prices comes to.
pub enum Finding {
    /// Nothing to do on the edges.
    Nothing,
    /// Buy both sides.
    Place,
    /// Report that both asks together cost less than a dollar.
    Report,
}

/// What is remembered after a look at the prices, and what is found.
pub open spec fn watched(
    t: EdgeTracker,
    prices: TopPrices,
    arb: ArbConfig,
    secs_left: Double,
    now_ns: u64,
) -> (EdgeTracker, Finding) {
    if prices.is_real() {
        let seen = after_maker(t, prices, arb.min_alert_edge_cents, now_ns);
        let moved = prices.moved_from(t);
        if places(seen, prices, arb, secs_left) {
            (EdgeTracker { arb_orders_placed: true, ..seen }, Finding::Place)
        } else {
            let edge = arb.min_alert_edge_cents.lt(prices.taker_cents());
            let noted = EdgeTracker { taker_edge_active: edge, ..seen };
            (
                if moved {
                    EdgeTracker {
                        last_yes_bid: prices.yes_bid,
                        last_no_bid: prices.no_bid,
                        last_yes_ask: prices.yes_ask,
                        last_no_ask: prices.no_ask,
                        ..noted
                    }
                } else {
                    noted
                },
                if edge && (!t.taker_edge_active || moved) {
                    Finding::Report
                } else {
                    Finding::Nothing
                },
            )
        }
    } else {
        (
            EdgeTracker {
                maker_edge_active: false,
                edge_window_start: if t.maker_edge_active {
                    None
                } else {
                    t.edge_window_start
                },
                taker_edge_active: false,
                ..t
            },
            Finding::Nothing,
        )
    }
}

/// Looks at the prices of a market.
pub fn watch(
    t: &mut EdgeTracker,
    prices: TopPrices,
    arb: &ArbConfig,
    secs_left: Double,
    now_ns: u64,
) -> (r: Finding)
    ensures
        (*final(t), r) == watched(*old(t), prices, *arb, secs_left, now_ns),
{
    let one: Double = Double::ratio(1, 1);
    if !prices.realistic() {
        if t.maker_edge_active {
            t.maker_edge_active = false;
            t.edge_window_start = None;
        }
        t.taker_edge_active = false;
        return Finding::Nothing;
    }
    let min_edge: Double = arb.min_alert_edge_cents;
    let changed: bool = prices.moved(t);
    let maker_edge: Double = in_cents(one.minus(prices.yes_bid.plus(prices.no_bid)));
    if min_edge.lt(maker_edge) {
        if !t.maker_edge_active {
            t.maker_edge_active = true;
            t.edge_window_start = Some(now_ns);
            t.arb_orders_placed = false;
        }
        if !t.arb_orders_placed && !arb.monitor_only && Double::ratio(60, 1).lt(secs_left)
            && t.up_shares.lt(one) && t.dn_shares.lt(one) && affords(
            arb.order_size_usd,
            prices.yes_bid,
        ) && affords(arb.order_size_usd, prices.no_bid) {
            t.arb_orders_placed = true;
            return Finding::Place;
        }
    } else if t.maker_edge_active {
        t.maker_edge_active = false;
        t.edge_window_start = None;
        t.arb_orders_placed = false;
    }
    let taker_edge: Double = in_cents(one.minus(prices.yes_ask.plus(prices.no_ask)));
    let mut found: Finding = Finding::Nothing;
    if min_edge.lt(taker_edge) {
        if !t.taker_edge_active || changed {
            found = Finding::Report;
        }
        t.taker_edge_active = true;
    } else {
        t.taker_edge_active = false;
    }
    if changed {
        t.last_yes_bid = prices.yes_bid;
        t.last_no_bid = prices.no_bid;
        t.last_yes_ask = prices.yes_ask;
        t.last_no_ask = prices.no_ask;
    }
    found
}

/// A request for an order.
#[derive(Debug)]
pub struct OrderRequest {
    pub token_id: String,
    pub condition_id: String,
    pub side: String,
    pub price: Double,
    pub size: Double,
    pub strategy: String,
    pub market_db_id: i64,
}

/// What a request says.
pub struct OrderRequestView {
    pub token_id: Seq<char>,
    pub condition_id: Seq<char>,
    pub side: Seq<char>,
    pub price: Double,
    pub size: Double,
    pub strategy: Seq<char>,
    pub market_db_id: i64,
}

impl View for OrderRequest {
    type V = OrderRequestView;

    open spec fn view(&self) -> OrderRequestView {
        OrderRequestView {
            token_id: self.token_id@,
            condition_id: self.condition_id@,
            side: self.side@,
            price: self.price,
            size: self.size,
            strategy: self.strategy@,
            market_db_id: self.market_db_id,
        }
    }
}

/// A step that a cycle asks for.
#[derive(Debug)]
pub enum Command {
    /// Tell all listeners.
    Publish(BotEvent),
    /// Cancel all orders of a market.
    CancelMarket { condition_id: String },
    /// Cancel an order.
    Cancel { order_id: String },
    /// Post an order.
    Post(OrderRequest),
}

/// What a step says.
pub enum CommandView {
    Publish(BotEventView),
    CancelMarket { condition_id: Seq<char> },
    Cancel { order_id: Seq<char> },
    Post(OrderRequestView),
}

impl View for Command {
    type V = CommandView;

    open spec fn view(&self) -> CommandView {
        match self {
            Command::Publish(event) => CommandView::Publish(event@),
            Command::CancelMarket { condition_id } => CommandView::CancelMarket {
                condition_id: condition_id@,
            },
            Command::Cancel { order_id } => CommandView::Cancel { order_id: order_id@ },
            Command::Post(request) => CommandView::Post(request@),
        }
    }
}

/// What a list of steps says.
pub open spec fn command_views(s: Seq<Command>) -> Seq<CommandView> {
    s.map_values(|c: Command| c@)
}

/// The number of a market in the database, or zero.
pub open spec fn db_id(market: MarketContextView) -> i64 {
    match market.db_market_id {
        Some(id) => id,
        None => 0,
    }
}

fn db_number(market: &MarketContext) -> (r: i64)
    ensures
        r == db_id(market@),
{
    match market.db_market_id {
        Some(id) => id,
        None => 0,
    }
}

/// The two purchases on a maker edge.
pub open spec fn arb_commands(
    market: MarketContextView,
    prices: TopPrices,
    usd: Double,
) -> Seq<CommandView> {
    seq![
        CommandView::Post(
            OrderRequestView {
                token_id: market.yes_token_id,
                condition_id: market.condition_id,
                side: "BUY"@,
                price: prices.yes_bid,
                size: shares_for(usd, prices.yes_bid),
                strategy: "arb_up"@,
                market_db_id: db_id(market),
            },
        ),
        CommandView::Post(
            OrderRequestView {
                token_id: market.no_token_id,
                condition_id: market.condition_id,
                side: "BUY"@,
                price: prices.no_bid,
                size: shares_for(usd, prices.no_bid),
                strategy: "arb_dn"@,
                market_db_id: db_id(market),
            },
        ),
    ]
}

fn arb_steps(market: &MarketContext, prices: TopPrices, usd: Double) -> (r: Vec<Command>)
    ensures
        command_views(r@) == arb_commands(market@, prices, usd),
{
    let mut out: Vec<Command> = Vec::new();
    out.push(
        Command::Post(
            OrderRequest {
                token_id: market.yes_token_id.clone(),
                condition_id: market.condition_id.clone(),
                side: "BUY".to_string(),
                price: prices.yes_bid,
                size: shares_for(usd, prices.yes_bid),
                strategy: "arb_up".to_string(),
                market_db_id: db_number(market),
            },
        ),
    );
    out.push(
        Command::Post(
            OrderRequest {
                token_id: market.no_token_id.clone(),
                condition_id: market.condition_id.clone(),
                side: "BUY".to_string(),
                price: prices.no_bid,
                size: shares_for(usd, prices.no_bid),
                strategy: "arb_dn".to_string(),
                market_db_id: db_number(market),
            },
        ),
    );
    assert(command_views(out@) =~= arb_commands(market@, prices, usd));
    out
}

/// The report that both asks together cost less than a dollar.
pub open spec fn edge_event(
    market: MarketContextView,
    yes: OrderBookView,
    no: OrderBookView,
    secs_left: Double,
) -> BotEventView {
    let prices = tops(yes, no);
    BotEventView::NegVigDetected {
        condition_id: market.condition_id,
        asset: market.asset,
        timeframe: market.timeframe,
        yes_ask: prices.yes_ask,
        no_ask: prices.no_ask,
        combined: prices.taker_cost(),
        edge_cents: prices.taker_edge(),
        yes_depth: types::top_size(yes.asks),
        no_depth: types::top_size(no.asks),
        secs_left,
    }
}

/// A quote that is wanted: token, side, price and size.
pub struct SlotView {
    pub token_id: Seq<char>,
    pub side: Seq<char>,
    pub price: Double,
    pub size: Double,
}

/// The quotes that are wanted of a market.
pub open spec fn wanted(
    yes_token_id: Seq<char>,
    no_token_id: Seq<char>,
    quotes: QuoteSet,
) -> Seq<SlotView> {
    seq![
        SlotView {
            token_id: yes_token_id,
            side: "BUY"@,
            price: quotes.yes_bid,
            size: quotes.yes_bid_size,
        },
        SlotView {
            token_id: yes_token_id,
            side: "SELL"@,
            price: quotes.yes_ask,
            size: quotes.yes_ask_size,
        },
        SlotView {
            token_id: no_token_id,
            side: "BUY"@,
            price: quotes.no_bid,
            size: quotes.no_bid_size,
        },
        SlotView {
            token_id: no_token_id,
            side: "SELL"@,
            price: quotes.no_ask,
            size: quotes.no_ask_size,
        },
    ]
}

/// Whether an order stands for a quote.
pub open spec fn stands_for(order: LiveOrderView, slot: SlotView) -> bool {
    order.token_id == slot.token_id && order.side == slot.side
}

/// Whether the order stands for this quote and for none before it.
pub open spec fn is_slot_of(order: LiveOrderView, slots: Seq<SlotView>, i: int) -> bool {
    &&& 0 <= i < slots.len()
    &&& stands_for(order, slots[i])
    &&& forall|j: int| 0 <= j < i ==> !stands_for(order, #[trigger] slots[j])
}

/// Whether an order is kept: it stands for a wanted quote, and is no more than a tick away.
pub open spec fn is_kept(order: LiveOrderView, slots: Seq<SlotView>, tick_size: Double) -> bool {
    exists|i: int| #[trigger]
        is_slot_of(order, slots, i) && !tick_size.lt(order.price.minus(slots[i].price).abs())
}

/// The cancellations of the orders that are not kept.
pub open spec fn stale_commands(
    orders: Seq<LiveOrderView>,
    slots: Seq<SlotView>,
    tick_size: Double,
) -> Seq<CommandView>
    decreases orders.len(),
{
    if orders.len() == 0 {
        Seq::empty()
    } else {
        let front = stale_commands(orders.drop_last(), slots, tick_size);
        if is_kept(orders.last(), slots, tick_size) {
            front
        } else {
            front.push(CommandView::Cancel { order_id: orders.last().order_id })
        }
    }
}

/// Whether an order that is kept stands for a quote.
pub open spec fn is_covered(
    orders: Seq<LiveOrderView>,
    slots: Seq<SlotView>,
    tick_size: Double,
    slot: SlotView,
) -> bool {
    exists|k: int|
        0 <= k < orders.len() && is_kept(#[trigger] orders[k], slots, tick_size) && stands_for(
            orders[k],
            slot,
        )
}

/// Whether a quote has to be posted.
pub open spec fn is_due(
    orders: Seq<LiveOrderView>,
    slots: Seq<SlotView>,
    tick_size: Double,
    slot: SlotView,
) -> bool {
    &&& !slot.size.le(Double::ratio(0, 1))
    &&& !slot.price.le(Double::ratio(0, 1))
    &&& !is_covered(orders, slots, tick_size, slot)
}

/// The order that posts a quote.
pub open spec fn slot_request(
    slot: SlotView,
    condition_id: Seq<char>,
    market_db_id: i64,
) -> OrderRequestView {
    OrderRequestView {
        token_id: slot.token_id,
        condition_id,
        side: slot.side,
        price: slot.price,
        size: slot.size,
        strategy: "quoting"@,
        market_db_id,
    }
}

/// The orders for the first `n` quotes that have to be posted.
pub open spec fn due_commands(
    orders: Seq<LiveOrderView>,
    slots: Seq<SlotView>,
    tick_size: Double,
    condition_id: Seq<char>,
    market_db_id: i64,
    n: nat,
) -> Seq<CommandView>
    decreases n,
{
    if n == 0 {
        Seq::empty()
    } else {
        let front = due_commands(
            orders,
            slots,
            tick_size,
            condition_id,
            market_db_id,
            (n - 1) as nat,
        );
        if is_due(orders, slots, tick_size, slots[n - 1]) {
            front.push(
                CommandView::Post(slot_request(slots[n - 1], condition_id, market_db_id)),
            )
        } else {
            front
        }
    }
}

/// The steps that turn the orders of a market into the wanted quotes.
pub open spec fn quote_commands(
    orders: Seq<LiveOrderView>,
    slots: Seq<SlotView>,
    tick_size: Double,
    condition_id: Seq<char>,
    market_db_id: i64,
) -> Seq<CommandView> {
    stale_commands(orders, slots, tick_size) + due_commands(
        orders,
        slots,
        tick_size,
        condition_id,
        market_db_id,
        slots.len(),
    )
}

struct Slot<'a> {
    token_id: &'a str,
    side: &'a str,
    price: Double,
    size: Double,
}

spec fn slot_view(s: Slot) -> SlotView {
    SlotView { token_id: s.token_id@, side: s.side@, price: s.price, size: s.size }
}

spec fn slot_views(s: Seq<Slot>) -> Seq<SlotView> {
    s.map_values(|x: Slot| slot_view(x))
}

fn keeps(order: &LiveOrder, slots: &Vec<Slot>, tick_size: Double) -> (r: bool)
    ensures
        r == is_kept(order@, slot_views(slots@), tick_size),
{
    let ghost all: Seq<SlotView> = slot_views(slots@);
    let mut i: usize = 0;
    while i < slots.len()
        invariant
            i <= slots@.len(),
            all == slot_views(slots@),
            forall|j: int| 0 <= j < i ==> !stands_for(order@, #[trigger] all[j]),
        decreases slots@.len() - i,
    {
        assert(all[i as int] == slot_view(slots@[i as int]));
        if text::same(order.token_id.as_str(), slots[i].token_id) && text::same(
            order.side.as_str(),
            slots[i].side,
        ) {
            assert(is_slot_of(order@, all, i as int));
            let kept: bool = !tick_size.lt(order.price.minus(slots[i].price).abs());
            proof {
                if is_kept(order@, all, tick_size) {
                    let k = choose|k: int| #[trigger]
                        is_slot_of(order@, all, k) && !tick_size.lt(
                            order@.price.minus(all[k].price).abs(),
                        );
                    if k < i {
                        assert(!stands_for(order@, all[k]));
                    }
                    if i < k {
                        assert(!stands_for(order@, all[i as int]));
                    }
                    assert(k == i);
                }
            }
            return kept;
        }
        i = i + 1;
    }
    false
}

fn covers(
    orders: &Vec<LiveOrder>,
    kept: &Vec<bool>,
    slots: &Vec<Slot>,
    tick_size: Double,
    slot: &Slot,
) -> (r: bool)
    requires
        kept@.len() == orders@.len(),
        forall|k: int|
            0 <= k < orders@.len() ==> #[trigger] kept@[k] == is_kept(
                orders@[k]@,
                slot_views(slots@),
                tick_size,
            ),
    ensures
        r == is_covered(
            order_manager::views(orders@),
            slot_views(slots@),
            tick_size,
            slot_view(*slot),
        ),
{
    let ghost all: Seq<LiveOrderView> = order_manager::views(orders@);
    let ghost wanted: Seq<SlotView> = slot_views(slots@);
    let mut i: usize = 0;
    while i < orders.len()
        invariant
            i <= orders@.len(),
            kept@.len() == orders@.len(),
            all == order_manager::views(orders@),
            wanted == slot_views(slots@),
            forall|k: int|
                0 <= k < orders@.len() ==> #[trigger] kept@[k] == is_kept(
                    orders@[k]@,
                    wanted,
                    tick_size,
                ),
            forall|k: int|
                0 <= k < i ==> !(is_kept(#[trigger] all[k], wanted, tick_size) && stands_for(
                    all[k],
                    slot_view(*slot),
                )),
        decreases orders@.len() - i,
    {
        assert(all[i as int] == orders@[i as int]@);
        if kept[i] && text::same(orders[i].token_id.as_str(), slot.token_id) && text::same(
            orders[i].side.as_str(),
            slot.side,
        ) {
            assert(is_kept(all[i as int], wanted, tick_size));
            return true;
        }
        i = i + 1;
    }
    false
}

/// Compares the wanted quotes with the orders of a market: orders that no quote wants, or that
/// are more than a tick away, are cancelled, and quotes that no order stands for are posted.
pub fn execute_quote_update(
    existing: &Vec<LiveOrder>,
    condition_id: &str,
    yes_token_id: &str,
    no_token_id: &str,
    market_db_id: i64,
    quotes: &QuoteSet,
    tick_size: Double,
) -> (r: Vec<Command>)
    ensures
        command_views(r@) == quote_commands(
            order_manager::views(existing@),
            wanted(yes_token_id@, no_token_id@, *quotes),
            tick_size,
            condition_id@,
            market_db_id,
        ),
{
    let ghost all: Seq<LiveOrderView> = order_manager::views(existing@);
    let ghost aim: Seq<SlotView> = wanted(yes_token_id@, no_token_id@, *quotes);
    let mut slots: Vec<Slot> = Vec::new();
    slots.push(
        Slot {
            token_id: yes_token_id,
            side: "BUY",
            price: quotes.yes_bid,
            size: quotes.yes_bid_size,
        },
    );
    slots.push(
        Slot {
            token_id: yes_token_id,
            side: "SELL",
            price: quotes.yes_ask,
            size: quotes.yes_ask_size,
        },
    );
    slots.push(
        Slot {
            token_id: no_token_id,
            side: "BUY",
            price: quotes.no_bid,
            size: quotes.no_bid_size,
        },
    );
    slots.push(
        Slot {
            token_id: no_token_id,
            side: "SELL",
            price: quotes.no_ask,
            size: quotes.no_ask_size,
        },
    );
    assert(slot_views(slots@) =~= aim);
    let mut out: Vec<Command> = Vec::new();
    let mut kept: Vec<bool> = Vec::new();
    let mut i: usize = 0;
    assert(all.subrange(0, 0) =~= Seq::<LiveOrderView>::empty());
    assert(command_views(out@) =~= Seq::<CommandView>::empty());
    while i < existing.len()
        invariant
            i <= existing@.len(),
            kept@.len() == i,
            all == order_manager::views(existing@),
            aim == slot_views(slots@),
            command_views(out@) == stale_commands(all.subrange(0, i as int), aim, tick_size),
            forall|k: int|
                0 <= k < i ==> #[trigger] kept@[k] == is_kept(existing@[k]@, aim, tick_size),
        decreases existing@.len() - i,
    {
        proof {
            assert(all.subrange(0, i + 1).drop_last() =~= all.subrange(0, i as int));
            assert(all[i as int] == existing@[i as int]@);
        }
        let keep: bool = keeps(&existing[i], &slots, tick_size);
        if !keep {
            let ghost before: Seq<Command> = out@;
            out.push(Command::Cancel { order_id: existing[i].order_id.clone() });
            assert(command_views(out@) =~= command_views(before).push(out@.last()@));
        }
        kept.push(keep);
        i = i + 1;
    }
    assert(all.subrange(0, i as int) =~= all);
    let ghost stale: Seq<CommandView> = command_views(out@);
    let zero: Double = Double::ratio(0, 1);
    let mut k: usize = 0;
    assert(stale + Seq::<CommandView>::empty() =~= stale);
    while k < slots.len()
        invariant
            k <= slots@.len(),
            zero == Double::ratio(0, 1),
            kept@.len() == existing@.len(),
            all == order_manager::views(existing@),
            aim == slot_views(slots@),
            forall|j: int|
                0 <= j < existing@.len() ==> #[trigger] kept@[j] == is_kept(
                    existing@[j]@,
                    aim,
                    tick_size,
                ),
            command_views(out@) == stale + due_commands(
                all,
                aim,
                tick_size,
                condition_id@,
                market_db_id,
                k as nat,
            ),
        decreases slots@.len() - k,
    {
        assert(aim[k as int] == slot_view(slots@[k as int]));
        let slot: &Slot = &slots[k];
        if !slot.size.le(zero) && !slot.price.le(zero) && !covers(
            existing,
            &kept,
            &slots,
            tick_size,
            slot,
        ) {
            let ghost before: Seq<Command> = out@;
            out.push(
                Command::Post(
                    OrderRequest {
                        token_id: slot.token_id.to_string(),
                        condition_id: condition_id.to_string(),
                        side: slot.side.to_string(),
                        price: slot.price,
                        size: slot.size,
                        strategy: "quoting".to_string(),
                        market_db_id,
                    },
                ),
            );
            proof {
                assert(out@.last()@ == CommandView::Post(
                    slot_request(aim[k as int], condition_id@, market_db_id),
                ));
                assert(command_views(out@) =~= command_views(before).push(out@.last()@));
                assert(is_due(all, aim, tick_size, aim[k as int]));
                assert(command_views(out@) =~= stale + due_commands(
                    all,
                    aim,
                    tick_size,
                    condition_id@,
                    market_db_id,
                    (k + 1) as nat,
                ));
            }
        }
        k = k + 1;
    }
    out
}

/// The steps that carry out a decision.
pub open spec fn action_commands(
    action: StrategyAction,
    market: MarketContextView,
    orders: Seq<LiveOrderView>,
) -> Seq<CommandView> {
    match action {
        StrategyAction::PostQuotes(quotes) => quote_commands(
            orders,
            wanted(market.yes_token_id, market.no_token_id, quotes),
            market.tick_size,
            market.condition_id,
            db_id(market),
        ),
        StrategyAction::PostArticle(order) => seq![
            CommandView::Publish(
                BotEventView::ArticleFired {
                    condition_id: market.condition_id,
                    direction: order.direction@,
                    price: order.price,
                    size: order.size,
                    conviction: order.conviction,
                },
            ),
            CommandView::CancelMarket { condition_id: market.condition_id },
            CommandView::Post(
                OrderRequestView {
                    token_id: if order.direction@ == "UP"@ {
                        market.yes_token_id
                    } else {
                        market.no_token_id
                    },
                    condition_id: market.condition_id,
                    side: "BUY"@,
                    price: order.price,
                    size: order.size,
                    strategy: "article"@,
                    market_db_id: db_id(market),
                },
            ),
        ],
        StrategyAction::CancelAll => seq![
            CommandView::CancelMarket { condition_id: market.condition_id },
        ],
        StrategyAction::Withdraw => seq![
            CommandView::CancelMarket { condition_id: market.condition_id },
        ],
        StrategyAction::Hold => Seq::empty(),
    }
}

/// The steps that carry out a decision; `existing` are the live orders of the market.
pub fn action_steps(
    action: &StrategyAction,
    market: &MarketContext,
    existing: &Vec<LiveOrder>,
) -> (r: Vec<Command>)
    ensures
        command_views(r@) == action_commands(
            *action,
            market@,
            order_manager::views(existing@),
        ),
{
    let mut out: Vec<Command> = Vec::new();
    match action {
        StrategyAction::PostQuotes(quotes) => {
            return execute_quote_update(
                existing,
                market.condition_id.as_str(),
                market.yes_token_id.as_str(),
                market.no_token_id.as_str(),
                db_number(market),
                quotes,
                market.tick_size,
            );
        },
        StrategyAction::PostArticle(order) => {
            out.push(
                Command::Publish(
                    BotEvent::ArticleFired {
                        condition_id: market.condition_id.clone(),
                        direction: order.direction.clone(),
                        price: order.price,
                        size: order.size,
                        conviction: order.conviction,
                    },
                ),
            );
            out.push(Command::CancelMarket { condition_id: market.condition_id.clone() });
            let token_id: String = if text::same(order.direction.as_str(), "UP") {
                market.yes_token_id.clone()
            } else {
                market.no_token_id.clone()
            };
            out.push(
                Command::Post(
                    OrderRequest {
                        token_id,
                        condition_id: market.condition_id.clone(),
                        side: "BUY".to_string(),
                        price: order.price,
                        size: order.size,
                        strategy: "article".to_string(),
                        market_db_id: db_number(market),
                    },
                ),
            );
        },
        StrategyAction::CancelAll | StrategyAction::Withdraw => {
            out.push(Command::CancelMarket { condition_id: market.condition_id.clone() });
        },
        StrategyAction::Hold => {},
    }
    assert(command_views(out@) =~= action_commands(
        *action,
        market@,
        order_manager::views(existing@),
    ));
    out
}

/// What a cycle asks for.
#[derive(Debug)]
pub struct CyclePlan {
    /// Whether this was the last cycle of the market.
    pub finished: bool,
    /// The steps, in the order in which they are to be taken.
    pub commands: Vec<Command>,
}

/// Whether a market needs no more cycles.
pub open spec fn is_done(state: MarketState) -> bool {
    state is Settlement || state is Withdrawn
}

/// The book of a token, or an empty one.
pub open spec fn book_or_empty(
    books: Map<Seq<char>, OrderBookView>,
    token_id: Seq<char>,
) -> OrderBookView {
    if books.contains_key(token_id) {
        books[token_id]
    } else {
        OrderBookView::empty(token_id)
    }
}

fn read_book(feed_hub: &FeedHub, token_id: &String) -> (r: OrderBook)
    ensures
        r@ == book_or_empty(feed_hub.polymarket.contents(), token_id@),
{
    match feed_hub.get_book(token_id.as_str()) {
        Some(book) => book,
        None => OrderBook::empty(token_id.clone()),
    }
}

/// What a cycle makes of a market and of what is remembered of its edges, and the steps that
/// it asks for.
pub struct CycleView {
    pub finished: bool,
    pub market: MarketContextView,
    pub edges: EdgeTracker,
    pub commands: Seq<CommandView>,
}

/// What is remembered of a market's edges, with what is held of its tokens now.
pub open spec fn with_holdings(
    edges: EdgeTracker,
    market: MarketContextView,
    positions: Map<Seq<char>, TokenPositionView>,
) -> EdgeTracker {
    EdgeTracker {
        up_shares: tracker::shares_held(positions, market.yes_token_id),
        dn_shares: tracker::shares_held(positions, market.no_token_id),
        ..edges
    }
}

/// A cycle of a market. One that is done has its orders cancelled, and that is the last cycle.
/// Otherwise the prices are looked at; where orders are placed on an edge, that is all, and
/// otherwise the market moves on.
pub open spec fn cycle(
    market: MarketContextView,
    edges: EdgeTracker,
    books: Map<Seq<char>, OrderBookView>,
    positions: Map<Seq<char>, TokenPositionView>,
    halted: bool,
    arb: ArbConfig,
    now: Double,
    now_ns: u64,
) -> CycleView {
    let cancel = CommandView::CancelMarket { condition_id: market.condition_id };
    if is_done(market.state) {
        CycleView { finished: true, market, edges, commands: seq![cancel] }
    } else {
        let yes = book_or_empty(books, market.yes_token_id);
        let no = book_or_empty(books, market.no_token_id);
        let secs_left = engine::time_left(market.end_time, now);
        let known = with_holdings(edges, market, positions);
        let (after, found) = watched(known, tops(yes, no), arb, secs_left, now_ns);
        if found is Place {
            CycleView {
                finished: false,
                market,
                edges: after,
                commands: arb_commands(market, tops(yes, no), arb.order_size_usd),
            }
        } else {
            let (state, cancels) = engine::next_state(market.state, halted, secs_left);
            CycleView {
                finished: false,
                market: MarketContextView { state, ..market },
                edges: after,
                commands: (if found is Report {
                    seq![CommandView::Publish(edge_event(market, yes, no, secs_left))]
                } else {
                    Seq::empty()
                }) + (if cancels {
                    seq![cancel]
                } else {
                    Seq::empty()
                }),
            }
        }
    }
}

/// Runs a cycle of a market.
pub fn run_cycle(
    market: &mut MarketContext,
    edges: &mut EdgeTracker,
    feed_hub: &FeedHub,
    strategy_engine: &StrategyEngine,
    order_manager: &OrderManager,
    position_tracker: &PositionTracker,
    arb: &ArbConfig,
    now: Double,
    now_ns: u64,
) -> (r: CyclePlan)
    ensures
        ({
            let c = cycle(
                old(market)@,
                *old(edges),
                feed_hub.polymarket.contents(),
                position_tracker.contents(),
                strategy_engine.risk.halted,
                *arb,
                now,
                now_ns,
            );
            &&& final(market)@ == c.market
            &&& *final(edges) == c.edges
            &&& r.finished == c.finished
            &&& command_views(r.commands@) == c.commands
        }),
{
    let mut commands: Vec<Command> = Vec::new();
    assert(command_views(commands@) =~= Seq::<CommandView>::empty());
    if market.state == MarketState::Settlement || market.state == MarketState::Withdrawn {
        commands.push(Command::CancelMarket { condition_id: market.condition_id.clone() });
        assert(command_views(commands@) =~= seq![
            CommandView::CancelMarket { condition_id: market@.condition_id },
        ]);
        return CyclePlan { finished: true, commands };
    }
    let oracle: OracleSnapshot = feed_hub.oracle_snapshot(market.asset.as_str(), now);
    let yes_book: OrderBook = read_book(feed_hub, &market.yes_token_id);
    let no_book: OrderBook = read_book(feed_hub, &market.no_token_id);
    let prices: TopPrices = TopPrices {
        yes_bid: yes_book.best_bid(),
        yes_ask: yes_book.best_ask(),
        no_bid: no_book.best_bid(),
        no_ask: no_book.best_ask(),
    };
    let secs_left: Double = market.seconds_until_close(now);
    edges.up_shares = position_tracker.shares_of(market.yes_token_id.as_str());
    edges.dn_shares = position_tracker.shares_of(market.no_token_id.as_str());
    match watch(edges, prices, arb, secs_left, now_ns) {
        Finding::Place => {
            return CyclePlan {
                finished: false,
                commands: arb_steps(market, prices, arb.order_size_usd),
            };
        },
        Finding::Report => {
            let combined: Double = prices.yes_ask.plus(prices.no_ask);
            commands.push(
                Command::Publish(
                    BotEvent::NegVigDetected {
                        condition_id: market.condition_id.clone(),
                        asset: market.asset.clone(),
                        timeframe: market.timeframe.clone(),
                        yes_ask: prices.yes_ask,
                        no_ask: prices.no_ask,
                        combined,
                        edge_cents: Double::ratio(1, 1).minus(combined),
                        yes_depth: yes_book.top_ask_size(),
                        no_depth: no_book.top_ask_size(),
                        secs_left,
                    },
                ),
            );
            assert(command_views(commands@) =~= seq![
                CommandView::Publish(edge_event(market@, yes_book@, no_book@, secs_left)),
            ]);
        },
        Finding::Nothing => {},
    }
    let ghost first: Seq<Command> = commands@;
    let inventory: MarketInventory = position_tracker.get_inventory(market.condition_id.as_str());
    let action: StrategyAction = strategy_engine.process_market(
        market,
        &oracle,
        &yes_book,
        &inventory,
        now,
    );
    let existing: Vec<LiveOrder> = order_manager.get_market_orders(market.condition_id.as_str());
    let mut more: Vec<Command> = action_steps(&action, market, &existing);
    let ghost added: Seq<Command> = more@;
    commands.append(&mut more);
    proof {
        assert(commands@ =~= first + added);
        assert(command_views(commands@) =~= command_views(first) + command_views(added));
    }
    CyclePlan { finished: false, commands }
}

/// The pause after a cycle that took so many nanoseconds: what is left of its length, if
/// anything is.
pub fn pause_after(elapsed_ns: u64) -> (r: Option<u64>)
    ensures
        r == if elapsed_ns < CYCLE {
            Some((CYCLE - elapsed_ns) as u64)
        } else {
            None
        },
{
    if elapsed_ns < CYCLE {
        Some(CYCLE - elapsed_ns)
    } else {
        None
    }
}

/// What ends a wait between two cycles.
#[derive(Clone, Copy, Debug, PartialEq, Eq, Structural)]
pub enum PauseEvent {
    /// A feed has something new.
    FeedUpdate,
    /// The time is up.
    Timeout,
}

/// What is left to wait after an event, with so many nanoseconds gone since the cycle started: a
/// feed update starts the next cycle at once.
pub open spec fn spec_pause(elapsed_ns: u64, event: PauseEvent) -> Option<u64> {
    match event {
        PauseEvent::FeedUpdate => None,
        PauseEvent::Timeout => if elapsed_ns < CYCLE {
            Some((CYCLE - elapsed_ns) as u64)
        } else {
            None
        },
    }
}

/// What is left to wait after an event.
pub fn pause_left(elapsed_ns: u64, event: PauseEvent) -> (r: Option<u64>)
    ensures
        r == spec_pause(elapsed_ns, event),
{
    match event {
        PauseEvent::FeedUpdate => None,
        PauseEvent::Timeout => pause_after(elapsed_ns),
    }
}

/// Whether a cycle took longer than it is meant to.
pub fn is_slow(elapsed_ns: u64) -> (r: bool)
    ensures
        r == (elapsed_ns > TARGET),
{
    elapsed_ns > TARGET
}

/// Seconds for which an edge lasted.
pub fn window_seconds(start: Option<u64>, now_ns: u64) -> (r: u64)
    ensures
        r == match start {
            Some(from) => if from <= now_ns {
                ((now_ns - from) as int / 1_000_000_000) as u64
            } else {
                0
            },
            None => 0,
        },
{
    match start {
        Some(from) => if from <= now_ns {
            (now_ns - from) / 1_000_000_000
        } else {
            0
        },
        None => 0,
    }
}

/// A look at the prices while an edge lasts: they stay tradeable and the edge stays above the
/// minimum.
pub open spec fn edge_lasts(looks: Seq<(TopPrices, Double, u64)>, arb: ArbConfig) -> bool {
    forall|i: int|
        0 <= i < looks.len() ==> (#[trigger] looks[i]).0.is_real()
            && arb.min_alert_edge_cents.lt(looks[i].0.maker_cents())
}

/// What is remembered after a row of looks.
pub open spec fn after_looks(
    t: EdgeTracker,
    looks: Seq<(TopPrices, Double, u64)>,
    arb: ArbConfig,
) -> EdgeTracker
    decreases looks.len(),
{
    if looks.len() == 0 {
        t
    } else {
        let last = looks.last();
        watched(after_looks(t, looks.drop_last(), arb), last.0, arb, last.1, last.2).0
    }
}

proof fn lemma_placed_stays(
    t: EdgeTracker,
    looks: Seq<(TopPrices, Double, u64)>,
    arb: ArbConfig,
)
    requires
        t.maker_edge_active,
        t.arb_orders_placed,
        edge_lasts(looks, arb),
    ensures
        after_looks(t, looks, arb).maker_edge_active,
        after_looks(t, looks, arb).arb_orders_placed,
    decreases looks.len(),
{
    if looks.len() > 0 {
        let front = looks.drop_last();
        assert(edge_lasts(front, arb)) by {
            assert forall|i: int| 0 <= i < front.len() implies (#[trigger] front[i]).0.is_real()
                && arb.min_alert_edge_cents.lt(front[i].0.maker_cents()) by {
                assert(front[i] == looks[i]);
            }
        }
        assert(looks[looks.len() - 1] == looks.last());
        lemma_placed_stays(t, front, arb);
    }
}

/// Orders are placed at most once for each time that an edge appears: after they were, no look
/// places any as long as the edge lasts.
pub proof fn one_placement_per_edge(
    t: EdgeTracker,
    first: (TopPrices, Double, u64),
    looks: Seq<(TopPrices, Double, u64)>,
    next: (TopPrices, Double, u64),
    arb: ArbConfig,
)
    requires
        watched(t, first.0, arb, first.1, first.2).1 is Place,
        edge_lasts(looks.push(next), arb),
    ensures
        !(watched(
            after_looks(watched(t, first.0, arb, first.1, first.2).0, looks, arb),
            next.0,
            arb,
            next.1,
            next.2,
        ).1 is Place),
{
    let placed = watched(t, first.0, arb, first.1, first.2).0;
    let all = looks.push(next);
    assert(all[looks.len() as int] == next);
    assert(edge_lasts(looks, arb)) by {
        assert forall|i: int| 0 <= i < looks.len() implies (#[trigger] looks[i]).0.is_real()
            && arb.min_alert_edge_cents.lt(looks[i].0.maker_cents()) by {
            assert(all[i] == looks[i]);
        }
    }
    lemma_placed_stays(placed, looks, arb);
}

/// Orders are placed only on a tradeable book, on an edge above the minimum, with more than a
/// minute left and not in monitoring mode; each is for at least one share, and costs no more than
/// the money for its side.
pub proof fn placement_is_justified(
    t: EdgeTracker,
    prices: TopPrices,
    arb: ArbConfig,
    secs_left: Double,
    now_ns: u64,
)
    requires
        watched(t, prices, arb, secs_left, now_ns).1 is Place,
    ensures
        prices.is_real(),
        arb.min_alert_edge_cents.lt(prices.maker_cents()),
        Double::ratio(60, 1).lt(secs_left),
        !arb.monitor_only,
        Double::ratio(1, 1).le(shares_for(arb.order_size_usd, prices.yes_bid)),
        Double::ratio(1, 1).le(shares_for(arb.order_size_usd, prices.no_bid)),
        prices.yes_bid.times(shares_for(arb.order_size_usd, prices.yes_bid)).le(
            arb.order_size_usd,
        ),
        prices.no_bid.times(shares_for(arb.order_size_usd, prices.no_bid)).le(arb.order_size_usd),
{
}

/// The same prices are not reported twice in a row.
pub proof fn report_once(
    t: EdgeTracker,
    prices: TopPrices,
    arb: ArbConfig,
    secs_left: Double,
    now_ns: u64,
    later: Double,
    later_ns: u64,
)
    requires
        watched(t, prices, arb, secs_left, now_ns).1 is Report,
    ensures
        !(watched(
            watched(t, prices, arb, secs_left, now_ns).0,
            prices,
            arb,
            later,
            later_ns,
        ).1 is Report),
{
    laws::lemma_ratio(1, 1000);
    laws::lemma_ratio(0, 1);
    order::no_distance_to_itself(prices.yes_bid);
    order::no_distance_to_itself(prices.no_bid);
    order::no_distance_to_itself(prices.yes_ask);
    order::no_distance_to_itself(prices.no_ask);
    assert(!prices.moved_from(watched(t, prices, arb, secs_left, now_ns).0));
}

/// Every order of a market is either kept or cancelled, and none that is kept is cancelled.
pub proof fn kept_or_cancelled(
    orders: Seq<LiveOrderView>,
    slots: Seq<SlotView>,
    tick_size: Double,
    k: int,
)
    requires
        0 <= k < orders.len(),
    ensures
        !is_kept(orders[k], slots, tick_size) ==> stale_commands(
            orders,
            slots,
            tick_size,
        ).contains(CommandView::Cancel { order_id: orders[k].order_id }),
        (forall|j: int|
            0 <= j < orders.len() && j != k ==> (#[trigger] orders[j]).order_id
                != orders[k].order_id) && is_kept(orders[k], slots, tick_size)
            ==> !stale_commands(orders, slots, tick_size).contains(
            CommandView::Cancel { order_id: orders[k].order_id },
        ),
    decreases orders.len(),
{
    let front = orders.drop_last();
    let all = stale_commands(orders, slots, tick_size);
    let before = stale_commands(front, slots, tick_size);
    let c = CommandView::Cancel { order_id: orders[k].order_id };
    if k < front.len() {
        assert(front[k] == orders[k]);
        kept_or_cancelled(front, slots, tick_size, k);
        if before.contains(c) {
            let m = choose|m: int| 0 <= m < before.len() && before[m] == c;
            assert(all[m] == c);
        }
        if all.contains(c) && !before.contains(c) {
            let m = choose|m: int| 0 <= m < all.len() && all[m] == c;
            if m < before.len() {
                assert(before[m] == c);
            }
            assert(orders[orders.len() - 1].order_id == orders[k].order_id);
        }
        if forall|j: int|
            0 <= j < orders.len() && j != k ==> (#[trigger] orders[j]).order_id
                != orders[k].order_id {
            assert forall|j: int|
                0 <= j < front.len() && j != k implies (#[trigger] front[j]).order_id
                != front[k].order_id by {
                assert(front[j] == orders[j]);
            }
        }
    } else {
        if !is_kept(orders[k], slots, tick_size) {
            assert(all[all.len() - 1] == c);
        } else if forall|j: int|
            0 <= j < orders.len() && j != k ==> (#[trigger] orders[j]).order_id
                != orders[k].order_id {
            lemma_cancels_are_stale(front, slots, tick_size);
            if all.contains(c) {
                let m = choose|m: int| 0 <= m < all.len() && all[m] == c;
                let j = choose|j: int|
                    0 <= j < front.len() && before[m] == (CommandView::Cancel {
                        order_id: (#[trigger] front[j]).order_id,
                    });
                assert(orders[j] == front[j]);
            }
        }
    }
}

/// Each cancellation names an order of the list.
pub proof fn lemma_cancels_are_stale(
    orders: Seq<LiveOrderView>,
    slots: Seq<SlotView>,
    tick_size: Double,
)
    ensures
        forall|m: int|
            0 <= m < stale_commands(orders, slots, tick_size).len() ==> exists|j: int|
                0 <= j < orders.len() && #[trigger] stale_commands(orders, slots, tick_size)[m]
                    == (CommandView::Cancel { order_id: (#[trigger] orders[j]).order_id }),
    decreases orders.len(),
{
    if orders.len() > 0 {
        let front = orders.drop_last();
        lemma_cancels_are_stale(front, slots, tick_size);
        let all = stale_commands(orders, slots, tick_size);
        let before = stale_commands(front, slots, tick_size);
        assert forall|m: int| 0 <= m < all.len() implies exists|j: int|
            0 <= j < orders.len() && #[trigger] all[m] == (CommandView::Cancel {
                order_id: (#[trigger] orders[j]).order_id,
            }) by {
            if m < before.len() {
                let j = choose|j: int|
                    0 <= j < front.len() && before[m] == (CommandView::Cancel {
                        order_id: (#[trigger] front[j]).order_id,
                    });
                assert(all[m] == before[m]);
                assert(orders[j] == front[j]);
            } else {
                assert(orders[orders.len() - 1] == orders.last());
            }
        }
    }
}

/// Every quote with a price and a size above zero is covered by an order that is kept, or is
/// posted; and one that is covered is not posted on its own account.
pub proof fn quotes_are_met(
    orders: Seq<LiveOrderView>,
    slots: Seq<SlotView>,
    tick_size: Double,
    condition_id: Seq<char>,
    market_db_id: i64,
    n: nat,
    i: int,
)
    requires
        0 <= i < n <= slots.len(),
        Double::ratio(0, 1).lt(slots[i].size),
        Double::ratio(0, 1).lt(slots[i].price),
    ensures
        is_covered(orders, slots, tick_size, slots[i]) || due_commands(
            orders,
            slots,
            tick_size,
            condition_id,
            market_db_id,
            n,
        ).contains(CommandView::Post(slot_request(slots[i], condition_id, market_db_id))),
        is_covered(orders, slots, tick_size, slots[i]) ==> !is_due(
            orders,
            slots,
            tick_size,
            slots[i],
        ),
    decreases n,
{
    let all = due_commands(orders, slots, tick_size, condition_id, market_db_id, n);
    let c = CommandView::Post(slot_request(slots[i], condition_id, market_db_id));
    if !is_covered(orders, slots, tick_size, slots[i]) {
        if i < n - 1 {
            let m = (n - 1) as nat;
            quotes_are_met(orders, slots, tick_size, condition_id, market_db_id, m, i);
            let before = due_commands(orders, slots, tick_size, condition_id, market_db_id, m);
            let k = choose|k: int| 0 <= k < before.len() && before[k] == c;
            assert(all[k] == c);
        } else {
            assert(is_due(orders, slots, tick_size, slots[i]));
            assert(all[all.len() - 1] == c);
        }
    }
}

/// Whether an order is the one that was posted for a quote.
pub open spec fn posts(order: LiveOrderView, slot: SlotView) -> bool {
    stands_for(order, slot) && order.price == slot.price
}

/// Whether `later` are the orders of a market after the steps towards the wanted quotes were
/// carried out: those that were kept, and one that was accepted for each quote that was due.
pub open spec fn carried_out(
    orders: Seq<LiveOrderView>,
    later: Seq<LiveOrderView>,
    slots: Seq<SlotView>,
    tick_size: Double,
) -> bool {
    &&& forall|k: int|
        0 <= k < orders.len() && is_kept(#[trigger] orders[k], slots, tick_size) ==> later.contains(
            orders[k],
        )
    &&& forall|i: int|
        0 <= i < slots.len() && is_due(orders, slots, tick_size, #[trigger] slots[i])
            ==> exists|k: int| 0 <= k < later.len() && posts(#[trigger] later[k], slots[i])
    &&& forall|k: int|
        0 <= k < later.len() ==> (orders.contains(#[trigger] later[k]) && is_kept(
            later[k],
            slots,
            tick_size,
        )) || exists|i: int| 0 <= i < slots.len() && posts(later[k], #[trigger] slots[i])
}

/// Where all orders are kept, none is cancelled.
proof fn lemma_none_stale(orders: Seq<LiveOrderView>, slots: Seq<SlotView>, tick_size: Double)
    requires
        forall|k: int| 0 <= k < orders.len() ==> is_kept(#[trigger] orders[k], slots, tick_size),
    ensures
        stale_commands(orders, slots, tick_size).len() == 0,
    decreases orders.len(),
{
    if orders.len() > 0 {
        let front = orders.drop_last();
        assert forall|k: int| 0 <= k < front.len() implies is_kept(
            #[trigger] front[k],
            slots,
            tick_size,
        ) by {
            assert(front[k] == orders[k]);
        }
        lemma_none_stale(front, slots, tick_size);
        assert(is_kept(orders[orders.len() - 1], slots, tick_size));
    }
}

/// Where no quote is due, none is posted.
proof fn lemma_none_due(
    orders: Seq<LiveOrderView>,
    slots: Seq<SlotView>,
    tick_size: Double,
    condition_id: Seq<char>,
    market_db_id: i64,
    n: nat,
)
    requires
        n <= slots.len(),
        forall|i: int|
            0 <= i < slots.len() ==> !is_due(orders, slots, tick_size, #[trigger] slots[i]),
    ensures
        due_commands(orders, slots, tick_size, condition_id, market_db_id, n).len() == 0,
    decreases n,
{
    if n > 0 {
        lemma_none_due(orders, slots, tick_size, condition_id, market_db_id, (n - 1) as nat);
        assert(!is_due(orders, slots, tick_size, slots[n - 1]));
    }
}

/// Once the steps towards the wanted quotes were carried out, the same quotes ask for nothing
/// more: no order is cancelled and none is posted.
pub proof fn second_update_is_quiet(
    orders: Seq<LiveOrderView>,
    later: Seq<LiveOrderView>,
    yes_token_id: Seq<char>,
    no_token_id: Seq<char>,
    quotes: QuoteSet,
    tick_size: Double,
    condition_id: Seq<char>,
    market_db_id: i64,
)
    requires
        yes_token_id != no_token_id,
        !tick_size.lt(Double::ratio(0, 1)),
        carried_out(orders, later, wanted(yes_token_id, no_token_id, quotes), tick_size),
    ensures
        quote_commands(
            later,
            wanted(yes_token_id, no_token_id, quotes),
            tick_size,
            condition_id,
            market_db_id,
        ) == Seq::<CommandView>::empty(),
{
    let slots = wanted(yes_token_id, no_token_id, quotes);
    reveal_strlit("BUY");
    reveal_strlit("SELL");
    assert("BUY"@.len() != "SELL"@.len());
    assert forall|k: int, i: int|
        0 <= k < later.len() && 0 <= i < slots.len() && posts(
            #[trigger] later[k],
            #[trigger] slots[i],
        ) implies is_kept(later[k], slots, tick_size) by {
        order::no_distance_to_itself(slots[i].price);
        laws::lemma_ratio(0, 1);
        assert forall|j: int| 0 <= j < i implies !stands_for(later[k], #[trigger] slots[j]) by {
            assert(slots[j].token_id != slots[i].token_id || slots[j].side != slots[i].side);
        }
        assert(is_slot_of(later[k], slots, i));
    }
    assert forall|k: int| 0 <= k < later.len() implies is_kept(
        #[trigger] later[k],
        slots,
        tick_size,
    ) by {
        if !(orders.contains(later[k]) && is_kept(later[k], slots, tick_size)) {
            let i = choose|i: int| 0 <= i < slots.len() && posts(later[k], #[trigger] slots[i]);
            assert(posts(later[k], slots[i]));
        }
    }
    lemma_none_stale(later, slots, tick_size);
    assert forall|i: int| 0 <= i < slots.len() implies !is_due(
        later,
        slots,
        tick_size,
        #[trigger] slots[i],
    ) by {
        let slot = slots[i];
        if is_covered(orders, slots, tick_size, slot) {
            let k = choose|k: int|
                0 <= k < orders.len() && is_kept(#[trigger] orders[k], slots, tick_size)
                    && stands_for(orders[k], slot);
            assert(later.contains(orders[k]));
            let m = choose|m: int| 0 <= m < later.len() && later[m] == orders[k];
            assert(is_kept(later[m], slots, tick_size));
        } else if is_due(orders, slots, tick_size, slots[i]) {
            let k = choose|k: int| 0 <= k < later.len() && posts(#[trigger] later[k], slots[i]);
            assert(is_kept(later[k], slots, tick_size));
        }
    }
    lemma_none_due(later, slots, tick_size, condition_id, market_db_id, slots.len());
    assert(quote_commands(later, slots, tick_size, condition_id, market_db_id) =~= Seq::<
        CommandView,
    >::empty());
}

/// An amount of money that pays for a share buys at least one, and what it buys never costs more
/// than it.
pub proof fn a_share_is_bought(usd: Double, price: Double)
    requires
        Double::ratio(0, 1).lt(price),
        price.le(usd),
        usd.is_finite(),
        usd.over(price).lt(Double::from_nat(0x20_0000_0000_0000)),
    ensures
        affords(usd, price),
        Double::ratio(1, 1).le(shares_for(usd, price)),
        price.times(shares_for(usd, price)).le(usd),
{
    let n = integers::goes_into(usd, price);
    integers::one_less(n);
    if n >= 2 {
        integers::one_less((n - 1) as u64);
    }
}

/// Between the start of a cycle and that of the next passes no more than a cycle's length, where
/// the cycle itself took no longer; and a feed update is never waited out.
pub proof fn cycles_keep_time(elapsed_ns: u64)
    requires
        elapsed_ns <= CYCLE,
    ensures
        spec_pause(elapsed_ns, PauseEvent::FeedUpdate) is None,
        elapsed_ns + (match spec_pause(elapsed_ns, PauseEvent::Timeout) {
            Some(pause) => pause,
            None => 0,
        }) == CYCLE,
{
}

/// A market that is done has its orders cancelled in its last cycle, and nothing else happens.
pub proof fn last_cycle_cancels(
    market: MarketContextView,
    edges: EdgeTracker,
    books: Map<Seq<char>, OrderBookView>,
    positions: Map<Seq<char>, TokenPositionView>,
    halted: bool,
    arb: ArbConfig,
    now: Double,
    now_ns: u64,
)
    ensures
        ({
            let c = cycle(market, edges, books, positions, halted, arb, now, now_ns);
            &&& c.finished <==> is_done(market.state)
            &&& c.finished ==> c.commands == seq![
                CommandView::CancelMarket { condition_id: market.condition_id },
            ] && c.market == market && c.edges == edges
        }),
{
}

/// Where a share or more of either token is held, a cycle places no order.
pub proof fn held_market_places_nothing(
    market: MarketContextView,
    edges: EdgeTracker,
    books: Map<Seq<char>, OrderBookView>,
    positions: Map<Seq<char>, TokenPositionView>,
    halted: bool,
    arb: ArbConfig,
    now: Double,
    now_ns: u64,
    i: int,
)
    requires
        Double::ratio(1, 1).le(tracker::shares_held(positions, market.yes_token_id))
            || Double::ratio(1, 1).le(tracker::shares_held(positions, market.no_token_id)),
        0 <= i < cycle(market, edges, books, positions, halted, arb, now, now_ns).commands.len(),
    ensures
        !(cycle(market, edges, books, positions, halted, arb, now, now_ns).commands[i] is Post),
{
}

/// While trading is halted, a market that is only monitored is withdrawn in its next cycle: its
/// orders are cancelled and none is posted.
pub proof fn halted_market_withdraws(
    market: MarketContextView,
    edges: EdgeTracker,
    books: Map<Seq<char>, OrderBookView>,
    positions: Map<Seq<char>, TokenPositionView>,
    arb: ArbConfig,
    now: Double,
    now_ns: u64,
)
    requires
        !is_done(market.state),
        arb.monitor_only,
    ensures
        ({
            let c = cycle(market, edges, books, positions, true, arb, now, now_ns);
            &&& c.market.state is Withdrawn
            &&& c.commands.last() == (CommandView::CancelMarket {
                condition_id: market.condition_id,
            })
            &&& forall|i: int| 0 <= i < c.commands.len() ==> !(#[trigger] c.commands[i] is Post)
        }),
{
}

} // verus!

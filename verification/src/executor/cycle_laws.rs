//! What a cycle of a market does, told by the books, the positions and the settings that go in
//! and the steps that come out.

use vstd::arithmetic::power2::*;
use vstd::prelude::*;

use super::cancel_replace;
use super::cancel_replace::{CommandView, EdgeTracker, OrderRequestView};
use crate::config::ArbConfig;
use crate::double::{integers, laws, value, Double};
use crate::events::bus::BotEventView;
use crate::feeds::types::OrderBookView;
use crate::position::tracker::TokenPositionView;
use crate::strategy::engine::{MarketContextView, MarketState};

verus! {

/// What goes into a cycle.
pub struct CycleInput {
    pub market: MarketContextView,
    pub edges: EdgeTracker,
    pub books: Map<Seq<char>, OrderBookView>,
    pub positions: Map<Seq<char>, TokenPositionView>,
    pub halted: bool,
    pub arb: ArbConfig,
    pub now: Double,
    pub now_ns: u64,
}

impl CycleInput {
    /// The cycle.
    pub open spec fn result(self) -> cancel_replace::CycleView {
        cancel_replace::cycle(
            self.market,
            self.edges,
            self.books,
            self.positions,
            self.halted,
            self.arb,
            self.now,
            self.now_ns,
        )
    }

    /// Whether a token has a book with prices that can be traded: a bid of ten cents or more and
    /// an ask of 90 or less.
    pub open spec fn is_tradeable(self, token: Seq<char>) -> bool {
        &&& self.books.contains_key(token)
        &&& self.books[token].bids.len() > 0
        &&& self.books[token].asks.len() > 0
        &&& Double::ratio(10, 100).le(self.books[token].bids[0].price)
        &&& Double::ratio(0, 1).lt(self.books[token].asks[0].price)
        &&& self.books[token].asks[0].price.le(Double::ratio(90, 100))
    }

    /// Whether both tokens can be traded.
    pub open spec fn both_tradeable(self) -> bool {
        self.is_tradeable(self.market.yes_token_id) && self.is_tradeable(self.market.no_token_id)
    }

    /// The best bid for a token that has one.
    pub open spec fn bid(self, token: Seq<char>) -> Double {
        self.books[token].bids[0].price
    }

    /// The best ask for a token that has one.
    pub open spec fn ask(self, token: Seq<char>) -> Double {
        self.books[token].asks[0].price
    }

    /// Whether two prices together are below a dollar by more cents than the minimum.
    pub open spec fn is_edge(self, yes: Double, no: Double) -> bool {
        self.arb.min_alert_edge_cents.lt(
            Double::ratio(1, 1).minus(yes.plus(no)).times(Double::ratio(100, 1)),
        )
    }

    /// Whether the bids of both tokens leave an edge.
    pub open spec fn has_maker_edge(self) -> bool {
        self.is_edge(self.bid(self.market.yes_token_id), self.bid(self.market.no_token_id))
    }

    /// Whether the asks of both tokens leave an edge.
    pub open spec fn has_taker_edge(self) -> bool {
        self.is_edge(self.ask(self.market.yes_token_id), self.ask(self.market.no_token_id))
    }

    /// Whether less than a share of a token is held.
    pub open spec fn is_free(self, token: Seq<char>) -> bool {
        self.positions.contains_key(token) ==> self.positions[token].shares.lt(
            Double::ratio(1, 1),
        )
    }

    /// Whether there is every reason to buy both tokens, but for the money.
    pub open spec fn is_called_for(self) -> bool {
        &&& !(self.market.state is Settlement) && !(self.market.state is Withdrawn)
        &&& self.both_tradeable()
        &&& self.has_maker_edge()
        &&& !self.arb.monitor_only
        &&& Double::ratio(60, 1).lt(self.market.end_time.minus(self.now))
        &&& self.is_free(self.market.yes_token_id)
        &&& self.is_free(self.market.no_token_id)
        &&& self.edges.maker_edge_active ==> !self.edges.arb_orders_placed
    }

    /// Whether a best price differs from what is remembered of it by more than a tenth of a cent.
    pub open spec fn has_moved(self) -> bool {
        let step = Double::ratio(1, 1000);
        let yes = self.market.yes_token_id;
        let no = self.market.no_token_id;
        ||| step.lt(self.bid(yes).minus(self.edges.last_yes_bid).abs())
        ||| step.lt(self.bid(no).minus(self.edges.last_no_bid).abs())
        ||| step.lt(self.ask(yes).minus(self.edges.last_yes_ask).abs())
        ||| step.lt(self.ask(no).minus(self.edges.last_no_ask).abs())
    }
}

/// Whether an order spends a sum of money on whole shares of a token at its best bid: it costs
/// no more than that, and with one more share it would.
pub open spec fn spends(
    order: OrderRequestView,
    usd: Double,
    input: CycleInput,
    token: Seq<char>,
) -> bool {
    &&& order.token_id == token
    &&& order.condition_id == input.market.condition_id
    &&& order.side == "BUY"@
    &&& order.price == input.bid(token)
    &&& order.price.times(order.size).le(usd)
    &&& Double::ratio(1, 1).le(order.size)
    &&& is_small(usd, order.price) ==> {
        &&& order.size.is_finite()
        &&& order.size.val() % (pow2(1074) as int) == 0
        &&& order.price.val() * (order.size.val() + pow2(1074)) > usd.val() * pow2(1074)
    }
}

/// Whether a sum of money pays for fewer shares than two to the power 53.
pub open spec fn is_small(usd: Double, price: Double) -> bool {
    usd.is_finite() && usd.over(price).lt(Double::from_nat(0x20_0000_0000_0000))
}

/// A sum of money that pays for a share at a price: how the shares that it buys are bounded.
proof fn lemma_shares(usd: Double, price: Double)
    requires
        Double::ratio(10, 100).le(price),
        cancel_replace::affords(usd, price),
        is_small(usd, price),
    ensures
        ({
            let size = cancel_replace::shares_for(usd, price);
            &&& size.is_finite()
            &&& size.val() % (pow2(1074) as int) == 0
            &&& price.val() * (size.val() + pow2(1074)) > usd.val() * pow2(1074)
        }),
{
    let size = cancel_replace::shares_for(usd, price);
    lemma_price_above_zero(price);
    lemma_share_costs(usd, price);
    let n = integers::goes_into(usd, price);
    integers::one_less(n);
    let k: u64 = if size == Double::from_nat(n) {
        n
    } else {
        (n - 1) as u64
    };
    integers::lemma_from_nat(k);
    let one = pow2(1074);
    lemma_pow2_pos(1074);
    vstd::arithmetic::div_mod::lemma_mod_multiples_basic(k as int, one as int);
    let p = price.val();
    let u = usd.val();
    let more: int = k + 1;
    assert(p * more > u);
    assert(p * (k * one + one) > u * one) by (nonlinear_arith)
        requires
            p * more > u,
            more == k + 1,
            one > 0,
    ;
}

/// Ten cents are above zero.
proof fn lemma_price_above_zero(price: Double)
    requires
        Double::ratio(10, 100).le(price),
    ensures
        Double::ratio(0, 1).lt(price),
{
    lemma2_to64();
    laws::lemma_binary_fraction(4, 16);
    laws::lemma_ratio_order(1, 16, 10, 100);
    laws::lemma_ratio(0, 1);
    laws::lemma_ratio(10, 100);
}

/// Where a share is bought, the money is not less than its price.
proof fn lemma_share_costs(usd: Double, price: Double)
    requires
        Double::ratio(0, 1).lt(price),
        cancel_replace::affords(usd, price),
        usd.is_finite(),
    ensures
        price.le(usd),
{
    let size = cancel_replace::shares_for(usd, price);
    let one = Double::ratio(1, 1);
    crate::double::order::times_commutes(price, one);
    crate::double::order::times_commutes(price, size);
    laws::lemma_ratio(0, 1);
    lemma_times_one(price);
    if !one.times(price).is_nan() && !size.times(price).is_nan() {
        crate::double::order::times_keeps_order(one, size, price);
    }
}

/// One times a number is the number.
proof fn lemma_times_one(x: Double)
    requires
        !x.is_nan(),
    ensures
        x.times(Double::ratio(1, 1)).same(x),
{
    let one = pow2(1074);
    let y = Double::ratio(1, 1);
    lemma2_to64();
    lemma_pow2_pos(1074);
    laws::lemma_binary_fraction(0, 1);
    reveal(Double::spec_times);
    if x.is_finite() {
        value::lemma_finite_parts(x);
        crate::double::rounding::lemma_rounded_scale(x.units(), 1, one);
        assert(1 * one == one);
        laws::lemma_signed(x.is_negative(), x.mag());
    } else {
        laws::lemma_signed(x.is_negative(), x.mag());
    }
}

/// A cycle posts orders only where there is every reason to, and then one for each token: at the
/// best bid, for whole shares, for no more money than a side has, and for so many that one more
/// share would cost more.
pub proof fn posted_orders_spend_the_money(input: CycleInput, i: int)
    requires
        0 <= i < input.result().commands.len(),
        input.result().commands[i] is Post,
    ensures
        input.is_called_for(),
        input.result().commands.len() == 2,
        input.result().commands[0] matches CommandView::Post(order) && spends(
            order,
            input.arb.order_size_usd,
            input,
            input.market.yes_token_id,
        ),
        input.result().commands[1] matches CommandView::Post(order) && spends(
            order,
            input.arb.order_size_usd,
            input,
            input.market.no_token_id,
        ),
        input.result().market == input.market,
        input.result().edges.maker_edge_active,
        input.result().edges.arb_orders_placed,
        !input.result().finished,
{
    lemma_thresholds();
    let usd = input.arb.order_size_usd;
    let yes = input.bid(input.market.yes_token_id);
    let no = input.bid(input.market.no_token_id);
    if is_small(usd, yes) {
        lemma_shares(usd, yes);
    }
    if is_small(usd, no) {
        lemma_shares(usd, no);
    }
}

/// The thresholds are above zero.
proof fn lemma_thresholds()
    ensures
        Double::ratio(0, 1).lt(Double::ratio(60, 1)),
        Double::ratio(0, 1).lt(Double::ratio(1, 1)),
        Double::ratio(0, 1).lt(Double::ratio(10, 100)),
        Double::ratio(0, 1).lt(Double::ratio(2, 1)),
        !Double::ratio(0, 1).is_nan(),
        Double::ratio(0, 1).lt(Double::ratio(30, 1)),
{
    integers::whole_numbers_are_ordered(0, 60);
    integers::whole_numbers_are_ordered(0, 1);
    integers::whole_numbers_are_ordered(0, 2);
    integers::whole_numbers_are_ordered(0, 30);
    laws::lemma_ratio(0, 1);
    laws::lemma_ratio(10, 100);
    lemma_price_above_zero(Double::ratio(10, 100));
}

/// Where there is every reason to buy both tokens, and the money for a side pays for a share of
/// each, a cycle posts both orders.
pub proof fn chances_are_taken(input: CycleInput)
    requires
        input.is_called_for(),
        input.bid(input.market.yes_token_id).le(input.arb.order_size_usd),
        input.bid(input.market.no_token_id).le(input.arb.order_size_usd),
        is_small(input.arb.order_size_usd, input.bid(input.market.yes_token_id)),
        is_small(input.arb.order_size_usd, input.bid(input.market.no_token_id)),
    ensures
        input.result().commands.len() == 2,
        input.result().commands[0] is Post,
        input.result().commands[1] is Post,
{
    lemma_thresholds();
    let usd = input.arb.order_size_usd;
    let yes = input.bid(input.market.yes_token_id);
    let no = input.bid(input.market.no_token_id);
    lemma_price_above_zero(yes);
    lemma_price_above_zero(no);
    cancel_replace::a_share_is_bought(usd, yes);
    cancel_replace::a_share_is_bought(usd, no);
}

/// Whether a cycle posts orders.
pub open spec fn posts_orders(input: CycleInput) -> bool {
    input.result().commands.len() > 0 && input.result().commands[0] is Post
}

/// Whether a market is over for the bot, or its orders are withdrawn now: trading is halted, or
/// it closes within two seconds while it is watched.
pub open spec fn is_withdrawn(input: CycleInput) -> bool {
    ||| input.market.state is Settlement || input.market.state is Withdrawn
    ||| input.halted
    ||| input.market.state is Monitoring && (input.market.end_time.minus(input.now).lt(
        Double::ratio(2, 1),
    ) || input.market.end_time.minus(input.now).is_nan())
}

/// Both asks together are reported where they are below a dollar by more than the minimum, and
/// either were not in the last cycle or a price has moved since; the report says what the books
/// say.
pub proof fn cheap_asks_are_reported(input: CycleInput, i: int)
    requires
        !posts_orders(input),
    ensures
        ({
            let commands = input.result().commands;
            let owed = !(input.market.state is Settlement) && !(input.market.state is Withdrawn)
                && input.both_tradeable() && input.has_taker_edge() && (
            !input.edges.taker_edge_active || input.has_moved());
            &&& owed <==> commands.len() > 0 && commands[0] is Publish
            &&& 0 < i < commands.len() ==> !(commands[i] is Publish)
            &&& owed ==> ({
                let yes = input.market.yes_token_id;
                let no = input.market.no_token_id;
                let left = input.market.end_time.minus(input.now);
                &&& commands[0] matches CommandView::Publish(
                    BotEventView::NegVigDetected {
                        condition_id,
                        asset,
                        timeframe,
                        yes_ask,
                        no_ask,
                        combined,
                        edge_cents,
                        yes_depth,
                        no_depth,
                        secs_left,
                    },
                )
                &&& condition_id == input.market.condition_id
                &&& asset == input.market.asset
                &&& timeframe == input.market.timeframe
                &&& yes_ask == input.books[yes].asks[0].price
                &&& no_ask == input.books[no].asks[0].price
                &&& combined == yes_ask.plus(no_ask)
                &&& edge_cents == Double::ratio(1, 1).minus(combined)
                &&& yes_depth == input.books[yes].asks[0].size
                &&& no_depth == input.books[no].asks[0].size
                &&& Double::ratio(0, 1).le(left) ==> secs_left == left
                &&& left.lt(Double::ratio(0, 1)) ==> secs_left == Double::ratio(0, 1)
            })
        }),
{
    lemma_thresholds();
}

/// The orders of a market are cancelled, as the last step of a cycle, exactly where it is over or
/// withdrawn.
pub proof fn withdrawn_markets_are_cleared(input: CycleInput, i: int)
    requires
        !posts_orders(input),
    ensures
        ({
            let commands = input.result().commands;
            let cancel = CommandView::CancelMarket { condition_id: input.market.condition_id };
            &&& is_withdrawn(input) <==> commands.len() > 0 && commands.last() == cancel
            &&& 0 <= i < commands.len() ==> commands[i] is Publish || commands[i] == cancel
            &&& input.result().finished <==> input.market.state is Settlement
                || input.market.state is Withdrawn
        }),
{
    lemma_thresholds();
}

/// What becomes of a market in a cycle: nothing but its state changes. A market that is not over
/// is watched, unless it is withdrawn.
pub proof fn only_the_state_changes(input: CycleInput)
    requires
        !posts_orders(input),
    ensures
        ({
            let after = input.result().market;
            &&& after == (MarketContextView { state: after.state, ..input.market })
            &&& input.result().finished ==> after.state == input.market.state
            &&& !input.result().finished ==> (input.halted <==> after.state is Withdrawn)
            &&& !input.result().finished && !input.halted ==> (after.state is Settlement
                <==> is_withdrawn(input))
            &&& !input.result().finished && !is_withdrawn(input) ==> after.state
                == MarketState::Monitoring
        }),
{
    lemma_thresholds();
}

/// What is remembered after a cycle that posts no orders: whether bids and asks leave an edge
/// now, since when the bids do, and the prices, where one has moved.
pub proof fn edges_are_remembered(input: CycleInput)
    requires
        !posts_orders(input),
        !input.result().finished,
    ensures
        ({
            let before = input.edges;
            let after = input.result().edges;
            let yes = input.market.yes_token_id;
            let no = input.market.no_token_id;
            let maker = input.both_tradeable() && input.has_maker_edge();
            &&& after.maker_edge_active == maker
            &&& after.taker_edge_active == (input.both_tradeable() && input.has_taker_edge())
            &&& maker && before.maker_edge_active ==> after.edge_window_start
                == before.edge_window_start && after.arb_orders_placed == before.arb_orders_placed
            &&& maker && !before.maker_edge_active ==> after.edge_window_start == Some(
                input.now_ns,
            ) && !after.arb_orders_placed
            &&& !maker && before.maker_edge_active ==> after.edge_window_start is None
            &&& !maker && !before.maker_edge_active ==> after.edge_window_start
                == before.edge_window_start
            &&& !maker && before.maker_edge_active && input.both_tradeable()
                ==> !after.arb_orders_placed
            &&& !maker && !(before.maker_edge_active && input.both_tradeable())
                ==> after.arb_orders_placed == before.arb_orders_placed
            &&& input.both_tradeable() && input.has_moved() ==> after.last_yes_bid == input.bid(
                yes,
            ) && after.last_no_bid == input.bid(no) && after.last_yes_ask == input.ask(yes)
                && after.last_no_ask == input.ask(no)
            &&& !(input.both_tradeable() && input.has_moved()) ==> after.last_yes_bid
                == before.last_yes_bid && after.last_no_bid == before.last_no_bid
                && after.last_yes_ask == before.last_yes_ask && after.last_no_ask
                == before.last_no_ask
            &&& input.positions.contains_key(yes) ==> after.up_shares
                == input.positions[yes].shares
            &&& input.positions.contains_key(no) ==> after.dn_shares == input.positions[no].shares
        }),
{
    lemma_thresholds();
}

} // verus!

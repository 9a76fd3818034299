//! What an update of the quotes of a market does, told by the orders and quotes that go in and
//! the steps that come out.

use vstd::prelude::*;

use super::cancel_replace;
use super::cancel_replace::{CommandView, OrderRequestView, SlotView};
use super::order_manager::LiveOrderView;
use crate::double::Double;
use crate::strategy::engine::{MarketContextView, StrategyAction};
use crate::strategy::pricing::QuoteSet;

verus! {

/// What goes into an update of the quotes.
pub struct UpdateInput {
    pub orders: Seq<LiveOrderView>,
    pub yes_token_id: Seq<char>,
    pub no_token_id: Seq<char>,
    pub quotes: QuoteSet,
    pub tick_size: Double,
    pub condition_id: Seq<char>,
    pub market_db_id: i64,
}

impl UpdateInput {
    /// The steps.
    pub open spec fn result(self) -> Seq<CommandView> {
        cancel_replace::quote_commands(
            self.orders,
            cancel_replace::wanted(self.yes_token_id, self.no_token_id, self.quotes),
            self.tick_size,
            self.condition_id,
            self.market_db_id,
        )
    }

    /// The price and the size that are quoted for a token on a side.
    pub open spec fn quote(self, token: Seq<char>, side: Seq<char>) -> Option<(Double, Double)> {
        if token == self.yes_token_id && side == "BUY"@ {
            Some((self.quotes.yes_bid, self.quotes.yes_bid_size))
        } else if token == self.yes_token_id && side == "SELL"@ {
            Some((self.quotes.yes_ask, self.quotes.yes_ask_size))
        } else if token == self.no_token_id && side == "BUY"@ {
            Some((self.quotes.no_bid, self.quotes.no_bid_size))
        } else if token == self.no_token_id && side == "SELL"@ {
            Some((self.quotes.no_ask, self.quotes.no_ask_size))
        } else {
            None
        }
    }

    /// Whether an order may stay: it is for a token and a side that are quoted, and its price is
    /// no more than a tick away from the quote.
    pub open spec fn may_stay(self, order: LiveOrderView) -> bool {
        match self.quote(order.token_id, order.side) {
            Some((price, _)) => !self.tick_size.lt(order.price.minus(price).abs()),
            None => false,
        }
    }

    /// The order that posts a quote.
    pub open spec fn post(self, token: Seq<char>, side: Seq<char>) -> CommandView {
        let (price, size) = self.quote(token, side)->0;
        CommandView::Post(
            OrderRequestView {
                token_id: token,
                condition_id: self.condition_id,
                side,
                price,
                size,
                strategy: "quoting"@,
                market_db_id: self.market_db_id,
            },
        )
    }

    spec fn slots(self) -> Seq<SlotView> {
        cancel_replace::wanted(self.yes_token_id, self.no_token_id, self.quotes)
    }

    spec fn stale(self) -> Seq<CommandView> {
        cancel_replace::stale_commands(self.orders, self.slots(), self.tick_size)
    }

    spec fn due(self, n: nat) -> Seq<CommandView> {
        cancel_replace::due_commands(
            self.orders,
            self.slots(),
            self.tick_size,
            self.condition_id,
            self.market_db_id,
            n,
        )
    }
}

proof fn lemma_sides()
    ensures
        "BUY"@ != "SELL"@,
{
    reveal_strlit("BUY");
    reveal_strlit("SELL");
    assert("BUY"@.len() != "SELL"@.len());
}

/// An order stays exactly where it may.
proof fn lemma_stays(input: UpdateInput, order: LiveOrderView)
    requires
        input.yes_token_id != input.no_token_id,
    ensures
        cancel_replace::is_kept(order, input.slots(), input.tick_size) <==> input.may_stay(order),
{
    lemma_sides();
    let slots = input.slots();
    assert(slots.len() == 4);
    if input.may_stay(order) {
        let i: int = if order.token_id == input.yes_token_id {
            if order.side == "BUY"@ {
                0
            } else {
                1
            }
        } else if order.side == "BUY"@ {
            2
        } else {
            3
        };
        assert forall|j: int| 0 <= j < i implies !cancel_replace::stands_for(
            order,
            #[trigger] slots[j],
        ) by {}
        assert(cancel_replace::is_slot_of(order, slots, i));
    }
    if cancel_replace::is_kept(order, slots, input.tick_size) {
        let i = choose|i: int| #[trigger]
            cancel_replace::is_slot_of(order, slots, i) && !input.tick_size.lt(
                order.price.minus(slots[i].price).abs(),
            );
        assert(cancel_replace::is_slot_of(order, slots, i));
        assert(i == 0 || i == 1 || i == 2 || i == 3);
    }
}

/// An order is cancelled exactly where it may not stay: nothing is quoted for its token and
/// side, or its price is more than a tick away from the quote.
pub proof fn stale_orders_are_cancelled(input: UpdateInput, k: int)
    requires
        input.yes_token_id != input.no_token_id,
        0 <= k < input.orders.len(),
        forall|j: int|
            0 <= j < input.orders.len() && j != k ==> (#[trigger] input.orders[j]).order_id
                != input.orders[k].order_id,
    ensures
        input.result().contains(CommandView::Cancel { order_id: input.orders[k].order_id })
            <==> !input.may_stay(input.orders[k]),
{
    let c = CommandView::Cancel { order_id: input.orders[k].order_id };
    let stale = input.stale();
    let due = input.due(input.slots().len());
    assert(input.result() =~= stale + due);
    lemma_stays(input, input.orders[k]);
    cancel_replace::kept_or_cancelled(input.orders, input.slots(), input.tick_size, k);
    lemma_posts_only(input, input.slots().len());
    if stale.contains(c) {
        let m = choose|m: int| 0 <= m < stale.len() && stale[m] == c;
        assert(input.result()[m] == c);
    }
    if input.result().contains(c) {
        let m = choose|m: int| 0 <= m < input.result().len() && input.result()[m] == c;
        if m >= stale.len() {
            assert(due[m - stale.len()] == c);
        } else {
            assert(stale[m] == c);
        }
    }
}

/// The quotes that are due are posts, each for one of the quotes.
proof fn lemma_posts_only(input: UpdateInput, n: nat)
    requires
        n <= input.slots().len(),
    ensures
        forall|m: int|
            0 <= m < input.due(n).len() ==> exists|i: int|
                0 <= i < n && cancel_replace::is_due(
                    input.orders,
                    input.slots(),
                    input.tick_size,
                    input.slots()[i],
                ) && #[trigger] input.due(n)[m] == CommandView::Post(
                    cancel_replace::slot_request(
                        #[trigger] input.slots()[i],
                        input.condition_id,
                        input.market_db_id,
                    ),
                ),
    decreases n,
{
    if n > 0 {
        let less = (n - 1) as nat;
        lemma_posts_only(input, less);
        assert forall|m: int| 0 <= m < input.due(n).len() implies exists|i: int|
            0 <= i < n && cancel_replace::is_due(
                input.orders,
                input.slots(),
                input.tick_size,
                input.slots()[i],
            ) && #[trigger] input.due(n)[m] == CommandView::Post(
                cancel_replace::slot_request(
                    #[trigger] input.slots()[i],
                    input.condition_id,
                    input.market_db_id,
                ),
            ) by {
            if m < input.due(less).len() {
                assert(input.due(n)[m] == input.due(less)[m]);
                let i = choose|i: int|
                    0 <= i < less && cancel_replace::is_due(
                        input.orders,
                        input.slots(),
                        input.tick_size,
                        input.slots()[i],
                    ) && input.due(less)[m] == CommandView::Post(
                        cancel_replace::slot_request(
                            #[trigger] input.slots()[i],
                            input.condition_id,
                            input.market_db_id,
                        ),
                    );
                assert(input.slots()[i] == input.slots()[i]);
            } else {
                assert(input.slots()[n - 1] == input.slots()[n - 1]);
            }
        }
    }
}

/// Whether a quote has no order that may stay.
pub open spec fn is_open(input: UpdateInput, token: Seq<char>, side: Seq<char>) -> bool {
    forall|k: int|
        0 <= k < input.orders.len() && (#[trigger] input.orders[k]).token_id == token
            && input.orders[k].side == side ==> !input.may_stay(input.orders[k])
}

/// A quote with a price and a size above zero is posted exactly where no order that may stay
/// stands for it, with the price and the size that are quoted; one without is not.
pub proof fn open_quotes_are_posted(input: UpdateInput, token: Seq<char>, side: Seq<char>)
    requires
        input.yes_token_id != input.no_token_id,
        input.quote(token, side) is Some,
    ensures
        ({
            let (price, size) = input.quote(token, side)->0;
            input.result().contains(input.post(token, side)) <==> !price.le(Double::ratio(0, 1))
                && !size.le(Double::ratio(0, 1)) && is_open(input, token, side)
        }),
{
    lemma_sides();
    let slots = input.slots();
    let c = input.post(token, side);
    let i: int = if token == input.yes_token_id {
        if side == "BUY"@ {
            0
        } else {
            1
        }
    } else if side == "BUY"@ {
        2
    } else {
        3
    };
    let slot = slots[i];
    assert(slot.token_id == token && slot.side == side);
    let stale = input.stale();
    let due = input.due(4);
    assert(slots.len() == 4);
    assert(input.result() =~= stale + due);
    assert(c == CommandView::Post(
        cancel_replace::slot_request(slot, input.condition_id, input.market_db_id),
    ));
    assert forall|k: int| 0 <= k < input.orders.len() implies (cancel_replace::is_kept(
        #[trigger] input.orders[k],
        slots,
        input.tick_size,
    ) <==> input.may_stay(input.orders[k])) by {
        lemma_stays(input, input.orders[k]);
    }
    assert(cancel_replace::is_covered(input.orders, slots, input.tick_size, slot) <==> !is_open(
        input,
        token,
        side,
    )) by {
        if cancel_replace::is_covered(input.orders, slots, input.tick_size, slot) {
            let k = choose|k: int|
                0 <= k < input.orders.len() && cancel_replace::is_kept(
                    #[trigger] input.orders[k],
                    slots,
                    input.tick_size,
                ) && cancel_replace::stands_for(input.orders[k], slot);
            assert(input.may_stay(input.orders[k]));
        }
    }
    let wanted = cancel_replace::is_due(input.orders, slots, input.tick_size, slot);
    if wanted {
        lemma_due_is_posted(input, 4, i);
        let m = choose|m: int| 0 <= m < due.len() && due[m] == c;
        assert(input.result()[stale.len() + m] == c);
    }
    if input.result().contains(c) {
        let m = choose|m: int| 0 <= m < input.result().len() && input.result()[m] == c;
        if m < stale.len() {
            lemma_cancels_only(input);
            assert(stale[m] == c);
        } else {
            lemma_posts_only(input, 4);
            assert(due[m - stale.len()] == c);
            let j = choose|j: int|
                0 <= j < 4 && cancel_replace::is_due(
                    input.orders,
                    slots,
                    input.tick_size,
                    slots[j],
                ) && due[m - stale.len()] == CommandView::Post(
                    cancel_replace::slot_request(
                        #[trigger] slots[j],
                        input.condition_id,
                        input.market_db_id,
                    ),
                );
            assert(slots[j].token_id == token && slots[j].side == side);
            assert(j == 0 || j == 1 || j == 2 || j == 3);
            assert(j == i);
        }
    }
}

/// A quote that is due is posted.
proof fn lemma_due_is_posted(input: UpdateInput, n: nat, i: int)
    requires
        0 <= i < n <= input.slots().len(),
        cancel_replace::is_due(
            input.orders,
            input.slots(),
            input.tick_size,
            input.slots()[i],
        ),
    ensures
        input.due(n).contains(
            CommandView::Post(
                cancel_replace::slot_request(
                    input.slots()[i],
                    input.condition_id,
                    input.market_db_id,
                ),
            ),
        ),
    decreases n,
{
    let c = CommandView::Post(
        cancel_replace::slot_request(input.slots()[i], input.condition_id, input.market_db_id),
    );
    if i == n - 1 {
        assert(input.due(n).last() == c);
        assert(input.due(n)[input.due(n).len() - 1] == c);
    } else {
        let less = (n - 1) as nat;
        lemma_due_is_posted(input, less, i);
        let m = choose|m: int| 0 <= m < input.due(less).len() && input.due(less)[m] == c;
        assert(input.due(n)[m] == c);
    }
}

/// What is stale leads to cancellations, each of an order of the list.
proof fn lemma_cancels_only(input: UpdateInput)
    ensures
        forall|m: int|
            0 <= m < input.stale().len() ==> exists|k: int|
                0 <= k < input.orders.len() && #[trigger] input.stale()[m]
                    == (CommandView::Cancel { order_id: (#[trigger] input.orders[k]).order_id }),
{
    cancel_replace::lemma_cancels_are_stale(input.orders, input.slots(), input.tick_size);
}

/// An update cancels orders of the market, and posts quotes of it, and does nothing else.
pub proof fn update_does_nothing_else(input: UpdateInput, m: int)
    requires
        0 <= m < input.result().len(),
    ensures
        (exists|k: int|
            0 <= k < input.orders.len() && input.result()[m] == (CommandView::Cancel {
                order_id: (#[trigger] input.orders[k]).order_id,
            })) || input.result()[m] == input.post(input.yes_token_id, "BUY"@)
            || input.result()[m] == input.post(input.yes_token_id, "SELL"@)
            || input.result()[m] == input.post(input.no_token_id, "BUY"@) || input.result()[m]
            == input.post(input.no_token_id, "SELL"@) || input.yes_token_id == input.no_token_id,
{
    lemma_sides();
    let stale = input.stale();
    assert(input.result() =~= stale + input.due(4));
    if m < stale.len() {
        lemma_cancels_only(input);
        assert(stale[m] == input.result()[m]);
    } else {
        lemma_posts_only(input, 4);
        assert(input.due(4)[m - stale.len()] == input.result()[m]);
        let j = choose|j: int|
            0 <= j < 4 && cancel_replace::is_due(
                input.orders,
                input.slots(),
                input.tick_size,
                input.slots()[j],
            ) && input.due(4)[m - stale.len()] == CommandView::Post(
                cancel_replace::slot_request(
                    #[trigger] input.slots()[j],
                    input.condition_id,
                    input.market_db_id,
                ),
            );
        assert(j == 0 || j == 1 || j == 2 || j == 3);
    }
}

/// An endgame order is bought of the token that it bets on, at its price and size, after the
/// orders of the market were cancelled; and it is told.
pub proof fn article_buys_the_winner(
    action: StrategyAction,
    market: MarketContextView,
    orders: Seq<LiveOrderView>,
)
    requires
        action is PostArticle,
    ensures
        ({
            let steps = cancel_replace::action_commands(action, market, orders);
            let order = action->PostArticle_0;
            &&& steps.len() == 3
            &&& steps[0] matches CommandView::Publish(
                crate::events::bus::BotEventView::ArticleFired {
                    condition_id,
                    direction,
                    price,
                    size,
                    conviction,
                },
            )
            &&& condition_id == market.condition_id && direction == order.direction@
            &&& price == order.price && size == order.size && conviction == order.conviction
            &&& steps[1] == (CommandView::CancelMarket { condition_id: market.condition_id })
            &&& steps[2] matches CommandView::Post(request)
            &&& request.token_id == (if order.direction@ == "UP"@ {
                market.yes_token_id
            } else {
                market.no_token_id
            })
            &&& request.side == "BUY"@ && request.price == order.price && request.size
                == order.size
            &&& request.condition_id == market.condition_id && request.strategy == "article"@
        }),
{
}

/// A decision to hold does nothing, one to cancel or to withdraw cancels the orders of the
/// market, and one to quote updates the quotes with the market's own tick.
pub proof fn decisions_are_carried_out(
    action: StrategyAction,
    market: MarketContextView,
    orders: Seq<LiveOrderView>,
)
    ensures
        ({
            let steps = cancel_replace::action_commands(action, market, orders);
            let cancel = CommandView::CancelMarket { condition_id: market.condition_id };
            &&& action is Hold ==> steps.len() == 0
            &&& action is CancelAll || action is Withdraw ==> steps.len() == 1 && steps[0] == cancel
            &&& action matches StrategyAction::PostQuotes(quotes) ==> steps == (UpdateInput {
                orders,
                yes_token_id: market.yes_token_id,
                no_token_id: market.no_token_id,
                quotes,
                tick_size: market.tick_size,
                condition_id: market.condition_id,
                market_db_id: match market.db_market_id {
                    Some(id) => id,
                    None => 0,
                },
            }).result()
        }),
{
}

/// An order belongs to the first quote for its token and side, and to no other.
pub proof fn orders_belong_to_one_quote(
    order: LiveOrderView,
    slots: Seq<SlotView>,
    i: int,
    j: int,
)
    requires
        0 <= i < slots.len(),
        0 <= j < slots.len(),
        slots[i].token_id == order.token_id && slots[i].side == order.side,
        cancel_replace::is_slot_of(order, slots, j),
    ensures
        j <= i,
        slots[j].token_id == order.token_id,
        slots[j].side == order.side,
        cancel_replace::is_slot_of(order, slots, i) ==> i == j,
{
    assert(cancel_replace::stands_for(order, slots[i]));
    assert(cancel_replace::stands_for(order, slots[j]));
}

} // verus!

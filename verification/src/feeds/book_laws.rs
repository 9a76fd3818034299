//! What messages do to the order books, told by the messages and books that go in and the books
//! that come out.

use vstd::prelude::*;

use super::levels;
use super::polymarket;
use super::polymarket::{WsBookLevel, WsMessage, WsPriceChange};
use super::types;
use super::types::{BookLevel, FeedUpdateView, OrderBookView};
use crate::double::{integers, laws, order, Double};

verus! {

/// Whether price and size of a level can be read.
pub open spec fn is_readable(l: WsBookLevel) -> bool {
    l.price is Some && l.size is Some
}

/// Where all levels of a side can be read, they are kept as they are, in their order.
pub proof fn readable_levels_are_kept(side: Seq<WsBookLevel>, i: int)
    requires
        forall|j: int| 0 <= j < side.len() ==> is_readable(#[trigger] side[j]),
        0 <= i < side.len(),
    ensures
        polymarket::known_levels(side).len() == side.len(),
        polymarket::known_levels(side)[i].price == side[i].price->0,
        polymarket::known_levels(side)[i].size == side[i].size->0,
    decreases side.len(),
{
    let front = side.drop_last();
    assert(is_readable(side[side.len() - 1]));
    assert(forall|j: int| 0 <= j < front.len() ==> #[trigger] front[j] == side[j]);
    if front.len() > 0 {
        readable_levels_are_kept(front, if i < front.len() {
            i
        } else {
            0
        });
    } else {
        assert(polymarket::known_levels(front).len() == 0);
    }
}

/// A level that cannot be read is as if it were not there, wherever it stands.
pub proof fn unreadable_levels_are_left_out(
    before: Seq<WsBookLevel>,
    level: WsBookLevel,
    after: Seq<WsBookLevel>,
)
    requires
        !is_readable(level),
    ensures
        polymarket::known_levels(before.push(level) + after) == polymarket::known_levels(
            before + after,
        ),
    decreases after.len(),
{
    let with = before.push(level) + after;
    let without = before + after;
    if after.len() == 0 {
        assert(with.drop_last() =~= before);
        assert(without =~= before);
    } else {
        unreadable_levels_are_left_out(before, level, after.drop_last());
        assert(with.drop_last() =~= before.push(level) + after.drop_last());
        assert(without.drop_last() =~= before + after.drop_last());
        assert(with.last() == without.last());
    }
}

/// A whole book replaces what was kept of its token, whatever that was: it holds the levels of the
/// message, and its time. Every other book is untouched, and subscribers get the new one.
pub proof fn snapshots_replace_books(
    books: Map<Seq<char>, OrderBookView>,
    msg: WsMessage,
    now: Double,
    other: Seq<char>,
)
    requires
        msg.event_type is Some,
        msg.event_type->0@ == "book"@,
        msg.asset_id is Some,
    ensures
        ({
            let after = polymarket::after_message(books, msg, now);
            let token = msg.asset_id->0@;
            &&& after.contains_key(token)
            &&& after[token].token_id == token
            &&& after[token].timestamp == now
            &&& msg.bids matches Some(side) ==> after[token].bids == polymarket::known_levels(side@)
            &&& msg.asks matches Some(side) ==> after[token].asks == polymarket::known_levels(side@)
            &&& msg.bids is None ==> after[token].bids.len() == 0
            &&& msg.asks is None ==> after[token].asks.len() == 0
            &&& other != token ==> after.contains_key(other) == books.contains_key(other)
                && after[other] == books[other]
            &&& polymarket::message_updates(msg, now).len() == 1
            &&& polymarket::message_updates(msg, now)[0] == FeedUpdateView::BookSnapshot(
                after[token],
            )
        }),
{
}

/// What a book is does not depend on what was kept before a whole one came.
pub proof fn snapshots_forget(
    books: Map<Seq<char>, OrderBookView>,
    others: Map<Seq<char>, OrderBookView>,
    msg: WsMessage,
    now: Double,
)
    requires
        msg.event_type is Some,
        msg.event_type->0@ == "book"@,
        msg.asset_id is Some,
    ensures
        polymarket::after_message(books, msg, now)[msg.asset_id->0@] == polymarket::after_message(
            others,
            msg,
            now,
        )[msg.asset_id->0@],
{
}

/// A message that is neither a whole book nor price changes does nothing.
pub proof fn other_messages_do_nothing(
    books: Map<Seq<char>, OrderBookView>,
    msg: WsMessage,
    now: Double,
)
    requires
        msg.event_type matches Some(kind) ==> kind@ != "book"@ && kind@ != "price_change"@,
    ensures
        polymarket::after_message(books, msg, now) == books,
        polymarket::message_updates(msg, now).len() == 0,
{
    reveal_strlit("book");
    reveal_strlit("price_change");
    assert("book"@.len() > 0);
    assert("price_change"@.len() > 0);
}

/// Arranging loses no level and adds none.
proof fn lemma_inserted_members(s: Seq<BookLevel>, x: BookLevel, buy: bool, y: BookLevel)
    ensures
        levels::inserted(s, x, buy).contains(y) <==> s.contains(y) || y == x,
    decreases s.len(),
{
    let t = levels::inserted(s, x, buy);
    if s.len() > 0 && levels::precedes(x, s.last(), buy) {
        let front = s.drop_last();
        let u = levels::inserted(front, x, buy);
        lemma_inserted_members(front, x, buy, y);
        assert(t =~= u.push(s.last()));
        if t.contains(y) {
            let i = choose|i: int| 0 <= i < t.len() && t[i] == y;
            if i < u.len() {
                assert(u[i] == y);
                if front.contains(y) {
                    let j = choose|j: int| 0 <= j < front.len() && front[j] == y;
                    assert(s[j] == y);
                }
            } else {
                assert(s[s.len() - 1] == y);
            }
        }
        if s.contains(y) {
            let i = choose|i: int| 0 <= i < s.len() && s[i] == y;
            if i < front.len() {
                assert(front[i] == y);
                let j = choose|j: int| 0 <= j < u.len() && u[j] == y;
                assert(t[j] == y);
            } else {
                assert(t[u.len() as int] == y);
            }
        }
        if y == x {
            let j = choose|j: int| 0 <= j < u.len() && u[j] == y;
            assert(t[j] == y);
        }
    } else {
        assert(t =~= s.push(x));
        assert(t[s.len() as int] == x);
        if s.contains(y) {
            let i = choose|i: int| 0 <= i < s.len() && s[i] == y;
            assert(t[i] == y);
        }
        if t.contains(y) {
            let i = choose|i: int| 0 <= i < t.len() && t[i] == y;
            if i < s.len() {
                assert(s[i] == y);
            }
        }
    }
}

proof fn lemma_arranged_members(s: Seq<BookLevel>, buy: bool, y: BookLevel)
    ensures
        levels::arranged(s, buy).contains(y) <==> s.contains(y),
    decreases s.len(),
{
    if s.len() > 0 {
        let front = s.drop_last();
        lemma_arranged_members(front, buy, y);
        lemma_inserted_members(levels::arranged(front, buy), s.last(), buy, y);
        if s.contains(y) {
            let i = choose|i: int| 0 <= i < s.len() && s[i] == y;
            if i < front.len() {
                assert(front[i] == y);
            }
        }
        if front.contains(y) {
            let i = choose|i: int| 0 <= i < front.len() && front[i] == y;
            assert(s[i] == y);
        }
        assert(s[s.len() - 1] == s.last());
    }
}

proof fn lemma_without_members(s: Seq<BookLevel>, price: Double, y: BookLevel)
    ensures
        levels::without(s, price).contains(y) <==> s.contains(y) && is_far(y, price),
    decreases s.len(),
{
    if s.len() > 0 {
        let front = s.drop_last();
        let kept = levels::without(front, price);
        let all = levels::without(s, price);
        lemma_without_members(front, price, y);
        assert(s[s.len() - 1] == s.last());
        if front.contains(y) {
            let i = choose|i: int| 0 <= i < front.len() && front[i] == y;
            assert(s[i] == y);
        }
        if s.contains(y) {
            let i = choose|i: int| 0 <= i < s.len() && s[i] == y;
            if i < front.len() {
                assert(front[i] == y);
            }
        }
        if is_far(s.last(), price) {
            assert(all =~= kept.push(s.last()));
            assert(all[kept.len() as int] == s.last());
            if kept.contains(y) {
                let i = choose|i: int| 0 <= i < kept.len() && kept[i] == y;
                assert(all[i] == y);
            }
            if all.contains(y) {
                let i = choose|i: int| 0 <= i < all.len() && all[i] == y;
                if i < kept.len() {
                    assert(kept[i] == y);
                }
            }
        }
    }
}

/// Whether a level is further from a price than a hundred-thousandth.
pub open spec fn is_far(level: BookLevel, price: Double) -> bool {
    Double::ratio(1, 100000).lt(level.price.minus(price).abs())
}

/// A change of a side leaves all levels at other prices, and adds none there. With a size, there
/// is then a level at the price with that size; with none, there is no level at the price.
pub proof fn changes_set_one_price(
    side: Seq<BookLevel>,
    price: Double,
    size: Double,
    buy: bool,
    y: BookLevel,
)
    requires
        price.is_finite(),
    ensures
        ({
            let after = levels::changed(side, price, size, buy);
            &&& is_far(y, price) ==> (after.contains(y) <==> side.contains(y))
            &&& size.same(Double::ratio(0, 1)) && after.contains(y) ==> is_far(y, price)
            &&& !size.same(Double::ratio(0, 1)) ==> exists|i: int|
                0 <= i < after.len() && !is_far(#[trigger] after[i], price) && after[i].size == size
        }),
{
    let after = levels::changed(side, price, size, buy);
    if size.same(Double::ratio(0, 1)) {
        lemma_without_members(side, price, y);
    } else if exists|i: int| levels::is_first_at(side, price, i) {
        let i = choose|i: int| levels::is_first_at(side, price, i);
        levels::known_price_is_updated(side, price, size, buy, i);
        assert(!is_far(after[i], price));
        if is_far(y, price) {
            if side.contains(y) {
                let j = choose|j: int| 0 <= j < side.len() && side[j] == y;
                assert(after[j] == y);
            }
            if after.contains(y) {
                let j = choose|j: int| 0 <= j < after.len() && after[j] == y;
                assert(side[j] == y);
            }
        }
    } else {
        let x = BookLevel { price, size };
        let grown = side.push(x);
        order::equals_are_not_apart(price, price);
        levels::lemma_tolerance();
        assert(!is_far(x, price));
        assert(grown[side.len() as int] == x);
        lemma_arranged_members(grown, buy, x);
        lemma_arranged_members(grown, buy, y);
        let i = choose|i: int| 0 <= i < after.len() && after[i] == x;
        assert(!is_far(after[i], price));
        if side.contains(y) {
            let j = choose|j: int| 0 <= j < side.len() && side[j] == y;
            assert(grown[j] == y);
        }
        if grown.contains(y) && y != x {
            let j = choose|j: int| 0 <= j < grown.len() && grown[j] == y;
            assert(side[j] == y);
        }
    }
}

/// A price change for a token that has a book changes the side that it names, and that side
/// alone: a purchase the bids, anything else the asks. A change that does not say all it should,
/// or whose token has no book, changes nothing.
pub proof fn changes_go_to_their_side(
    books: Map<Seq<char>, OrderBookView>,
    c: WsPriceChange,
    now: Double,
)
    ensures
        ({
            let after = polymarket::after_change(books, c, now);
            let complete = c.asset_id is Some && c.price is Some && c.size is Some;
            let token = c.asset_id->0@;
            let buys = c.side is Some && c.side->0@ == "BUY"@;
            &&& !complete || !books.contains_key(token) ==> after == books
            &&& complete && books.contains_key(token) ==> {
                &&& after.contains_key(token)
                &&& after[token].token_id == books[token].token_id
                &&& after[token].timestamp == now
                &&& after[token].tick_size == books[token].tick_size
                &&& after[token].min_order_size == books[token].min_order_size
                &&& buys ==> after[token].asks == books[token].asks && after[token].bids
                    == levels::changed(books[token].bids, c.price->0, c.size->0, true)
                &&& !buys ==> after[token].bids == books[token].bids && after[token].asks
                    == levels::changed(books[token].asks, c.price->0, c.size->0, false)
            }
        }),
{
    reveal_strlit("BUY");
    assert("BUY"@.len() > 0);
}

/// The changes of a message come one after the other, and each complete one is told to
/// subscribers, also where its token has no book.
pub proof fn changes_are_told(changes: Seq<WsPriceChange>, c: WsPriceChange)
    ensures
        ({
            let before = polymarket::change_updates(changes);
            let after = polymarket::change_updates(changes.push(c));
            let complete = c.asset_id is Some && c.price is Some && c.size is Some;
            &&& !complete ==> after == before
            &&& complete ==> after == before.push(
                FeedUpdateView::BookDelta {
                    token_id: c.asset_id->0@,
                    price: c.price->0,
                    size: c.size->0,
                    side: match c.side {
                        Some(s) => s@,
                        None => Seq::empty(),
                    },
                },
            )
        }),
{
    assert(changes.push(c).drop_last() =~= changes);
}

/// The books after a row of changes are those after the first ones, changed by the last.
pub proof fn changes_follow_each_other(
    books: Map<Seq<char>, OrderBookView>,
    changes: Seq<WsPriceChange>,
    c: WsPriceChange,
    now: Double,
)
    ensures
        polymarket::after_changes(books, changes.push(c), now) == polymarket::after_change(
            polymarket::after_changes(books, changes, now),
            c,
            now,
        ),
        polymarket::after_changes(books, Seq::empty(), now) == books,
{
    assert(changes.push(c).drop_last() =~= changes);
}

/// The same of a row of messages.
pub proof fn messages_follow_each_other(
    books: Map<Seq<char>, OrderBookView>,
    msgs: Seq<WsMessage>,
    msg: WsMessage,
    now: Double,
)
    ensures
        polymarket::after_messages(books, msgs.push(msg), now) == polymarket::after_message(
            polymarket::after_messages(books, msgs, now),
            msg,
            now,
        ),
        polymarket::messages_updates(msgs.push(msg), now) == polymarket::messages_updates(msgs, now)
            + polymarket::message_updates(msg, now),
        polymarket::after_messages(books, Seq::empty(), now) == books,
{
    assert(msgs.push(msg).drop_last() =~= msgs);
}

/// A text that only answers a ping holds no message; another one holds those of the array that
/// it is, or else the one that it is.
pub proof fn texts_hold_their_messages(
    s: Seq<char>,
    batch: Option<Vec<WsMessage>>,
    single: Option<WsMessage>,
)
    ensures
        ({
            let held = polymarket::messages_in(s, batch, single);
            let pong = s == "PONG"@ || s == "pong"@;
            let array = s.len() > 0 && s[0] == '[' && batch is Some;
            &&& pong ==> held.len() == 0
            &&& !pong && array ==> held == batch->0@
            &&& !pong && !array && single is Some ==> held.len() == 1 && held[0] == single->0
            &&& !pong && !array && single is None ==> held.len() == 0
        }),
{
    reveal_strlit("[");
    assert(crate::text::occurs_at(s, "["@, 0) <==> s.len() > 0 && s[0] == '[') by {
        if s.len() > 0 && s[0] == '[' {
            assert(s.subrange(0, 1) =~= "["@);
        }
        if crate::text::occurs_at(s, "["@, 0) {
            assert(s.subrange(0, 1)[0] == "["@[0]);
        }
    }
}

/// The best prices and sizes of a book are those of its first levels; the spread is the best ask
/// less the best bid, and zero where a side has no price.
pub proof fn first_levels_are_the_best(book: OrderBookView)
    ensures
        book.bids.len() > 0 ==> types::top_price(book.bids) == book.bids[0].price
            && types::top_size(book.bids) == book.bids[0].size,
        book.bids.len() == 0 || book.asks.len() == 0 ==> book.spread().val() == 0,
        book.bids.len() > 0 && book.asks.len() > 0 && book.bids[0].price.key() > 0
            && book.asks[0].price.key() > 0 && !book.bids[0].price.is_nan()
            && !book.asks[0].price.is_nan() ==> book.spread() == book.asks[0].price.minus(
            book.bids[0].price,
        ),
        types::top_price(Seq::empty()).val() == 0,
        types::top_size(Seq::empty()).val() == 0,
{
    laws::lemma_ratio(0, 1);
    integers::whole_numbers_are_exact(0);
}

/// Of a token without a book nothing is known: there are no levels, and tick and least size are
/// the usual ones.
pub proof fn unknown_books_are_empty(token_id: Seq<char>)
    ensures
        OrderBookView::empty(token_id).token_id == token_id,
        OrderBookView::empty(token_id).bids.len() == 0,
        OrderBookView::empty(token_id).asks.len() == 0,
        OrderBookView::empty(token_id).timestamp.val() == 0,
        OrderBookView::empty(token_id).tick_size == Double::ratio(1, 100),
        OrderBookView::empty(token_id).min_order_size == Double::ratio(5, 1),
{
    integers::whole_numbers_are_exact(0);
}

} // verus!

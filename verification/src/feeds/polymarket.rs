//! Polymarket order book stream.
//!
//! After connecting, the books of all tokens are asked for in one message. The server sends
//! whole books and single price changes. New tokens cannot be asked for on an existing
//! connection: the stream has to reconnect.

use dashmap::DashMap;
use vstd::prelude::*;

use super::levels;
use super::stream::{Backoff, Frame};
use super::types::{BookLevel, FeedUpdate, FeedUpdateView, OrderBook, OrderBookView};
use crate::double::Double;
use crate::store;
use crate::text;

verus! {

/// A message of the stream.
#[derive(Debug)]
pub struct WsMessage {
    pub event_type: Option<String>,
    pub asset_id: Option<String>,
    pub bids: Option<Vec<WsBookLevel>>,
    pub asks: Option<Vec<WsBookLevel>>,
    pub price_changes: Option<Vec<WsPriceChange>>,
}

/// A level of a book; a number is missing where its text is none.
#[derive(Clone, Copy, Debug)]
pub struct WsBookLevel {
    pub price: Option<Double>,
    pub size: Option<Double>,
}

/// A price change; a number is missing where it is absent or its text is none.
#[derive(Debug)]
pub struct WsPriceChange {
    pub asset_id: Option<String>,
    pub price: Option<Double>,
    pub size: Option<Double>,
    pub side: Option<String>,
}

/// A text, or the empty one.
pub open spec fn text_of(s: Option<String>) -> Seq<char> {
    match s {
        Some(t) => t@,
        None => Seq::empty(),
    }
}

/// The levels of which price and size are known.
pub open spec fn known_levels(s: Seq<WsBookLevel>) -> Seq<BookLevel>
    decreases s.len(),
{
    if s.len() == 0 {
        Seq::empty()
    } else {
        match (s.last().price, s.last().size) {
            (Some(price), Some(size)) => known_levels(s.drop_last()).push(
                BookLevel { price, size },
            ),
            _ => known_levels(s.drop_last()),
        }
    }
}

/// One side of a book in a message.
pub open spec fn side_levels(levels: Option<Vec<WsBookLevel>>) -> Seq<BookLevel> {
    match levels {
        Some(v) => known_levels(v@),
        None => Seq::empty(),
    }
}

/// The book that a message states.
pub open spec fn stated_book(msg: WsMessage, token_id: Seq<char>, now: Double) -> OrderBookView {
    OrderBookView {
        token_id,
        bids: side_levels(msg.bids),
        asks: side_levels(msg.asks),
        timestamp: now,
        tick_size: Double::ratio(1, 100),
        min_order_size: Double::ratio(5, 1),
    }
}

/// Whether a change says all that is needed.
pub open spec fn is_complete(c: WsPriceChange) -> bool {
    c.asset_id is Some && c.price is Some && c.size is Some
}

/// A book after a change.
pub open spec fn changed_book(
    book: OrderBookView,
    price: Double,
    size: Double,
    side: Seq<char>,
    now: Double,
) -> OrderBookView {
    if side == "BUY"@ {
        OrderBookView {
            bids: levels::changed(book.bids, price, size, true),
            timestamp: now,
            ..book
        }
    } else {
        OrderBookView {
            asks: levels::changed(book.asks, price, size, false),
            timestamp: now,
            ..book
        }
    }
}

/// The books after a change: only that of its token, where there is one, is touched.
pub open spec fn after_change(
    books: Map<Seq<char>, OrderBookView>,
    c: WsPriceChange,
    now: Double,
) -> Map<Seq<char>, OrderBookView> {
    if is_complete(c) && books.contains_key(c.asset_id->0@) {
        books.insert(
            c.asset_id->0@,
            changed_book(
                books[c.asset_id->0@],
                c.price->0,
                c.size->0,
                text_of(c.side),
                now,
            ),
        )
    } else {
        books
    }
}

/// The books after a row of changes.
pub open spec fn after_changes(
    books: Map<Seq<char>, OrderBookView>,
    changes: Seq<WsPriceChange>,
    now: Double,
) -> Map<Seq<char>, OrderBookView>
    decreases changes.len(),
{
    if changes.len() == 0 {
        books
    } else {
        after_change(after_changes(books, changes.drop_last(), now), changes.last(), now)
    }
}

/// The messages to subscribers for a row of changes.
pub open spec fn change_updates(changes: Seq<WsPriceChange>) -> Seq<FeedUpdateView>
    decreases changes.len(),
{
    if changes.len() == 0 {
        Seq::empty()
    } else {
        let c = changes.last();
        let front = change_updates(changes.drop_last());
        if is_complete(c) {
            front.push(
                FeedUpdateView::BookDelta {
                    token_id: c.asset_id->0@,
                    price: c.price->0,
                    size: c.size->0,
                    side: text_of(c.side),
                },
            )
        } else {
            front
        }
    }
}

/// The books after a message.
pub open spec fn after_message(
    books: Map<Seq<char>, OrderBookView>,
    msg: WsMessage,
    now: Double,
) -> Map<Seq<char>, OrderBookView> {
    if text_of(msg.event_type) == "book"@ && msg.asset_id is Some {
        books.insert(msg.asset_id->0@, stated_book(msg, msg.asset_id->0@, now))
    } else if text_of(msg.event_type) == "price_change"@ && msg.price_changes is Some {
        after_changes(books, msg.price_changes->0@, now)
    } else {
        books
    }
}

/// The messages to subscribers for a message.
pub open spec fn message_updates(msg: WsMessage, now: Double) -> Seq<FeedUpdateView> {
    if text_of(msg.event_type) == "book"@ && msg.asset_id is Some {
        seq![FeedUpdateView::BookSnapshot(stated_book(msg, msg.asset_id->0@, now))]
    } else if text_of(msg.event_type) == "price_change"@ && msg.price_changes is Some {
        change_updates(msg.price_changes->0@)
    } else {
        Seq::empty()
    }
}

/// The books after a row of messages.
pub open spec fn after_messages(
    books: Map<Seq<char>, OrderBookView>,
    msgs: Seq<WsMessage>,
    now: Double,
) -> Map<Seq<char>, OrderBookView>
    decreases msgs.len(),
{
    if msgs.len() == 0 {
        books
    } else {
        after_message(after_messages(books, msgs.drop_last(), now), msgs.last(), now)
    }
}

/// The messages to subscribers for a row of messages.
pub open spec fn messages_updates(msgs: Seq<WsMessage>, now: Double) -> Seq<FeedUpdateView>
    decreases msgs.len(),
{
    if msgs.len() == 0 {
        Seq::empty()
    } else {
        messages_updates(msgs.drop_last(), now) + message_updates(msgs.last(), now)
    }
}

/// What a list of messages to subscribers says.
pub open spec fn update_views(updates: Seq<FeedUpdate>) -> Seq<FeedUpdateView> {
    updates.map_values(|u: FeedUpdate| u@)
}

/// Whether a text only answers a ping.
pub open spec fn is_pong(s: Seq<char>) -> bool {
    s == "PONG"@ || s == "pong"@
}

/// The messages that a text stands for: `batch` and `single` say what it is as an array of
/// messages and as a message.
pub open spec fn messages_in(
    s: Seq<char>,
    batch: Option<Vec<WsMessage>>,
    single: Option<WsMessage>,
) -> Seq<WsMessage> {
    if is_pong(s) {
        Seq::empty()
    } else if text::occurs_at(s, "["@, 0) && batch is Some {
        batch->0@
    } else if single is Some {
        seq![single->0]
    } else {
        Seq::empty()
    }
}

/// The tokens after more were asked for, in order of first mention.
pub open spec fn joined_tokens(tokens: Seq<Seq<char>>, more: Seq<Seq<char>>) -> Seq<Seq<char>>
    decreases more.len(),
{
    if more.len() == 0 {
        tokens
    } else {
        let front = joined_tokens(tokens, more.drop_last());
        if front.contains(more.last()) {
            front
        } else {
            front.push(more.last())
        }
    }
}

/// The tokens that are left after some were given up.
pub open spec fn remaining_tokens(tokens: Seq<Seq<char>>, gone: Seq<Seq<char>>) -> Seq<Seq<char>>
    decreases tokens.len(),
{
    if tokens.len() == 0 {
        tokens
    } else {
        let front = remaining_tokens(tokens.drop_last(), gone);
        if gone.contains(tokens.last()) {
            front
        } else {
            front.push(tokens.last())
        }
    }
}

/// The books that are left after some tokens were given up.
pub open spec fn remaining_books(
    books: Map<Seq<char>, OrderBookView>,
    gone: Seq<Seq<char>>,
) -> Map<Seq<char>, OrderBookView>
    decreases gone.len(),
{
    if gone.len() == 0 {
        books
    } else {
        remaining_books(books, gone.drop_last()).remove(gone.last())
    }
}

/// Whether a connection that was made for `joined` does not serve `tokens`: one of them is new,
/// or their number has changed.
pub open spec fn differs(tokens: Seq<Seq<char>>, joined: Seq<Seq<char>>) -> bool {
    ||| tokens.len() != joined.len()
    ||| exists|i: int| 0 <= i < tokens.len() && !joined.contains(#[trigger] tokens[i])
}

fn has_changed(tokens: &Vec<String>, joined: &Vec<String>) -> (r: bool)
    ensures
        r == differs(text::texts(tokens@), text::texts(joined@)),
{
    let ghost wanted: Seq<Seq<char>> = text::texts(tokens@);
    if tokens.len() != joined.len() {
        return true;
    }
    let mut i: usize = 0;
    while i < tokens.len()
        invariant
            i <= tokens@.len(),
            wanted == text::texts(tokens@),
            forall|j: int|
                0 <= j < i ==> text::texts(joined@).contains(#[trigger] wanted[j]),
        decreases tokens@.len() - i,
    {
        assert(wanted[i as int] == tokens@[i as int]@);
        if !text::listed(joined, &tokens[i]) {
            return true;
        }
        i = i + 1;
    }
    false
}

/// How far the connection has come.
#[derive(Clone, Copy, Debug, PartialEq, Eq, Structural)]
pub enum BookPhase {
    /// Nothing to subscribe to.
    Waiting,
    Connecting,
    Subscribing,
    Reading,
    Pausing,
}

/// What happened to the connection.
#[derive(Clone, Copy, Debug, PartialEq, Eq, Structural)]
pub enum BookEvent {
    /// The connection is up.
    Opened,
    /// The connection could not be made.
    Refused,
    /// The subscription was sent.
    Sent,
    /// The subscription could not be sent.
    NotSent,
    /// A frame arrived.
    Arrived(Frame),
    /// It is time for a ping.
    PingDue,
    /// The ping could not be sent.
    PingFailed,
    /// The list of tokens may have grown.
    Notified,
    /// The wait is over.
    Rested,
}

/// What to do next with the connection.
#[derive(Clone, Copy, Debug, PartialEq, Eq, Structural)]
pub enum BookAction {
    /// Wait for a notice, at most so many seconds.
    Await { seconds: u64 },
    Connect,
    /// Ask for the books of the tokens that were known when connecting.
    Subscribe,
    /// Read the next frame.
    Read,
    /// Handle the text that arrived, then read on.
    Handle,
    /// Answer a ping, then read on.
    Answer,
    /// Send a ping, then read on.
    Ping,
    /// Wait for so many seconds; `close` says whether to close the connection first.
    Pause { seconds: u64, close: bool },
    /// Nothing: the event does not belong to the phase.
    Nothing,
}

/// State of the connection.
pub struct BookLinkView {
    pub phase: BookPhase,
    pub backoff: Backoff,
    /// The tokens that the connection was made for.
    pub joined: Seq<Seq<char>>,
}

impl BookLinkView {
    /// The state at the start of an attempt, and what to do.
    pub open spec fn attempt(self, tokens: Seq<Seq<char>>) -> (BookLinkView, BookAction) {
        if tokens.len() == 0 {
            (
                BookLinkView { phase: BookPhase::Waiting, ..self },
                BookAction::Await { seconds: 2 },
            )
        } else {
            (
                BookLinkView { phase: BookPhase::Connecting, joined: tokens, ..self },
                BookAction::Connect,
            )
        }
    }

    /// The state after the connection was given up, and the pause that follows.
    pub open spec fn paused(self, close: bool) -> (BookLinkView, BookAction) {
        (
            BookLinkView { phase: BookPhase::Pausing, backoff: self.backoff.doubled(), ..self },
            BookAction::Pause { seconds: self.backoff.delay, close },
        )
    }

    /// The state after an event, and what to do next.
    pub open spec fn next(
        self,
        event: BookEvent,
        tokens: Seq<Seq<char>>,
    ) -> (BookLinkView, BookAction) {
        match (self.phase, event) {
            (BookPhase::Waiting, BookEvent::Rested) => self.attempt(tokens),
            (BookPhase::Waiting, BookEvent::Notified) => self.attempt(tokens),
            (BookPhase::Pausing, BookEvent::Rested) => self.attempt(tokens),
            (BookPhase::Connecting, BookEvent::Opened) => (
                BookLinkView {
                    phase: BookPhase::Subscribing,
                    backoff: Backoff { delay: 1, limit: self.backoff.limit },
                    ..self
                },
                BookAction::Subscribe,
            ),
            (BookPhase::Connecting, BookEvent::Refused) => self.paused(false),
            (BookPhase::Subscribing, BookEvent::Sent) => (
                BookLinkView { phase: BookPhase::Reading, ..self },
                BookAction::Read,
            ),
            (BookPhase::Subscribing, BookEvent::NotSent) => self.paused(false),
            (BookPhase::Reading, BookEvent::Arrived(frame)) => match frame {
                Frame::Text => (self, BookAction::Handle),
                Frame::Ping => (self, BookAction::Answer),
                Frame::Other => (self, BookAction::Read),
                Frame::Close | Frame::Failed | Frame::Ended => self.paused(false),
            },
            (BookPhase::Reading, BookEvent::PingDue) => (self, BookAction::Ping),
            (BookPhase::Reading, BookEvent::PingFailed) => self.paused(false),
            (BookPhase::Reading, BookEvent::Notified) => if differs(tokens, self.joined) {
                self.paused(true)
            } else {
                (self, BookAction::Read)
            },
            _ => (self, BookAction::Nothing),
        }
    }
}

/// Polymarket order book stream.
pub struct PolymarketFeed {
    pub ws_url: String,
    pub books: DashMap<String, OrderBook>,
    pub subscribed_tokens: Vec<String>,
    pub phase: BookPhase,
    pub backoff: Backoff,
    pub joined: Vec<String>,
}

impl PolymarketFeed {
    /// No token is subscribed to twice, and the delay is in bounds.
    pub open spec fn wf(&self) -> bool {
        &&& self.backoff.wf()
        &&& self.tokens().no_duplicates()
    }

    /// The order books.
    pub open spec fn contents(&self) -> Map<Seq<char>, OrderBookView> {
        store::books_of(self.books)
    }

    /// The tokens that are subscribed to.
    pub open spec fn tokens(&self) -> Seq<Seq<char>> {
        text::texts(self.subscribed_tokens@)
    }

    /// The state of the connection.
    pub open spec fn link(&self) -> BookLinkView {
        BookLinkView { phase: self.phase, backoff: self.backoff, joined: text::texts(self.joined@) }
    }

    /// A feed that is subscribed to nothing; a connection is tried at most once a minute after
    /// repeated failures.
    pub fn new(ws_url: &str) -> (r: Self)
        ensures
            r.ws_url@ == ws_url@,
            r.contents() == Map::<Seq<char>, OrderBookView>::empty(),
            r.tokens() == Seq::<Seq<char>>::empty(),
            r.link() == (BookLinkView {
                phase: BookPhase::Pausing,
                backoff: Backoff { delay: 1, limit: 60 },
                joined: Seq::empty(),
            }),
            r.wf(),
    {
        let subscribed_tokens: Vec<String> = Vec::new();
        let joined: Vec<String> = Vec::new();
        assert(text::texts(subscribed_tokens@) =~= Seq::<Seq<char>>::empty());
        assert(text::texts(joined@) =~= Seq::<Seq<char>>::empty());
        let books: DashMap<String, OrderBook> = store::no_books();
        assert(store::books_of(books) =~= Map::<Seq<char>, OrderBookView>::empty());
        PolymarketFeed {
            ws_url: ws_url.to_string(),
            books,
            subscribed_tokens,
            phase: BookPhase::Pausing,
            backoff: Backoff::new(60),
            joined,
        }
    }

    fn attempt(&mut self) -> (r: BookAction)
        requires
            old(self).wf(),
        ensures
            (final(self).link(), r) == old(self).link().attempt(old(self).tokens()),
            final(self).books == old(self).books,
            final(self).subscribed_tokens == old(self).subscribed_tokens,
            final(self).ws_url == old(self).ws_url,
            final(self).wf(),
    {
        if self.subscribed_tokens.len() == 0 {
            self.phase = BookPhase::Waiting;
            BookAction::Await { seconds: 2 }
        } else {
            self.phase = BookPhase::Connecting;
            self.joined = text::copied(&self.subscribed_tokens);
            BookAction::Connect
        }
    }

    fn pause(&mut self, close: bool) -> (r: BookAction)
        requires
            old(self).wf(),
        ensures
            (final(self).link(), r) == old(self).link().paused(close),
            final(self).books == old(self).books,
            final(self).subscribed_tokens == old(self).subscribed_tokens,
            final(self).ws_url == old(self).ws_url,
            final(self).wf(),
    {
        self.phase = BookPhase::Pausing;
        let seconds: u64 = self.backoff.take();
        BookAction::Pause { seconds, close }
    }

    /// Takes note of what happened to the connection, and says what to do next.
    pub fn advance(&mut self, event: BookEvent) -> (r: BookAction)
        requires
            old(self).wf(),
        ensures
            (final(self).link(), r) == old(self).link().next(event, old(self).tokens()),
            final(self).books == old(self).books,
            final(self).subscribed_tokens == old(self).subscribed_tokens,
            final(self).ws_url == old(self).ws_url,
            final(self).wf(),
    {
        match (self.phase, event) {
            (BookPhase::Waiting, BookEvent::Rested) => self.attempt(),
            (BookPhase::Waiting, BookEvent::Notified) => self.attempt(),
            (BookPhase::Pausing, BookEvent::Rested) => self.attempt(),
            (BookPhase::Connecting, BookEvent::Opened) => {
                self.phase = BookPhase::Subscribing;
                self.backoff.reset();
                BookAction::Subscribe
            },
            (BookPhase::Connecting, BookEvent::Refused) => self.pause(false),
            (BookPhase::Subscribing, BookEvent::Sent) => {
                self.phase = BookPhase::Reading;
                BookAction::Read
            },
            (BookPhase::Subscribing, BookEvent::NotSent) => self.pause(false),
            (BookPhase::Reading, BookEvent::Arrived(frame)) => match frame {
                Frame::Text => BookAction::Handle,
                Frame::Ping => BookAction::Answer,
                Frame::Other => BookAction::Read,
                Frame::Close | Frame::Failed | Frame::Ended => self.pause(false),
            },
            (BookPhase::Reading, BookEvent::PingDue) => BookAction::Ping,
            (BookPhase::Reading, BookEvent::PingFailed) => self.pause(false),
            (BookPhase::Reading, BookEvent::Notified) => {
                if has_changed(&self.subscribed_tokens, &self.joined) {
                    self.pause(true)
                } else {
                    BookAction::Read
                }
            },
            _ => BookAction::Nothing,
        }
    }

    /// Takes in a text that arrived. `batch` is what the text is as an array of messages, and
    /// `single` what it is as a message, where it is one.
    pub fn handle_message(
        &mut self,
        s: &str,
        batch: Option<Vec<WsMessage>>,
        single: Option<WsMessage>,
        now: Double,
    ) -> (r: Vec<FeedUpdate>)
        ensures
            final(self).contents() == after_messages(
                old(self).contents(),
                messages_in(s@, batch, single),
                now,
            ),
            update_views(r@) == messages_updates(messages_in(s@, batch, single), now),
            final(self).link() == old(self).link(),
            final(self).subscribed_tokens == old(self).subscribed_tokens,
            final(self).ws_url == old(self).ws_url,
    {
        let mut msgs: Vec<WsMessage> = Vec::new();
        if text::same(s, "PONG") || text::same(s, "pong") {
            return self.process_messages(msgs, now);
        }
        if text::starts_with(s, "[") {
            match batch {
                Some(batch) => return self.process_messages(batch, now),
                None => {},
            }
        }
        match single {
            Some(single) => {
                msgs.push(single);
                assert(msgs@ =~= seq![single]);
            },
            None => {},
        }
        self.process_messages(msgs, now)
    }

    fn process_messages(&mut self, msgs: Vec<WsMessage>, now: Double) -> (r: Vec<FeedUpdate>)
        ensures
            final(self).contents() == after_messages(old(self).contents(), msgs@, now),
            update_views(r@) == messages_updates(msgs@, now),
            final(self).link() == old(self).link(),
            final(self).subscribed_tokens == old(self).subscribed_tokens,
            final(self).ws_url == old(self).ws_url,
    {
        let mut out: Vec<FeedUpdate> = Vec::new();
        let mut i: usize = 0;
        assert(msgs@.subrange(0, 0) =~= Seq::<WsMessage>::empty());
        assert(update_views(out@) =~= Seq::<FeedUpdateView>::empty());
        while i < msgs.len()
            invariant
                i <= msgs@.len(),
                self.contents() == after_messages(
                    old(self).contents(),
                    msgs@.subrange(0, i as int),
                    now,
                ),
                update_views(out@) == messages_updates(msgs@.subrange(0, i as int), now),
                self.link() == old(self).link(),
                self.subscribed_tokens == old(self).subscribed_tokens,
                self.ws_url == old(self).ws_url,
            decreases msgs@.len() - i,
        {
            proof {
                assert(msgs@.subrange(0, i + 1).drop_last() =~= msgs@.subrange(0, i as int));
            }
            let mut more: Vec<FeedUpdate> = self.process_message(&msgs[i], now);
            let ghost before: Seq<FeedUpdate> = out@;
            let ghost added: Seq<FeedUpdate> = more@;
            out.append(&mut more);
            proof {
                assert(out@ =~= before + added);
                assert(update_views(out@) =~= update_views(before) + update_views(added));
            }
            i = i + 1;
        }
        assert(msgs@.subrange(0, i as int) =~= msgs@);
        out
    }

    /// Takes in a message: the books that it changes, and what subscribers are told.
    pub fn process_message(&mut self, msg: &WsMessage, now: Double) -> (r: Vec<FeedUpdate>)
        ensures
            final(self).contents() == after_message(old(self).contents(), *msg, now),
            update_views(r@) == message_updates(*msg, now),
            final(self).link() == old(self).link(),
            final(self).subscribed_tokens == old(self).subscribed_tokens,
            final(self).ws_url == old(self).ws_url,
    {
        let mut out: Vec<FeedUpdate> = Vec::new();
        assert(update_views(out@) =~= Seq::<FeedUpdateView>::empty());
        let event_type: &str = match &msg.event_type {
            Some(t) => t.as_str(),
            None => "",
        };
        proof {
            reveal_strlit("");
            assert(""@ =~= Seq::<char>::empty());
            reveal_strlit("book");
            reveal_strlit("price_change");
        }
        if text::same(event_type, "book") {
            assert("book"@.len() != "price_change"@.len());
            match &msg.asset_id {
                Some(asset_id) => {
                    let book: OrderBook = OrderBook {
                        token_id: asset_id.clone(),
                        bids: Self::copy_side(&msg.bids),
                        asks: Self::copy_side(&msg.asks),
                        timestamp: now,
                        tick_size: Double::ratio(1, 100),
                        min_order_size: Double::ratio(5, 1),
                    };
                    assert(book@ == stated_book(*msg, asset_id@, now));
                    out.push(FeedUpdate::BookSnapshot(book.clone()));
                    store::insert_book(&mut self.books, asset_id.clone(), book);
                    assert(update_views(out@) =~= message_updates(*msg, now));
                },
                None => {},
            }
        } else if text::same(event_type, "price_change") {
            match &msg.price_changes {
                Some(changes) => {
                    out = self.process_changes(changes, now);
                },
                None => {},
            }
        }
        out
    }

    fn copy_side(found: &Option<Vec<WsBookLevel>>) -> (r: Vec<BookLevel>)
        ensures
            r@ == side_levels(*found),
    {
        let mut out: Vec<BookLevel> = Vec::new();
        match found {
            Some(stated) => {
                let mut i: usize = 0;
                assert(stated@.subrange(0, 0) =~= Seq::<WsBookLevel>::empty());
                while i < stated.len()
                    invariant
                        i <= stated@.len(),
                        out@ == known_levels(stated@.subrange(0, i as int)),
                    decreases stated@.len() - i,
                {
                    proof {
                        assert(stated@.subrange(0, i + 1).drop_last() =~= stated@.subrange(
                            0,
                            i as int,
                        ));
                    }
                    let level: WsBookLevel = stated[i];
                    match (level.price, level.size) {
                        (Some(price), Some(size)) => {
                            out.push(BookLevel { price, size });
                        },
                        _ => {},
                    }
                    i = i + 1;
                }
                assert(stated@.subrange(0, i as int) =~= stated@);
            },
            None => {},
        }
        out
    }

    fn process_changes(&mut self, changes: &Vec<WsPriceChange>, now: Double) -> (r: Vec<
        FeedUpdate,
    >)
        ensures
            final(self).contents() == after_changes(old(self).contents(), changes@, now),
            update_views(r@) == change_updates(changes@),
            final(self).link() == old(self).link(),
            final(self).subscribed_tokens == old(self).subscribed_tokens,
            final(self).ws_url == old(self).ws_url,
    {
        let mut out: Vec<FeedUpdate> = Vec::new();
        let mut i: usize = 0;
        assert(changes@.subrange(0, 0) =~= Seq::<WsPriceChange>::empty());
        assert(update_views(out@) =~= Seq::<FeedUpdateView>::empty());
        while i < changes.len()
            invariant
                i <= changes@.len(),
                self.contents() == after_changes(
                    old(self).contents(),
                    changes@.subrange(0, i as int),
                    now,
                ),
                update_views(out@) == change_updates(changes@.subrange(0, i as int)),
                self.link() == old(self).link(),
                self.subscribed_tokens == old(self).subscribed_tokens,
                self.ws_url == old(self).ws_url,
            decreases changes@.len() - i,
        {
            proof {
                assert(changes@.subrange(0, i + 1).drop_last() =~= changes@.subrange(
                    0,
                    i as int,
                ));
            }
            let change: &WsPriceChange = &changes[i];
            let ghost before: Seq<FeedUpdate> = out@;
            match (&change.asset_id, change.price, change.size) {
                (Some(asset_id), Some(price), Some(size)) => {
                    let side: String = match &change.side {
                        Some(s) => s.clone(),
                        None => {
                            proof {
                                reveal_strlit("");
                                assert(""@ =~= Seq::<char>::empty());
                            }
                            "".to_string()
                        },
                    };
                    self.apply_change(asset_id, price, size, side.as_str(), now);
                    out.push(
                        FeedUpdate::BookDelta { token_id: asset_id.clone(), price, size, side },
                    );
                    assert(update_views(out@) =~= update_views(before).push(out@.last()@));
                },
                _ => {},
            }
            i = i + 1;
        }
        assert(changes@.subrange(0, i as int) =~= changes@);
        out
    }

    fn apply_change(
        &mut self,
        asset_id: &String,
        price: Double,
        size: Double,
        side: &str,
        now: Double,
    )
        ensures
            final(self).contents() == if old(self).contents().contains_key(asset_id@) {
                old(self).contents().insert(
                    asset_id@,
                    changed_book(old(self).contents()[asset_id@], price, size, side@, now),
                )
            } else {
                old(self).contents()
            },
            final(self).link() == old(self).link(),
            final(self).subscribed_tokens == old(self).subscribed_tokens,
            final(self).ws_url == old(self).ws_url,
    {
        match store::find_book(&self.books, asset_id.as_str()) {
            Some(found) => {
                let mut book: OrderBook = found;
                if text::same(side, "BUY") {
                    levels::change(&mut book.bids, price, size, true);
                } else {
                    levels::change(&mut book.asks, price, size, false);
                }
                book.timestamp = now;
                store::insert_book(&mut self.books, asset_id.clone(), book);
            },
            None => {},
        }
    }

    /// Adds tokens to those subscribed to. The result says whether any is new: then the
    /// connection has to be notified.
    pub fn subscribe(&mut self, token_ids: Vec<String>) -> (r: bool)
        requires
            old(self).wf(),
        ensures
            final(self).tokens() == joined_tokens(old(self).tokens(), text::texts(token_ids@)),
            r == (exists|i: int|
                0 <= i < token_ids@.len() && !old(self).tokens().contains(
                    #[trigger] text::texts(token_ids@)[i],
                )),
            final(self).books == old(self).books,
            final(self).link() == old(self).link(),
            final(self).ws_url == old(self).ws_url,
            final(self).wf(),
    {
        let mut added: bool = false;
        let mut i: usize = 0;
        assert(text::texts(token_ids@).subrange(0, 0) =~= Seq::<Seq<char>>::empty());
        while i < token_ids.len()
            invariant
                i <= token_ids@.len(),
                self.tokens() == joined_tokens(
                    old(self).tokens(),
                    text::texts(token_ids@).subrange(0, i as int),
                ),
                added == (exists|k: int|
                    0 <= k < i && !old(self).tokens().contains(
                        #[trigger] text::texts(token_ids@)[k],
                    )),
                !added ==> self.tokens() == old(self).tokens(),
                forall|t: Seq<char>|
                    self.tokens().contains(t) ==> old(self).tokens().contains(t) || exists|k: int|
                        0 <= k < i && #[trigger] text::texts(token_ids@)[k] == t,
                self.books == old(self).books,
                self.link() == old(self).link(),
                self.ws_url == old(self).ws_url,
                self.wf(),
            decreases token_ids@.len() - i,
        {
            let ghost before: Seq<Seq<char>> = self.tokens();
            let ghost t: Seq<char> = text::texts(token_ids@)[i as int];
            proof {
                assert(text::texts(token_ids@).subrange(0, i + 1).drop_last() =~= text::texts(
                    token_ids@,
                ).subrange(0, i as int));
                assert(t == token_ids@[i as int]@);
            }
            if !text::listed(&self.subscribed_tokens, &token_ids[i]) {
                self.subscribed_tokens.push(token_ids[i].clone());
                proof {
                    assert(self.tokens() =~= before.push(t));
                    subscribing_keeps_tokens(
                        old(self).tokens(),
                        text::texts(token_ids@).subrange(0, i as int),
                    );
                    assert(!old(self).tokens().contains(t));
                }
                added = true;
            } else {
                proof {
                    if !old(self).tokens().contains(t) {
                        let k = choose|k: int|
                            0 <= k < i && #[trigger] text::texts(token_ids@)[k] == t;
                        assert(!old(self).tokens().contains(text::texts(token_ids@)[k]));
                    }
                }
            }
            proof {
                assert forall|u: Seq<char>| self.tokens().contains(u) implies old(
                    self,
                ).tokens().contains(u) || exists|k: int|
                    0 <= k < i + 1 && #[trigger] text::texts(token_ids@)[k] == u by {
                    if before.contains(u) {
                        if !old(self).tokens().contains(u) {
                            let k = choose|k: int|
                                0 <= k < i && #[trigger] text::texts(token_ids@)[k] == u;
                            assert(text::texts(token_ids@)[k] == u);
                        }
                    } else {
                        let m = choose|m: int|
                            0 <= m < self.tokens().len() && self.tokens()[m] == u;
                        assert(m == before.len());
                        assert(text::texts(token_ids@)[i as int] == u);
                    }
                }
            }
            i = i + 1;
        }
        assert(text::texts(token_ids@).subrange(0, i as int) =~= text::texts(token_ids@));
        added
    }

    /// Gives up tokens, and forgets their books.
    pub fn unsubscribe(&mut self, token_ids: Vec<String>)
        requires
            old(self).wf(),
        ensures
            final(self).tokens() == remaining_tokens(old(self).tokens(), text::texts(token_ids@)),
            final(self).contents() == remaining_books(
                old(self).contents(),
                text::texts(token_ids@),
            ),
            final(self).link() == old(self).link(),
            final(self).ws_url == old(self).ws_url,
            final(self).wf(),
    {
        let ghost start: Seq<Seq<char>> = self.tokens();
        let ghost gone: Seq<Seq<char>> = text::texts(token_ids@);
        let mut kept: Vec<String> = Vec::new();
        let mut i: usize = 0;
        assert(start.subrange(0, 0) =~= Seq::<Seq<char>>::empty());
        assert(text::texts(kept@) =~= Seq::<Seq<char>>::empty());
        while i < self.subscribed_tokens.len()
            invariant
                i <= self.subscribed_tokens@.len(),
                start == self.tokens(),
                gone == text::texts(token_ids@),
                text::texts(kept@) == remaining_tokens(start.subrange(0, i as int), gone),
            decreases self.subscribed_tokens@.len() - i,
        {
            proof {
                assert(start.subrange(0, i + 1).drop_last() =~= start.subrange(0, i as int));
                assert(start[i as int] == self.subscribed_tokens@[i as int]@);
            }
            if !text::listed(&token_ids, &self.subscribed_tokens[i]) {
                let ghost before: Seq<String> = kept@;
                kept.push(self.subscribed_tokens[i].clone());
                assert(text::texts(kept@) =~= text::texts(before).push(start[i as int]));
            }
            i = i + 1;
        }
        assert(start.subrange(0, i as int) =~= start);
        proof {
            unsubscribed_tokens_are_gone(start, gone);
        }
        self.subscribed_tokens = kept;
        let mut k: usize = 0;
        assert(gone.subrange(0, 0) =~= Seq::<Seq<char>>::empty());
        while k < token_ids.len()
            invariant
                k <= token_ids@.len(),
                gone == text::texts(token_ids@),
                self.contents() == remaining_books(
                    old(self).contents(),
                    gone.subrange(0, k as int),
                ),
                self.tokens() == remaining_tokens(old(self).tokens(), gone),
                self.link() == old(self).link(),
                self.ws_url == old(self).ws_url,
                self.wf(),
            decreases token_ids@.len() - k,
        {
            proof {
                assert(gone.subrange(0, k + 1).drop_last() =~= gone.subrange(0, k as int));
            }
            store::remove_book(&mut self.books, token_ids[k].as_str());
            k = k + 1;
        }
        assert(gone.subrange(0, k as int) =~= gone);
    }

    /// The order book of a token.
    pub fn get_book(&self, token_id: &str) -> (r: Option<OrderBook>)
        ensures
            r is Some <==> self.contents().contains_key(token_id@),
            r matches Some(book) ==> book@ == self.contents()[token_id@],
    {
        store::find_book(&self.books, token_id)
    }
}

/// Subscribing keeps the tokens that were there.
pub proof fn subscribing_keeps_tokens(tokens: Seq<Seq<char>>, more: Seq<Seq<char>>)
    ensures
        forall|t: Seq<char>| tokens.contains(t) ==> joined_tokens(tokens, more).contains(t),
    decreases more.len(),
{
    if more.len() > 0 {
        subscribing_keeps_tokens(tokens, more.drop_last());
        let front = joined_tokens(tokens, more.drop_last());
        let all = joined_tokens(tokens, more);
        assert forall|t: Seq<char>| tokens.contains(t) implies all.contains(t) by {
            let i = choose|i: int| 0 <= i < front.len() && front[i] == t;
            assert(all[i] == t);
        }
    }
}

/// What is left after unsubscribing is free of repetitions, and holds exactly the tokens that
/// were not given up.
pub proof fn unsubscribed_tokens_are_gone(tokens: Seq<Seq<char>>, gone: Seq<Seq<char>>)
    requires
        tokens.no_duplicates(),
    ensures
        remaining_tokens(tokens, gone).no_duplicates(),
        forall|t: Seq<char>|
            remaining_tokens(tokens, gone).contains(t) <==> tokens.contains(t) && !gone.contains(t),
    decreases tokens.len(),
{
    if tokens.len() > 0 {
        let front = tokens.drop_last();
        let last = tokens.last();
        unsubscribed_tokens_are_gone(front, gone);
        let kept = remaining_tokens(front, gone);
        let all = remaining_tokens(tokens, gone);
        assert(!front.contains(last)) by {
            if front.contains(last) {
                let i = choose|i: int| 0 <= i < front.len() && front[i] == last;
                assert(tokens[i] == tokens[tokens.len() - 1]);
            }
        }
        assert forall|t: Seq<char>| tokens.contains(t) <==> front.contains(t) || t == last by {
            if tokens.contains(t) && t != last {
                let i = choose|i: int| 0 <= i < tokens.len() && tokens[i] == t;
                assert(front[i] == t);
            }
            if front.contains(t) {
                let i = choose|i: int| 0 <= i < front.len() && front[i] == t;
                assert(tokens[i] == t);
            }
            assert(tokens[tokens.len() - 1] == last);
        }
        if !gone.contains(last) {
            assert forall|t: Seq<char>| all.contains(t) <==> kept.contains(t) || t == last by {
                if all.contains(t) && t != last {
                    let i = choose|i: int| 0 <= i < all.len() && all[i] == t;
                    assert(kept[i] == t);
                }
                if kept.contains(t) {
                    let i = choose|i: int| 0 <= i < kept.len() && kept[i] == t;
                    assert(all[i] == t);
                }
                assert(all[all.len() - 1] == last);
            }
        }
    }
}

/// Every token that is subscribed to is there afterwards, and subscribing again changes
/// nothing.
pub proof fn subscribed_tokens_are_there(tokens: Seq<Seq<char>>, more: Seq<Seq<char>>)
    ensures
        forall|t: Seq<char>| more.contains(t) ==> joined_tokens(tokens, more).contains(t),
        joined_tokens(joined_tokens(tokens, more), more) == joined_tokens(tokens, more),
    decreases more.len(),
{
    lemma_joined_holds(tokens, more);
    lemma_joined_known(joined_tokens(tokens, more), more);
}

proof fn lemma_joined_holds(tokens: Seq<Seq<char>>, more: Seq<Seq<char>>)
    ensures
        forall|t: Seq<char>| more.contains(t) ==> joined_tokens(tokens, more).contains(t),
    decreases more.len(),
{
    if more.len() > 0 {
        let rest = more.drop_last();
        lemma_joined_holds(tokens, rest);
        let front = joined_tokens(tokens, rest);
        let all = joined_tokens(tokens, more);
        assert forall|t: Seq<char>| more.contains(t) implies all.contains(t) by {
            if t == more.last() {
                if !front.contains(t) {
                    assert(all[all.len() - 1] == t);
                }
            } else {
                let i = choose|i: int| 0 <= i < more.len() && more[i] == t;
                assert(rest[i] == t);
                assert(rest.contains(t));
                let j = choose|j: int| 0 <= j < front.len() && front[j] == t;
                assert(all[j] == t);
            }
        }
    }
}

proof fn lemma_joined_known(tokens: Seq<Seq<char>>, more: Seq<Seq<char>>)
    requires
        forall|t: Seq<char>| more.contains(t) ==> tokens.contains(t),
    ensures
        joined_tokens(tokens, more) == tokens,
    decreases more.len(),
{
    if more.len() > 0 {
        let rest = more.drop_last();
        assert forall|t: Seq<char>| rest.contains(t) implies tokens.contains(t) by {
            let i = choose|i: int| 0 <= i < rest.len() && rest[i] == t;
            assert(more[i] == t);
        }
        lemma_joined_known(tokens, rest);
        assert(more[more.len() - 1] == more.last());
        assert(more.contains(more.last()));
    }
}

/// A price change touches no book but that of its token, makes no book and drops none.
pub proof fn change_is_local(
    books: Map<Seq<char>, OrderBookView>,
    c: WsPriceChange,
    now: Double,
    other: Seq<char>,
)
    ensures
        after_change(books, c, now).contains_key(other) == books.contains_key(other),
        c.asset_id is None || c.asset_id->0@ != other ==> after_change(books, c, now)[other]
            == books[other],
{
}

/// A row of price changes makes no book and drops none.
pub proof fn changes_keep_books(
    books: Map<Seq<char>, OrderBookView>,
    changes: Seq<WsPriceChange>,
    now: Double,
    token: Seq<char>,
)
    ensures
        after_changes(books, changes, now).contains_key(token) == books.contains_key(token),
    decreases changes.len(),
{
    if changes.len() > 0 {
        changes_keep_books(books, changes.drop_last(), now, token);
        change_is_local(
            after_changes(books, changes.drop_last(), now),
            changes.last(),
            now,
            token,
        );
    }
}

/// Whether both sides of a book are strictly in order, at prices that are not infinite.
pub open spec fn book_in_order(book: OrderBookView) -> bool {
    levels::strictly_ordered(book.bids, true) && levels::strictly_ordered(book.asks, false)
}

/// Whether all books are in order.
pub open spec fn books_in_order(books: Map<Seq<char>, OrderBookView>) -> bool {
    forall|token: Seq<char>| #[trigger] books.contains_key(token) ==> book_in_order(books[token])
}

/// Whether no change gives an infinite price.
pub open spec fn finite_prices(changes: Seq<WsPriceChange>) -> bool {
    forall|i: int|
        0 <= i < changes.len() && (#[trigger] changes[i]).price is Some
            ==> changes[i].price->0.is_finite()
}

/// Whether a change speaks of a token.
pub open spec fn names(c: WsPriceChange, token: Seq<char>) -> bool {
    c.asset_id is Some && c.asset_id->0@ == token
}

/// Price changes keep every book strictly in order, best first and no price twice; make no book,
/// also not for a token that they name, and drop none; leave the books of tokens that they do
/// not name as they are; and touch the asks of a token only where one of them is no purchase,
/// its bids only where one is.
pub proof fn changes_keep_order(
    books: Map<Seq<char>, OrderBookView>,
    changes: Seq<WsPriceChange>,
    now: Double,
    token: Seq<char>,
)
    requires
        books_in_order(books),
        finite_prices(changes),
    ensures
        books_in_order(after_changes(books, changes, now)),
        after_changes(books, changes, now).contains_key(token) == books.contains_key(token),
        (forall|i: int| 0 <= i < changes.len() ==> !names(#[trigger] changes[i], token))
            ==> after_changes(books, changes, now)[token] == books[token],
        (forall|i: int|
            0 <= i < changes.len() && names(#[trigger] changes[i], token) ==> text_of(
                changes[i].side,
            ) == "BUY"@) ==> after_changes(books, changes, now)[token].asks == books[token].asks,
        (forall|i: int|
            0 <= i < changes.len() && names(#[trigger] changes[i], token) ==> text_of(
                changes[i].side,
            ) != "BUY"@) ==> after_changes(books, changes, now)[token].bids == books[token].bids,
    decreases changes.len(),
{
    if changes.len() > 0 {
        let front = changes.drop_last();
        let c = changes.last();
        assert(forall|i: int| 0 <= i < front.len() ==> front[i] == changes[i]);
        changes_keep_order(books, front, now, token);
        assert(changes[changes.len() - 1] == c);
        let before = after_changes(books, front, now);
        let after = after_changes(books, changes, now);
        if is_complete(c) && before.contains_key(c.asset_id->0@) {
            let book = before[c.asset_id->0@];
            assert(book_in_order(book));
            levels::change_keeps_order(book.bids, c.price->0, c.size->0, true);
            levels::change_keeps_order(book.asks, c.price->0, c.size->0, false);
            assert forall|t: Seq<char>| #[trigger] after.contains_key(t) implies book_in_order(
                after[t],
            ) by {
                assert(before.contains_key(t));
            }
        }
    }
}

/// A message of price changes keeps every book strictly in order, makes none and drops none.
pub proof fn change_message_keeps_order(
    books: Map<Seq<char>, OrderBookView>,
    msg: WsMessage,
    now: Double,
    token: Seq<char>,
)
    requires
        books_in_order(books),
        text_of(msg.event_type) == "price_change"@,
        msg.price_changes matches Some(changes) ==> finite_prices(changes@),
    ensures
        books_in_order(after_message(books, msg, now)),
        after_message(books, msg, now).contains_key(token) == books.contains_key(token),
        msg.price_changes is None || (forall|i: int|
            0 <= i < msg.price_changes->0@.len() ==> !names(
                #[trigger] msg.price_changes->0@[i],
                token,
            )) ==> after_message(books, msg, now)[token] == books[token],
{
    reveal_strlit("book");
    reveal_strlit("price_change");
    assert("book"@.len() != "price_change"@.len());
    if msg.price_changes is Some {
        changes_keep_order(books, msg.price_changes->0@, now, token);
    }
}

/// The side of a book that a change speaks of.
pub open spec fn side_of(book: OrderBookView, side: Seq<char>) -> Seq<BookLevel> {
    if side == "BUY"@ {
        book.bids
    } else {
        book.asks
    }
}

/// Whether a side has no level at or next to a price.
pub open spec fn is_clear(side: Seq<BookLevel>, price: Double) -> bool {
    forall|i: int|
        0 <= i < side.len() ==> levels::tolerance().lt(
            levels::distance(#[trigger] side[i], price),
        )
}

/// A change that adds a level, and one that takes it away again, leave the levels of every book
/// as they were.
pub proof fn added_level_comes_off(
    books: Map<Seq<char>, OrderBookView>,
    adds: WsPriceChange,
    clears: WsPriceChange,
    now: Double,
    later: Double,
    token: Seq<char>,
)
    requires
        books_in_order(books),
        is_complete(adds),
        is_complete(clears),
        adds.asset_id->0@ == clears.asset_id->0@,
        adds.price == clears.price,
        text_of(adds.side) == text_of(clears.side),
        adds.price->0.is_finite(),
        !adds.size->0.same(Double::ratio(0, 1)),
        clears.size->0.same(Double::ratio(0, 1)),
        books.contains_key(adds.asset_id->0@) ==> is_clear(
            side_of(books[adds.asset_id->0@], text_of(adds.side)),
            adds.price->0,
        ),
    ensures
        ({
            let after = after_change(after_change(books, adds, now), clears, later);
            &&& after.contains_key(token) == books.contains_key(token)
            &&& books.contains_key(token) ==> after[token].bids == books[token].bids
                && after[token].asks == books[token].asks
        }),
{
    let id = adds.asset_id->0@;
    if books.contains_key(id) {
        let buy = text_of(adds.side) == "BUY"@;
        let side = side_of(books[id], text_of(adds.side));
        assert(book_in_order(books[id]));
        assert forall|i: int, j: int| 0 <= i < j < side.len() implies !levels::precedes(
            #[trigger] side[j],
            #[trigger] side[i],
            buy,
        ) by {
            assert(levels::precedes(side[i], side[j], buy));
        }
        assert(levels::in_order(side, buy));
        levels::added_level_comes_off(side, adds.price->0, adds.size->0, clears.size->0, buy);
    }
}

/// A new token always makes the stream reconnect: on a notice the connection is closed, and after
/// the pause another is made that asks for the token.
pub proof fn new_token_reconnects(link: BookLinkView, tokens: Seq<Seq<char>>, token: Seq<char>)
    requires
        link.phase is Reading,
        tokens.contains(token),
        !link.joined.contains(token),
    ensures
        link.next(BookEvent::Notified, tokens).1 == (BookAction::Pause {
            seconds: link.backoff.delay,
            close: true,
        }),
        link.next(BookEvent::Notified, tokens).0.next(BookEvent::Rested, tokens).1 is Connect,
        link.next(BookEvent::Notified, tokens).0.next(BookEvent::Rested, tokens).0.joined
            == tokens,
{
    let i = choose|i: int| 0 <= i < tokens.len() && tokens[i] == token;
    assert(!link.joined.contains(tokens[i]));
}

/// Of the tokens that a connection was made for, none has to be asked for again: as long as there
/// are no others and none is given up, a notice changes nothing.
pub proof fn same_tokens_read_on(link: BookLinkView)
    requires
        link.phase is Reading,
    ensures
        link.next(BookEvent::Notified, link.joined) == (link, BookAction::Read),
{
}

/// Without a token to subscribe to, no connection is tried.
pub proof fn nothing_to_do_waits(link: BookLinkView, event: BookEvent)
    requires
        link.phase is Waiting || link.phase is Pausing,
    ensures
        !(link.next(event, Seq::empty()).1 is Connect),
{
}

} // verus!

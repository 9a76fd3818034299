//! Data types of the market data feeds.

use vstd::prelude::*;

use crate::double::Double;

verus! {

/// Source of a price tick.
#[derive(Clone, Copy, Debug, PartialEq, Eq, Structural)]
pub enum FeedSource {
    Binance,
    Coinbase,
}

/// A single price tick from an exchange.
#[derive(Clone, Copy, Debug)]
pub struct OracleTick {
    pub price: Double,
    pub timestamp: Double,
    pub source: FeedSource,
}

/// A price change over a time window.
#[derive(Clone, Copy, Debug)]
pub struct DeltaResult {
    pub delta_bps: Double,
    pub available: bool,
    pub sample_age_ms: Double,
    pub window_start_ts: Double,
    pub window_end_ts: Double,
}

impl DeltaResult {
    pub open spec fn spec_unavailable() -> DeltaResult {
        DeltaResult {
            delta_bps: Double::ratio(0, 1),
            available: false,
            sample_age_ms: Double::ratio(1, 1).negated(),
            window_start_ts: Double::ratio(0, 1),
            window_end_ts: Double::ratio(0, 1),
        }
    }

    /// The result where no change can be given.
    #[verifier::when_used_as_spec(spec_unavailable)]
    pub fn unavailable() -> (r: DeltaResult)
        ensures
            r == Self::unavailable(),
    {
        DeltaResult {
            delta_bps: Double::ratio(0, 1),
            available: false,
            sample_age_ms: Double::ratio(1, 1).negated(),
            window_start_ts: Double::ratio(0, 1),
            window_end_ts: Double::ratio(0, 1),
        }
    }
}

/// Current feed health.
#[derive(Clone, Copy, Debug)]
pub struct FeedStatus {
    pub binance_connected: bool,
    pub coinbase_connected: bool,
    pub binance_last_tick_ms: Double,
    pub coinbase_last_tick_ms: Double,
}

/// Prices and price changes of both exchanges at a point in time.
#[derive(Clone, Copy, Debug)]
pub struct OracleSnapshot {
    pub binance_price: Double,
    pub coinbase_price: Double,
    pub binance_delta_1s: DeltaResult,
    pub binance_delta_3s: DeltaResult,
    pub binance_delta_60s: DeltaResult,
    pub coinbase_delta_1s: DeltaResult,
    pub coinbase_delta_3s: DeltaResult,
    pub coinbase_delta_60s: DeltaResult,
    pub timestamp: Double,
}

/// A price level of an order book.
#[derive(Clone, Copy, Debug)]
pub struct BookLevel {
    pub price: Double,
    pub size: Double,
}

/// Order book of a single token.
#[derive(Debug)]
pub struct OrderBook {
    pub token_id: String,
    pub bids: Vec<BookLevel>,
    pub asks: Vec<BookLevel>,
    pub timestamp: Double,
    pub tick_size: Double,
    pub min_order_size: Double,
}

/// What an order book holds.
pub struct OrderBookView {
    pub token_id: Seq<char>,
    pub bids: Seq<BookLevel>,
    pub asks: Seq<BookLevel>,
    pub timestamp: Double,
    pub tick_size: Double,
    pub min_order_size: Double,
}

impl View for OrderBook {
    type V = OrderBookView;

    open spec fn view(&self) -> OrderBookView {
        OrderBookView {
            token_id: self.token_id@,
            bids: self.bids@,
            asks: self.asks@,
            timestamp: self.timestamp,
            tick_size: self.tick_size,
            min_order_size: self.min_order_size,
        }
    }
}

/// Price of the first level, or zero.
pub open spec fn top_price(levels: Seq<BookLevel>) -> Double {
    if levels.len() > 0 {
        levels[0].price
    } else {
        Double::ratio(0, 1)
    }
}

/// Size at the first level, or zero.
pub open spec fn top_size(levels: Seq<BookLevel>) -> Double {
    if levels.len() > 0 {
        levels[0].size
    } else {
        Double::ratio(0, 1)
    }
}

/// Whether a number is above zero.
pub open spec fn positive(x: Double) -> bool {
    Double::ratio(0, 1).lt(x)
}

impl OrderBookView {
    /// The middle of the best prices; the one side that has a price; or one half.
    pub open spec fn mid(self) -> Double {
        let bid = top_price(self.bids);
        let ask = top_price(self.asks);
        if positive(bid) && positive(ask) {
            bid.plus(ask).over(Double::ratio(2, 1))
        } else if positive(ask) {
            ask
        } else if positive(bid) {
            bid
        } else {
            Double::ratio(1, 2)
        }
    }

    /// The distance of the best prices, or zero where a side has none.
    pub open spec fn spread(self) -> Double {
        let bid = top_price(self.bids);
        let ask = top_price(self.asks);
        if positive(bid) && positive(ask) {
            ask.minus(bid)
        } else {
            Double::ratio(0, 1)
        }
    }

    /// The book of a token of which nothing is known.
    pub open spec fn empty(token_id: Seq<char>) -> OrderBookView {
        OrderBookView {
            token_id,
            bids: Seq::empty(),
            asks: Seq::empty(),
            timestamp: Double::ratio(0, 1),
            tick_size: Double::ratio(1, 100),
            min_order_size: Double::ratio(5, 1),
        }
    }
}

fn copy_levels(levels: &Vec<BookLevel>) -> (r: Vec<BookLevel>)
    ensures
        r@ == levels@,
{
    let mut out: Vec<BookLevel> = Vec::new();
    let mut i: usize = 0;
    while i < levels.len()
        invariant
            i <= levels@.len(),
            out@ == levels@.subrange(0, i as int),
        decreases levels@.len() - i,
    {
        out.push(levels[i]);
        i = i + 1;
        assert(out@ =~= levels@.subrange(0, i as int));
    }
    assert(levels@.subrange(0, i as int) =~= levels@);
    out
}

impl Clone for OrderBook {
    fn clone(&self) -> (r: OrderBook)
        ensures
            r@ == self@,
    {
        OrderBook {
            token_id: self.token_id.clone(),
            bids: copy_levels(&self.bids),
            asks: copy_levels(&self.asks),
            timestamp: self.timestamp,
            tick_size: self.tick_size,
            min_order_size: self.min_order_size,
        }
    }
}

fn first_price(levels: &Vec<BookLevel>) -> (r: Double)
    ensures
        r == top_price(levels@),
{
    if levels.len() > 0 {
        levels[0].price
    } else {
        Double::ratio(0, 1)
    }
}

fn first_size(levels: &Vec<BookLevel>) -> (r: Double)
    ensures
        r == top_size(levels@),
{
    if levels.len() > 0 {
        levels[0].size
    } else {
        Double::ratio(0, 1)
    }
}

impl OrderBook {
    /// The middle of the book.
    pub fn mid(&self) -> (r: Double)
        ensures
            r == self@.mid(),
    {
        let zero: Double = Double::ratio(0, 1);
        let bid: Double = self.best_bid();
        let ask: Double = self.best_ask();
        if zero.lt(bid) && zero.lt(ask) {
            bid.plus(ask).over(Double::ratio(2, 1))
        } else if zero.lt(ask) {
            ask
        } else if zero.lt(bid) {
            bid
        } else {
            Double::ratio(1, 2)
        }
    }

    /// Price of the first bid, or zero.
    pub fn best_bid(&self) -> (r: Double)
        ensures
            r == top_price(self@.bids),
    {
        first_price(&self.bids)
    }

    /// Price of the first ask, or zero.
    pub fn best_ask(&self) -> (r: Double)
        ensures
            r == top_price(self@.asks),
    {
        first_price(&self.asks)
    }

    /// The distance of the best prices.
    pub fn spread(&self) -> (r: Double)
        ensures
            r == self@.spread(),
    {
        let zero: Double = Double::ratio(0, 1);
        let bid: Double = self.best_bid();
        let ask: Double = self.best_ask();
        if zero.lt(bid) && zero.lt(ask) {
            ask.minus(bid)
        } else {
            zero
        }
    }

    /// Size of the first bid, or zero.
    pub fn top_bid_size(&self) -> (r: Double)
        ensures
            r == top_size(self@.bids),
    {
        first_size(&self.bids)
    }

    /// Size of the first ask, or zero.
    pub fn top_ask_size(&self) -> (r: Double)
        ensures
            r == top_size(self@.asks),
    {
        first_size(&self.asks)
    }

    /// The book of a token of which nothing is known.
    pub fn empty(token_id: String) -> (r: OrderBook)
        ensures
            r@ == OrderBookView::empty(token_id@),
    {
        let bids: Vec<BookLevel> = Vec::new();
        let asks: Vec<BookLevel> = Vec::new();
        assert(bids@ =~= Seq::<BookLevel>::empty());
        assert(asks@ =~= Seq::<BookLevel>::empty());
        OrderBook {
            token_id,
            bids,
            asks,
            timestamp: Double::ratio(0, 1),
            tick_size: Double::ratio(1, 100),
            min_order_size: Double::ratio(5, 1),
        }
    }
}

/// Messages that the feeds hand on.
#[derive(Debug)]
pub enum FeedUpdate {
    OracleTick(OracleTick),
    BookSnapshot(OrderBook),
    BookDelta { token_id: String, price: Double, size: Double, side: String },
    Disconnected(FeedSource),
}

/// What such a message says.
pub enum FeedUpdateView {
    OracleTick(OracleTick),
    BookSnapshot(OrderBookView),
    BookDelta { token_id: Seq<char>, price: Double, size: Double, side: Seq<char> },
    Disconnected(FeedSource),
}

impl View for FeedUpdate {
    type V = FeedUpdateView;

    open spec fn view(&self) -> FeedUpdateView {
        match self {
            FeedUpdate::OracleTick(t) => FeedUpdateView::OracleTick(*t),
            FeedUpdate::BookSnapshot(b) => FeedUpdateView::BookSnapshot(b@),
            FeedUpdate::BookDelta { token_id, price, size, side } => FeedUpdateView::BookDelta {
                token_id: token_id@,
                price: *price,
                size: *size,
                side: side@,
            },
            FeedUpdate::Disconnected(s) => FeedUpdateView::Disconnected(*s),
        }
    }
}

impl Clone for FeedUpdate {
    fn clone(&self) -> (r: FeedUpdate)
        ensures
            r@ == self@,
    {
        match self {
            FeedUpdate::OracleTick(t) => FeedUpdate::OracleTick(*t),
            FeedUpdate::BookSnapshot(b) => FeedUpdate::BookSnapshot(b.clone()),
            FeedUpdate::BookDelta { token_id, price, size, side } => FeedUpdate::BookDelta {
                token_id: token_id.clone(),
                price: *price,
                size: *size,
                side: side.clone(),
            },
            FeedUpdate::Disconnected(s) => FeedUpdate::Disconnected(*s),
        }
    }
}

} // verus!

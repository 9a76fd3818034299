//! The hub that joins all market data feeds.

use vstd::prelude::*;

use super::binance::BinanceFeed;
use super::coinbase::CoinbaseFeed;
use super::delta;
use super::polymarket;
use super::polymarket::PolymarketFeed;
use super::stream;
use super::stream::PriceStream;
use super::types::{FeedStatus, OracleSnapshot, OrderBook};
use crate::config::FeedConfig;
use crate::double::Double;
use crate::text;

verus! {

/// Coordinates all market data feeds.
pub struct FeedHub {
    pub binance_btc: BinanceFeed,
    pub binance_eth: BinanceFeed,
    pub coinbase_btc: CoinbaseFeed,
    pub coinbase_eth: CoinbaseFeed,
    pub polymarket: PolymarketFeed,
}

/// The snapshot of a pair of streams at a time.
pub open spec fn snapshot_of(bn: PriceStream, cb: PriceStream, now: Double) -> OracleSnapshot {
    OracleSnapshot {
        binance_price: bn.latest_price,
        coinbase_price: cb.latest_price,
        binance_delta_1s: delta::delta_over(bn.deltas@, Double::ratio(1, 1), now),
        binance_delta_3s: delta::delta_over(bn.deltas@, Double::ratio(3, 1), now),
        binance_delta_60s: delta::delta_over(bn.deltas@, Double::ratio(60, 1), now),
        coinbase_delta_1s: delta::delta_over(cb.deltas@, Double::ratio(1, 1), now),
        coinbase_delta_3s: delta::delta_over(cb.deltas@, Double::ratio(3, 1), now),
        coinbase_delta_60s: delta::delta_over(cb.deltas@, Double::ratio(60, 1), now),
        timestamp: now,
    }
}

fn snapshot(bn: &BinanceFeed, cb: &CoinbaseFeed, now: Double) -> (r: OracleSnapshot)
    ensures
        r == snapshot_of(bn.stream, cb.stream, now),
{
    OracleSnapshot {
        binance_price: bn.get_price(),
        coinbase_price: cb.get_price(),
        binance_delta_1s: bn.get_delta(Double::ratio(1, 1), now),
        binance_delta_3s: bn.get_delta(Double::ratio(3, 1), now),
        binance_delta_60s: bn.get_delta(Double::ratio(60, 1), now),
        coinbase_delta_1s: cb.get_delta(Double::ratio(1, 1), now),
        coinbase_delta_3s: cb.get_delta(Double::ratio(3, 1), now),
        coinbase_delta_60s: cb.get_delta(Double::ratio(60, 1), now),
        timestamp: now,
    }
}

/// The two tokens of a market.
pub open spec fn pair(yes: Seq<char>, no: Seq<char>) -> Seq<Seq<char>> {
    seq![yes, no]
}

fn token_pair(yes: &str, no: &str) -> (r: Vec<String>)
    ensures
        text::texts(r@) == pair(yes@, no@),
{
    let mut v: Vec<String> = Vec::new();
    v.push(yes.to_string());
    v.push(no.to_string());
    assert(text::texts(v@) =~= pair(yes@, no@));
    v
}

impl FeedHub {
    pub open spec fn wf(&self) -> bool {
        &&& self.binance_btc.wf()
        &&& self.binance_eth.wf()
        &&& self.coinbase_btc.wf()
        &&& self.coinbase_eth.wf()
        &&& self.polymarket.wf()
    }

    /// Whether only the order book feed may differ.
    pub open spec fn same_prices(&self, other: &FeedHub) -> bool {
        &&& self.binance_btc == other.binance_btc
        &&& self.binance_eth == other.binance_eth
        &&& self.coinbase_btc == other.coinbase_btc
        &&& self.coinbase_eth == other.coinbase_eth
    }

    /// The streams that stand for an asset in lower case: those of Bitcoin unless it is Ether.
    pub open spec fn streams_for(&self, symbol: Seq<char>) -> (PriceStream, PriceStream) {
        if symbol == "eth"@ {
            (self.binance_eth.stream, self.coinbase_eth.stream)
        } else {
            (self.binance_btc.stream, self.coinbase_btc.stream)
        }
    }

    pub fn new(config: &FeedConfig) -> (r: Self)
        ensures
            r.wf(),
            r.binance_btc.asset@ == text::lowercase("btc"@),
            r.binance_eth.asset@ == text::lowercase("eth"@),
            r.binance_btc.ws_url@ == config.binance_ws_url@ + "/"@ + text::lowercase("btc"@)
                + "usdt@trade"@,
            r.binance_eth.ws_url@ == config.binance_ws_url@ + "/"@ + text::lowercase("eth"@)
                + "usdt@trade"@,
            r.coinbase_btc.product_id@ == "BTC-USD"@,
            r.coinbase_eth.product_id@ == "ETH-USD"@,
            r.coinbase_btc.ws_url@ == config.coinbase_ws_url@,
            r.coinbase_eth.ws_url@ == config.coinbase_ws_url@,
            r.polymarket.ws_url@ == config.polymarket_ws_url@,
            r.binance_btc.stream.is_new(),
            r.binance_eth.stream.is_new(),
            r.coinbase_btc.stream.is_new(),
            r.coinbase_eth.stream.is_new(),
            r.polymarket.contents().dom() == Set::<Seq<char>>::empty(),
            r.polymarket.tokens() == Seq::<Seq<char>>::empty(),
    {
        FeedHub {
            binance_btc: BinanceFeed::new("btc", config.binance_ws_url.as_str()),
            binance_eth: BinanceFeed::new("eth", config.binance_ws_url.as_str()),
            coinbase_btc: CoinbaseFeed::new("BTC-USD", config.coinbase_ws_url.as_str()),
            coinbase_eth: CoinbaseFeed::new("ETH-USD", config.coinbase_ws_url.as_str()),
            polymarket: PolymarketFeed::new(config.polymarket_ws_url.as_str()),
        }
    }

    /// Prices and price changes of an asset on both exchanges.
    pub fn oracle_snapshot(&self, asset: &str, now: Double) -> (r: OracleSnapshot)
        ensures
            r == snapshot_of(
                self.streams_for(text::lowercase(asset@)).0,
                self.streams_for(text::lowercase(asset@)).1,
                now,
            ),
    {
        self.symbol_snapshot(text::to_lowercase(asset).as_str(), now)
    }

    /// Prices and price changes of an asset given in lower case.
    pub fn symbol_snapshot(&self, symbol: &str, now: Double) -> (r: OracleSnapshot)
        ensures
            r == snapshot_of(self.streams_for(symbol@).0, self.streams_for(symbol@).1, now),
    {
        if text::same(symbol, "eth") {
            snapshot(&self.binance_eth, &self.coinbase_eth, now)
        } else {
            snapshot(&self.binance_btc, &self.coinbase_btc, now)
        }
    }

    /// The order book of a token.
    pub fn get_book(&self, token_id: &str) -> (r: Option<OrderBook>)
        ensures
            r is Some <==> self.polymarket.contents().contains_key(token_id@),
            r matches Some(book) ==> book@ == self.polymarket.contents()[token_id@],
    {
        self.polymarket.get_book(token_id)
    }

    /// Subscribes to both tokens of a market. The result says whether either is new: then the
    /// connection has to be notified.
    pub fn subscribe_market(&mut self, yes_token_id: &str, no_token_id: &str) -> (r: bool)
        requires
            old(self).wf(),
        ensures
            final(self).polymarket.tokens() == polymarket::joined_tokens(
                old(self).polymarket.tokens(),
                pair(yes_token_id@, no_token_id@),
            ),
            r == !(old(self).polymarket.tokens().contains(yes_token_id@) && old(
                self,
            ).polymarket.tokens().contains(no_token_id@)),
            final(self).polymarket.books == old(self).polymarket.books,
            final(self).polymarket.link() == old(self).polymarket.link(),
            final(self).polymarket.ws_url == old(self).polymarket.ws_url,
            final(self).same_prices(old(self)),
            final(self).wf(),
    {
        let tokens: Vec<String> = token_pair(yes_token_id, no_token_id);
        let ghost t: Seq<Seq<char>> = text::texts(tokens@);
        assert(t[0] == yes_token_id@ && t[1] == no_token_id@);
        self.polymarket.subscribe(tokens)
    }

    /// Gives up both tokens of a market.
    pub fn unsubscribe_market(&mut self, yes_token_id: &str, no_token_id: &str)
        requires
            old(self).wf(),
        ensures
            final(self).polymarket.tokens() == polymarket::remaining_tokens(
                old(self).polymarket.tokens(),
                pair(yes_token_id@, no_token_id@),
            ),
            final(self).polymarket.contents() == old(self).polymarket.contents().remove(
                yes_token_id@,
            ).remove(no_token_id@),
            final(self).polymarket.link() == old(self).polymarket.link(),
            final(self).polymarket.ws_url == old(self).polymarket.ws_url,
            final(self).same_prices(old(self)),
            final(self).wf(),
    {
        let tokens: Vec<String> = token_pair(yes_token_id, no_token_id);
        proof {
            let gone = pair(yes_token_id@, no_token_id@);
            reveal_with_fuel(polymarket::remaining_books, 3);
            assert(gone.drop_last() =~= seq![yes_token_id@]);
            assert(gone.drop_last().drop_last() =~= Seq::<Seq<char>>::empty());
        }
        self.polymarket.unsubscribe(tokens);
    }

    /// Health of the price feeds.
    pub fn feed_status(&self, now: Double) -> (r: FeedStatus)
        ensures
            r == (FeedStatus {
                binance_connected: self.binance_btc.stream.link.connected,
                coinbase_connected: self.coinbase_btc.stream.link.connected,
                binance_last_tick_ms: stream::heartbeat_age(
                    self.binance_btc.stream.heartbeat_ts,
                    now,
                ),
                coinbase_last_tick_ms: stream::heartbeat_age(
                    self.coinbase_btc.stream.heartbeat_ts,
                    now,
                ),
            }),
    {
        FeedStatus {
            binance_connected: self.binance_btc.is_connected(),
            coinbase_connected: self.coinbase_btc.is_connected(),
            binance_last_tick_ms: self.binance_btc.get_heartbeat_age_ms(now),
            coinbase_last_tick_ms: self.coinbase_btc.get_heartbeat_age_ms(now),
        }
    }
}

} // verus!

//! Binance trade stream of one asset.

use vstd::prelude::*;
use vstd::string::*;

use super::delta;
use super::stream;
use super::stream::{LinkAction, LinkEvent, PriceStream};
use super::types::{DeltaResult, FeedSource, FeedUpdate, FeedUpdateView, OracleTick};
use crate::double::Double;
use crate::text;

verus! {

/// A trade message.
#[derive(Clone, Copy, Debug)]
pub struct BinanceTrade {
    /// The price, unless its text is no number.
    pub price: Option<Double>,
    /// Time of the trade in milliseconds.
    pub trade_time: u64,
}

/// Binance trade stream of one asset.
pub struct BinanceFeed {
    pub asset: String,
    pub ws_url: String,
    pub stream: PriceStream,
}

/// Seconds of a time in milliseconds.
pub open spec fn trade_seconds(trade_time: u64) -> Double {
    Double::from_nat(trade_time).over(Double::ratio(1000, 1))
}

impl BinanceFeed {
    pub open spec fn wf(&self) -> bool {
        self.stream.wf()
    }

    pub fn new(asset: &str, base_ws_url: &str) -> (r: Self)
        ensures
            r.asset@ == text::lowercase(asset@),
            r.ws_url@ == base_ws_url@ + "/"@ + text::lowercase(asset@) + "usdt@trade"@,
            r.wf(),
            r.stream.is_new(),
    {
        Self::for_symbol(text::to_lowercase(asset), base_ws_url)
    }

    /// The feed of an asset given in lower case.
    pub fn for_symbol(symbol: String, base_ws_url: &str) -> (r: Self)
        ensures
            r.asset@ == symbol@,
            r.ws_url@ == base_ws_url@ + "/"@ + symbol@ + "usdt@trade"@,
            r.wf(),
            r.stream.is_new(),
    {
        let mut ws_url: String = base_ws_url.to_string();
        ws_url.append("/");
        ws_url.append(symbol.as_str());
        ws_url.append("usdt@trade");
        BinanceFeed { asset: symbol, ws_url, stream: PriceStream::new() }
    }

    /// Takes in a trade.
    pub fn handle_message(&mut self, trade: &BinanceTrade, now: Double) -> (r: Option<FeedUpdate>)
        ensures
            trade.price is None ==> r is None && *final(self) == *old(self),
            trade.price matches Some(price) ==> {
                &&& r matches Some(update) && update@ == FeedUpdateView::OracleTick(
                    OracleTick {
                        price,
                        timestamp: trade_seconds(trade.trade_time),
                        source: FeedSource::Binance,
                    },
                )
                &&& PriceStream::recorded(
                    old(self).stream,
                    final(self).stream,
                    trade_seconds(trade.trade_time),
                    price,
                    now,
                )
            },
            final(self).asset == old(self).asset,
            final(self).ws_url == old(self).ws_url,
    {
        let price: Double = match trade.price {
            Some(p) => p,
            None => return None,
        };
        let timestamp: Double = Double::from_nat(trade.trade_time).over(Double::ratio(1000, 1));
        self.stream.record(timestamp, price, now);
        Some(
            FeedUpdate::OracleTick(OracleTick { price, timestamp, source: FeedSource::Binance }),
        )
    }

    /// Takes note of what happened to the connection: what to do next, and the message to
    /// subscribers where the connection was lost.
    pub fn advance(&mut self, event: LinkEvent) -> (r: (LinkAction, Option<FeedUpdate>))
        requires
            old(self).wf(),
        ensures
            (final(self).stream.link, r.0) == old(self).stream.link.next(event, false),
            r.0 matches LinkAction::Pause { lost: true, .. } ==> (r.1 matches Some(update)
                && update@ == FeedUpdateView::Disconnected(FeedSource::Binance)),
            !(r.0 matches LinkAction::Pause { lost: true, .. }) ==> r.1 is None,
            final(self).wf(),
            final(self).stream.deltas == old(self).stream.deltas,
            final(self).stream.latest_price == old(self).stream.latest_price,
            final(self).stream.heartbeat_ts == old(self).stream.heartbeat_ts,
            final(self).asset == old(self).asset,
            final(self).ws_url == old(self).ws_url,
    {
        let action: LinkAction = self.stream.link.advance(event, false);
        let update: Option<FeedUpdate> = match action {
            LinkAction::Pause { lost: true, .. } => Some(
                FeedUpdate::Disconnected(FeedSource::Binance),
            ),
            _ => None,
        };
        (action, update)
    }

    pub fn get_price(&self) -> (r: Double)
        ensures
            r == self.stream.latest_price,
    {
        self.stream.get_price()
    }

    /// The price change over the given window, seen at the time `now`.
    pub fn get_delta(&self, window_seconds: Double, now: Double) -> (r: DeltaResult)
        ensures
            r == delta::delta_over(self.stream.deltas@, window_seconds, now),
    {
        self.stream.get_delta(window_seconds, now)
    }

    /// Milliseconds since the last message; -1 before the first.
    pub fn get_heartbeat_age_ms(&self, now: Double) -> (r: Double)
        ensures
            r == stream::heartbeat_age(self.stream.heartbeat_ts, now),
    {
        self.stream.get_heartbeat_age_ms(now)
    }

    pub fn is_connected(&self) -> (r: bool)
        ensures
            r == self.stream.link.connected,
    {
        self.stream.is_connected()
    }
}

} // verus!

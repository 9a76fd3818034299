//! Coinbase match stream of one product.

use vstd::prelude::*;

use super::delta;
use super::stream;
use super::stream::{LinkAction, LinkEvent, PriceStream};
use super::types::{DeltaResult, FeedSource, FeedUpdate, FeedUpdateView, OracleTick};
use crate::double::Double;
use crate::text;

verus! {

/// A message of the stream.
#[derive(Debug)]
pub struct CoinbaseMessage {
    pub msg_type: String,
    /// The price, unless it is missing or its text is no number.
    pub price: Option<Double>,
    pub time: Option<String>,
}

/// Coinbase match stream of one product.
pub struct CoinbaseFeed {
    pub product_id: String,
    pub ws_url: String,
    pub stream: PriceStream,
}

/// Seconds and milliseconds since 1970 of a time in RFC 3339 notation, if it is one.
pub uninterp spec fn rfc3339_instant(s: Seq<char>) -> Option<(i64, u32)>;

/// `chrono::DateTime::parse_from_rfc3339`, then `timestamp` and `timestamp_subsec_millis` of
/// what it yields: the result depends on the text alone.
#[verifier::external_body]
fn parse_rfc3339(s: &str) -> (r: Option<(i64, u32)>)
    ensures
        r == rfc3339_instant(s@),
{
    match chrono::DateTime::parse_from_rfc3339(s) {
        Ok(t) => Some((t.timestamp(), t.timestamp_subsec_millis())),
        Err(_) => None,
    }
}

/// Whether a message reports a match.
pub open spec fn is_match(msg_type: Seq<char>) -> bool {
    msg_type == "match"@ || msg_type == "last_match"@
}

/// The time of a match: the one that it states, or else `now`.
pub open spec fn match_time(instant: Option<(i64, u32)>, now: Double) -> Double {
    match instant {
        Some((seconds, millis)) => Double::from_int(seconds).plus(
            Double::from_nat(millis as u64).over(Double::ratio(1000, 1)),
        ),
        None => now,
    }
}

/// What a message's text for the time stands for.
pub open spec fn stated_instant(time: Option<String>) -> Option<(i64, u32)> {
    match time {
        Some(t) => rfc3339_instant(t@),
        None => None,
    }
}

impl CoinbaseFeed {
    pub open spec fn wf(&self) -> bool {
        self.stream.wf()
    }

    pub fn new(product_id: &str, ws_url: &str) -> (r: Self)
        ensures
            r.product_id@ == product_id@,
            r.ws_url@ == ws_url@,
            r.wf(),
            r.stream.is_new(),
    {
        CoinbaseFeed {
            product_id: product_id.to_string(),
            ws_url: ws_url.to_string(),
            stream: PriceStream::new(),
        }
    }

    /// Takes in a message.
    pub fn handle_message(&mut self, msg: &CoinbaseMessage, now: Double) -> (r: Option<FeedUpdate>)
        ensures
            !is_match(msg.msg_type@) || msg.price is None ==> r is None && *final(self) == *old(
                self,
            ),
            is_match(msg.msg_type@) && msg.price is Some ==> {
                let timestamp = match_time(stated_instant(msg.time), now);
                &&& r matches Some(update) && update@ == FeedUpdateView::OracleTick(
                    OracleTick {
                        price: msg.price->0,
                        timestamp,
                        source: FeedSource::Coinbase,
                    },
                )
                &&& PriceStream::recorded(
                    old(self).stream,
                    final(self).stream,
                    timestamp,
                    msg.price->0,
                    now,
                )
            },
            final(self).product_id == old(self).product_id,
            final(self).ws_url == old(self).ws_url,
    {
        let instant: Option<(i64, u32)> = match &msg.time {
            Some(t) => parse_rfc3339(t.as_str()),
            None => None,
        };
        self.handle_match(msg.msg_type.as_str(), msg.price, instant, now)
    }

    /// Takes in a message whose time has been read.
    pub fn handle_match(
        &mut self,
        msg_type: &str,
        price: Option<Double>,
        instant: Option<(i64, u32)>,
        now: Double,
    ) -> (r: Option<FeedUpdate>)
        ensures
            !is_match(msg_type@) || price is None ==> r is None && *final(self) == *old(self),
            is_match(msg_type@) && price is Some ==> {
                let timestamp = match_time(instant, now);
                &&& r matches Some(update) && update@ == FeedUpdateView::OracleTick(
                    OracleTick { price: price->0, timestamp, source: FeedSource::Coinbase },
                )
                &&& PriceStream::recorded(
                    old(self).stream,
                    final(self).stream,
                    timestamp,
                    price->0,
                    now,
                )
            },
            final(self).product_id == old(self).product_id,
            final(self).ws_url == old(self).ws_url,
    {
        if !text::same(msg_type, "match") && !text::same(msg_type, "last_match") {
            return None;
        }
        let price: Double = match price {
            Some(p) => p,
            None => return None,
        };
        let timestamp: Double = match instant {
            Some((seconds, millis)) => Double::from_int(seconds).plus(
                Double::from_nat(millis as u64).over(Double::ratio(1000, 1)),
            ),
            None => now,
        };
        self.stream.record(timestamp, price, now);
        Some(
            FeedUpdate::OracleTick(OracleTick { price, timestamp, source: FeedSource::Coinbase }),
        )
    }

    /// Takes note of what happened to the connection: what to do next, and the message to
    /// subscribers where the connection was lost.
    pub fn advance(&mut self, event: LinkEvent) -> (r: (LinkAction, Option<FeedUpdate>))
        requires
            old(self).wf(),
        ensures
            (final(self).stream.link, r.0) == old(self).stream.link.next(event, true),
            r.0 matches LinkAction::Pause { lost: true, .. } ==> (r.1 matches Some(update)
                && update@ == FeedUpdateView::Disconnected(FeedSource::Coinbase)),
            !(r.0 matches LinkAction::Pause { lost: true, .. }) ==> r.1 is None,
            final(self).wf(),
            final(self).stream.deltas == old(self).stream.deltas,
            final(self).stream.latest_price == old(self).stream.latest_price,
            final(self).stream.heartbeat_ts == old(self).stream.heartbeat_ts,
            final(self).product_id == old(self).product_id,
            final(self).ws_url == old(self).ws_url,
    {
        let action: LinkAction = self.stream.link.advance(event, true);
        let update: Option<FeedUpdate> = match action {
            LinkAction::Pause { lost: true, .. } => Some(
                FeedUpdate::Disconnected(FeedSource::Coinbase),
            ),
            _ => None,
        };
        (action, update)
    }

    pub fn get_price(&self) -> (r: Double)
        ensures
            r == self.stream.latest_price,
    {
        self.stream.get_price()
    }

    /// The price change over the given window, seen at the time `now`.
    pub fn get_delta(&self, window_seconds: Double, now: Double) -> (r: DeltaResult)
        ensures
            r == delta::delta_over(self.stream.deltas@, window_seconds, now),
    {
        self.stream.get_delta(window_seconds, now)
    }

    /// Milliseconds since the last message; -1 before the first.
    pub fn get_heartbeat_age_ms(&self, now: Double) -> (r: Double)
        ensures
            r == stream::heartbeat_age(self.stream.heartbeat_ts, now),
    {
        self.stream.get_heartbeat_age_ms(now)
    }

    pub fn is_connected(&self) -> (r: bool)
        ensures
            r == self.stream.link.connected,
    {
        self.stream.is_connected()
    }
}

} // verus!

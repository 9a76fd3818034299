//! What the price streams of both exchanges have in common.

use vstd::arithmetic::power2::*;
use vstd::prelude::*;

use super::delta;
use super::delta::DeltaComputer;
use super::types::DeltaResult;
use crate::double::Double;

verus! {

/// Delay before the next attempt to connect; it doubles from one second up to a limit.
#[derive(Clone, Copy, Debug)]
pub struct Backoff {
    pub delay: u64,
    pub limit: u64,
}

impl Backoff {
    pub open spec fn wf(self) -> bool {
        1 <= self.delay <= self.limit <= 3600
    }

    /// The state after the delay has been taken.
    pub open spec fn doubled(self) -> Backoff {
        Backoff {
            delay: (if 2 * self.delay < self.limit {
                2 * self.delay
            } else {
                self.limit as int
            }) as u64,
            limit: self.limit,
        }
    }

    pub fn new(limit: u64) -> (r: Self)
        requires
            1 <= limit <= 3600,
        ensures
            r == (Backoff { delay: 1, limit }),
            r.wf(),
    {
        Backoff { delay: 1, limit }
    }

    /// Starts over, as after a connection.
    pub fn reset(&mut self)
        ensures
            *final(self) == (Backoff { delay: 1, limit: old(self).limit }),
    {
        self.delay = 1;
    }

    /// The delay to take now; the next one is twice as long, up to the limit.
    pub fn take(&mut self) -> (r: u64)
        requires
            old(self).wf(),
        ensures
            r == old(self).delay,
            *final(self) == old(self).doubled(),
            final(self).wf(),
    {
        let now: u64 = self.delay;
        let twice: u64 = now * 2;
        self.delay = if twice < self.limit { twice } else { self.limit };
        now
    }
}

/// The state after `n` delays in a row.
pub open spec fn after_delays(start: Backoff, n: nat) -> Backoff
    decreases n,
{
    if n == 0 {
        start
    } else {
        after_delays(start, (n - 1) as nat).doubled()
    }
}

/// After a connection the delays are 1, 2, 4 and so on, up to the limit.
pub proof fn delays_double(limit: u64, n: nat)
    requires
        1 <= limit <= 3600,
    ensures
        after_delays(Backoff { delay: 1, limit }, n).wf(),
        after_delays(Backoff { delay: 1, limit }, n).limit == limit,
        after_delays(Backoff { delay: 1, limit }, n).delay == if pow2(n) < limit {
            pow2(n) as int
        } else {
            limit as int
        },
    decreases n,
{
    if n == 0 {
        lemma2_to64();
    } else {
        delays_double(limit, (n - 1) as nat);
        lemma_pow2_unfold(n);
    }
}

/// What arrives on a web socket.
#[derive(Clone, Copy, Debug, PartialEq, Eq, Structural)]
pub enum Frame {
    Text,
    Ping,
    Close,
    Failed,
    Ended,
    Other,
}

/// How far a connection has come.
#[derive(Clone, Copy, Debug, PartialEq, Eq, Structural)]
pub enum Phase {
    Connecting,
    Subscribing,
    Reading,
    Pausing,
}

/// What happened to a connection.
#[derive(Clone, Copy, Debug, PartialEq, Eq, Structural)]
pub enum LinkEvent {
    /// The connection is up.
    Opened,
    /// The connection could not be made.
    Refused,
    /// The subscription was sent.
    Sent,
    /// The subscription could not be sent.
    NotSent,
    /// A frame arrived.
    Arrived(Frame),
    /// The pause is over.
    Rested,
}

/// What to do next with a connection.
#[derive(Clone, Copy, Debug, PartialEq, Eq, Structural)]
pub enum LinkAction {
    Connect,
    Subscribe,
    /// Read the next frame.
    Read,
    /// Handle the text that arrived, then read on.
    Handle,
    /// Wait for so many seconds; `lost` says whether subscribers are told of a disconnection.
    Pause { seconds: u64, lost: bool },
    /// Nothing: the event does not belong to the phase.
    Nothing,
}

/// State of the connection of a price stream.
#[derive(Clone, Copy, Debug)]
pub struct Link {
    pub phase: Phase,
    pub connected: bool,
    pub backoff: Backoff,
}

impl Link {
    pub open spec fn wf(self) -> bool {
        self.backoff.wf()
    }

    /// The state after a connection was given up, and the pause that follows.
    pub open spec fn paused(self, lost: bool) -> (Link, LinkAction) {
        (
            Link { phase: Phase::Pausing, connected: false, backoff: self.backoff.doubled() },
            LinkAction::Pause { seconds: self.backoff.delay, lost },
        )
    }

    /// The state after an event, and what to do next.
    pub open spec fn next(self, event: LinkEvent, subscribes: bool) -> (Link, LinkAction) {
        match (self.phase, event) {
            (Phase::Connecting, LinkEvent::Opened) => (
                Link {
                    phase: if subscribes {
                        Phase::Subscribing
                    } else {
                        Phase::Reading
                    },
                    connected: true,
                    backoff: Backoff { delay: 1, limit: self.backoff.limit },
                },
                if subscribes {
                    LinkAction::Subscribe
                } else {
                    LinkAction::Read
                },
            ),
            (Phase::Connecting, LinkEvent::Refused) => (
                Link {
                    phase: Phase::Pausing,
                    connected: self.connected,
                    backoff: self.backoff.doubled(),
                },
                LinkAction::Pause { seconds: self.backoff.delay, lost: false },
            ),
            (Phase::Subscribing, LinkEvent::Sent) => (
                Link { phase: Phase::Reading, ..self },
                LinkAction::Read,
            ),
            (Phase::Subscribing, LinkEvent::NotSent) => self.paused(false),
            (Phase::Reading, LinkEvent::Arrived(frame)) => match frame {
                Frame::Text => (self, LinkAction::Handle),
                Frame::Ping | Frame::Other => (self, LinkAction::Read),
                Frame::Close | Frame::Failed | Frame::Ended => self.paused(true),
            },
            (Phase::Pausing, LinkEvent::Rested) => (
                Link { phase: Phase::Connecting, ..self },
                LinkAction::Connect,
            ),
            _ => (self, LinkAction::Nothing),
        }
    }

    fn pause(&mut self, lost: bool) -> (r: LinkAction)
        requires
            old(self).wf(),
        ensures
            (*final(self), r) == old(self).paused(lost),
            final(self).wf(),
    {
        self.phase = Phase::Pausing;
        self.connected = false;
        let seconds: u64 = self.backoff.take();
        LinkAction::Pause { seconds, lost }
    }

    /// Takes note of an event and says what to do next; `subscribes` says whether the stream
    /// has to be asked for after connecting.
    pub fn advance(&mut self, event: LinkEvent, subscribes: bool) -> (r: LinkAction)
        requires
            old(self).wf(),
        ensures
            (*final(self), r) == old(self).next(event, subscribes),
            final(self).wf(),
    {
        match (self.phase, event) {
            (Phase::Connecting, LinkEvent::Opened) => {
                self.connected = true;
                self.backoff.reset();
                if subscribes {
                    self.phase = Phase::Subscribing;
                    LinkAction::Subscribe
                } else {
                    self.phase = Phase::Reading;
                    LinkAction::Read
                }
            },
            (Phase::Connecting, LinkEvent::Refused) => {
                self.phase = Phase::Pausing;
                let seconds: u64 = self.backoff.take();
                LinkAction::Pause { seconds, lost: false }
            },
            (Phase::Subscribing, LinkEvent::Sent) => {
                self.phase = Phase::Reading;
                LinkAction::Read
            },
            (Phase::Subscribing, LinkEvent::NotSent) => self.pause(false),
            (Phase::Reading, LinkEvent::Arrived(frame)) => match frame {
                Frame::Text => LinkAction::Handle,
                Frame::Ping | Frame::Other => LinkAction::Read,
                Frame::Close | Frame::Failed | Frame::Ended => self.pause(true),
            },
            (Phase::Pausing, LinkEvent::Rested) => {
                self.phase = Phase::Connecting;
                LinkAction::Connect
            },
            _ => LinkAction::Nothing,
        }
    }
}

/// The state after a row of events.
pub open spec fn after_events(link: Link, events: Seq<LinkEvent>, subscribes: bool) -> Link
    decreases events.len(),
{
    if events.len() == 0 {
        link
    } else {
        after_events(link, events.drop_last(), subscribes).next(events.last(), subscribes).0
    }
}

/// A stream counts as connected from the opening of its connection until it is given up, and
/// no longer: that is, exactly while it subscribes or reads.
pub proof fn connected_while_open(link: Link, events: Seq<LinkEvent>, subscribes: bool)
    requires
        link.connected <==> (link.phase is Subscribing || link.phase is Reading),
    ensures
        ({
            let after = after_events(link, events, subscribes);
            after.connected <==> (after.phase is Subscribing || after.phase is Reading)
        }),
    decreases events.len(),
{
    if events.len() > 0 {
        connected_while_open(link, events.drop_last(), subscribes);
    }
}

/// A connection is never tried again without a pause: what follows a failure, of whatever
/// kind, is a wait of at least a second.
pub proof fn failure_pauses(link: Link, event: LinkEvent, subscribes: bool)
    requires
        link.wf(),
        link.phase !is Pausing,
        link.next(event, subscribes).0.phase is Pausing,
    ensures
        link.next(event, subscribes).1 matches LinkAction::Pause { seconds, .. } && 1 <= seconds
            <= link.backoff.limit,
{
}

/// Prices of one instrument, with the state of the connection that they come from.
pub struct PriceStream {
    pub deltas: DeltaComputer,
    pub latest_price: Double,
    pub heartbeat_ts: Double,
    pub link: Link,
}

/// Age of a heartbeat in milliseconds; -1 before the first.
pub open spec fn heartbeat_age(heartbeat_ts: Double, now: Double) -> Double {
    if heartbeat_ts.le(Double::ratio(0, 1)) {
        Double::ratio(1, 1).negated()
    } else {
        now.minus(heartbeat_ts).times(Double::ratio(1000, 1))
    }
}

impl PriceStream {
    pub open spec fn wf(&self) -> bool {
        self.link.wf()
    }

    /// A stream before its first connection.
    pub open spec fn is_new(&self) -> bool {
        &&& self.deltas@ == Seq::<(Double, Double)>::empty()
        &&& self.deltas.max_age() == Double::ratio(120, 1)
        &&& self.latest_price == Double::ratio(0, 1)
        &&& self.heartbeat_ts == Double::ratio(0, 1)
        &&& self.link == (Link {
            phase: Phase::Connecting,
            connected: false,
            backoff: Backoff { delay: 1, limit: 30 },
        })
    }

    /// What a price does to a stream.
    pub open spec fn recorded(
        before: PriceStream,
        after: PriceStream,
        timestamp: Double,
        price: Double,
        now: Double,
    ) -> bool {
        &&& after.latest_price == price
        &&& after.heartbeat_ts == now
        &&& after.deltas@ == delta::pruned(
            before.deltas@.push((timestamp, price)),
            timestamp.minus(before.deltas.max_age()),
        )
        &&& after.deltas.max_age() == before.deltas.max_age()
        &&& after.link == before.link
    }

    /// A stream before its first connection: ticks are kept for two minutes.
    pub fn new() -> (r: Self)
        ensures
            r.is_new(),
            r.wf(),
    {
        PriceStream {
            deltas: DeltaComputer::new(Double::ratio(120, 1)),
            latest_price: Double::ratio(0, 1),
            heartbeat_ts: Double::ratio(0, 1),
            link: Link {
                phase: Phase::Connecting,
                connected: false,
                backoff: Backoff::new(30),
            },
        }
    }

    /// Takes in a price.
    pub fn record(&mut self, timestamp: Double, price: Double, now: Double)
        ensures
            Self::recorded(*old(self), *final(self), timestamp, price, now),
    {
        self.latest_price = price;
        self.heartbeat_ts = now;
        self.deltas.add_tick(timestamp, price);
    }

    pub fn get_price(&self) -> (r: Double)
        ensures
            r == self.latest_price,
    {
        self.latest_price
    }

    /// The price change over the given window, seen at the time `now`.
    pub fn get_delta(&self, window_seconds: Double, now: Double) -> (r: DeltaResult)
        ensures
            r == delta::delta_over(self.deltas@, window_seconds, now),
    {
        self.deltas.compute_delta(window_seconds, now)
    }

    /// Milliseconds since the last message; -1 before the first.
    pub fn get_heartbeat_age_ms(&self, now: Double) -> (r: Double)
        ensures
            r == heartbeat_age(self.heartbeat_ts, now),
    {
        if self.heartbeat_ts.le(Double::ratio(0, 1)) {
            return Double::ratio(1, 1).negated();
        }
        now.minus(self.heartbeat_ts).times(Double::ratio(1000, 1))
    }

    pub fn is_connected(&self) -> (r: bool)
        ensures
            r == self.link.connected,
    {
        self.link.connected
    }
}

} // verus!

//! What price ticks come to, told by the ticks that go in and the changes that come out, and what
//! connections do.

use vstd::arithmetic::power2::*;
use vstd::prelude::*;

use super::binance;
use super::coinbase;
use super::delta;
use super::hub;
use super::hub::FeedHub;
use super::polymarket;
use super::polymarket::{BookAction, BookEvent, BookLinkView};
use super::stream;
use super::stream::{Frame, Link, LinkAction, LinkEvent, PriceStream};
use super::types::OrderBookView;
use crate::double::{error, integers, laws, value, Double};

verus! {

/// One, in units of two to the power -1074.
pub open spec fn one() -> int {
    pow2(1074) as int
}

/// Whether a price lies between two to the powers -64 and 64.
pub open spec fn is_usual(x: Double) -> bool {
    x.is_finite() && pow2(1010) <= x.val() <= pow2(1138)
}

proof fn lemma_usual()
    ensures
        pow2(1010) > 0,
        pow2(1074) > 0,
        2 * pow2(1138) <= pow2(2000),
        8 * pow2(1138) * pow2(1074) <= pow2(1010) * pow2(2000),
        8 * pow2(1138) * pow2(1074) == pow2(1205) * pow2(1010),
        16384 * pow2(1206) <= pow2(2000),
        2 * pow2(1205) == pow2(1206),
        pow2(1205) >= 1,
        pow2(1074) >= 0x1000_0000_0000_0000,
{
    lemma2_to64();
    lemma2_to64_rest();
    lemma_pow2_pos(1010);
    lemma_pow2_pos(1014);
    lemma_pow2_pos(1205);
    lemma_pow2_adds(60, 1014);
    lemma_pow2_adds(1, 1138);
    lemma_pow2_adds(3, 1138);
    lemma_pow2_adds(1141, 1074);
    lemma_pow2_adds(1205, 1010);
    lemma_pow2_adds(1010, 2000);
    lemma_pow2_adds(14, 1206);
    lemma_pow2_adds(1, 1205);
    lemma_pow2_strictly_increases(1139, 2000);
    lemma_pow2_strictly_increases(2215, 3010);
    lemma_pow2_strictly_increases(1220, 2000);
    assert(pow2(1074) >= 0x1000_0000_0000_0000) by (nonlinear_arith)
        requires
            pow2(1074) == pow2(60) * pow2(1014),
            pow2(60) == 0x1000_0000_0000_0000,
            pow2(1014) >= 1,
    ;
}

/// The change from one price to another is their difference over the first, in ten-thousandths,
/// but for rounding.
pub proof fn changes_are_in_basis_points(s: Seq<(Double, Double)>, i: int, now: Double)
    requires
        0 <= i < s.len(),
        is_usual(s[i].1),
        is_usual(s.last().1),
    ensures
        ({
            let r = delta::change_since(s, i, now);
            let past = s[i].1.val();
            let latest = s.last().1.val();
            let moved = if latest < past {
                past - latest
            } else {
                latest - past
            };
            let off = r.delta_bps.val() * past - 10_000 * ((latest - past) * one());
            let slack = 10_000 * (moved * one() + 0x100_0000_0000_0000 * (past + one()));
            &&& r.available
            &&& r.delta_bps.is_finite()
            &&& 0x4_0000_0000_0000 * off <= slack
            &&& 0x4_0000_0000_0000 * (-off) <= slack
            &&& r.window_start_ts == s[i].0
            &&& r.window_end_ts == s.last().0
        }),
{
    lemma_usual();
    laws::lemma_ratio(0, 1);
    value::lemma_finite_parts(Double::ratio(0, 1));
    let u = one();
    let a = s[i].1;
    let b = s.last().1;
    let p = a.val();
    let l = b.val();
    value::lemma_order(a, Double::ratio(0, 1));
    value::lemma_order(b, Double::ratio(0, 1));
    error::negated_value(a);
    let diff = l - p;
    let moved = if diff < 0 {
        -diff
    } else {
        diff
    };
    error::plus_is_near(b, a.negated());
    let d1 = b.minus(a);
    error::near_in_figures(d1.val(), diff, 1, moved);
    let s1 = d1.units() as int;
    assert(s1 <= 2 * moved + 1);
    assert(d1.units() * pow2(1074) <= a.units() * pow2(2000)) by (nonlinear_arith)
        requires
            d1.units() <= 8 * pow2(1138),
            a.units() >= pow2(1010),
            8 * pow2(1138) * pow2(1074) <= pow2(1010) * pow2(2000),
    ;
    error::over_is_near(d1, a);
    let d2 = d1.over(a);
    let d1u = d1.val() * u;
    let s1u = s1 * u;
    assert(s1u == (if d1u < 0 {
        -d1u
    } else {
        d1u
    })) by (nonlinear_arith)
        requires
            s1u == s1 * u,
            d1u == d1.val() * u,
            u > 0,
            s1 == d1.val() || s1 == -d1.val(),
            s1 >= 0,
    ;
    let d2p = d2.val() * p;
    error::near_in_figures(d2p, d1u, p, s1u);
    let s2 = d2.units() as int;
    let s2p = s2 * p;
    assert(s2p == d2p || s2p == -d2p) by (nonlinear_arith)
        requires
            s2p == s2 * p,
            d2p == d2.val() * p,
            s2 == d2.val() || s2 == -d2.val(),
    ;
    assert(s2p >= 0) by (nonlinear_arith)
        requires
            s2p == s2 * p,
            s2 >= 0,
            p > 0,
    ;
    assert(s2p <= 2 * s1u + p);
    let big = 8 * pow2(1138) * pow2(1074);
    assert(s1u <= big) by (nonlinear_arith)
        requires
            s1u == s1 * u,
            s1 <= 8 * pow2(1138),
            u == pow2(1074),
            big == 8 * pow2(1138) * pow2(1074),
            u > 0,
    ;
    assert(s2 <= 2 * pow2(1205) + 1) by (nonlinear_arith)
        requires
            s2 * p <= 2 * s1u + p,
            s1u <= pow2(1205) * pow2(1010),
            p >= pow2(1010),
            p > 0,
            pow2(1010) > 0,
    ;
    let scale = Double::ratio(10_000, 1);
    integers::whole_numbers_are_exact(10_000);
    assert(d2.units() * scale.units() <= pow2(1074) * pow2(2000)) by (nonlinear_arith)
        requires
            d2.units() <= pow2(1206) + 1,
            scale.units() == 10_000 * u,
            u == pow2(1074),
            16384 * pow2(1206) <= pow2(2000),
            pow2(1206) >= 2,
            u > 0,
    ;
    error::times_is_near(d2, scale);
    let d3 = d2.times(scale);
    let w = d2.val() * scale.val();
    let ws = 10_000 * (s2 * u);
    assert(w == 10_000 * (d2.val() * u)) by (nonlinear_arith)
        requires
            w == d2.val() * scale.val(),
            scale.val() == 10_000 * u,
    ;
    let d2u = d2.val() * u;
    let s2u = s2 * u;
    assert(s2u == (if d2u < 0 {
        -d2u
    } else {
        d2u
    })) by (nonlinear_arith)
        requires
            s2u == s2 * u,
            d2u == d2.val() * u,
            u > 0,
            s2 == d2.val() || s2 == -d2.val(),
            s2 >= 0,
    ;
    error::near_in_figures(d3.val() * u, w, u, ws);
    let e = d3.val() - 10_000 * d2.val();
    assert(d3.val() * u - w == e * u) by (nonlinear_arith)
        requires
            w == 10_000 * (d2.val() * u),
            e == d3.val() - 10_000 * d2.val(),
    ;
    assert(0x20_0000_0000_0000 * e <= 10_000 * s2 + 0x10_0000_0000_0000 && 0x20_0000_0000_0000
        * (-e) <= 10_000 * s2 + 0x10_0000_0000_0000) by (nonlinear_arith)
        requires
            0x20_0000_0000_0000 * (e * u) <= 10_000 * (s2 * u) + 0x10_0000_0000_0000 * u,
            0x20_0000_0000_0000 * (-(e * u)) <= 10_000 * (s2 * u) + 0x10_0000_0000_0000 * u,
            u > 0,
    ;
    let ep = e * p;
    assert(0x20_0000_0000_0000 * ep <= 10_000 * s2p + 0x10_0000_0000_0000 * p
        && 0x20_0000_0000_0000 * (-ep) <= 10_000 * s2p + 0x10_0000_0000_0000 * p)
        by (nonlinear_arith)
        requires
            0x20_0000_0000_0000 * e <= 10_000 * s2 + 0x10_0000_0000_0000,
            0x20_0000_0000_0000 * (-e) <= 10_000 * s2 + 0x10_0000_0000_0000,
            ep == e * p,
            s2p == s2 * p,
            p > 0,
    ;
    let mu = moved * u;
    let f = d1u - diff * u;
    let du = diff * u;
    assert(0x20_0000_0000_0000 * f <= mu + 0x10_0000_0000_0000 * u && 0x20_0000_0000_0000 * (-f)
        <= mu + 0x10_0000_0000_0000 * u) by (nonlinear_arith)
        requires
            0x20_0000_0000_0000 * (d1.val() - diff) <= moved + 0x10_0000_0000_0000,
            0x20_0000_0000_0000 * (diff - d1.val()) <= moved + 0x10_0000_0000_0000,
            f == d1u - diff * u,
            d1u == d1.val() * u,
            mu == moved * u,
            u > 0,
    ;
    assert(s1u <= 2 * mu + u) by (nonlinear_arith)
        requires
            s1u == s1 * u,
            mu == moved * u,
            s1 <= 2 * moved + 1,
            u > 0,
    ;
    let off = d3.val() * p - 10_000 * du;
    assert(d3.val() * p == ep + 10_000 * d2p) by (nonlinear_arith)
        requires
            e == d3.val() - 10_000 * d2.val(),
            ep == e * p,
            d2p == d2.val() * p,
    ;
    lemma_three(off, ep, d2p, d1u, f, s2p, s1u, mu, p, u);
}

proof fn lemma_three(
    off: int,
    ep: int,
    d2p: int,
    d1u: int,
    f: int,
    s2p: int,
    s1u: int,
    mu: int,
    p: int,
    u: int,
)
    requires
        p > 0,
        u > 0,
        mu >= 0,
        off == ep + 10_000 * d2p - 10_000 * (d1u - f),
        0x20_0000_0000_0000 * ep <= 10_000 * s2p + 0x10_0000_0000_0000 * p,
        0x20_0000_0000_0000 * (-ep) <= 10_000 * s2p + 0x10_0000_0000_0000 * p,
        0x20_0000_0000_0000 * (d2p - d1u) <= s1u + 0x10_0000_0000_0000 * p,
        0x20_0000_0000_0000 * (d1u - d2p) <= s1u + 0x10_0000_0000_0000 * p,
        0x20_0000_0000_0000 * f <= mu + 0x10_0000_0000_0000 * u,
        0x20_0000_0000_0000 * (-f) <= mu + 0x10_0000_0000_0000 * u,
        s2p <= 2 * s1u + p,
        s1u <= 2 * mu + u,
    ensures
        0x4_0000_0000_0000 * off <= 10_000 * (mu + 0x100_0000_0000_0000 * (p + u)),
        0x4_0000_0000_0000 * (-off) <= 10_000 * (mu + 0x100_0000_0000_0000 * (p + u)),
{
    assert(s2p <= 4 * mu + 2 * u + p);
    assert(0x20_0000_0000_0000 * off <= 10_000 * (s2p + s1u + mu) + 0x10_0000_0000_0000 * (10_001
        * p + 10_000 * u));
    assert(0x20_0000_0000_0000 * (-off) <= 10_000 * (s2p + s1u + mu) + 0x10_0000_0000_0000 * (
    10_001 * p + 10_000 * u));
    assert(0x20_0000_0000_0000 * off <= 8 * (10_000 * (mu + 0x100_0000_0000_0000 * (p + u))));
    assert(0x20_0000_0000_0000 * (-off) <= 8 * (10_000 * (mu + 0x100_0000_0000_0000 * (p + u))));
}

/// The change over a window is that from a tick of the list to the latest one, and no tick of the
/// list, within a hundred years of it, is nearer to the start of the window than that tick.
pub proof fn windows_start_at_the_nearest_tick(
    s: Seq<(Double, Double)>,
    window_seconds: Double,
    now: Double,
    j: int,
)
    requires
        0 <= j < s.len(),
        delta::is_closest(
            s,
            s.last().0.minus(window_seconds),
            delta::closest(s, s.last().0.minus(window_seconds)),
        ),
        delta::delta_over(s, window_seconds, now).available,
        s[j].0.minus(s.last().0.minus(window_seconds)).abs().lt(Double::ratio(0xFFFF_FFFF, 1)),
    ensures
        ({
            let r = delta::delta_over(s, window_seconds, now);
            let start = s.last().0.minus(window_seconds);
            &&& r.window_end_ts == s.last().0
            &&& exists|i: int|
                {
                    &&& 0 <= i < s.len()
                    &&& r.window_start_ts == (#[trigger] s[i]).0
                    &&& r == delta::change_since(s, i, now)
                    &&& !s[j].0.minus(start).abs().lt(s[i].0.minus(start).abs())
                }
            &&& r.sample_age_ms == now.minus(s.last().0).times(Double::ratio(1000, 1))
        }),
{
    let start = s.last().0.minus(window_seconds);
    let i = delta::closest(s, start);
    assert(delta::gap(s, start, j) == s[j].0.minus(start).abs());
    assert(delta::gap(s, start, i) == s[i].0.minus(start).abs());
    laws::lemma_ratio(0xFFFF_FFFF, 1);
    assert(delta::gap(s, start, j).lt(delta::greatest()));
    assert(s[i].0 == s[i].0);
}

/// No change is given of a list without ticks, or of prices that are not above zero.
pub proof fn changes_need_prices(s: Seq<(Double, Double)>, window_seconds: Double, now: Double)
    ensures
        s.len() == 0 ==> !delta::delta_over(s, window_seconds, now).available,
        s.len() > 0 && s.last().1.le(Double::ratio(0, 1)) ==> !delta::delta_over(
            s,
            window_seconds,
            now,
        ).available,
        !delta::delta_over(s, window_seconds, now).available ==> delta::delta_over(
            s,
            window_seconds,
            now,
        ).delta_bps == Double::ratio(0, 1),
{
}

/// A tick that comes in is the latest price and the last of the list; of the ticks before it,
/// those at the front that are older than the list keeps are dropped, and no other.
pub proof fn ticks_are_recorded(
    before: PriceStream,
    after: PriceStream,
    timestamp: Double,
    price: Double,
    now: Double,
)
    requires
        PriceStream::recorded(before, after, timestamp, price, now),
        Double::ratio(0, 1).le(before.deltas.max_age()),
    ensures
        after.latest_price == price,
        after.heartbeat_ts == now,
        after.link == before.link,
        after.deltas.max_age() == before.deltas.max_age(),
        ({
            let all = before.deltas@.push((timestamp, price));
            let kept = after.deltas@;
            let oldest = timestamp.minus(before.deltas.max_age());
            &&& 0 < kept.len() <= all.len()
            &&& kept.last() == (timestamp, price)
            &&& forall|i: int|
                0 <= i < kept.len() ==> kept[i] == #[trigger] all[i + (all.len() - kept.len())]
            &&& forall|i: int| 0 <= i < all.len() - kept.len() ==> (#[trigger] all[i]).0.lt(oldest)
            &&& !kept[0].0.lt(oldest)
        }),
{
    let all = before.deltas@.push((timestamp, price));
    delta::pruning_drops_the_oldest(all, timestamp.minus(before.deltas.max_age()));
    delta::new_tick_is_kept(before.deltas@, timestamp, price, before.deltas.max_age());
}

/// An asset's snapshot is made of its own streams: those of Ether for "eth", those of Bitcoin
/// for any other; with its latest prices, and its changes over one, three and sixty seconds.
pub proof fn snapshots_are_of_the_asset(hub: FeedHub, symbol: Seq<char>, now: Double)
    ensures
        ({
            let (bn, cb) = hub.streams_for(symbol);
            let r = hub::snapshot_of(bn, cb, now);
            &&& symbol == "eth"@ ==> bn == hub.binance_eth.stream && cb == hub.coinbase_eth.stream
            &&& symbol != "eth"@ ==> bn == hub.binance_btc.stream && cb == hub.coinbase_btc.stream
            &&& r.binance_price == bn.latest_price && r.coinbase_price == cb.latest_price
            &&& r.timestamp == now
            &&& r.binance_delta_1s == delta::delta_over(bn.deltas@, Double::ratio(1, 1), now)
            &&& r.binance_delta_3s == delta::delta_over(bn.deltas@, Double::ratio(3, 1), now)
            &&& r.binance_delta_60s == delta::delta_over(bn.deltas@, Double::ratio(60, 1), now)
            &&& r.coinbase_delta_1s == delta::delta_over(cb.deltas@, Double::ratio(1, 1), now)
            &&& r.coinbase_delta_3s == delta::delta_over(cb.deltas@, Double::ratio(3, 1), now)
            &&& r.coinbase_delta_60s == delta::delta_over(cb.deltas@, Double::ratio(60, 1), now)
        }),
{
}

/// The age of a heartbeat is the time since then in milliseconds, and -1 where there was none.
pub proof fn heartbeats_age(heartbeat_ts: Double, now: Double)
    ensures
        Double::ratio(0, 1).lt(heartbeat_ts) ==> stream::heartbeat_age(heartbeat_ts, now)
            == now.minus(heartbeat_ts).times(Double::ratio(1000, 1)),
        heartbeat_ts.le(Double::ratio(0, 1)) ==> stream::heartbeat_age(heartbeat_ts, now)
            == Double::ratio(1, 1).negated(),
{
}

/// The time of a trade is its milliseconds over a thousand: times a thousand it is the
/// milliseconds again, but for rounding.
pub proof fn trade_times_are_in_seconds(trade_time: u64)
    requires
        trade_time < 0x20_0000_0000_0000,
    ensures
        ({
            let t = binance::trade_seconds(trade_time);
            let off = 1000 * t.val() - trade_time * one();
            &&& t.is_finite()
            &&& 0x20_0000_0000_0000 * off <= trade_time * one() + 0x10_0000_0000_0000 * 1000
            &&& 0x20_0000_0000_0000 * (-off) <= trade_time * one() + 0x10_0000_0000_0000 * 1000
        }),
{
    let ms = Double::from_nat(trade_time);
    let k = Double::ratio(1000, 1);
    let u = one();
    integers::lemma_from_nat(trade_time);
    integers::whole_numbers_are_exact(1000);
    lemma2_to64();
    lemma2_to64_rest();
    lemma_pow2_pos(1074);
    lemma_pow2_adds(53, 1074);
    lemma_pow2_strictly_increases(1127, 2000);
    assert(ms.units() * pow2(1074) <= k.units() * pow2(2000)) by (nonlinear_arith)
        requires
            ms.units() == trade_time * u,
            trade_time < 0x20_0000_0000_0000,
            k.units() == 1000 * u,
            u == pow2(1074),
            0x20_0000_0000_0000 * u <= pow2(2000),
            u > 0,
    ;
    error::over_is_near(ms, k);
    let t = binance::trade_seconds(trade_time).val();
    let v = trade_time * u;
    assert(v >= 0) by (nonlinear_arith)
        requires
            v == trade_time * u,
            u > 0,
    ;
    assert(v * u >= 0) by (nonlinear_arith)
        requires
            v >= 0,
            u > 0,
    ;
    assert(t * k.val() == (1000 * t) * u) by (nonlinear_arith)
        requires
            k.val() == 1000 * u,
    ;
    error::near_in_figures((1000 * t) * u, v * u, 1000 * u, v * u);
    let off = 1000 * t - v;
    assert((1000 * t) * u - v * u == off * u) by (nonlinear_arith)
        requires
            off == 1000 * t - v,
    ;
    assert(0x20_0000_0000_0000 * off <= v + 0x10_0000_0000_0000 * 1000 && 0x20_0000_0000_0000 * (
    -off) <= v + 0x10_0000_0000_0000 * 1000) by (nonlinear_arith)
        requires
            0x20_0000_0000_0000 * (off * u) <= v * u + 0x10_0000_0000_0000 * (1000 * u),
            0x20_0000_0000_0000 * (-(off * u)) <= v * u + 0x10_0000_0000_0000 * (1000 * u),
            u > 0,
    ;
}

/// A match is told by its kind, and its time is the one it states, in seconds and milliseconds,
/// or else the present.
pub proof fn matches_are_timed(kind: Seq<char>, instant: Option<(i64, u32)>, now: Double)
    ensures
        coinbase::is_match(kind) <==> kind == "match"@ || kind == "last_match"@,
        instant is None ==> coinbase::match_time(instant, now) == now,
        instant matches Some((seconds, millis)) ==> coinbase::match_time(instant, now)
            == Double::from_int(seconds).plus(
            Double::from_nat(millis as u64).over(Double::ratio(1000, 1)),
        ),
{
}

/// What a price connection does: it is opened, asked for where it has to be, and read; texts are
/// handled; and whatever ends it leads to a pause, of which subscribers hear only where it was
/// read from.
pub proof fn price_links_follow_events(link: Link, event: LinkEvent, subscribes: bool)
    ensures
        ({
            let (after, action) = link.next(event, subscribes);
            &&& link.phase is Connecting && event is Opened ==> after.connected
                && after.backoff.delay == 1 && after.backoff.limit == link.backoff.limit
            &&& link.phase is Connecting && event is Opened && subscribes ==> after.phase
                is Subscribing && action is Subscribe
            &&& link.phase is Connecting && event is Opened && !subscribes ==> after.phase
                is Reading && action is Read
            &&& link.phase is Connecting && event is Refused ==> after.phase is Pausing && action
                == (LinkAction::Pause { seconds: link.backoff.delay, lost: false })
            &&& link.phase is Subscribing && event is Sent ==> after.phase is Reading && action
                is Read && after.connected == link.connected
            &&& link.phase is Subscribing && event is NotSent ==> after.phase is Pausing
                && !after.connected && action == (LinkAction::Pause {
                seconds: link.backoff.delay,
                lost: false,
            })
            &&& link.phase is Reading && event == LinkEvent::Arrived(Frame::Text) ==> after == link
                && action is Handle
            &&& link.phase is Reading && (event == LinkEvent::Arrived(Frame::Ping) || event
                == LinkEvent::Arrived(Frame::Other)) ==> after == link && action is Read
            &&& link.phase is Reading && (event == LinkEvent::Arrived(Frame::Close) || event
                == LinkEvent::Arrived(Frame::Failed) || event == LinkEvent::Arrived(Frame::Ended))
                ==> after.phase is Pausing && !after.connected && action == (LinkAction::Pause {
                seconds: link.backoff.delay,
                lost: true,
            })
            &&& link.phase is Pausing && event is Rested ==> after.phase is Connecting && action
                is Connect && after.backoff == link.backoff
            &&& after.phase is Pausing && !(link.phase is Pausing) && link.backoff.wf() ==> {
                &&& after.backoff.limit == link.backoff.limit
                &&& 2 * link.backoff.delay <= link.backoff.limit ==> after.backoff.delay == 2
                    * link.backoff.delay
                &&& 2 * link.backoff.delay > link.backoff.limit ==> after.backoff.delay
                    == link.backoff.limit
            }
        }),
{
}

/// What the connection to the order books does.
pub proof fn book_links_follow_events(
    link: BookLinkView,
    event: BookEvent,
    tokens: Seq<Seq<char>>,
)
    ensures
        ({
            let (after, action) = link.next(event, tokens);
            let starts = (link.phase is Waiting && (event is Rested || event is Notified)) || (
            link.phase is Pausing && event is Rested);
            let ended = event == BookEvent::Arrived(Frame::Close) || event == BookEvent::Arrived(
                Frame::Failed,
            ) || event == BookEvent::Arrived(Frame::Ended) || event is PingFailed;
            &&& starts && tokens.len() > 0 ==> after.phase is Connecting && after.joined == tokens
                && action is Connect
            &&& starts && tokens.len() == 0 ==> after.phase is Waiting && action
                == (BookAction::Await { seconds: 2 })
            &&& link.phase is Connecting && event is Opened ==> after.phase is Subscribing && action
                is Subscribe && after.joined == link.joined && after.backoff.delay == 1
            &&& link.phase is Subscribing && event is Sent ==> after.phase is Reading && action
                is Read && after.joined == link.joined
            &&& link.phase is Reading && event == BookEvent::Arrived(Frame::Text) ==> after == link
                && action is Handle
            &&& link.phase is Reading && event == BookEvent::Arrived(Frame::Ping) ==> after == link
                && action is Answer
            &&& link.phase is Reading && event is PingDue ==> after == link && action is Ping
            &&& (link.phase is Connecting && event is Refused) || (link.phase is Subscribing
                && event is NotSent) || (link.phase is Reading && ended) ==> after.phase is Pausing
                && action == (BookAction::Pause { seconds: link.backoff.delay, close: false })
            &&& link.phase is Reading && event == BookEvent::Arrived(Frame::Other) ==> after == link
                && action is Read
            &&& after.phase is Pausing && !(link.phase is Pausing) && link.backoff.wf() ==> {
                &&& after.backoff.limit == link.backoff.limit
                &&& 2 * link.backoff.delay <= link.backoff.limit ==> after.backoff.delay == 2
                    * link.backoff.delay
                &&& 2 * link.backoff.delay > link.backoff.limit ==> after.backoff.delay
                    == link.backoff.limit
            }
        }),
{
}

/// A connection to the books that is told of tokens is closed, to come back with them, where
/// there are more or fewer than it was opened for, or one that it was not opened for; else it
/// goes on.
pub proof fn new_tokens_reopen_the_books(link: BookLinkView, tokens: Seq<Seq<char>>)
    requires
        link.phase is Reading,
    ensures
        ({
            let (after, action) = link.next(BookEvent::Notified, tokens);
            let same = tokens.len() == link.joined.len() && forall|i: int|
                0 <= i < tokens.len() ==> link.joined.contains(#[trigger] tokens[i]);
            &&& same ==> after == link && action is Read
            &&& !same ==> after.phase is Pausing && action == (BookAction::Pause {
                seconds: link.backoff.delay,
                close: true,
            })
        }),
{
}

/// The books that are left when tokens go are those of the other tokens, as they were.
pub proof fn books_go_with_their_tokens(
    books: Map<Seq<char>, OrderBookView>,
    gone: Seq<Seq<char>>,
    k: Seq<char>,
)
    ensures
        polymarket::remaining_books(books, gone).contains_key(k) <==> books.contains_key(k)
            && !gone.contains(k),
        polymarket::remaining_books(books, gone).contains_key(k) ==> polymarket::remaining_books(
            books,
            gone,
        )[k] == books[k],
    decreases gone.len(),
{
    if gone.len() > 0 {
        let front = gone.drop_last();
        books_go_with_their_tokens(books, front, k);
        assert(gone =~= front.push(gone.last()));
        if front.contains(k) {
            let i = choose|i: int| 0 <= i < front.len() && front[i] == k;
            assert(gone[i] == k);
        }
        if gone.last() == k {
            assert(gone[gone.len() - 1] == k);
        }
        if gone.contains(k) && gone.last() != k {
            let i = choose|i: int| 0 <= i < gone.len() && gone[i] == k;
            assert(front[i] == k);
        }
    }
}

} // verus!

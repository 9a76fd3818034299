//! Rolling price buffer and price changes in basis points.

use std::collections::VecDeque;
use vstd::prelude::*;
use vstd::std_specs::vecdeque::*;

use super::types::DeltaResult;
use crate::double::{laws, order, Double};

verus! {

/// The greatest finite number.
pub open spec fn greatest() -> Double {
    Double { bits: 0x7FEF_FFFF_FFFF_FFFF }
}

/// `s` without the entries at its front that lie before `cutoff`.
pub open spec fn pruned(s: Seq<(Double, Double)>, cutoff: Double) -> Seq<(Double, Double)>
    decreases s.len(),
{
    if s.len() > 0 && s[0].0.lt(cutoff) {
        pruned(s.drop_first(), cutoff)
    } else {
        s
    }
}

/// Distance in time of an entry from `target`.
pub open spec fn gap(s: Seq<(Double, Double)>, target: Double, i: int) -> Double {
    s[i].0.minus(target).abs()
}

/// `i` is the first entry of `s` among those closest to `target`.  Where no entry is at a
/// finite distance, that is the first entry.
pub open spec fn is_closest(s: Seq<(Double, Double)>, target: Double, i: int) -> bool {
    &&& 0 <= i < s.len()
    &&& if gap(s, target, i).lt(greatest()) {
        &&& forall|j: int|
            0 <= j < s.len() ==> !(#[trigger] gap(s, target, j)).lt(gap(s, target, i))
        &&& forall|j: int| 0 <= j < i ==> !(#[trigger] gap(s, target, j)).le(gap(s, target, i))
    } else {
        &&& i == 0
        &&& forall|j: int| 0 <= j < s.len() ==> !(#[trigger] gap(s, target, j)).lt(greatest())
    }
}

/// The change from the entry at `i` to the latest, seen at the time `now`.
pub open spec fn change_since(s: Seq<(Double, Double)>, i: int, now: Double) -> DeltaResult {
    let (past_ts, past_price) = s[i];
    let (latest_ts, latest_price) = s.last();
    let zero = Double::ratio(0, 1);
    if past_price.le(zero) || latest_price.le(zero) {
        DeltaResult::unavailable()
    } else {
        DeltaResult {
            delta_bps: latest_price.minus(past_price).over(past_price).times(
                Double::ratio(10_000, 1),
            ),
            available: true,
            sample_age_ms: now.minus(latest_ts).times(Double::ratio(1000, 1)),
            window_start_ts: past_ts,
            window_end_ts: latest_ts,
        }
    }
}

/// The entry that is closest to `target`.
pub open spec fn closest(s: Seq<(Double, Double)>, target: Double) -> int {
    choose|i: int| is_closest(s, target, i)
}

/// The change over a window that ends with the latest entry, seen at the time `now`.
pub open spec fn delta_over(
    s: Seq<(Double, Double)>,
    window_seconds: Double,
    now: Double,
) -> DeltaResult {
    if s.len() == 0 {
        DeltaResult::unavailable()
    } else {
        change_since(s, closest(s, s.last().0.minus(window_seconds)), now)
    }
}

/// Computes price changes over rolling time windows.
pub struct DeltaComputer {
    /// Time and price of the ticks, oldest first.
    buffer: VecDeque<(Double, Double)>,
    /// Greatest age of an entry, in seconds.
    max_age_secs: Double,
}

impl View for DeltaComputer {
    type V = Seq<(Double, Double)>;

    closed spec fn view(&self) -> Seq<(Double, Double)> {
        self.buffer@
    }
}

impl DeltaComputer {
    pub closed spec fn max_age(&self) -> Double {
        self.max_age_secs
    }

    pub fn new(max_age_secs: Double) -> (r: Self)
        ensures
            r@ == Seq::<(Double, Double)>::empty(),
            r.max_age() == max_age_secs,
    {
        DeltaComputer { buffer: VecDeque::with_capacity(2048), max_age_secs }
    }

    /// Adds a price tick and drops the entries that it leaves too old.
    pub fn add_tick(&mut self, timestamp: Double, price: Double)
        ensures
            final(self)@ == pruned(
                old(self)@.push((timestamp, price)),
                timestamp.minus(old(self).max_age()),
            ),
            final(self).max_age() == old(self).max_age(),
    {
        self.buffer.push_back((timestamp, price));
        self.prune(timestamp);
    }

    fn prune(&mut self, now: Double)
        ensures
            final(self)@ == pruned(old(self)@, now.minus(old(self).max_age())),
            final(self).max_age() == old(self).max_age(),
    {
        let cutoff: Double = now.minus(self.max_age_secs);
        while self.buffer.len() > 0 && self.buffer[0].0.lt(cutoff)
            invariant
                self.max_age_secs == old(self).max_age_secs,
                pruned(self.buffer@, cutoff) == pruned(old(self).buffer@, cutoff),
            decreases self.buffer@.len(),
        {
            let ghost before: Seq<(Double, Double)> = self.buffer@;
            let _ = self.buffer.pop_front();
            assert(self.buffer@ =~= before.drop_first());
        }
    }

    /// The price change, in basis points, over the given window, seen at the time `now`.
    pub fn compute_delta(&self, window_seconds: Double, now: Double) -> (r: DeltaResult)
        ensures
            r == delta_over(self@, window_seconds, now),
            self@.len() > 0 ==> is_closest(
                self@,
                self@.last().0.minus(window_seconds),
                closest(self@, self@.last().0.minus(window_seconds)),
            ),
    {
        let n: usize = self.buffer.len();
        if n == 0 {
            return DeltaResult::unavailable();
        }
        let (latest_ts, latest_price): (Double, Double) = self.buffer[n - 1];
        let target: Double = latest_ts.minus(window_seconds);
        let mut best: usize = 0;
        let mut best_gap: Double = Double::from_bits(0x7FEF_FFFF_FFFF_FFFF);
        let mut i: usize = 0;
        while i < n
            invariant
                n == self.buffer@.len(),
                i <= n,
                n > 0,
                best < n,
                !best_gap.is_nan(),
                !greatest().lt(best_gap),
                forall|j: int|
                    0 <= j < i ==> !(#[trigger] gap(self.buffer@, target, j)).lt(best_gap),
                best_gap == greatest() && best == 0 || best_gap.lt(greatest()) && best < i
                    && best_gap == gap(self.buffer@, target, best as int) && forall|j: int|
                    0 <= j < best ==> !(#[trigger] gap(self.buffer@, target, j)).le(best_gap),
            decreases n - i,
        {
            let diff: Double = self.buffer[i].0.minus(target).abs();
            assert(diff == gap(self.buffer@, target, i as int));
            if diff.lt(best_gap) {
                best_gap = diff;
                best = i;
            }
            i = i + 1;
        }
        let (past_ts, past_price): (Double, Double) = self.buffer[best];
        proof {
            assert(is_closest(self@, target, best as int));
            closest_is_unique(self@, target, best as int, closest(self@, target));
        }
        let zero: Double = Double::ratio(0, 1);
        if past_price.le(zero) || latest_price.le(zero) {
            return DeltaResult::unavailable();
        }
        DeltaResult {
            delta_bps: latest_price.minus(past_price).over(past_price).times(
                Double::ratio(10_000, 1),
            ),
            available: true,
            sample_age_ms: now.minus(latest_ts).times(Double::ratio(1000, 1)),
            window_start_ts: past_ts,
            window_end_ts: latest_ts,
        }
    }

    /// The latest price, if any.
    pub fn get_latest_price(&self) -> (r: Option<Double>)
        ensures
            r == (if self@.len() > 0 {
                Some(self@.last().1)
            } else {
                None
            }),
    {
        let n: usize = self.buffer.len();
        if n > 0 {
            Some(self.buffer[n - 1].1)
        } else {
            None
        }
    }

    /// The time of the latest price, if any.
    pub fn get_latest_timestamp(&self) -> (r: Option<Double>)
        ensures
            r == (if self@.len() > 0 {
                Some(self@.last().0)
            } else {
                None
            }),
    {
        let n: usize = self.buffer.len();
        if n > 0 {
            Some(self.buffer[n - 1].0)
        } else {
            None
        }
    }

    /// Number of entries.
    pub fn len(&self) -> (r: usize)
        ensures
            r == self@.len(),
    {
        self.buffer.len()
    }

    pub fn is_empty(&self) -> (r: bool)
        ensures
            r == (self@.len() == 0),
    {
        self.buffer.len() == 0
    }
}

/// The closest entry is unique.
pub proof fn closest_is_unique(s: Seq<(Double, Double)>, target: Double, i: int, j: int)
    requires
        is_closest(s, target, i),
        is_closest(s, target, j),
    ensures
        i == j,
{
    let a: Double = gap(s, target, i);
    let b: Double = gap(s, target, j);
    if i < j {
        assert(!a.le(b));
    } else if j < i {
        assert(!b.le(a));
    }
}

/// Pruning only drops entries from the front, and what is left at the front is not too old.
pub proof fn pruning_drops_the_oldest(s: Seq<(Double, Double)>, cutoff: Double)
    ensures
        ({
            let kept = pruned(s, cutoff);
            &&& kept.len() <= s.len()
            &&& kept == s.subrange(s.len() - kept.len(), s.len() as int)
            &&& kept.len() > 0 ==> !kept[0].0.lt(cutoff)
            &&& forall|i: int| 0 <= i < s.len() - kept.len() ==> (#[trigger] s[i]).0.lt(cutoff)
        }),
    decreases s.len(),
{
    let kept = pruned(s, cutoff);
    if s.len() > 0 && s[0].0.lt(cutoff) {
        let rest = s.drop_first();
        pruning_drops_the_oldest(rest, cutoff);
        assert(rest.subrange(rest.len() - kept.len(), rest.len() as int) =~= s.subrange(
            s.len() - kept.len(),
            s.len() as int,
        ));
        assert forall|i: int| 0 <= i < s.len() - kept.len() implies (#[trigger] s[i]).0.lt(
            cutoff,
        ) by {
            if i > 0 {
                assert(s[i] == rest[i - 1]);
            }
        }
    } else {
        assert(s.subrange(0, s.len() as int) =~= s);
    }
}

/// A tick is never dropped by its own arrival: it is the latest entry afterwards.
pub proof fn new_tick_is_kept(
    s: Seq<(Double, Double)>,
    timestamp: Double,
    price: Double,
    max_age: Double,
)
    requires
        Double::ratio(0, 1).le(max_age),
    ensures
        ({
            let kept = pruned(s.push((timestamp, price)), timestamp.minus(max_age));
            kept.len() > 0 && kept.last() == (timestamp, price)
        }),
{
    let all = s.push((timestamp, price));
    let cutoff = timestamp.minus(max_age);
    let kept = pruned(all, cutoff);
    pruning_drops_the_oldest(all, cutoff);
    if kept.len() == 0 {
        assert(all[s.len() as int].0.lt(cutoff));
        order::minus_does_not_grow(timestamp, max_age);
    }
    assert(kept.last() == all[all.len() - 1]);
}

/// The change has the sign of the move: it is not below zero when the price has not fallen, and
/// not above zero when it has not risen.
pub proof fn change_has_the_sign_of_the_move(s: Seq<(Double, Double)>, i: int, now: Double)
    requires
        0 <= i < s.len(),
        change_since(s, i, now).available,
        !change_since(s, i, now).delta_bps.is_nan(),
    ensures
        s[i].1.le(s.last().1) ==> Double::ratio(0, 1).le(change_since(s, i, now).delta_bps),
        s.last().1.le(s[i].1) ==> change_since(s, i, now).delta_bps.le(Double::ratio(0, 1)),
{
    let past = s[i].1;
    let latest = s.last().1;
    let scale = Double::ratio(10_000, 1);
    let step = latest.minus(past);
    laws::lemma_ratio(0, 1);
    laws::lemma_ratio(10_000, 1);
    assert(!step.over(past).is_nan() && !step.is_nan() && !past.is_nan() && !latest.is_nan()) by {
        reveal(Double::spec_times);
        reveal(Double::spec_over);
        reveal(Double::spec_plus);
    }
    order::no_distance_to_itself(past);
    if past.is_finite() {
        if past.le(latest) {
            order::plus_keeps_order(past, latest, past.negated());
        }
        if latest.le(past) {
            order::plus_keeps_order(latest, past, past.negated());
        }
        order::quotient_keeps_sign(step, past);
        order::product_keeps_sign(step.over(past), scale);
    } else {
        reveal(Double::spec_plus);
        reveal(Double::spec_over);
        laws::lemma_signed(!past.is_negative(), past.mag());
    }
}

} // verus!

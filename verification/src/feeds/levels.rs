//! Price levels of one side of an order book.

use vstd::prelude::*;

use super::types::BookLevel;
use crate::double::{laws, order, Double};

verus! {

/// Prices closer than this are the same price.
pub open spec fn spec_tolerance() -> Double {
    Double::ratio(1, 100000)
}

#[verifier::when_used_as_spec(spec_tolerance)]
pub fn tolerance() -> (r: Double)
    ensures
        r == tolerance(),
{
    Double::ratio(1, 100000)
}

/// How far a level is from a price.
pub open spec fn distance(level: BookLevel, price: Double) -> Double {
    level.price.minus(price).abs()
}

/// Whether the level is the first at this price.
pub open spec fn is_first_at(levels: Seq<BookLevel>, price: Double, i: int) -> bool {
    &&& 0 <= i < levels.len()
    &&& distance(levels[i], price).lt(tolerance())
    &&& forall|j: int| 0 <= j < i ==> !distance(#[trigger] levels[j], price).lt(tolerance())
}

/// The levels that are not at this price.
pub open spec fn without(levels: Seq<BookLevel>, price: Double) -> Seq<BookLevel>
    decreases levels.len(),
{
    if levels.len() == 0 {
        levels
    } else if tolerance().lt(distance(levels.last(), price)) {
        without(levels.drop_last(), price).push(levels.last())
    } else {
        without(levels.drop_last(), price)
    }
}

/// Whether `a` comes before `b`: the best bid is the highest, the best ask the lowest.
pub open spec fn precedes(a: BookLevel, b: BookLevel, buy: bool) -> bool {
    if buy {
        b.price.lt(a.price)
    } else {
        a.price.lt(b.price)
    }
}

/// `x` moved forward from the end past all levels that it precedes.
pub open spec fn inserted(s: Seq<BookLevel>, x: BookLevel, buy: bool) -> Seq<BookLevel>
    decreases s.len(),
{
    if s.len() > 0 && precedes(x, s.last(), buy) {
        inserted(s.drop_last(), x, buy).push(s.last())
    } else {
        s.push(x)
    }
}

/// The levels with the best first; levels of one price keep their order.
pub open spec fn arranged(s: Seq<BookLevel>, buy: bool) -> Seq<BookLevel>
    decreases s.len(),
{
    if s.len() == 0 {
        s
    } else {
        inserted(arranged(s.drop_last(), buy), s.last(), buy)
    }
}

/// The levels after a new size was given for a price.
pub open spec fn changed(
    levels: Seq<BookLevel>,
    price: Double,
    size: Double,
    buy: bool,
) -> Seq<BookLevel> {
    if size.same(Double::ratio(0, 1)) {
        without(levels, price)
    } else if exists|i: int| is_first_at(levels, price, i) {
        let i = choose|i: int| is_first_at(levels, price, i);
        levels.update(i, BookLevel { price: levels[i].price, size })
    } else {
        arranged(levels.push(BookLevel { price, size }), buy)
    }
}

fn precedes_level(a: BookLevel, b: BookLevel, buy: bool) -> (r: bool)
    ensures
        r == precedes(a, b, buy),
{
    if buy {
        b.price.lt(a.price)
    } else {
        a.price.lt(b.price)
    }
}

/// Removes the levels at a price.
pub fn remove_level(levels: &mut Vec<BookLevel>, price: Double)
    ensures
        final(levels)@ == without(old(levels)@, price),
{
    let ghost start: Seq<BookLevel> = levels@;
    let mut kept: Vec<BookLevel> = Vec::new();
    let limit: Double = tolerance();
    let mut i: usize = 0;
    assert(start.subrange(0, 0) =~= Seq::<BookLevel>::empty());
    while i < levels.len()
        invariant
            i <= levels@.len(),
            start == levels@,
            limit == tolerance(),
            kept@ == without(start.subrange(0, i as int), price),
        decreases levels@.len() - i,
    {
        let level: BookLevel = levels[i];
        proof {
            assert(start.subrange(0, i + 1).drop_last() =~= start.subrange(0, i as int));
        }
        if limit.lt(level.price.minus(price).abs()) {
            kept.push(level);
        }
        i = i + 1;
    }
    assert(start.subrange(0, i as int) =~= start);
    *levels = kept;
}

/// Index of the first level at a price.
pub fn find_level(levels: &Vec<BookLevel>, price: Double) -> (r: Option<usize>)
    ensures
        r matches Some(i) ==> is_first_at(levels@, price, i as int),
        r is None ==> forall|i: int| !is_first_at(levels@, price, i),
{
    let limit: Double = tolerance();
    let mut i: usize = 0;
    while i < levels.len()
        invariant
            i <= levels@.len(),
            limit == tolerance(),
            forall|j: int|
                0 <= j < i ==> !distance(#[trigger] levels@[j], price).lt(tolerance()),
        decreases levels@.len() - i,
    {
        if levels[i].price.minus(price).abs().lt(limit) {
            return Some(i);
        }
        i = i + 1;
    }
    None
}

/// Where `inserted` puts a level.
proof fn lemma_inserted(s: Seq<BookLevel>, x: BookLevel, buy: bool, k: int)
    requires
        0 <= k <= s.len(),
        forall|j: int| k <= j < s.len() ==> precedes(x, #[trigger] s[j], buy),
        k > 0 ==> !precedes(x, s[k - 1], buy),
    ensures
        inserted(s, x, buy) == s.insert(k, x),
    decreases s.len(),
{
    if s.len() == k {
        assert(s.insert(k, x) =~= s.push(x));
    } else {
        lemma_inserted(s.drop_last(), x, buy, k);
        assert(s.drop_last().insert(k, x).push(s.last()) =~= s.insert(k, x));
    }
}

/// Puts the best level first; levels of one price keep their order.
pub fn arrange(levels: &mut Vec<BookLevel>, buy: bool)
    ensures
        final(levels)@ == arranged(old(levels)@, buy),
{
    let ghost start: Seq<BookLevel> = levels@;
    let mut out: Vec<BookLevel> = Vec::new();
    let mut i: usize = 0;
    assert(start.subrange(0, 0) =~= Seq::<BookLevel>::empty());
    while i < levels.len()
        invariant
            i <= levels@.len(),
            start == levels@,
            out@ == arranged(start.subrange(0, i as int), buy),
        decreases levels@.len() - i,
    {
        let x: BookLevel = levels[i];
        let mut k: usize = out.len();
        while k > 0 && precedes_level(x, out[k - 1], buy)
            invariant
                k <= out@.len(),
                forall|j: int| k <= j < out@.len() ==> precedes(x, #[trigger] out@[j], buy),
            decreases k,
        {
            k = k - 1;
        }
        proof {
            lemma_inserted(out@, x, buy, k as int);
            assert(start.subrange(0, i + 1).drop_last() =~= start.subrange(0, i as int));
        }
        out.insert(k, x);
        i = i + 1;
    }
    assert(start.subrange(0, i as int) =~= start);
    *levels = out;
}

/// Takes in a new size for a price.
pub fn change(levels: &mut Vec<BookLevel>, price: Double, size: Double, buy: bool)
    ensures
        final(levels)@ == changed(old(levels)@, price, size, buy),
{
    if size.same(Double::ratio(0, 1)) {
        remove_level(levels, price);
        return;
    }
    match find_level(levels, price) {
        Some(i) => {
            proof {
                let k = choose|k: int| is_first_at(levels@, price, k);
                assert(is_first_at(levels@, price, i as int));
                if k < i {
                    assert(distance(levels@[k], price).lt(tolerance()));
                }
                if i < k {
                    assert(distance(levels@[i as int], price).lt(tolerance()));
                }
            }
            let level: BookLevel = levels[i];
            levels.set(i, BookLevel { price: level.price, size });
        },
        None => {
            levels.push(BookLevel { price, size });
            arrange(levels, buy);
        },
    }
}

/// Whether no price is missing.
pub open spec fn comparable(s: Seq<BookLevel>) -> bool {
    forall|i: int| 0 <= i < s.len() ==> !(#[trigger] s[i]).price.is_nan()
}

/// Whether no level comes after one that it precedes.
pub open spec fn in_order(s: Seq<BookLevel>, buy: bool) -> bool {
    forall|i: int, j: int| 0 <= i < j < s.len() ==> !precedes(#[trigger] s[j], #[trigger] s[i], buy)
}

proof fn lemma_inserted_order(s: Seq<BookLevel>, x: BookLevel, buy: bool)
    requires
        comparable(s),
        !x.price.is_nan(),
        in_order(s, buy),
    ensures
        comparable(inserted(s, x, buy)),
        in_order(inserted(s, x, buy), buy),
        inserted(s, x, buy).to_multiset() == s.to_multiset().insert(x),
        forall|i: int|
            0 <= i < inserted(s, x, buy).len() ==> (exists|j: int| 0 <= j < s.len() && s[j]
                == #[trigger] inserted(s, x, buy)[i]) || inserted(s, x, buy)[i] == x,
    decreases s.len(),
{
    broadcast use vstd::seq_lib::group_to_multiset_ensures;

    let t = inserted(s, x, buy);
    if s.len() > 0 && precedes(x, s.last(), buy) {
        let front = s.drop_last();
        lemma_inserted_order(front, x, buy);
        let u = inserted(front, x, buy);
        assert(s =~= front.push(s.last()));
        assert(t =~= u.push(s.last()));
        assert(front.push(s.last()).to_multiset() =~= front.to_multiset().insert(s.last()));
        assert(u.push(s.last()).to_multiset() =~= u.to_multiset().insert(s.last()));
        assert(t.to_multiset() =~= s.to_multiset().insert(x));
        assert forall|i: int| 0 <= i < t.len() implies (exists|j: int|
            0 <= j < s.len() && s[j] == #[trigger] t[i]) || t[i] == x by {
            if i == t.len() - 1 {
                assert(s[s.len() - 1] == t[i]);
            } else {
                assert(u[i] == t[i]);
                if u[i] != x {
                    let j = choose|j: int| 0 <= j < front.len() && front[j] == u[i];
                    assert(s[j] == t[i]);
                }
            }
        }
        assert forall|i: int, j: int| 0 <= i < j < t.len() implies !precedes(
            #[trigger] t[j],
            #[trigger] t[i],
            buy,
        ) by {
            if j == t.len() - 1 {
                assert(u[i] == t[i]);
                if u[i] != x {
                    let k = choose|k: int| 0 <= k < front.len() && front[k] == u[i];
                    assert(!precedes(s[s.len() - 1], s[k], buy));
                }
            } else {
                assert(!precedes(u[j], u[i], buy));
            }
        }
    } else {
        assert forall|i: int| 0 <= i < t.len() implies (exists|j: int|
            0 <= j < s.len() && s[j] == #[trigger] t[i]) || t[i] == x by {
            if i < s.len() {
                assert(s[i] == t[i]);
            }
        }
        assert forall|i: int, j: int| 0 <= i < j < t.len() implies !precedes(
            #[trigger] t[j],
            #[trigger] t[i],
            buy,
        ) by {
            if j == s.len() {
                if i < s.len() - 1 {
                    assert(!precedes(s[s.len() - 1], s[i], buy));
                }
            } else {
                assert(!precedes(s[j], s[i], buy));
            }
        }
    }
}

/// Arranging loses no level and adds none, and puts the best first.
pub proof fn arranged_in_order(s: Seq<BookLevel>, buy: bool)
    requires
        comparable(s),
    ensures
        arranged(s, buy).to_multiset() == s.to_multiset(),
        in_order(arranged(s, buy), buy),
        comparable(arranged(s, buy)),
    decreases s.len(),
{
    broadcast use vstd::seq_lib::group_to_multiset_ensures;

    if s.len() > 0 {
        let front = s.drop_last();
        arranged_in_order(front, buy);
        lemma_inserted_order(arranged(front, buy), s.last(), buy);
        assert(s =~= front.push(s.last()));
    }
}

/// What is in order already stays as it is.
pub proof fn arranged_again(s: Seq<BookLevel>, buy: bool)
    requires
        in_order(s, buy),
    ensures
        arranged(s, buy) == s,
    decreases s.len(),
{
    if s.len() > 0 {
        let front = s.drop_last();
        arranged_again(front, buy);
        if front.len() > 0 {
            assert(!precedes(s[s.len() - 1], s[s.len() - 2], buy));
        }
        assert(front.push(s.last()) =~= s);
    }
}

/// After a level is taken out, none is left at its price.
pub proof fn removed_level_is_gone(levels: Seq<BookLevel>, price: Double)
    ensures
        forall|i: int|
            0 <= i < without(levels, price).len() ==> tolerance().lt(
                distance(#[trigger] without(levels, price)[i], price),
            ),
        forall|i: int| !is_first_at(without(levels, price), price, i),
    decreases levels.len(),
{
    let after = without(levels, price);
    if levels.len() > 0 {
        removed_level_is_gone(levels.drop_last(), price);
        let front = without(levels.drop_last(), price);
        assert forall|i: int| 0 <= i < after.len() implies tolerance().lt(
            distance(#[trigger] after[i], price),
        ) by {
            if i < front.len() {
                assert(after[i] == front[i]);
            }
        }
    }
    assert forall|i: int| !is_first_at(after, price, i) by {
        if 0 <= i < after.len() {
            assert(tolerance().lt(distance(after[i], price)));
        }
    }
}

/// The levels of one price, in their order.
pub open spec fn at_price(s: Seq<BookLevel>, price: Double) -> Seq<BookLevel>
    decreases s.len(),
{
    if s.len() == 0 {
        s
    } else if s.last().price.same(price) {
        at_price(s.drop_last(), price).push(s.last())
    } else {
        at_price(s.drop_last(), price)
    }
}

proof fn lemma_inserted_stable(s: Seq<BookLevel>, x: BookLevel, buy: bool, price: Double)
    ensures
        at_price(inserted(s, x, buy), price) == at_price(s.push(x), price),
    decreases s.len(),
{
    assert(s.push(x).drop_last() =~= s);
    if s.len() > 0 && precedes(x, s.last(), buy) {
        let front = s.drop_last();
        lemma_inserted_stable(front, x, buy, price);
        assert(front.push(x).drop_last() =~= front);
        let t = inserted(front, x, buy);
        assert(t.push(s.last()).drop_last() =~= t);
        reveal_with_fuel(at_price, 3);
    }
}

/// Levels of one price keep their order.
pub proof fn arranged_is_stable(s: Seq<BookLevel>, buy: bool, price: Double)
    ensures
        at_price(arranged(s, buy), price) == at_price(s, price),
    decreases s.len(),
{
    if s.len() > 0 {
        let front = s.drop_last();
        arranged_is_stable(front, buy, price);
        let a = arranged(front, buy);
        lemma_inserted_stable(a, s.last(), buy, price);
        assert(a.push(s.last()).drop_last() =~= a);
    }
}

/// A size that is given for a price that has a level replaces that level's size and touches
/// nothing else.
pub proof fn known_price_is_updated(
    levels: Seq<BookLevel>,
    price: Double,
    size: Double,
    buy: bool,
    i: int,
)
    requires
        is_first_at(levels, price, i),
        !size.same(Double::ratio(0, 1)),
    ensures
        changed(levels, price, size, buy) == levels.update(
            i,
            BookLevel { price: levels[i].price, size },
        ),
{
    let k = choose|k: int| is_first_at(levels, price, k);
    assert(is_first_at(levels, price, k));
    if k < i {
        assert(!distance(levels[k], price).lt(tolerance()));
    }
    if i < k {
        assert(!distance(levels[i], price).lt(tolerance()));
    }
}

/// A size that is given for a new price adds one level, and leaves the side in order.
pub proof fn new_price_is_added(
    levels: Seq<BookLevel>,
    price: Double,
    size: Double,
    buy: bool,
)
    requires
        forall|i: int| !is_first_at(levels, price, i),
        !size.same(Double::ratio(0, 1)),
        comparable(levels),
        !price.is_nan(),
    ensures
        changed(levels, price, size, buy).to_multiset() == levels.to_multiset().insert(
            BookLevel { price, size },
        ),
        in_order(changed(levels, price, size, buy), buy),
{
    broadcast use vstd::seq_lib::group_to_multiset_ensures;

    arranged_in_order(levels.push(BookLevel { price, size }), buy);
}

/// Whether each level is better than all that follow it, at prices that are not infinite.
pub open spec fn strictly_ordered(s: Seq<BookLevel>, buy: bool) -> bool {
    &&& forall|i: int| 0 <= i < s.len() ==> (#[trigger] s[i]).price.is_finite()
    &&& forall|i: int, j: int|
        0 <= i < j < s.len() ==> precedes(#[trigger] s[i], #[trigger] s[j], buy)
}

/// Taking levels out keeps the rest in order.
proof fn lemma_without_order(levels: Seq<BookLevel>, price: Double, buy: bool)
    requires
        strictly_ordered(levels, buy),
    ensures
        strictly_ordered(without(levels, price), buy),
        forall|i: int|
            0 <= i < without(levels, price).len() ==> levels.contains(
                #[trigger] without(levels, price)[i],
            ),
    decreases levels.len(),
{
    let after = without(levels, price);
    if levels.len() > 0 {
        let front = levels.drop_last();
        let kept = without(front, price);
        lemma_without_order(front, price, buy);
        assert forall|i: int| 0 <= i < kept.len() implies levels.contains(#[trigger] kept[i])
            && precedes(kept[i], levels.last(), buy) by {
            let j = choose|j: int| 0 <= j < front.len() && front[j] == kept[i];
            assert(levels[j] == kept[i]);
            assert(precedes(levels[j], levels[levels.len() - 1], buy));
        }
        assert(levels.contains(levels[levels.len() - 1]));
        assert forall|i: int| 0 <= i < after.len() implies levels.contains(#[trigger] after[i])
            && after[i].price.is_finite() by {
            if i < kept.len() {
                assert(after[i] == kept[i]);
            }
        }
        assert forall|i: int, j: int| 0 <= i < j < after.len() implies precedes(
            #[trigger] after[i],
            #[trigger] after[j],
            buy,
        ) by {
            assert(after[i] == kept[i]);
            if j < kept.len() {
                assert(after[j] == kept[j]);
            }
        }
    }
}

/// Where a level at a new price goes, the side stays in order.
proof fn lemma_inserted_strictly(s: Seq<BookLevel>, x: BookLevel, buy: bool)
    requires
        strictly_ordered(s, buy),
        x.price.is_finite(),
        forall|i: int| 0 <= i < s.len() ==> !(#[trigger] s[i]).price.same(x.price),
    ensures
        strictly_ordered(inserted(s, x, buy), buy),
        forall|i: int|
            0 <= i < inserted(s, x, buy).len() ==> #[trigger] inserted(s, x, buy)[i] == x
                || s.contains(inserted(s, x, buy)[i]),
    decreases s.len(),
{
    let t = inserted(s, x, buy);
    if s.len() > 0 && precedes(x, s.last(), buy) {
        let front = s.drop_last();
        let u = inserted(front, x, buy);
        lemma_inserted_strictly(front, x, buy);
        assert(t =~= u.push(s.last()));
        assert(s.contains(s[s.len() - 1]));
        assert forall|i: int| 0 <= i < u.len() implies precedes(#[trigger] u[i], s.last(), buy) && (
        u[i] == x || s.contains(u[i])) by {
            if u[i] != x {
                let j = choose|j: int| 0 <= j < front.len() && front[j] == u[i];
                assert(s[j] == u[i]);
                assert(precedes(s[j], s[s.len() - 1], buy));
            }
        }
        assert forall|i: int, j: int| 0 <= i < j < t.len() implies precedes(
            #[trigger] t[i],
            #[trigger] t[j],
            buy,
        ) by {
            assert(t[i] == u[i]);
            if j < u.len() {
                assert(t[j] == u[j]);
            }
        }
        assert forall|i: int| 0 <= i < t.len() implies (#[trigger] t[i] == x || s.contains(t[i]))
            && t[i].price.is_finite() by {
            if i < u.len() {
                assert(t[i] == u[i]);
            }
        }
    } else {
        assert(t =~= s.push(x));
        assert forall|i: int| 0 <= i < s.len() implies precedes(#[trigger] s[i], x, buy)
            && s.contains(s[i]) by {
            assert(!s[s.len() - 1].price.same(x.price));
            if i < s.len() - 1 {
                assert(precedes(s[i], s[s.len() - 1], buy));
            }
        }
        assert forall|i: int, j: int| 0 <= i < j < t.len() implies precedes(
            #[trigger] t[i],
            #[trigger] t[j],
            buy,
        ) by {
            assert(t[i] == s[i]);
            if j < s.len() {
                assert(t[j] == s[j]);
            }
        }
        assert forall|i: int| 0 <= i < t.len() implies (#[trigger] t[i] == x || s.contains(t[i]))
            && t[i].price.is_finite() by {
            if i < s.len() {
                assert(t[i] == s[i]);
            }
        }
    }
}

/// A level that joins a side which is in order moves to its place, and nothing else moves.
proof fn lemma_joins(levels: Seq<BookLevel>, x: BookLevel, buy: bool)
    requires
        in_order(levels, buy),
    ensures
        arranged(levels.push(x), buy) == inserted(levels, x, buy),
{
    arranged_again(levels, buy);
    assert(levels.push(x).drop_last() =~= levels);
}

/// Whatever size is given for whatever price, a side that is strictly in order stays so: no
/// price gets a second level.
pub proof fn change_keeps_order(levels: Seq<BookLevel>, price: Double, size: Double, buy: bool)
    requires
        strictly_ordered(levels, buy),
        price.is_finite(),
    ensures
        strictly_ordered(changed(levels, price, size, buy), buy),
{
    let after = changed(levels, price, size, buy);
    if size.same(Double::ratio(0, 1)) {
        lemma_without_order(levels, price, buy);
    } else if exists|i: int| is_first_at(levels, price, i) {
        let i = choose|i: int| is_first_at(levels, price, i);
        known_price_is_updated(levels, price, size, buy, i);
        assert forall|j: int| 0 <= j < after.len() implies (#[trigger] after[j]).price
            == levels[j].price by {}
        assert forall|j: int, k: int| 0 <= j < k < after.len() implies precedes(
            #[trigger] after[j],
            #[trigger] after[k],
            buy,
        ) by {
            assert(precedes(levels[j], levels[k], buy));
        }
    } else {
        let x = BookLevel { price, size };
        assert forall|i: int| 0 <= i < levels.len() implies !(#[trigger] levels[i]).price.same(
            price,
        ) by {
            if levels[i].price.same(price) {
                order::equals_are_not_apart(levels[i].price, price);
                lemma_tolerance();
                assert(distance(levels[i], price).lt(tolerance()));
                lemma_has_first(levels, price, i);
            }
        }
        assert forall|i: int, j: int| 0 <= i < j < levels.len() implies !precedes(
            #[trigger] levels[j],
            #[trigger] levels[i],
            buy,
        ) by {
            assert(precedes(levels[i], levels[j], buy));
        }
        lemma_joins(levels, x, buy);
        lemma_inserted_strictly(levels, x, buy);
    }
}

/// The tolerance is above zero.
pub proof fn lemma_tolerance()
    ensures
        Double::ratio(0, 1).lt(tolerance()),
{
    vstd::arithmetic::power2::lemma2_to64();
    laws::lemma_binary_fraction(17, 131072);
    laws::lemma_ratio(0, 1);
    laws::lemma_ratio(1, 100000);
    laws::lemma_ratio_order(1, 131072, 1, 100000);
}

/// Where a level is at a price, there is a first.
proof fn lemma_has_first(levels: Seq<BookLevel>, price: Double, i: int)
    requires
        0 <= i < levels.len(),
        distance(levels[i], price).lt(tolerance()),
    ensures
        exists|j: int| is_first_at(levels, price, j),
    decreases i,
{
    if exists|j: int| 0 <= j < i && distance(#[trigger] levels[j], price).lt(tolerance()) {
        let j = choose|j: int| 0 <= j < i && distance(#[trigger] levels[j], price).lt(tolerance());
        lemma_has_first(levels, price, j);
    } else {
        assert(is_first_at(levels, price, i));
    }
}

/// A level at a price does not outlast the removal of that price, wherever it stands.
proof fn lemma_without_inserted(s: Seq<BookLevel>, x: BookLevel, price: Double, buy: bool)
    requires
        !tolerance().lt(distance(x, price)),
    ensures
        without(inserted(s, x, buy), price) == without(s, price),
    decreases s.len(),
{
    if s.len() > 0 && precedes(x, s.last(), buy) {
        let front = s.drop_last();
        lemma_without_inserted(front, x, price, buy);
        assert(inserted(front, x, buy).push(s.last()).drop_last() =~= inserted(front, x, buy));
    } else {
        assert(s.push(x).drop_last() =~= s);
    }
}

/// Where no level is at a price, its removal changes nothing.
proof fn lemma_nothing_at(levels: Seq<BookLevel>, price: Double)
    requires
        forall|i: int|
            0 <= i < levels.len() ==> tolerance().lt(distance(#[trigger] levels[i], price)),
    ensures
        without(levels, price) == levels,
    decreases levels.len(),
{
    if levels.len() > 0 {
        let front = levels.drop_last();
        assert forall|i: int| 0 <= i < front.len() implies tolerance().lt(
            distance(#[trigger] front[i], price),
        ) by {
            assert(levels[i] == front[i]);
        }
        lemma_nothing_at(front, price);
        assert(tolerance().lt(distance(levels[levels.len() - 1], price)));
        assert(front.push(levels.last()) =~= levels);
    }
}

/// A size for a price at which there was no level, and then none, leave the side as it was.
pub proof fn added_level_comes_off(
    levels: Seq<BookLevel>,
    price: Double,
    size: Double,
    none: Double,
    buy: bool,
)
    requires
        in_order(levels, buy),
        price.is_finite(),
        forall|i: int|
            0 <= i < levels.len() ==> tolerance().lt(distance(#[trigger] levels[i], price)),
        !size.same(Double::ratio(0, 1)),
        none.same(Double::ratio(0, 1)),
    ensures
        changed(changed(levels, price, size, buy), price, none, buy) == levels,
{
    let x = BookLevel { price, size };
    assert forall|i: int| !is_first_at(levels, price, i) by {
        if 0 <= i < levels.len() {
            assert(tolerance().lt(distance(levels[i], price)));
        }
    }
    lemma_joins(levels, x, buy);
    order::equals_are_not_apart(price, price);
    lemma_tolerance();
    lemma_without_inserted(levels, x, price, buy);
    lemma_nothing_at(levels, price);
}

} // verus!

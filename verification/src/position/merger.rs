//! Merging complementary positions: one share of each token of a market is worth a dollar
//! whatever comes, so whole sets can be turned back into money.

use vstd::prelude::*;

use super::tracker;
use super::tracker::{PositionTracker, TokenPosition, TokenPositionView};
use crate::double::arithmetic::UNIT;
use crate::double::{integers, laws, order, Double};
use crate::feeds::delta;
use crate::store;
use crate::text;

verus! {

/// A merge to be made: so many sets of the shares of a market.
#[derive(Debug)]
pub struct MergeOpportunity {
    pub condition_id: String,
    pub sets: u64,
}

/// Number of tokens held of a market.
pub open spec fn tokens_of(s: Seq<TokenPositionView>, condition_id: Seq<char>) -> nat
    decreases s.len(),
{
    if s.len() == 0 {
        0
    } else {
        tokens_of(s.drop_last(), condition_id) + (if s.last().condition_id == condition_id {
            1nat
        } else {
            0
        })
    }
}

/// The least number of shares held of any token of a market.
pub open spec fn least_shares(s: Seq<TokenPositionView>, condition_id: Seq<char>) -> Double
    decreases s.len(),
{
    if s.len() == 0 {
        delta::greatest()
    } else if s.last().condition_id == condition_id {
        least_shares(s.drop_last(), condition_id).min(s.last().shares)
    } else {
        least_shares(s.drop_last(), condition_id)
    }
}

/// Whether a market has at least two tokens, and a whole share of each.
pub open spec fn mergeable(s: Seq<TokenPositionView>, condition_id: Seq<char>) -> bool {
    &&& tokens_of(s, condition_id) >= 2
    &&& Double::ratio(1, 1).le(least_shares(s, condition_id))
}

/// Whether a list of opportunities is right: it names each mergeable market, once, with the
/// number of whole sets.
pub open spec fn all_merges(r: Seq<MergeOpportunity>, s: Seq<TokenPositionView>) -> bool {
    &&& forall|i: int|
        0 <= i < r.len() ==> mergeable(s, (#[trigger] r[i]).condition_id@) && r[i].sets
            == least_shares(s, r[i].condition_id@).to_nat()
    &&& forall|i: int, j: int|
        0 <= i < j < r.len() ==> (#[trigger] r[i]).condition_id@ != (#[trigger] r[j]).condition_id@
    &&& forall|c: Seq<char>|
        mergeable(s, c) ==> exists|i: int| 0 <= i < r.len() && (#[trigger] r[i]).condition_id@ == c
}

fn count_and_least(positions: &Vec<TokenPosition>, condition_id: &str) -> (r: (usize, Double))
    ensures
        r.0 == tokens_of(tracker::views(positions@), condition_id@),
        r.1 == least_shares(tracker::views(positions@), condition_id@),
{
    let ghost all: Seq<TokenPositionView> = tracker::views(positions@);
    let mut count: usize = 0;
    let mut least: Double = Double::from_bits(0x7FEF_FFFF_FFFF_FFFF);
    let mut i: usize = 0;
    assert(all.subrange(0, 0) =~= Seq::<TokenPositionView>::empty());
    while i < positions.len()
        invariant
            i <= positions@.len(),
            all == tracker::views(positions@),
            count <= i,
            count == tokens_of(all.subrange(0, i as int), condition_id@),
            least == least_shares(all.subrange(0, i as int), condition_id@),
        decreases positions@.len() - i,
    {
        proof {
            assert(all.subrange(0, i + 1).drop_last() =~= all.subrange(0, i as int));
            assert(all[i as int] == positions@[i as int]@);
        }
        if text::same(positions[i].condition_id.as_str(), condition_id) {
            count = count + 1;
            least = least.min(positions[i].shares);
        }
        i = i + 1;
    }
    assert(all.subrange(0, i as int) =~= all);
    (count, least)
}

/// A market of which a token is held stands in the list.
proof fn lemma_has_token(s: Seq<TokenPositionView>, condition_id: Seq<char>)
    requires
        tokens_of(s, condition_id) > 0,
    ensures
        exists|i: int| 0 <= i < s.len() && (#[trigger] s[i]).condition_id == condition_id,
    decreases s.len(),
{
    if s.last().condition_id == condition_id {
        assert(s[s.len() - 1].condition_id == condition_id);
    } else {
        lemma_has_token(s.drop_last(), condition_id);
        let i = choose|i: int|
            0 <= i < s.drop_last().len() && (#[trigger] s.drop_last()[i]).condition_id
                == condition_id;
        assert(s[i].condition_id == condition_id);
    }
}

fn is_named(found: &Vec<MergeOpportunity>, condition_id: &str) -> (r: bool)
    ensures
        r == exists|i: int|
            0 <= i < found@.len() && (#[trigger] found@[i]).condition_id@ == condition_id@,
{
    let mut i: usize = 0;
    while i < found.len()
        invariant
            i <= found@.len(),
            forall|j: int| 0 <= j < i ==> (#[trigger] found@[j]).condition_id@ != condition_id@,
        decreases found@.len() - i,
    {
        if text::same(found[i].condition_id.as_str(), condition_id) {
            assert(found@[i as int].condition_id@ == condition_id@);
            return true;
        }
        i = i + 1;
    }
    false
}

/// The sets that can be merged among a list of positions.
pub fn find_merges(positions: &Vec<TokenPosition>) -> (r: Vec<MergeOpportunity>)
    ensures
        all_merges(r@, tracker::views(positions@)),
{
    let ghost all: Seq<TokenPositionView> = tracker::views(positions@);
    let mut found: Vec<MergeOpportunity> = Vec::new();
    let one: Double = Double::ratio(1, 1);
    let mut i: usize = 0;
    while i < positions.len()
        invariant
            i <= positions@.len(),
            all == tracker::views(positions@),
            one == Double::ratio(1, 1),
            forall|k: int|
                0 <= k < found@.len() ==> mergeable(all, (#[trigger] found@[k]).condition_id@)
                    && found@[k].sets == least_shares(all, found@[k].condition_id@).to_nat(),
            forall|k: int, j: int|
                0 <= k < j < found@.len() ==> (#[trigger] found@[k]).condition_id@ != (
                #[trigger] found@[j]).condition_id@,
            forall|j: int|
                0 <= j < i && mergeable(all, (#[trigger] all[j]).condition_id) ==> exists|k: int|
                    0 <= k < found@.len() && (#[trigger] found@[k]).condition_id@
                        == all[j].condition_id,
        decreases positions@.len() - i,
    {
        let condition_id: &str = positions[i].condition_id.as_str();
        assert(all[i as int].condition_id == condition_id@);
        let ghost before: Seq<MergeOpportunity> = found@;
        if !is_named(&found, condition_id) {
            let (count, least): (usize, Double) = count_and_least(positions, condition_id);
            if count >= 2 && one.le(least) {
                found.push(
                    MergeOpportunity {
                        condition_id: condition_id.to_string(),
                        sets: least.to_nat(),
                    },
                );
                assert(found@[before.len() as int].condition_id@ == condition_id@);
            }
        }
        proof {
            assert forall|j: int| 0 <= j < i + 1 && mergeable(all, (#[trigger] all[j]).condition_id)
                implies exists|k: int|
                0 <= k < found@.len() && (#[trigger] found@[k]).condition_id@
                    == all[j].condition_id by {
                if exists|k: int|
                    0 <= k < before.len() && (#[trigger] before[k]).condition_id@
                        == all[j].condition_id {
                    let k = choose|k: int|
                        0 <= k < before.len() && (#[trigger] before[k]).condition_id@
                            == all[j].condition_id;
                    assert(found@[k] == before[k]);
                } else {
                    assert(j == i);
                }
            }
        }
        i = i + 1;
    }
    proof {
        assert forall|c: Seq<char>| mergeable(all, c) implies exists|k: int|
            0 <= k < found@.len() && (#[trigger] found@[k]).condition_id@ == c by {
            lemma_has_token(all, c);
            let j = choose|j: int| 0 <= j < all.len() && (#[trigger] all[j]).condition_id == c;
            assert(mergeable(all, all[j].condition_id));
        }
    }
    found
}

/// What is held of a token after sets of its market were merged.
pub open spec fn lowered(position: TokenPositionView, sets: u64) -> TokenPositionView {
    TokenPositionView { shares: position.shares.minus(Double::from_nat(sets)), ..position }
}

/// The positions after a merge: every token of the market is lowered by the number of sets, and
/// the others stay.
pub open spec fn after_merge(
    positions: Map<Seq<char>, TokenPositionView>,
    condition_id: Seq<char>,
    sets: u64,
) -> Map<Seq<char>, TokenPositionView> {
    positions.map_values(
        |p: TokenPositionView|
            if p.condition_id == condition_id {
                lowered(p, sets)
            } else {
                p
            },
    )
}

/// The positions that a merge lowers, as they are afterwards, in the order of the list.
pub open spec fn merged_positions(
    s: Seq<TokenPositionView>,
    condition_id: Seq<char>,
    sets: u64,
) -> Seq<TokenPositionView>
    decreases s.len(),
{
    if s.len() == 0 {
        s
    } else if s.last().condition_id == condition_id {
        merged_positions(s.drop_last(), condition_id, sets).push(lowered(s.last(), sets))
    } else {
        merged_positions(s.drop_last(), condition_id, sets)
    }
}

/// Carries out a merge that was confirmed: lowers every token of the market by the number of
/// sets. The result is what has to be recorded.
pub fn merge_confirmed(position_tracker: &mut PositionTracker, merge: &MergeOpportunity) -> (r: Vec<
    TokenPosition,
>)
    ensures
        final(position_tracker).contents() == after_merge(
            old(position_tracker).contents(),
            merge.condition_id@,
            merge.sets,
        ),
        exists|s: Seq<TokenPositionView>| #[trigger]
            tracker::walks(s, old(position_tracker).contents()) && tracker::views(r@)
                == merged_positions(s, merge.condition_id@, merge.sets),
{
    let listed: Vec<(String, TokenPosition)> = store::list_positions(&position_tracker.positions);
    let ghost e: Seq<(Seq<char>, TokenPositionView)> = store::position_views(listed@);
    let ghost was: Map<Seq<char>, TokenPositionView> = position_tracker.contents();
    let ghost c: Seq<char> = merge.condition_id@;
    let ghost s: Seq<TokenPositionView> = tracker::entries(e);
    assert(store::lists(e, was));
    assert(tracker::walks(s, was));
    let less: Double = Double::from_nat(merge.sets);
    let mut out: Vec<TokenPosition> = Vec::new();
    let mut i: usize = 0;
    assert(s.subrange(0, 0) =~= Seq::<TokenPositionView>::empty());
    assert(tracker::views(out@) =~= Seq::<TokenPositionView>::empty());
    while i < listed.len()
        invariant
            i <= listed@.len(),
            e == store::position_views(listed@),
            s == tracker::entries(e),
            c == merge.condition_id@,
            less == Double::from_nat(merge.sets),
            store::lists(e, was),
            position_tracker.contents().dom() == was.dom(),
            forall|j: int|
                0 <= j < e.len() ==> #[trigger] position_tracker.contents()[e[j].0] == (if j < i
                    && e[j].1.condition_id == c {
                    lowered(e[j].1, merge.sets)
                } else {
                    e[j].1
                }),
            tracker::views(out@) == merged_positions(s.subrange(0, i as int), c, merge.sets),
        decreases listed@.len() - i,
    {
        proof {
            assert(e[i as int] == (listed@[i as int].0@, listed@[i as int].1@));
            assert(s[i as int] == e[i as int].1);
            assert(s.subrange(0, i + 1).drop_last() =~= s.subrange(0, i as int));
            assert(s.subrange(0, i + 1).last() == s[i as int]);
        }
        if text::same(listed[i].1.condition_id.as_str(), merge.condition_id.as_str()) {
            let position: TokenPosition = TokenPosition {
                token_id: listed[i].1.token_id.clone(),
                condition_id: listed[i].1.condition_id.clone(),
                side: listed[i].1.side.clone(),
                shares: listed[i].1.shares.minus(less),
                avg_entry_price: listed[i].1.avg_entry_price,
            };
            let ghost before: Seq<TokenPosition> = out@;
            let ghost held: Map<Seq<char>, TokenPositionView> = position_tracker.contents();
            out.push(position.clone());
            store::insert_position(
                &mut position_tracker.positions,
                listed[i].0.clone(),
                position,
            );
            proof {
                assert(was.contains_key(e[i as int].0));
                assert(position_tracker.contents().dom() =~= was.dom());
                assert(tracker::views(out@) =~= tracker::views(before).push(
                    lowered(e[i as int].1, merge.sets),
                ));
                assert forall|j: int| 0 <= j < e.len() implies #[trigger]
                    position_tracker.contents()[e[j].0] == (if j < i + 1 && e[j].1.condition_id
                    == c {
                    lowered(e[j].1, merge.sets)
                } else {
                    e[j].1
                }) by {
                    if j < i {
                        assert(e[j].0 != e[i as int].0);
                        assert(held[e[j].0] == position_tracker.contents()[e[j].0]);
                    } else if i < j {
                        assert(e[i as int].0 != e[j].0);
                        assert(held[e[j].0] == position_tracker.contents()[e[j].0]);
                    }
                }
            }
        }
        i = i + 1;
    }
    proof {
        assert(s.subrange(0, i as int) =~= s);
        let now = position_tracker.contents();
        assert forall|k: Seq<char>| was.contains_key(k) implies now[k] == after_merge(
            was,
            c,
            merge.sets,
        )[k] by {
            let j = choose|j: int| 0 <= j < e.len() && (#[trigger] e[j]).0 == k;
            assert(was[k] == e[j].1);
            assert(now[e[j].0] == now[k]);
        }
        assert(now =~= after_merge(was, c, merge.sets));
    }
    out
}

/// The merges that can be made among all positions: each names a market and the number of its
/// sets. Once a merge is confirmed, `merge_confirmed` carries it out.
pub fn check_and_merge(position_tracker: &PositionTracker, _paper_mode: bool) -> (r: Vec<
    MergeOpportunity,
>)
    ensures
        exists|s: Seq<TokenPositionView>| #[trigger]
            tracker::walks(s, position_tracker.contents()) && all_merges(r@, s),
{
    let positions: Vec<TokenPosition> = position_tracker.all_positions();
    find_merges(&positions)
}

/// The least number of shares is no more than what is held of any token of the market.
proof fn lemma_least_is_least(s: Seq<TokenPositionView>, condition_id: Seq<char>, i: int)
    requires
        0 <= i < s.len(),
        s[i].condition_id == condition_id,
        !s[i].shares.is_nan(),
    ensures
        least_shares(s, condition_id).le(s[i].shares),
    decreases s.len(),
{
    if i < s.len() - 1 {
        assert(s.drop_last()[i] == s[i]);
        lemma_least_is_least(s.drop_last(), condition_id, i);
    } else {
        lemma_least_is_a_number(s.drop_last(), condition_id);
    }
}

proof fn lemma_least_is_a_number(s: Seq<TokenPositionView>, condition_id: Seq<char>)
    ensures
        !least_shares(s, condition_id).is_nan(),
    decreases s.len(),
{
    if s.len() > 0 {
        lemma_least_is_a_number(s.drop_last(), condition_id);
    }
}

/// No more sets can be merged than there are whole shares of any token of the market, and at
/// least one can.
pub proof fn sets_do_not_exceed_shares(s: Seq<TokenPositionView>, condition_id: Seq<char>, i: int)
    requires
        mergeable(s, condition_id),
        0 <= i < s.len(),
        s[i].condition_id == condition_id,
        !s[i].shares.is_nan(),
    ensures
        1 <= least_shares(s, condition_id).to_nat() <= s[i].shares.to_nat(),
{
    let least = least_shares(s, condition_id);
    lemma_least_is_least(s, condition_id, i);
    integers::whole_numbers_are_ordered(0, 1);
    order::whole_parts_keep_order(least, s[i].shares);
    order::whole_parts_keep_order(Double::ratio(1, 1), least);
    assert(Double::ratio(1, 1).to_nat() == 1) by {
        reveal(Double::spec_to_nat);
        integers::whole_numbers_are_exact(1);
        vstd::arithmetic::power2::lemma_pow2_pos(UNIT as nat);
        let one = vstd::arithmetic::power2::pow2(UNIT as nat) as int;
        vstd::arithmetic::div_mod::lemma_div_multiples_vanish(1, one);
    }
}

/// A merge leaves no token of the market below zero and raises none; it lowers every one of which
/// no more is held than whole numbers are exact.
pub proof fn merge_leaves_no_debt(s: Seq<TokenPositionView>, condition_id: Seq<char>, i: int)
    requires
        mergeable(s, condition_id),
        0 <= i < s.len(),
        s[i].condition_id == condition_id,
        !s[i].shares.is_nan(),
    ensures
        ({
            let left = lowered(s[i], least_shares(s, condition_id).to_nat()).shares;
            &&& Double::ratio(0, 1).le(left)
            &&& left.le(s[i].shares)
            &&& s[i].shares.to_nat() < 0x20_0000_0000_0000 ==> left.lt(s[i].shares)
        }),
{
    let sets = least_shares(s, condition_id).to_nat();
    let shares = s[i].shares;
    let taken = Double::from_nat(sets);
    sets_do_not_exceed_shares(s, condition_id, i);
    lemma_least_is_least(s, condition_id, i);
    integers::whole_numbers_are_ordered(0, 1);
    integers::whole_part_is_not_above(shares, sets);
    assert(!shares.minus(taken).is_nan()) by {
        reveal(Double::spec_plus);
        laws::lemma_signed(true, taken.mag());
        if shares.is_finite() {
            order::lemma_plus_key(shares, taken.negated());
        }
    }
    order::minus_does_not_grow(shares, taken);
    order::no_distance_to_itself(taken);
    laws::lemma_ratio(0, 1);
    order::plus_keeps_order(taken, shares, taken.negated());
    if shares.to_nat() < 0x20_0000_0000_0000 {
        integers::taking_away_lowers(shares, sets);
    }
}

/// A merge touches the tokens of its market only, makes no position and drops none.
pub proof fn merge_is_local(
    positions: Map<Seq<char>, TokenPositionView>,
    condition_id: Seq<char>,
    sets: u64,
    token: Seq<char>,
)
    ensures
        after_merge(positions, condition_id, sets).contains_key(token)
            == positions.contains_key(token),
        positions.contains_key(token) ==> after_merge(positions, condition_id, sets)[token] == (
        if positions[token].condition_id == condition_id {
            lowered(positions[token], sets)
        } else {
            positions[token]
        }),
{
}

} // verus!

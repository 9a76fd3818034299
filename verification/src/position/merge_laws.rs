//! What merging does, told by the positions that go in and the sets and positions that come out.

use vstd::prelude::*;

use super::merger;
use super::merger::MergeOpportunity;
use super::tracker::TokenPositionView;
use crate::double::{integers, laws, Double};

verus! {

/// Whether the position at a place of a list is of a market.
pub open spec fn is_of(s: Seq<TokenPositionView>, i: int, condition_id: Seq<char>) -> bool {
    0 <= i < s.len() && s[i].condition_id == condition_id
}

proof fn lemma_two_tokens(s: Seq<TokenPositionView>, condition_id: Seq<char>, i: int, j: int)
    requires
        i < j,
        is_of(s, i, condition_id),
        is_of(s, j, condition_id),
    ensures
        merger::tokens_of(s, condition_id) >= 2,
    decreases s.len(),
{
    let front = s.drop_last();
    if j < front.len() {
        assert(front[i] == s[i] && front[j] == s[j]);
        lemma_two_tokens(front, condition_id, i, j);
    } else {
        assert(front[i] == s[i]);
        lemma_one_token(front, condition_id, i);
    }
}

proof fn lemma_one_token(s: Seq<TokenPositionView>, condition_id: Seq<char>, i: int)
    requires
        is_of(s, i, condition_id),
    ensures
        merger::tokens_of(s, condition_id) >= 1,
    decreases s.len(),
{
    let front = s.drop_last();
    if i < front.len() {
        assert(front[i] == s[i]);
        lemma_one_token(front, condition_id, i);
    }
}

proof fn lemma_few_tokens(s: Seq<TokenPositionView>, condition_id: Seq<char>) -> (r: (int, int))
    requires
        merger::tokens_of(s, condition_id) >= 1,
    ensures
        is_of(s, r.0, condition_id),
        merger::tokens_of(s, condition_id) >= 2 ==> r.0 < r.1 && is_of(s, r.1, condition_id),
    decreases s.len(),
{
    let front = s.drop_last();
    let last = s.len() - 1;
    if s.last().condition_id == condition_id {
        if merger::tokens_of(front, condition_id) >= 1 {
            let (i, _) = lemma_few_tokens(front, condition_id);
            assert(front[i] == s[i]);
            (i, last)
        } else {
            (last, last)
        }
    } else {
        let (i, j) = lemma_few_tokens(front, condition_id);
        assert(front[i] == s[i]);
        if merger::tokens_of(front, condition_id) >= 2 {
            assert(front[j] == s[j]);
        }
        (i, j)
    }
}

/// The least number of shares is that of some position of the market, and of none less.
proof fn lemma_least(s: Seq<TokenPositionView>, condition_id: Seq<char>, i: int) -> (m: int)
    requires
        is_of(s, i, condition_id),
        forall|k: int|
            0 <= k < s.len() && (#[trigger] s[k]).condition_id == condition_id
                ==> s[k].shares.is_finite(),
    ensures
        is_of(s, m, condition_id),
        merger::least_shares(s, condition_id).same(s[m].shares),
        merger::least_shares(s, condition_id).le(s[i].shares),
        merger::least_shares(s, condition_id) == s[m].shares || s[m].shares.bits
            == 0x7FEF_FFFF_FFFF_FFFF,
    decreases s.len(),
{
    let front = s.drop_last();
    let last = s.len() - 1;
    assert(forall|k: int| 0 <= k < front.len() ==> #[trigger] front[k] == s[k]);
    let least = merger::least_shares(front, condition_id);
    if s.last().condition_id != condition_id {
        let m = lemma_least(front, condition_id, i);
        assert(front[m] == s[m]);
        m
    } else if exists|k: int| #[trigger] is_of(front, k, condition_id) {
        let k = choose|k: int| #[trigger] is_of(front, k, condition_id);
        let from = if i < front.len() {
            i
        } else {
            k
        };
        assert(front[from] == s[from]);
        let m = lemma_least(front, condition_id, from);
        assert(front[m] == s[m]);
        assert(s[last].shares.is_finite());
        assert(s[m].shares.is_finite());
        if s.last().shares.lt(least) {
            last
        } else {
            m
        }
    } else {
        assert(i == last) by {
            if i < last {
                assert(is_of(front, i, condition_id));
            }
        }
        lemma_none(front, condition_id);
        assert(s[last].shares.is_finite());
        last
    }
}

proof fn lemma_none(s: Seq<TokenPositionView>, condition_id: Seq<char>)
    requires
        forall|k: int| !#[trigger] is_of(s, k, condition_id),
    ensures
        merger::least_shares(s, condition_id).bits == 0x7FEF_FFFF_FFFF_FFFF,
    decreases s.len(),
{
    if s.len() > 0 {
        let front = s.drop_last();
        assert forall|k: int| !#[trigger] is_of(front, k, condition_id) by {
            if is_of(front, k, condition_id) {
                assert(front[k] == s[k]);
                assert(is_of(s, k, condition_id));
            }
        }
        assert(!is_of(s, s.len() - 1, condition_id));
        lemma_none(front, condition_id);
    }
}

/// Whether all shares of a market are numbers that are not infinite.
pub open spec fn has_numbers(s: Seq<TokenPositionView>, condition_id: Seq<char>) -> bool {
    forall|k: int|
        0 <= k < s.len() && (#[trigger] s[k]).condition_id == condition_id
            ==> s[k].shares.is_finite()
}

/// A market with two positions, and a whole share at least in each of its positions, is named
/// with the sets that can be merged.
pub proof fn complete_sets_are_found(
    r: Seq<MergeOpportunity>,
    s: Seq<TokenPositionView>,
    condition_id: Seq<char>,
    i: int,
    j: int,
)
    requires
        merger::all_merges(r, s),
        i < j,
        is_of(s, i, condition_id),
        is_of(s, j, condition_id),
        has_numbers(s, condition_id),
        forall|k: int|
            0 <= k < s.len() && (#[trigger] s[k]).condition_id == condition_id ==> Double::ratio(
                1,
                1,
            ).le(s[k].shares),
    ensures
        exists|n: int| 0 <= n < r.len() && (#[trigger] r[n]).condition_id@ == condition_id,
{
    lemma_two_tokens(s, condition_id, i, j);
    let m = lemma_least(s, condition_id, i);
    assert(Double::ratio(1, 1).le(s[m].shares));
    assert(merger::mergeable(s, condition_id));
}

/// A market that is named has two positions; the sets are the whole shares of one of its
/// positions, and no position has less.
pub proof fn found_sets_are_complete(
    r: Seq<MergeOpportunity>,
    s: Seq<TokenPositionView>,
    n: int,
    k: int,
) -> (p: (int, int, int))
    requires
        merger::all_merges(r, s),
        0 <= n < r.len(),
        has_numbers(s, r[n].condition_id@),
        is_of(s, k, r[n].condition_id@),
    ensures
        p.0 < p.1,
        is_of(s, p.0, r[n].condition_id@),
        is_of(s, p.1, r[n].condition_id@),
        is_of(s, p.2, r[n].condition_id@),
        r[n].sets == s[p.2].shares.to_nat(),
        s[p.2].shares.le(s[k].shares),
        Double::ratio(1, 1).le(s[k].shares),
        forall|m: int|
            0 <= m < r.len() && m != n ==> (#[trigger] r[m]).condition_id@ != r[n].condition_id@,
{
    let c = r[n].condition_id@;
    assert(merger::mergeable(s, c));
    let (i, j) = lemma_few_tokens(s, c);
    let m = lemma_least(s, c, k);
    let least = merger::least_shares(s, c);
    assert(r[n].sets == least.to_nat());
    assert(s[m].shares.is_finite());
    integers::whole_numbers_are_ordered(0, 1);
    assert(least.key() == s[m].shares.key());
    assert(least == s[m].shares) by {
        laws::lemma_ratio(0, 1);
        laws::lemma_ratio(1, 1);
        assert(least.key() > 0);
    }
    assert forall|x: int| 0 <= x < r.len() && x != n implies (#[trigger] r[x]).condition_id@
        != r[n].condition_id@ by {
        if x < n {
            assert(r[x].condition_id@ != r[n].condition_id@);
        } else {
            assert(r[n].condition_id@ != r[x].condition_id@);
        }
    }
    (i, j, m)
}

/// A merge takes its sets from every token of the market, and leaves every other token as it is.
pub proof fn merges_lower_the_market(
    positions: Map<Seq<char>, TokenPositionView>,
    condition_id: Seq<char>,
    sets: u64,
    k: Seq<char>,
)
    ensures
        ({
            let after = merger::after_merge(positions, condition_id, sets);
            &&& after.contains_key(k) == positions.contains_key(k)
            &&& positions.contains_key(k) && positions[k].condition_id != condition_id ==> after[k]
                == positions[k]
            &&& positions.contains_key(k) && positions[k].condition_id == condition_id ==> after[k]
                == (TokenPositionView {
                shares: positions[k].shares.minus(Double::from_nat(sets)),
                ..positions[k]
            })
        }),
{
}

/// The rows that a merge gives to record are the lowered positions of the market, and no others.
pub proof fn merged_rows_are_recorded(
    s: Seq<TokenPositionView>,
    p: TokenPositionView,
    condition_id: Seq<char>,
    sets: u64,
)
    ensures
        ({
            let before = merger::merged_positions(s, condition_id, sets);
            let after = merger::merged_positions(s.push(p), condition_id, sets);
            &&& p.condition_id != condition_id ==> after == before
            &&& p.condition_id == condition_id ==> after == before.push(
                TokenPositionView { shares: p.shares.minus(Double::from_nat(sets)), ..p },
            )
        }),
        merger::merged_positions(Seq::empty(), condition_id, sets).len() == 0,
{
    assert(s.push(p).drop_last() =~= s);
}

} // verus!

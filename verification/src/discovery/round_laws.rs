//! What rounds of discovery do, told by the candidates, the markets that are known and the
//! answers that go in, and the steps that come out.

use vstd::prelude::*;

use super::gamma;
use super::gamma::{CandidateView, GammaMarket, JsonField, JsonItemView};
use super::rounds::{LoopActionView, LoopEvent, RoundView};
use crate::config::DiscoveryConfig;
use crate::double::{laws, order, Double};
use crate::events::bus::BotEventView;
use crate::strategy::engine::MarketContextView;
use crate::text;
use crate::text_laws;

verus! {

/// Whether one of the known markets is of a candidate's asset and timeframe and starts when the
/// candidate does, to the second.
pub open spec fn is_served(known: Map<Seq<char>, MarketContextView>, c: CandidateView) -> bool {
    exists|k: Seq<char>|
        {
            &&& #[trigger] known.contains_key(k)
            &&& known[k].asset == c.asset
            &&& known[k].timeframe == c.timeframe
            &&& known[k].start_time.minus(c.start_epoch).abs().lt(Double::ratio(1, 1))
        }
}

/// Whether a candidate is still to be asked for: its window is not over, and it is not served.
pub open spec fn is_wanted(round: RoundView, i: int, now: Double) -> bool {
    !round.candidates[i].end_epoch.le(now) && !is_served(round.known, round.candidates[i])
}

proof fn lemma_skipped(round: RoundView, at: int, now: Double, j: int)
    requires
        0 <= at <= j < round.candidates.len(),
        is_wanted(round, j, now),
    ensures
        super::rounds::next_candidate(round.candidates, at, round.known, now) matches Some(i)
            && at <= i <= j,
    decreases round.candidates.len() - at,
{
    let c = round.candidates[at];
    assert(super::rounds::has_window(round.known, c) <==> is_served(round.known, c)) by {
        if is_served(round.known, c) {
            let k = choose|k: Seq<char>|
                {
                    &&& #[trigger] round.known.contains_key(k)
                    &&& round.known[k].asset == c.asset
                    &&& round.known[k].timeframe == c.timeframe
                    &&& round.known[k].start_time.minus(c.start_epoch).abs().lt(
                        Double::ratio(1, 1),
                    )
                };
            assert(super::rounds::in_window(round.known[k], c));
        }
    }
    if c.end_epoch.le(now) || super::rounds::has_window(round.known, c) {
        lemma_skipped(round, at + 1, now, j);
    }
}

proof fn lemma_found(round: RoundView, at: int, now: Double)
    requires
        0 <= at,
    ensures
        super::rounds::next_candidate(round.candidates, at, round.known, now) matches Some(i)
            ==> at <= i < round.candidates.len() && is_wanted(round, i, now),
    decreases round.candidates.len() - at,
{
    if at < round.candidates.len() {
        let c = round.candidates[at];
        if c.end_epoch.le(now) || super::rounds::has_window(round.known, c) {
            lemma_found(round, at + 1, now);
        } else if is_served(round.known, c) {
            let k = choose|k: Seq<char>|
                {
                    &&& #[trigger] round.known.contains_key(k)
                    &&& round.known[k].asset == c.asset
                    &&& round.known[k].timeframe == c.timeframe
                    &&& round.known[k].start_time.minus(c.start_epoch).abs().lt(
                        Double::ratio(1, 1),
                    )
                };
            assert(super::rounds::in_window(round.known[k], c));
            assert(false);
        }
    }
}

/// While there is room, a candidate is passed over only where its window is over or a known
/// market is of its asset, its timeframe and its start; the first other one is asked for by its
/// name.
pub proof fn no_candidate_is_passed_over(
    round: RoundView,
    config: DiscoveryConfig,
    now: Double,
    j: int,
)
    requires
        0 <= round.at <= j < round.candidates.len(),
        round.known.dom().len() < config.max_tracked_markets,
        is_wanted(round, j, now),
    ensures
        ({
            let (after, actions) = round.scan(config, now);
            &&& after.stage is Fetching
            &&& round.at <= after.at <= j
            &&& is_wanted(round, after.at, now)
            &&& actions.len() == 1
            &&& actions[0] == (LoopActionView::Fetch { slug: round.candidates[after.at].slug })
            &&& after.known == round.known && after.candidates == round.candidates
        }),
{
    lemma_skipped(round, round.at, now, j);
    lemma_found(round, round.at, now);
}

/// In particular, while there is room, an asset of which no market is known is asked for.
pub proof fn new_assets_are_asked_for(
    round: RoundView,
    config: DiscoveryConfig,
    now: Double,
    j: int,
)
    requires
        0 <= round.at <= j < round.candidates.len(),
        round.known.dom().len() < config.max_tracked_markets,
        !round.candidates[j].end_epoch.le(now),
        forall|k: Seq<char>| #[trigger]
            round.known.contains_key(k) ==> round.known[k].asset != round.candidates[j].asset
                || round.known[k].timeframe != round.candidates[j].timeframe,
    ensures
        round.scan(config, now).0.stage is Fetching,
        round.scan(config, now).0.at <= j,
{
    no_candidate_is_passed_over(round, config, now, j);
}

/// Nothing is asked for where no candidate is wanted, or no market can be taken on: the round
/// then ends with the number of the markets and a rest, and markets that are over are forgotten.
pub proof fn finished_rounds_rest(round: RoundView, config: DiscoveryConfig, now: Double)
    requires
        0 <= round.at,
        round.known.dom().len() >= config.max_tracked_markets || forall|j: int|
            round.at <= j < round.candidates.len() ==> !#[trigger] is_wanted(round, j, now),
    ensures
        ({
            let (after, actions) = round.scan(config, now);
            &&& after.stage is Resting
            &&& actions.len() == 2
            &&& actions[0] == LoopActionView::SetActiveMarkets(round.known.dom().len() as int)
            &&& !round.rate_limited ==> actions[1] == (LoopActionView::Rest {
                millis: config.poll_interval_ms,
            })
            &&& forall|k: Seq<char>|
                after.known.contains_key(k) <==> round.known.contains_key(k) && Double::ratio(
                    0,
                    1,
                ).lt(#[trigger] round.known[k].end_time.minus(now))
            &&& forall|k: Seq<char>|
                after.known.contains_key(k) ==> #[trigger] after.known[k] == round.known[k]
        }),
{
    lemma_found(round, round.at, now);
    laws::lemma_ratio(0, 1);
    assert forall|k: Seq<char>| round.known.contains_key(k) implies (!super::rounds::is_over(
        round.known[k],
        now,
    ) <==> Double::ratio(0, 1).lt(#[trigger] round.known[k].end_time.minus(now))) by {}
}

/// After a pause the candidates after the present one are gone through.
pub proof fn pauses_go_on(round: RoundView, config: DiscoveryConfig, now: Double)
    requires
        round.stage is Pausing,
    ensures
        round.next(LoopEvent::Paused, config, now) == (RoundView {
            at: round.at + 1,
            ..round
        }).scan(config, now),
{
}

/// A failed request that was not refused, and an answer without an event, lead to the pause
/// before the next candidate and change nothing.
pub proof fn misses_are_harmless(
    round: RoundView,
    event: LoopEvent,
    config: DiscoveryConfig,
    now: Double,
)
    requires
        round.stage is Fetching,
        event matches LoopEvent::Failed(error) ==> !text::occurs(error@, "429"@),
        event matches LoopEvent::Answered(events) ==> events@.len() == 0,
        event is Failed || event is Answered,
    ensures
        ({
            let (after, actions) = round.next(event, config, now);
            &&& after.stage is Pausing
            &&& after.at == round.at && after.known == round.known && after.candidates
                == round.candidates && after.backoff_ms == round.backoff_ms
            &&& actions.len() == 1
            &&& actions[0] == (LoopActionView::Pause { millis: 200 })
        }),
{
}

/// A market that was stored is taken on: it is told, its books are subscribed to, its cycles
/// start, and it is known under its own name with the number it was stored under.
pub proof fn stored_markets_are_taken_on(
    round: RoundView,
    id: Option<i64>,
    config: DiscoveryConfig,
    now: Double,
    other: Seq<char>,
)
    requires
        round.stage is Storing,
        round.pending is Some,
    ensures
        ({
            let (after, actions) = round.next(LoopEvent::Stored(id), config, now);
            let market = round.pending->0;
            let name = market.condition_id;
            let number = if id is Some {
                id
            } else {
                market.db_market_id
            };
            &&& after.known.contains_key(name)
            &&& after.known[name] == (MarketContextView { db_market_id: number, ..market })
            &&& other != name ==> after.known.contains_key(other) == round.known.contains_key(
                other,
            ) && after.known[other] == round.known[other]
            &&& after.stage is Storing || after.pending is None
            &&& actions.len() >= 4
            &&& actions[0] == LoopActionView::Publish(
                BotEventView::MarketDiscovered {
                    condition_id: name,
                    asset: market.asset,
                    timeframe: market.timeframe,
                },
            )
            &&& actions[1] == (LoopActionView::Subscribe {
                yes_token_id: market.yes_token_id,
                no_token_id: market.no_token_id,
            })
            &&& actions[2] == LoopActionView::Run(after.known[name])
        }),
{
}

/// Whether a market of the service can be taken on: it is named and new, neither inactive nor
/// closed, there is room for it, its tokens are known, and it has not ended.
pub open spec fn can_be_taken(
    gm: GammaMarket,
    known: Map<Seq<char>, MarketContextView>,
    max: usize,
    end: Double,
    now: Double,
) -> bool {
    &&& gm.condition_id is Some
    &&& !known.contains_key(gm.condition_id->0@)
    &&& gm.active != Some(false)
    &&& gm.closed != Some(true)
    &&& known.dom().len() < max
    &&& gamma::market_tokens(gm) is Some
    &&& !end.le(now)
}

/// What a market of the service comes to: it is taken on exactly where it can be, with what it
/// states of itself, and else what its name states or what is usual.
pub proof fn markets_are_read(
    gm: GammaMarket,
    known: Map<Seq<char>, MarketContextView>,
    max: usize,
    c: CandidateView,
    now: Double,
)
    ensures
        ({
            let found = super::rounds::found_market(gm, known, max, c, now);
            let start = match gm.start_date {
                Some(s) if gamma::utc_seconds(s@) is Some => Double::from_int(
                    gamma::utc_seconds(s@)->0,
                ),
                _ => c.start_epoch,
            };
            let end = match gm.end_date {
                Some(s) if gamma::utc_seconds(s@) is Some => Double::from_int(
                    gamma::utc_seconds(s@)->0,
                ),
                _ => c.end_epoch,
            };
            &&& found is Some <==> can_be_taken(gm, known, max, end, now)
            &&& found matches Some(m) ==> {
                &&& m.condition_id == gm.condition_id->0@
                &&& m.asset == c.asset && m.timeframe == c.timeframe
                &&& m.start_time == start && m.end_time == end
                &&& (m.yes_token_id, m.no_token_id) == gamma::market_tokens(gm)->0
                &&& m.state is Discovered && m.db_market_id is None
                &&& m.neg_risk == (gm.neg_risk == Some(true))
                &&& gm.order_price_min_tick_size matches Some(t) ==> m.tick_size == t
                &&& gm.order_price_min_tick_size is None && gm.minimum_tick_size is Some
                    ==> m.tick_size == gm.minimum_tick_size->0
                &&& gm.order_price_min_tick_size is None && gm.minimum_tick_size is None
                    ==> m.tick_size == Double::ratio(1, 100)
                &&& gm.order_min_size matches Some(n) ==> m.min_order_size == Double::from_int(n)
                &&& gm.order_min_size is None && gm.minimum_order_size is Some ==> m.min_order_size
                    == gm.minimum_order_size->0
                &&& gm.order_min_size is None && gm.minimum_order_size is None ==> m.min_order_size
                    == Double::ratio(5, 1)
            }
        }),
{
}

/// A market that was taken on serves the candidate that it was found under, unless it states
/// another start; so the candidate is not asked for again.
pub proof fn taken_markets_serve(
    gm: GammaMarket,
    known: Map<Seq<char>, MarketContextView>,
    max: usize,
    c: CandidateView,
    now: Double,
)
    requires
        super::rounds::found_market(gm, known, max, c, now) is Some,
        gm.start_date is None,
        c.start_epoch.is_finite(),
    ensures
        ({
            let m = super::rounds::found_market(gm, known, max, c, now)->0;
            is_served(known.insert(m.condition_id, m), c)
        }),
{
    let m = super::rounds::found_market(gm, known, max, c, now)->0;
    let after = known.insert(m.condition_id, m);
    order::equals_are_not_apart(c.start_epoch, c.start_epoch);
    crate::double::integers::whole_numbers_are_ordered(0, 1);
    assert(after.contains_key(m.condition_id));
}

/// Whether exactly one of a list of words is one of two.
pub open spec fn is_only(words: Seq<Seq<char>>, a: Seq<char>, b: Seq<char>, i: int) -> bool {
    &&& 0 <= i < words.len()
    &&& words[i] == a || words[i] == b
    &&& forall|j: int| 0 <= j < words.len() && #[trigger] words[j] != words[i] ==> words[j] != a
        && words[j] != b
    &&& forall|j: int| 0 <= j < words.len() && j != i ==> #[trigger] words[j] != words[i]
}

proof fn lemma_last_outcome(outcomes: Seq<Seq<char>>, up: bool, i: int)
    requires
        if up {
            is_only(outcomes, "up"@, "yes"@, i)
        } else {
            is_only(outcomes, "down"@, "no"@, i)
        },
    ensures
        gamma::last_outcome(outcomes, up) == Some(i),
    decreases outcomes.len(),
{
    let last = outcomes.len() - 1;
    if i < last {
        let front = outcomes.drop_last();
        assert(outcomes[last] != outcomes[i]);
        assert(forall|j: int| 0 <= j < front.len() ==> front[j] == outcomes[j]);
        lemma_last_outcome(front, up, i);
    }
}

/// Where the service lists outcomes and token names, the token of YES is the one that stands
/// where "up" or "yes" stands among the outcomes, and the token of NO where "down" or "no" does.
pub proof fn tokens_follow_the_outcomes(gm: GammaMarket, up: int, down: int)
    requires
        gamma::has_lists(gm),
        is_only(gamma::lowered(gamma::field_texts(gm.outcomes->0)), "up"@, "yes"@, up),
        is_only(gamma::lowered(gamma::field_texts(gm.outcomes->0)), "down"@, "no"@, down),
    ensures
        gamma::market_tokens(gm) == Some(
            (
                gamma::field_texts(gm.clob_token_ids->0)[up],
                gamma::field_texts(gm.clob_token_ids->0)[down],
            ),
        ),
        gamma::lowered(gamma::field_texts(gm.outcomes->0))[up] == text::lowercase(
            gamma::field_texts(gm.outcomes->0)[up],
        ),
{
    let outcomes = gamma::lowered(gamma::field_texts(gm.outcomes->0));
    lemma_last_outcome(outcomes, true, up);
    lemma_last_outcome(outcomes, false, down);
}

/// The lists of a market fit together where there is a token at the place of either outcome.
pub proof fn lists_fit_where_both_tokens_are(gm: GammaMarket, up: int, down: int)
    requires
        gamma::has_lists(gm),
        is_only(gamma::lowered(gamma::field_texts(gm.outcomes->0)), "up"@, "yes"@, up),
        is_only(gamma::lowered(gamma::field_texts(gm.outcomes->0)), "down"@, "no"@, down),
    ensures
        gamma::is_consistent(gm) <==> up < gamma::field_texts(gm.clob_token_ids->0).len() && down
            < gamma::field_texts(gm.clob_token_ids->0).len(),
{
    let outcomes = gamma::lowered(gamma::field_texts(gm.outcomes->0));
    lemma_last_outcome(outcomes, true, up);
    lemma_last_outcome(outcomes, false, down);
}

proof fn lemma_no_outcome(outcomes: Seq<Seq<char>>, up: bool)
    requires
        forall|i: int|
            0 <= i < outcomes.len() ==> if up {
                #[trigger] outcomes[i] != "up"@ && outcomes[i] != "yes"@
            } else {
                outcomes[i] != "down"@ && outcomes[i] != "no"@
            },
    ensures
        gamma::last_outcome(outcomes, up) is None,
    decreases outcomes.len(),
{
    if outcomes.len() > 0 {
        let front = outcomes.drop_last();
        assert forall|i: int| 0 <= i < front.len() implies if up {
            #[trigger] front[i] != "up"@ && front[i] != "yes"@
        } else {
            front[i] != "down"@ && front[i] != "no"@
        } by {
            assert(front[i] == outcomes[i]);
        }
        assert(outcomes[outcomes.len() - 1] == outcomes.last());
        lemma_no_outcome(front, up);
    }
}

/// Where an outcome is in neither way of writing, the first two tokens are taken, and the lists
/// fit where there are two.
pub proof fn first_tokens_are_taken_otherwise(gm: GammaMarket)
    requires
        gamma::has_lists(gm),
        ({
            let outcomes = gamma::lowered(gamma::field_texts(gm.outcomes->0));
            ||| forall|i: int|
                0 <= i < outcomes.len() ==> #[trigger] outcomes[i] != "up"@ && outcomes[i]
                    != "yes"@
            ||| forall|i: int|
                0 <= i < outcomes.len() ==> #[trigger] outcomes[i] != "down"@ && outcomes[i]
                    != "no"@
        }),
    ensures
        gamma::market_tokens(gm) == Some(
            (
                gamma::field_texts(gm.clob_token_ids->0)[0],
                gamma::field_texts(gm.clob_token_ids->0)[1],
            ),
        ),
        gamma::is_consistent(gm) <==> gamma::field_texts(gm.clob_token_ids->0).len() >= 2,
{
    let outcomes = gamma::lowered(gamma::field_texts(gm.outcomes->0));
    if forall|i: int|
        0 <= i < outcomes.len() ==> #[trigger] outcomes[i] != "up"@ && outcomes[i] != "yes"@ {
        lemma_no_outcome(outcomes, true);
    } else {
        lemma_no_outcome(outcomes, false);
    }
}

/// Without lists, the tokens are told by their own outcomes: the first upward one is YES, the
/// first downward one NO.
pub proof fn tokens_follow_their_own_outcomes(gm: GammaMarket, up: int, down: int)
    requires
        !gamma::has_lists(gm),
        gm.tokens is Some,
        gm.tokens->0@.len() >= 2,
        0 <= up < gm.tokens->0@.len(),
        0 <= down < gm.tokens->0@.len(),
        gm.tokens->0@[up].outcome is Some,
        gm.tokens->0@[down].outcome is Some,
        text::lowercase(gm.tokens->0@[up].outcome->0@) == "up"@ || text::lowercase(
            gm.tokens->0@[up].outcome->0@,
        ) == "yes"@,
        text::lowercase(gm.tokens->0@[down].outcome->0@) == "down"@ || text::lowercase(
            gm.tokens->0@[down].outcome->0@,
        ) == "no"@,
        forall|j: int|
            0 <= j < up ==> gamma::token_outcome(#[trigger] gm.tokens->0@[j]) != "up"@
                && gamma::token_outcome(gm.tokens->0@[j]) != "yes"@,
        forall|j: int|
            0 <= j < down ==> gamma::token_outcome(#[trigger] gm.tokens->0@[j]) != "down"@
                && gamma::token_outcome(gm.tokens->0@[j]) != "no"@,
        gm.tokens->0@[up].token_id is Some,
        gm.tokens->0@[down].token_id is Some,
    ensures
        gamma::market_tokens(gm) == Some(
            (gm.tokens->0@[up].token_id->0@, gm.tokens->0@[down].token_id->0@),
        ),
{
    let tokens = gm.tokens->0@;
    let outcomes = gamma::token_outcomes(tokens);
    assert(forall|j: int|
        0 <= j < tokens.len() ==> #[trigger] outcomes[j] == gamma::token_outcome(tokens[j]));
    assert(gamma::is_first_token(outcomes, true, up)) by {
        assert forall|j: int| 0 <= j < up implies !(if true {
            gamma::is_up(#[trigger] outcomes[j])
        } else {
            gamma::is_down(outcomes[j])
        }) by {
            assert(outcomes[j] == gamma::token_outcome(tokens[j]));
        }
    }
    assert(gamma::is_first_token(outcomes, false, down)) by {
        assert forall|j: int| 0 <= j < down implies !(if false {
            gamma::is_up(#[trigger] outcomes[j])
        } else {
            gamma::is_down(outcomes[j])
        }) by {
            assert(outcomes[j] == gamma::token_outcome(tokens[j]));
        }
    }
    let u = choose|i: int| gamma::is_first_token(outcomes, true, i);
    let d = choose|i: int| gamma::is_first_token(outcomes, false, i);
    if u < up {
        assert(gamma::is_up(outcomes[u]));
    }
    if up < u {
        assert(!gamma::is_up(outcomes[up]));
    }
    if d < down {
        assert(gamma::is_down(outcomes[d]));
    }
    if down < d {
        assert(!(if false {
            gamma::is_up(outcomes[down])
        } else {
            gamma::is_down(outcomes[down])
        }));
    }
}

/// An array gives its texts as they are, one for each element, in their order.
pub proof fn arrays_give_their_texts(field: JsonField, i: int)
    requires
        field is Items,
        0 <= i < field->Items_0@.len(),
    ensures
        gamma::field_texts(field).len() == field->Items_0@.len(),
        field->Items_0@[i].is_text ==> gamma::field_texts(field)[i] == field->Items_0@[i].text@,
{
}

/// A round starts with the candidates of the present moment, from the first, and without the
/// memory of a refusal.
pub proof fn rounds_start_afresh(round: RoundView, config: DiscoveryConfig, now: Double)
    requires
        round.stage is Resting,
    ensures
        round.next(LoopEvent::Rested, config, now) == (RoundView {
            candidates: gamma::all_candidates(
                text::texts(config.allowed_assets@),
                text::texts(config.allowed_timeframes@),
                now.to_int() as int,
            ),
            at: 0,
            rate_limited: false,
            ..round
        }).scan(config, now),
{
}

proof fn lemma_next_found(
    markets: Seq<GammaMarket>,
    from: int,
    known: Map<Seq<char>, MarketContextView>,
    max: usize,
    c: CandidateView,
    now: Double,
    j: int,
)
    requires
        0 <= from <= j < markets.len(),
        super::rounds::found_market(markets[j], known, max, c, now) is Some,
        forall|k: int|
            from <= k <= j ==> !super::rounds::is_malformed(#[trigger] markets[k], known, max),
    ensures
        super::rounds::next_found(markets, from, known, max, c, now) matches Some(i) && from <= i
            <= j && super::rounds::found_market(markets[i], known, max, c, now) is Some && (forall|
            k: int,
        |
            from <= k < i ==> super::rounds::found_market(#[trigger] markets[k], known, max, c, now)
                is None),
    decreases markets.len() - from,
{
    assert(!super::rounds::is_malformed(markets[from], known, max));
    if super::rounds::found_market(markets[from], known, max, c, now) is None {
        lemma_next_found(markets, from + 1, known, max, c, now, j);
    }
}

/// Of the first event of an answer, the first market that can be taken on is stored, and an
/// answer ends the memory of refusals.
pub proof fn answers_are_searched(
    round: RoundView,
    events: Vec<gamma::GammaEvent>,
    config: DiscoveryConfig,
    now: Double,
    j: int,
)
    requires
        round.stage is Fetching,
        events@.len() > 0,
        events@[0].markets is Some,
        0 <= j < events@[0].markets->0@.len(),
        super::rounds::found_market(
            events@[0].markets->0@[j],
            round.known,
            config.max_tracked_markets,
            round.candidates[round.at],
            now,
        ) is Some,
        forall|k: int|
            0 <= k <= j ==> gamma::is_consistent(#[trigger] events@[0].markets->0@[k]),
    ensures
        ({
            let (after, actions) = round.next(LoopEvent::Answered(events), config, now);
            let markets = events@[0].markets->0@;
            let found = |k: int|
                super::rounds::found_market(
                    markets[k],
                    round.known,
                    config.max_tracked_markets,
                    round.candidates[round.at],
                    now,
                );
            &&& after.stage is Storing
            &&& after.backoff_ms == 0
            &&& 1 <= after.next_market <= j + 1
            &&& found(after.next_market - 1) is Some
            &&& forall|k: int| 0 <= k < after.next_market - 1 ==> #[trigger] found(k) is None
            &&& after.pending == found(after.next_market - 1)
            &&& actions.len() == 1
            &&& actions[0] == LoopActionView::Store(found(after.next_market - 1)->0)
            &&& after.known == round.known && after.at == round.at
        }),
{
    lemma_next_found(
        events@[0].markets->0@,
        0,
        round.known,
        config.max_tracked_markets,
        round.candidates[round.at],
        now,
        j,
    );
}

/// An event that holds no market that can be taken on is left for the next candidate.
pub proof fn empty_answers_are_passed(
    round: RoundView,
    events: Vec<gamma::GammaEvent>,
    config: DiscoveryConfig,
    now: Double,
)
    requires
        round.stage is Fetching,
        events@.len() > 0,
        events@[0].markets matches Some(markets) ==> forall|k: int|
            0 <= k < markets@.len() ==> gamma::is_consistent(#[trigger] markets@[k])
                && super::rounds::found_market(
                markets@[k],
                round.known,
                config.max_tracked_markets,
                round.candidates[round.at],
                now,
            ) is None,
    ensures
        ({
            let (after, actions) = round.next(LoopEvent::Answered(events), config, now);
            &&& after.stage is Pausing
            &&& after.known == round.known && after.at == round.at
            &&& actions.len() == 1
            &&& actions[0] == (LoopActionView::Pause { millis: 200 })
        }),
{
    let markets = match events@[0].markets {
        Some(m) => m@,
        None => Seq::empty(),
    };
    lemma_none_found(
        markets,
        0,
        round.known,
        config.max_tracked_markets,
        round.candidates[round.at],
        now,
    );
}

proof fn lemma_none_found(
    markets: Seq<GammaMarket>,
    from: int,
    known: Map<Seq<char>, MarketContextView>,
    max: usize,
    c: CandidateView,
    now: Double,
)
    requires
        0 <= from,
        forall|k: int|
            0 <= k < markets.len() ==> gamma::is_consistent(#[trigger] markets[k])
                && super::rounds::found_market(markets[k], known, max, c, now) is None,
    ensures
        super::rounds::next_found(markets, from, known, max, c, now) is None,
    decreases markets.len() - from,
{
    if from < markets.len() {
        assert(gamma::is_consistent(markets[from]));
        lemma_none_found(markets, from + 1, known, max, c, now);
    }
}

/// The seconds of a window.
pub open spec fn window_length(timeframe: Seq<char>) -> Option<int> {
    if timeframe == "5min"@ {
        Some(300)
    } else if timeframe == "15min"@ {
        Some(900)
    } else if timeframe == "1hr"@ {
        Some(3600)
    } else {
        None
    }
}

/// The candidates hold, for every allowed asset that is known and every allowed timeframe, the
/// window before the present one, the present one and the next; of five minutes the one after
/// that too. Windows of minutes are named by their start.
pub proof fn every_window_is_offered(
    assets: Seq<Seq<char>>,
    timeframes: Seq<Seq<char>>,
    now: int,
    asset: Seq<char>,
    timeframe: Seq<char>,
    k: int,
) -> (i: int)
    requires
        assets.contains(asset),
        timeframes.contains(timeframe),
        asset == "btc"@ || asset == "eth"@,
        window_length(timeframe) is Some,
        -1 <= k <= 1 || (k == 2 && timeframe == "5min"@),
    ensures
        0 <= i < gamma::all_candidates(assets, timeframes, now).len(),
        ({
            let c = gamma::all_candidates(assets, timeframes, now)[i];
            let length = window_length(timeframe)->0;
            let start = (now / length + k) * length;
            &&& c.asset == asset && c.timeframe == timeframe
            &&& c.start_epoch == Double::from_int(start as i64)
            &&& c.end_epoch == Double::from_int((start + length) as i64)
            &&& timeframe == "5min"@ ==> c.slug == asset + "-updown-5m-"@
                + text::spec_signed_decimal(start)
            &&& timeframe == "15min"@ ==> c.slug == asset + "-updown-15m-"@
                + text::spec_signed_decimal(start)
        }),
{
    reveal_strlit("5min");
    reveal_strlit("15min");
    reveal_strlit("1hr");
    assert("5min"@.len() != "15min"@.len());
    assert("5min"@.len() != "1hr"@.len());
    assert("15min"@.len() != "1hr"@.len());
    let length = window_length(timeframe)->0;
    assert(gamma::aligned(now, length) + ((k + 1) - 1) * length == (now / length + k) * length)
        by (nonlinear_arith)
        requires
            gamma::aligned(now, length) == (now / length) * length,
    ;
    let own = gamma::asset_candidates(asset, timeframe, now);
    assert(own[k + 1] == gamma::window(asset, timeframe, gamma::start_of(timeframe, now, k + 1)));
    let j = lemma_in_timeframes(asset, timeframes, now, timeframe, k + 1);
    lemma_in_assets(assets, timeframes, now, asset, j)
}

proof fn lemma_in_timeframes(
    asset: Seq<char>,
    timeframes: Seq<Seq<char>>,
    now: int,
    timeframe: Seq<char>,
    k: int,
) -> (i: int)
    requires
        timeframes.contains(timeframe),
        0 <= k < gamma::asset_candidates(asset, timeframe, now).len(),
    ensures
        0 <= i < gamma::timeframe_candidates(asset, timeframes, now).len(),
        gamma::timeframe_candidates(asset, timeframes, now)[i] == gamma::asset_candidates(
            asset,
            timeframe,
            now,
        )[k],
    decreases timeframes.len(),
{
    let front = timeframes.drop_last();
    let before = gamma::timeframe_candidates(asset, front, now);
    if timeframes.last() == timeframe {
        before.len() + k
    } else {
        let m = choose|m: int| 0 <= m < timeframes.len() && timeframes[m] == timeframe;
        assert(front[m] == timeframe);
        lemma_in_timeframes(asset, front, now, timeframe, k)
    }
}

proof fn lemma_in_assets(
    assets: Seq<Seq<char>>,
    timeframes: Seq<Seq<char>>,
    now: int,
    asset: Seq<char>,
    k: int,
) -> (i: int)
    requires
        assets.contains(asset),
        0 <= k < gamma::timeframe_candidates(asset, timeframes, now).len(),
    ensures
        0 <= i < gamma::all_candidates(assets, timeframes, now).len(),
        gamma::all_candidates(assets, timeframes, now)[i] == gamma::timeframe_candidates(
            asset,
            timeframes,
            now,
        )[k],
    decreases assets.len(),
{
    let front = assets.drop_last();
    let before = gamma::all_candidates(front, timeframes, now);
    if assets.last() == asset {
        before.len() + k
    } else {
        let m = choose|m: int| 0 <= m < assets.len() && assets[m] == asset;
        assert(front[m] == asset);
        lemma_in_assets(front, timeframes, now, asset, k)
    }
}

/// A reply of the service counts from code 200 to 299; else there is an error, which names the
/// code 429 as a limit of its own.
pub proof fn replies_are_judged_by_their_code(code: u16, status: Seq<char>)
    ensures
        200 <= code <= 299 <==> gamma::reply_error_text(code, status) is None,
        code == 429 ==> gamma::reply_error_text(code, status) == Some("429 rate limited"@),
        code != 429 && !(200 <= code <= 299) ==> gamma::reply_error_text(code, status) == Some(
            "Gamma API returned "@ + status,
        ),
{
}

/// A market that would be taken on, but whose lists do not fit together, ends the round: it is
/// given up, and no market after it is looked at.
pub proof fn misfits_end_the_round(round: RoundView, config: DiscoveryConfig, now: Double)
    requires
        0 <= round.next_market < round.markets.len(),
        ({
            let gm = round.markets[round.next_market];
            &&& gm.condition_id is Some && !round.known.contains_key(gm.condition_id->0@)
            &&& gm.active != Some(false) && gm.closed != Some(true)
            &&& round.known.dom().len() < config.max_tracked_markets
            &&& !gamma::is_consistent(gm)
        }),
    ensures
        round.look(config, now).1 == seq![LoopActionView::GiveUp],
        round.look(config, now).0.known == round.known,
        round.look(config, now).0.stage is Resting,
        round.look(config, now).0.next_market == round.next_market + 1,
{
}

/// Lists are used where there are at least two outcomes and two tokens in them.
pub proof fn lists_have_two_of_each(gm: GammaMarket)
    ensures
        gamma::has_lists(gm) <==> gm.outcomes is Some && gamma::field_texts(gm.outcomes->0).len()
            >= 2 && gm.clob_token_ids is Some && gamma::field_texts(gm.clob_token_ids->0).len()
            >= 2,
{
}

/// An item of a list that is a text is taken as it is; one that is not is taken as it is written,
/// without quotation marks at its ends.
pub proof fn items_are_taken_as_texts(item: JsonItemView)
    ensures
        item.is_text ==> gamma::item_text(item) == item.text,
        !item.is_text ==> text_laws::is_stripped(
            item.text,
            gamma::item_text(item),
            |c: char| c == '"',
        ),
{
    text_laws::quotation_marks_are_taken_off(item.text);
}

} // verus!

//! Discovery of the up-or-down markets of crypto assets.
//!
//! Markets are not searched for. The names of those that must exist follow from the time: they
//! are aligned to five minutes, fifteen minutes or the hour, and each candidate is asked for by
//! name.

use std::str::FromStr;

use dashmap::DashMap;
use vstd::prelude::*;
use vstd::string::*;

use super::calendar;
use super::slugs;
use crate::config::DiscoveryConfig;
use crate::double::Double;
use crate::store;
use crate::strategy::engine::{MarketContext, MarketContextView, MarketState};
use crate::text;

verus! {

/// An event of the market service.
#[derive(Debug)]
pub struct GammaEvent {
    pub id: Option<String>,
    pub title: Option<String>,
    pub slug: Option<String>,
    pub markets: Option<Vec<GammaMarket>>,
}

/// A market of an event.
#[derive(Debug)]
pub struct GammaMarket {
    pub condition_id: Option<String>,
    pub question: Option<String>,
    pub slug: Option<String>,
    pub outcomes: Option<JsonField>,
    pub clob_token_ids: Option<JsonField>,
    pub tokens: Option<Vec<GammaToken>>,
    pub start_date: Option<String>,
    pub end_date: Option<String>,
    pub neg_risk: Option<bool>,
    pub minimum_order_size: Option<Double>,
    pub minimum_tick_size: Option<Double>,
    pub order_price_min_tick_size: Option<Double>,
    pub order_min_size: Option<i64>,
    pub active: Option<bool>,
    pub closed: Option<bool>,
}

/// A token of a market.
#[derive(Debug)]
pub struct GammaToken {
    pub token_id: Option<String>,
    pub outcome: Option<String>,
}

/// A JSON value that should be an array of texts, or a text that holds one.
#[derive(Debug)]
pub enum JsonField {
    Items(Vec<JsonItem>),
    Text(String),
    Other,
}

/// An element of a JSON array: a text, or another value in its JSON notation.
#[derive(Debug)]
pub struct JsonItem {
    pub is_text: bool,
    pub text: String,
}

/// What an element says.
pub struct JsonItemView {
    pub is_text: bool,
    pub text: Seq<char>,
}

impl View for JsonItem {
    type V = JsonItemView;

    open spec fn view(&self) -> JsonItemView {
        JsonItemView { is_text: self.is_text, text: self.text@ }
    }
}

/// What a list of elements says.
pub open spec fn item_views(s: Seq<JsonItem>) -> Seq<JsonItemView> {
    s.map_values(|i: JsonItem| i@)
}

/// What a list of elements, if there is one, says.
pub open spec fn items_view(s: Option<Vec<JsonItem>>) -> Option<Seq<JsonItemView>> {
    match s {
        Some(v) => Some(item_views(v@)),
        None => None,
    }
}

/// The elements of the JSON array that a text is, if it is one.
pub uninterp spec fn json_items(s: Seq<char>) -> Option<Seq<JsonItemView>>;

/// `serde_json::from_str` for an array of values: the result depends on the text alone. An
/// element that is a text is handed on as it is, any other in its JSON notation.
#[verifier::external_body]
fn parse_items(s: &str) -> (r: Option<Vec<JsonItem>>)
    ensures
        items_view(r) == json_items(s@),
{
    match serde_json::from_str::<Vec<serde_json::Value>>(s) {
        Ok(values) => Some(
            values.iter().map(|v| match v.as_str() {
                Some(t) => JsonItem { is_text: true, text: t.to_string() },
                None => JsonItem { is_text: false, text: v.to_string() },
            }).collect(),
        ),
        Err(_) => None,
    }
}

/// Seconds since 1970 of a time in ISO 8601 notation, if it is one.
pub uninterp spec fn utc_seconds(s: Seq<char>) -> Option<i64>;

/// `chrono::DateTime::<chrono::Utc>::from_str`, then `timestamp` of what it yields: the result
/// depends on the text alone.
#[verifier::external_body]
fn parse_utc(s: &str) -> (r: Option<i64>)
    ensures
        r == utc_seconds(s@),
{
    match chrono::DateTime::<chrono::Utc>::from_str(s) {
        Ok(t) => Some(t.timestamp()),
        Err(_) => None,
    }
}

/// The text of an element: another value's notation loses the quotation marks around it.
pub open spec fn item_text(item: JsonItemView) -> Seq<char> {
    if item.is_text {
        item.text
    } else {
        text::unquoted_end(text::unquoted_start(item.text))
    }
}

/// The texts of a list of elements.
pub open spec fn item_texts(items: Seq<JsonItemView>) -> Seq<Seq<char>> {
    items.map_values(|i: JsonItemView| item_text(i))
}

/// The texts of an array, or of a text that holds one.
pub open spec fn field_texts(field: JsonField) -> Seq<Seq<char>> {
    match field {
        JsonField::Items(v) => item_texts(item_views(v@)),
        JsonField::Text(s) => match json_items(s@) {
            Some(items) => item_texts(items),
            None => Seq::empty(),
        },
        JsonField::Other => Seq::empty(),
    }
}

/// The texts of a list of elements.
pub fn texts_of_items(items: &Vec<JsonItem>) -> (r: Vec<String>)
    ensures
        text::texts(r@) == item_texts(item_views(items@)),
{
    let ghost all: Seq<Seq<char>> = item_texts(item_views(items@));
    let mut out: Vec<String> = Vec::new();
    let mut i: usize = 0;
    while i < items.len()
        invariant
            i <= items@.len(),
            all == item_texts(item_views(items@)),
            text::texts(out@) =~= all.subrange(0, i as int),
        decreases items@.len() - i,
    {
        let ghost before: Seq<String> = out@;
        assert(all[i as int] == item_text(items@[i as int]@));
        if items[i].is_text {
            out.push(items[i].text.clone());
        } else {
            out.push(text::unquoted(items[i].text.as_str()));
        }
        assert(text::texts(out@) =~= text::texts(before).push(all[i as int]));
        i = i + 1;
    }
    assert(text::texts(out@) =~= all);
    out
}

/// The texts of an array, or of a text that holds one.
pub fn parse_json_string_or_array(field: &JsonField) -> (r: Vec<String>)
    ensures
        text::texts(r@) == field_texts(*field),
{
    let none: Vec<String> = Vec::new();
    assert(text::texts(none@) =~= Seq::<Seq<char>>::empty());
    match field {
        JsonField::Items(items) => texts_of_items(items),
        JsonField::Text(s) => match parse_items(s.as_str()) {
            Some(items) => texts_of_items(&items),
            None => none,
        },
        JsonField::Other => none,
    }
}

/// Seconds since 1970 of a time in ISO 8601 notation.
pub fn parse_iso_to_epoch(s: &str) -> (r: Option<Double>)
    ensures
        r == match utc_seconds(s@) {
            Some(n) => Some(Double::from_int(n)),
            None => None,
        },
{
    match parse_utc(s) {
        Some(n) => Some(Double::from_int(n)),
        None => None,
    }
}

/// Whether an outcome in lower case is the upward one.
pub open spec fn is_up(o: Seq<char>) -> bool {
    o == "up"@ || o == "yes"@
}

/// Whether an outcome in lower case is the downward one.
pub open spec fn is_down(o: Seq<char>) -> bool {
    o == "down"@ || o == "no"@
}

/// Index of the last upward (or downward) outcome.
pub open spec fn last_outcome(outcomes: Seq<Seq<char>>, up: bool) -> Option<int>
    decreases outcomes.len(),
{
    if outcomes.len() == 0 {
        None
    } else if (up && is_up(outcomes.last())) || (!up && is_down(outcomes.last())) {
        Some(outcomes.len() - 1)
    } else {
        last_outcome(outcomes.drop_last(), up)
    }
}

/// Indices of the upward and the downward outcome: where either has none, the first two.
pub open spec fn outcome_indices(outcomes: Seq<Seq<char>>) -> (int, int) {
    match (last_outcome(outcomes, true), last_outcome(outcomes, false)) {
        (Some(u), Some(d)) => (u, d),
        _ => (0, 1),
    }
}

/// The outcomes in lower case.
pub open spec fn lowered(outcomes: Seq<Seq<char>>) -> Seq<Seq<char>> {
    outcomes.map_values(|o: Seq<char>| text::lowercase(o))
}

fn lower_all(outcomes: &Vec<String>) -> (r: Vec<String>)
    ensures
        text::texts(r@) == lowered(text::texts(outcomes@)),
{
    let ghost all: Seq<Seq<char>> = lowered(text::texts(outcomes@));
    let mut out: Vec<String> = Vec::new();
    let mut i: usize = 0;
    while i < outcomes.len()
        invariant
            i <= outcomes@.len(),
            all == lowered(text::texts(outcomes@)),
            text::texts(out@) =~= all.subrange(0, i as int),
        decreases outcomes@.len() - i,
    {
        let ghost before: Seq<String> = out@;
        out.push(text::to_lowercase(outcomes[i].as_str()));
        assert(text::texts(out@) =~= text::texts(before).push(all[i as int]));
        i = i + 1;
    }
    assert(text::texts(out@) =~= all);
    out
}

/// Indices of the upward and the downward outcome, the outcomes being in lower case.
pub fn find_outcomes(outcomes: &Vec<String>) -> (r: (usize, usize))
    ensures
        r.0 == outcome_indices(text::texts(outcomes@)).0,
        r.1 == outcome_indices(text::texts(outcomes@)).1,
{
    let ghost all: Seq<Seq<char>> = text::texts(outcomes@);
    let mut up: Option<usize> = None;
    let mut down: Option<usize> = None;
    let mut i: usize = 0;
    assert(all.subrange(0, 0) =~= Seq::<Seq<char>>::empty());
    while i < outcomes.len()
        invariant
            i <= outcomes@.len(),
            all == text::texts(outcomes@),
            up is Some <==> last_outcome(all.subrange(0, i as int), true) is Some,
            up matches Some(u) ==> u == last_outcome(all.subrange(0, i as int), true)->0,
            down is Some <==> last_outcome(all.subrange(0, i as int), false) is Some,
            down matches Some(d) ==> d == last_outcome(all.subrange(0, i as int), false)->0,
        decreases outcomes@.len() - i,
    {
        proof {
            assert(all.subrange(0, i + 1).drop_last() =~= all.subrange(0, i as int));
            assert(all[i as int] == outcomes@[i as int]@);
        }
        let o: &str = outcomes[i].as_str();
        if text::same(o, "up") || text::same(o, "yes") {
            up = Some(i);
        }
        if text::same(o, "down") || text::same(o, "no") {
            down = Some(i);
        }
        i = i + 1;
    }
    assert(all.subrange(0, i as int) =~= all);
    match (up, down) {
        (Some(u), Some(d)) => (u, d),
        _ => (0, 1),
    }
}

/// The first token with an upward (or downward) outcome, the outcomes being in lower case.
pub open spec fn is_first_token(outcomes: Seq<Seq<char>>, up: bool, i: int) -> bool {
    &&& 0 <= i < outcomes.len()
    &&& if up {
        is_up(outcomes[i])
    } else {
        is_down(outcomes[i])
    }
    &&& forall|j: int|
        0 <= j < i ==> !(if up {
            is_up(#[trigger] outcomes[j])
        } else {
            is_down(outcomes[j])
        })
}

/// The name of a token.
pub open spec fn token_text(t: GammaToken) -> Option<Seq<char>> {
    match t.token_id {
        Some(id) => Some(id@),
        None => None,
    }
}

/// The names of the first upward and the first downward token, where there are both and both
/// are named.
pub open spec fn tokens_by_outcome(tokens: Seq<GammaToken>, outcomes: Seq<Seq<char>>) -> Option<
    (Seq<char>, Seq<char>),
> {
    if tokens.len() >= 2 && (exists|i: int| is_first_token(outcomes, true, i)) && (exists|i: int|
        is_first_token(outcomes, false, i)) {
        let u = choose|i: int| is_first_token(outcomes, true, i);
        let d = choose|i: int| is_first_token(outcomes, false, i);
        match (token_text(tokens[u]), token_text(tokens[d])) {
            (Some(a), Some(b)) => Some((a, b)),
            _ => None,
        }
    } else {
        None
    }
}

/// The outcome of a token, in lower case.
pub open spec fn token_outcome(t: GammaToken) -> Seq<char> {
    match t.outcome {
        Some(o) => text::lowercase(o@),
        None => text::lowercase(""@),
    }
}

/// The outcomes of a list of tokens, in lower case.
pub open spec fn token_outcomes(tokens: Seq<GammaToken>) -> Seq<Seq<char>> {
    tokens.map_values(|t: GammaToken| token_outcome(t))
}

fn first_token(outcomes: &Vec<String>, up: bool) -> (r: Option<usize>)
    ensures
        r matches Some(i) ==> is_first_token(text::texts(outcomes@), up, i as int),
        r is None ==> forall|i: int| !is_first_token(text::texts(outcomes@), up, i),
{
    let ghost all: Seq<Seq<char>> = text::texts(outcomes@);
    let mut i: usize = 0;
    while i < outcomes.len()
        invariant
            i <= outcomes@.len(),
            all == text::texts(outcomes@),
            forall|j: int|
                0 <= j < i ==> !(if up {
                    is_up(#[trigger] all[j])
                } else {
                    is_down(all[j])
                }),
        decreases outcomes@.len() - i,
    {
        assert(all[i as int] == outcomes@[i as int]@);
        let o: &str = outcomes[i].as_str();
        if up {
            if text::same(o, "up") || text::same(o, "yes") {
                return Some(i);
            }
        } else {
            if text::same(o, "down") || text::same(o, "no") {
                return Some(i);
            }
        }
        i = i + 1;
    }
    None
}

/// The names of two tokens.
pub open spec fn pair_view(r: Option<(String, String)>) -> Option<(Seq<char>, Seq<char>)> {
    match r {
        Some((a, b)) => Some((a@, b@)),
        None => None,
    }
}

/// The names of the first upward and the first downward token; `outcomes` are those of the
/// tokens, in lower case.
pub fn pick_tokens(tokens: &Vec<GammaToken>, outcomes: &Vec<String>) -> (r: Option<
    (String, String),
>)
    requires
        outcomes@.len() == tokens@.len(),
    ensures
        pair_view(r) == tokens_by_outcome(tokens@, text::texts(outcomes@)),
{
    let ghost all: Seq<Seq<char>> = text::texts(outcomes@);
    if tokens.len() < 2 {
        return None;
    }
    let u: usize = match first_token(outcomes, true) {
        Some(i) => i,
        None => return None,
    };
    let d: usize = match first_token(outcomes, false) {
        Some(i) => i,
        None => return None,
    };
    proof {
        let a = choose|i: int| is_first_token(all, true, i);
        let b = choose|i: int| is_first_token(all, false, i);
        assert(is_first_token(all, true, u as int));
        assert(is_first_token(all, false, d as int));
        if a < u {
            assert(!is_up(all[a]));
        }
        if u < a {
            assert(!is_up(all[u as int]));
        }
        assert(b == d) by {
            if b < d {
                assert(!(if false {
                    is_up(all[b])
                } else {
                    is_down(all[b])
                }));
            }
            if d < b {
                assert(!(if false {
                    is_up(all[d as int])
                } else {
                    is_down(all[d as int])
                }));
            }
        }
    }
    match (&tokens[u].token_id, &tokens[d].token_id) {
        (Some(a), Some(b)) => Some((a.clone(), b.clone())),
        _ => None,
    }
}

/// Whether outcomes and token names are given as lists of two or more.
pub open spec fn has_lists(gm: GammaMarket) -> bool {
    &&& gm.outcomes is Some
    &&& gm.clob_token_ids is Some
    &&& field_texts(gm.outcomes->0).len() >= 2
    &&& field_texts(gm.clob_token_ids->0).len() >= 2
}

/// Whether the lists name a token for each side.
pub open spec fn lists_match(outcomes: Seq<Seq<char>>, ids: Seq<Seq<char>>) -> bool {
    outcome_indices(outcomes).0 < ids.len() && outcome_indices(outcomes).1 < ids.len()
}

/// Whether the list of token names is long enough for the places of the outcomes.
pub open spec fn is_consistent(gm: GammaMarket) -> bool {
    has_lists(gm) ==> lists_match(
        lowered(field_texts(gm.outcomes->0)),
        field_texts(gm.clob_token_ids->0),
    )
}

/// The names of the upward and the downward token of a market: by the places of the outcomes in
/// a list, or else by the outcomes of the tokens themselves.
pub open spec fn market_tokens(gm: GammaMarket) -> Option<(Seq<char>, Seq<char>)> {
    if has_lists(gm) {
        let ids = field_texts(gm.clob_token_ids->0);
        let (u, d) = outcome_indices(lowered(field_texts(gm.outcomes->0)));
        Some((ids[u], ids[d]))
    } else {
        match gm.tokens {
            Some(tokens) => tokens_by_outcome(tokens@, token_outcomes(tokens@)),
            None => None,
        }
    }
}

/// The names of the tokens at the places of the outcomes, the outcomes being in lower case.
pub fn choose_tokens(outcomes: &Vec<String>, ids: &Vec<String>) -> (r: (String, String))
    requires
        lists_match(text::texts(outcomes@), text::texts(ids@)),
    ensures
        r.0@ == text::texts(ids@)[outcome_indices(text::texts(outcomes@)).0],
        r.1@ == text::texts(ids@)[outcome_indices(text::texts(outcomes@)).1],
{
    let (u, d): (usize, usize) = find_outcomes(outcomes);
    (ids[u].clone(), ids[d].clone())
}

fn lower_outcomes(tokens: &Vec<GammaToken>) -> (r: Vec<String>)
    ensures
        text::texts(r@) == token_outcomes(tokens@),
{
    let ghost all: Seq<Seq<char>> = token_outcomes(tokens@);
    let mut out: Vec<String> = Vec::new();
    let mut i: usize = 0;
    while i < tokens.len()
        invariant
            i <= tokens@.len(),
            all == token_outcomes(tokens@),
            text::texts(out@) =~= all.subrange(0, i as int),
        decreases tokens@.len() - i,
    {
        let ghost before: Seq<String> = out@;
        let lower: String = match &tokens[i].outcome {
            Some(o) => text::to_lowercase(o.as_str()),
            None => text::to_lowercase(""),
        };
        out.push(lower);
        assert(text::texts(out@) =~= text::texts(before).push(all[i as int]));
        i = i + 1;
    }
    assert(text::texts(out@) =~= all);
    out
}

/// Names that are asked for: what a market has to be called now.
#[derive(Debug)]
pub struct Candidate {
    pub slug: String,
    pub asset: String,
    pub timeframe: String,
    pub start_epoch: Double,
    pub end_epoch: Double,
}

/// What a candidate says.
pub struct CandidateView {
    pub slug: Seq<char>,
    pub asset: Seq<char>,
    pub timeframe: Seq<char>,
    pub start_epoch: Double,
    pub end_epoch: Double,
}

impl View for Candidate {
    type V = CandidateView;

    open spec fn view(&self) -> CandidateView {
        CandidateView {
            slug: self.slug@,
            asset: self.asset@,
            timeframe: self.timeframe@,
            start_epoch: self.start_epoch,
            end_epoch: self.end_epoch,
        }
    }
}

/// What a list of candidates says.
pub open spec fn candidate_views(s: Seq<Candidate>) -> Seq<CandidateView> {
    s.map_values(|c: Candidate| c@)
}

/// The candidate of a window that starts at `start`.
pub open spec fn window(asset: Seq<char>, timeframe: Seq<char>, start: int) -> CandidateView {
    CandidateView {
        slug: slugs::slug_of(asset, timeframe, start),
        asset,
        timeframe,
        start_epoch: Double::from_int(start as i64),
        end_epoch: Double::from_int((start + slugs::spec_interval_of(timeframe)) as i64),
    }
}

/// The start of the window that holds the second `now`.
pub open spec fn aligned(now: int, interval: int) -> int {
    (now / interval) * interval
}

/// How many windows ahead of the current one are asked for.
pub open spec fn ahead_of(timeframe: Seq<char>) -> nat {
    if timeframe == "5min"@ {
        2
    } else {
        1
    }
}

/// The start of the window numbered `i` in the list of candidates: the first is the one before
/// the current.
pub open spec fn start_of(timeframe: Seq<char>, now: int, i: int) -> int {
    let interval = slugs::spec_interval_of(timeframe);
    aligned(now, interval) + (i - 1) * interval
}

/// The candidates of an asset in a timeframe: from the window before the current one to a few
/// after it.
pub open spec fn asset_candidates(asset: Seq<char>, timeframe: Seq<char>, now: int) -> Seq<
    CandidateView,
> {
    if !slugs::is_known(asset) || slugs::spec_interval_of(timeframe) == 0 {
        Seq::empty()
    } else {
        Seq::new(
            ahead_of(timeframe) + 2,
            |i: int| window(asset, timeframe, start_of(timeframe, now, i)),
        )
    }
}

/// The candidates of an asset in a row of timeframes.
pub open spec fn timeframe_candidates(
    asset: Seq<char>,
    timeframes: Seq<Seq<char>>,
    now: int,
) -> Seq<CandidateView>
    decreases timeframes.len(),
{
    if timeframes.len() == 0 {
        Seq::empty()
    } else {
        timeframe_candidates(asset, timeframes.drop_last(), now) + asset_candidates(
            asset,
            timeframes.last(),
            now,
        )
    }
}

/// The candidates of a row of assets, each in a row of timeframes.
pub open spec fn all_candidates(
    assets: Seq<Seq<char>>,
    timeframes: Seq<Seq<char>>,
    now: int,
) -> Seq<CandidateView>
    decreases assets.len(),
{
    if assets.len() == 0 {
        Seq::empty()
    } else {
        all_candidates(assets.drop_last(), timeframes, now) + timeframe_candidates(
            assets.last(),
            timeframes,
            now,
        )
    }
}

/// Whether a time, in whole seconds, is one that windows can be counted from: not before 1970,
/// and not at the end of what 64 bits hold.
pub open spec fn is_countable(now: Double) -> bool {
    0 <= now.to_int() <= 0x7FFF_FFFF_FFFF_0000
}

fn push_windows(out: &mut Vec<Candidate>, asset: &String, timeframe: &String, now: i64)
    requires
        0 <= now <= 0x7FFF_FFFF_FFFF_0000,
        slugs::is_known(asset@),
        slugs::spec_interval_of(timeframe@) > 0,
    ensures
        candidate_views(final(out)@) == candidate_views(old(out)@) + asset_candidates(
            asset@,
            timeframe@,
            now as int,
        ),
{
    let ghost first: Seq<CandidateView> = candidate_views(out@);
    let ghost all: Seq<CandidateView> = asset_candidates(asset@, timeframe@, now as int);
    let interval: i64 = slugs::interval_of(timeframe.as_str());
    let count: u32 = if text::same(timeframe.as_str(), "5min") { 4 } else { 3 };
    proof {
        vstd::arithmetic::div_mod::lemma_fundamental_div_mod(now as int, interval as int);
        vstd::arithmetic::div_mod::lemma_mod_bound(now as int, interval as int);
        vstd::arithmetic::mul::lemma_mul_is_commutative(
            interval as int,
            now as int / interval as int,
        );
    }
    let quotient: i64 = now / interval;
    let base: i64 = quotient * interval;
    assert(base == aligned(now as int, interval as int));
    let mut start: i64 = base - interval;
    let mut i: u32 = 0;
    assert(first + all.subrange(0, 0) =~= first);
    while i < count
        invariant
            i <= count <= 4,
            0 < interval <= 3600,
            interval == slugs::spec_interval_of(timeframe@),
            0 <= base <= now <= 0x7FFF_FFFF_FFFF_0000,
            base == aligned(now as int, interval as int),
            start == base + (i - 1) * interval,
            all == asset_candidates(asset@, timeframe@, now as int),
            all.len() == count,
            slugs::is_known(asset@),
            candidate_views(out@) == first + all.subrange(0, i as int),
        decreases count - i,
    {
        assert(-3600 <= (i - 1) * interval <= 7200) by (nonlinear_arith)
            requires
                0 <= i <= 3,
                0 < interval <= 3600,
        ;
        let slug: String = slugs::slug_for(asset.as_str(), timeframe.as_str(), start);
        let ghost before: Seq<Candidate> = out@;
        out.push(
            Candidate {
                slug,
                asset: asset.clone(),
                timeframe: timeframe.clone(),
                start_epoch: Double::from_int(start),
                end_epoch: Double::from_int(start + interval),
            },
        );
        proof {
            assert(candidate_views(out@) =~= candidate_views(before).push(out@.last()@));
            assert(all[i as int] == window(asset@, timeframe@, start as int));
            assert(all.subrange(0, i + 1) =~= all.subrange(0, i as int).push(all[i as int]));
            assert(candidate_views(out@) =~= first + all.subrange(0, i + 1));
            assert(i * interval == (i - 1) * interval + interval) by (nonlinear_arith);
        }
        start = start + interval;
        i = i + 1;
    }
    assert(all.subrange(0, i as int) =~= all);
}

/// Discovers markets and keeps those that are traded.
pub struct GammaDiscovery {
    pub config: DiscoveryConfig,
    pub gamma_url: String,
    /// The markets that are tracked.
    pub known: DashMap<String, MarketContext>,
}

/// What process_market comes to before the tokens of a market are looked at.
pub open spec fn is_eligible(
    gm: GammaMarket,
    known: Map<Seq<char>, MarketContextView>,
    max_tracked: usize,
) -> bool {
    &&& gm.condition_id is Some
    &&& !known.contains_key(gm.condition_id->0@)
    &&& gm.active != Some(false)
    &&& gm.closed != Some(true)
    &&& known.dom().len() < max_tracked
}

/// A time that a market states, or else the one that its name states.
pub open spec fn time_or(date: Option<String>, fallback: Double) -> Double {
    match date {
        Some(s) => match utc_seconds(s@) {
            Some(n) => Double::from_int(n),
            None => fallback,
        },
        None => fallback,
    }
}

/// The tick size that a market states, or a cent.
pub open spec fn tick_of(gm: GammaMarket) -> Double {
    match gm.order_price_min_tick_size {
        Some(t) => t,
        None => match gm.minimum_tick_size {
            Some(t) => t,
            None => Double::ratio(1, 100),
        },
    }
}

/// The least order that a market states, or five shares.
pub open spec fn min_size_of(gm: GammaMarket) -> Double {
    match gm.order_min_size {
        Some(n) => Double::from_int(n),
        None => match gm.minimum_order_size {
            Some(s) => s,
            None => Double::ratio(5, 1),
        },
    }
}

/// What a market of the service comes to, if it is taken on.
pub open spec fn market_of(
    gm: GammaMarket,
    known: Map<Seq<char>, MarketContextView>,
    max_tracked: usize,
    asset: Seq<char>,
    timeframe: Seq<char>,
    slug_start: Double,
    slug_end: Double,
    now: Double,
) -> Option<MarketContextView> {
    if is_eligible(gm, known, max_tracked) && market_tokens(gm) is Some && !time_or(
        gm.end_date,
        slug_end,
    ).le(now) {
        Some(
            MarketContextView {
                condition_id: gm.condition_id->0@,
                asset,
                timeframe,
                yes_token_id: (market_tokens(gm)->0).0,
                no_token_id: (market_tokens(gm)->0).1,
                start_time: time_or(gm.start_date, slug_start),
                end_time: time_or(gm.end_date, slug_end),
                state: MarketState::Discovered,
                neg_risk: gm.neg_risk == Some(true),
                tick_size: tick_of(gm),
                min_order_size: min_size_of(gm),
                db_market_id: None,
            },
        )
    } else {
        None
    }
}

/// What a market, if there is one, says.
pub open spec fn context_view(r: Option<MarketContext>) -> Option<MarketContextView> {
    match r {
        Some(c) => Some(c@),
        None => None,
    }
}

/// What a list of markets says.
pub open spec fn market_list(s: Seq<MarketContext>) -> Seq<MarketContextView> {
    s.map_values(|m: MarketContext| m@)
}

/// The markets of a list of them with their names.
pub open spec fn entries(e: Seq<(Seq<char>, MarketContextView)>) -> Seq<MarketContextView> {
    e.map_values(|x: (Seq<char>, MarketContextView)| x.1)
}

/// Whether `s` lists all markets, each once.
pub open spec fn walks(
    s: Seq<MarketContextView>,
    known: Map<Seq<char>, MarketContextView>,
) -> bool {
    exists|e: Seq<(Seq<char>, MarketContextView)>| #[trigger]
        store::lists(e, known) && s == entries(e)
}

fn stated_time(date: &Option<String>, fallback: Double) -> (r: Double)
    ensures
        r == time_or(*date, fallback),
{
    match date {
        Some(s) => match parse_iso_to_epoch(s.as_str()) {
            Some(t) => t,
            None => fallback,
        },
        None => fallback,
    }
}

impl GammaDiscovery {
    /// The tracked markets by name.
    pub open spec fn contents(&self) -> Map<Seq<char>, MarketContextView> {
        store::markets_of(self.known)
    }

    pub fn new(config: DiscoveryConfig, gamma_url: String) -> (r: Self)
        ensures
            r.config == config,
            r.gamma_url == gamma_url,
            r.contents() == Map::<Seq<char>, MarketContextView>::empty(),
    {
        let known: DashMap<String, MarketContext> = store::no_markets();
        assert(store::markets_of(known) =~= Map::<Seq<char>, MarketContextView>::empty());
        GammaDiscovery { config, gamma_url, known }
    }

    /// Number of markets that are tracked.
    pub fn tracked_count(&self) -> (r: usize)
        ensures
            r == self.contents().dom().len(),
    {
        store::count_markets(&self.known)
    }

    /// All markets that are tracked, in the order in which the map is walked.
    pub fn all_markets(&self) -> (r: Vec<MarketContext>)
        ensures
            walks(market_list(r@), self.contents()),
    {
        let listed: Vec<(String, MarketContext)> = store::list_markets(&self.known);
        let ghost e: Seq<(Seq<char>, MarketContextView)> = store::market_views(listed@);
        assert(store::lists(e, self.contents()));
        let mut out: Vec<MarketContext> = Vec::new();
        let mut i: usize = 0;
        while i < listed.len()
            invariant
                i <= listed@.len(),
                e == store::market_views(listed@),
                market_list(out@) =~= entries(e).subrange(0, i as int),
            decreases listed@.len() - i,
        {
            let ghost before: Seq<MarketContext> = out@;
            out.push(listed[i].1.clone());
            assert(market_list(out@) =~= market_list(before).push(entries(e)[i as int]));
            i = i + 1;
        }
        assert(market_list(out@) =~= entries(e));
        out
    }

    /// The address that events are asked for at.
    pub fn events_url(&self) -> (r: String)
        ensures
            r@ == self.gamma_url@ + "/events"@,
    {
        let mut url: String = self.gamma_url.clone();
        url.append("/events");
        url
    }

    /// The names of the markets that must exist around the time `now`.
    pub fn candidate_slugs(&self, now: Double) -> (r: Vec<Candidate>)
        requires
            is_countable(now),
        ensures
            candidate_views(r@) == all_candidates(
                text::texts(self.config.allowed_assets@),
                text::texts(self.config.allowed_timeframes@),
                now.to_int() as int,
            ),
    {
        let now_secs: i64 = now.to_int();
        let ghost assets: Seq<Seq<char>> = text::texts(self.config.allowed_assets@);
        let ghost frames: Seq<Seq<char>> = text::texts(self.config.allowed_timeframes@);
        let mut out: Vec<Candidate> = Vec::new();
        let mut i: usize = 0;
        assert(assets.subrange(0, 0) =~= Seq::<Seq<char>>::empty());
        assert(candidate_views(out@) =~= Seq::<CandidateView>::empty());
        while i < self.config.allowed_assets.len()
            invariant
                i <= self.config.allowed_assets@.len(),
                0 <= now_secs <= 0x7FFF_FFFF_FFFF_0000,
                assets == text::texts(self.config.allowed_assets@),
                frames == text::texts(self.config.allowed_timeframes@),
                candidate_views(out@) == all_candidates(
                    assets.subrange(0, i as int),
                    frames,
                    now_secs as int,
                ),
            decreases self.config.allowed_assets@.len() - i,
        {
            let asset: &String = &self.config.allowed_assets[i];
            let ghost before: Seq<CandidateView> = candidate_views(out@);
            let mut k: usize = 0;
            proof {
                assert(assets[i as int] == asset@);
                assert(assets.subrange(0, i + 1).drop_last() =~= assets.subrange(0, i as int));
                assert(frames.subrange(0, 0) =~= Seq::<Seq<char>>::empty());
                assert(before + Seq::<CandidateView>::empty() =~= before);
            }
            while k < self.config.allowed_timeframes.len()
                invariant
                    k <= self.config.allowed_timeframes@.len(),
                    0 <= now_secs <= 0x7FFF_FFFF_FFFF_0000,
                    frames == text::texts(self.config.allowed_timeframes@),
                    candidate_views(out@) == before + timeframe_candidates(
                        asset@,
                        frames.subrange(0, k as int),
                        now_secs as int,
                    ),
                decreases self.config.allowed_timeframes@.len() - k,
            {
                let tf: &String = &self.config.allowed_timeframes[k];
                let ghost sofar: Seq<CandidateView> = timeframe_candidates(
                    asset@,
                    frames.subrange(0, k as int),
                    now_secs as int,
                );
                proof {
                    assert(frames[k as int] == tf@);
                    assert(frames.subrange(0, k + 1).drop_last() =~= frames.subrange(
                        0,
                        k as int,
                    ));
                }
                if (text::same(asset.as_str(), "btc") || text::same(asset.as_str(), "eth"))
                    && slugs::interval_of(tf.as_str()) > 0 {
                    push_windows(&mut out, asset, tf, now_secs);
                }
                proof {
                    let more = asset_candidates(asset@, tf@, now_secs as int);
                    assert((before + sofar) + more =~= before + (sofar + more));
                    assert((before + sofar) + Seq::<CandidateView>::empty() =~= before + sofar);
                }
                k = k + 1;
            }
            assert(frames.subrange(0, k as int) =~= frames);
            i = i + 1;
        }
        assert(assets.subrange(0, i as int) =~= assets);
        out
    }

    /// Whether the list of token names of a market is long enough for the places of its
    /// outcomes.
    pub fn check_tokens(gm: &GammaMarket) -> (r: bool)
        ensures
            r == is_consistent(*gm),
    {
        match (&gm.outcomes, &gm.clob_token_ids) {
            (Some(outcomes), Some(ids)) => {
                let outcomes: Vec<String> = parse_json_string_or_array(outcomes);
                let ids: Vec<String> = parse_json_string_or_array(ids);
                assert(text::texts(outcomes@).len() == outcomes@.len());
                assert(text::texts(ids@).len() == ids@.len());
                if outcomes.len() >= 2 && ids.len() >= 2 {
                    let (u, d): (usize, usize) = find_outcomes(&lower_all(&outcomes));
                    return u < ids.len() && d < ids.len();
                }
                true
            },
            _ => true,
        }
    }

    /// The names of the upward and the downward token of a market.
    pub fn extract_tokens(gm: &GammaMarket) -> (r: Option<(String, String)>)
        requires
            is_consistent(*gm),
        ensures
            pair_view(r) == market_tokens(*gm),
    {
        match (&gm.outcomes, &gm.clob_token_ids) {
            (Some(outcomes), Some(ids)) => {
                let outcomes: Vec<String> = parse_json_string_or_array(outcomes);
                let ids: Vec<String> = parse_json_string_or_array(ids);
                assert(text::texts(outcomes@).len() == outcomes@.len());
                assert(text::texts(ids@).len() == ids@.len());
                if outcomes.len() >= 2 && ids.len() >= 2 {
                    return Some(choose_tokens(&lower_all(&outcomes), &ids));
                }
            },
            _ => {},
        }
        match &gm.tokens {
            Some(tokens) => {
                let outcomes: Vec<String> = lower_outcomes(tokens);
                assert(text::texts(outcomes@).len() == outcomes@.len());
                pick_tokens(tokens, &outcomes)
            },
            None => None,
        }
    }

    /// Makes a market of the service one of the bot's, unless it is tracked already, is over,
    /// has no tokens, or no more can be tracked.
    pub fn process_market(
        &self,
        gm: &GammaMarket,
        asset: &str,
        timeframe: &str,
        slug_start: Double,
        slug_end: Double,
        now: Double,
    ) -> (r: Option<MarketContext>)
        requires
            is_eligible(*gm, self.contents(), self.config.max_tracked_markets) ==> is_consistent(
                *gm,
            ),
        ensures
            context_view(r) == market_of(
                *gm,
                self.contents(),
                self.config.max_tracked_markets,
                asset@,
                timeframe@,
                slug_start,
                slug_end,
                now,
            ),
    {
        if !self.takes(gm) {
            return None;
        }
        let condition_id: String = match &gm.condition_id {
            Some(c) => c.clone(),
            None => return None,
        };
        let (yes_token_id, no_token_id): (String, String) = match Self::extract_tokens(gm) {
            Some(pair) => pair,
            None => return None,
        };
        let start_time: Double = stated_time(&gm.start_date, slug_start);
        let end_time: Double = stated_time(&gm.end_date, slug_end);
        if end_time.le(now) {
            return None;
        }
        let tick_size: Double = match gm.order_price_min_tick_size {
            Some(t) => t,
            None => match gm.minimum_tick_size {
                Some(t) => t,
                None => Double::ratio(1, 100),
            },
        };
        let min_order_size: Double = match gm.order_min_size {
            Some(n) => Double::from_int(n),
            None => match gm.minimum_order_size {
                Some(s) => s,
                None => Double::ratio(5, 1),
            },
        };
        let neg_risk: bool = match gm.neg_risk {
            Some(b) => b,
            None => false,
        };
        Some(
            MarketContext {
                condition_id,
                asset: asset.to_string(),
                timeframe: timeframe.to_string(),
                yes_token_id,
                no_token_id,
                start_time,
                end_time,
                state: MarketState::Discovered,
                neg_risk,
                tick_size,
                min_order_size,
                db_market_id: None,
            },
        )
    }

    /// Whether a market may be taken on as far as its tokens and times do not decide.
    pub fn takes(&self, gm: &GammaMarket) -> (r: bool)
        ensures
            r == is_eligible(*gm, self.contents(), self.config.max_tracked_markets),
    {
        match &gm.condition_id {
            Some(condition_id) => {
                if store::has_market(&self.known, condition_id.as_str()) {
                    return false;
                }
            },
            None => return false,
        }
        match gm.active {
            Some(active) => {
                if !active {
                    return false;
                }
            },
            None => {},
        }
        match gm.closed {
            Some(closed) => {
                if closed {
                    return false;
                }
            },
            None => {},
        }
        store::count_markets(&self.known) < self.config.max_tracked_markets
    }

    /// Like `process_market`, for any market: the result is an error where the list of token
    /// names is too short for the places of the outcomes.
    pub fn try_process_market(
        &self,
        gm: &GammaMarket,
        asset: &str,
        timeframe: &str,
        slug_start: Double,
        slug_end: Double,
        now: Double,
    ) -> (r: Result<Option<MarketContext>, ()>)
        ensures
            r is Err <==> is_eligible(*gm, self.contents(), self.config.max_tracked_markets)
                && !is_consistent(*gm),
            r matches Ok(market) ==> context_view(market) == market_of(
                *gm,
                self.contents(),
                self.config.max_tracked_markets,
                asset@,
                timeframe@,
                slug_start,
                slug_end,
                now,
            ),
    {
        if self.takes(gm) && !Self::check_tokens(gm) {
            return Err(());
        }
        Ok(self.process_market(gm, asset, timeframe, slug_start, slug_end, now))
    }
}

/// What is said of a reply that is no success: `status` is its code with its name.
pub open spec fn reply_error_text(code: u16, status: Seq<char>) -> Option<Seq<char>> {
    if code == 429 {
        Some("429 rate limited"@)
    } else if code < 200 || code > 299 {
        Some("Gamma API returned "@ + status)
    } else {
        None
    }
}

/// What is said of a reply of the service that is no success.
pub fn reply_error(code: u16, status: &str) -> (r: Option<String>)
    ensures
        r is Some <==> reply_error_text(code, status@) is Some,
        r matches Some(e) ==> e@ == reply_error_text(code, status@)->0,
{
    if code == 429 {
        Some("429 rate limited".to_string())
    } else if code < 200 || code > 299 {
        let mut message: String = "Gamma API returned ".to_string();
        message.append(status);
        Some(message)
    } else {
        None
    }
}

/// Every window starts at a multiple of its length, and of the windows of a timeframe exactly
/// one, the second candidate, holds the present second.
pub proof fn present_is_offered(asset: Seq<char>, timeframe: Seq<char>, now: int, i: int)
    requires
        slugs::is_known(asset),
        slugs::spec_interval_of(timeframe) > 0,
        0 <= i < ahead_of(timeframe) + 2,
    ensures
        asset_candidates(asset, timeframe, now).len() == ahead_of(timeframe) + 2,
        asset_candidates(asset, timeframe, now)[i] == window(
            asset,
            timeframe,
            start_of(timeframe, now, i),
        ),
        start_of(timeframe, now, i) % slugs::spec_interval_of(timeframe) == 0,
        start_of(timeframe, now, i) <= now < start_of(timeframe, now, i)
            + slugs::spec_interval_of(timeframe) <==> i == 1,
{
    let interval = slugs::spec_interval_of(timeframe);
    vstd::arithmetic::div_mod::lemma_fundamental_div_mod(now, interval);
    vstd::arithmetic::div_mod::lemma_mod_bound(now, interval);
    vstd::arithmetic::mul::lemma_mul_is_commutative(interval, now / interval);
    assert(aligned(now, interval) + (i - 1) * interval == (now / interval + i - 1) * interval)
        by (nonlinear_arith)
        requires
            aligned(now, interval) == (now / interval) * interval,
    ;
    vstd::arithmetic::div_mod::lemma_mod_multiples_basic(now / interval + i - 1, interval);
    assert(i >= 2 ==> (i - 1) * interval >= interval) by (nonlinear_arith)
        requires
            interval > 0,
    ;
    assert(i == 0 ==> (i - 1) * interval == -interval) by (nonlinear_arith);
    assert(i == 1 ==> (i - 1) * interval == 0) by (nonlinear_arith);
}

/// The candidates are different: where two have one name, the settings named an asset or a
/// timeframe twice, or clocks on the east coast show the same hour at the start of both.
pub proof fn candidates_differ(
    asset1: Seq<char>,
    timeframe1: Seq<char>,
    asset2: Seq<char>,
    timeframe2: Seq<char>,
    now: int,
    i: int,
    j: int,
)
    requires
        0 <= now <= 0x7FFF_FFFF_FFFF_0000,
        0 <= i < asset_candidates(asset1, timeframe1, now).len(),
        0 <= j < asset_candidates(asset2, timeframe2, now).len(),
        asset_candidates(asset1, timeframe1, now)[i].slug == asset_candidates(
            asset2,
            timeframe2,
            now,
        )[j].slug,
    ensures
        asset1 == asset2,
        timeframe1 == timeframe2,
        timeframe1 != "1hr"@ ==> i == j,
        timeframe1 == "1hr"@ ==> {
            let e = calendar::eastern(start_of(timeframe1, now, i));
            let g = calendar::eastern(start_of(timeframe1, now, j));
            e.month == g.month && e.day == g.day && e.hour == g.hour
        },
{
    let start1 = start_of(timeframe1, now, i);
    let start2 = start_of(timeframe2, now, j);
    let n1 = slugs::spec_interval_of(timeframe1);
    let n2 = slugs::spec_interval_of(timeframe2);
    present_is_offered(asset1, timeframe1, now, i);
    present_is_offered(asset2, timeframe2, now, j);
    lemma_start(now, n1, i);
    lemma_start(now, n2, j);
    slugs::slugs_differ(asset1, timeframe1, start1, asset2, timeframe2, start2);
    if timeframe1 != "1hr"@ {
        assert((i - 1) * n1 == (j - 1) * n1);
        assert(i == j) by (nonlinear_arith)
            requires
                (i - 1) * n1 == (j - 1) * n1,
                n1 > 0,
        ;
    }
}

/// Whether a candidate is one of those of its asset and timeframe.
pub open spec fn is_offered(c: CandidateView, now: int) -> bool {
    exists|k: int|
        0 <= k < asset_candidates(c.asset, c.timeframe, now).len() && c == #[trigger]
            asset_candidates(c.asset, c.timeframe, now)[k]
}

/// Where a candidate of a timeframe stands.
proof fn lemma_offered(asset: Seq<char>, timeframe: Seq<char>, now: int, k: int)
    requires
        0 <= k < asset_candidates(asset, timeframe, now).len(),
    ensures
        asset_candidates(asset, timeframe, now)[k].asset == asset,
        asset_candidates(asset, timeframe, now)[k].timeframe == timeframe,
        is_offered(asset_candidates(asset, timeframe, now)[k], now),
{
    let c = asset_candidates(asset, timeframe, now)[k];
    assert(c == asset_candidates(c.asset, c.timeframe, now)[k]);
}

/// Where the candidates of an asset come from.
proof fn lemma_timeframes(asset: Seq<char>, timeframes: Seq<Seq<char>>, now: int, i: int)
    requires
        0 <= i < timeframe_candidates(asset, timeframes, now).len(),
    ensures
        ({
            let c = timeframe_candidates(asset, timeframes, now)[i];
            c.asset == asset && timeframes.contains(c.timeframe) && is_offered(c, now)
        }),
    decreases timeframes.len(),
{
    let front = timeframes.drop_last();
    let before = timeframe_candidates(asset, front, now);
    if i < before.len() {
        lemma_timeframes(asset, front, now, i);
        let k = choose|k: int| 0 <= k < front.len() && front[k] == before[i].timeframe;
        assert(timeframes[k] == front[k]);
    } else {
        lemma_offered(asset, timeframes.last(), now, i - before.len());
        assert(timeframes[timeframes.len() - 1] == timeframes.last());
    }
}

/// Where the candidates come from.
proof fn lemma_assets(assets: Seq<Seq<char>>, timeframes: Seq<Seq<char>>, now: int, i: int)
    requires
        0 <= i < all_candidates(assets, timeframes, now).len(),
    ensures
        ({
            let c = all_candidates(assets, timeframes, now)[i];
            assets.contains(c.asset) && is_offered(c, now)
        }),
    decreases assets.len(),
{
    let front = assets.drop_last();
    let before = all_candidates(front, timeframes, now);
    if i < before.len() {
        lemma_assets(front, timeframes, now, i);
        let k = choose|k: int| 0 <= k < front.len() && front[k] == before[i].asset;
        assert(assets[k] == front[k]);
    } else {
        lemma_timeframes(assets.last(), timeframes, now, i - before.len());
        assert(assets[assets.len() - 1] == assets.last());
    }
}

/// Candidates of one name are of one asset and timeframe.
proof fn lemma_one_name(c: CandidateView, d: CandidateView, now: int)
    requires
        0 <= now <= 0x7FFF_FFFF_FFFF_0000,
        is_offered(c, now),
        is_offered(d, now),
        c.slug == d.slug,
    ensures
        c.asset == d.asset,
        c.timeframe == d.timeframe,
{
    let i = choose|k: int|
        0 <= k < asset_candidates(c.asset, c.timeframe, now).len() && c == #[trigger]
            asset_candidates(c.asset, c.timeframe, now)[k];
    let j = choose|k: int|
        0 <= k < asset_candidates(d.asset, d.timeframe, now).len() && d == #[trigger]
            asset_candidates(d.asset, d.timeframe, now)[k];
    candidates_differ(c.asset, c.timeframe, d.asset, d.timeframe, now, i, j);
}

proof fn lemma_names_of_asset(
    asset: Seq<char>,
    timeframes: Seq<Seq<char>>,
    now: int,
    i: int,
    j: int,
)
    requires
        0 <= now <= 0x7FFF_FFFF_FFFF_0000,
        timeframes.no_duplicates(),
        0 <= i < j < timeframe_candidates(asset, timeframes, now).len(),
        timeframe_candidates(asset, timeframes, now)[i].slug == timeframe_candidates(
            asset,
            timeframes,
            now,
        )[j].slug,
    ensures
        timeframe_candidates(asset, timeframes, now)[i].timeframe == "1hr"@,
    decreases timeframes.len(),
{
    let front = timeframes.drop_last();
    let last = timeframes.last();
    let before = timeframe_candidates(asset, front, now);
    let all = timeframe_candidates(asset, timeframes, now);
    assert(front.no_duplicates());
    lemma_timeframes(asset, timeframes, now, i);
    lemma_timeframes(asset, timeframes, now, j);
    lemma_one_name(all[i], all[j], now);
    if j < before.len() {
        lemma_names_of_asset(asset, front, now, i, j);
    } else if i < before.len() {
        lemma_timeframes(asset, front, now, i);
        lemma_offered(asset, last, now, j - before.len());
        let k = choose|k: int| 0 <= k < front.len() && front[k] == before[i].timeframe;
        assert(timeframes[k] == timeframes[timeframes.len() - 1]);
        assert(false);
    } else {
        lemma_offered(asset, last, now, i - before.len());
        candidates_differ(asset, last, asset, last, now, i - before.len(), j - before.len());
    }
}

/// No name is asked for twice, where the settings name no asset and no timeframe twice, but for
/// hourly markets: two candidates of one name are hourly markets of one asset.
pub proof fn names_are_not_repeated(
    assets: Seq<Seq<char>>,
    timeframes: Seq<Seq<char>>,
    now: int,
    i: int,
    j: int,
)
    requires
        0 <= now <= 0x7FFF_FFFF_FFFF_0000,
        assets.no_duplicates(),
        timeframes.no_duplicates(),
        0 <= i < j < all_candidates(assets, timeframes, now).len(),
        all_candidates(assets, timeframes, now)[i].slug == all_candidates(
            assets,
            timeframes,
            now,
        )[j].slug,
    ensures
        ({
            let c = all_candidates(assets, timeframes, now)[i];
            let d = all_candidates(assets, timeframes, now)[j];
            c.asset == d.asset && c.timeframe == "1hr"@ && d.timeframe == "1hr"@
        }),
    decreases assets.len(),
{
    let front = assets.drop_last();
    let last = assets.last();
    let before = all_candidates(front, timeframes, now);
    let all = all_candidates(assets, timeframes, now);
    assert(front.no_duplicates());
    lemma_assets(assets, timeframes, now, i);
    lemma_assets(assets, timeframes, now, j);
    lemma_one_name(all[i], all[j], now);
    if j < before.len() {
        names_are_not_repeated(front, timeframes, now, i, j);
    } else if i < before.len() {
        lemma_assets(front, timeframes, now, i);
        lemma_timeframes(last, timeframes, now, j - before.len());
        let k = choose|k: int| 0 <= k < front.len() && front[k] == before[i].asset;
        assert(assets[k] == assets[assets.len() - 1]);
        assert(false);
    } else {
        lemma_names_of_asset(last, timeframes, now, i - before.len(), j - before.len());
    }
}

/// Windows that are offered start soon.
proof fn lemma_start(now: int, interval: int, i: int)
    requires
        0 <= now,
        0 < interval <= 3600,
        0 <= i,
        i <= 3,
    ensures
        -3600 <= aligned(now, interval) + (i - 1) * interval <= now + 7200,
{
    vstd::arithmetic::div_mod::lemma_fundamental_div_mod(now, interval);
    vstd::arithmetic::div_mod::lemma_mod_bound(now, interval);
    vstd::arithmetic::mul::lemma_mul_is_commutative(interval, now / interval);
    assert((now / interval) * interval >= 0 && -interval <= (i - 1) * interval <= 2 * interval)
        by (nonlinear_arith)
        requires
            now >= 0,
            interval > 0,
            0 <= i <= 3,
    ;
}

/// A market that is taken on is new, is not over, and is one that there is room for.
pub proof fn taken_market_is_new(
    gm: GammaMarket,
    known: Map<Seq<char>, MarketContextView>,
    max_tracked: usize,
    asset: Seq<char>,
    timeframe: Seq<char>,
    slug_start: Double,
    slug_end: Double,
    now: Double,
)
    ensures
        market_of(gm, known, max_tracked, asset, timeframe, slug_start, slug_end, now) matches Some(
            market,
        ) ==> {
            &&& !known.contains_key(market.condition_id)
            &&& known.dom().len() < max_tracked
            &&& !market.end_time.le(now)
            &&& market.state is Discovered
        },
{
}

} // verus!

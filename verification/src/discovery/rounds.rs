//! Rounds of discovery: each asks for the candidates one after the other, takes on the markets
//! that it finds, and rests.
//!
//! The rounds are run from outside. What happened is handed in as an event, and the result says
//! what to do; its last step is the one whose outcome is to be handed in next.

use vstd::prelude::*;

use super::gamma;
use super::gamma::{Candidate, CandidateView, GammaDiscovery, GammaEvent, GammaMarket};
use crate::config::DiscoveryConfig;
use crate::double::Double;
use crate::events::bus::{BotEvent, BotEventView};
use crate::store;
use crate::strategy::engine;
use crate::strategy::engine::{MarketContext, MarketContextView};
use crate::text;

verus! {

/// Milliseconds between two requests.
pub const BETWEEN_REQUESTS: u64 = 200;

/// How far a round has come.
#[derive(Clone, Copy, Debug, PartialEq, Eq, Structural)]
pub enum Stage {
    Resting,
    Fetching,
    Storing,
    Pausing,
}

/// What happened.
#[derive(Debug)]
pub enum LoopEvent {
    /// The rest between two rounds is over.
    Rested,
    /// The pause between two requests is over.
    Paused,
    /// The service answered with a list of events.
    Answered(Vec<GammaEvent>),
    /// The request failed.
    Failed(String),
    /// The market was stored under a number, or could not be stored.
    Stored(Option<i64>),
}

/// What to do.
#[derive(Debug)]
pub enum LoopAction {
    /// Ask for an event by its name.
    Fetch { slug: String },
    /// Store a market.
    Store(MarketContext),
    /// Tell all listeners.
    Publish(BotEvent),
    /// Subscribe to the order books of a market, and have the feed reconnect.
    Subscribe { yes_token_id: String, no_token_id: String },
    /// Start the cycles of a market.
    Run(MarketContext),
    /// Tell the risk manager how many markets are active.
    SetActiveMarkets(usize),
    /// Wait before the next request.
    Pause { millis: u64 },
    /// Wait before the next round.
    Rest { millis: u64 },
    /// Give up: the service names fewer tokens than outcomes.
    GiveUp,
    /// Nothing: the event does not belong to the stage.
    Nothing,
}

/// What a step says.
pub enum LoopActionView {
    Fetch { slug: Seq<char> },
    Store(MarketContextView),
    Publish(BotEventView),
    Subscribe { yes_token_id: Seq<char>, no_token_id: Seq<char> },
    Run(MarketContextView),
    SetActiveMarkets(int),
    Pause { millis: u64 },
    Rest { millis: u64 },
    GiveUp,
    Nothing,
}

impl View for LoopAction {
    type V = LoopActionView;

    open spec fn view(&self) -> LoopActionView {
        match self {
            LoopAction::Fetch { slug } => LoopActionView::Fetch { slug: slug@ },
            LoopAction::Store(market) => LoopActionView::Store(market@),
            LoopAction::Publish(event) => LoopActionView::Publish(event@),
            LoopAction::Subscribe { yes_token_id, no_token_id } => LoopActionView::Subscribe {
                yes_token_id: yes_token_id@,
                no_token_id: no_token_id@,
            },
            LoopAction::Run(market) => LoopActionView::Run(market@),
            LoopAction::SetActiveMarkets(n) => LoopActionView::SetActiveMarkets(*n as int),
            LoopAction::Pause { millis } => LoopActionView::Pause { millis: *millis },
            LoopAction::Rest { millis } => LoopActionView::Rest { millis: *millis },
            LoopAction::GiveUp => LoopActionView::GiveUp,
            LoopAction::Nothing => LoopActionView::Nothing,
        }
    }
}

/// What a list of steps says.
pub open spec fn action_views(s: Seq<LoopAction>) -> Seq<LoopActionView> {
    s.map_values(|a: LoopAction| a@)
}

/// Whether a market of the window of a candidate is known.
pub open spec fn has_window(known: Map<Seq<char>, MarketContextView>, c: CandidateView) -> bool {
    exists|k: Seq<char>| #[trigger]
        known.contains_key(k) && in_window(known[k], c)
}

/// Whether a market is of the window of a candidate.
pub open spec fn in_window(market: MarketContextView, c: CandidateView) -> bool {
    &&& market.asset == c.asset
    &&& market.timeframe == c.timeframe
    &&& market.start_time.minus(c.start_epoch).abs().lt(Double::ratio(1, 1))
}

/// The next candidate to ask for: one whose window is not over, and of which no market is
/// known.
pub open spec fn next_candidate(
    candidates: Seq<CandidateView>,
    at: int,
    known: Map<Seq<char>, MarketContextView>,
    now: Double,
) -> Option<int>
    decreases candidates.len() - at,
{
    if at < 0 || at >= candidates.len() {
        None
    } else if candidates[at].end_epoch.le(now) || has_window(known, candidates[at]) {
        next_candidate(candidates, at + 1, known, now)
    } else {
        Some(at)
    }
}

/// Whether a market is over.
pub open spec fn is_over(market: MarketContextView, now: Double) -> bool {
    engine::time_left(market.end_time, now).le(Double::ratio(0, 1))
}

/// The markets that are not over.
pub open spec fn unexpired(known: Map<Seq<char>, MarketContextView>, now: Double) -> Map<
    Seq<char>,
    MarketContextView,
> {
    known.restrict(Set::new(|k: Seq<char>| !is_over(known[k], now)))
}

/// Whether looking at a market has to be given up.
pub open spec fn is_malformed(
    gm: GammaMarket,
    known: Map<Seq<char>, MarketContextView>,
    max: usize,
) -> bool {
    gamma::is_eligible(gm, known, max) && !gamma::is_consistent(gm)
}

/// What a market of the service comes to, found under a candidate.
pub open spec fn found_market(
    gm: GammaMarket,
    known: Map<Seq<char>, MarketContextView>,
    max: usize,
    c: CandidateView,
    now: Double,
) -> Option<MarketContextView> {
    gamma::market_of(gm, known, max, c.asset, c.timeframe, c.start_epoch, c.end_epoch, now)
}

/// The next market that is taken on, or at which to give up.
pub open spec fn next_found(
    markets: Seq<GammaMarket>,
    from: int,
    known: Map<Seq<char>, MarketContextView>,
    max: usize,
    c: CandidateView,
    now: Double,
) -> Option<int>
    decreases markets.len() - from,
{
    if from < 0 || from >= markets.len() {
        None
    } else if is_malformed(markets[from], known, max) || found_market(
        markets[from],
        known,
        max,
        c,
        now,
    ) is Some {
        Some(from)
    } else {
        next_found(markets, from + 1, known, max, c, now)
    }
}

/// The delay after a round in which the service refused: five seconds more each time, up to
/// half a minute.
pub open spec fn longer(backoff_ms: u64) -> u64 {
    if backoff_ms + 5000 < 30000 {
        (backoff_ms + 5000) as u64
    } else {
        30000
    }
}

/// State of the rounds.
pub struct RoundView {
    pub known: Map<Seq<char>, MarketContextView>,
    pub candidates: Seq<CandidateView>,
    pub at: int,
    pub markets: Seq<GammaMarket>,
    pub next_market: int,
    pub pending: Option<MarketContextView>,
    pub backoff_ms: u64,
    pub rate_limited: bool,
    pub stage: Stage,
}

impl RoundView {
    /// The end of a round: markets that are over are forgotten.
    pub open spec fn finish(self, config: DiscoveryConfig, now: Double) -> (
        RoundView,
        Seq<LoopActionView>,
    ) {
        let backoff_ms = if self.rate_limited {
            longer(self.backoff_ms)
        } else {
            self.backoff_ms
        };
        (
            RoundView {
                known: unexpired(self.known, now),
                backoff_ms,
                stage: Stage::Resting,
                ..self
            },
            seq![
                LoopActionView::SetActiveMarkets(self.known.dom().len() as int),
                LoopActionView::Rest {
                    millis: if self.rate_limited {
                        backoff_ms
                    } else {
                        config.poll_interval_ms
                    },
                },
            ],
        )
    }

    /// On to the next candidate, if there is room for a market and one is left.
    pub open spec fn scan(self, config: DiscoveryConfig, now: Double) -> (
        RoundView,
        Seq<LoopActionView>,
    ) {
        let next = if self.known.dom().len() >= config.max_tracked_markets {
            None
        } else {
            next_candidate(self.candidates, self.at, self.known, now)
        };
        match next {
            Some(i) => (
                RoundView { at: i, stage: Stage::Fetching, ..self },
                seq![LoopActionView::Fetch { slug: self.candidates[i].slug }],
            ),
            None => self.finish(config, now),
        }
    }

    /// A pause before the next candidate.
    pub open spec fn pause(self) -> (RoundView, Seq<LoopActionView>) {
        (
            RoundView { stage: Stage::Pausing, ..self },
            seq![LoopActionView::Pause { millis: BETWEEN_REQUESTS }],
        )
    }

    /// On to the next market of an event.
    pub open spec fn look(self, config: DiscoveryConfig, now: Double) -> (
        RoundView,
        Seq<LoopActionView>,
    ) {
        let c = self.candidates[self.at];
        let max = config.max_tracked_markets;
        match next_found(self.markets, self.next_market, self.known, max, c, now) {
            None => self.pause(),
            Some(i) => if is_malformed(self.markets[i], self.known, max) {
                (
                    RoundView { next_market: i + 1, stage: Stage::Resting, ..self },
                    seq![LoopActionView::GiveUp],
                )
            } else {
                let market = found_market(self.markets[i], self.known, max, c, now)->0;
                (
                    RoundView {
                        next_market: i + 1,
                        pending: Some(market),
                        stage: Stage::Storing,
                        ..self
                    },
                    seq![LoopActionView::Store(market)],
                )
            },
        }
    }

    /// A market is taken on, under its number in the database; then on to the next.
    pub open spec fn adopt(self, id: Option<i64>, config: DiscoveryConfig, now: Double) -> (
        RoundView,
        Seq<LoopActionView>,
    ) {
        let market = MarketContextView {
            db_market_id: if id is Some {
                id
            } else {
                self.pending->0.db_market_id
            },
            ..self.pending->0
        };
        let after = RoundView {
            known: self.known.insert(market.condition_id, market),
            pending: None,
            ..self
        }.look(config, now);
        (
            after.0,
            seq![
                LoopActionView::Publish(
                    BotEventView::MarketDiscovered {
                        condition_id: market.condition_id,
                        asset: market.asset,
                        timeframe: market.timeframe,
                    },
                ),
                LoopActionView::Subscribe {
                    yes_token_id: market.yes_token_id,
                    no_token_id: market.no_token_id,
                },
                LoopActionView::Run(market),
            ] + after.1,
        )
    }

    /// The state after an event, and what to do.
    pub open spec fn next(self, event: LoopEvent, config: DiscoveryConfig, now: Double) -> (
        RoundView,
        Seq<LoopActionView>,
    ) {
        match (self.stage, event) {
            (Stage::Resting, LoopEvent::Rested) => RoundView {
                candidates: gamma::all_candidates(
                    text::texts(config.allowed_assets@),
                    text::texts(config.allowed_timeframes@),
                    now.to_int() as int,
                ),
                at: 0,
                rate_limited: false,
                ..self
            }.scan(config, now),
            (Stage::Pausing, LoopEvent::Paused) => RoundView { at: self.at + 1, ..self }.scan(
                config,
                now,
            ),
            (Stage::Fetching, LoopEvent::Answered(events)) => if events@.len() == 0 {
                self.pause()
            } else {
                RoundView {
                    backoff_ms: 0,
                    markets: match events@[0].markets {
                        Some(m) => m@,
                        None => Seq::empty(),
                    },
                    next_market: 0,
                    ..self
                }.look(config, now)
            },
            (Stage::Fetching, LoopEvent::Failed(error)) => if text::occurs(error@, "429"@) {
                RoundView { rate_limited: true, ..self }.finish(config, now)
            } else {
                self.pause()
            },
            (Stage::Storing, LoopEvent::Stored(id)) => self.adopt(id, config, now),
            _ => (self, seq![LoopActionView::Nothing]),
        }
    }

    /// No more markets are known than may be, each under its own name; a market that is about
    /// to be taken on is new and there is room for it.
    pub open spec fn wf(self, max: usize) -> bool {
        &&& self.known.dom().finite()
        &&& self.known.dom().len() <= max
        &&& forall|k: Seq<char>| #[trigger]
            self.known.contains_key(k) ==> self.known[k].condition_id == k
        &&& self.backoff_ms <= 30000
        &&& 0 <= self.next_market <= self.markets.len()
        &&& !(self.stage is Resting) ==> 0 <= self.at < self.candidates.len()
        &&& self.stage is Storing ==> {
            &&& self.pending is Some
            &&& self.known.dom().len() < max
            &&& !self.known.contains_key(self.pending->0.condition_id)
        }
    }
}

/// Rounds of discovery.
pub struct DiscoveryLoop {
    pub discovery: GammaDiscovery,
    pub candidates: Vec<Candidate>,
    pub at: usize,
    pub markets: Vec<GammaMarket>,
    pub next_market: usize,
    pub pending: Option<MarketContext>,
    pub backoff_ms: u64,
    pub rate_limited: bool,
    pub stage: Stage,
}

impl View for DiscoveryLoop {
    type V = RoundView;

    open spec fn view(&self) -> RoundView {
        RoundView {
            known: self.discovery.contents(),
            candidates: gamma::candidate_views(self.candidates@),
            at: self.at as int,
            markets: self.markets@,
            next_market: self.next_market as int,
            pending: gamma::context_view(self.pending),
            backoff_ms: self.backoff_ms,
            rate_limited: self.rate_limited,
            stage: self.stage,
        }
    }
}

impl GammaDiscovery {
    /// Whether a market of the window of a candidate is known.
    pub fn knows_window(&self, c: &Candidate) -> (r: bool)
        ensures
            r == has_window(self.contents(), c@),
    {
        let listed: Vec<(String, MarketContext)> = store::list_markets(&self.known);
        let ghost e: Seq<(Seq<char>, MarketContextView)> = store::market_views(listed@);
        assert(store::lists(e, self.contents()));
        let one: Double = Double::ratio(1, 1);
        let mut i: usize = 0;
        while i < listed.len()
            invariant
                i <= listed@.len(),
                e == store::market_views(listed@),
                store::lists(e, self.contents()),
                one == Double::ratio(1, 1),
                forall|j: int| 0 <= j < i ==> !in_window((#[trigger] e[j]).1, c@),
            decreases listed@.len() - i,
        {
            assert(e[i as int] == (listed@[i as int].0@, listed@[i as int].1@));
            let market: &MarketContext = &listed[i].1;
            if text::same(market.asset.as_str(), c.asset.as_str()) && text::same(
                market.timeframe.as_str(),
                c.timeframe.as_str(),
            ) && market.start_time.minus(c.start_epoch).abs().lt(one) {
                assert(self.contents().contains_key(e[i as int].0));
                return true;
            }
            i = i + 1;
        }
        proof {
            if has_window(self.contents(), c@) {
                let k = choose|k: Seq<char>| #[trigger]
                    self.contents().contains_key(k) && in_window(self.contents()[k], c@);
                let j = choose|j: int| 0 <= j < e.len() && (#[trigger] e[j]).0 == k;
                assert(!in_window(e[j].1, c@));
            }
        }
        false
    }

    /// Forgets the markets that are over.
    pub fn forget_expired(&mut self, now: Double)
        ensures
            final(self).contents() == unexpired(old(self).contents(), now),
            final(self).config == old(self).config,
            final(self).gamma_url == old(self).gamma_url,
    {
        let listed: Vec<(String, MarketContext)> = store::list_markets(&self.known);
        let ghost e: Seq<(Seq<char>, MarketContextView)> = store::market_views(listed@);
        let ghost was: Map<Seq<char>, MarketContextView> = self.contents();
        assert(store::lists(e, was));
        let zero: Double = Double::ratio(0, 1);
        let mut i: usize = 0;
        while i < listed.len()
            invariant
                i <= listed@.len(),
                e == store::market_views(listed@),
                store::lists(e, was),
                was == old(self).contents(),
                zero == Double::ratio(0, 1),
                self.config == old(self).config,
                self.gamma_url == old(self).gamma_url,
                forall|k: Seq<char>|
                    #[trigger] self.contents().contains_key(k) <==> was.contains_key(k) && !(
                    is_over(was[k], now) && exists|j: int| 0 <= j < i && (#[trigger] e[j]).0 == k),
                forall|k: Seq<char>| #[trigger]
                    self.contents().contains_key(k) ==> self.contents()[k] == was[k],
            decreases listed@.len() - i,
        {
            let ghost held: Map<Seq<char>, MarketContextView> = self.contents();
            let ghost key: Seq<char> = e[i as int].0;
            assert(e[i as int] == (listed@[i as int].0@, listed@[i as int].1@));
            assert(was.contains_key(key) && was[key] == listed@[i as int].1@);
            if listed[i].1.seconds_until_close(now).le(zero) {
                store::remove_market(&mut self.known, listed[i].0.as_str());
            }
            proof {
                assert forall|k: Seq<char>| #[trigger]
                    self.contents().contains_key(k) <==> was.contains_key(k)
                    && !(is_over(was[k], now) && exists|j: int|
                    0 <= j < i + 1 && (#[trigger] e[j]).0 == k) by {
                    assert(held.contains_key(k) <==> was.contains_key(k) && !(is_over(
                        was[k],
                        now,
                    ) && exists|j: int| 0 <= j < i && (#[trigger] e[j]).0 == k));
                    if k == key {
                        assert(e[i as int].0 == k);
                    }
                    if exists|j: int| 0 <= j < i && (#[trigger] e[j]).0 == k {
                        let j = choose|j: int| 0 <= j < i && (#[trigger] e[j]).0 == k;
                        assert(0 <= j < i + 1 && e[j].0 == k);
                    }
                }
                assert forall|k: Seq<char>| #[trigger]
                    self.contents().contains_key(k) implies self.contents()[k]
                    == was[k] by {
                    assert(held.contains_key(k));
                }
            }
            i = i + 1;
        }
        proof {
            let left = unexpired(was, now);
            assert forall|k: Seq<char>| #[trigger]
                self.contents().contains_key(k) <==> left.contains_key(k) by {
                assert(left.contains_key(k) <==> was.contains_key(k) && !is_over(was[k], now));
                if was.contains_key(k) {
                    let j = choose|j: int| 0 <= j < e.len() && (#[trigger] e[j]).0 == k;
                    assert(0 <= j < i && e[j].0 == k);
                }
            }
            assert(self.contents() =~= left);
        }
    }

    /// Forgets a market.
    pub fn forget(&mut self, condition_id: &str)
        ensures
            final(self).contents() == old(self).contents().remove(condition_id@),
            final(self).config == old(self).config,
            final(self).gamma_url == old(self).gamma_url,
    {
        store::remove_market(&mut self.known, condition_id);
    }
}

proof fn lemma_unexpired(known: Map<Seq<char>, MarketContextView>, now: Double)
    requires
        known.dom().finite(),
    ensures
        unexpired(known, now).dom().finite(),
        unexpired(known, now).dom().len() <= known.dom().len(),
{
    vstd::set_lib::lemma_len_subset(unexpired(known, now).dom(), known.dom());
}

impl DiscoveryLoop {
    pub open spec fn wf(&self) -> bool {
        self@.wf(self.discovery.config.max_tracked_markets)
    }

    pub fn new(discovery: GammaDiscovery) -> (r: Self)
        requires
            discovery.contents() == Map::<Seq<char>, MarketContextView>::empty(),
        ensures
            r.discovery == discovery,
            r@ == (RoundView {
                known: Map::empty(),
                candidates: Seq::empty(),
                at: 0,
                markets: Seq::empty(),
                next_market: 0,
                pending: None,
                backoff_ms: 0,
                rate_limited: false,
                stage: Stage::Resting,
            }),
            r.wf(),
    {
        let candidates: Vec<Candidate> = Vec::new();
        let markets: Vec<GammaMarket> = Vec::new();
        assert(gamma::candidate_views(candidates@) =~= Seq::<CandidateView>::empty());
        assert(markets@ =~= Seq::<GammaMarket>::empty());
        DiscoveryLoop {
            discovery,
            candidates,
            at: 0,
            markets,
            next_market: 0,
            pending: None,
            backoff_ms: 0,
            rate_limited: false,
            stage: Stage::Resting,
        }
    }

    fn finish(&mut self, now: Double) -> (r: Vec<LoopAction>)
        requires
            old(self).discovery.contents().dom().finite(),
            old(self).discovery.contents().dom().len()
                <= old(self).discovery.config.max_tracked_markets,
            forall|k: Seq<char>| #[trigger]
                old(self).discovery.contents().contains_key(k)
                    ==> old(self).discovery.contents()[k].condition_id == k,
            old(self).backoff_ms <= 30000,
            old(self).next_market <= old(self).markets@.len(),
        ensures
            (final(self)@, action_views(r@)) == old(self)@.finish(
                old(self).discovery.config,
                now,
            ),
            final(self).discovery.config == old(self).discovery.config,
            final(self).discovery.gamma_url == old(self).discovery.gamma_url,
            final(self).wf(),
    {
        let mut out: Vec<LoopAction> = Vec::new();
        out.push(LoopAction::SetActiveMarkets(store::count_markets(&self.discovery.known)));
        proof {
            lemma_unexpired(self.discovery.contents(), now);
        }
        self.discovery.forget_expired(now);
        let millis: u64 = if self.rate_limited {
            let more: u64 = self.backoff_ms + 5000;
            self.backoff_ms = if more < 30000 { more } else { 30000 };
            self.backoff_ms
        } else {
            self.discovery.config.poll_interval_ms
        };
        out.push(LoopAction::Rest { millis });
        self.stage = Stage::Resting;
        proof {
            assert forall|k: Seq<char>| #[trigger]
                self.discovery.contents().contains_key(k)
                    implies self.discovery.contents()[k].condition_id
                == k by {
                assert(old(self).discovery.contents().contains_key(k));
            }
        }
        assert(action_views(out@) =~= old(self)@.finish(old(self).discovery.config, now).1);
        out
    }

    fn scan(&mut self, now: Double) -> (r: Vec<LoopAction>)
        requires
            old(self).discovery.contents().dom().finite(),
            old(self).discovery.contents().dom().len()
                <= old(self).discovery.config.max_tracked_markets,
            forall|k: Seq<char>| #[trigger]
                old(self).discovery.contents().contains_key(k)
                    ==> old(self).discovery.contents()[k].condition_id == k,
            old(self).backoff_ms <= 30000,
            old(self).next_market <= old(self).markets@.len(),
        ensures
            (final(self)@, action_views(r@)) == old(self)@.scan(old(self).discovery.config, now),
            final(self).discovery.config == old(self).discovery.config,
            final(self).discovery.gamma_url == old(self).discovery.gamma_url,
            final(self).wf(),
    {
        if store::count_markets(&self.discovery.known)
            >= self.discovery.config.max_tracked_markets {
            return self.finish(now);
        }
        let ghost all: Seq<CandidateView> = gamma::candidate_views(self.candidates@);
        let ghost known: Map<Seq<char>, MarketContextView> = self.discovery.contents();
        let mut i: usize = self.at;
        while i < self.candidates.len()
            invariant
                *self == *old(self),
                all == gamma::candidate_views(self.candidates@),
                known == self.discovery.contents(),
                known.dom().finite(),
                known.dom().len() < self.discovery.config.max_tracked_markets,
                forall|k: Seq<char>| #[trigger]
                    known.contains_key(k) ==> known[k].condition_id == k,
                self.backoff_ms <= 30000,
                self.next_market <= self.markets@.len(),
                next_candidate(all, self.at as int, known, now) == next_candidate(
                    all,
                    i as int,
                    known,
                    now,
                ),
            decreases self.candidates@.len() - i,
        {
            assert(all[i as int] == self.candidates@[i as int]@);
            if !self.candidates[i].end_epoch.le(now) && !self.discovery.knows_window(
                &self.candidates[i],
            ) {
                let mut out: Vec<LoopAction> = Vec::new();
                out.push(LoopAction::Fetch { slug: self.candidates[i].slug.clone() });
                self.at = i;
                self.stage = Stage::Fetching;
                assert(action_views(out@) =~= seq![
                    LoopActionView::Fetch { slug: all[i as int].slug },
                ]);
                return out;
            }
            i = i + 1;
        }
        self.finish(now)
    }

    fn pause(&mut self) -> (r: Vec<LoopAction>)
        requires
            old(self).wf(),
            !(old(self).stage is Resting),
        ensures
            (final(self)@, action_views(r@)) == old(self)@.pause(),
            final(self).discovery == old(self).discovery,
            final(self).wf(),
    {
        let mut out: Vec<LoopAction> = Vec::new();
        out.push(LoopAction::Pause { millis: BETWEEN_REQUESTS });
        self.stage = Stage::Pausing;
        assert(action_views(out@) =~= seq![LoopActionView::Pause { millis: BETWEEN_REQUESTS }]);
        out
    }

    fn look(&mut self, now: Double) -> (r: Vec<LoopAction>)
        requires
            old(self).discovery.contents().dom().finite(),
            old(self).discovery.contents().dom().len()
                <= old(self).discovery.config.max_tracked_markets,
            forall|k: Seq<char>| #[trigger]
                old(self).discovery.contents().contains_key(k)
                    ==> old(self).discovery.contents()[k].condition_id == k,
            old(self).backoff_ms <= 30000,
            old(self).next_market <= old(self).markets@.len(),
            old(self).at < old(self).candidates@.len(),
        ensures
            (final(self)@, action_views(r@)) == old(self)@.look(old(self).discovery.config, now),
            final(self).discovery == old(self).discovery,
            final(self).wf(),
    {
        let ghost all: Seq<CandidateView> = gamma::candidate_views(self.candidates@);
        let ghost known: Map<Seq<char>, MarketContextView> = self.discovery.contents();
        let ghost max: usize = self.discovery.config.max_tracked_markets;
        let ghost c: CandidateView = all[self.at as int];
        let mut out: Vec<LoopAction> = Vec::new();
        let mut i: usize = self.next_market;
        while i < self.markets.len()
            invariant
                *self == *old(self),
                self.next_market <= i <= self.markets@.len(),
                self.at < self.candidates@.len(),
                all == gamma::candidate_views(self.candidates@),
                c == all[self.at as int],
                known == self.discovery.contents(),
                max == self.discovery.config.max_tracked_markets,
                out@.len() == 0,
                known.dom().finite(),
                known.dom().len() <= max,
                forall|k: Seq<char>| #[trigger]
                    known.contains_key(k) ==> known[k].condition_id == k,
                self.backoff_ms <= 30000,
                next_found(self.markets@, self.next_market as int, known, max, c, now)
                    == next_found(self.markets@, i as int, known, max, c, now),
            decreases self.markets@.len() - i,
        {
            let candidate: &Candidate = &self.candidates[self.at];
            assert(c == candidate@);
            match self.discovery.try_process_market(
                &self.markets[i],
                candidate.asset.as_str(),
                candidate.timeframe.as_str(),
                candidate.start_epoch,
                candidate.end_epoch,
                now,
            ) {
                Err(_) => {
                    self.next_market = i + 1;
                    self.stage = Stage::Resting;
                    out.push(LoopAction::GiveUp);
                    assert(action_views(out@) =~= seq![LoopActionView::GiveUp]);
                    return out;
                },
                Ok(Some(market)) => {
                    self.next_market = i + 1;
                    self.stage = Stage::Storing;
                    out.push(LoopAction::Store(market.clone()));
                    assert(action_views(out@) =~= seq![LoopActionView::Store(market@)]);
                    self.pending = Some(market);
                    return out;
                },
                Ok(None) => {},
            }
            i = i + 1;
        }
        self.stage = Stage::Pausing;
        out.push(LoopAction::Pause { millis: BETWEEN_REQUESTS });
        assert(action_views(out@) =~= seq![LoopActionView::Pause { millis: BETWEEN_REQUESTS }]);
        out
    }

    fn adopt(&mut self, id: Option<i64>, now: Double) -> (r: Vec<LoopAction>)
        requires
            old(self).wf(),
            old(self).stage is Storing,
        ensures
            (final(self)@, action_views(r@)) == old(self)@.adopt(
                id,
                old(self).discovery.config,
                now,
            ),
            final(self).discovery.config == old(self).discovery.config,
            final(self).discovery.gamma_url == old(self).discovery.gamma_url,
            final(self).wf(),
    {
        let mut out: Vec<LoopAction> = Vec::new();
        let mut market: MarketContext = match &self.pending {
            Some(m) => m.clone(),
            None => return out,
        };
        match id {
            Some(n) => {
                market.db_market_id = Some(n);
            },
            None => {},
        }
        out.push(
            LoopAction::Publish(
                BotEvent::MarketDiscovered {
                    condition_id: market.condition_id.clone(),
                    asset: market.asset.clone(),
                    timeframe: market.timeframe.clone(),
                },
            ),
        );
        out.push(
            LoopAction::Subscribe {
                yes_token_id: market.yes_token_id.clone(),
                no_token_id: market.no_token_id.clone(),
            },
        );
        out.push(LoopAction::Run(market.clone()));
        let ghost first: Seq<LoopAction> = out@;
        let ghost key: Seq<char> = market@.condition_id;
        let ghost taken: MarketContextView = market@;
        let ghost was: Map<Seq<char>, MarketContextView> = self.discovery.contents();
        store::insert_market(&mut self.discovery.known, market.condition_id.clone(), market);
        self.pending = None;
        proof {
            assert forall|k: Seq<char>| #[trigger]
                self.discovery.contents().contains_key(k)
                    implies self.discovery.contents()[k].condition_id
                == k by {
                if k != key {
                    assert(was.contains_key(k));
                }
            }
        }
        let mut more: Vec<LoopAction> = self.look(now);
        let ghost added: Seq<LoopAction> = more@;
        out.append(&mut more);
        proof {
            assert(out@ =~= first + added);
            assert(action_views(out@) =~= action_views(first) + action_views(added));
            assert(action_views(first) =~= seq![
                LoopActionView::Publish(
                    BotEventView::MarketDiscovered {
                        condition_id: taken.condition_id,
                        asset: taken.asset,
                        timeframe: taken.timeframe,
                    },
                ),
                LoopActionView::Subscribe {
                    yes_token_id: taken.yes_token_id,
                    no_token_id: taken.no_token_id,
                },
                LoopActionView::Run(taken),
            ]);
        }
        out
    }

    /// Takes note of what happened, and says what to do.
    pub fn advance(&mut self, event: LoopEvent, now: Double) -> (r: Vec<LoopAction>)
        requires
            old(self).wf(),
            gamma::is_countable(now),
        ensures
            (final(self)@, action_views(r@)) == old(self)@.next(
                event,
                old(self).discovery.config,
                now,
            ),
            final(self).discovery.config == old(self).discovery.config,
            final(self).discovery.gamma_url == old(self).discovery.gamma_url,
            final(self).wf(),
    {
        match (self.stage, event) {
            (Stage::Resting, LoopEvent::Rested) => {
                self.candidates = self.discovery.candidate_slugs(now);
                self.at = 0;
                self.rate_limited = false;
                self.scan(now)
            },
            (Stage::Pausing, LoopEvent::Paused) => {
                assert(self.at < self.candidates.len());
                self.at = self.at + 1;
                self.scan(now)
            },
            (Stage::Fetching, LoopEvent::Answered(found)) => {
                let mut events: Vec<GammaEvent> = found;
                if events.len() == 0 {
                    return self.pause();
                }
                let event: GammaEvent = events.remove(0);
                self.backoff_ms = 0;
                self.markets = match event.markets {
                    Some(markets) => markets,
                    None => Vec::new(),
                };
                self.next_market = 0;
                self.look(now)
            },
            (Stage::Fetching, LoopEvent::Failed(error)) => {
                if text::contains(error.as_str(), "429") {
                    self.rate_limited = true;
                    return self.finish(now);
                }
                self.pause()
            },
            (Stage::Storing, LoopEvent::Stored(id)) => self.adopt(id, now),
            _ => {
                let mut out: Vec<LoopAction> = Vec::new();
                out.push(LoopAction::Nothing);
                assert(action_views(out@) =~= seq![LoopActionView::Nothing]);
                out
            },
        }
    }

    /// Takes note of what has become of a market, if it is tracked.
    pub fn market_changed(&mut self, market: &MarketContext)
        requires
            old(self).wf(),
        ensures
            final(self)@ == (RoundView {
                known: if old(self)@.known.contains_key(market@.condition_id) {
                    old(self)@.known.insert(market@.condition_id, market@)
                } else {
                    old(self)@.known
                },
                ..old(self)@
            }),
            final(self).discovery.config == old(self).discovery.config,
            final(self).discovery.gamma_url == old(self).discovery.gamma_url,
            final(self).wf(),
    {
        let ghost was: Map<Seq<char>, MarketContextView> = self.discovery.contents();
        if store::has_market(&self.discovery.known, market.condition_id.as_str()) {
            store::insert_market(
                &mut self.discovery.known,
                market.condition_id.clone(),
                market.clone(),
            );
            proof {
                let key = market@.condition_id;
                assert(was.dom().insert(key) =~= was.dom());
                assert forall|k: Seq<char>| #[trigger]
                    self.discovery.contents().contains_key(k)
                        implies self.discovery.contents()[k].condition_id
                    == k by {
                    assert(was.contains_key(k));
                }
            }
        }
    }

    /// Takes note that the cycles of a market have ended.
    pub fn market_ended(&mut self, condition_id: &str)
        requires
            old(self).wf(),
        ensures
            final(self)@ == (RoundView {
                known: old(self)@.known.remove(condition_id@),
                ..old(self)@
            }),
            final(self).discovery.config == old(self).discovery.config,
            final(self).discovery.gamma_url == old(self).discovery.gamma_url,
            final(self).wf(),
    {
        let ghost was: Map<Seq<char>, MarketContextView> = self.discovery.contents();
        self.discovery.forget(condition_id);
        proof {
            vstd::set_lib::lemma_len_subset(self.discovery.contents().dom(), was.dom());
            assert forall|k: Seq<char>| #[trigger]
                self.discovery.contents().contains_key(k)
                    implies self.discovery.contents()[k].condition_id
                == k by {
                assert(was.contains_key(k));
            }
        }
    }
}

proof fn lemma_next_candidate(
    candidates: Seq<CandidateView>,
    at: int,
    known: Map<Seq<char>, MarketContextView>,
    now: Double,
)
    ensures
        next_candidate(candidates, at, known, now) matches Some(i) ==> at <= i < candidates.len()
            && !candidates[i].end_epoch.le(now) && !has_window(known, candidates[i]),
    decreases candidates.len() - at,
{
    if 0 <= at < candidates.len() && (candidates[at].end_epoch.le(now) || has_window(
        known,
        candidates[at],
    )) {
        lemma_next_candidate(candidates, at + 1, known, now);
    }
}

/// A market is asked for only where there is room for one more, its window is not over, and no
/// market of that window is known; and candidates are asked for in order.
pub proof fn asks_are_needed(round: RoundView, config: DiscoveryConfig, now: Double)
    requires
        round.scan(config, now).0.stage is Fetching,
        !(round.stage is Fetching),
    ensures
        round.known.dom().len() < config.max_tracked_markets,
        ({
            let after = round.scan(config, now).0;
            let c = round.candidates[after.at];
            &&& round.at <= after.at < round.candidates.len()
            &&& !c.end_epoch.le(now)
            &&& !has_window(round.known, c)
            &&& round.scan(config, now).1 == seq![LoopActionView::Fetch { slug: c.slug }]
        }),
{
    lemma_next_candidate(round.candidates, round.at, round.known, now);
}

/// A refusal ends the round at once, and the rest after it is longer than the one before, up to
/// half a minute.
pub proof fn refusal_ends_round(
    round: RoundView,
    error: String,
    config: DiscoveryConfig,
    now: Double,
)
    requires
        round.stage is Fetching,
        round.backoff_ms <= 30000,
        text::occurs(error@, "429"@),
    ensures
        ({
            let (after, actions) = round.next(LoopEvent::Failed(error), config, now);
            &&& after.stage is Resting
            &&& actions.last() == (LoopActionView::Rest { millis: after.backoff_ms })
            &&& 5000 <= after.backoff_ms <= 30000
            &&& after.backoff_ms > round.backoff_ms || after.backoff_ms == 30000
        }),
{
}

/// The wait after so many rounds in a row that were refused, in milliseconds.
pub open spec fn wait_after(refusals: nat) -> nat {
    if 5000 * refusals < 30000 {
        5000 * refusals
    } else {
        30000
    }
}

/// The state after rounds that were each refused at their first request; `times` says when.
pub open spec fn refused(
    round: RoundView,
    error: String,
    config: DiscoveryConfig,
    times: Seq<Double>,
) -> RoundView
    decreases times.len(),
{
    if times.len() == 0 {
        round
    } else {
        let now = times.last();
        refused(round, error, config, times.drop_last()).next(
            LoopEvent::Rested,
            config,
            now,
        ).0.next(LoopEvent::Failed(error), config, now).0
    }
}

/// After every refused round in a row the wait is five seconds longer, up to half a minute.
pub proof fn refusals_add_up(
    round: RoundView,
    error: String,
    config: DiscoveryConfig,
    times: Seq<Double>,
)
    requires
        round.stage is Resting,
        round.backoff_ms == 0,
        text::occurs(error@, "429"@),
        forall|i: int|
            0 <= i < times.len() ==> refused(round, error, config, #[trigger] times.take(i)).next(
                LoopEvent::Rested,
                config,
                times[i],
            ).0.stage is Fetching,
    ensures
        refused(round, error, config, times).stage is Resting,
        refused(round, error, config, times).backoff_ms == wait_after(times.len()),
    decreases times.len(),
{
    if times.len() > 0 {
        let front = times.drop_last();
        let last = times.len() - 1;
        assert(times.take(last) =~= front);
        assert forall|i: int| 0 <= i < front.len() implies refused(
            round,
            error,
            config,
            #[trigger] front.take(i),
        ).next(LoopEvent::Rested, config, front[i]).0.stage is Fetching by {
            assert(front.take(i) =~= times.take(i));
        }
        refusals_add_up(round, error, config, front);
    }
}

/// No market that is over is known after a round.
pub proof fn round_forgets_expired(
    round: RoundView,
    config: DiscoveryConfig,
    now: Double,
    k: Seq<char>,
)
    ensures
        round.finish(config, now).0.known.contains_key(k) <==> round.known.contains_key(k)
            && !is_over(round.known[k], now),
{
}

} // verus!

use maker_bot::config::DiscoveryConfig;
use maker_bot::discovery::calendar::{eastern_hour, EasternHour};
use maker_bot::discovery::gamma::{
    choose_tokens, find_outcomes, parse_iso_to_epoch, parse_json_string_or_array, pick_tokens,
    reply_error, GammaDiscovery, GammaEvent, GammaMarket, GammaToken, JsonField, JsonItem,
};
use maker_bot::discovery::rounds::{DiscoveryLoop, LoopAction, LoopEvent, Stage};
use maker_bot::discovery::slugs::{interval_of, slug_at_hour, slug_for};
use maker_bot::double::Double;
use maker_bot::events::bus::BotEvent;
use maker_bot::strategy::engine::MarketState;

fn d(x: f64) -> Double {
    Double::from_bits(x.to_bits())
}

fn f(x: Double) -> f64 {
    f64::from_bits(x.to_bits())
}

fn names(v: &[&str]) -> Vec<String> {
    v.iter().map(|s| s.to_string()).collect()
}

fn discovery(assets: &[&str], frames: &[&str], max: usize) -> GammaDiscovery {
    GammaDiscovery::new(
        DiscoveryConfig {
            poll_interval_ms: 1500,
            allowed_assets: names(assets),
            allowed_timeframes: names(frames),
            max_tracked_markets: max,
        },
        "https://g".to_string(),
    )
}

#[test]
fn candidates_follow_from_the_time() {
    let g = discovery(&["btc", "sol", "eth"], &["15min", "1hr", "5min"], 3);
    assert_eq!(g.events_url(), "https://g/events");
    let c = g.candidate_slugs(d(1_700_000_123.9));
    let slugs: Vec<&str> = c.iter().map(|c| c.slug.as_str()).collect();
    assert_eq!(
        slugs,
        vec![
            "btc-updown-15m-1699999200",
            "btc-updown-15m-1700000100",
            "btc-updown-15m-1700001000",
            "bitcoin-up-or-down-november-14-4pm-et",
            "bitcoin-up-or-down-november-14-5pm-et",
            "bitcoin-up-or-down-november-14-6pm-et",
            "btc-updown-5m-1699999800",
            "btc-updown-5m-1700000100",
            "btc-updown-5m-1700000400",
            "btc-updown-5m-1700000700",
            "eth-updown-15m-1699999200",
            "eth-updown-15m-1700000100",
            "eth-updown-15m-1700001000",
            "ethereum-up-or-down-november-14-4pm-et",
            "ethereum-up-or-down-november-14-5pm-et",
            "ethereum-up-or-down-november-14-6pm-et",
            "eth-updown-5m-1699999800",
            "eth-updown-5m-1700000100",
            "eth-updown-5m-1700000400",
            "eth-updown-5m-1700000700",
        ]
    );
    assert_eq!((f(c[7].start_epoch), f(c[7].end_epoch)), (1_700_000_100.0, 1_700_000_400.0));
    assert_eq!((c[7].asset.as_str(), c[7].timeframe.as_str()), ("btc", "5min"));
    assert_eq!((f(c[4].start_epoch), f(c[4].end_epoch)), (1_699_999_200.0, 1_700_002_800.0));
    assert_eq!((c[4].asset.as_str(), c[4].timeframe.as_str()), ("btc", "1hr"));
    let early = discovery(&["btc"], &["5min"], 3).candidate_slugs(d(10.0));
    assert_eq!(early[0].slug, "btc-updown-5m--300");
    assert_eq!(f(early[0].end_epoch), 0.0);
}

#[test]
fn candidates_are_different_and_one_of_each_timeframe_is_open() {
    let frames = ["5min", "15min", "1hr"];
    let g = discovery(&["btc", "eth"], &frames, 3);
    for now in [0i64, 3599, 1_700_000_123, 1_731_772_800, 4_102_444_800] {
        let c = g.candidate_slugs(d(now as f64));
        assert_eq!(c.len(), 20);
        for (i, a) in c.iter().enumerate() {
            for b in &c[..i] {
                assert_ne!(a.slug, b.slug);
            }
        }
        for frame in frames {
            let open = |a: &str| {
                c.iter()
                    .filter(|c| c.asset == a && c.timeframe == frame)
                    .filter(|c| f(c.start_epoch) <= now as f64 && (now as f64) < f(c.end_epoch))
                    .count()
            };
            assert_eq!((open("btc"), open("eth")), (1, 1), "{frame} {now}");
        }
    }
}

fn at(t: i64) -> (i64, u8, u8, u8) {
    let e = eastern_hour(t);
    (e.year, e.month, e.day, e.hour)
}

#[test]
fn clocks_of_the_east_coast() {
    assert_eq!(at(0), (1969, 12, 31, 19));
    assert_eq!(at(-3600), (1969, 12, 31, 18));
    // Forward in March, at two, and back in November, at two.
    assert_eq!(at(1_741_503_599), (2025, 3, 9, 1));
    assert_eq!(at(1_741_503_600), (2025, 3, 9, 3));
    assert_eq!(at(1_762_063_199), (2025, 11, 2, 1));
    assert_eq!(at(1_762_063_200), (2025, 11, 2, 1));
    assert_eq!(at(1_762_066_800), (2025, 11, 2, 2));
    assert_eq!(at(1_709_251_199), (2024, 2, 29, 18));
    assert_eq!(at(1_735_707_599), (2024, 12, 31, 23));
    assert_eq!(at(1_735_707_600), (2025, 1, 1, 0));
    assert_eq!(at(4_107_542_400), (2100, 2, 28, 19));
    assert_eq!(at(4_107_560_400), (2100, 3, 1, 0));
}

#[test]
fn names_of_markets() {
    let name = |month: u8, day: u8, hour: u8| slug_at_hour("btc", EasternHour { year: 2025, month, day, hour });
    assert_eq!(name(1, 1, 0), "bitcoin-up-or-down-january-1-12am-et");
    assert_eq!(name(5, 31, 11), "bitcoin-up-or-down-may-31-11am-et");
    assert_eq!(name(7, 4, 12), "bitcoin-up-or-down-july-4-12pm-et");
    assert_eq!(name(12, 25, 23), "bitcoin-up-or-down-december-25-11pm-et");
    let months = [
        "january", "february", "march", "april", "may", "june", "july", "august", "september",
        "october", "november", "december",
    ];
    for (i, month) in months.iter().enumerate() {
        assert_eq!(name(i as u8 + 1, 9, 1), format!("bitcoin-up-or-down-{month}-9-1am-et"));
    }
    assert_eq!(slug_for("eth", "1hr", 1_750_000_000), "ethereum-up-or-down-june-15-11am-et");
    assert_eq!(slug_for("eth", "5min", 300), "eth-updown-5m-300");
    assert_eq!(slug_for("eth", "15min", -900), "eth-updown-15m--900");
    assert_eq!(["5min", "15min", "1hr", "4hr"].map(interval_of), [300, 900, 3600, 0]);
}

fn reference_slugs(now: i64) -> Vec<String> {
    let mut v = Vec::new();
    for (interval, ahead, infix) in [(300i64, 2, "5m"), (900, 1, "15m")] {
        let base = (now / interval) * interval;
        let mut start = base - interval;
        while start <= base + interval * ahead {
            v.push(format!("btc-updown-{infix}-{start}"));
            start += interval;
        }
    }
    v
}

#[test]
fn candidates_for_many_times() {
    let g = discovery(&["btc"], &["5min", "15min"], 3);
    for now in [0i64, 299, 300, 899, 900, 1_731_772_800, 1_999_999_999, 9_007_199_254_740_991] {
        let got: Vec<String> = g.candidate_slugs(d(now as f64)).into_iter().map(|c| c.slug).collect();
        assert_eq!(got, reference_slugs(now), "{now}");
    }
}

fn items(v: &[(&str, bool)]) -> JsonField {
    JsonField::Items(v.iter().map(|&(t, is_text)| JsonItem { is_text, text: t.to_string() }).collect())
}

#[test]
fn json_fields_are_arrays_or_texts_that_hold_one() {
    let read = |field: JsonField| parse_json_string_or_array(&field);
    assert_eq!(read(items(&[("Up", true), ("12", false), ("\"q\"", false)])), names(&["Up", "12", "q"]));
    assert_eq!(read(JsonField::Text("[\"Up\", \"Down\"]".to_string())), names(&["Up", "Down"]));
    assert_eq!(read(JsonField::Text("[1, null, \"x\", [\"y\"]]".to_string())), names(&["1", "null", "x", "[\"y\"]"]));
    assert!(read(JsonField::Text("Up, Down".to_string())).is_empty());
    assert!(read(JsonField::Text("{}".to_string())).is_empty());
    assert!(read(JsonField::Other).is_empty());
}

#[test]
fn dates_are_read() {
    assert_eq!(parse_iso_to_epoch("2024-01-02T03:04:05Z").map(f), Some(1_704_164_645.0));
    assert_eq!(parse_iso_to_epoch("2024-01-02T03:04:05.9Z").map(f), Some(1_704_164_645.0));
    assert_eq!(parse_iso_to_epoch("2024-01-02 04:04:05+01:00").map(f), Some(1_704_164_645.0));
    assert!(parse_iso_to_epoch("soon").is_none());
}

#[test]
fn outcomes_are_found() {
    assert_eq!(find_outcomes(&names(&["down", "up"])), (1, 0));
    assert_eq!(find_outcomes(&names(&["no", "yes"])), (1, 0));
    assert_eq!(find_outcomes(&names(&["up", "x", "yes", "no"])), (2, 3));
    assert_eq!(find_outcomes(&names(&["heads", "tails"])), (0, 1));
    assert_eq!(find_outcomes(&names(&["tails", "up"])), (0, 1));
    assert_eq!(
        choose_tokens(&names(&["down", "up"]), &names(&["d", "u"])),
        ("u".to_string(), "d".to_string())
    );
}

fn empty_market() -> GammaMarket {
    GammaMarket {
        condition_id: Some("c1".to_string()),
        question: None,
        slug: None,
        outcomes: Some(JsonField::Text("[\"Up\",\"Down\"]".to_string())),
        clob_token_ids: Some(JsonField::Text("[\"11\",\"22\"]".to_string())),
        tokens: None,
        start_date: None,
        end_date: None,
        neg_risk: None,
        minimum_order_size: None,
        minimum_tick_size: None,
        order_price_min_tick_size: None,
        order_min_size: None,
        active: None,
        closed: None,
    }
}

fn token(id: Option<&str>, outcome: Option<&str>) -> GammaToken {
    GammaToken { token_id: id.map(|s| s.to_string()), outcome: outcome.map(|s| s.to_string()) }
}

#[test]
fn tokens_of_a_market() {
    let mut gm = empty_market();
    let pair = |gm: &GammaMarket| GammaDiscovery::extract_tokens(gm);
    assert_eq!(pair(&gm), Some(("11".to_string(), "22".to_string())));
    gm.outcomes = Some(items(&[("DOWN", true), ("UP", true)]));
    assert_eq!(pair(&gm), Some(("22".to_string(), "11".to_string())));
    gm.outcomes = None;
    assert_eq!(pair(&gm), None);
    gm.tokens = Some(vec![token(Some("n"), Some("No")), token(Some("y"), Some("YES"))]);
    assert_eq!(pair(&gm), Some(("y".to_string(), "n".to_string())));
    gm.tokens = Some(vec![token(Some("n"), Some("No")), token(None, Some("Yes"))]);
    assert_eq!(pair(&gm), None);
    gm.tokens = Some(vec![token(Some("n"), None), token(Some("y"), Some("Yes"))]);
    assert_eq!(pair(&gm), None);
    let two = vec![token(Some("a"), None), token(Some("b"), None)];
    assert_eq!(pick_tokens(&two, &names(&["down", "up"])), Some(("b".to_string(), "a".to_string())));
    assert!(pick_tokens(&vec![token(Some("a"), None)], &names(&["up"])).is_none());
    gm.outcomes = Some(items(&[("x", true), ("Down", true), ("Up", true)]));
    assert!(!GammaDiscovery::check_tokens(&gm));
    assert!(discovery(&["btc"], &["5min"], 3)
        .try_process_market(&gm, "btc", "5min", d(0.0), d(300.0), d(10.0))
        .is_err());
    gm.closed = Some(true);
    assert!(matches!(
        discovery(&["btc"], &["5min"], 3).try_process_market(&gm, "btc", "5min", d(0.0), d(300.0), d(10.0)),
        Ok(None)
    ));
}

#[test]
fn markets_are_taken_on() {
    let g = discovery(&["btc"], &["5min"], 3);
    let take = |gm: &GammaMarket, now: f64| g.process_market(gm, "btc", "5min", d(1000.0), d(1300.0), d(now));
    let m = take(&empty_market(), 1299.0).unwrap();
    assert_eq!((m.condition_id.as_str(), m.asset.as_str(), m.timeframe.as_str()), ("c1", "btc", "5min"));
    assert_eq!((m.yes_token_id.as_str(), m.no_token_id.as_str()), ("11", "22"));
    assert_eq!((f(m.start_time), f(m.end_time)), (1000.0, 1300.0));
    assert_eq!((f(m.tick_size), f(m.min_order_size)), (0.01, 5.0));
    assert_eq!(m.state, MarketState::Discovered);
    assert!(!m.neg_risk && m.db_market_id.is_none());
    assert!(take(&empty_market(), 1300.0).is_none());
    let mut gm = empty_market();
    gm.start_date = Some("1970-01-01T00:00:05Z".to_string());
    gm.end_date = Some("1970-01-01T00:33:20Z".to_string());
    gm.neg_risk = Some(true);
    gm.minimum_tick_size = Some(d(0.1));
    gm.minimum_order_size = Some(d(1.5));
    let m = take(&gm, 1999.0).unwrap();
    assert_eq!((f(m.start_time), f(m.end_time)), (5.0, 2000.0));
    assert_eq!((f(m.tick_size), f(m.min_order_size)), (0.1, 1.5));
    assert!(m.neg_risk);
    gm.order_price_min_tick_size = Some(d(0.001));
    gm.order_min_size = Some(15);
    let m = take(&gm, 1999.0).unwrap();
    assert_eq!((f(m.tick_size), f(m.min_order_size)), (0.001, 15.0));
    gm.active = Some(false);
    assert!(take(&gm, 1.0).is_none());
    gm.active = Some(true);
    gm.condition_id = None;
    assert!(take(&gm, 1.0).is_none());
    assert!(discovery(&["btc"], &["5min"], 0)
        .process_market(&empty_market(), "btc", "5min", d(0.0), d(300.0), d(1.0))
        .is_none());
}

#[test]
fn replies_that_are_no_success() {
    assert_eq!(reply_error(429, "429 Too Many Requests").as_deref(), Some("429 rate limited"));
    assert_eq!(reply_error(500, "500 Internal Server Error").as_deref(), Some("Gamma API returned 500 Internal Server Error"));
    assert_eq!(reply_error(199, "x").as_deref(), Some("Gamma API returned x"));
    assert!(reply_error(200, "200 OK").is_none());
    assert!(reply_error(299, "x").is_none());
    assert!(reply_error(300, "x").is_some());
}

fn event(markets: Option<Vec<GammaMarket>>) -> GammaEvent {
    GammaEvent { id: None, title: None, slug: None, markets }
}

fn fetched(actions: &[LoopAction]) -> &str {
    match actions {
        [LoopAction::Fetch { slug }] => slug,
        _ => panic!("{actions:?}"),
    }
}

#[test]
fn a_round_of_discovery() {
    let mut l = DiscoveryLoop::new(discovery(&["btc"], &["5min"], 2));
    let now = d(1_700_000_123.0);
    let a = l.advance(LoopEvent::Rested, now);
    assert_eq!(fetched(&a), "btc-updown-5m-1700000100");
    let a = l.advance(LoopEvent::Answered(vec![event(Some(vec![empty_market()]))]), now);
    assert!(matches!(&a[..], [LoopAction::Store(m)] if m.condition_id == "c1"));
    assert_eq!(l.stage, Stage::Storing);
    let a = l.advance(LoopEvent::Stored(Some(9)), now);
    match &a[..] {
        [LoopAction::Publish(BotEvent::MarketDiscovered { condition_id, .. }), LoopAction::Subscribe { yes_token_id, no_token_id }, LoopAction::Run(m), LoopAction::Pause { millis: 200 }] => {
            assert_eq!(condition_id, "c1");
            assert_eq!((yes_token_id.as_str(), no_token_id.as_str()), ("11", "22"));
            assert_eq!(m.db_market_id, Some(9));
        }
        _ => panic!("{a:?}"),
    }
    assert_eq!(l.discovery.tracked_count(), 1);
    let a = l.advance(LoopEvent::Paused, now);
    assert_eq!(fetched(&a), "btc-updown-5m-1700000400");
    let a = l.advance(LoopEvent::Answered(vec![]), now);
    assert!(matches!(&a[..], [LoopAction::Pause { millis: 200 }]));
    let a = l.advance(LoopEvent::Paused, now);
    assert_eq!(fetched(&a), "btc-updown-5m-1700000700");
    let a = l.advance(LoopEvent::Failed("connection reset".to_string()), now);
    assert!(matches!(&a[..], [LoopAction::Pause { millis: 200 }]));
    let a = l.advance(LoopEvent::Paused, now);
    assert!(matches!(&a[..], [LoopAction::SetActiveMarkets(1), LoopAction::Rest { millis: 1500 }]));
    let a = l.advance(LoopEvent::Rested, now);
    assert_eq!(fetched(&a), "btc-updown-5m-1700000400");
    let a = l.advance(LoopEvent::Paused, now);
    assert!(matches!(&a[..], [LoopAction::Nothing]));
    let a = l.advance(LoopEvent::Failed("429 rate limited".to_string()), now);
    assert!(matches!(&a[..], [LoopAction::SetActiveMarkets(1), LoopAction::Rest { millis: 5000 }]));
    for millis in [10_000u64, 15_000, 20_000, 25_000, 30_000, 30_000] {
        l.advance(LoopEvent::Rested, now);
        let a = l.advance(LoopEvent::Failed("error 429".to_string()), now);
        assert!(matches!(&a[1], LoopAction::Rest { millis: m } if *m == millis));
    }
    l.advance(LoopEvent::Rested, now);
    let a = l.advance(LoopEvent::Answered(vec![event(None)]), now);
    assert!(matches!(&a[..], [LoopAction::Pause { millis: 200 }]));
    assert_eq!(l.backoff_ms, 0);
}

#[test]
fn rounds_stop_when_there_is_no_room_and_forget_what_is_over() {
    let mut l = DiscoveryLoop::new(discovery(&["btc"], &["5min"], 1));
    let now = d(1_700_000_123.0);
    l.advance(LoopEvent::Rested, now);
    let two = vec![empty_market(), GammaMarket { condition_id: Some("c2".to_string()), ..empty_market() }];
    l.advance(LoopEvent::Answered(vec![event(Some(two))]), now);
    let a = l.advance(LoopEvent::Stored(None), now);
    assert!(matches!(&a[3], LoopAction::Pause { .. }));
    assert!(matches!(&a[2], LoopAction::Run(m) if m.db_market_id.is_none()));
    assert_eq!(l.discovery.tracked_count(), 1);
    let a = l.advance(LoopEvent::Paused, now);
    assert!(matches!(&a[..], [LoopAction::SetActiveMarkets(1), LoopAction::Rest { .. }]));
    assert_eq!(l.discovery.all_markets()[0].condition_id, "c1");
    let a = l.advance(LoopEvent::Rested, d(1_700_000_400.0));
    assert!(matches!(&a[..], [LoopAction::SetActiveMarkets(1), LoopAction::Rest { .. }]));
    assert_eq!(l.discovery.tracked_count(), 0);
    l.advance(LoopEvent::Rested, now);
    l.advance(LoopEvent::Answered(vec![event(Some(vec![empty_market()]))]), now);
    l.advance(LoopEvent::Stored(None), now);
    assert!(l.discovery.knows_window(&l.candidates[l.at]));
    let mut m = l.discovery.all_markets().remove(0);
    m.state = MarketState::Monitoring;
    l.market_changed(&m);
    assert_eq!(l.discovery.all_markets()[0].state, MarketState::Monitoring);
    m.condition_id = "unknown".to_string();
    l.market_changed(&m);
    assert_eq!(l.discovery.tracked_count(), 1);
    l.market_ended("c1");
    assert_eq!(l.discovery.tracked_count(), 0);
}

#[test]
fn a_malformed_market_is_given_up() {
    let mut l = DiscoveryLoop::new(discovery(&["btc"], &["5min"], 1));
    let now = d(1_700_000_123.0);
    l.advance(LoopEvent::Rested, now);
    let mut gm = empty_market();
    gm.outcomes = Some(JsonField::Text("[\"a\",\"Down\",\"Up\"]".to_string()));
    let a = l.advance(LoopEvent::Answered(vec![event(Some(vec![gm]))]), now);
    assert!(matches!(&a[..], [LoopAction::GiveUp]));
}

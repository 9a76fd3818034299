use maker_bot::config::{ArbConfig, ArticleConfig, FeedConfig, RiskConfig, StrategyConfig};
use maker_bot::double::Double;
use maker_bot::events::bus::BotEvent;
use maker_bot::executor::cancel_replace::{
    action_steps, affords, execute_quote_update, in_cents, is_slow, pause_after, pause_left,
    run_cycle, shares_for, watch, window_seconds, Command, EdgeTracker, Finding, OrderRequest,
    PauseEvent, TopPrices,
};
use maker_bot::executor::order_manager::{LiveOrder, OrderManager};
use maker_bot::feeds::polymarket::{WsBookLevel, WsMessage};
use maker_bot::feeds::FeedHub;
use maker_bot::position::tracker::PositionTracker;
use maker_bot::strategy::article::{ArticleOrder, ArticleStrategy};
use maker_bot::strategy::engine::{MarketContext, MarketState, StrategyAction, StrategyEngine};
use maker_bot::strategy::pricing::{QuotePricer, QuoteSet};
use maker_bot::strategy::risk::RiskManager;

fn d(x: f64) -> Double {
    Double::from_bits(x.to_bits())
}

fn f(x: Double) -> f64 {
    f64::from_bits(x.to_bits())
}

fn arb(monitor_only: bool) -> ArbConfig {
    ArbConfig { monitor_only, min_alert_edge_cents: d(0.5), order_size_usd: d(5.0) }
}

fn prices(yes_bid: f64, yes_ask: f64, no_bid: f64, no_ask: f64) -> TopPrices {
    TopPrices { yes_bid: d(yes_bid), yes_ask: d(yes_ask), no_bid: d(no_bid), no_ask: d(no_ask) }
}

#[test]
fn orders_are_placed_once_per_edge() {
    let mut t = EdgeTracker::default();
    let p = prices(0.45, 0.55, 0.45, 0.55);
    assert!(matches!(watch(&mut t, p, &arb(false), d(200.0), 5), Finding::Place));
    assert!(t.arb_orders_placed && t.maker_edge_active);
    assert_eq!(t.edge_window_start, Some(5));
    assert!(matches!(watch(&mut t, p, &arb(false), d(200.0), 6), Finding::Nothing));
    assert_eq!(t.edge_window_start, Some(5));
    let none = prices(0.50, 0.55, 0.50, 0.55);
    assert!(matches!(watch(&mut t, none, &arb(false), d(200.0), 7), Finding::Nothing));
    assert!(!t.maker_edge_active && !t.arb_orders_placed);
    assert_eq!(t.edge_window_start, None);
    assert!(matches!(watch(&mut t, p, &arb(false), d(200.0), 8), Finding::Place));
}

#[test]
fn orders_are_placed_only_when_allowed() {
    let p = prices(0.45, 0.55, 0.45, 0.55);
    let place = |p: TopPrices, monitor: bool, left: f64, shares: f64| {
        let mut t = EdgeTracker { up_shares: d(shares), ..EdgeTracker::default() };
        matches!(watch(&mut t, p, &arb(monitor), d(left), 0), Finding::Place)
    };
    assert!(place(p, false, 60.5, 0.5));
    assert!(!place(p, true, 60.5, 0.0));
    assert!(!place(p, false, 60.0, 0.0));
    assert!(!place(p, false, 60.5, 1.0));
    assert!(!place(prices(0.09, 0.55, 0.45, 0.55), false, 200.0, 0.0));
    assert!(!place(prices(0.45, 0.91, 0.45, 0.55), false, 200.0, 0.0));
    assert!(!place(prices(0.45, 0.0, 0.45, 0.55), false, 200.0, 0.0));
    assert!(!place(prices(0.50, 0.55, 0.496, 0.55), false, 200.0, 0.0));
    assert_eq!(f(shares_for(d(5.0), d(0.45))), 11.0);
}

#[test]
fn edges_are_compared_in_cents() {
    assert_eq!(f(in_cents(d(0.25))), 25.0);
    // Half a dollar, and half a cent, against a minimum of one cent.
    let config = ArbConfig { min_alert_edge_cents: d(1.0), ..arb(true) };
    let wide = prices(0.25, 0.25, 0.25, 0.25);
    let mut t = EdgeTracker::default();
    assert!(matches!(watch(&mut t, wide, &config, d(200.0), 0), Finding::Report));
    assert!(t.maker_edge_active && t.taker_edge_active);
    let narrow = prices(0.50, 0.498, 0.495, 0.498);
    let mut t = EdgeTracker::default();
    assert!(matches!(watch(&mut t, narrow, &config, d(200.0), 0), Finding::Nothing));
    assert!(!t.maker_edge_active && !t.taker_edge_active);
}

#[test]
fn no_side_costs_more_than_it_may() {
    assert_eq!(f(shares_for(d(0.5), d(0.9))), 0.0);
    assert!(!affords(d(0.5), d(0.9)));
    assert!(affords(d(0.9), d(0.9)));
    for cents in 10..=90 {
        let price = cents as f64 / 100.0;
        for usd in [0.05, 0.3, 0.9, 1.0, 2.7, 5.0, 7.2, 12.3, 99.99, 1e6] {
            let shares = f(shares_for(d(usd), d(price)));
            assert!(price * shares <= usd, "{price} {usd}");
            assert_eq!(affords(d(usd), d(price)), price <= usd, "{price} {usd}");
            assert!((shares + 2.0) * price > usd, "{price} {usd}");
        }
    }
    let place = |usd: f64| {
        let config = ArbConfig { order_size_usd: d(usd), ..arb(false) };
        let mut t = EdgeTracker::default();
        matches!(watch(&mut t, prices(0.45, 0.55, 0.30, 0.55), &config, d(200.0), 0), Finding::Place)
    };
    assert!(place(0.45));
    assert!(!place(0.44));
}

#[test]
fn cheap_asks_are_reported_when_they_change() {
    let mut t = EdgeTracker::default();
    let p = prices(0.50, 0.48, 0.50, 0.48);
    assert!(matches!(watch(&mut t, p, &arb(true), d(200.0), 0), Finding::Report));
    assert!(matches!(watch(&mut t, p, &arb(true), d(200.0), 1), Finding::Nothing));
    let q = prices(0.50, 0.47, 0.50, 0.48);
    assert!(matches!(watch(&mut t, q, &arb(true), d(200.0), 2), Finding::Report));
    assert_eq!(f(t.last_yes_ask), 0.47);
    let unreal = prices(0.01, 0.99, 0.01, 0.99);
    assert!(matches!(watch(&mut t, unreal, &arb(true), d(200.0), 3), Finding::Nothing));
    assert!(!t.taker_edge_active);
    assert!(matches!(watch(&mut t, q, &arb(true), d(200.0), 4), Finding::Report));
}

fn order(id: &str, token: &str, side: &str, price: f64) -> LiveOrder {
    LiveOrder {
        order_id: id.to_string(),
        token_id: token.to_string(),
        condition_id: "c".to_string(),
        side: side.to_string(),
        price: d(price),
        size: d(20.0),
        strategy: "quoting".to_string(),
        posted_at: d(0.0),
        market_db_id: 3,
    }
}

fn quotes(yes_bid: f64, yes_ask: f64, no_bid: f64, no_ask: f64, no_ask_size: f64) -> QuoteSet {
    QuoteSet {
        yes_bid: d(yes_bid),
        yes_ask: d(yes_ask),
        no_bid: d(no_bid),
        no_ask: d(no_ask),
        yes_bid_size: d(20.0),
        yes_ask_size: d(20.0),
        no_bid_size: d(20.0),
        no_ask_size: d(no_ask_size),
    }
}

fn describe(commands: &[Command]) -> Vec<String> {
    commands
        .iter()
        .map(|c| match c {
            Command::Publish(_) => "publish".to_string(),
            Command::CancelMarket { condition_id } => format!("cancel market {condition_id}"),
            Command::Cancel { order_id } => format!("cancel {order_id}"),
            Command::Post(OrderRequest { token_id, side, price, strategy, market_db_id, .. }) => {
                format!("post {token_id} {side} {} {strategy} {market_db_id}", f(*price))
            }
        })
        .collect()
}

#[test]
fn quotes_replace_what_has_moved() {
    let existing = vec![
        order("o1", "y", "BUY", 0.48),
        order("o2", "y", "SELL", 0.55),
        order("o3", "z", "BUY", 0.40),
        order("o4", "n", "BUY", 0.405),
    ];
    let steps = execute_quote_update(
        &existing,
        "c",
        "y",
        "n",
        3,
        &quotes(0.48, 0.52, 0.40, 0.60, 20.0),
        d(0.01),
    );
    assert_eq!(
        describe(&steps),
        vec![
            "cancel o2",
            "cancel o3",
            "post y SELL 0.52 quoting 3",
            "post n SELL 0.6 quoting 3",
        ]
    );
    let steps = execute_quote_update(&vec![], "c", "y", "n", 3, &quotes(0.48, 0.0, 0.4, 0.6, 0.0), d(0.01));
    assert_eq!(describe(&steps), vec!["post y BUY 0.48 quoting 3", "post n BUY 0.4 quoting 3"]);
    let one_tick = vec![order("o1", "y", "BUY", 0.5)];
    let steps = execute_quote_update(&one_tick, "c", "y", "n", 3, &quotes(0.25, 0.0, 0.0, 0.0, 0.0), d(0.25));
    assert!(steps.is_empty());
    let moved = vec![order("o1", "y", "BUY", 0.49)];
    let steps = execute_quote_update(&moved, "c", "y", "n", 3, &quotes(0.48, 0.0, 0.0, 0.0, 0.0), d(0.01));
    assert_eq!(describe(&steps), vec!["cancel o1", "post y BUY 0.48 quoting 3"]);
}

#[test]
fn the_same_quotes_again_ask_for_nothing() {
    let wanted = quotes(0.48, 0.52, 0.40, 0.60, 20.0);
    let mut orders = vec![
        order("o1", "y", "BUY", 0.485),
        order("o2", "y", "SELL", 0.55),
        order("o3", "z", "BUY", 0.40),
    ];
    let steps = execute_quote_update(&orders, "c", "y", "n", 3, &wanted, d(0.01));
    assert_eq!(steps.len(), 5);
    for (k, step) in steps.iter().enumerate() {
        match step {
            Command::Cancel { order_id } => orders.retain(|o| o.order_id != *order_id),
            Command::Post(r) => orders.push(order(&format!("n{k}"), &r.token_id, &r.side, f(r.price))),
            _ => panic!(),
        }
    }
    assert_eq!(orders.len(), 4);
    assert!(execute_quote_update(&orders, "c", "y", "n", 3, &wanted, d(0.01)).is_empty());
}

fn market(state: MarketState) -> MarketContext {
    MarketContext {
        condition_id: "c".to_string(),
        asset: "btc".to_string(),
        timeframe: "5min".to_string(),
        yes_token_id: "y".to_string(),
        no_token_id: "n".to_string(),
        start_time: d(1000.0),
        end_time: d(1300.0),
        state,
        neg_risk: false,
        tick_size: d(0.01),
        min_order_size: d(5.0),
        db_market_id: Some(3),
    }
}

#[test]
fn decisions_become_steps() {
    let m = market(MarketState::Monitoring);
    let none: Vec<LiveOrder> = vec![];
    assert!(action_steps(&StrategyAction::Hold, &m, &none).is_empty());
    assert_eq!(describe(&action_steps(&StrategyAction::CancelAll, &m, &none)), vec!["cancel market c"]);
    assert_eq!(describe(&action_steps(&StrategyAction::Withdraw, &m, &none)), vec!["cancel market c"]);
    let article = |direction: &str| {
        StrategyAction::PostArticle(ArticleOrder {
            direction: direction.to_string(),
            price: d(0.92),
            size: d(20.0),
            conviction: d(0.9),
        })
    };
    let steps = action_steps(&article("UP"), &m, &none);
    assert_eq!(describe(&steps), vec!["publish", "cancel market c", "post y BUY 0.92 article 3"]);
    assert!(matches!(&steps[0], Command::Publish(BotEvent::ArticleFired { direction, .. }) if direction == "UP"));
    let steps = action_steps(&article("DOWN"), &m, &none);
    assert_eq!(describe(&steps)[2], "post n BUY 0.92 article 3");
    let steps = action_steps(&StrategyAction::PostQuotes(quotes(0.48, 0.0, 0.0, 0.0, 0.0)), &m, &none);
    assert_eq!(describe(&steps), vec!["post y BUY 0.48 quoting 3"]);
}

fn hub(yes: [f64; 2], no: [f64; 2]) -> FeedHub {
    let mut h = FeedHub::new(&FeedConfig {
        binance_ws_url: "b".to_string(),
        coinbase_ws_url: "c".to_string(),
        oracle_stale_max_ms: d(2000.0),
        book_stale_max_ms: d(3000.0),
        polymarket_ws_url: "p".to_string(),
    });
    for (token, [bid, ask]) in [("y", yes), ("n", no)] {
        let level = |p: f64| Some(vec![WsBookLevel { price: Some(d(p)), size: Some(d(30.0)) }]);
        let msg = WsMessage {
            event_type: Some("book".to_string()),
            asset_id: Some(token.to_string()),
            bids: level(bid),
            asks: level(ask),
            price_changes: None,
        };
        h.polymarket.process_message(&msg, d(1.0));
    }
    h
}

fn engine() -> StrategyEngine {
    StrategyEngine::new(
        QuotePricer::new(
            StrategyConfig {
                min_half_spread: d(0.01),
                volatility_coefficient: d(0.5),
                inventory_skew_factor: d(0.02),
                cancel_threshold_bps: d(2.0),
                default_order_size: d(10.0),
                quote_size: d(20.0),
            },
            None,
        ),
        ArticleStrategy::new(ArticleConfig {
            enabled: true,
            min_bn_delta_60s_bps: d(15.0),
            min_cb_delta_60s_bps: d(10.0),
            min_trending_mid: d(0.75),
            article_size: d(20.0),
            entry_price_cap: d(0.95),
            trigger_seconds_before_close: d(10.0),
            min_seconds_before_close: d(2.0),
        }),
        RiskManager::new(RiskConfig {
            max_yes_position: d(100.0),
            max_no_position: d(100.0),
            max_total_exposure_usd: d(500.0),
            max_concurrent_markets: 8,
            max_daily_loss_usd: d(50.0),
            max_order_size: d(50.0),
            min_order_size: d(5.0),
            max_inventory_imbalance: d(80.0),
        }),
    )
}

#[test]
fn cycle_of_a_finished_market() {
    let h = hub([0.45, 0.55], [0.45, 0.55]);
    for state in [MarketState::Settlement, MarketState::Withdrawn] {
        let mut m = market(state);
        let mut t = EdgeTracker::default();
        let plan = run_cycle(
            &mut m, &mut t, &h, &engine(), &OrderManager::new(), &PositionTracker::new(), &arb(false), d(1100.0), 1,
        );
        assert!(plan.finished);
        assert_eq!(describe(&plan.commands), vec!["cancel market c"]);
        assert_eq!(m.state, state);
    }
}

#[test]
fn cycle_on_an_edge_places_both_sides() {
    let h = hub([0.45, 0.55], [0.40, 0.60]);
    let mut m = market(MarketState::Monitoring);
    let mut t = EdgeTracker::default();
    let e = engine();
    let om = OrderManager::new();
    let pt = PositionTracker::new();
    let plan = run_cycle(&mut m, &mut t, &h, &e, &om, &pt, &arb(false), d(1100.0), 1);
    assert!(!plan.finished);
    assert_eq!(describe(&plan.commands), vec!["post y BUY 0.45 arb_up 3", "post n BUY 0.4 arb_dn 3"]);
    match &plan.commands[1] {
        Command::Post(r) => assert_eq!(f(r.size), 12.0),
        _ => panic!(),
    }
    let plan = run_cycle(&mut m, &mut t, &h, &e, &om, &pt, &arb(false), d(1100.5), 2);
    assert!(plan.commands.is_empty());
    let plan = run_cycle(&mut m, &mut t, &h, &e, &om, &pt, &arb(false), d(1299.0), 3);
    assert_eq!(describe(&plan.commands), vec!["cancel market c"]);
    assert_eq!(m.state, MarketState::Settlement);
}

#[test]
fn a_market_that_is_held_is_not_bought_again() {
    let h = hub([0.45, 0.55], [0.40, 0.60]);
    let e = engine();
    let om = OrderManager::new();
    for (token, shares, placed) in [("y", 1.0, false), ("n", 7.0, false), ("y", 0.9, true), ("z", 9.0, true)] {
        let mut pt = PositionTracker::new();
        pt.on_fill(token, "c", "BUY", d(0.4), d(shares));
        assert_eq!(f(pt.shares_of(token)), shares);
        assert_eq!(f(pt.shares_of("other")), 0.0);
        let mut m = market(MarketState::Monitoring);
        let mut t = EdgeTracker::default();
        let plan = run_cycle(&mut m, &mut t, &h, &e, &om, &pt, &arb(false), d(1100.0), 1);
        assert_eq!(plan.commands.len(), if placed { 2 } else { 0 }, "{token} {shares}");
        assert_eq!(t.arb_orders_placed, placed);
    }
}

#[test]
fn cycle_reports_cheap_asks_and_obeys_a_halt() {
    let h = hub([0.50, 0.48], [0.50, 0.47]);
    let mut m = market(MarketState::Monitoring);
    let mut t = EdgeTracker::default();
    let mut e = engine();
    let om = OrderManager::new();
    let pt = PositionTracker::new();
    let plan = run_cycle(&mut m, &mut t, &h, &e, &om, &pt, &arb(true), d(1100.0), 1);
    match &plan.commands[..] {
        [Command::Publish(BotEvent::NegVigDetected { combined, edge_cents, yes_depth, secs_left, asset, .. })] => {
            assert_eq!(f(*combined), 0.48 + 0.47);
            assert_eq!(f(*edge_cents), 1.0 - (0.48 + 0.47));
            assert_eq!(f(*yes_depth), 30.0);
            assert_eq!(f(*secs_left), 200.0);
            assert_eq!(asset, "btc");
        }
        _ => panic!(),
    }
    e.risk.update_daily_pnl(d(-60.0));
    let plan = run_cycle(&mut m, &mut t, &h, &e, &om, &pt, &arb(true), d(1101.0), 2);
    assert_eq!(describe(&plan.commands), vec!["cancel market c"]);
    assert_eq!(m.state, MarketState::Withdrawn);
    let mut unknown = market(MarketState::Monitoring);
    unknown.yes_token_id = "other".to_string();
    e.risk.reset_daily();
    let plan = run_cycle(&mut unknown, &mut t, &h, &e, &om, &pt, &arb(false), d(1101.0), 2);
    assert!(plan.commands.is_empty());
}

#[test]
fn cycle_timing() {
    assert_eq!(pause_after(0), Some(50_000_000));
    assert_eq!(pause_after(49_999_999), Some(1));
    assert_eq!(pause_after(50_000_000), None);
    assert_eq!(pause_left(0, PauseEvent::FeedUpdate), None);
    assert_eq!(pause_left(10_000_000, PauseEvent::Timeout), Some(40_000_000));
    assert_eq!(pause_left(50_000_000, PauseEvent::Timeout), None);
    assert!(!is_slow(100_000_000));
    assert!(is_slow(100_000_001));
    assert_eq!(window_seconds(Some(1_000_000_000), 4_900_000_000), 3);
    assert_eq!(window_seconds(Some(5), 1), 0);
    assert_eq!(window_seconds(None, 7), 0);
}

use maker_bot::config::{ArticleConfig, RiskConfig, StrategyConfig};
use maker_bot::double::Double;
use maker_bot::events::bus::BotEvent;
use maker_bot::feeds::types::{BookLevel, DeltaResult, OracleSnapshot, OrderBook};
use maker_bot::fees::calculator::{maker_fee_rate, FeeCalculator};
use maker_bot::strategy::article::ArticleStrategy;
use maker_bot::strategy::engine::{
    MarketContext, MarketState, StrategyAction, StrategyEngine,
};
use maker_bot::strategy::pricing::{quantize_down, quantize_up, MarketInventory, QuotePricer};
use maker_bot::strategy::risk::RiskManager;

fn d(x: f64) -> Double {
    Double::from_bits(x.to_bits())
}

fn f(x: Double) -> f64 {
    f64::from_bits(x.to_bits())
}

fn delta(bps: f64, available: bool) -> DeltaResult {
    DeltaResult {
        delta_bps: d(bps),
        available,
        sample_age_ms: d(0.0),
        window_start_ts: d(0.0),
        window_end_ts: d(0.0),
    }
}

fn oracle(d1: f64, d3: f64, bn60: f64, cb60: f64) -> OracleSnapshot {
    OracleSnapshot {
        binance_price: d(1.0),
        coinbase_price: d(1.0),
        binance_delta_1s: delta(d1, true),
        binance_delta_3s: delta(d3, true),
        binance_delta_60s: delta(bn60, true),
        coinbase_delta_1s: delta(0.0, true),
        coinbase_delta_3s: delta(0.0, true),
        coinbase_delta_60s: delta(cb60, true),
        timestamp: d(0.0),
    }
}

fn book(bids: &[(f64, f64)], asks: &[(f64, f64)], tick: f64) -> OrderBook {
    let level = |&(price, size): &(f64, f64)| BookLevel { price: d(price), size: d(size) };
    OrderBook {
        token_id: "t".to_string(),
        bids: bids.iter().map(level).collect(),
        asks: asks.iter().map(level).collect(),
        timestamp: d(0.0),
        tick_size: d(tick),
        min_order_size: d(5.0),
    }
}

#[test]
fn fee_rate_matches_the_formula() {
    for i in 0..=1000 {
        let p = i as f64 / 1000.0;
        assert_eq!(f(FeeCalculator::taker_fee_rate(d(p))), 0.25 * (p * (1.0 - p)).powi(2), "{p}");
    }
    assert_eq!(f(FeeCalculator::taker_fee_rate(d(0.5))), 0.015625);
    assert_eq!(f(FeeCalculator::taker_fee_rate(d(0.0))), 0.0);
    assert_eq!(f(FeeCalculator::taker_fee_rate(d(1.0))), 0.0);
    assert_eq!(f(FeeCalculator::taker_fee_rate(d(-3.0))), 0.0);
    assert_eq!(f(FeeCalculator::taker_fee_rate(d(17.0))), 0.0);
    assert!(f(FeeCalculator::taker_fee_rate(d(f64::NAN))).is_nan());
    assert_eq!(f(maker_fee_rate()), 0.0);
}

#[test]
fn fee_rate_stays_below_its_peak_near_the_middle() {
    for i in 0..200u64 {
        for base in [0.5f64, 0.25, 0.75, 1.0] {
            for bits in [base.to_bits() + i, base.to_bits() - i] {
                let rate = f(FeeCalculator::taker_fee_rate(Double::from_bits(bits)));
                assert!((0.0..=0.015625).contains(&rate));
            }
        }
    }
}

#[test]
fn fees_scale_with_shares_and_basis_points() {
    let _ = FeeCalculator::new();
    assert_eq!(f(FeeCalculator::taker_fee(d(100.0), d(0.5))), 1.5625);
    assert_eq!(f(FeeCalculator::taker_breakeven_edge_bps(d(0.5))), 156.25);
    assert_eq!(f(FeeCalculator::taker_fee(d(7.0), d(0.3))), 7.0 * (0.25 * (0.3f64 * (1.0 - 0.3)).powi(2)));
}

#[test]
fn order_book_prices() {
    let b = book(&[(0.48, 10.0), (0.47, 5.0)], &[(0.52, 3.0)], 0.01);
    assert_eq!(f(b.best_bid()), 0.48);
    assert_eq!(f(b.best_ask()), 0.52);
    assert_eq!(f(b.mid()), (0.48 + 0.52) / 2.0);
    assert_eq!(f(b.spread()), 0.52 - 0.48);
    assert_eq!(f(b.top_bid_size()), 10.0);
    assert_eq!(f(b.top_ask_size()), 3.0);
    let e = OrderBook::empty("x".to_string());
    assert_eq!(e.token_id, "x");
    assert_eq!(f(e.mid()), 0.5);
    assert_eq!(f(e.spread()), 0.0);
    assert_eq!(f(e.best_bid()), 0.0);
    assert_eq!(f(e.top_ask_size()), 0.0);
    assert_eq!(f(e.tick_size), 0.01);
    assert_eq!(f(e.min_order_size), 5.0);
    assert_eq!(f(book(&[], &[(0.6, 1.0)], 0.01).mid()), 0.6);
    assert_eq!(f(book(&[(0.4, 1.0)], &[], 0.01).mid()), 0.4);
}

#[test]
fn ticks_are_rounded_outward() {
    for (p, t) in [(0.537, 0.01), (0.5, 0.01), (-0.123, 0.01), (0.3, 0.1), (0.7, 0.001)] {
        assert_eq!(f(quantize_down(d(p), d(t))), (p / t).floor() * t);
        assert_eq!(f(quantize_up(d(p), d(t))), (p / t).ceil() * t);
    }
    assert_eq!(f(quantize_down(d(0.537), d(0.0))), 0.537);
    assert_eq!(f(quantize_up(d(0.537), d(-1.0))), 0.537);
}

fn strategy() -> StrategyConfig {
    StrategyConfig {
        min_half_spread: d(0.01),
        volatility_coefficient: d(0.5),
        inventory_skew_factor: d(0.02),
        cancel_threshold_bps: d(2.0),
        default_order_size: d(10.0),
        quote_size: d(20.0),
    }
}

fn expected_quotes(d1: f64, d3: f64, b: &OrderBook, yes: f64, no: f64, max: f64) -> [f64; 4] {
    let fair = (f(b.mid()) + d1 / 10_000.0 * 0.5).clamp(0.01, 0.99);
    let half = f64::max(0.01, 0.5 * d3.abs() / 10_000.0);
    let max = if max > 0.0 { max } else { 100.0 };
    let skew = 0.02 * (yes - no) / max;
    let tick = f(b.tick_size);
    let down = |p: f64| if tick <= 0.0 { p } else { (p / tick).floor() * tick };
    let up = |p: f64| if tick <= 0.0 { p } else { (p / tick).ceil() * tick };
    [
        down(fair - half - skew).clamp(0.01, 0.99),
        up(fair + half - skew).clamp(0.01, 0.99),
        down((1.0 - fair) - half + skew).clamp(0.01, 0.99),
        up((1.0 - fair) + half + skew).clamp(0.01, 0.99),
    ]
}

#[test]
fn quotes_match_the_formula_and_do_not_cross() {
    let pricer = QuotePricer::new(strategy(), None);
    let books = [
        book(&[(0.48, 1.0)], &[(0.52, 1.0)], 0.01),
        book(&[(0.01, 1.0)], &[(0.03, 1.0)], 0.01),
        book(&[(0.97, 1.0)], &[(0.99, 1.0)], 0.001),
        book(&[], &[], 0.0),
    ];
    for b in &books {
        for (d1, d3) in [(0.0, 0.0), (12.5, -300.0), (-45.0, 800.0), (9000.0, 10.0)] {
            for (yes, no, max) in [(0.0, 0.0, 100.0), (80.0, 5.0, 100.0), (1.0, 90.0, 0.0)] {
                let inventory = MarketInventory { yes_shares: d(yes), no_shares: d(no) };
                assert_eq!(f(inventory.net_yes()), yes - no);
                let q = pricer.compute_quotes(&oracle(d1, d3, 0.0, 0.0), b, d(100.0), &inventory, d(max));
                let e = expected_quotes(d1, d3, b, yes, no, max);
                assert_eq!([f(q.yes_bid), f(q.yes_ask), f(q.no_bid), f(q.no_ask)], e);
                assert!(f(q.yes_bid) <= f(q.yes_ask) && f(q.no_bid) <= f(q.no_ask));
                for x in [q.yes_bid, q.yes_ask, q.no_bid, q.no_ask] {
                    assert!((0.01..=0.99).contains(&f(x)));
                }
                assert_eq!(f(q.yes_bid_size), 20.0);
                assert_eq!(f(q.no_ask_size), 20.0);
            }
        }
    }
}

#[test]
fn quotes_at_known_values() {
    let pricer = QuotePricer::new(strategy(), None);
    let b = book(&[(0.48, 1.0)], &[(0.52, 1.0)], 0.01);
    let none = MarketInventory::default();
    let q = pricer.compute_quotes(&oracle(0.0, 0.0, 0.0, 0.0), &b, d(100.0), &none, d(100.0));
    assert_eq!(f(q.yes_bid), 0.49);
    assert_eq!(f(q.yes_ask), 0.51);
    assert_eq!(f(pricer.estimate_fair_value(&oracle(100.0, 0.0, 0.0, 0.0), &b, d(1.0))), 0.505);
}

fn article_config() -> ArticleConfig {
    ArticleConfig {
        enabled: true,
        min_bn_delta_60s_bps: d(15.0),
        min_cb_delta_60s_bps: d(10.0),
        min_trending_mid: d(0.75),
        article_size: d(20.0),
        entry_price_cap: d(0.95),
        trigger_seconds_before_close: d(10.0),
        min_seconds_before_close: d(2.0),
    }
}

#[test]
fn article_fires_upward_at_the_ask() {
    let s = ArticleStrategy::new(article_config());
    let b = book(&[(0.88, 1.0)], &[(0.92, 1.0)], 0.01);
    let order = s.evaluate(&oracle(0.0, 0.0, 20.0, 12.0), &b, d(8.0)).unwrap();
    assert_eq!(order.direction, "UP");
    assert_eq!(f(order.price), 0.92);
    assert_eq!(f(order.size), 20.0);
    assert_eq!(f(order.conviction), (0.88 + 0.92) / 2.0);
    let b = book(&[(0.96, 1.0)], &[(0.98, 1.0)], 0.01);
    assert_eq!(f(s.evaluate(&oracle(0.0, 0.0, 20.0, 12.0), &b, d(8.0)).unwrap().price), 0.95);
    let b = book(&[(0.76, 1.0)], &[(0.80, 1.0)], 0.01);
    assert_eq!(f(s.evaluate(&oracle(0.0, 0.0, 20.0, 12.0), &b, d(8.0)).unwrap().price), 0.90);
}

#[test]
fn article_fires_downward_at_the_complement_of_the_bid() {
    let s = ArticleStrategy::new(article_config());
    let b = book(&[(0.08, 1.0)], &[(0.12, 1.0)], 0.01);
    let order = s.evaluate(&oracle(0.0, 0.0, -20.0, -12.0), &b, d(8.0)).unwrap();
    assert_eq!(order.direction, "DOWN");
    assert_eq!(f(order.price), 1.0 - 0.08);
    assert_eq!(f(order.conviction), 1.0 - (0.08 + 0.12) / 2.0);
}

#[test]
fn article_declines_each_missing_condition() {
    let up = book(&[(0.88, 1.0)], &[(0.92, 1.0)], 0.01);
    let good = oracle(0.0, 0.0, 20.0, 12.0);
    let s = ArticleStrategy::new(article_config());
    assert!(s.evaluate(&good, &up, d(10.0)).is_some());
    assert!(s.evaluate(&good, &up, d(2.0)).is_some());
    assert!(s.evaluate(&good, &up, d(10.5)).is_none());
    assert!(s.evaluate(&good, &up, d(1.5)).is_none());
    assert!(s.evaluate(&oracle(0.0, 0.0, 20.0, -12.0), &up, d(8.0)).is_none());
    assert!(s.evaluate(&oracle(0.0, 0.0, 14.0, 12.0), &up, d(8.0)).is_none());
    assert!(s.evaluate(&oracle(0.0, 0.0, 20.0, 9.0), &up, d(8.0)).is_none());
    assert!(s.evaluate(&oracle(0.0, 0.0, f64::NAN, f64::NAN), &up, d(8.0)).is_none());
    let flat = book(&[(0.48, 1.0)], &[(0.52, 1.0)], 0.01);
    assert!(s.evaluate(&good, &flat, d(8.0)).is_none());
    let mut missing = good;
    missing.coinbase_delta_60s = DeltaResult::unavailable();
    assert!(s.evaluate(&missing, &up, d(8.0)).is_none());
    let mut off = article_config();
    off.enabled = false;
    assert!(ArticleStrategy::new(off).evaluate(&good, &up, d(8.0)).is_none());
}

fn risk_config() -> RiskConfig {
    RiskConfig {
        max_yes_position: d(100.0),
        max_no_position: d(90.0),
        max_total_exposure_usd: d(500.0),
        max_concurrent_markets: 8,
        max_daily_loss_usd: d(50.0),
        max_order_size: d(50.0),
        min_order_size: d(5.0),
        max_inventory_imbalance: d(80.0),
    }
}

#[test]
fn fees_are_symmetric_and_vanish_where_nothing_is_open() {
    for p in [-1.0, -0.0, 0.0, 1.0, 1.5, f64::INFINITY, f64::NEG_INFINITY] {
        assert_eq!(f(FeeCalculator::taker_fee_rate(d(p))), 0.0, "{p}");
    }
    for k in 0..=1000 {
        let p = 0.5 + k as f64 / 2000.0;
        assert_eq!(1.0 - (1.0 - p), p);
        assert_eq!(
            FeeCalculator::taker_fee_rate(d(p)).to_bits(),
            FeeCalculator::taker_fee_rate(d(1.0 - p)).to_bits(),
            "{p}"
        );
    }
}

#[test]
fn quotes_for_no_mirror_those_for_yes() {
    // At an even chance NO is quoted as YES is with the inventory turned round.
    let pricer = QuotePricer::new(strategy(), None);
    let b = book(&[(0.40, 10.0)], &[(0.60, 10.0)], 0.01);
    let calm = oracle(0.0, 0.0, 0.0, 0.0);
    for held in [0.0, 25.0, 90.0] {
        let a = pricer.compute_quotes(&calm, &b, d(60.0), &holding(held, 0.0), d(100.0));
        let m = pricer.compute_quotes(&calm, &b, d(60.0), &holding(0.0, held), d(100.0));
        assert_eq!((f(a.no_bid), f(a.no_ask)), (f(m.yes_bid), f(m.yes_ask)));
        assert_eq!((f(a.yes_bid), f(a.yes_ask)), (f(m.no_bid), f(m.no_ask)));
    }
}

#[test]
fn opposite_quotes_add_up_to_one() {
    let pricer = QuotePricer::new(strategy(), None);
    let hair = 2f64.powi(-36);
    for n in [1u32, 10, 100, 1000, 10_000] {
        let tick = 1.0 / n as f64;
        let (mut exact, mut all) = (0, 0);
        for cents in 2..98 {
            let mid = cents as f64 / 100.0;
            let b = book(&[(mid - 0.0049, 10.0)], &[(mid + 0.0049, 10.0)], tick);
            for (d1, d3, held) in [(0.0, 0.0, 0.0), (13.0, 250.0, 37.0), (-41.0, -90.0, -61.0)] {
                let o = oracle(d1, d3, 0.0, 0.0);
                let q = pricer.compute_quotes(&o, &b, d(60.0), &holding(held, 0.0), d(100.0));
                let later = pricer.compute_quotes(&o, &b, d(1.0), &holding(held, 0.0), d(100.0));
                assert_eq!(q.yes_bid.to_bits(), later.yes_bid.to_bits());
                for sum in [f(q.yes_bid) + f(q.no_ask), f(q.yes_ask) + f(q.no_bid)] {
                    assert!((sum - 1.0).abs() <= tick + hair, "{n} {mid} {sum}");
                    all += 1;
                    if (sum - 1.0).abs() <= hair {
                        exact += 1;
                    }
                }
                assert!(f(q.yes_bid) <= f(q.yes_ask) && f(q.no_bid) <= f(q.no_ask));
            }
        }
        assert!(exact * 2 > all, "{n}: {exact} of {all}");
    }
    let q = pricer.compute_quotes(
        &oracle(0.0, 0.0, 0.0, 0.0),
        &book(&[(0.413, 10.0)], &[(0.42, 10.0)], 0.01),
        d(60.0),
        &holding(0.0, 0.0),
        d(100.0),
    );
    // So many ticks, each way.
    assert_eq!((f(q.yes_bid), f(q.no_ask)), (40.0 * 0.01, 60.0 * 0.01));
    assert_eq!((f(q.yes_ask), f(q.no_bid)), (43.0 * 0.01, 57.0 * 0.01));
}

fn holding(yes: f64, no: f64) -> MarketInventory {
    MarketInventory { yes_shares: d(yes), no_shares: d(no) }
}

#[test]
fn risk_limits_orders() {
    let mut r = RiskManager::new(risk_config());
    assert!(r.can_post_order("BUY", "t", d(50.0), &holding(50.0, 0.0)));
    assert!(!r.can_post_order("BUY", "t", d(50.5), &holding(0.0, 0.0)));
    assert!(!r.can_post_order("BUY", "t", d(4.9), &holding(0.0, 0.0)));
    assert!(!r.can_post_order("BUY", "t", d(50.0), &holding(50.5, 0.0)));
    assert!(r.can_post_order("SELL", "t", d(50.0), &holding(99.0, 0.0)));
    r.set_total_exposure(d(475.0));
    assert!(r.can_post_order("SELL", "t", d(50.0), &holding(0.0, 0.0)));
    r.set_total_exposure(d(475.5));
    assert!(!r.can_post_order("SELL", "t", d(50.0), &holding(0.0, 0.0)));
    r.set_total_exposure(d(0.0));
    r.set_active_market_count(7);
    assert!(r.can_post_order("SELL", "t", d(50.0), &holding(0.0, 0.0)));
    r.set_active_market_count(8);
    assert!(!r.can_post_order("SELL", "t", d(50.0), &holding(0.0, 0.0)));
}

#[test]
fn risk_sizes_and_imbalance() {
    let r = RiskManager::new(risk_config());
    assert_eq!(f(r.get_max_order_size("BUY", &holding(80.0, 0.0))), 20.0);
    assert_eq!(f(r.get_max_order_size("BUY", &holding(10.0, 0.0))), 50.0);
    assert_eq!(f(r.get_max_order_size("BUY", &holding(130.0, 0.0))), 0.0);
    assert_eq!(f(r.get_max_order_size("SELL", &holding(0.0, 85.0))), 5.0);
    assert_eq!(f(r.get_max_order_size("HOLD", &holding(0.0, 0.0))), 50.0);
    assert!(r.check_inventory_imbalance(&holding(80.0, 0.0)));
    assert!(!r.check_inventory_imbalance(&holding(0.0, 80.5)));
}

#[test]
fn circuit_breaker_trips_once_and_lasts_until_reset() {
    let mut r = RiskManager::new(risk_config());
    r.set_total_exposure(d(12.0));
    assert!(r.update_daily_pnl(d(-30.0)).is_empty());
    let near = r.update_daily_pnl(d(-10.0));
    assert_eq!(near.len(), 1);
    match &near[0] {
        BotEvent::RiskAlert { message, daily_pnl, exposure_usd } => {
            assert_eq!(message, "Daily PnL at 80.0% of limit");
            assert_eq!(f(*daily_pnl), -40.0);
            assert_eq!(f(*exposure_usd), 12.0);
        }
        _ => panic!(),
    }
    assert!(!r.is_halted());
    let trip = r.update_daily_pnl(d(-10.5));
    assert_eq!(trip.len(), 1);
    assert!(matches!(&trip[0], BotEvent::CircuitBreaker { daily_pnl } if f(*daily_pnl) == -50.5));
    assert!(r.is_halted());
    assert!(!r.can_post_order("SELL", "t", d(10.0), &holding(0.0, 0.0)));
    assert!(r.update_daily_pnl(d(-1.0)).is_empty());
    r.update_daily_pnl(d(100.0));
    assert!(r.is_halted());
    let s = r.state();
    assert!(s.halted);
    assert_eq!(f(s.daily_pnl), 48.5);
    assert_eq!(f(s.total_exposure_usd), 12.0);
    r.reset_daily();
    assert!(!r.is_halted());
    assert_eq!(f(r.state().daily_pnl), 0.0);
    assert!(r.can_post_order("SELL", "t", d(10.0), &holding(0.0, 0.0)));
}

fn market(state: MarketState) -> MarketContext {
    MarketContext {
        condition_id: "c".to_string(),
        asset: "btc".to_string(),
        timeframe: "5min".to_string(),
        yes_token_id: "y".to_string(),
        no_token_id: "n".to_string(),
        start_time: d(1000.0),
        end_time: d(1300.0),
        state,
        neg_risk: false,
        tick_size: d(0.01),
        min_order_size: d(5.0),
        db_market_id: None,
    }
}

#[test]
fn engine_moves_markets_through_their_life() {
    let mut engine = StrategyEngine::new(
        QuotePricer::new(strategy(), None),
        ArticleStrategy::new(article_config()),
        RiskManager::new(risk_config()),
    );
    let o = oracle(0.0, 0.0, 0.0, 0.0);
    let b = OrderBook::empty("y".to_string());
    let none = MarketInventory::default();
    let mut step = |engine: &StrategyEngine, m: &mut MarketContext, now: f64| {
        engine.process_market(m, &o, &b, &none, d(now))
    };
    let mut m = market(MarketState::Discovered);
    assert!(m.is_5min());
    assert_eq!(f(m.seconds_until_close(d(1100.0))), 200.0);
    assert_eq!(f(m.seconds_until_close(d(1400.0))), 0.0);
    assert!(matches!(step(&engine, &mut m, 1000.0), StrategyAction::Hold));
    assert_eq!(m.state, MarketState::Monitoring);
    assert!(matches!(step(&engine, &mut m, 1298.0), StrategyAction::Hold));
    assert_eq!(m.state, MarketState::Monitoring);
    assert!(matches!(step(&engine, &mut m, 1298.5), StrategyAction::CancelAll));
    assert_eq!(m.state, MarketState::Settlement);
    assert!(matches!(step(&engine, &mut m, 1299.0), StrategyAction::Hold));
    assert_eq!(m.state, MarketState::Settlement);
    for unused in [MarketState::Qualifying, MarketState::Quoting, MarketState::ArticleZone] {
        let mut m = market(unused);
        assert!(matches!(step(&engine, &mut m, 1000.0), StrategyAction::Hold));
        assert_eq!(m.state, MarketState::Monitoring);
    }
    let mut w = market(MarketState::Withdrawn);
    assert!(matches!(step(&engine, &mut w, 1270.0), StrategyAction::Hold));
    assert_eq!(w.state, MarketState::Withdrawn);
    assert!(matches!(step(&engine, &mut w, 1269.0), StrategyAction::Hold));
    assert_eq!(w.state, MarketState::Monitoring);
    engine.risk.update_daily_pnl(d(-51.0));
    assert!(matches!(step(&engine, &mut w, 1269.0), StrategyAction::CancelAll));
    assert_eq!(w.state, MarketState::Withdrawn);
}

#[test]
fn quotes_follow_the_oracle_and_lean_against_the_inventory() {
    let pricer = QuotePricer::new(strategy(), None);
    let b = book(&[(0.40, 10.0)], &[(0.60, 10.0)], 0.01);
    let held = |yes: f64| MarketInventory { yes_shares: d(yes), no_shares: d(0.0) };
    let mut last = 0.0;
    for bps in [-90_000.0, -300.0, -20.0, 0.0, 20.0, 300.0, 90_000.0] {
        let fair = f(pricer.estimate_fair_value(&oracle(bps, 0.0, 0.0, 0.0), &b, d(60.0)));
        assert!(last <= fair && (0.01..=0.99).contains(&fair));
        last = fair;
    }
    let flat = pricer.compute_quotes(&oracle(0.0, 0.0, 0.0, 0.0), &b, d(60.0), &held(0.0), d(100.0));
    let long = pricer.compute_quotes(&oracle(0.0, 0.0, 0.0, 0.0), &b, d(60.0), &held(90.0), d(100.0));
    assert_eq!(f(flat.yes_bid), 0.49);
    assert!(f(long.yes_bid) < f(flat.yes_bid) && f(long.yes_ask) <= f(flat.yes_ask));
    assert!(f(long.no_bid) >= f(flat.no_bid) && f(long.no_ask) >= f(flat.no_ask));
    let rough = pricer.compute_quotes(&oracle(0.0, -2000.0, 0.0, 0.0), &b, d(60.0), &held(0.0), d(100.0));
    assert!(f(rough.yes_bid) < f(flat.yes_bid) && f(rough.yes_ask) > f(flat.yes_ask));
}

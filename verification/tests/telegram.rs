use maker_bot::config::{DiscoveryConfig, FeedConfig, RiskConfig, TelegramConfig};
use maker_bot::discovery::gamma::GammaDiscovery;
use maker_bot::discovery::gamma::{GammaEvent, GammaMarket, JsonField};
use maker_bot::discovery::rounds::{DiscoveryLoop, LoopEvent};
use maker_bot::double::Double;
use maker_bot::events::bus::BotEvent;
use maker_bot::executor::order_manager::{OrderAmounts, OrderManager};
use maker_bot::feeds::FeedHub;
use maker_bot::position::tracker::{PositionTracker, TokenPosition};
use maker_bot::strategy::risk::RiskManager;
use maker_bot::telegram::alerts::{alert_for, can_show, format_event};
use maker_bot::telegram::bot::{
    read_query, read_update, Query, RawCallback, RawMessage, RawUpdate, TelegramBot,
    TelegramState, Update,
};
use maker_bot::text;

fn d(x: f64) -> Double {
    Double::from_bits(x.to_bits())
}

/// On paper the amounts are not looked at.
fn no_amounts() -> OrderAmounts {
    OrderAmounts { price: Err(String::new()), size: Err(String::new()) }
}

struct World {
    position_tracker: PositionTracker,
    order_manager: OrderManager,
    feed_hub: FeedHub,
    discovery: DiscoveryLoop,
    risk_manager: RiskManager,
}

fn world() -> World {
    World {
        position_tracker: PositionTracker::new(),
        order_manager: OrderManager::new(),
        feed_hub: FeedHub::new(&FeedConfig {
            binance_ws_url: "b".to_string(),
            coinbase_ws_url: "c".to_string(),
            oracle_stale_max_ms: d(2000.0),
            book_stale_max_ms: d(3000.0),
            polymarket_ws_url: "p".to_string(),
        }),
        discovery: DiscoveryLoop::new(GammaDiscovery::new(
            DiscoveryConfig {
                poll_interval_ms: 1500,
                allowed_assets: vec!["btc".to_string()],
                allowed_timeframes: vec!["5min".to_string()],
                max_tracked_markets: 3,
            },
            "g".to_string(),
        )),
        risk_manager: RiskManager::new(RiskConfig {
            max_yes_position: d(100.0),
            max_no_position: d(100.0),
            max_total_exposure_usd: d(500.0),
            max_concurrent_markets: 8,
            max_daily_loss_usd: d(50.0),
            max_order_size: d(50.0),
            min_order_size: d(5.0),
            max_inventory_imbalance: d(80.0),
        }),
    }
}

impl World {
    fn state(&self, paused: bool) -> TelegramState<'_> {
        TelegramState {
            position_tracker: &self.position_tracker,
            order_manager: &self.order_manager,
            feed_hub: &self.feed_hub,
            discovery: &self.discovery.discovery,
            risk_manager: &self.risk_manager,
            paused,
        }
    }

    fn say(&self, input: &str) -> String {
        self.state(false).try_handle_input(input, d(100.0)).unwrap().message
    }
}

#[test]
fn commands_are_read() {
    for (cmd, q) in [
        ("/start", Query::Menu),
        ("back", Query::Menu),
        ("status", Query::Status),
        ("/pos", Query::Positions),
        ("/orders", Query::Orders),
        ("markets", Query::Markets),
        ("pnl", Query::Pnl),
        ("/pause", Query::Pause),
        ("resume", Query::Resume),
        ("feeds", Query::Feeds),
        ("", Query::Unknown),
        ("STATUS", Query::Unknown),
    ] {
        assert_eq!(read_query(cmd), q, "{cmd}");
    }
}

#[test]
fn answers_of_an_idle_bot() {
    let w = world();
    assert_eq!(
        w.say("  /START \n"),
        "🤖 <b>Polymarket Maker Bot</b>\n\n▶️ Running | Markets: 0 | Orders: 0\nBinance 🔴 Coinbase 🔴"
    );
    assert_eq!(w.say("positions"), "📦 <b>Positions</b>\n\nNo open positions");
    assert_eq!(w.say("orders"), "📋 <b>Orders</b>\n\nNo live orders");
    assert_eq!(
        w.say("markets"),
        "🔍 <b>Markets</b>\n\nNo active markets being tracked.\nDiscovery polls Gamma API every 1.5s for BTC/ETH 5min/15min markets."
    );
    assert_eq!(
        w.say("feeds"),
        "📡 <b>Feed Status</b>\n\nBinance: 🔴 Disconnected (last tick -1ms ago)\nCoinbase: 🔴 Disconnected (last tick -1ms ago)"
    );
    assert_eq!(w.say("what?"), "Tap a button below 👇");
}

#[test]
fn answers_of_a_busy_bot() {
    let mut w = world();
    w.position_tracker.load_from_db(vec![TokenPosition {
        token_id: "1234567890abcdef".to_string(),
        condition_id: "c".to_string(),
        side: "BUY".to_string(),
        shares: d(12.25),
        avg_entry_price: d(0.4),
    }]);
    w.order_manager.post_order("abcdefghijklm", "c", "BUY", d(0.45), d(11.0), no_amounts(), "arb_up", 1, true, d(5.0));
    w.risk_manager.update_daily_pnl(d(-60.0));
    w.risk_manager.set_active_market_count(2);
    assert_eq!(
        w.say("/positions"),
        "📦 <b>Positions (1)</b>\n\n<code>1234567890ab…</code>\n  BUY 12.2 shares @ $0.4000\n"
    );
    assert_eq!(
        w.say("/orders"),
        "📋 <b>Live Orders (1)</b>\n\nBUY 11.0 @ $0.4500\n  <code>abcdefghij…</code> [arb_up]\n"
    );
    assert_eq!(
        w.say("pnl"),
        "💰 <b>PnL Summary</b>\n\nDaily PnL: $-60.00\nTotal exposure: $4.90\nActive markets: 2\nCircuit breaker: 🔴 TRIPPED"
    );
    assert_eq!(
        w.say("status"),
        "📊 <b>Full Status</b>\n\nState: ▶️ RUNNING\nTracked markets: 0\nLive orders: 1\nOpen positions: 1\nExposure: $4.90\nDaily PnL: $-60.00\nCircuit breaker: 🔴 TRIPPED\n\n<b>Feeds</b>\nBinance: 🔴 (age: -1ms)\nCoinbase: 🔴 (age: -1ms)"
    );
}

#[test]
fn answer_on_markets() {
    let mut w = world();
    let now = d(1_700_000_123.0);
    w.discovery.advance(LoopEvent::Rested, now);
    let gm = GammaMarket {
        condition_id: Some("c1".to_string()),
        question: None,
        slug: None,
        outcomes: Some(JsonField::Text("[\"Up\",\"Down\"]".to_string())),
        clob_token_ids: Some(JsonField::Text("[\"11\",\"22\"]".to_string())),
        tokens: None,
        start_date: None,
        end_date: None,
        neg_risk: None,
        minimum_order_size: None,
        minimum_tick_size: None,
        order_price_min_tick_size: None,
        order_min_size: None,
        active: None,
        closed: None,
    };
    let event = GammaEvent { id: None, title: None, slug: None, markets: Some(vec![gm]) };
    w.discovery.advance(LoopEvent::Answered(vec![event]), now);
    w.discovery.advance(LoopEvent::Stored(None), now);
    let reply = w.state(false).handle_input("markets", now);
    assert_eq!(
        reply.message,
        "🔍 <b>Tracked Markets (1)</b>\n\nBTC 5min — 277s left\n  State: Discovered\n"
    );
}

#[test]
fn pausing_and_resuming() {
    let w = world();
    let r = w.state(false).handle_input("Pause", d(0.0));
    assert!(r.paused);
    assert_eq!(r.message, "⏸ <b>Quoting paused</b>\nAll new orders halted.");
    assert_eq!(r.keyboard.len(), 1);
    assert_eq!(r.keyboard[0][0].data, "resume");
    let r = w.state(true).handle_input("status", d(0.0));
    assert!(r.paused);
    assert_eq!(r.keyboard[0][0].label, "🔄 Refresh");
    assert!(r.message.contains("⏸ PAUSED"));
    let r = w.state(true).handle_input("/resume", d(0.0));
    assert!(!r.paused);
    assert_eq!(r.keyboard[0][0].data, "pause");
    assert_eq!(w.state(false).answer(Query::Menu, d(0.0)).keyboard.len(), 4);
}

#[test]
fn names_that_cannot_be_shortened_are_noticed() {
    let mut w = world();
    w.order_manager.post_order("123456789é", "c", "BUY", d(0.45), d(11.0), no_amounts(), "s", 1, true, d(5.0));
    assert!(!w.state(false).can_show(Query::Orders));
    assert!(w.state(false).can_show(Query::Positions));
    assert!(w.state(false).try_handle_input("orders", d(0.0)).is_none());
    assert!(w.state(false).try_handle_input("status", d(0.0)).is_some());
    assert!(!text::can_clip("123456789é", 10));
    assert!(text::can_clip("123456789é", 11));
    assert_eq!(text::clip("123456789é", 9), "123456789");
    assert!(!can_show(&BotEvent::OrderFilled {
        order_id: "12345678901é".to_string(),
        fill_price: d(1.0),
        fill_size: d(1.0),
        fully_filled: true
    }));
}

#[test]
fn alerts_are_worded() {
    let id = "0123456789abcdef0123";
    let say = |e: BotEvent| {
        assert!(can_show(&e));
        format_event(&e)
    };
    assert_eq!(
        say(BotEvent::OrderFilled { order_id: id.to_string(), fill_price: d(0.45), fill_size: d(11.0), fully_filled: false }).unwrap(),
        "📊 <b>PARTIAL</b>\nOrder: <code>0123456789ab</code>\nPrice: 0.4500 | Size: 11.0"
    );
    assert_eq!(
        say(BotEvent::CircuitBreaker { daily_pnl: d(-50.5) }).unwrap(),
        "🚨 <b>CIRCUIT BREAKER</b>\nDaily PnL: $-50.50\nAll quoting halted!"
    );
    assert_eq!(
        say(BotEvent::RiskAlert { message: "m".to_string(), daily_pnl: d(-40.0), exposure_usd: d(12.0) }).unwrap(),
        "⚠️ <b>Risk Alert</b>\nm\nPnL: $-40.00 | Exposure: $12.00"
    );
    assert_eq!(
        say(BotEvent::ArticleFired {
            condition_id: id.to_string(),
            direction: "UP".to_string(),
            price: d(0.92),
            size: d(20.0),
            conviction: d(0.9)
        })
        .unwrap(),
        "🎯 <b>ARTICLE FIRED</b>\nMarket: <code>0123456789ab</code>\nDir: UP | Price: 0.9200 | Size: 20.0\nConviction: 0.90"
    );
    assert_eq!(
        say(BotEvent::MarketDiscovered { condition_id: id.to_string(), asset: "btc".to_string(), timeframe: "5min".to_string() }).unwrap(),
        "🔍 <b>New Market</b>\nBTC 5min — <code>0123456789abcdef…</code>"
    );
    assert_eq!(say(BotEvent::FeedDisconnected { source: "binance".to_string() }).unwrap(), "🔴 <b>Feed Down:</b> binance");
    assert_eq!(say(BotEvent::FeedReconnected { source: "binance".to_string() }).unwrap(), "🟢 <b>Feed Up:</b> binance");
    assert_eq!(
        say(BotEvent::DailySummary { total_pnl: d(1.5), trades_count: 12, win_rate: d(0.625), rebates_usdc: d(0.25) }).unwrap(),
        "📈 <b>Daily Summary</b>\nPnL: $1.50 | Trades: 12 | Win: 62.5%\nRebates: $0.2500"
    );
    let edge = BotEvent::NegVigDetected {
        condition_id: "short".to_string(),
        asset: "eth".to_string(),
        timeframe: "15min".to_string(),
        yes_ask: d(0.48),
        no_ask: d(0.47),
        combined: d(0.95),
        edge_cents: d(0.05),
        yes_depth: d(30.0),
        no_depth: d(12.5),
        secs_left: d(200.4),
    };
    assert_eq!(
        say(edge.clone()).unwrap(),
        "💎 <b>NEG-VIG DETECTED</b>\nETH 15min — 200s left\nYES ask: 0.4800 | NO ask: 0.4700\nCombined: 0.9500 | <b>Edge: 5.0000¢</b>\nDepth: YES 30 / NO 12\n<code>short…</code>"
    );
    assert!(alert_for(&edge, "XYZ").unwrap().contains("\nXYZ 15min"));
    assert!(say(BotEvent::OrderCancelled { order_id: id.to_string(), reason: "r".to_string() }).is_none());
    assert!(say(BotEvent::MarketResolved { condition_id: id.to_string(), outcome: "UP".to_string() }).is_none());
}

fn raw(callback: Option<RawCallback>, message: Option<RawMessage>) -> RawUpdate {
    RawUpdate { update_id: Some(41), callback, message }
}

#[test]
fn updates_are_read() {
    let message = || RawMessage { text: Some("hi".to_string()), chat_id: Some(7) };
    match read_update(&raw(None, Some(message()))) {
        Some(Update::Message { update_id, text, chat_id }) => {
            assert_eq!((update_id, text.as_str(), chat_id), (41, "hi", 7));
        }
        _ => panic!(),
    }
    let button = RawCallback { id: None, data: Some("pnl".to_string()), chat_id: None };
    match read_update(&raw(Some(button), Some(message()))) {
        Some(Update::Callback { callback_id, data, chat_id, .. }) => {
            assert_eq!((callback_id.as_str(), data.as_str(), chat_id), ("", "pnl", 0));
        }
        _ => panic!(),
    }
    let blank = RawCallback { id: Some("x".to_string()), data: None, chat_id: None };
    assert!(read_update(&raw(Some(blank), Some(message()))).is_none());
    assert!(read_update(&raw(None, Some(RawMessage { text: None, chat_id: Some(7) }))).is_none());
    assert!(read_update(&raw(None, None)).is_none());
}

#[test]
fn updates_are_answered_in_the_right_chat() {
    let config = TelegramConfig { bot_token: Some("T".to_string()), chat_id: Some("-7".to_string()) };
    let mut bot = TelegramBot::new(config);
    assert_eq!(bot.credentials(), Some(("T".to_string(), "-7".to_string())));
    assert_eq!(bot.offset(), "0");
    assert_eq!(TelegramBot::method_url("T", "getUpdates"), "https://api.telegram.org/botT/getUpdates");
    assert_eq!(TelegramBot::greeting().0, "🟢 <b>Polymarket Maker Bot Online</b>\nPaper mode active");
    let message = Update::Message { update_id: 41, text: "hi".to_string(), chat_id: -7 };
    let a = bot.take_update(&message, "-7");
    assert!(a.acknowledge.is_none());
    assert_eq!(a.input.as_deref(), Some("hi"));
    assert_eq!(bot.offset(), "42");
    assert!(bot.take_update(&message, "7").input.is_none());
    let button = Update::Callback { update_id: 50, callback_id: "q".to_string(), data: "pnl".to_string(), chat_id: 8 };
    let a = bot.take_update(&button, "-7");
    assert_eq!(a.acknowledge.as_deref(), Some("q"));
    assert!(a.input.is_none());
    assert_eq!(bot.last_update_id, 51);
    let without = TelegramBot::new(TelegramConfig { bot_token: Some("T".to_string()), chat_id: None });
    assert!(without.credentials().is_none());
}

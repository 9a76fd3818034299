use maker_bot::config::FeedConfig;
use maker_bot::double::Double;
use maker_bot::feeds::binance::{BinanceFeed, BinanceTrade};
use maker_bot::feeds::coinbase::{CoinbaseFeed, CoinbaseMessage};
use maker_bot::feeds::delta::DeltaComputer;
use maker_bot::feeds::levels;
use maker_bot::feeds::polymarket::{
    BookAction, BookEvent, BookPhase, PolymarketFeed, WsBookLevel, WsMessage, WsPriceChange,
};
use maker_bot::feeds::stream::{Backoff, Frame, LinkAction, LinkEvent};
use maker_bot::feeds::types::{BookLevel, FeedSource, FeedUpdate};
use maker_bot::feeds::FeedHub;

fn d(x: f64) -> Double {
    Double::from_bits(x.to_bits())
}

fn f(x: Double) -> f64 {
    f64::from_bits(x.to_bits())
}

#[test]
fn backoff_doubles_up_to_its_limit() {
    let mut b = Backoff::new(30);
    let delays: Vec<u64> = (0..7).map(|_| b.take()).collect();
    assert_eq!(delays, vec![1, 2, 4, 8, 16, 30, 30]);
    b.reset();
    assert_eq!(b.take(), 1);
}

#[test]
fn delta_is_the_change_in_basis_points() {
    let mut c = DeltaComputer::new(d(120.0));
    assert!(!c.compute_delta(d(1.0), d(0.0)).available);
    assert!(c.is_empty());
    c.add_tick(d(100.0), d(50_000.0));
    c.add_tick(d(101.0), d(50_010.0));
    c.add_tick(d(103.0), d(50_025.0));
    let r = c.compute_delta(d(3.0), d(103.5));
    assert!(r.available);
    assert_eq!(f(r.delta_bps), (50_025.0 - 50_000.0) / 50_000.0 * 10_000.0);
    assert_eq!(f(r.sample_age_ms), 500.0);
    assert_eq!(f(r.window_start_ts), 100.0);
    assert_eq!(f(r.window_end_ts), 103.0);
    assert_eq!(f(c.compute_delta(d(2.0), d(103.5)).window_start_ts), 101.0);
    assert_eq!(f(c.compute_delta(d(0.0), d(103.5)).delta_bps), 0.0);
    assert_eq!(f(c.get_latest_price().unwrap()), 50_025.0);
    assert_eq!(f(c.get_latest_timestamp().unwrap()), 103.0);
    assert_eq!(c.len(), 3);
}

#[test]
fn old_ticks_are_dropped_and_the_new_one_is_kept() {
    let mut c = DeltaComputer::new(d(120.0));
    for t in [0.0, 50.0, 100.0, 120.0] {
        c.add_tick(d(t), d(1.0));
    }
    assert_eq!(c.len(), 4);
    c.add_tick(d(120.5), d(1.0));
    assert_eq!(c.len(), 4);
    c.add_tick(d(1000.0), d(2.0));
    assert_eq!(c.len(), 1);
    assert_eq!(f(c.get_latest_price().unwrap()), 2.0);
}

#[test]
fn delta_needs_positive_prices() {
    let mut c = DeltaComputer::new(d(120.0));
    c.add_tick(d(1.0), d(0.0));
    c.add_tick(d(2.0), d(10.0));
    assert!(!c.compute_delta(d(1.0), d(2.0)).available);
    assert_eq!(f(c.compute_delta(d(1.0), d(2.0)).sample_age_ms), -1.0);
}

#[test]
fn binance_names_and_trades() {
    let mut feed = BinanceFeed::new("BTC", "wss://x/ws");
    assert_eq!(feed.asset, "btc");
    assert_eq!(feed.ws_url, "wss://x/ws/btcusdt@trade");
    assert_eq!(f(feed.get_heartbeat_age_ms(d(5.0))), -1.0);
    assert!(feed.handle_message(&BinanceTrade { price: None, trade_time: 1 }, d(1.0)).is_none());
    assert_eq!(f(feed.get_price()), 0.0);
    let update = feed
        .handle_message(&BinanceTrade { price: Some(d(64_000.5)), trade_time: 1_700_000_000_123 }, d(10.0))
        .unwrap();
    match update {
        FeedUpdate::OracleTick(t) => {
            assert_eq!(f(t.price), 64_000.5);
            assert_eq!(f(t.timestamp), 1_700_000_000_123u64 as f64 / 1000.0);
            assert_eq!(t.source, FeedSource::Binance);
        }
        _ => panic!(),
    }
    assert_eq!(f(feed.get_price()), 64_000.5);
    assert_eq!(f(feed.get_heartbeat_age_ms(d(10.25))), 250.0);
    assert!(feed.get_delta(d(1.0), d(10.0)).available);
    let same = BinanceFeed::for_symbol("eth".to_string(), "b");
    assert_eq!(same.ws_url, "b/ethusdt@trade");
}

#[test]
fn binance_connection_steps() {
    let mut feed = BinanceFeed::new("eth", "w");
    assert!(!feed.is_connected());
    assert!(matches!(feed.advance(LinkEvent::Refused).0, LinkAction::Pause { seconds: 1, lost: false }));
    assert!(matches!(feed.advance(LinkEvent::Rested).0, LinkAction::Connect));
    assert!(matches!(feed.advance(LinkEvent::Refused).0, LinkAction::Pause { seconds: 2, lost: false }));
    assert!(matches!(feed.advance(LinkEvent::Rested).0, LinkAction::Connect));
    assert!(matches!(feed.advance(LinkEvent::Opened).0, LinkAction::Read));
    assert!(feed.is_connected());
    assert!(matches!(feed.advance(LinkEvent::Arrived(Frame::Text)).0, LinkAction::Handle));
    assert!(matches!(feed.advance(LinkEvent::Arrived(Frame::Ping)).0, LinkAction::Read));
    assert!(matches!(feed.advance(LinkEvent::Rested).0, LinkAction::Nothing));
    let (action, update) = feed.advance(LinkEvent::Arrived(Frame::Close));
    assert!(matches!(action, LinkAction::Pause { seconds: 1, lost: true }));
    assert!(matches!(update, Some(FeedUpdate::Disconnected(FeedSource::Binance))));
    assert!(!feed.is_connected());
}

fn coinbase(kind: &str, price: Option<f64>, time: Option<&str>) -> CoinbaseMessage {
    CoinbaseMessage {
        msg_type: kind.to_string(),
        price: price.map(d),
        time: time.map(|t| t.to_string()),
    }
}

#[test]
fn coinbase_reads_matches_and_their_time() {
    let mut feed = CoinbaseFeed::new("BTC-USD", "wss://c");
    assert_eq!(feed.product_id, "BTC-USD");
    assert!(feed.handle_message(&coinbase("ticker", Some(1.0), None), d(7.0)).is_none());
    assert!(feed.handle_message(&coinbase("match", None, None), d(7.0)).is_none());
    assert_eq!(f(feed.get_price()), 0.0);
    let read = |u: Option<FeedUpdate>| match u {
        Some(FeedUpdate::OracleTick(t)) => {
            assert_eq!(t.source, FeedSource::Coinbase);
            f(t.timestamp)
        }
        _ => panic!(),
    };
    let stamp = read(feed.handle_message(
        &coinbase("match", Some(100.0), Some("2024-01-02T03:04:05.678Z")),
        d(7.0),
    ));
    assert_eq!(stamp, 1_704_164_645i64 as f64 + 678u32 as f64 / 1000.0);
    let offset = read(feed.handle_message(
        &coinbase("last_match", Some(100.0), Some("2024-01-02T04:04:05+01:00")),
        d(7.0),
    ));
    assert_eq!(offset, 1_704_164_645.0);
    assert_eq!(read(feed.handle_message(&coinbase("match", Some(1.0), Some("yesterday")), d(7.0))), 7.0);
    assert_eq!(read(feed.handle_message(&coinbase("match", Some(1.0), None), d(8.0))), 8.0);
    assert_eq!(read(feed.handle_match("match", Some(d(1.0)), Some((10, 250)), d(8.0))), 10.25);
    assert_eq!(f(feed.get_heartbeat_age_ms(d(9.0))), 1000.0);
}

#[test]
fn coinbase_connection_steps() {
    let mut feed = CoinbaseFeed::new("ETH-USD", "wss://c");
    assert!(matches!(feed.advance(LinkEvent::Opened).0, LinkAction::Subscribe));
    assert!(feed.is_connected());
    let (action, update) = feed.advance(LinkEvent::NotSent);
    assert!(matches!(action, LinkAction::Pause { seconds: 1, lost: false }));
    assert!(update.is_none());
    assert!(!feed.is_connected());
    feed.advance(LinkEvent::Rested);
    feed.advance(LinkEvent::Opened);
    assert!(matches!(feed.advance(LinkEvent::Sent).0, LinkAction::Read));
    let (action, update) = feed.advance(LinkEvent::Arrived(Frame::Ended));
    assert!(matches!(action, LinkAction::Pause { seconds: 1, lost: true }));
    assert!(matches!(update, Some(FeedUpdate::Disconnected(FeedSource::Coinbase))));
}

fn levels_of(v: &[(f64, f64)]) -> Vec<BookLevel> {
    v.iter().map(|&(p, s)| BookLevel { price: d(p), size: d(s) }).collect()
}

fn plain(v: &[BookLevel]) -> Vec<(f64, f64)> {
    v.iter().map(|l| (f(l.price), f(l.size))).collect()
}

#[test]
fn levels_are_sorted_like_a_stable_sort() {
    let raw = [(0.3, 1.0), (0.5, 2.0), (0.3, 3.0), (0.1, 4.0), (0.5, 5.0), (-0.0, 6.0), (0.0, 7.0)];
    for buy in [true, false] {
        let mut v = levels_of(&raw);
        levels::arrange(&mut v, buy);
        let mut w = raw.to_vec();
        w.sort_by(|a, b| if buy { b.0.partial_cmp(&a.0).unwrap() } else { a.0.partial_cmp(&b.0).unwrap() });
        assert_eq!(plain(&v), w);
    }
}

#[test]
fn level_changes() {
    let mut v = levels_of(&[(0.5, 1.0), (0.4, 2.0)]);
    levels::change(&mut v, d(0.4000001), d(9.0), true);
    assert_eq!(plain(&v), vec![(0.5, 1.0), (0.4, 9.0)]);
    levels::change(&mut v, d(0.45), d(3.0), true);
    assert_eq!(plain(&v), vec![(0.5, 1.0), (0.45, 3.0), (0.4, 9.0)]);
    levels::change(&mut v, d(0.45), d(0.0), true);
    assert_eq!(plain(&v), vec![(0.5, 1.0), (0.4, 9.0)]);
    levels::change(&mut v, d(0.7), d(0.0), true);
    assert_eq!(plain(&v), vec![(0.5, 1.0), (0.4, 9.0)]);
    levels::change(&mut v, d(0.1), d(1.5), false);
    assert_eq!(plain(&v), vec![(0.1, 1.5), (0.4, 9.0), (0.5, 1.0)]);
}

fn snapshot(token: &str, bids: &[(f64, f64)], asks: &[(f64, f64)]) -> WsMessage {
    let side = |v: &[(f64, f64)]| {
        Some(v.iter().map(|&(p, s)| WsBookLevel { price: Some(d(p)), size: Some(d(s)) }).collect())
    };
    WsMessage {
        event_type: Some("book".to_string()),
        asset_id: Some(token.to_string()),
        bids: side(bids),
        asks: side(asks),
        price_changes: None,
    }
}

fn change(token: Option<&str>, price: Option<f64>, size: Option<f64>, side: Option<&str>) -> WsPriceChange {
    WsPriceChange {
        asset_id: token.map(|t| t.to_string()),
        price: price.map(d),
        size: size.map(d),
        side: side.map(|s| s.to_string()),
    }
}

fn changes(v: Vec<WsPriceChange>) -> WsMessage {
    WsMessage {
        event_type: Some("price_change".to_string()),
        asset_id: None,
        bids: None,
        asks: None,
        price_changes: Some(v),
    }
}

#[test]
fn books_are_kept_and_changed() {
    let mut feed = PolymarketFeed::new("wss://p");
    assert!(feed.get_book("a").is_none());
    let mut msg = snapshot("a", &[(0.48, 1.0)], &[(0.52, 2.0)]);
    if let Some(b) = &mut msg.bids {
        b.push(WsBookLevel { price: None, size: Some(d(1.0)) });
    }
    let out = feed.process_message(&msg, d(5.0));
    assert_eq!(out.len(), 1);
    assert!(matches!(&out[0], FeedUpdate::BookSnapshot(b) if b.token_id == "a"));
    let book = feed.get_book("a").unwrap();
    assert_eq!(plain(&book.bids), vec![(0.48, 1.0)]);
    assert_eq!(f(book.timestamp), 5.0);
    assert_eq!(f(book.tick_size), 0.01);
    let out = feed.process_message(
        &changes(vec![
            change(Some("a"), Some(0.49), Some(3.0), Some("BUY")),
            change(Some("a"), Some(0.52), Some(0.0), Some("SELL")),
            change(Some("b"), Some(0.3), Some(1.0), None),
            change(None, Some(0.3), Some(1.0), Some("BUY")),
            change(Some("a"), None, Some(1.0), Some("BUY")),
            change(Some("a"), Some(0.3), None, Some("BUY")),
        ]),
        d(6.0),
    );
    assert_eq!(out.len(), 3);
    assert!(matches!(&out[2], FeedUpdate::BookDelta { token_id, side, .. } if token_id == "b" && side.is_empty()));
    let book = feed.get_book("a").unwrap();
    assert_eq!(plain(&book.bids), vec![(0.49, 3.0), (0.48, 1.0)]);
    assert!(book.asks.is_empty());
    assert_eq!(f(book.timestamp), 6.0);
    assert!(feed.get_book("b").is_none());
    let other = WsMessage { event_type: Some("tick_size_change".to_string()), asset_id: Some("a".to_string()), bids: None, asks: None, price_changes: None };
    assert!(feed.process_message(&other, d(7.0)).is_empty());
}

#[test]
fn changes_keep_both_sides_in_order() {
    let mut feed = PolymarketFeed::new("wss://p");
    let bids = [(0.48, 1.0), (0.45, 2.0), (0.40, 3.0)];
    let asks = [(0.52, 2.0), (0.60, 1.0)];
    feed.process_message(&snapshot("a", &bids, &asks), d(1.0));
    feed.process_message(&snapshot("b", &bids, &asks), d(1.0));
    let msg = changes(vec![
        change(Some("a"), Some(0.50), Some(4.0), Some("BUY")),
        change(Some("a"), Some(0.42), Some(5.0), Some("BUY")),
        change(Some("a"), Some(0.45), Some(6.0), Some("BUY")),
        change(Some("a"), Some(0.10), Some(7.0), Some("BUY")),
        change(Some("x"), Some(0.10), Some(7.0), Some("BUY")),
    ]);
    feed.process_message(&msg, d(2.0));
    let a = feed.get_book("a").unwrap();
    let prices: Vec<f64> = a.bids.iter().map(|l| f(l.price)).collect();
    assert_eq!(prices, vec![0.50, 0.48, 0.45, 0.42, 0.40, 0.10]);
    assert_eq!(plain(&a.asks), asks.to_vec());
    let b = feed.get_book("b").unwrap();
    assert_eq!((plain(&b.bids), plain(&b.asks)), (bids.to_vec(), asks.to_vec()));
    assert!(feed.get_book("x").is_none());
}

#[test]
fn an_added_level_comes_off() {
    let mut feed = PolymarketFeed::new("wss://p");
    let bids = [(0.48, 1.0), (0.45, 2.0)];
    let asks = [(0.52, 2.0), (0.60, 1.0)];
    feed.process_message(&snapshot("a", &bids, &asks), d(1.0));
    for (price, side) in [(0.50, "BUY"), (0.46, "BUY"), (0.1, "BUY"), (0.55, "SELL"), (0.9, "SELL")] {
        let before = feed.get_book("a").unwrap();
        feed.process_message(&changes(vec![change(Some("a"), Some(price), Some(3.0), Some(side))]), d(2.0));
        let with = feed.get_book("a").unwrap();
        assert_eq!(with.bids.len() + with.asks.len(), 5);
        feed.process_message(&changes(vec![change(Some("a"), Some(price), Some(0.0), Some(side))]), d(3.0));
        let after = feed.get_book("a").unwrap();
        assert_eq!(plain(&after.bids), plain(&before.bids));
        assert_eq!(plain(&after.asks), plain(&before.asks));
    }
}

#[test]
fn texts_stand_for_messages() {
    let mut feed = PolymarketFeed::new("wss://p");
    assert!(feed.handle_message("PONG", None, Some(snapshot("a", &[], &[])), d(1.0)).is_empty());
    assert!(feed.handle_message("pong", None, Some(snapshot("a", &[], &[])), d(1.0)).is_empty());
    assert!(feed.get_book("a").is_none());
    let batch = vec![snapshot("a", &[], &[]), snapshot("b", &[], &[])];
    assert_eq!(feed.handle_message("[..]", Some(batch), None, d(1.0)).len(), 2);
    assert!(feed.get_book("b").is_some());
    assert_eq!(feed.handle_message("[x", None, Some(snapshot("c", &[], &[])), d(1.0)).len(), 1);
    assert_eq!(feed.handle_message("{}", Some(vec![]), Some(snapshot("e", &[], &[])), d(1.0)).len(), 1);
    assert!(feed.handle_message("{", None, None, d(1.0)).is_empty());
}

fn names(v: &[&str]) -> Vec<String> {
    v.iter().map(|s| s.to_string()).collect()
}

#[test]
fn subscriptions_hold_each_token_once() {
    let mut feed = PolymarketFeed::new("wss://p");
    assert!(feed.subscribe(names(&["a", "b", "a"])));
    assert_eq!(feed.subscribed_tokens, names(&["a", "b"]));
    assert!(!feed.subscribe(names(&["b", "a"])));
    assert!(feed.subscribe(names(&["b", "c"])));
    assert_eq!(feed.subscribed_tokens, names(&["a", "b", "c"]));
    feed.process_message(&snapshot("a", &[], &[]), d(1.0));
    feed.unsubscribe(names(&["a", "x"]));
    assert_eq!(feed.subscribed_tokens, names(&["b", "c"]));
    assert!(feed.get_book("a").is_none());
}

#[test]
fn order_book_connection_steps() {
    let mut feed = PolymarketFeed::new("wss://p");
    assert!(matches!(feed.advance(BookEvent::Rested), BookAction::Await { seconds: 2 }));
    assert_eq!(feed.phase, BookPhase::Waiting);
    feed.subscribe(names(&["a"]));
    assert!(matches!(feed.advance(BookEvent::Notified), BookAction::Connect));
    assert_eq!(feed.joined, names(&["a"]));
    assert!(matches!(feed.advance(BookEvent::Opened), BookAction::Subscribe));
    assert!(matches!(feed.advance(BookEvent::Sent), BookAction::Read));
    assert!(matches!(feed.advance(BookEvent::Arrived(Frame::Ping)), BookAction::Answer));
    assert!(matches!(feed.advance(BookEvent::PingDue), BookAction::Ping));
    assert!(matches!(feed.advance(BookEvent::Notified), BookAction::Read));
    feed.subscribe(names(&["b"]));
    assert!(matches!(feed.advance(BookEvent::Notified), BookAction::Pause { seconds: 1, close: true }));
    assert!(matches!(feed.advance(BookEvent::Rested), BookAction::Connect));
    assert_eq!(feed.joined, names(&["a", "b"]));
    feed.advance(BookEvent::Opened);
    feed.advance(BookEvent::Sent);
    // One token for another: their number is the same, and still the stream reconnects.
    feed.unsubscribe(names(&["a"]));
    feed.subscribe(names(&["e"]));
    assert!(matches!(feed.advance(BookEvent::Notified), BookAction::Pause { seconds: 1, close: true }));
    assert!(matches!(feed.advance(BookEvent::Rested), BookAction::Connect));
    assert_eq!(feed.joined, names(&["b", "e"]));
    assert!(matches!(feed.advance(BookEvent::Refused), BookAction::Pause { seconds: 2, close: false }));
    feed.advance(BookEvent::Rested);
    assert!(matches!(feed.advance(BookEvent::Opened), BookAction::Subscribe));
    assert!(matches!(feed.advance(BookEvent::NotSent), BookAction::Pause { seconds: 1, close: false }));
}

fn hub() -> FeedHub {
    FeedHub::new(&FeedConfig {
        binance_ws_url: "wss://b".to_string(),
        coinbase_ws_url: "wss://c".to_string(),
        oracle_stale_max_ms: d(2000.0),
        book_stale_max_ms: d(3000.0),
        polymarket_ws_url: "wss://p".to_string(),
    })
}

#[test]
fn hub_joins_the_feeds() {
    let mut h = hub();
    assert_eq!(h.binance_btc.ws_url, "wss://b/btcusdt@trade");
    assert_eq!(h.binance_eth.ws_url, "wss://b/ethusdt@trade");
    assert_eq!(h.coinbase_eth.product_id, "ETH-USD");
    assert_eq!(h.polymarket.ws_url, "wss://p");
    h.binance_btc.handle_message(&BinanceTrade { price: Some(d(10.0)), trade_time: 1000 }, d(1.0));
    h.binance_eth.handle_message(&BinanceTrade { price: Some(d(20.0)), trade_time: 1000 }, d(1.0));
    assert_eq!(f(h.oracle_snapshot("ETH", d(2.0)).binance_price), 20.0);
    assert_eq!(f(h.oracle_snapshot("Btc", d(2.0)).binance_price), 10.0);
    let sol = h.oracle_snapshot("sol", d(2.0));
    assert_eq!(f(sol.binance_price), 10.0);
    assert_eq!(f(sol.timestamp), 2.0);
    assert!(sol.binance_delta_60s.available);
    assert!(!sol.coinbase_delta_1s.available);
    assert_eq!(f(h.symbol_snapshot("eth", d(2.0)).binance_price), 20.0);
    assert_eq!(f(h.symbol_snapshot("ETH", d(2.0)).binance_price), 10.0);
    let status = h.feed_status(d(1.5));
    assert!(!status.binance_connected);
    assert_eq!(f(status.binance_last_tick_ms), 500.0);
    assert_eq!(f(status.coinbase_last_tick_ms), -1.0);
    assert!(h.subscribe_market("y", "n"));
    assert!(!h.subscribe_market("n", "y"));
    assert!(h.subscribe_market("y", "z"));
    h.polymarket.process_message(&snapshot("y", &[], &[]), d(1.0));
    assert!(h.get_book("y").is_some());
    h.unsubscribe_market("y", "n");
    assert!(h.get_book("y").is_none());
    assert_eq!(h.polymarket.subscribed_tokens, names(&["z"]));
}

#[test]
fn changes_have_the_sign_of_the_move() {
    for (from, to) in [(100.0, 101.0), (101.0, 100.0), (100.0, 100.0), (1e-300, 1e300)] {
        let mut c = DeltaComputer::new(d(120.0));
        c.add_tick(d(10.0), d(from));
        c.add_tick(d(11.0), d(to));
        let r = c.compute_delta(d(1.0), d(12.0));
        assert!(r.available);
        let bps = f(r.delta_bps);
        assert!(if to >= from { bps >= 0.0 } else { bps < 0.0 });
        assert_eq!(bps, (to - from) / from * 10_000.0);
    }
}

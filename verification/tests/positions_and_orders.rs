use maker_bot::config::AuthConfig;
use maker_bot::double::Double;
use maker_bot::events::bus::BotEvent;
use maker_bot::executor::amount::{order_amount, Amount};
use maker_bot::executor::order_manager::{
    account_setup, setup_from, signature_type, ticket_from, Effect, OrderAmounts, OrderManager,
    OrderType, PostOutcome, SignatureType,
};
use maker_bot::position::merger::{check_and_merge, find_merges, merge_confirmed, MergeOpportunity};
use maker_bot::position::tracker::{exposure_in, inventory_in, PositionTracker, TokenPosition};

fn d(x: f64) -> Double {
    Double::from_bits(x.to_bits())
}

fn f(x: Double) -> f64 {
    f64::from_bits(x.to_bits())
}

fn position(token: &str, condition: &str, side: &str, shares: f64, price: f64) -> TokenPosition {
    TokenPosition {
        token_id: token.to_string(),
        condition_id: condition.to_string(),
        side: side.to_string(),
        shares: d(shares),
        avg_entry_price: d(price),
    }
}

#[test]
fn purchases_average_and_sales_keep_the_price() {
    let mut t = PositionTracker::new();
    let row = t.on_fill("y", "c", "BUY", d(0.4), d(10.0));
    assert_eq!((f(row.shares), f(row.avg_entry_price)), (10.0, 0.4));
    let row = t.on_fill("y", "c", "BUY", d(0.6), d(30.0));
    assert_eq!(f(row.shares), 40.0);
    assert_eq!(f(row.avg_entry_price), (0.4 * 10.0 + 0.6 * 30.0) / 40.0);
    let average = f(row.avg_entry_price);
    let row = t.on_fill("y", "c", "SELL", d(0.9), d(15.0));
    assert_eq!((f(row.shares), f(row.avg_entry_price)), (25.0, average));
    assert_eq!(row.side, "SELL");
    let row = t.on_fill("y", "c", "SELL", d(0.9), d(100.0));
    assert_eq!((f(row.shares), f(row.avg_entry_price)), (0.0, average));
    assert_eq!(t.position_count(), 0);
    let all = t.all_positions();
    assert_eq!(all.len(), 1);
    assert_eq!(all[0].side, "BUY");
}

#[test]
fn inventory_and_exposure() {
    let mut t = PositionTracker::new();
    t.load_from_db(vec![
        position("a", "c1", "BUY", 10.0, 0.5),
        position("b", "c1", "SELL", 4.0, 0.25),
        position("e", "c2", "BUY", 7.0, 0.5),
        position("g", "c2", "BUY", 0.0, 0.9),
    ]);
    let i = t.get_inventory("c1");
    assert_eq!((f(i.yes_shares), f(i.no_shares)), (10.0, 4.0));
    let i = t.get_inventory("other");
    assert_eq!((f(i.yes_shares), f(i.no_shares)), (0.0, 0.0));
    assert_eq!(f(t.get_total_exposure_usd()), 9.5);
    assert_eq!(t.position_count(), 3);
    t.load_from_db(vec![position("a", "c1", "BUY", 1.0, 0.5)]);
    assert_eq!(t.all_positions().len(), 4);
    assert_eq!(f(t.get_inventory("c1").yes_shares), 1.0);
    let list = vec![position("a", "c1", "BUY", 0.1, 1.0), position("b", "c1", "BUY", 0.2, 1.0)];
    assert_eq!(f(inventory_in(&list, "c1").yes_shares), 0.0 + 0.1 + 0.2);
    assert_eq!(f(exposure_in(&list)), 0.1 * 1.0 + 0.2 * 1.0);
    let none: Vec<f64> = vec![];
    assert_eq!(exposure_in(&vec![]).to_bits(), none.iter().sum::<f64>().to_bits());
    let zeros = vec![position("a", "c1", "BUY", 0.0, 0.5), position("b", "c1", "BUY", 0.0, 0.5)];
    assert_eq!(exposure_in(&zeros).to_bits(), 0);
}

#[test]
fn fills_of_other_markets_keep_an_inventory() {
    let mut t = PositionTracker::new();
    t.load_from_db(vec![
        position("a", "c1", "BUY", 10.0, 0.5),
        position("b", "c1", "SELL", 4.0, 0.25),
        position("e", "c2", "BUY", 7.0, 0.5),
    ]);
    let held = |t: &PositionTracker, c: &str| {
        let i = t.get_inventory(c);
        (f(i.yes_shares), f(i.no_shares))
    };
    for (token, market, side) in [("e", "c2", "BUY"), ("e", "c2", "SELL"), ("g", "c3", "BUY"), ("h", "c2", "SELL")] {
        t.on_fill(token, market, side, d(0.5), d(3.0));
        assert_eq!(held(&t, "c1"), (10.0, 4.0));
    }
    assert_eq!(held(&t, "c3"), (3.0, 0.0));
    assert_eq!(held(&t, "unknown"), (0.0, 0.0));
    t.on_fill("a", "c1", "BUY", d(0.5), d(1.0));
    assert_eq!(held(&t, "c1"), (11.0, 4.0));
}

#[test]
fn merges_need_two_tokens_and_a_whole_share() {
    let list = vec![
        position("a", "c1", "BUY", 10.7, 0.5),
        position("b", "c1", "BUY", 3.9, 0.5),
        position("e", "c2", "BUY", 50.0, 0.5),
        position("g", "c3", "BUY", 5.0, 0.5),
        position("h", "c3", "BUY", 0.5, 0.5),
        position("i", "c4", "BUY", 1.0, 0.5),
        position("j", "c4", "BUY", 1.0, 0.5),
        position("k", "c4", "BUY", 2.0, 0.5),
    ];
    let found = find_merges(&list);
    let plain: Vec<(&str, u64)> = found.iter().map(|m| (m.condition_id.as_str(), m.sets)).collect();
    assert_eq!(plain, vec![("c1", 3), ("c4", 1)]);
    let mut t = PositionTracker::new();
    t.load_from_db(list);
    assert_eq!(check_and_merge(&t, true).len(), 2);
    assert!(check_and_merge(&PositionTracker::new(), false).is_empty());
}

#[test]
fn a_confirmed_merge_lowers_both_tokens() {
    let mut t = PositionTracker::new();
    t.load_from_db(vec![
        position("a", "c1", "BUY", 10.75, 0.5),
        position("b", "c1", "SELL", 3.5, 0.25),
        position("e", "c2", "BUY", 50.0, 0.5),
    ]);
    let merges = check_and_merge(&t, true);
    assert_eq!((merges.len(), merges[0].sets), (1, 3));
    let mut rows = merge_confirmed(&mut t, &merges[0]);
    rows.sort_by(|x, y| x.token_id.cmp(&y.token_id));
    let plain: Vec<(&str, &str, f64, f64)> = rows
        .iter()
        .map(|p| (p.token_id.as_str(), p.side.as_str(), f(p.shares), f(p.avg_entry_price)))
        .collect();
    assert_eq!(plain, vec![("a", "BUY", 7.75, 0.5), ("b", "SELL", 0.5, 0.25)]);
    let i = t.get_inventory("c1");
    assert_eq!((f(i.yes_shares), f(i.no_shares)), (7.75, 0.5));
    assert_eq!(f(t.get_inventory("c2").yes_shares), 50.0);
    assert!(check_and_merge(&t, true).is_empty());
    let other = MergeOpportunity { condition_id: "unknown".to_string(), sets: 1 };
    assert!(merge_confirmed(&mut t, &other).is_empty());
}

fn status(e: &Effect) -> (&str, &str) {
    match e {
        Effect::RecordStatus { order_id, status, .. } => (order_id, status),
        _ => panic!(),
    }
}

fn amount(mantissa: i128, scale: u32) -> Amount {
    Amount::new(mantissa, scale).unwrap()
}

fn amounts() -> OrderAmounts {
    OrderAmounts { price: Ok(amount(4, 1)), size: Ok(amount(2, 0)) }
}

fn post(m: &mut OrderManager, token: &str, condition: &str, now: f64) -> String {
    match m.post_order(token, condition, "BUY", d(0.4), d(2.0), amounts(), "arb_up", 7, true, d(now)) {
        PostOutcome::Posted { order_id, effects } => {
            assert_eq!(effects.len(), 2);
            match &effects[0] {
                Effect::RecordOrder(o) => {
                    assert_eq!(o.order_id, order_id);
                    assert_eq!((o.token_id.as_str(), o.market_db_id), (token, 7));
                    assert_eq!(f(o.posted_at), now);
                }
                _ => panic!(),
            }
            assert!(matches!(&effects[1], Effect::Publish(BotEvent::OrderPosted { strategy, .. }) if strategy == "arb_up"));
            order_id
        }
        _ => panic!(),
    }
}

#[test]
fn paper_orders_are_posted_at_once() {
    let mut m = OrderManager::new();
    assert_eq!(post(&mut m, "123456789", "c1", 1_700_000_000.9), "paper-12345678-1700000000");
    assert_eq!(post(&mut m, "abc", "c1", 2.0), "paper-abc-2");
    assert_eq!(post(&mut m, "ünïcödé-long", "c2", 3.0), "paper-ünïcödé--3");
    assert_eq!(m.live_order_count(), 3);
    assert_eq!(m.get_market_orders("c1").len(), 2);
    assert_eq!(m.all_orders().len(), 3);
    assert_eq!(m.live_order_ids().len(), 3);
}

#[test]
fn paper_orders_of_one_second_are_told_apart() {
    let mut m = OrderManager::new();
    assert_eq!(post(&mut m, "abc", "c1", 2.0), "paper-abc-2");
    assert_eq!(post(&mut m, "abc", "c1", 2.5), "paper-abc-2-1");
    assert_eq!(post(&mut m, "abc", "c1", 2.9), "paper-abc-2-2");
    let unusable = OrderAmounts { price: Err("p".to_string()), size: Err("s".to_string()) };
    match m.post_order("abc", "c1", "SELL", d(0.6), d(2.0), unusable, "quoting", 7, true, d(2.0)) {
        PostOutcome::Posted { order_id, .. } => assert_eq!(order_id, "paper-abc-2-3"),
        _ => panic!(),
    }
    assert_eq!(m.live_order_count(), 4);
    let sides: Vec<String> = m.get_market_orders("c1").into_iter().map(|o| o.side).collect();
    assert_eq!(sides.iter().filter(|s| *s == "BUY").count(), 3);
    assert_eq!(sides.iter().filter(|s| *s == "SELL").count(), 1);
}

#[test]
fn live_orders_are_checked_before_sending() {
    let mut m = OrderManager::new();
    let mut send = |token: &str, side: &str| {
        let amounts = OrderAmounts { price: Ok(amount(-4567, 4)), size: Ok(amount(2125, 3)) };
        m.post_order(token, "c", side, d(-0.4567), d(2.125), amounts, "arb_up", 7, false, d(1.0))
    };
    match send("18446744073709551617", "BUY") {
        PostOutcome::Send(t) => {
            assert_eq!(t.token, vec![1, 1, 0, 0]);
            assert!(t.buy);
            assert_eq!((t.price, t.size), (amount(-46, 2), amount(212, 2)));
            assert_eq!(t.order_type, OrderType::Gtc);
        }
        _ => panic!(),
    }
    assert!(matches!(send("0x10", "SELL"), PostOutcome::Send(t) if !t.buy && t.token == vec![16, 0, 0, 0]));
    assert!(matches!(send("5", "HOLD"), PostOutcome::Rejected(e) if e == "invalid side: HOLD"));
    assert!(matches!(send("token", "HOLD"), PostOutcome::Rejected(e) if e.starts_with("invalid token ID: ")));
    assert_eq!(m.live_order_count(), 0);
    let effects = m.order_accepted("id-1", "5", "c", "BUY", d(0.4), d(2.0), "quoting", 7, d(9.0));
    assert_eq!(effects.len(), 2);
    assert_eq!(m.live_order_count(), 1);
    let refused = |amounts: OrderAmounts| ticket_from(Ok(vec![1, 0, 0, 0]), "BUY", amounts).unwrap_err();
    assert!(matches!(ticket_from(Err("why".to_string()), "BUY", amounts()), Err(e) if e == "invalid token ID: why"));
    assert_eq!(refused(OrderAmounts { price: Err("p".to_string()), size: Err("s".to_string()) }), "invalid price: p");
    assert_eq!(refused(OrderAmounts { price: Ok(amount(1, 0)), size: Err("s".to_string()) }), "invalid size: s");
    let unread = OrderAmounts { price: Err("p".to_string()), ..amounts() };
    assert_eq!(ticket_from(Ok(vec![1, 0, 0, 0]), "buy", unread).unwrap_err(), "invalid side: buy");
}

#[test]
fn amounts_are_rounded_half_to_even() {
    for (mantissa, scale, rounded) in [
        (5i128, 0, (5, 0)),
        (123, 2, (123, 2)),
        (12345, 4, (123, 2)),
        (12350, 4, (124, 2)),
        (12450, 4, (124, 2)),
        (12451, 4, (125, 2)),
        (-12350, 4, (-124, 2)),
        (-12450, 4, (-124, 2)),
        (4, 3, (0, 2)),
        (5, 3, (0, 2)),
        (15, 3, (2, 2)),
        (0, 28, (0, 2)),
        (79_228_162_514_264_337_593_543_950_335, 28, (792, 2)),
        (-79_228_162_514_264_337_593_543_950_335, 3, (-7_922_816_251_426_433_759_354_395_034, 2)),
    ] {
        assert_eq!(order_amount(mantissa, scale), rounded, "{mantissa} {scale}");
    }
    // Against the nearest whole number of cents, for many amounts.
    for m in -3000i128..3000 {
        let (cents, scale) = order_amount(m, 4);
        assert_eq!(scale, 2);
        let off = (cents * 100 - m).abs();
        assert!(off < 50 || (off == 50 && cents % 2 == 0), "{m}");
        assert_eq!(order_amount(cents, scale), (cents, scale));
    }
    assert!(Amount::new(1 << 96, 0).is_none());
    assert!(Amount::new(-(1 << 96), 0).is_none());
    assert!(Amount::new(1, 29).is_none());
    assert!(Amount::new((1 << 96) - 1, 28).is_some());
}

#[test]
fn cancelling_an_order() {
    let mut m = OrderManager::new();
    let id = post(&mut m, "t", "c", 1.0);
    let effects = m.cancel_order(&id, true);
    assert_eq!(effects.len(), 2);
    assert_eq!(status(&effects[0]), (id.as_str(), "cancelled"));
    assert!(matches!(&effects[1], Effect::Publish(BotEvent::OrderCancelled { reason, .. }) if reason == "paper_cancel"));
    assert_eq!(m.live_order_count(), 0);
    let effects = m.cancel_order("x", false);
    assert_eq!(effects.len(), 3);
    assert!(matches!(&effects[1], Effect::Publish(BotEvent::OrderCancelled { reason, .. }) if reason == "cancel_replace"));
    assert!(matches!(&effects[2], Effect::CancelOnExchange { order_id } if order_id == "x"));
}

#[test]
fn cancelling_a_market_spares_others() {
    let mut m = OrderManager::new();
    post(&mut m, "a", "c1", 1.0);
    post(&mut m, "b", "c1", 1.0);
    post(&mut m, "e", "c2", 1.0);
    let (count, effects) = m.cancel_market_orders("c1", true);
    assert_eq!(count, 2);
    assert_eq!(effects.len(), 4);
    assert_eq!(m.live_order_count(), 1);
    assert_eq!(m.get_market_orders("c2").len(), 1);
    assert_eq!(m.cancel_market_orders("c1", true).0, 0);
}

#[test]
fn cancelling_everything() {
    let mut m = OrderManager::new();
    assert!(m.cancel_all(&vec![], true).is_empty());
    post(&mut m, "a", "c1", 1.0);
    post(&mut m, "b", "c1", 1.0);
    let ids = m.live_order_ids();
    let effects = m.cancel_all(&ids, true);
    assert_eq!(effects.len(), 2);
    assert_eq!(status(&effects[0]), (ids[0].as_str(), "cancelled"));
    assert_eq!(m.live_order_count(), 0);
    post(&mut m, "a", "c1", 1.0);
    let ids = m.live_order_ids();
    let effects = m.cancel_all(&ids, false);
    assert_eq!(effects.len(), 4);
    assert!(matches!(&effects[2], Effect::CancelOnExchange { .. }));
    assert_eq!(status(&effects[3]).1, "cancelled");
}

#[test]
fn fills_and_reconciliation() {
    let mut m = OrderManager::new();
    let paper = post(&mut m, "a", "c", 1.0);
    m.order_accepted("x1", "5", "c", "BUY", d(0.4), d(2.0), "quoting", 7, d(9.0));
    m.order_accepted("x2", "5", "c", "BUY", d(0.4), d(2.0), "quoting", 7, d(9.0));
    let effects = m.on_fill("x1", d(0.4), d(1.0), false);
    assert_eq!(status(&effects[1]), ("x1", "partially_filled"));
    assert_eq!(m.live_order_count(), 3);
    let effects = m.on_fill("x1", d(0.4), d(1.0), true);
    assert!(matches!(&effects[0], Effect::Publish(BotEvent::OrderFilled { fully_filled: true, .. })));
    assert_eq!(status(&effects[1]), ("x1", "filled"));
    assert_eq!(m.live_order_count(), 2);
    assert!(m.reconcile(&vec!["x2".to_string()]).is_empty());
    let effects = m.reconcile(&vec!["other".to_string()]);
    assert_eq!(effects.len(), 1);
    assert_eq!(status(&effects[0]), ("x2", "expired"));
    assert_eq!(m.live_order_ids(), vec![paper]);
    assert!(m.reconcile(&vec![]).is_empty());
}

fn auth(kind: u8, key: &str, funder: &str) -> AuthConfig {
    AuthConfig {
        private_key: "k".to_string(),
        funder_address: funder.to_string(),
        signature_type: kind,
        clob_api_key: key.to_string(),
        clob_api_secret: "s".to_string(),
        clob_api_passphrase: "p".to_string(),
    }
}

#[test]
fn accounts_are_set_up_from_credentials() {
    let key = "00000000-0000-0000-0000-00000000002a";
    let funder = "0x00000000000000000000000000000000000000ff";
    let signer = || Ok(vec![7u8; 20]);
    let s = account_setup(&auth(1, key, funder), signer(), Ok(())).unwrap();
    assert_eq!(s.signer, vec![7u8; 20]);
    assert_eq!(s.api_key, 42);
    assert_eq!(s.signature_type, SignatureType::Proxy);
    let mut bytes = vec![0u8; 20];
    bytes[19] = 255;
    assert_eq!(s.funder, Some(bytes));
    assert_eq!(account_setup(&auth(0, key, "nonsense"), signer(), Ok(())).unwrap().funder, None);
    assert_eq!(account_setup(&auth(2, key, ""), signer(), Ok(())).unwrap().signature_type, SignatureType::GnosisSafe);
    assert!(account_setup(&auth(1, "nope", funder), signer(), Ok(())).unwrap_err().starts_with("invalid CLOB API key UUID: "));
    assert!(account_setup(&auth(1, key, "nonsense"), signer(), Ok(())).unwrap_err().starts_with("invalid funder address: "));
    assert_eq!(
        setup_from(&auth(1, "", "x"), signer(), Ok(()), Ok(1), Err("bad".to_string())).unwrap_err(),
        "invalid funder address: bad"
    );
    assert_eq!(signature_type(9), SignatureType::Eoa);
    // The private key comes first, then the client, then the rest.
    let no = |s: &str| s.to_string();
    assert_eq!(
        account_setup(&auth(1, "nope", "nonsense"), Err(no("odd length")), Err(no("url"))).unwrap_err(),
        "invalid private key: odd length"
    );
    assert_eq!(
        account_setup(&auth(1, "nope", "nonsense"), signer(), Err(no("url"))).unwrap_err(),
        "failed to create CLOB client: url"
    );
    assert_eq!(OrderManager::after_login(Ok(())).ok().unwrap().live_order_count(), 0);
    assert_eq!(
        OrderManager::after_login(Err(no("401"))).err().unwrap(),
        "CLOB authentication failed: 401"
    );
}

#[test]
fn merged_sets_are_held_of_every_token() {
    let list = vec![
        position("a", "c", "BUY", 7.9, 0.5),
        position("b", "c", "BUY", 3.2, 0.5),
        position("e", "c", "BUY", f64::NAN, 0.5),
    ];
    let found = find_merges(&list);
    assert_eq!(found.len(), 1);
    assert_eq!(found[0].sets, 3);
}

//! Texts and buttons of the bot's answers.

use vstd::prelude::*;
use vstd::string::*;

use crate::double::Double;
use crate::executor::order_manager;
use crate::executor::order_manager::{LiveOrder, LiveOrderView};
use crate::feeds::types;
use crate::feeds::types::FeedStatus;
use crate::position::tracker;
use crate::position::tracker::{TokenPosition, TokenPositionView};
use crate::discovery::gamma;
use crate::strategy::engine;
use crate::strategy::engine::{MarketContext, MarketContextView, MarketState};
use crate::strategy::risk::RiskState;
use crate::text;

verus! {

/// A button: what it shows, and what it sends.
#[derive(Debug)]
pub struct Button {
    pub label: String,
    pub data: String,
}

/// What a button says.
pub struct ButtonView {
    pub label: Seq<char>,
    pub data: Seq<char>,
}

impl View for Button {
    type V = ButtonView;

    open spec fn view(&self) -> ButtonView {
        ButtonView { label: self.label@, data: self.data@ }
    }
}

/// What a row of buttons says.
pub open spec fn row_view(row: Seq<Button>) -> Seq<ButtonView> {
    row.map_values(|b: Button| b@)
}

/// What rows of buttons say.
pub open spec fn keyboard_view(rows: Seq<Vec<Button>>) -> Seq<Seq<ButtonView>> {
    rows.map_values(|row: Vec<Button>| row_view(row@))
}

/// A row of two buttons.
pub open spec fn two(
    label1: Seq<char>,
    data1: Seq<char>,
    label2: Seq<char>,
    data2: Seq<char>,
) -> Seq<ButtonView> {
    seq![ButtonView { label: label1, data: data1 }, ButtonView { label: label2, data: data2 }]
}

fn two_buttons(label1: &str, data1: &str, label2: &str, data2: &str) -> (r: Vec<Button>)
    ensures
        row_view(r@) == two(label1@, data1@, label2@, data2@),
{
    let mut row: Vec<Button> = Vec::new();
    row.push(Button { label: label1.to_string(), data: data1.to_string() });
    row.push(Button { label: label2.to_string(), data: data2.to_string() });
    assert(row_view(row@) =~= two(label1@, data1@, label2@, data2@));
    row
}

/// The buttons of the main menu.
pub open spec fn main_menu() -> Seq<Seq<ButtonView>> {
    seq![
        two("📊 Status"@, "status"@, "💰 PnL"@, "pnl"@),
        two("📦 Positions"@, "positions"@, "📋 Orders"@, "orders"@),
        two("🔍 Markets"@, "markets"@, "📡 Feeds"@, "feeds"@),
        two("⏸ Pause"@, "pause"@, "▶️ Resume"@, "resume"@),
    ]
}

/// The buttons of the main menu.
pub fn main_menu_keyboard() -> (r: Vec<Vec<Button>>)
    ensures
        keyboard_view(r@) == main_menu(),
{
    let mut rows: Vec<Vec<Button>> = Vec::new();
    rows.push(two_buttons("📊 Status", "status", "💰 PnL", "pnl"));
    rows.push(two_buttons("📦 Positions", "positions", "📋 Orders", "orders"));
    rows.push(two_buttons("🔍 Markets", "markets", "📡 Feeds", "feeds"));
    rows.push(two_buttons("⏸ Pause", "pause", "▶️ Resume", "resume"));
    assert(keyboard_view(rows@) =~= main_menu());
    rows
}

/// The buttons under a report.
pub open spec fn back() -> Seq<Seq<ButtonView>> {
    seq![two("🔄 Refresh"@, "status"@, "⬅️ Menu"@, "menu"@)]
}

/// The buttons under a report.
pub fn back_keyboard() -> (r: Vec<Vec<Button>>)
    ensures
        keyboard_view(r@) == back(),
{
    let mut rows: Vec<Vec<Button>> = Vec::new();
    rows.push(two_buttons("🔄 Refresh", "status", "⬅️ Menu", "menu"));
    assert(keyboard_view(rows@) =~= back());
    rows
}

/// The buttons after pausing or resuming.
pub open spec fn pause_resume(is_paused: bool) -> Seq<Seq<ButtonView>> {
    if is_paused {
        seq![two("▶️ Resume"@, "resume"@, "⬅️ Menu"@, "menu"@)]
    } else {
        seq![two("⏸ Pause"@, "pause"@, "⬅️ Menu"@, "menu"@)]
    }
}

/// The buttons after pausing or resuming.
pub fn pause_resume_keyboard(is_paused: bool) -> (r: Vec<Vec<Button>>)
    ensures
        keyboard_view(r@) == pause_resume(is_paused),
{
    let mut rows: Vec<Vec<Button>> = Vec::new();
    if is_paused {
        rows.push(two_buttons("▶️ Resume", "resume", "⬅️ Menu", "menu"));
    } else {
        rows.push(two_buttons("⏸ Pause", "pause", "⬅️ Menu", "menu"));
    }
    assert(keyboard_view(rows@) =~= pause_resume(is_paused));
    rows
}

/// One of two texts.
pub open spec fn either(yes: bool, a: Seq<char>, b: Seq<char>) -> Seq<char> {
    if yes {
        a
    } else {
        b
    }
}

fn pick<'a>(yes: bool, a: &'a str, b: &'a str) -> (r: &'a str)
    ensures
        r@ == either(yes, a@, b@),
{
    if yes {
        a
    } else {
        b
    }
}

/// The short report.
pub open spec fn brief_text(
    paused: bool,
    markets: nat,
    orders: nat,
    feeds: FeedStatus,
) -> Seq<char> {
    "🤖 <b>Polymarket Maker Bot</b>\n\n"@ + either(paused, "⏸ Paused"@, "▶️ Running"@)
        + " | Markets: "@ + text::spec_decimal(markets) + " | Orders: "@ + text::spec_decimal(
        orders,
    ) + "\nBinance "@ + either(feeds.binance_connected, "🟢"@, "🔴"@) + " Coinbase "@ + either(
        feeds.coinbase_connected,
        "🟢"@,
        "🔴"@,
    )
}

/// The short report.
pub fn txt_status_brief(paused: bool, markets: usize, orders: usize, feeds: FeedStatus) -> (r:
    String)
    ensures
        r@ == brief_text(paused, markets as nat, orders as nat, feeds),
{
    let mut s: String = "🤖 <b>Polymarket Maker Bot</b>\n\n".to_string();
    s.append(pick(paused, "⏸ Paused", "▶️ Running"));
    s.append(" | Markets: ");
    s.append(text::decimal(markets as u64).as_str());
    s.append(" | Orders: ");
    s.append(text::decimal(orders as u64).as_str());
    s.append("\nBinance ");
    s.append(pick(feeds.binance_connected, "🟢", "🔴"));
    s.append(" Coinbase ");
    s.append(pick(feeds.coinbase_connected, "🟢", "🔴"));
    s
}

/// The full report.
pub open spec fn status_text(
    paused: bool,
    markets: nat,
    orders: nat,
    positions: nat,
    exposure: Double,
    risk: RiskState,
    feeds: FeedStatus,
) -> Seq<char> {
    "📊 <b>Full Status</b>\n\nState: "@ + either(paused, "⏸ PAUSED"@, "▶️ RUNNING"@)
        + "\nTracked markets: "@ + text::spec_decimal(markets) + "\nLive orders: "@
        + text::spec_decimal(orders) + "\nOpen positions: "@ + text::spec_decimal(positions)
        + "\nExposure: $"@ + exposure.spec_fixed(2) + "\nDaily PnL: $"@
        + risk.daily_pnl.spec_fixed(2) + "\nCircuit breaker: "@ + either(
        risk.halted,
        "🔴 TRIPPED"@,
        "✅ OK"@,
    ) + "\n\n<b>Feeds</b>\nBinance: "@ + either(feeds.binance_connected, "🟢"@, "🔴"@)
        + " (age: "@ + feeds.binance_last_tick_ms.spec_fixed(0) + "ms)\nCoinbase: "@ + either(
        feeds.coinbase_connected,
        "🟢"@,
        "🔴"@,
    ) + " (age: "@ + feeds.coinbase_last_tick_ms.spec_fixed(0) + "ms)"@
}

/// The full report.
pub fn txt_status(
    paused: bool,
    markets: usize,
    orders: usize,
    positions: usize,
    exposure: Double,
    risk: RiskState,
    feeds: FeedStatus,
) -> (r: String)
    ensures
        r@ == status_text(
            paused,
            markets as nat,
            orders as nat,
            positions as nat,
            exposure,
            risk,
            feeds,
        ),
{
    let mut s: String = "📊 <b>Full Status</b>\n\nState: ".to_string();
    s.append(pick(paused, "⏸ PAUSED", "▶️ RUNNING"));
    s.append("\nTracked markets: ");
    s.append(text::decimal(markets as u64).as_str());
    s.append("\nLive orders: ");
    s.append(text::decimal(orders as u64).as_str());
    s.append("\nOpen positions: ");
    s.append(text::decimal(positions as u64).as_str());
    s.append("\nExposure: $");
    s.append(exposure.fixed(2).as_str());
    s.append("\nDaily PnL: $");
    s.append(risk.daily_pnl.fixed(2).as_str());
    s.append("\nCircuit breaker: ");
    s.append(pick(risk.halted, "🔴 TRIPPED", "✅ OK"));
    s.append("\n\n<b>Feeds</b>\nBinance: ");
    s.append(pick(feeds.binance_connected, "🟢", "🔴"));
    s.append(" (age: ");
    s.append(feeds.binance_last_tick_ms.fixed(0).as_str());
    s.append("ms)\nCoinbase: ");
    s.append(pick(feeds.coinbase_connected, "🟢", "🔴"));
    s.append(" (age: ");
    s.append(feeds.coinbase_last_tick_ms.fixed(0).as_str());
    s.append("ms)");
    s
}

/// The positions of which anything is held.
pub open spec fn held(s: Seq<TokenPositionView>) -> Seq<TokenPositionView>
    decreases s.len(),
{
    if s.len() == 0 {
        s
    } else if types::positive(s.last().shares) {
        held(s.drop_last()).push(s.last())
    } else {
        held(s.drop_last())
    }
}

/// The lines of a list of positions.
pub open spec fn position_lines(s: Seq<TokenPositionView>) -> Seq<char>
    decreases s.len(),
{
    if s.len() == 0 {
        Seq::empty()
    } else {
        let p = s.last();
        position_lines(s.drop_last()) + ("\n<code>"@ + text::clipped(p.token_id, 12)
            + "…</code>\n  "@ + p.side + " "@ + p.shares.spec_fixed(1) + " shares @ $"@
            + p.avg_entry_price.spec_fixed(4) + "\n"@)
    }
}

/// The report on positions.
pub open spec fn positions_text(s: Seq<TokenPositionView>) -> Seq<char> {
    if held(s).len() == 0 {
        "📦 <b>Positions</b>\n\nNo open positions"@
    } else {
        "📦 <b>Positions ("@ + text::spec_decimal(held(s).len()) + ")</b>\n"@ + position_lines(
            held(s),
        )
    }
}

/// Whether the names of all positions that are held can be shortened.
pub open spec fn positions_showable(s: Seq<TokenPositionView>) -> bool {
    forall|i: int|
        0 <= i < s.len() && types::positive((#[trigger] s[i]).shares) ==> text::clips(
            s[i].token_id,
            12,
        )
}

/// The report on positions.
pub fn txt_positions(positions: &Vec<TokenPosition>) -> (r: String)
    requires
        positions_showable(tracker::views(positions@)),
    ensures
        r@ == positions_text(tracker::views(positions@)),
{
    let ghost all: Seq<TokenPositionView> = tracker::views(positions@);
    let zero: Double = Double::ratio(0, 1);
    let mut lines: String = "".to_string();
    let mut count: usize = 0;
    let mut i: usize = 0;
    proof {
        reveal_strlit("");
        assert(""@ =~= Seq::<char>::empty());
        assert(all.subrange(0, 0) =~= Seq::<TokenPositionView>::empty());
    }
    while i < positions.len()
        invariant
            i <= positions@.len(),
            count <= i,
            zero == Double::ratio(0, 1),
            all == tracker::views(positions@),
            positions_showable(all),
            count == held(all.subrange(0, i as int)).len(),
            lines@ == position_lines(held(all.subrange(0, i as int))),
        decreases positions@.len() - i,
    {
        proof {
            assert(all.subrange(0, i + 1).drop_last() =~= all.subrange(0, i as int));
            assert(all[i as int] == positions@[i as int]@);
        }
        let p: &TokenPosition = &positions[i];
        if zero.lt(p.shares) {
            let ghost before: Seq<TokenPositionView> = held(all.subrange(0, i as int));
            let mut line: String = "\n<code>".to_string();
            line.append(text::clip(p.token_id.as_str(), 12).as_str());
            line.append("…</code>\n  ");
            line.append(p.side.as_str());
            line.append(" ");
            line.append(p.shares.fixed(1).as_str());
            line.append(" shares @ $");
            line.append(p.avg_entry_price.fixed(4).as_str());
            line.append("\n");
            lines.append(line.as_str());
            count = count + 1;
            proof {
                assert(before.push(p@).drop_last() =~= before);
            }
        }
        i = i + 1;
    }
    assert(all.subrange(0, i as int) =~= all);
    if count == 0 {
        return "📦 <b>Positions</b>\n\nNo open positions".to_string();
    }
    let mut s: String = "📦 <b>Positions (".to_string();
    s.append(text::decimal(count as u64).as_str());
    s.append(")</b>\n");
    s.append(lines.as_str());
    s
}

/// The lines of a list of orders.
pub open spec fn order_lines(s: Seq<LiveOrderView>) -> Seq<char>
    decreases s.len(),
{
    if s.len() == 0 {
        Seq::empty()
    } else {
        let o = s.last();
        order_lines(s.drop_last()) + ("\n"@ + o.side + " "@ + o.size.spec_fixed(1) + " @ $"@
            + o.price.spec_fixed(4) + "\n  <code>"@ + text::clipped(o.token_id, 10)
            + "…</code> ["@ + o.strategy + "]\n"@)
    }
}

/// The report on orders.
pub open spec fn orders_text(s: Seq<LiveOrderView>) -> Seq<char> {
    if s.len() == 0 {
        "📋 <b>Orders</b>\n\nNo live orders"@
    } else {
        "📋 <b>Live Orders ("@ + text::spec_decimal(s.len()) + ")</b>\n"@ + order_lines(s)
    }
}

/// Whether the names of the tokens of all orders can be shortened.
pub open spec fn orders_showable(s: Seq<LiveOrderView>) -> bool {
    forall|i: int| 0 <= i < s.len() ==> text::clips((#[trigger] s[i]).token_id, 10)
}

/// The report on orders.
pub fn txt_orders(orders: &Vec<LiveOrder>) -> (r: String)
    requires
        orders_showable(order_manager::views(orders@)),
    ensures
        r@ == orders_text(order_manager::views(orders@)),
{
    let ghost all: Seq<LiveOrderView> = order_manager::views(orders@);
    if orders.len() == 0 {
        return "📋 <b>Orders</b>\n\nNo live orders".to_string();
    }
    let mut lines: String = "".to_string();
    let mut i: usize = 0;
    proof {
        reveal_strlit("");
        assert(""@ =~= Seq::<char>::empty());
        assert(all.subrange(0, 0) =~= Seq::<LiveOrderView>::empty());
    }
    while i < orders.len()
        invariant
            i <= orders@.len(),
            all == order_manager::views(orders@),
            orders_showable(all),
            lines@ == order_lines(all.subrange(0, i as int)),
        decreases orders@.len() - i,
    {
        proof {
            assert(all.subrange(0, i + 1).drop_last() =~= all.subrange(0, i as int));
            assert(all[i as int] == orders@[i as int]@);
        }
        let o: &LiveOrder = &orders[i];
        let mut line: String = "\n".to_string();
        line.append(o.side.as_str());
        line.append(" ");
        line.append(o.size.fixed(1).as_str());
        line.append(" @ $");
        line.append(o.price.fixed(4).as_str());
        line.append("\n  <code>");
        line.append(text::clip(o.token_id.as_str(), 10).as_str());
        line.append("…</code> [");
        line.append(o.strategy.as_str());
        line.append("]\n");
        lines.append(line.as_str());
        i = i + 1;
    }
    assert(all.subrange(0, i as int) =~= all);
    let mut s: String = "📋 <b>Live Orders (".to_string();
    s.append(text::decimal(orders.len() as u64).as_str());
    s.append(")</b>\n");
    s.append(lines.as_str());
    s
}

/// The name of a state.
pub open spec fn state_name(state: MarketState) -> Seq<char> {
    match state {
        MarketState::Discovered => "Discovered"@,
        MarketState::Monitoring => "Monitoring"@,
        MarketState::Qualifying => "Qualifying"@,
        MarketState::Quoting => "Quoting"@,
        MarketState::ArticleZone => "ArticleZone"@,
        MarketState::Settlement => "Settlement"@,
        MarketState::Withdrawn => "Withdrawn"@,
    }
}

fn name_of(state: MarketState) -> (r: &'static str)
    ensures
        r@ == state_name(state),
{
    match state {
        MarketState::Discovered => "Discovered",
        MarketState::Monitoring => "Monitoring",
        MarketState::Qualifying => "Qualifying",
        MarketState::Quoting => "Quoting",
        MarketState::ArticleZone => "ArticleZone",
        MarketState::Settlement => "Settlement",
        MarketState::Withdrawn => "Withdrawn",
    }
}

/// The lines of a list of markets; `assets` are their assets in capitals.
pub open spec fn market_lines(
    s: Seq<MarketContextView>,
    assets: Seq<Seq<char>>,
    now: Double,
) -> Seq<char>
    decreases s.len(),
{
    if s.len() == 0 {
        Seq::empty()
    } else {
        let m = s.last();
        market_lines(s.drop_last(), assets, now) + ("\n"@ + assets[s.len() - 1] + " "@
            + m.timeframe + " — "@ + engine::time_left(m.end_time, now).spec_fixed(0)
            + "s left\n  State: "@ + state_name(m.state) + "\n"@)
    }
}

/// The report on markets.
pub open spec fn markets_text(
    count: nat,
    s: Seq<MarketContextView>,
    assets: Seq<Seq<char>>,
    now: Double,
) -> Seq<char> {
    if count == 0 {
        "🔍 <b>Markets</b>\n\nNo active markets being tracked.\nDiscovery polls Gamma API every 1.5s for BTC/ETH 5min/15min markets."@
    } else {
        "🔍 <b>Tracked Markets ("@ + text::spec_decimal(count) + ")</b>\n"@ + market_lines(
            s,
            assets,
            now,
        )
    }
}

/// The assets of a list of markets, in capitals.
pub open spec fn upper_assets(s: Seq<MarketContextView>) -> Seq<Seq<char>> {
    s.map_values(|m: MarketContextView| text::uppercase(m.asset))
}

/// The report on markets, of which there are `count`; `assets` are their assets in capitals.
pub fn txt_markets(count: usize, markets: &Vec<MarketContext>, assets: &Vec<String>, now: Double)
    -> (r: String)
    requires
        assets@.len() == markets@.len(),
    ensures
        r@ == markets_text(
            count as nat,
            gamma::market_list(markets@),
            text::texts(assets@),
            now,
        ),
{
    let ghost all: Seq<MarketContextView> = gamma::market_list(markets@);
    let ghost names: Seq<Seq<char>> = text::texts(assets@);
    if count == 0 {
        return "🔍 <b>Markets</b>\n\nNo active markets being tracked.\nDiscovery polls Gamma API every 1.5s for BTC/ETH 5min/15min markets.".to_string();
    }
    let mut lines: String = "".to_string();
    let mut i: usize = 0;
    proof {
        reveal_strlit("");
        assert(""@ =~= Seq::<char>::empty());
        assert(all.subrange(0, 0) =~= Seq::<MarketContextView>::empty());
    }
    while i < markets.len()
        invariant
            i <= markets@.len(),
            assets@.len() == markets@.len(),
            all == gamma::market_list(markets@),
            names == text::texts(assets@),
            lines@ == market_lines(all.subrange(0, i as int), names, now),
        decreases markets@.len() - i,
    {
        proof {
            assert(all.subrange(0, i + 1).drop_last() =~= all.subrange(0, i as int));
            assert(all[i as int] == markets@[i as int]@);
            assert(names[i as int] == assets@[i as int]@);
        }
        let m: &MarketContext = &markets[i];
        let mut line: String = "\n".to_string();
        line.append(assets[i].as_str());
        line.append(" ");
        line.append(m.timeframe.as_str());
        line.append(" — ");
        line.append(m.seconds_until_close(now).fixed(0).as_str());
        line.append("s left\n  State: ");
        line.append(name_of(m.state));
        line.append("\n");
        lines.append(line.as_str());
        i = i + 1;
    }
    assert(all.subrange(0, i as int) =~= all);
    let mut s: String = "🔍 <b>Tracked Markets (".to_string();
    s.append(text::decimal(count as u64).as_str());
    s.append(")</b>\n");
    s.append(lines.as_str());
    s
}

/// The report on profits.
pub open spec fn pnl_text(risk: RiskState, exposure: Double) -> Seq<char> {
    "💰 <b>PnL Summary</b>\n\nDaily PnL: $"@ + risk.daily_pnl.spec_fixed(2)
        + "\nTotal exposure: $"@ + exposure.spec_fixed(2) + "\nActive markets: "@
        + text::spec_decimal(risk.active_markets as nat) + "\nCircuit breaker: "@ + either(
        risk.halted,
        "🔴 TRIPPED"@,
        "✅ OK"@,
    )
}

/// The report on profits.
pub fn txt_pnl(risk: RiskState, exposure: Double) -> (r: String)
    ensures
        r@ == pnl_text(risk, exposure),
{
    let mut s: String = "💰 <b>PnL Summary</b>\n\nDaily PnL: $".to_string();
    s.append(risk.daily_pnl.fixed(2).as_str());
    s.append("\nTotal exposure: $");
    s.append(exposure.fixed(2).as_str());
    s.append("\nActive markets: ");
    s.append(text::decimal(risk.active_markets as u64).as_str());
    s.append("\nCircuit breaker: ");
    s.append(pick(risk.halted, "🔴 TRIPPED", "✅ OK"));
    s
}

/// The report on feeds.
pub open spec fn feeds_text(feeds: FeedStatus) -> Seq<char> {
    "📡 <b>Feed Status</b>\n\nBinance: "@ + either(
        feeds.binance_connected,
        "🟢 Connected"@,
        "🔴 Disconnected"@,
    ) + " (last tick "@ + feeds.binance_last_tick_ms.spec_fixed(0) + "ms ago)\nCoinbase: "@
        + either(feeds.coinbase_connected, "🟢 Connected"@, "🔴 Disconnected"@)
        + " (last tick "@ + feeds.coinbase_last_tick_ms.spec_fixed(0) + "ms ago)"@
}

/// The report on feeds.
pub fn txt_feeds(feeds: FeedStatus) -> (r: String)
    ensures
        r@ == feeds_text(feeds),
{
    let mut s: String = "📡 <b>Feed Status</b>\n\nBinance: ".to_string();
    s.append(pick(feeds.binance_connected, "🟢 Connected", "🔴 Disconnected"));
    s.append(" (last tick ");
    s.append(feeds.binance_last_tick_ms.fixed(0).as_str());
    s.append("ms ago)\nCoinbase: ");
    s.append(pick(feeds.coinbase_connected, "🟢 Connected", "🔴 Disconnected"));
    s.append(" (last tick ");
    s.append(feeds.coinbase_last_tick_ms.fixed(0).as_str());
    s.append("ms ago)");
    s
}

} // verus!

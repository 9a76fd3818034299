//! Alerts: what is said of the bot's events.

use vstd::prelude::*;
use vstd::string::*;

use crate::double::Double;
use crate::events::bus::{BotEvent, BotEventView};
use crate::text;

verus! {

/// Whether the names in an event can be shortened for an alert: the cut falls between
/// characters.
pub open spec fn is_showable(event: BotEventView) -> bool {
    match event {
        BotEventView::OrderFilled { order_id, .. } => text::clips(order_id, 12),
        BotEventView::ArticleFired { condition_id, .. } => text::clips(condition_id, 12),
        BotEventView::MarketDiscovered { condition_id, .. } => text::clips(condition_id, 16),
        BotEventView::NegVigDetected { condition_id, .. } => text::clips(condition_id, 16),
        _ => true,
    }
}

/// Whether the names in an event can be shortened for an alert.
pub fn can_show(event: &BotEvent) -> (r: bool)
    ensures
        r == is_showable(event@),
{
    match event {
        BotEvent::OrderFilled { order_id, .. } => text::can_clip(order_id.as_str(), 12),
        BotEvent::ArticleFired { condition_id, .. } => text::can_clip(condition_id.as_str(), 12),
        BotEvent::MarketDiscovered { condition_id, .. } => text::can_clip(
            condition_id.as_str(),
            16,
        ),
        BotEvent::NegVigDetected { condition_id, .. } => text::can_clip(
            condition_id.as_str(),
            16,
        ),
        _ => true,
    }
}

/// The asset of an event, where an alert names it in capitals.
pub open spec fn named_asset(event: BotEventView) -> Seq<char> {
    match event {
        BotEventView::MarketDiscovered { asset, .. } => asset,
        BotEventView::NegVigDetected { asset, .. } => asset,
        _ => Seq::empty(),
    }
}

/// The alert for an event, if there is one; `asset` is the asset of the event in capitals.
pub open spec fn alert(event: BotEventView, asset: Seq<char>) -> Option<Seq<char>> {
    match event {
        BotEventView::OrderFilled { order_id, fill_price, fill_size, fully_filled } => Some(
            "📊 <b>"@ + (if fully_filled {
                "FILLED"@
            } else {
                "PARTIAL"@
            }) + "</b>\nOrder: <code>"@ + text::clipped(order_id, 12) + "</code>\nPrice: "@
                + fill_price.spec_fixed(4) + " | Size: "@ + fill_size.spec_fixed(1),
        ),
        BotEventView::CircuitBreaker { daily_pnl } => Some(
            "🚨 <b>CIRCUIT BREAKER</b>\nDaily PnL: $"@ + daily_pnl.spec_fixed(2)
                + "\nAll quoting halted!"@,
        ),
        BotEventView::RiskAlert { message, daily_pnl, exposure_usd } => Some(
            "⚠️ <b>Risk Alert</b>\n"@ + message + "\nPnL: $"@ + daily_pnl.spec_fixed(2)
                + " | Exposure: $"@ + exposure_usd.spec_fixed(2),
        ),
        BotEventView::ArticleFired { condition_id, direction, price, size, conviction } => Some(
            "🎯 <b>ARTICLE FIRED</b>\nMarket: <code>"@ + text::clipped(condition_id, 12)
                + "</code>\nDir: "@ + direction + " | Price: "@ + price.spec_fixed(4)
                + " | Size: "@ + size.spec_fixed(1) + "\nConviction: "@
                + conviction.spec_fixed(2),
        ),
        BotEventView::MarketDiscovered { condition_id, timeframe, .. } => Some(
            "🔍 <b>New Market</b>\n"@ + asset + " "@ + timeframe + " — <code>"@
                + text::clipped(condition_id, 16) + "…</code>"@,
        ),
        BotEventView::FeedDisconnected { source } => Some("🔴 <b>Feed Down:</b> "@ + source),
        BotEventView::FeedReconnected { source } => Some("🟢 <b>Feed Up:</b> "@ + source),
        BotEventView::DailySummary { total_pnl, trades_count, win_rate, rebates_usdc } => Some(
            "📈 <b>Daily Summary</b>\nPnL: $"@ + total_pnl.spec_fixed(2) + " | Trades: "@
                + text::spec_decimal(trades_count as nat) + " | Win: "@ + win_rate.times(
                Double::ratio(100, 1),
            ).spec_fixed(1) + "%\nRebates: $"@ + rebates_usdc.spec_fixed(4),
        ),
        BotEventView::NegVigDetected {
            condition_id,
            timeframe,
            yes_ask,
            no_ask,
            combined,
            edge_cents,
            yes_depth,
            no_depth,
            secs_left,
            ..
        } => Some(
            "💎 <b>NEG-VIG DETECTED</b>\n"@ + asset + " "@ + timeframe + " — "@
                + secs_left.spec_fixed(0) + "s left\nYES ask: "@ + yes_ask.spec_fixed(4)
                + " | NO ask: "@ + no_ask.spec_fixed(4) + "\nCombined: "@ + combined.spec_fixed(4)
                + " | <b>Edge: "@ + edge_cents.times(Double::ratio(100, 1)).spec_fixed(4)
                + "¢</b>\nDepth: YES "@ + yes_depth.spec_fixed(0) + " / NO "@
                + no_depth.spec_fixed(0) + "\n<code>"@ + text::clipped(condition_id, 16)
                + "…</code>"@,
        ),
        _ => None,
    }
}

/// What an alert, if there is one, says.
pub open spec fn alert_view(r: Option<String>) -> Option<Seq<char>> {
    match r {
        Some(s) => Some(s@),
        None => None,
    }
}

/// The alert for an event, if there is one; `upper_asset` is the asset of the event in
/// capitals.
pub fn alert_for(event: &BotEvent, upper_asset: &str) -> (r: Option<String>)
    requires
        is_showable(event@),
    ensures
        alert_view(r) == alert(event@, upper_asset@),
{
    match event {
        BotEvent::OrderFilled { order_id, fill_price, fill_size, fully_filled } => {
            let mut s: String = "📊 <b>".to_string();
            s.append(if *fully_filled { "FILLED" } else { "PARTIAL" });
            s.append("</b>\nOrder: <code>");
            s.append(text::clip(order_id.as_str(), 12).as_str());
            s.append("</code>\nPrice: ");
            s.append(fill_price.fixed(4).as_str());
            s.append(" | Size: ");
            s.append(fill_size.fixed(1).as_str());
            Some(s)
        },
        BotEvent::CircuitBreaker { daily_pnl } => {
            let mut s: String = "🚨 <b>CIRCUIT BREAKER</b>\nDaily PnL: $".to_string();
            s.append(daily_pnl.fixed(2).as_str());
            s.append("\nAll quoting halted!");
            Some(s)
        },
        BotEvent::RiskAlert { message, daily_pnl, exposure_usd } => {
            let mut s: String = "⚠️ <b>Risk Alert</b>\n".to_string();
            s.append(message.as_str());
            s.append("\nPnL: $");
            s.append(daily_pnl.fixed(2).as_str());
            s.append(" | Exposure: $");
            s.append(exposure_usd.fixed(2).as_str());
            Some(s)
        },
        BotEvent::ArticleFired { condition_id, direction, price, size, conviction } => {
            let mut s: String = "🎯 <b>ARTICLE FIRED</b>\nMarket: <code>".to_string();
            s.append(text::clip(condition_id.as_str(), 12).as_str());
            s.append("</code>\nDir: ");
            s.append(direction.as_str());
            s.append(" | Price: ");
            s.append(price.fixed(4).as_str());
            s.append(" | Size: ");
            s.append(size.fixed(1).as_str());
            s.append("\nConviction: ");
            s.append(conviction.fixed(2).as_str());
            Some(s)
        },
        BotEvent::MarketDiscovered { condition_id, timeframe, .. } => {
            let mut s: String = "🔍 <b>New Market</b>\n".to_string();
            s.append(upper_asset);
            s.append(" ");
            s.append(timeframe.as_str());
            s.append(" — <code>");
            s.append(text::clip(condition_id.as_str(), 16).as_str());
            s.append("…</code>");
            Some(s)
        },
        BotEvent::FeedDisconnected { source } => {
            let mut s: String = "🔴 <b>Feed Down:</b> ".to_string();
            s.append(source.as_str());
            Some(s)
        },
        BotEvent::FeedReconnected { source } => {
            let mut s: String = "🟢 <b>Feed Up:</b> ".to_string();
            s.append(source.as_str());
            Some(s)
        },
        BotEvent::DailySummary { total_pnl, trades_count, win_rate, rebates_usdc } => {
            let mut s: String = "📈 <b>Daily Summary</b>\nPnL: $".to_string();
            s.append(total_pnl.fixed(2).as_str());
            s.append(" | Trades: ");
            s.append(text::decimal(*trades_count).as_str());
            s.append(" | Win: ");
            s.append(win_rate.times(Double::ratio(100, 1)).fixed(1).as_str());
            s.append("%\nRebates: $");
            s.append(rebates_usdc.fixed(4).as_str());
            Some(s)
        },
        BotEvent::NegVigDetected {
            condition_id,
            timeframe,
            yes_ask,
            no_ask,
            combined,
            edge_cents,
            yes_depth,
            no_depth,
            secs_left,
            ..
        } => {
            let mut s: String = "💎 <b>NEG-VIG DETECTED</b>\n".to_string();
            s.append(upper_asset);
            s.append(" ");
            s.append(timeframe.as_str());
            s.append(" — ");
            s.append(secs_left.fixed(0).as_str());
            s.append("s left\nYES ask: ");
            s.append(yes_ask.fixed(4).as_str());
            s.append(" | NO ask: ");
            s.append(no_ask.fixed(4).as_str());
            s.append("\nCombined: ");
            s.append(combined.fixed(4).as_str());
            s.append(" | <b>Edge: ");
            s.append(edge_cents.times(Double::ratio(100, 1)).fixed(4).as_str());
            s.append("¢</b>\nDepth: YES ");
            s.append(yes_depth.fixed(0).as_str());
            s.append(" / NO ");
            s.append(no_depth.fixed(0).as_str());
            s.append("\n<code>");
            s.append(text::clip(condition_id.as_str(), 16).as_str());
            s.append("…</code>");
            Some(s)
        },
        _ => None,
    }
}

/// The alert for an event, if there is one.
pub fn format_event(event: &BotEvent) -> (r: Option<String>)
    requires
        is_showable(event@),
    ensures
        alert_view(r) == alert(event@, text::uppercase(named_asset(event@))),
{
    let upper: String = match event {
        BotEvent::MarketDiscovered { asset, .. } => text::to_uppercase(asset.as_str()),
        BotEvent::NegVigDetected { asset, .. } => text::to_uppercase(asset.as_str()),
        _ => {
            proof {
                reveal_strlit("");
                assert(""@ =~= Seq::<char>::empty());
            }
            text::to_uppercase("")
        },
    };
    alert_for(event, upper.as_str())
}

/// The name in an event that an alert shortens.
pub open spec fn shortened_name(event: BotEventView) -> Seq<char> {
    match event {
        BotEventView::OrderFilled { order_id, .. } => order_id,
        BotEventView::ArticleFired { condition_id, .. } => condition_id,
        BotEventView::MarketDiscovered { condition_id, .. } => condition_id,
        BotEventView::NegVigDetected { condition_id, .. } => condition_id,
        _ => Seq::empty(),
    }
}

/// An event whose names are ASCII, as those of the exchange are, can always be shown.
pub proof fn ascii_events_are_shown(event: BotEventView)
    requires
        vstd::utf8::is_ascii_chars(shortened_name(event)),
    ensures
        is_showable(event),
{
    text::ascii_clips(shortened_name(event), 12);
    text::ascii_clips(shortened_name(event), 16);
}

} // verus!

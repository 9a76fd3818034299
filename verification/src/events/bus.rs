//! Events for alerts, logging and monitoring.

use vstd::prelude::*;

use crate::double::Double;

verus! {

/// Bot-wide events.
#[derive(Debug)]
pub enum BotEvent {
    /// An order was posted to the exchange.
    OrderPosted {
        order_id: String,
        token_id: String,
        side: String,
        price: Double,
        size: Double,
        strategy: String,
    },
    /// An order was filled.
    OrderFilled { order_id: String, fill_price: Double, fill_size: Double, fully_filled: bool },
    /// An order was cancelled.
    OrderCancelled { order_id: String, reason: String },
    /// A new market was discovered and is tracked.
    MarketDiscovered { condition_id: String, asset: String, timeframe: String },
    /// A market was resolved.
    MarketResolved { condition_id: String, outcome: String },
    /// A limit is near.
    RiskAlert { message: String, daily_pnl: Double, exposure_usd: Double },
    /// All quoting was halted.
    CircuitBreaker { daily_pnl: Double },
    /// A feed was disconnected.
    FeedDisconnected { source: String },
    /// A feed was reconnected.
    FeedReconnected { source: String },
    /// The endgame strategy fired.
    ArticleFired {
        condition_id: String,
        direction: String,
        price: Double,
        size: Double,
        conviction: Double,
    },
    /// Summary of a day.
    DailySummary { total_pnl: Double, trades_count: u64, win_rate: Double, rebates_usdc: Double },
    /// Both asks together cost less than a dollar.
    NegVigDetected {
        condition_id: String,
        asset: String,
        timeframe: String,
        yes_ask: Double,
        no_ask: Double,
        combined: Double,
        edge_cents: Double,
        yes_depth: Double,
        no_depth: Double,
        secs_left: Double,
    },
}

/// What an event says.
pub enum BotEventView {
    OrderPosted {
        order_id: Seq<char>,
        token_id: Seq<char>,
        side: Seq<char>,
        price: Double,
        size: Double,
        strategy: Seq<char>,
    },
    OrderFilled { order_id: Seq<char>, fill_price: Double, fill_size: Double, fully_filled: bool },
    OrderCancelled { order_id: Seq<char>, reason: Seq<char> },
    MarketDiscovered { condition_id: Seq<char>, asset: Seq<char>, timeframe: Seq<char> },
    MarketResolved { condition_id: Seq<char>, outcome: Seq<char> },
    RiskAlert { message: Seq<char>, daily_pnl: Double, exposure_usd: Double },
    CircuitBreaker { daily_pnl: Double },
    FeedDisconnected { source: Seq<char> },
    FeedReconnected { source: Seq<char> },
    ArticleFired {
        condition_id: Seq<char>,
        direction: Seq<char>,
        price: Double,
        size: Double,
        conviction: Double,
    },
    DailySummary { total_pnl: Double, trades_count: u64, win_rate: Double, rebates_usdc: Double },
    NegVigDetected {
        condition_id: Seq<char>,
        asset: Seq<char>,
        timeframe: Seq<char>,
        yes_ask: Double,
        no_ask: Double,
        combined: Double,
        edge_cents: Double,
        yes_depth: Double,
        no_depth: Double,
        secs_left: Double,
    },
}

impl View for BotEvent {
    type V = BotEventView;

    open spec fn view(&self) -> BotEventView {
        match self {
            BotEvent::OrderPosted {
                order_id,
                token_id,
                side,
                price,
                size,
                strategy,
            } => BotEventView::OrderPosted {
                order_id: order_id@,
                token_id: token_id@,
                side: side@,
                price: *price,
                size: *size,
                strategy: strategy@,
            },
            BotEvent::OrderFilled {
                order_id,
                fill_price,
                fill_size,
                fully_filled,
            } => BotEventView::OrderFilled {
                order_id: order_id@,
                fill_price: *fill_price,
                fill_size: *fill_size,
                fully_filled: *fully_filled,
            },
            BotEvent::OrderCancelled { order_id, reason } => BotEventView::OrderCancelled {
                order_id: order_id@,
                reason: reason@,
            },
            BotEvent::MarketDiscovered {
                condition_id,
                asset,
                timeframe,
            } => BotEventView::MarketDiscovered {
                condition_id: condition_id@,
                asset: asset@,
                timeframe: timeframe@,
            },
            BotEvent::MarketResolved { condition_id, outcome } => BotEventView::MarketResolved {
                condition_id: condition_id@,
                outcome: outcome@,
            },
            BotEvent::RiskAlert { message, daily_pnl, exposure_usd } => BotEventView::RiskAlert {
                message: message@,
                daily_pnl: *daily_pnl,
                exposure_usd: *exposure_usd,
            },
            BotEvent::CircuitBreaker { daily_pnl } => BotEventView::CircuitBreaker {
                daily_pnl: *daily_pnl,
            },
            BotEvent::FeedDisconnected { source } => BotEventView::FeedDisconnected {
                source: source@,
            },
            BotEvent::FeedReconnected { source } => BotEventView::FeedReconnected {
                source: source@,
            },
            BotEvent::ArticleFired {
                condition_id,
                direction,
                price,
                size,
                conviction,
            } => BotEventView::ArticleFired {
                condition_id: condition_id@,
                direction: direction@,
                price: *price,
                size: *size,
                conviction: *conviction,
            },
            BotEvent::DailySummary {
                total_pnl,
                trades_count,
                win_rate,
                rebates_usdc,
            } => BotEventView::DailySummary {
                total_pnl: *total_pnl,
                trades_count: *trades_count,
                win_rate: *win_rate,
                rebates_usdc: *rebates_usdc,
            },
            BotEvent::NegVigDetected {
                condition_id,
                asset,
                timeframe,
                yes_ask,
                no_ask,
                combined,
                edge_cents,
                yes_depth,
                no_depth,
                secs_left,
            } => BotEventView::NegVigDetected {
                condition_id: condition_id@,
                asset: asset@,
                timeframe: timeframe@,
                yes_ask: *yes_ask,
                no_ask: *no_ask,
                combined: *combined,
                edge_cents: *edge_cents,
                yes_depth: *yes_depth,
                no_depth: *no_depth,
                secs_left: *secs_left,
            },
        }
    }
}

impl Clone for BotEvent {
    fn clone(&self) -> (r: BotEvent)
        ensures
            r@ == self@,
    {
        match self {
            BotEvent::OrderPosted {
                order_id,
                token_id,
                side,
                price,
                size,
                strategy,
            } => BotEvent::OrderPosted {
                order_id: order_id.clone(),
                token_id: token_id.clone(),
                side: side.clone(),
                price: *price,
                size: *size,
                strategy: strategy.clone(),
            },
            BotEvent::OrderFilled {
                order_id,
                fill_price,
                fill_size,
                fully_filled,
            } => BotEvent::OrderFilled {
                order_id: order_id.clone(),
                fill_price: *fill_price,
                fill_size: *fill_size,
                fully_filled: *fully_filled,
            },
            BotEvent::OrderCancelled { order_id, reason } => BotEvent::OrderCancelled {
                order_id: order_id.clone(),
                reason: reason.clone(),
            },
            BotEvent::MarketDiscovered {
                condition_id,
                asset,
                timeframe,
            } => BotEvent::MarketDiscovered {
                condition_id: condition_id.clone(),
                asset: asset.clone(),
                timeframe: timeframe.clone(),
            },
            BotEvent::MarketResolved { condition_id, outcome } => BotEvent::MarketResolved {
                condition_id: condition_id.clone(),
                outcome: outcome.clone(),
            },
            BotEvent::RiskAlert { message, daily_pnl, exposure_usd } => BotEvent::RiskAlert {
                message: message.clone(),
                daily_pnl: *daily_pnl,
                exposure_usd: *exposure_usd,
            },
            BotEvent::CircuitBreaker { daily_pnl } => BotEvent::CircuitBreaker {
                daily_pnl: *daily_pnl,
            },
            BotEvent::FeedDisconnected { source } => BotEvent::FeedDisconnected {
                source: source.clone(),
            },
            BotEvent::FeedReconnected { source } => BotEvent::FeedReconnected {
                source: source.clone(),
            },
            BotEvent::ArticleFired {
                condition_id,
                direction,
                price,
                size,
                conviction,
            } => BotEvent::ArticleFired {
                condition_id: condition_id.clone(),
                direction: direction.clone(),
                price: *price,
                size: *size,
                conviction: *conviction,
            },
            BotEvent::DailySummary {
                total_pnl,
                trades_count,
                win_rate,
                rebates_usdc,
            } => BotEvent::DailySummary {
                total_pnl: *total_pnl,
                trades_count: *trades_count,
                win_rate: *win_rate,
                rebates_usdc: *rebates_usdc,
            },
            BotEvent::NegVigDetected {
                condition_id,
                asset,
                timeframe,
                yes_ask,
                no_ask,
                combined,
                edge_cents,
                yes_depth,
                no_depth,
                secs_left,
            } => BotEvent::NegVigDetected {
                condition_id: condition_id.clone(),
                asset: asset.clone(),
                timeframe: timeframe.clone(),
                yes_ask: *yes_ask,
                no_ask: *no_ask,
                combined: *combined,
                edge_cents: *edge_cents,
                yes_depth: *yes_depth,
                no_depth: *no_depth,
                secs_left: *secs_left,
            },
        }
    }
}

/// What a list of events says.
pub open spec fn event_views(events: Seq<BotEvent>) -> Seq<BotEventView> {
    events.map_values(|e: BotEvent| e@)
}

} // verus!

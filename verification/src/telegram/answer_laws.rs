//! What the bot understands and answers, told by the words that come in and those that are shown.

use vstd::prelude::*;

use super::alerts;
use super::bot;
use super::bot::{Query, RawUpdate, UpdateView};
use super::texts;
use super::texts::ButtonView;
use crate::double::Double;
use crate::events::bus::BotEventView;
use crate::executor::order_manager::LiveOrderView;
use crate::feeds::stream;
use crate::feeds::types::FeedStatus;
use crate::feeds::FeedHub;
use crate::position::tracker::TokenPositionView;
use crate::strategy::engine;
use crate::strategy::engine::MarketContextView;
use crate::strategy::risk::{RiskManager, RiskState};
use crate::text;

verus! {

/// Each command and the data of each button ask for what they name.
pub proof fn words_are_understood()
    ensures
        bot::query_of("/start"@) is Menu,
        bot::query_of("/help"@) is Menu,
        bot::query_of("menu"@) is Menu,
        bot::query_of("back"@) is Menu,
        bot::query_of("status"@) is Status,
        bot::query_of("/status"@) is Status,
        bot::query_of("positions"@) is Positions,
        bot::query_of("/positions"@) is Positions,
        bot::query_of("/pos"@) is Positions,
        bot::query_of("orders"@) is Orders,
        bot::query_of("/orders"@) is Orders,
        bot::query_of("markets"@) is Markets,
        bot::query_of("/markets"@) is Markets,
        bot::query_of("pnl"@) is Pnl,
        bot::query_of("/pnl"@) is Pnl,
        bot::query_of("pause"@) is Pause,
        bot::query_of("/pause"@) is Pause,
        bot::query_of("resume"@) is Resume,
        bot::query_of("/resume"@) is Resume,
        bot::query_of("feeds"@) is Feeds,
        bot::query_of("/feeds"@) is Feeds,
{
    lemma_letters();
}

/// Length and first letters of the words, by which they are told apart.
proof fn lemma_letters()
    ensures
        "/start"@.len() == 6 && "/start"@[0] == '/' && "/start"@[1] == 's',
        "/help"@.len() == 5 && "/help"@[0] == '/' && "/help"@[1] == 'h',
        "menu"@.len() == 4 && "menu"@[0] == 'm',
        "back"@.len() == 4 && "back"@[0] == 'b',
        "status"@.len() == 6 && "status"@[0] == 's',
        "/status"@.len() == 7 && "/status"@[0] == '/' && "/status"@[1] == 's',
        "positions"@.len() == 9 && "positions"@[0] == 'p',
        "/positions"@.len() == 10 && "/positions"@[0] == '/' && "/positions"@[1] == 'p',
        "/pos"@.len() == 4 && "/pos"@[0] == '/' && "/pos"@[1] == 'p' && "/pos"@[2] == 'o',
        "orders"@.len() == 6 && "orders"@[0] == 'o',
        "/orders"@.len() == 7 && "/orders"@[0] == '/' && "/orders"@[1] == 'o',
        "markets"@.len() == 7 && "markets"@[0] == 'm',
        "/markets"@.len() == 8 && "/markets"@[0] == '/' && "/markets"@[1] == 'm',
        "pnl"@.len() == 3 && "pnl"@[0] == 'p',
        "/pnl"@.len() == 4 && "/pnl"@[0] == '/' && "/pnl"@[1] == 'p' && "/pnl"@[2] == 'n',
        "pause"@.len() == 5 && "pause"@[0] == 'p',
        "/pause"@.len() == 6 && "/pause"@[0] == '/' && "/pause"@[1] == 'p',
        "resume"@.len() == 6 && "resume"@[0] == 'r',
        "/resume"@.len() == 7 && "/resume"@[0] == '/' && "/resume"@[1] == 'r',
        "feeds"@.len() == 5 && "feeds"@[0] == 'f',
        "/feeds"@.len() == 6 && "/feeds"@[0] == '/' && "/feeds"@[1] == 'f',
{
    assert("/start"@.len() == 6 && "/start"@[0] == '/' && "/start"@[1] == 's') by {
        reveal_strlit("/start");
    }
    assert("/help"@.len() == 5 && "/help"@[0] == '/' && "/help"@[1] == 'h') by {
        reveal_strlit("/help");
    }
    assert("menu"@.len() == 4 && "menu"@[0] == 'm') by {
        reveal_strlit("menu");
    }
    assert("back"@.len() == 4 && "back"@[0] == 'b') by {
        reveal_strlit("back");
    }
    assert("status"@.len() == 6 && "status"@[0] == 's') by {
        reveal_strlit("status");
    }
    assert("/status"@.len() == 7 && "/status"@[0] == '/' && "/status"@[1] == 's') by {
        reveal_strlit("/status");
    }
    assert("positions"@.len() == 9 && "positions"@[0] == 'p') by {
        reveal_strlit("positions");
    }
    assert("/positions"@.len() == 10 && "/positions"@[0] == '/' && "/positions"@[1] == 'p') by {
        reveal_strlit("/positions");
    }
    assert("/pos"@.len() == 4 && "/pos"@[0] == '/' && "/pos"@[1] == 'p' && "/pos"@[2] == 'o') by {
        reveal_strlit("/pos");
    }
    assert("orders"@.len() == 6 && "orders"@[0] == 'o') by {
        reveal_strlit("orders");
    }
    assert("/orders"@.len() == 7 && "/orders"@[0] == '/' && "/orders"@[1] == 'o') by {
        reveal_strlit("/orders");
    }
    assert("markets"@.len() == 7 && "markets"@[0] == 'm') by {
        reveal_strlit("markets");
    }
    assert("/markets"@.len() == 8 && "/markets"@[0] == '/' && "/markets"@[1] == 'm') by {
        reveal_strlit("/markets");
    }
    assert("pnl"@.len() == 3 && "pnl"@[0] == 'p') by {
        reveal_strlit("pnl");
    }
    assert("/pnl"@.len() == 4 && "/pnl"@[0] == '/' && "/pnl"@[1] == 'p' && "/pnl"@[2] == 'n') by {
        reveal_strlit("/pnl");
    }
    assert("pause"@.len() == 5 && "pause"@[0] == 'p') by {
        reveal_strlit("pause");
    }
    assert("/pause"@.len() == 6 && "/pause"@[0] == '/' && "/pause"@[1] == 'p') by {
        reveal_strlit("/pause");
    }
    assert("resume"@.len() == 6 && "resume"@[0] == 'r') by {
        reveal_strlit("resume");
    }
    assert("/resume"@.len() == 7 && "/resume"@[0] == '/' && "/resume"@[1] == 'r') by {
        reveal_strlit("/resume");
    }
    assert("feeds"@.len() == 5 && "feeds"@[0] == 'f') by {
        reveal_strlit("feeds");
    }
    assert("/feeds"@.len() == 6 && "/feeds"@[0] == '/' && "/feeds"@[1] == 'f') by {
        reveal_strlit("/feeds");
    }
}

/// A word that is none of these asks for nothing.
pub proof fn other_words_are_unknown(cmd: Seq<char>)
    requires
        cmd != "/start"@,
        cmd != "/help"@,
        cmd != "menu"@,
        cmd != "back"@,
        cmd != "status"@,
        cmd != "/status"@,
        cmd != "positions"@,
        cmd != "/positions"@,
        cmd != "/pos"@,
        cmd != "orders"@,
        cmd != "/orders"@,
        cmd != "markets"@,
        cmd != "/markets"@,
        cmd != "pnl"@,
        cmd != "/pnl"@,
        cmd != "pause"@,
        cmd != "/pause"@,
        cmd != "resume"@,
        cmd != "/resume"@,
        cmd != "feeds"@,
        cmd != "/feeds"@,
    ensures
        bot::query_of(cmd) is Unknown,
{
}

/// A pause pauses, a resumption resumes, and any other query leaves things as they are.
pub proof fn pauses_and_resumptions_work(q: Query, paused: bool)
    ensures
        bot::paused_after(Query::Pause, paused),
        !bot::paused_after(Query::Resume, paused),
        !(q is Pause) && !(q is Resume) ==> bot::paused_after(q, paused) == paused,
{
}

/// Whether a keyboard has a button with some data.
pub open spec fn offers(keyboard: Seq<Seq<ButtonView>>, data: Seq<char>) -> bool {
    exists|i: int, j: int|
        0 <= i < keyboard.len() && 0 <= j < keyboard[i].len() && (
        #[trigger] keyboard[i][j]).data == data
}

/// The menu offers every query; under a pause there is the button to resume, and under a
/// resumption that to pause; from every other answer there is a way back to the menu.
pub proof fn answers_offer_the_next_step(q: Query)
    ensures
        q is Menu || q is Unknown ==> {
            let keyboard = bot::keyboard_for(q);
            &&& offers(keyboard, "status"@)
            &&& offers(keyboard, "pnl"@)
            &&& offers(keyboard, "positions"@)
            &&& offers(keyboard, "orders"@)
            &&& offers(keyboard, "markets"@)
            &&& offers(keyboard, "feeds"@)
            &&& offers(keyboard, "pause"@)
            &&& offers(keyboard, "resume"@)
        },
        !(q is Menu) && !(q is Unknown) ==> offers(bot::keyboard_for(q), "menu"@),
        offers(bot::keyboard_for(Query::Pause), "resume"@),
        offers(bot::keyboard_for(Query::Resume), "pause"@),
        !(q is Menu) && !(q is Unknown) && !(q is Pause) && !(q is Resume) ==> offers(
            bot::keyboard_for(q),
            "status"@,
        ),
{
    let menu = texts::main_menu();
    assert(menu[0][0].data == "status"@);
    assert(menu[0][1].data == "pnl"@);
    assert(menu[1][0].data == "positions"@);
    assert(menu[1][1].data == "orders"@);
    assert(menu[2][0].data == "markets"@);
    assert(menu[2][1].data == "feeds"@);
    assert(menu[3][0].data == "pause"@);
    assert(menu[3][1].data == "resume"@);
    assert(texts::back()[0][0].data == "status"@);
    assert(texts::back()[0][1].data == "menu"@);
    assert(texts::pause_resume(true)[0][0].data == "resume"@);
    assert(texts::pause_resume(true)[0][1].data == "menu"@);
    assert(texts::pause_resume(false)[0][0].data == "pause"@);
    assert(texts::pause_resume(false)[0][1].data == "menu"@);
}

/// A pressed button is read before a message, with its own name, data and chat; without data the
/// update comes to nothing.
pub proof fn pressed_buttons_are_read(raw: RawUpdate)
    requires
        raw.callback is Some,
    ensures
        ({
            let cb = raw.callback->0;
            let r = bot::update_of(raw);
            &&& r is Some <==> cb.data is Some && cb.data->0@.len() > 0
            &&& r matches Some(u) ==> {
                &&& u is Callback
                &&& u->data == cb.data->0@
                &&& cb.id is Some ==> u->callback_id == cb.id->0@
                &&& cb.id is None ==> u->callback_id.len() == 0
                &&& bot::id_of(u) == (if raw.update_id is Some {
                    raw.update_id->0
                } else {
                    0
                })
                &&& bot::chat_of(u) == (if cb.chat_id is Some {
                    cb.chat_id->0
                } else {
                    0
                })
                &&& bot::input_of(u) == cb.data->0@
            }
        }),
{
}

/// A message is read, with its text and chat, where no button was pressed; without a text the
/// update comes to nothing.
pub proof fn messages_are_read(raw: RawUpdate)
    requires
        raw.callback is None,
    ensures
        ({
            let r = bot::update_of(raw);
            &&& r is Some <==> raw.message is Some && raw.message->0.text is Some
                && raw.message->0.text->0@.len() > 0
            &&& r matches Some(u) ==> {
                let msg = raw.message->0;
                &&& u is Message
                &&& bot::input_of(u) == msg.text->0@
                &&& bot::id_of(u) == (if raw.update_id is Some {
                    raw.update_id->0
                } else {
                    0
                })
                &&& bot::chat_of(u) == (if msg.chat_id is Some {
                    msg.chat_id->0
                } else {
                    0
                })
            }
        }),
{
}

/// Number, chat and input of an update are those that it holds.
pub proof fn updates_hold_their_parts(u: UpdateView)
    ensures
        u matches UpdateView::Message { update_id, text, chat_id } ==> bot::id_of(u) == update_id
            && bot::chat_of(u) == chat_id && bot::input_of(u) == text,
        u matches UpdateView::Callback { update_id, callback_id, data, chat_id } ==> bot::id_of(u)
            == update_id && bot::chat_of(u) == chat_id && bot::input_of(u) == data,
{
}

/// The health of the feeds: whether each exchange is connected, and how old its last sign of
/// life is.
pub proof fn health_is_that_of_the_feeds(hub: FeedHub, now: Double)
    ensures
        ({
            let feeds = bot::feeds_of(hub, now);
            &&& feeds.binance_connected == hub.binance_btc.stream.link.connected
            &&& feeds.coinbase_connected == hub.coinbase_btc.stream.link.connected
            &&& feeds.binance_last_tick_ms == stream::heartbeat_age(
                hub.binance_btc.stream.heartbeat_ts,
                now,
            )
            &&& feeds.coinbase_last_tick_ms == stream::heartbeat_age(
                hub.coinbase_btc.stream.heartbeat_ts,
                now,
            )
        }),
{
}

/// The risks that are told are those of the risk manager.
pub proof fn risks_are_those_of_the_manager(risk: RiskManager)
    ensures
        bot::risk_of(risk).total_exposure_usd == risk.total_exposure,
        bot::risk_of(risk).daily_pnl == risk.daily_pnl,
        bot::risk_of(risk).active_markets == risk.active_market_count,
        bot::risk_of(risk).halted == risk.halted,
{
}

/// Whether a text shows a value behind a label.
pub open spec fn shows(t: Seq<char>, label: Seq<char>, value: Seq<char>) -> bool {
    text::occurs(t, label + value)
}

/// What stands in a text stands in a longer one.
proof fn lemma_shown()
    ensures
        forall|x: Seq<char>, y: Seq<char>, p: Seq<char>|
            text::occurs(x, p) ==> #[trigger] text::occurs(x + y, p),
        forall|x: Seq<char>, l: Seq<char>, v: Seq<char>| #[trigger]
            text::occurs(x + l + v, l + v),
        forall|p: Seq<char>| #[trigger] text::occurs(p, p),
{
    assert forall|x: Seq<char>, y: Seq<char>, p: Seq<char>| text::occurs(x, p) implies
        #[trigger] text::occurs(x + y, p) by {
        let i = choose|i: int| text::occurs_at(x, p, i);
        assert((x + y).subrange(i, i + p.len()) =~= x.subrange(i, i + p.len()));
        assert(text::occurs_at(x + y, p, i));
    }
    assert forall|x: Seq<char>, l: Seq<char>, v: Seq<char>| #[trigger]
        text::occurs(x + l + v, l + v) by {
        let n = x.len() as int;
        assert((x + l + v).subrange(n, n + (l + v).len()) =~= l + v);
        assert(text::occurs_at(x + l + v, l + v, n));
    }
    assert forall|p: Seq<char>| #[trigger] text::occurs(p, p) by {
        assert(p.subrange(0, p.len() as int) =~= p);
        assert(text::occurs_at(p, p, 0));
    }
}

/// The alert of a fill says whether it is whole, of which order, and price and size.
pub proof fn fills_are_told(
    order_id: Seq<char>,
    fill_price: Double,
    fill_size: Double,
    fully_filled: bool,
    asset: Seq<char>,
)
    ensures
        alerts::alert(
            BotEventView::OrderFilled { order_id, fill_price, fill_size, fully_filled },
            asset,
        ) matches Some(t) && {
            &&& fully_filled ==> shows(t, "📊 <b>"@, "FILLED"@)
            &&& !fully_filled ==> shows(t, "📊 <b>"@, "PARTIAL"@)
            &&& shows(t, "</b>\nOrder: <code>"@, text::clipped(order_id, 12))
            &&& shows(t, "</code>\nPrice: "@, fill_price.spec_fixed(4))
            &&& shows(t, " | Size: "@, fill_size.spec_fixed(1))
        },
{
    lemma_shown();
}

/// The alerts of losses say how much was lost, and what is at stake.
pub proof fn losses_are_told(
    message: Seq<char>,
    daily_pnl: Double,
    exposure_usd: Double,
    asset: Seq<char>,
)
    ensures
        alerts::alert(BotEventView::CircuitBreaker { daily_pnl }, asset) matches Some(t) && shows(
            t,
            "🚨 <b>CIRCUIT BREAKER</b>\nDaily PnL: $"@,
            daily_pnl.spec_fixed(2),
        ),
        alerts::alert(
            BotEventView::RiskAlert { message, daily_pnl, exposure_usd },
            asset,
        ) matches Some(t) && {
            &&& shows(t, "⚠️ <b>Risk Alert</b>\n"@, message)
            &&& shows(t, "\nPnL: $"@, daily_pnl.spec_fixed(2))
            &&& shows(t, " | Exposure: $"@, exposure_usd.spec_fixed(2))
        },
{
    lemma_shown();
}

/// The alert of an endgame order says market, direction, price, size and conviction.
pub proof fn endgames_are_told(
    condition_id: Seq<char>,
    direction: Seq<char>,
    price: Double,
    size: Double,
    conviction: Double,
    asset: Seq<char>,
)
    ensures
        alerts::alert(
            BotEventView::ArticleFired { condition_id, direction, price, size, conviction },
            asset,
        ) matches Some(t) && {
            &&& shows(
                t,
                "🎯 <b>ARTICLE FIRED</b>\nMarket: <code>"@,
                text::clipped(condition_id, 12),
            )
            &&& shows(t, "</code>\nDir: "@, direction)
            &&& shows(t, " | Price: "@, price.spec_fixed(4))
            &&& shows(t, " | Size: "@, size.spec_fixed(1))
            &&& shows(t, "\nConviction: "@, conviction.spec_fixed(2))
        },
{
    lemma_shown();
}

/// The alerts of a new market and of feeds that go and come say which.
pub proof fn markets_and_feeds_are_told(
    condition_id: Seq<char>,
    timeframe: Seq<char>,
    named: Seq<char>,
    source: Seq<char>,
    asset: Seq<char>,
)
    ensures
        alerts::alert(
            BotEventView::MarketDiscovered { condition_id, asset: named, timeframe },
            asset,
        ) matches Some(t) && {
            &&& shows(t, "🔍 <b>New Market</b>\n"@, asset)
            &&& shows(t, " "@, timeframe)
            &&& shows(t, " — <code>"@, text::clipped(condition_id, 16))
        },
        alerts::alert(BotEventView::FeedDisconnected { source }, asset) matches Some(t) && shows(
            t,
            "🔴 <b>Feed Down:</b> "@,
            source,
        ),
        alerts::alert(BotEventView::FeedReconnected { source }, asset) matches Some(t) && shows(
            t,
            "🟢 <b>Feed Up:</b> "@,
            source,
        ),
        alerts::named_asset(
            BotEventView::MarketDiscovered { condition_id, asset: named, timeframe },
        ) == named,
{
    lemma_shown();
}

/// The summary of a day says gain, trades, the share of those won in percent, and rebates.
pub proof fn days_are_told(
    total_pnl: Double,
    trades_count: u64,
    win_rate: Double,
    rebates_usdc: Double,
    asset: Seq<char>,
)
    ensures
        alerts::alert(
            BotEventView::DailySummary { total_pnl, trades_count, win_rate, rebates_usdc },
            asset,
        ) matches Some(t) && {
            &&& shows(t, "📈 <b>Daily Summary</b>\nPnL: $"@, total_pnl.spec_fixed(2))
            &&& shows(t, " | Trades: "@, text::spec_decimal(trades_count as nat))
            &&& shows(t, " | Win: "@, win_rate.times(Double::ratio(100, 1)).spec_fixed(1))
            &&& shows(t, "%\nRebates: $"@, rebates_usdc.spec_fixed(4))
        },
{
    lemma_shown();
}

/// The alert of asks that come to less than a dollar says market, time left, both asks, their
/// sum, the edge in cents, and what is on offer on either side.
pub proof fn cheap_asks_are_told(
    condition_id: Seq<char>,
    named: Seq<char>,
    timeframe: Seq<char>,
    prices: (Double, Double, Double, Double),
    depths: (Double, Double),
    secs_left: Double,
    asset: Seq<char>,
)
    ensures
        ({
            let (yes_ask, no_ask, combined, edge_cents) = prices;
            let (yes_depth, no_depth) = depths;
            let event = BotEventView::NegVigDetected {
                condition_id,
                asset: named,
                timeframe,
                yes_ask,
                no_ask,
                combined,
                edge_cents,
                yes_depth,
                no_depth,
                secs_left,
            };
            &&& alerts::named_asset(event) == named
            &&& alerts::alert(event, asset) matches Some(t) && {
                &&& shows(t, "💎 <b>NEG-VIG DETECTED</b>\n"@, asset)
                &&& shows(t, " "@, timeframe)
                &&& shows(t, " — "@, secs_left.spec_fixed(0))
                &&& shows(t, "s left\nYES ask: "@, yes_ask.spec_fixed(4))
                &&& shows(t, " | NO ask: "@, no_ask.spec_fixed(4))
                &&& shows(t, "\nCombined: "@, combined.spec_fixed(4))
                &&& shows(
                    t,
                    " | <b>Edge: "@,
                    edge_cents.times(Double::ratio(100, 1)).spec_fixed(4),
                )
                &&& shows(t, "¢</b>\nDepth: YES "@, yes_depth.spec_fixed(0))
                &&& shows(t, " / NO "@, no_depth.spec_fixed(0))
                &&& shows(t, "\n<code>"@, text::clipped(condition_id, 16))
            }
        }),
{
    lemma_shown();
}

/// Orders that are posted or cancelled, and markets that are decided, cause no alert.
pub proof fn routine_is_not_told(event: BotEventView, asset: Seq<char>)
    ensures
        alerts::alert(event, asset) is None <==> event is OrderPosted || event is OrderCancelled
            || event is MarketResolved,
{
}

/// The brief answer says whether quoting goes on, the numbers of markets and orders, and whether
/// each exchange is connected.
pub proof fn brief_answers_tell(paused: bool, markets: nat, orders: nat, feeds: FeedStatus)
    ensures
        ({
            let t = texts::brief_text(paused, markets, orders, feeds);
            let up = "🟢"@;
            let down = "🔴"@;
            &&& paused ==> shows(t, "🤖 <b>Polymarket Maker Bot</b>\n\n"@, "⏸ Paused"@)
            &&& !paused ==> shows(t, "🤖 <b>Polymarket Maker Bot</b>\n\n"@, "▶️ Running"@)
            &&& shows(t, " | Markets: "@, text::spec_decimal(markets))
            &&& shows(t, " | Orders: "@, text::spec_decimal(orders))
            &&& feeds.binance_connected ==> shows(t, "\nBinance "@, up)
            &&& !feeds.binance_connected ==> shows(t, "\nBinance "@, down)
            &&& feeds.coinbase_connected ==> shows(t, " Coinbase "@, up)
            &&& !feeds.coinbase_connected ==> shows(t, " Coinbase "@, down)
        }),
{
    lemma_shown();
}

/// The full answer says whether quoting goes on, the numbers of markets, orders and positions,
/// the exposure, the gain of the day, whether trading is halted, and the health of the feeds.
pub proof fn full_answers_tell(
    paused: bool,
    markets: nat,
    orders: nat,
    positions: nat,
    exposure: Double,
    risk: RiskState,
    feeds: FeedStatus,
)
    ensures
        ({
            let t = texts::status_text(paused, markets, orders, positions, exposure, risk, feeds);
            let up = "🟢"@;
            let down = "🔴"@;
            &&& paused ==> shows(t, "📊 <b>Full Status</b>\n\nState: "@, "⏸ PAUSED"@)
            &&& !paused ==> shows(t, "📊 <b>Full Status</b>\n\nState: "@, "▶️ RUNNING"@)
            &&& shows(t, "\nTracked markets: "@, text::spec_decimal(markets))
            &&& shows(t, "\nLive orders: "@, text::spec_decimal(orders))
            &&& shows(t, "\nOpen positions: "@, text::spec_decimal(positions))
            &&& shows(t, "\nExposure: $"@, exposure.spec_fixed(2))
            &&& shows(t, "\nDaily PnL: $"@, risk.daily_pnl.spec_fixed(2))
            &&& risk.halted ==> shows(t, "\nCircuit breaker: "@, "🔴 TRIPPED"@)
            &&& !risk.halted ==> shows(t, "\nCircuit breaker: "@, "✅ OK"@)
            &&& feeds.binance_connected ==> shows(t, "\n\n<b>Feeds</b>\nBinance: "@, up)
            &&& !feeds.binance_connected ==> shows(t, "\n\n<b>Feeds</b>\nBinance: "@, down)
            &&& shows(t, " (age: "@, feeds.binance_last_tick_ms.spec_fixed(0))
            &&& feeds.coinbase_connected ==> shows(t, "ms)\nCoinbase: "@, up)
            &&& !feeds.coinbase_connected ==> shows(t, "ms)\nCoinbase: "@, down)
            &&& shows(t, " (age: "@, feeds.coinbase_last_tick_ms.spec_fixed(0))
        }),
{
    lemma_shown();
}

/// The answer on gains says gain, exposure, the number of markets and whether trading is halted.
pub proof fn gains_are_told(risk: RiskState, exposure: Double)
    ensures
        ({
            let t = texts::pnl_text(risk, exposure);
            &&& shows(t, "💰 <b>PnL Summary</b>\n\nDaily PnL: $"@, risk.daily_pnl.spec_fixed(2))
            &&& shows(t, "\nTotal exposure: $"@, exposure.spec_fixed(2))
            &&& shows(t, "\nActive markets: "@, text::spec_decimal(risk.active_markets as nat))
            &&& risk.halted ==> shows(t, "\nCircuit breaker: "@, "🔴 TRIPPED"@)
            &&& !risk.halted ==> shows(t, "\nCircuit breaker: "@, "✅ OK"@)
        }),
{
    lemma_shown();
}

/// The answer on feeds says of each whether it is connected and the age of its last tick.
pub proof fn feeds_are_told(feeds: FeedStatus)
    ensures
        ({
            let t = texts::feeds_text(feeds);
            let up = "🟢 Connected"@;
            let down = "🔴 Disconnected"@;
            let first = "📡 <b>Feed Status</b>\n\nBinance: "@;
            let second = "ms ago)\nCoinbase: "@;
            &&& feeds.binance_connected ==> shows(t, first, up)
            &&& !feeds.binance_connected ==> shows(t, first, down)
            &&& shows(t, " (last tick "@, feeds.binance_last_tick_ms.spec_fixed(0))
            &&& feeds.coinbase_connected ==> shows(t, second, up)
            &&& !feeds.coinbase_connected ==> shows(t, second, down)
            &&& shows(t, " (last tick "@, feeds.coinbase_last_tick_ms.spec_fixed(0))
        }),
{
    lemma_shown();
}

/// Of the positions those with shares are shown, in their order: each with token, side, shares
/// and average price.
pub proof fn positions_are_told(s: Seq<TokenPositionView>, p: TokenPositionView)
    ensures
        ({
            let before = texts::held(s);
            let after = texts::held(s.push(p));
            &&& Double::ratio(0, 1).lt(p.shares) ==> after == before.push(p)
            &&& !Double::ratio(0, 1).lt(p.shares) ==> after == before
        }),
        texts::held(Seq::empty()).len() == 0,
        ({
            let t = texts::position_lines(s.push(p));
            &&& texts::position_lines(s).is_prefix_of(t)
            &&& shows(t, "\n<code>"@, text::clipped(p.token_id, 12))
            &&& shows(t, "…</code>\n  "@, p.side)
            &&& shows(t, " "@, p.shares.spec_fixed(1))
            &&& shows(t, " shares @ $"@, p.avg_entry_price.spec_fixed(4))
        }),
        texts::held(s).len() > 0 ==> shows(
            texts::positions_text(s),
            "📦 <b>Positions ("@,
            text::spec_decimal(texts::held(s).len()),
        ) && texts::position_lines(texts::held(s)).is_suffix_of(texts::positions_text(s)),
        texts::held(s).len() == 0 ==> texts::positions_text(s)
            == "📦 <b>Positions</b>\n\nNo open positions"@,
{
    lemma_shown();
    assert(s.push(p).drop_last() =~= s);
    let line = "\n<code>"@ + text::clipped(p.token_id, 12) + "…</code>\n  "@ + p.side + " "@
        + p.shares.spec_fixed(1) + " shares @ $"@ + p.avg_entry_price.spec_fixed(4) + "\n"@;
    lemma_shown_later(texts::position_lines(s), line);
    if texts::held(s).len() > 0 {
        let lines = texts::position_lines(texts::held(s));
        let head = "📦 <b>Positions ("@ + text::spec_decimal(texts::held(s).len()) + ")</b>\n"@;
        lemma_ends(head, lines);
    }
}

proof fn lemma_ends(a: Seq<char>, b: Seq<char>)
    ensures
        a.is_prefix_of(a + b),
        b.is_suffix_of(a + b),
{
    assert((a + b).subrange(0, a.len() as int) =~= a);
    assert((a + b).subrange(a.len() as int, (a + b).len() as int) =~= b);
}

proof fn lemma_shown_later(x: Seq<char>, y: Seq<char>)
    ensures
        forall|p: Seq<char>| text::occurs(y, p) ==> #[trigger] text::occurs(x + y, p),
        x.is_prefix_of(x + y),
{
    assert forall|p: Seq<char>| text::occurs(y, p) implies #[trigger] text::occurs(x + y, p) by {
        let i = choose|i: int| text::occurs_at(y, p, i);
        let n = x.len();
        assert((x + y).subrange(n + i, n + i + p.len()) =~= y.subrange(i, i + p.len()));
        assert(text::occurs_at(x + y, p, n + i));
    }
    lemma_ends(x, y);
}

/// Every live order is shown, in their order: each with side, size, price, token and strategy.
pub proof fn orders_are_told(s: Seq<LiveOrderView>, o: LiveOrderView)
    ensures
        ({
            let t = texts::order_lines(s.push(o));
            &&& texts::order_lines(s).is_prefix_of(t)
            &&& shows(t, "\n"@, o.side)
            &&& shows(t, " "@, o.size.spec_fixed(1))
            &&& shows(t, " @ $"@, o.price.spec_fixed(4))
            &&& shows(t, "\n  <code>"@, text::clipped(o.token_id, 10))
            &&& shows(t, "…</code> ["@, o.strategy)
        }),
        s.len() > 0 ==> shows(
            texts::orders_text(s),
            "📋 <b>Live Orders ("@,
            text::spec_decimal(s.len()),
        ) && texts::order_lines(s).is_suffix_of(texts::orders_text(s)),
        s.len() == 0 ==> texts::orders_text(s) == "📋 <b>Orders</b>\n\nNo live orders"@,
{
    lemma_shown();
    assert(s.push(o).drop_last() =~= s);
    let line = "\n"@ + o.side + " "@ + o.size.spec_fixed(1) + " @ $"@ + o.price.spec_fixed(4)
        + "\n  <code>"@ + text::clipped(o.token_id, 10) + "…</code> ["@ + o.strategy + "]\n"@;
    lemma_shown_later(texts::order_lines(s), line);
    if s.len() > 0 {
        let head = "📋 <b>Live Orders ("@ + text::spec_decimal(s.len()) + ")</b>\n"@;
        lemma_ends(head, texts::order_lines(s));
    }
}

/// Every market is shown, in their order: each with asset, length, time left and state.
pub proof fn markets_are_told(
    s: Seq<MarketContextView>,
    m: MarketContextView,
    assets: Seq<Seq<char>>,
    count: nat,
    now: Double,
)
    ensures
        ({
            let t = texts::market_lines(s.push(m), assets, now);
            &&& texts::market_lines(s, assets, now).is_prefix_of(t)
            &&& shows(t, "\n"@, assets[s.len() as int])
            &&& shows(t, " "@, m.timeframe)
            &&& shows(t, " — "@, engine::time_left(m.end_time, now).spec_fixed(0))
            &&& shows(t, "s left\n  State: "@, texts::state_name(m.state))
        }),
        count > 0 ==> shows(
            texts::markets_text(count, s, assets, now),
            "🔍 <b>Tracked Markets ("@,
            text::spec_decimal(count),
        ) && texts::market_lines(s, assets, now).is_suffix_of(
            texts::markets_text(count, s, assets, now),
        ),
{
    lemma_shown();
    assert(s.push(m).drop_last() =~= s);
    let line = "\n"@ + assets[s.len() as int] + " "@ + m.timeframe + " — "@ + engine::time_left(
        m.end_time,
        now,
    ).spec_fixed(0) + "s left\n  State: "@ + texts::state_name(m.state) + "\n"@;
    lemma_shown_later(texts::market_lines(s, assets, now), line);
    if count > 0 {
        let head = "🔍 <b>Tracked Markets ("@ + text::spec_decimal(count) + ")</b>\n"@;
        lemma_ends(head, texts::market_lines(s, assets, now));
    }
}

} // verus!

//! The Telegram bot: what comes in, and what is answered.

use vstd::prelude::*;
use vstd::string::*;

use super::texts;
use super::texts::{Button, ButtonView};
use crate::config::TelegramConfig;
use crate::discovery::gamma;
use crate::discovery::gamma::GammaDiscovery;
use crate::double::Double;
use crate::executor::order_manager;
use crate::executor::order_manager::{LiveOrder, LiveOrderView, OrderManager};
use crate::feeds::stream;
use crate::feeds::types;
use crate::feeds::types::FeedStatus;
use crate::feeds::FeedHub;
use crate::position::tracker;
use crate::position::tracker::{PositionTracker, TokenPosition, TokenPositionView};
use crate::store;
use crate::strategy::engine::{MarketContext, MarketContextView};
use crate::strategy::risk::{RiskManager, RiskState};
use crate::text;

verus! {

/// What is asked of the bot.
#[derive(Clone, Copy, Debug, PartialEq, Eq, Structural)]
pub enum Query {
    Menu,
    Status,
    Positions,
    Orders,
    Markets,
    Pnl,
    Pause,
    Resume,
    Feeds,
    Unknown,
}

/// What a command, in lower case and without space around it, asks for.
pub open spec fn query_of(cmd: Seq<char>) -> Query {
    if cmd == "/start"@ || cmd == "/help"@ || cmd == "menu"@ || cmd == "back"@ {
        Query::Menu
    } else if cmd == "status"@ || cmd == "/status"@ {
        Query::Status
    } else if cmd == "positions"@ || cmd == "/positions"@ || cmd == "/pos"@ {
        Query::Positions
    } else if cmd == "orders"@ || cmd == "/orders"@ {
        Query::Orders
    } else if cmd == "markets"@ || cmd == "/markets"@ {
        Query::Markets
    } else if cmd == "pnl"@ || cmd == "/pnl"@ {
        Query::Pnl
    } else if cmd == "pause"@ || cmd == "/pause"@ {
        Query::Pause
    } else if cmd == "resume"@ || cmd == "/resume"@ {
        Query::Resume
    } else if cmd == "feeds"@ || cmd == "/feeds"@ {
        Query::Feeds
    } else {
        Query::Unknown
    }
}

/// What a command, in lower case and without space around it, asks for.
pub fn read_query(cmd: &str) -> (r: Query)
    ensures
        r == query_of(cmd@),
{
    if text::same(cmd, "/start") || text::same(cmd, "/help") || text::same(cmd, "menu")
        || text::same(cmd, "back") {
        Query::Menu
    } else if text::same(cmd, "status") || text::same(cmd, "/status") {
        Query::Status
    } else if text::same(cmd, "positions") || text::same(cmd, "/positions") || text::same(
        cmd,
        "/pos",
    ) {
        Query::Positions
    } else if text::same(cmd, "orders") || text::same(cmd, "/orders") {
        Query::Orders
    } else if text::same(cmd, "markets") || text::same(cmd, "/markets") {
        Query::Markets
    } else if text::same(cmd, "pnl") || text::same(cmd, "/pnl") {
        Query::Pnl
    } else if text::same(cmd, "pause") || text::same(cmd, "/pause") {
        Query::Pause
    } else if text::same(cmd, "resume") || text::same(cmd, "/resume") {
        Query::Resume
    } else if text::same(cmd, "feeds") || text::same(cmd, "/feeds") {
        Query::Feeds
    } else {
        Query::Unknown
    }
}

/// Whether quoting is paused after a query.
pub open spec fn paused_after(q: Query, paused: bool) -> bool {
    match q {
        Query::Pause => true,
        Query::Resume => false,
        _ => paused,
    }
}

/// The buttons under the answer to a query.
pub open spec fn keyboard_for(q: Query) -> Seq<Seq<ButtonView>> {
    match q {
        Query::Menu | Query::Unknown => texts::main_menu(),
        Query::Pause => texts::pause_resume(true),
        Query::Resume => texts::pause_resume(false),
        _ => texts::back(),
    }
}

/// An answer.
#[derive(Debug)]
pub struct Reply {
    pub message: String,
    pub keyboard: Vec<Vec<Button>>,
    /// Whether quoting is paused from now on.
    pub paused: bool,
}

/// What the answers are made of.
pub struct TelegramState<'a> {
    pub position_tracker: &'a PositionTracker,
    pub order_manager: &'a OrderManager,
    pub feed_hub: &'a FeedHub,
    pub discovery: &'a GammaDiscovery,
    pub risk_manager: &'a RiskManager,
    pub paused: bool,
}

/// The health of the price feeds of a hub.
pub open spec fn feeds_of(hub: FeedHub, now: Double) -> FeedStatus {
    FeedStatus {
        binance_connected: hub.binance_btc.stream.link.connected,
        coinbase_connected: hub.coinbase_btc.stream.link.connected,
        binance_last_tick_ms: stream::heartbeat_age(hub.binance_btc.stream.heartbeat_ts, now),
        coinbase_last_tick_ms: stream::heartbeat_age(hub.coinbase_btc.stream.heartbeat_ts, now),
    }
}

/// The state of a risk manager.
pub open spec fn risk_of(risk: RiskManager) -> RiskState {
    RiskState {
        total_exposure_usd: risk.total_exposure,
        daily_pnl: risk.daily_pnl,
        active_markets: risk.active_market_count,
        halted: risk.halted,
    }
}

impl TelegramState<'_> {
    /// Whether the names of all positions that are held can be shortened: the cut falls between
    /// characters.
    pub open spec fn positions_showable(&self) -> bool {
        forall|k: Seq<char>| #[trigger]
            self.position_tracker.contents().contains_key(k) && types::positive(
                self.position_tracker.contents()[k].shares,
            ) ==> text::clips(self.position_tracker.contents()[k].token_id, 12)
    }

    /// Whether the names of the tokens of all orders can be shortened.
    pub open spec fn orders_showable(&self) -> bool {
        forall|k: Seq<char>| #[trigger]
            self.order_manager.contents().contains_key(k) ==> text::clips(
                self.order_manager.contents()[k].token_id,
                10,
            )
    }

    /// Whether the names that the answer to a query shortens can be.
    pub open spec fn is_showable(&self, q: Query) -> bool {
        match q {
            Query::Positions => self.positions_showable(),
            Query::Orders => self.orders_showable(),
            _ => true,
        }
    }

    /// Whether a text is the answer to a query. Lists are given in the order in which the maps
    /// are walked.
    pub open spec fn says(&self, q: Query, t: Seq<char>, now: Double) -> bool {
        let feeds = feeds_of(*self.feed_hub, now);
        let risk = risk_of(*self.risk_manager);
        let positions = self.position_tracker.contents();
        let orders = self.order_manager.contents();
        let markets = self.discovery.contents();
        match q {
            Query::Menu => t == texts::brief_text(
                self.paused,
                markets.dom().len(),
                orders.dom().len(),
                feeds,
            ),
            Query::Status => exists|s: Seq<TokenPositionView>| #[trigger]
                tracker::walks(s, positions) && t == texts::status_text(
                    self.paused,
                    markets.dom().len(),
                    orders.dom().len(),
                    tracker::held(positions).len(),
                    tracker::exposure_over(s),
                    risk,
                    feeds,
                ),
            Query::Positions => exists|s: Seq<TokenPositionView>| #[trigger]
                tracker::walks(s, positions) && t == texts::positions_text(s),
            Query::Orders => exists|e: Seq<(Seq<char>, LiveOrderView)>| #[trigger]
                store::lists(e, orders) && t == texts::orders_text(
                    order_manager::values(e),
                ),
            Query::Markets => exists|s: Seq<MarketContextView>| #[trigger]
                gamma::walks(s, markets) && t == texts::markets_text(
                    markets.dom().len(),
                    s,
                    texts::upper_assets(s),
                    now,
                ),
            Query::Pnl => exists|s: Seq<TokenPositionView>| #[trigger]
                tracker::walks(s, positions) && t == texts::pnl_text(
                    risk,
                    tracker::exposure_over(s),
                ),
            Query::Pause => t == "⏸ <b>Quoting paused</b>\nAll new orders halted."@,
            Query::Resume => t == "▶️ <b>Quoting resumed</b>"@,
            Query::Feeds => t == texts::feeds_text(feeds),
            Query::Unknown => t == "Tap a button below 👇"@,
        }
    }

    fn can_show_positions(&self) -> (r: bool)
        ensures
            r == self.positions_showable(),
    {
        let zero: Double = Double::ratio(0, 1);
        let positions: Vec<(String, TokenPosition)> = store::list_positions(
            &self.position_tracker.positions,
        );
        let ghost e: Seq<(Seq<char>, TokenPositionView)> = store::position_views(positions@);
        let ghost held: Map<Seq<char>, TokenPositionView> = self.position_tracker.contents();
        assert(store::lists(e, held));
        let mut i: usize = 0;
        while i < positions.len()
            invariant
                i <= positions@.len(),
                zero == Double::ratio(0, 1),
                e == store::position_views(positions@),
                held == self.position_tracker.contents(),
                store::lists(e, held),
                forall|j: int|
                    0 <= j < i && types::positive((#[trigger] e[j]).1.shares) ==> text::clips(
                        e[j].1.token_id,
                        12,
                    ),
            decreases positions@.len() - i,
        {
            assert(e[i as int] == (positions@[i as int].0@, positions@[i as int].1@));
            if zero.lt(positions[i].1.shares) && !text::can_clip(
                positions[i].1.token_id.as_str(),
                12,
            ) {
                assert(held.contains_key(e[i as int].0));
                return false;
            }
            i = i + 1;
        }
        proof {
            assert forall|x: Seq<char>| #[trigger] held.contains_key(x) && types::positive(
                held[x].shares,
            ) implies text::clips(held[x].token_id, 12) by {
                let j = choose|j: int| 0 <= j < e.len() && (#[trigger] e[j]).0 == x;
                assert(held[x] == e[j].1);
            }
        }
        true
    }

    fn can_show_orders(&self) -> (r: bool)
        ensures
            r == self.orders_showable(),
    {
        let orders: Vec<(String, LiveOrder)> = store::list_orders(&self.order_manager.live_orders);
        let ghost f: Seq<(Seq<char>, LiveOrderView)> = store::order_views(orders@);
        let ghost live: Map<Seq<char>, LiveOrderView> = self.order_manager.contents();
        assert(store::lists(f, live));
        let mut k: usize = 0;
        while k < orders.len()
            invariant
                k <= orders@.len(),
                f == store::order_views(orders@),
                live == self.order_manager.contents(),
                store::lists(f, live),
                forall|j: int| 0 <= j < k ==> text::clips((#[trigger] f[j]).1.token_id, 10),
            decreases orders@.len() - k,
        {
            assert(f[k as int] == (orders@[k as int].0@, orders@[k as int].1@));
            if !text::can_clip(orders[k].1.token_id.as_str(), 10) {
                assert(live.contains_key(f[k as int].0));
                return false;
            }
            k = k + 1;
        }
        proof {
            assert forall|x: Seq<char>| #[trigger] live.contains_key(x) implies text::clips(
                live[x].token_id,
                10,
            ) by {
                let j = choose|j: int| 0 <= j < f.len() && (#[trigger] f[j]).0 == x;
                assert(live[x] == f[j].1);
            }
        }
        true
    }

    /// Whether the names that the answer to a query shortens can be.
    pub fn can_show(&self, q: Query) -> (r: bool)
        ensures
            r == self.is_showable(q),
    {
        match q {
            Query::Positions => self.can_show_positions(),
            Query::Orders => self.can_show_orders(),
            _ => true,
        }
    }

    fn upper_assets(markets: &Vec<MarketContext>) -> (r: Vec<String>)
        ensures
            text::texts(r@) == texts::upper_assets(gamma::market_list(markets@)),
    {
        let ghost all: Seq<Seq<char>> = texts::upper_assets(gamma::market_list(markets@));
        let mut out: Vec<String> = Vec::new();
        let mut i: usize = 0;
        while i < markets.len()
            invariant
                i <= markets@.len(),
                all == texts::upper_assets(gamma::market_list(markets@)),
                text::texts(out@) =~= all.subrange(0, i as int),
            decreases markets@.len() - i,
        {
            let ghost before: Seq<String> = out@;
            out.push(text::to_uppercase(markets[i].asset.as_str()));
            assert(text::texts(out@) =~= text::texts(before).push(all[i as int]));
            i = i + 1;
        }
        assert(text::texts(out@) =~= all);
        out
    }

    fn list_orders(&self) -> (r: Vec<LiveOrder>)
        requires
            self.orders_showable(),
        ensures
            exists|e: Seq<(Seq<char>, LiveOrderView)>| #[trigger] store::lists(
                e,
                self.order_manager.contents(),
            ) && order_manager::views(r@) == order_manager::values(e),
            texts::orders_showable(order_manager::views(r@)),
    {
        let orders: Vec<LiveOrder> = self.order_manager.all_orders();
        proof {
            let live = self.order_manager.contents();
            let e = choose|e: Seq<(Seq<char>, LiveOrderView)>| #[trigger]
                store::lists(e, live) && order_manager::views(orders@) == order_manager::values(e);
            let s = order_manager::values(e);
            assert forall|i: int| 0 <= i < s.len() implies text::clips(
                (#[trigger] s[i]).token_id,
                10,
            ) by {
                assert(s[i] == e[i].1);
                assert(live.contains_key(e[i].0));
            }
        }
        orders
    }

    fn list_positions(&self) -> (r: Vec<TokenPosition>)
        requires
            self.positions_showable(),
        ensures
            tracker::walks(tracker::views(r@), self.position_tracker.contents()),
            texts::positions_showable(tracker::views(r@)),
    {
        let positions: Vec<TokenPosition> = self.position_tracker.all_positions();
        proof {
            let held = self.position_tracker.contents();
            let s = tracker::views(positions@);
            let e = choose|e: Seq<(Seq<char>, TokenPositionView)>| #[trigger]
                store::lists(e, held) && s == tracker::entries(e);
            assert forall|i: int|
                0 <= i < s.len() && types::positive((#[trigger] s[i]).shares) implies text::clips(
                s[i].token_id,
                12,
            ) by {
                assert(s[i] == e[i].1);
                assert(held.contains_key(e[i].0));
            }
        }
        positions
    }

    /// The answer to a query.
    pub fn answer(&self, q: Query, now: Double) -> (r: Reply)
        requires
            self.is_showable(q),
        ensures
            self.says(q, r.message@, now),
            texts::keyboard_view(r.keyboard@) == keyboard_for(q),
            r.paused == paused_after(q, self.paused),
    {
        let message: String = match q {
            Query::Menu => texts::txt_status_brief(
                self.paused,
                self.discovery.tracked_count(),
                self.order_manager.live_order_count(),
                self.feed_hub.feed_status(now),
            ),
            Query::Status => texts::txt_status(
                self.paused,
                self.discovery.tracked_count(),
                self.order_manager.live_order_count(),
                self.position_tracker.position_count(),
                self.position_tracker.get_total_exposure_usd(),
                self.risk_manager.state(),
                self.feed_hub.feed_status(now),
            ),
            Query::Positions => texts::txt_positions(&self.list_positions()),
            Query::Orders => texts::txt_orders(&self.list_orders()),
            Query::Markets => {
                let count: usize = self.discovery.tracked_count();
                let markets: Vec<MarketContext> = self.discovery.all_markets();
                let assets: Vec<String> = Self::upper_assets(&markets);
                proof {
                    assert(text::texts(assets@).len() == assets@.len());
                }
                texts::txt_markets(count, &markets, &assets, now)
            },
            Query::Pnl => texts::txt_pnl(
                self.risk_manager.state(),
                self.position_tracker.get_total_exposure_usd(),
            ),
            Query::Pause => "⏸ <b>Quoting paused</b>\nAll new orders halted.".to_string(),
            Query::Resume => "▶️ <b>Quoting resumed</b>".to_string(),
            Query::Feeds => texts::txt_feeds(self.feed_hub.feed_status(now)),
            Query::Unknown => "Tap a button below 👇".to_string(),
        };
        let (keyboard, paused): (Vec<Vec<Button>>, bool) = match q {
            Query::Menu | Query::Unknown => (texts::main_menu_keyboard(), self.paused),
            Query::Pause => (texts::pause_resume_keyboard(true), true),
            Query::Resume => (texts::pause_resume_keyboard(false), false),
            _ => (texts::back_keyboard(), self.paused),
        };
        Reply { message, keyboard, paused }
    }

    /// The answer to a command or a button.
    pub fn handle_input(&self, input: &str, now: Double) -> (r: Reply)
        requires
            self.is_showable(query_of(text::lowercase(text::trimmed(input@)))),
        ensures
            ({
                let q = query_of(text::lowercase(text::trimmed(input@)));
                &&& self.says(q, r.message@, now)
                &&& texts::keyboard_view(r.keyboard@) == keyboard_for(q)
                &&& r.paused == paused_after(q, self.paused)
            }),
    {
        let cmd: String = text::to_lowercase(text::trim(input).as_str());
        self.answer(read_query(cmd.as_str()), now)
    }

    /// The answer to a command or a button, unless it would shorten a name that cannot be.
    pub fn try_handle_input(&self, input: &str, now: Double) -> (r: Option<Reply>)
        ensures
            ({
                let q = query_of(text::lowercase(text::trimmed(input@)));
                &&& r is Some <==> self.is_showable(q)
                &&& r matches Some(reply) ==> self.says(q, reply.message@, now)
                    && texts::keyboard_view(reply.keyboard@) == keyboard_for(q) && reply.paused
                    == paused_after(q, self.paused)
            }),
    {
        let cmd: String = text::to_lowercase(text::trim(input).as_str());
        if self.can_show(read_query(cmd.as_str())) {
            Some(self.handle_input(input, now))
        } else {
            None
        }
    }
}

/// Where the names of all tokens are ASCII, as those of the exchange are, every query is answered.
pub proof fn ascii_names_are_shown(state: TelegramState, q: Query)
    requires
        forall|k: Seq<char>| #[trigger]
            state.position_tracker.contents().contains_key(k) ==> vstd::utf8::is_ascii_chars(
                state.position_tracker.contents()[k].token_id,
            ),
        forall|k: Seq<char>| #[trigger]
            state.order_manager.contents().contains_key(k) ==> vstd::utf8::is_ascii_chars(
                state.order_manager.contents()[k].token_id,
            ),
    ensures
        state.is_showable(q),
{
    assert forall|k: Seq<char>| #[trigger]
        state.position_tracker.contents().contains_key(k) implies text::clips(
        state.position_tracker.contents()[k].token_id,
        12,
    ) by {
        text::ascii_clips(state.position_tracker.contents()[k].token_id, 12);
    }
    assert forall|k: Seq<char>| #[trigger]
        state.order_manager.contents().contains_key(k) implies text::clips(
        state.order_manager.contents()[k].token_id,
        10,
    ) by {
        text::ascii_clips(state.order_manager.contents()[k].token_id, 10);
    }
}

/// What came in.
#[derive(Debug)]
pub enum Update {
    Message { update_id: i64, text: String, chat_id: i64 },
    Callback { update_id: i64, callback_id: String, data: String, chat_id: i64 },
}

/// An update as the service states it; what is missing or of another type is left out.
#[derive(Debug)]
pub struct RawUpdate {
    pub update_id: Option<i64>,
    pub callback: Option<RawCallback>,
    pub message: Option<RawMessage>,
}

/// A pressed button.
#[derive(Debug)]
pub struct RawCallback {
    pub id: Option<String>,
    pub data: Option<String>,
    pub chat_id: Option<i64>,
}

/// A message.
#[derive(Debug)]
pub struct RawMessage {
    pub text: Option<String>,
    pub chat_id: Option<i64>,
}

/// What an update says.
pub enum UpdateView {
    Message { update_id: i64, text: Seq<char>, chat_id: i64 },
    Callback { update_id: i64, callback_id: Seq<char>, data: Seq<char>, chat_id: i64 },
}

impl View for Update {
    type V = UpdateView;

    open spec fn view(&self) -> UpdateView {
        match self {
            Update::Message { update_id, text, chat_id } => UpdateView::Message {
                update_id: *update_id,
                text: text@,
                chat_id: *chat_id,
            },
            Update::Callback { update_id, callback_id, data, chat_id } => UpdateView::Callback {
                update_id: *update_id,
                callback_id: callback_id@,
                data: data@,
                chat_id: *chat_id,
            },
        }
    }
}

/// A text, or the empty one.
pub open spec fn text_or_empty(s: Option<String>) -> Seq<char> {
    match s {
        Some(t) => t@,
        None => Seq::empty(),
    }
}

/// A number, or zero.
pub open spec fn number_or_zero(n: Option<i64>) -> i64 {
    match n {
        Some(x) => x,
        None => 0,
    }
}

/// What an update comes to: a pressed button with data, or else a message with a text.
pub open spec fn update_of(raw: RawUpdate) -> Option<UpdateView> {
    match raw.callback {
        Some(cb) => if text_or_empty(cb.data).len() > 0 {
            Some(
                UpdateView::Callback {
                    update_id: number_or_zero(raw.update_id),
                    callback_id: text_or_empty(cb.id),
                    data: text_or_empty(cb.data),
                    chat_id: number_or_zero(cb.chat_id),
                },
            )
        } else {
            None
        },
        None => match raw.message {
            Some(msg) => if text_or_empty(msg.text).len() > 0 {
                Some(
                    UpdateView::Message {
                        update_id: number_or_zero(raw.update_id),
                        text: text_or_empty(msg.text),
                        chat_id: number_or_zero(msg.chat_id),
                    },
                )
            } else {
                None
            },
            None => None,
        },
    }
}

/// What an update, if there is one, says.
pub open spec fn update_view(r: Option<Update>) -> Option<UpdateView> {
    match r {
        Some(u) => Some(u@),
        None => None,
    }
}

fn or_empty(s: &Option<String>) -> (r: String)
    ensures
        r@ == text_or_empty(*s),
{
    match s {
        Some(t) => t.clone(),
        None => {
            proof {
                reveal_strlit("");
                assert(""@ =~= Seq::<char>::empty());
            }
            "".to_string()
        },
    }
}

fn or_zero(n: Option<i64>) -> (r: i64)
    ensures
        r == number_or_zero(n),
{
    match n {
        Some(x) => x,
        None => 0,
    }
}

/// Reads an update.
pub fn read_update(raw: &RawUpdate) -> (r: Option<Update>)
    ensures
        update_view(r) == update_of(*raw),
{
    match &raw.callback {
        Some(cb) => {
            let data: String = or_empty(&cb.data);
            if data.as_str().unicode_len() == 0 {
                return None;
            }
            Some(
                Update::Callback {
                    update_id: or_zero(raw.update_id),
                    callback_id: or_empty(&cb.id),
                    data,
                    chat_id: or_zero(cb.chat_id),
                },
            )
        },
        None => match &raw.message {
            Some(msg) => {
                let message: String = or_empty(&msg.text);
                if message.as_str().unicode_len() == 0 {
                    return None;
                }
                Some(
                    Update::Message {
                        update_id: or_zero(raw.update_id),
                        text: message,
                        chat_id: or_zero(msg.chat_id),
                    },
                )
            },
            None => None,
        },
    }
}

/// What to do about an update: a button is acknowledged, and an input is answered if it comes
/// from the right chat.
#[derive(Debug)]
pub struct UpdateAction {
    pub acknowledge: Option<String>,
    pub input: Option<String>,
}

/// The number of an update.
pub open spec fn id_of(u: UpdateView) -> i64 {
    match u {
        UpdateView::Message { update_id, .. } => update_id,
        UpdateView::Callback { update_id, .. } => update_id,
    }
}

/// The chat of an update.
pub open spec fn chat_of(u: UpdateView) -> i64 {
    match u {
        UpdateView::Message { chat_id, .. } => chat_id,
        UpdateView::Callback { chat_id, .. } => chat_id,
    }
}

/// The input of an update.
pub open spec fn input_of(u: UpdateView) -> Seq<char> {
    match u {
        UpdateView::Message { text, .. } => text,
        UpdateView::Callback { data, .. } => data,
    }
}

/// Telegram notification and command bot.
pub struct TelegramBot {
    pub config: TelegramConfig,
    pub last_update_id: i64,
}

impl TelegramBot {
    pub fn new(config: TelegramConfig) -> (r: Self)
        ensures
            r.config == config,
            r.last_update_id == 0,
    {
        TelegramBot { config, last_update_id: 0 }
    }

    /// Token and chat, if both are configured: the bot runs only then.
    pub fn credentials(&self) -> (r: Option<(String, String)>)
        ensures
            r is Some <==> self.config.bot_token is Some && self.config.chat_id is Some,
            r matches Some((token, chat)) ==> token@ == self.config.bot_token->0@ && chat@
                == self.config.chat_id->0@,
    {
        match (&self.config.bot_token, &self.config.chat_id) {
            (Some(token), Some(chat)) => Some((token.clone(), chat.clone())),
            _ => None,
        }
    }

    /// The message at the start.
    pub fn greeting() -> (r: (String, Vec<Vec<Button>>))
        ensures
            r.0@ == "🟢 <b>Polymarket Maker Bot Online</b>\nPaper mode active"@,
            texts::keyboard_view(r.1@) == texts::main_menu(),
    {
        (
            "🟢 <b>Polymarket Maker Bot Online</b>\nPaper mode active".to_string(),
            texts::main_menu_keyboard(),
        )
    }

    /// The address of a method of the service.
    pub fn method_url(token: &str, method: &str) -> (r: String)
        ensures
            r@ == "https://api.telegram.org/bot"@ + token@ + "/"@ + method@,
    {
        let mut url: String = "https://api.telegram.org/bot".to_string();
        url.append(token);
        url.append("/");
        url.append(method);
        url
    }

    /// The number of the next update to ask for.
    pub fn offset(&self) -> (r: String)
        ensures
            r@ == text::spec_signed_decimal(self.last_update_id as int),
    {
        text::signed_decimal(self.last_update_id)
    }

    /// Takes note of an update: the next one is asked for after it. Only inputs from the chat
    /// `chat_id` are answered.
    pub fn take_update(&mut self, update: &Update, chat_id: &str) -> (r: UpdateAction)
        requires
            id_of(update@) < i64::MAX,
        ensures
            final(self).last_update_id == id_of(update@) + 1,
            final(self).config == old(self).config,
            r.acknowledge is Some <==> update@ is Callback,
            r.acknowledge matches Some(id) ==> id@ == update@->callback_id,
            r.input is Some <==> text::spec_signed_decimal(chat_of(update@) as int) == chat_id@,
            r.input matches Some(input) ==> input@ == input_of(update@),
    {
        match update {
            Update::Message { update_id, text: input, chat_id: from } => {
                self.last_update_id = *update_id + 1;
                let known: bool = text::same(text::signed_decimal(*from).as_str(), chat_id);
                UpdateAction {
                    acknowledge: None,
                    input: if known {
                        Some(input.clone())
                    } else {
                        None
                    },
                }
            },
            Update::Callback { update_id, callback_id, data, chat_id: from } => {
                self.last_update_id = *update_id + 1;
                let known: bool = text::same(text::signed_decimal(*from).as_str(), chat_id);
                UpdateAction {
                    acknowledge: Some(callback_id.clone()),
                    input: if known {
                        Some(data.clone())
                    } else {
                        None
                    },
                }
            },
        }
    }
}

/// Whether quoting is paused after a row of queries.
pub open spec fn paused_after_all(qs: Seq<Query>, paused: bool) -> bool
    decreases qs.len(),
{
    if qs.len() == 0 {
        paused
    } else {
        paused_after(qs.last(), paused_after_all(qs.drop_last(), paused))
    }
}

/// A pause lasts until quoting is resumed: no other query ends it, and none but a pause starts
/// one.
pub proof fn pause_lasts(qs: Seq<Query>)
    ensures
        (forall|i: int| 0 <= i < qs.len() ==> !(#[trigger] qs[i] is Resume)) ==> paused_after_all(
            qs,
            true,
        ),
        (forall|i: int| 0 <= i < qs.len() ==> !(#[trigger] qs[i] is Pause)) ==> !paused_after_all(
            qs,
            false,
        ),
    decreases qs.len(),
{
    if qs.len() > 0 {
        let front = qs.drop_last();
        pause_lasts(front);
        assert(qs[qs.len() - 1] == qs.last());
        assert(forall|i: int| 0 <= i < front.len() ==> front[i] == qs[i]);
        if forall|i: int| 0 <= i < qs.len() ==> !(#[trigger] qs[i] is Resume) {
            assert forall|i: int| 0 <= i < front.len() implies !(#[trigger] front[i] is Resume) by {
                assert(front[i] == qs[i]);
            }
        }
        if forall|i: int| 0 <= i < qs.len() ==> !(#[trigger] qs[i] is Pause) {
            assert forall|i: int| 0 <= i < front.len() implies !(#[trigger] front[i] is Pause) by {
                assert(front[i] == qs[i]);
            }
        }
    }
}

} // verus!

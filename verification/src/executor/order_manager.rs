//! The life of maker orders: posting, cancelling, fills and reconciliation.
//!
//! Orders are tracked in memory. What has to be published, stored or sent to the exchange is
//! returned as a list of effects, in the order in which they are to happen.

use std::str::FromStr;

use dashmap::DashMap;
use vstd::prelude::*;
use vstd::string::*;

use super::amount;
use super::amount::Amount;
use crate::config::AuthConfig;
use crate::double::Double;
use crate::events::bus::{BotEvent, BotEventView};
use crate::store;
use crate::text;

verus! {

/// An order that is posted and neither filled nor cancelled.
#[derive(Debug)]
pub struct LiveOrder {
    pub order_id: String,
    pub token_id: String,
    pub condition_id: String,
    pub side: String,
    pub price: Double,
    pub size: Double,
    pub strategy: String,
    pub posted_at: Double,
    pub market_db_id: i64,
}

/// What an order says.
pub struct LiveOrderView {
    pub order_id: Seq<char>,
    pub token_id: Seq<char>,
    pub condition_id: Seq<char>,
    pub side: Seq<char>,
    pub price: Double,
    pub size: Double,
    pub strategy: Seq<char>,
    pub posted_at: Double,
    pub market_db_id: i64,
}

impl View for LiveOrder {
    type V = LiveOrderView;

    open spec fn view(&self) -> LiveOrderView {
        LiveOrderView {
            order_id: self.order_id@,
            token_id: self.token_id@,
            condition_id: self.condition_id@,
            side: self.side@,
            price: self.price,
            size: self.size,
            strategy: self.strategy@,
            posted_at: self.posted_at,
            market_db_id: self.market_db_id,
        }
    }
}

impl Clone for LiveOrder {
    fn clone(&self) -> (r: LiveOrder)
        ensures
            r@ == self@,
    {
        LiveOrder {
            order_id: self.order_id.clone(),
            token_id: self.token_id.clone(),
            condition_id: self.condition_id.clone(),
            side: self.side.clone(),
            price: self.price,
            size: self.size,
            strategy: self.strategy.clone(),
            posted_at: self.posted_at,
            market_db_id: self.market_db_id,
        }
    }
}

/// What a list of orders says.
pub open spec fn views(s: Seq<LiveOrder>) -> Seq<LiveOrderView> {
    s.map_values(|o: LiveOrder| o@)
}

/// Reply of the exchange to an order.
#[derive(Debug)]
pub struct OrderResponse {
    pub order_id: Option<String>,
    pub success: Option<bool>,
    pub error_msg: Option<String>,
    pub status: Option<String>,
}

/// Reply of the exchange to a cancellation.
#[derive(Debug)]
pub struct CancelResponse {
    pub canceled: Option<Vec<String>>,
    /// What was not cancelled, in JSON notation.
    pub not_canceled: Option<String>,
}

/// Something to be done outside.
#[derive(Debug)]
pub enum Effect {
    /// Tell all listeners.
    Publish(BotEvent),
    /// Store a new order, good till cancelled.
    RecordOrder(LiveOrder),
    /// Store the status of an order.
    RecordStatus {
        order_id: String,
        status: String,
        fill_price: Option<Double>,
        fill_size: Option<Double>,
    },
    /// Ask the exchange to cancel an order.
    CancelOnExchange { order_id: String },
}

/// What an effect says.
pub enum EffectView {
    Publish(BotEventView),
    RecordOrder(LiveOrderView),
    RecordStatus {
        order_id: Seq<char>,
        status: Seq<char>,
        fill_price: Option<Double>,
        fill_size: Option<Double>,
    },
    CancelOnExchange { order_id: Seq<char> },
}

impl View for Effect {
    type V = EffectView;

    open spec fn view(&self) -> EffectView {
        match self {
            Effect::Publish(event) => EffectView::Publish(event@),
            Effect::RecordOrder(order) => EffectView::RecordOrder(order@),
            Effect::RecordStatus {
                order_id,
                status,
                fill_price,
                fill_size,
            } => EffectView::RecordStatus {
                order_id: order_id@,
                status: status@,
                fill_price: *fill_price,
                fill_size: *fill_size,
            },
            Effect::CancelOnExchange { order_id } => EffectView::CancelOnExchange {
                order_id: order_id@,
            },
        }
    }
}

/// What a list of effects says.
pub open spec fn effect_views(s: Seq<Effect>) -> Seq<EffectView> {
    s.map_values(|e: Effect| e@)
}

/// How long an order stands.
#[derive(Clone, Copy, Debug, PartialEq, Eq, Structural)]
pub enum OrderType {
    /// Good till cancelled.
    Gtc,
    /// Good till a date.
    Gtd,
    /// Filled as a whole at once, or killed.
    Fok,
    /// Filled at once as far as it can be, and the rest killed.
    Fak,
}

/// An order that can be sent to the exchange.
#[derive(Debug)]
pub struct OrderTicket {
    /// The token's number, in four words of 64 bits, lowest first.
    pub token: Vec<u64>,
    pub buy: bool,
    pub price: Amount,
    pub size: Amount,
    pub order_type: OrderType,
}

/// What such an order says.
pub struct OrderTicketView {
    pub token: Seq<u64>,
    pub buy: bool,
    pub price: Amount,
    pub size: Amount,
    pub order_type: OrderType,
}

/// What the price and the size of an order are as decimal numbers, or why they are none.
#[derive(Debug)]
pub struct OrderAmounts {
    pub price: Result<Amount, String>,
    pub size: Result<Amount, String>,
}

/// What a decimal number or the text of an error says.
pub open spec fn amount_view(r: Result<Amount, String>) -> Result<Amount, Seq<char>> {
    match r {
        Ok(a) => Ok(a),
        Err(e) => Err(e@),
    }
}

impl OrderAmounts {
    /// Whether what is a decimal number is one in range.
    pub open spec fn wf(&self) -> bool {
        &&& self.price matches Ok(a) ==> a.wf()
        &&& self.size matches Ok(a) ==> a.wf()
    }
}

impl View for OrderTicket {
    type V = OrderTicketView;

    open spec fn view(&self) -> OrderTicketView {
        OrderTicketView {
            token: self.token@,
            buy: self.buy,
            price: self.price,
            size: self.size,
            order_type: self.order_type,
        }
    }
}

/// What became of a request for an order.
#[derive(Debug)]
pub enum PostOutcome {
    /// The order is posted, on paper.
    Posted { order_id: String, effects: Vec<Effect> },
    /// The order has to be sent to the exchange.
    Send(OrderTicket),
    /// The order cannot be sent.
    Rejected(String),
}

/// What a result that may be an error text says.
pub open spec fn words_view(r: Result<Vec<u64>, String>) -> Result<Seq<u64>, Seq<char>> {
    match r {
        Ok(v) => Ok(v@),
        Err(e) => Err(e@),
    }
}

/// What a result that may be an error text says.
pub open spec fn bytes_view(r: Result<Vec<u8>, String>) -> Result<Seq<u8>, Seq<char>> {
    match r {
        Ok(v) => Ok(v@),
        Err(e) => Err(e@),
    }
}

/// What a result that may be an error text says.
pub open spec fn key_view(r: Result<u128, String>) -> Result<u128, Seq<char>> {
    match r {
        Ok(v) => Ok(v),
        Err(e) => Err(e@),
    }
}

/// The number of 256 bits that a text stands for, in four words, lowest first; or why it
/// stands for none.
pub uninterp spec fn number_of(s: Seq<char>) -> Result<Seq<u64>, Seq<char>>;

/// `alloy::primitives::U256::from_str`, and the text of its error: the result depends on the
/// text alone. The number is handed on as its four words.
#[verifier::external_body]
fn parse_number(s: &str) -> (r: Result<Vec<u64>, String>)
    ensures
        words_view(r) == number_of(s@),
{
    match alloy::primitives::U256::from_str(s) {
        Ok(n) => Ok(n.into_limbs().to_vec()),
        Err(e) => Err(e.to_string()),
    }
}

/// The UUID that a text stands for, or why it stands for none.
pub uninterp spec fn uuid_of(s: Seq<char>) -> Result<u128, Seq<char>>;

/// `uuid::Uuid::parse_str`, and the text of its error: the result depends on the text alone.
#[verifier::external_body]
fn parse_uuid(s: &str) -> (r: Result<u128, String>)
    ensures
        key_view(r) == uuid_of(s@),
{
    match uuid::Uuid::parse_str(s) {
        Ok(id) => Ok(id.as_u128()),
        Err(e) => Err(e.to_string()),
    }
}

/// The account address that a text stands for, as its bytes, or why it stands for none.
pub uninterp spec fn address_of(s: Seq<char>) -> Result<Seq<u8>, Seq<char>>;

/// `alloy::primitives::Address::from_str`, and the text of its error: the result depends on
/// the text alone.
#[verifier::external_body]
fn parse_address(s: &str) -> (r: Result<Vec<u8>, String>)
    ensures
        bytes_view(r) == address_of(s@),
{
    match alloy::primitives::Address::from_str(s) {
        Ok(a) => Ok(a.to_vec()),
        Err(e) => Err(e.to_string()),
    }
}

/// How orders are signed.
#[derive(Clone, Copy, Debug, PartialEq, Eq, Structural)]
pub enum SignatureType {
    Eoa,
    Proxy,
    GnosisSafe,
}

/// The signature type of a number.
pub open spec fn signature_type_of(code: u8) -> SignatureType {
    if code == 1 {
        SignatureType::Proxy
    } else if code == 2 {
        SignatureType::GnosisSafe
    } else {
        SignatureType::Eoa
    }
}

/// The signature type of a number; an unknown one counts as a plain account.
pub fn signature_type(code: u8) -> (r: SignatureType)
    ensures
        r == signature_type_of(code),
{
    match code {
        1 => SignatureType::Proxy,
        2 => SignatureType::GnosisSafe,
        _ => SignatureType::Eoa,
    }
}

/// What is needed to log in to the exchange.
#[derive(Debug)]
pub struct AccountSetup {
    /// Address of the account that the private key signs for.
    pub signer: Vec<u8>,
    pub api_key: u128,
    pub signature_type: SignatureType,
    /// Address of the account that holds the funds, where it is not the signer's.
    pub funder: Option<Vec<u8>>,
}

/// What the setup says.
pub struct AccountSetupView {
    pub signer: Seq<u8>,
    pub api_key: u128,
    pub signature_type: SignatureType,
    pub funder: Option<Seq<u8>>,
}

impl View for AccountSetup {
    type V = AccountSetupView;

    open spec fn view(&self) -> AccountSetupView {
        AccountSetupView {
            signer: self.signer@,
            api_key: self.api_key,
            signature_type: self.signature_type,
            funder: match self.funder {
                Some(v) => Some(v@),
                None => None,
            },
        }
    }
}

/// Whether the funds are held by another account than the signer's.
pub open spec fn has_funder(auth: AuthConfig) -> bool {
    !(signature_type_of(auth.signature_type) is Eoa) && auth.funder_address@.len() > 0
}

/// What the credentials come to: `signer` is the address that the private key signs for, or why
/// it is no key, `client` whether there is a client for the exchange, and `key` and `funder` what
/// key and address stand for. The private key comes first, and without a setup nobody logs in.
pub open spec fn setup_of(
    auth: AuthConfig,
    signer: Result<Seq<u8>, Seq<char>>,
    client: Result<(), Seq<char>>,
    key: Result<u128, Seq<char>>,
    funder: Result<Seq<u8>, Seq<char>>,
) -> Result<AccountSetupView, Seq<char>> {
    match (signer, client, key) {
        (Err(e), _, _) => Err("invalid private key: "@ + e),
        (Ok(_), Err(e), _) => Err("failed to create CLOB client: "@ + e),
        (Ok(_), Ok(_), Err(e)) => Err("invalid CLOB API key UUID: "@ + e),
        (Ok(signer), Ok(_), Ok(api_key)) => {
            let signature_type = signature_type_of(auth.signature_type);
            if !has_funder(auth) {
                Ok(AccountSetupView { signer, api_key, signature_type, funder: None })
            } else {
                match funder {
                    Err(e) => Err("invalid funder address: "@ + e),
                    Ok(bytes) => Ok(
                        AccountSetupView { signer, api_key, signature_type, funder: Some(bytes) },
                    ),
                }
            }
        },
    }
}

/// What a result without a value, or the text of an error, says.
pub open spec fn done_view(r: Result<(), String>) -> Result<(), Seq<char>> {
    match r {
        Ok(_) => Ok(()),
        Err(e) => Err(e@),
    }
}

/// What a setup or the text of an error says.
pub open spec fn setup_view(r: Result<AccountSetup, String>) -> Result<
    AccountSetupView,
    Seq<char>,
> {
    match r {
        Ok(s) => Ok(s@),
        Err(e) => Err(e@),
    }
}

/// The setup from what the credentials stand for.
pub fn setup_from(
    auth: &AuthConfig,
    signer: Result<Vec<u8>, String>,
    client: Result<(), String>,
    key: Result<u128, String>,
    funder: Result<Vec<u8>, String>,
) -> (r: Result<AccountSetup, String>)
    ensures
        setup_view(r) == setup_of(
            *auth,
            bytes_view(signer),
            done_view(client),
            key_view(key),
            bytes_view(funder),
        ),
{
    let signer: Vec<u8> = match signer {
        Ok(address) => address,
        Err(e) => {
            return Err(complaint("invalid private key: ", e.as_str()));
        },
    };
    match client {
        Ok(_) => {},
        Err(e) => {
            return Err(complaint("failed to create CLOB client: ", e.as_str()));
        },
    }
    let api_key: u128 = match key {
        Ok(k) => k,
        Err(e) => {
            return Err(complaint("invalid CLOB API key UUID: ", e.as_str()));
        },
    };
    let sig_type: SignatureType = signature_type(auth.signature_type);
    if sig_type == SignatureType::Eoa || auth.funder_address.as_str().unicode_len() == 0 {
        return Ok(AccountSetup { signer, api_key, signature_type: sig_type, funder: None });
    }
    match funder {
        Ok(bytes) => Ok(
            AccountSetup { signer, api_key, signature_type: sig_type, funder: Some(bytes) },
        ),
        Err(e) => Err(complaint("invalid funder address: ", e.as_str())),
    }
}

/// Reads the credentials: the key, how orders are signed, and the account that holds the funds.
/// `signer` is what the private key comes to, and `client` whether there is a client for the
/// exchange. Without a setup nobody logs in.
pub fn account_setup(
    auth: &AuthConfig,
    signer: Result<Vec<u8>, String>,
    client: Result<(), String>,
) -> (r: Result<AccountSetup, String>)
    ensures
        setup_view(r) == setup_of(
            *auth,
            bytes_view(signer),
            done_view(client),
            uuid_of(auth.clob_api_key@),
            address_of(auth.funder_address@),
        ),
        signer matches Err(e) ==> r matches Err(message) && message@ == "invalid private key: "@
            + e@,
{
    let key: Result<u128, String> = parse_uuid(auth.clob_api_key.as_str());
    let funder: Result<Vec<u8>, String> = parse_address(auth.funder_address.as_str());
    setup_from(auth, signer, client, key, funder)
}

/// The first name that is tried for an order on paper.
pub open spec fn paper_id(token_id: Seq<char>, now: Double) -> Seq<char> {
    "paper-"@ + (if token_id.len() <= 8 {
        token_id
    } else {
        token_id.subrange(0, 8)
    }) + "-"@ + text::spec_decimal(now.to_nat() as nat)
}

/// The names that are tried for an order on paper, one after the other.
pub open spec fn paper_name(token_id: Seq<char>, now: Double, k: nat) -> Seq<char> {
    if k == 0 {
        paper_id(token_id, now)
    } else {
        paper_id(token_id, now) + "-"@ + text::spec_decimal(k)
    }
}

/// Whether the name numbered `k` is the first that no live order has.
pub open spec fn is_free(
    orders: Map<Seq<char>, LiveOrderView>,
    token_id: Seq<char>,
    now: Double,
    k: nat,
) -> bool {
    &&& !orders.contains_key(paper_name(token_id, now, k))
    &&& forall|j: nat| j < k ==> orders.contains_key(#[trigger] paper_name(token_id, now, j))
}

/// The name of an order on paper: the first that no live order has.
pub open spec fn free_name(
    orders: Map<Seq<char>, LiveOrderView>,
    token_id: Seq<char>,
    now: Double,
) -> Seq<char> {
    paper_name(token_id, now, choose|k: nat| is_free(orders, token_id, now, k))
}

/// The names that are tried are different.
proof fn lemma_paper_names_differ(token_id: Seq<char>, now: Double, j: nat, k: nat)
    requires
        paper_name(token_id, now, j) == paper_name(token_id, now, k),
    ensures
        j == k,
{
    let base = paper_id(token_id, now);
    let a = paper_name(token_id, now, j);
    let b = paper_name(token_id, now, k);
    reveal_strlit("-");
    if j > 0 && k > 0 {
        let n = (base.len() + 1) as int;
        assert(text::spec_decimal(j) =~= a.subrange(n, a.len() as int));
        assert(text::spec_decimal(k) =~= b.subrange(n, b.len() as int));
        text::decimals_differ(j, k);
    }
}

/// No more names can be taken than there are orders.
proof fn lemma_taken_names(
    orders: Map<Seq<char>, LiveOrderView>,
    token_id: Seq<char>,
    now: Double,
    n: nat,
)
    requires
        orders.dom().finite(),
        forall|j: nat| j < n ==> orders.contains_key(#[trigger] paper_name(token_id, now, j)),
    ensures
        n <= orders.dom().len(),
{
    let names = Seq::new(n, |j: int| paper_name(token_id, now, j as nat));
    assert(names.no_duplicates()) by {
        assert forall|i: int, j: int| 0 <= i < n && 0 <= j < n && i != j implies names[i]
            != names[j] by {
            if names[i] == names[j] {
                lemma_paper_names_differ(token_id, now, i as nat, j as nat);
            }
        }
    }
    names.unique_seq_to_set();
    assert forall|x: Seq<char>| names.to_set().contains(x) implies orders.dom().contains(x) by {
        let i = choose|i: int| 0 <= i < names.len() && names[i] == x;
        assert(orders.contains_key(paper_name(token_id, now, i as nat)));
    }
    vstd::set_lib::lemma_len_subset(names.to_set(), orders.dom());
}

/// What follows the posting of an order.
pub open spec fn posted_effects(order: LiveOrderView) -> Seq<EffectView> {
    seq![
        EffectView::RecordOrder(order),
        EffectView::Publish(
            BotEventView::OrderPosted {
                order_id: order.order_id,
                token_id: order.token_id,
                side: order.side,
                price: order.price,
                size: order.size,
                strategy: order.strategy,
            },
        ),
    ]
}

/// The order for the exchange, given what the token's name stands for, and what price and size
/// are as decimal numbers; or why there is none. The order is good till cancelled, with price
/// and size rounded to two decimal places.
pub open spec fn ticket_of(
    number: Result<Seq<u64>, Seq<char>>,
    side: Seq<char>,
    price: Result<Amount, Seq<char>>,
    size: Result<Amount, Seq<char>>,
) -> Result<OrderTicketView, Seq<char>> {
    match number {
        Err(e) => Err("invalid token ID: "@ + e),
        Ok(token) => if side != "BUY"@ && side != "SELL"@ {
            Err("invalid side: "@ + side)
        } else {
            match (price, size) {
                (Err(e), _) => Err("invalid price: "@ + e),
                (Ok(_), Err(e)) => Err("invalid size: "@ + e),
                (Ok(p), Ok(s)) => Ok(
                    OrderTicketView {
                        token,
                        buy: side == "BUY"@,
                        price: amount::sent(p),
                        size: amount::sent(s),
                        order_type: OrderType::Gtc,
                    },
                ),
            }
        },
    }
}

/// What an order for the exchange or the text of an error says.
pub open spec fn ticket_view(r: Result<OrderTicket, String>) -> Result<OrderTicketView, Seq<char>> {
    match r {
        Ok(t) => Ok(t@),
        Err(e) => Err(e@),
    }
}

/// The text of an error, after what it is about.
fn complaint(about: &str, e: &str) -> (r: String)
    ensures
        r@ == about@ + e@,
{
    let mut message: String = about.to_string();
    message.append(e);
    message
}

/// The order for the exchange, given what the token's name stands for, and what price and size
/// are as decimal numbers.
pub fn ticket_from(
    number: Result<Vec<u64>, String>,
    side: &str,
    amounts: OrderAmounts,
) -> (r: Result<OrderTicket, String>)
    requires
        amounts.wf(),
    ensures
        ticket_view(r) == ticket_of(
            words_view(number),
            side@,
            amount_view(amounts.price),
            amount_view(amounts.size),
        ),
{
    let token: Vec<u64> = match number {
        Ok(t) => t,
        Err(e) => {
            return Err(complaint("invalid token ID: ", e.as_str()));
        },
    };
    let buy: bool = text::same(side, "BUY");
    if !buy && !text::same(side, "SELL") {
        return Err(complaint("invalid side: ", side));
    }
    let price: Amount = match amounts.price {
        Ok(a) => amount::send_amount(a),
        Err(e) => {
            return Err(complaint("invalid price: ", e.as_str()));
        },
    };
    let size: Amount = match amounts.size {
        Ok(a) => amount::send_amount(a),
        Err(e) => {
            return Err(complaint("invalid size: ", e.as_str()));
        },
    };
    Ok(OrderTicket { token, buy, price, size, order_type: OrderType::Gtc })
}

/// What follows the cancellation of an order.
pub open spec fn cancel_effects(order_id: Seq<char>, paper_mode: bool) -> Seq<EffectView> {
    seq![
        EffectView::RecordStatus {
            order_id,
            status: "cancelled"@,
            fill_price: None,
            fill_size: None,
        },
        EffectView::Publish(
            BotEventView::OrderCancelled {
                order_id,
                reason: if paper_mode {
                    "paper_cancel"@
                } else {
                    "cancel_replace"@
                },
            },
        ),
    ] + (if paper_mode {
        Seq::empty()
    } else {
        seq![EffectView::CancelOnExchange { order_id }]
    })
}

/// What follows the cancellation of a row of orders.
pub open spec fn all_cancel_effects(ids: Seq<Seq<char>>, paper_mode: bool) -> Seq<EffectView>
    decreases ids.len(),
{
    if ids.len() == 0 {
        Seq::empty()
    } else {
        all_cancel_effects(ids.drop_last(), paper_mode) + cancel_effects(ids.last(), paper_mode)
    }
}

/// The same status for a row of orders.
pub open spec fn status_effects(ids: Seq<Seq<char>>, status: Seq<char>) -> Seq<EffectView> {
    ids.map_values(
        |id: Seq<char>|
            EffectView::RecordStatus {
                order_id: id,
                status,
                fill_price: None,
                fill_size: None,
            },
    )
}

/// The names of the orders of a market, in the order of the list.
pub open spec fn market_ids(
    e: Seq<(Seq<char>, LiveOrderView)>,
    condition_id: Seq<char>,
) -> Seq<Seq<char>>
    decreases e.len(),
{
    if e.len() == 0 {
        Seq::empty()
    } else if e.last().1.condition_id == condition_id {
        market_ids(e.drop_last(), condition_id).push(e.last().0)
    } else {
        market_ids(e.drop_last(), condition_id)
    }
}

/// The orders of a market, in the order of the list.
pub open spec fn market_orders(
    e: Seq<(Seq<char>, LiveOrderView)>,
    condition_id: Seq<char>,
) -> Seq<LiveOrderView>
    decreases e.len(),
{
    if e.len() == 0 {
        Seq::empty()
    } else if e.last().1.condition_id == condition_id {
        market_orders(e.drop_last(), condition_id).push(e.last().1)
    } else {
        market_orders(e.drop_last(), condition_id)
    }
}

/// The names in a list of orders.
pub open spec fn keys(e: Seq<(Seq<char>, LiveOrderView)>) -> Seq<Seq<char>> {
    e.map_values(|x: (Seq<char>, LiveOrderView)| x.0)
}

/// The orders in a list of them with their names.
pub open spec fn values(e: Seq<(Seq<char>, LiveOrderView)>) -> Seq<LiveOrderView> {
    e.map_values(|x: (Seq<char>, LiveOrderView)| x.1)
}

/// The orders of other markets.
pub open spec fn other_markets(
    orders: Map<Seq<char>, LiveOrderView>,
    condition_id: Seq<char>,
) -> Map<Seq<char>, LiveOrderView> {
    orders.restrict(Set::new(|k: Seq<char>| orders[k].condition_id != condition_id))
}

/// The names of the orders of a market.
pub open spec fn ids_in_market(
    orders: Map<Seq<char>, LiveOrderView>,
    condition_id: Seq<char>,
) -> Set<Seq<char>> {
    Set::new(|k: Seq<char>| orders.contains_key(k) && orders[k].condition_id == condition_id)
}

/// Whether an order is unknown to the exchange though it should be known.
pub open spec fn is_stale(order_id: Seq<char>, open_ids: Seq<Seq<char>>) -> bool {
    !text::occurs_at(order_id, "paper-"@, 0) && !open_ids.contains(order_id)
}

/// The names of stale orders, in the order of the list.
pub open spec fn stale_ids(
    e: Seq<(Seq<char>, LiveOrderView)>,
    open_ids: Seq<Seq<char>>,
) -> Seq<Seq<char>>
    decreases e.len(),
{
    if e.len() == 0 {
        Seq::empty()
    } else if is_stale(e.last().0, open_ids) {
        stale_ids(e.drop_last(), open_ids).push(e.last().0)
    } else {
        stale_ids(e.drop_last(), open_ids)
    }
}

/// The orders that are not stale.
pub open spec fn fresh_orders(
    orders: Map<Seq<char>, LiveOrderView>,
    open_ids: Seq<Seq<char>>,
) -> Map<Seq<char>, LiveOrderView> {
    orders.restrict(Set::new(|k: Seq<char>| !is_stale(k, open_ids)))
}

/// `market_ids` gives each name once, and so as many as there are.
proof fn lemma_market_ids_count(
    e: Seq<(Seq<char>, LiveOrderView)>,
    orders: Map<Seq<char>, LiveOrderView>,
    condition_id: Seq<char>,
)
    requires
        store::lists(e, orders),
    ensures
        ids_in_market(orders, condition_id).finite(),
        market_ids(e, condition_id).len() == ids_in_market(orders, condition_id).len(),
{
    let ids = market_ids(e, condition_id);
    lemma_market_ids(e, condition_id);
    lemma_market_ids_differ(e, condition_id);
    ids.unique_seq_to_set();
    vstd::seq_lib::seq_to_set_is_finite(ids);
    assert(ids.to_set() =~= ids_in_market(orders, condition_id)) by {
        assert forall|k: Seq<char>| ids.contains(k) <==> ids_in_market(
            orders,
            condition_id,
        ).contains(k) by {
            if orders.contains_key(k) {
                let i = choose|i: int| 0 <= i < e.len() && (#[trigger] e[i]).0 == k;
                assert(orders[k] == e[i].1);
            }
        }
    }
}

/// `market_ids` gives no name twice.
pub proof fn lemma_market_ids_differ(e: Seq<(Seq<char>, LiveOrderView)>, condition_id: Seq<char>)
    requires
        forall|i: int, j: int|
            0 <= i < j < e.len() ==> (#[trigger] e[i]).0 != (#[trigger] e[j]).0,
    ensures
        market_ids(e, condition_id).no_duplicates(),
    decreases e.len(),
{
    if e.len() > 0 {
        let front = e.drop_last();
        lemma_market_ids_differ(front, condition_id);
        lemma_market_ids(front, condition_id);
        if market_ids(front, condition_id).contains(e.last().0) {
            let i = choose|i: int|
                0 <= i < front.len() && (#[trigger] front[i]).0 == e.last().0
                    && front[i].1.condition_id == condition_id;
            assert(e[i].0 == e[e.len() - 1].0);
        }
    }
}

/// Which names `market_ids` gives.
pub proof fn lemma_market_ids(e: Seq<(Seq<char>, LiveOrderView)>, condition_id: Seq<char>)
    ensures
        forall|k: Seq<char>|
            #[trigger] market_ids(e, condition_id).contains(k) <==> exists|i: int|
                0 <= i < e.len() && (#[trigger] e[i]).0 == k && e[i].1.condition_id
                    == condition_id,
    decreases e.len(),
{
    if e.len() > 0 {
        let front = e.drop_last();
        lemma_market_ids(front, condition_id);
        let ids = market_ids(e, condition_id);
        let before = market_ids(front, condition_id);
        assert forall|k: Seq<char>| #[trigger] ids.contains(k) <==> exists|i: int|
            0 <= i < e.len() && (#[trigger] e[i]).0 == k && e[i].1.condition_id
                == condition_id by {
            if ids.contains(k) {
                if before.contains(k) {
                    let i = choose|i: int|
                        0 <= i < front.len() && (#[trigger] front[i]).0 == k
                            && front[i].1.condition_id == condition_id;
                    assert(e[i] == front[i]);
                } else {
                    let m = choose|m: int| 0 <= m < ids.len() && ids[m] == k;
                    assert(m == before.len());
                    assert(e[e.len() - 1].0 == k);
                }
            }
            if exists|i: int|
                0 <= i < e.len() && (#[trigger] e[i]).0 == k && e[i].1.condition_id
                    == condition_id {
                let i = choose|i: int|
                    0 <= i < e.len() && (#[trigger] e[i]).0 == k && e[i].1.condition_id
                        == condition_id;
                if i < front.len() {
                    assert(front[i] == e[i]);
                    assert(before.contains(k));
                    let m = choose|m: int| 0 <= m < before.len() && before[m] == k;
                    assert(ids[m] == k);
                } else {
                    assert(ids[ids.len() - 1] == k);
                }
            }
        }
    }
}

/// Which names `stale_ids` gives.
pub proof fn lemma_stale_ids(e: Seq<(Seq<char>, LiveOrderView)>, open_ids: Seq<Seq<char>>)
    ensures
        forall|k: Seq<char>|
            #[trigger] stale_ids(e, open_ids).contains(k) <==> is_stale(k, open_ids) && exists|
                i: int,
            |
                0 <= i < e.len() && (#[trigger] e[i]).0 == k,
    decreases e.len(),
{
    if e.len() > 0 {
        let front = e.drop_last();
        lemma_stale_ids(front, open_ids);
        let ids = stale_ids(e, open_ids);
        let before = stale_ids(front, open_ids);
        assert forall|k: Seq<char>| #[trigger]
            ids.contains(k) <==> is_stale(k, open_ids) && exists|i: int|
            0 <= i < e.len() && (#[trigger] e[i]).0 == k by {
            if ids.contains(k) {
                if before.contains(k) {
                    let i = choose|i: int| 0 <= i < front.len() && (#[trigger] front[i]).0 == k;
                    assert(e[i] == front[i]);
                } else {
                    let m = choose|m: int| 0 <= m < ids.len() && ids[m] == k;
                    assert(m == before.len());
                    assert(e[e.len() - 1].0 == k);
                }
            }
            if is_stale(k, open_ids) && exists|i: int|
                0 <= i < e.len() && (#[trigger] e[i]).0 == k {
                let i = choose|i: int| 0 <= i < e.len() && (#[trigger] e[i]).0 == k;
                if i < front.len() {
                    assert(front[i] == e[i]);
                    assert(before.contains(k));
                    let m = choose|m: int| 0 <= m < before.len() && before[m] == k;
                    assert(ids[m] == k);
                } else {
                    assert(ids[ids.len() - 1] == k);
                }
            }
        }
    }
}

/// Tracks the orders that are live.
pub struct OrderManager {
    pub live_orders: DashMap<String, LiveOrder>,
}

fn is_taken(listed: &Vec<(String, LiveOrder)>, name: &str) -> (r: bool)
    ensures
        forall|m: Map<Seq<char>, LiveOrderView>| #[trigger]
            store::lists(store::order_views(listed@), m) ==> r == m.contains_key(name@),
{
    let ghost e: Seq<(Seq<char>, LiveOrderView)> = store::order_views(listed@);
    let mut i: usize = 0;
    while i < listed.len()
        invariant
            i <= listed@.len(),
            e == store::order_views(listed@),
            forall|j: int| 0 <= j < i ==> (#[trigger] e[j]).0 != name@,
        decreases listed@.len() - i,
    {
        assert(e[i as int].0 == listed@[i as int].0@);
        if text::same(listed[i].0.as_str(), name) {
            assert forall|m: Map<Seq<char>, LiveOrderView>| #[trigger]
                store::lists(e, m) implies m.contains_key(name@) by {
                assert(m.contains_key(e[i as int].0));
            }
            return true;
        }
        i = i + 1;
    }
    false
}

impl OrderManager {
    /// The live orders by name.
    pub open spec fn contents(&self) -> Map<Seq<char>, LiveOrderView> {
        store::orders_of(self.live_orders)
    }

    /// Every order stands under its own name.
    pub open spec fn wf(&self) -> bool {
        forall|k: Seq<char>| #[trigger]
            self.contents().contains_key(k) ==> self.contents()[k].order_id == k
    }

    pub fn new() -> (r: Self)
        ensures
            r.contents() == Map::<Seq<char>, LiveOrderView>::empty(),
            r.wf(),
    {
        let live_orders: DashMap<String, LiveOrder> = store::no_orders();
        assert(store::orders_of(live_orders) =~= Map::<Seq<char>, LiveOrderView>::empty());
        OrderManager { live_orders }
    }

    /// The orders after a login: none yet, where it succeeded.
    pub fn after_login(login: Result<(), String>) -> (r: Result<OrderManager, String>)
        ensures
            r is Ok <==> login is Ok,
            r matches Ok(m) ==> m.wf() && m.contents() == Map::<Seq<char>, LiveOrderView>::empty(),
            login matches Err(e) ==> r matches Err(message) && message@
                == "CLOB authentication failed: "@ + e@,
    {
        match login {
            Ok(_) => Ok(OrderManager::new()),
            Err(e) => Err(complaint("CLOB authentication failed: ", e.as_str())),
        }
    }

    /// The first name for an order on paper that no live order has.
    fn free_paper_name(&self, token_id: &str, now: Double) -> (r: String)
        ensures
            r@ == free_name(self.contents(), token_id@, now),
            !self.contents().contains_key(r@),
            exists|k: nat| #[trigger]
                is_free(self.contents(), token_id@, now, k) && r@ == paper_name(token_id@, now, k),
            self.contents().dom().finite(),
    {
        let listed: Vec<(String, LiveOrder)> = store::list_orders(&self.live_orders);
        let ghost e: Seq<(Seq<char>, LiveOrderView)> = store::order_views(listed@);
        let ghost live: Map<Seq<char>, LiveOrderView> = self.contents();
        proof {
            store::lemma_listed(e, live);
        }
        let mut base: String = "paper-".to_string();
        base.append(text::first_chars(token_id, 8).as_str());
        base.append("-");
        base.append(text::decimal(now.to_nat()).as_str());
        let mut name: String = base.clone();
        let count: usize = listed.len();
        let mut k: usize = 0;
        while is_taken(&listed, name.as_str())
            invariant
                live == self.contents(),
                e == store::order_views(listed@),
                store::lists(e, live),
                live.dom().finite(),
                live.dom().len() == e.len(),
                e.len() == listed@.len(),
                count == listed@.len(),
                k <= count,
                base@ == paper_id(token_id@, now),
                name@ == paper_name(token_id@, now, k as nat),
                forall|j: nat|
                    j < k ==> live.contains_key(#[trigger] paper_name(token_id@, now, j)),
            decreases count - k,
        {
            proof {
                lemma_taken_names(live, token_id@, now, (k + 1) as nat);
            }
            k = k + 1;
            name = base.clone();
            name.append("-");
            name.append(text::decimal(k as u64).as_str());
        }
        proof {
            assert(is_free(live, token_id@, now, k as nat));
            let first = choose|i: nat| is_free(live, token_id@, now, i);
            if first < k {
                assert(live.contains_key(paper_name(token_id@, now, first)));
            }
            if k < first {
                assert(live.contains_key(paper_name(token_id@, now, k as nat)));
            }
        }
        name
    }

    /// Asks for an order. On paper it is posted at once under a made-up name that no live order
    /// has, so that none is lost; otherwise the result is what to send to the exchange, or why
    /// nothing can be sent. `amounts` says what price and size are as decimal numbers: an order
    /// that is sent is good till cancelled, with both rounded to two decimal places.
    pub fn post_order(
        &mut self,
        token_id: &str,
        condition_id: &str,
        side: &str,
        price: Double,
        size: Double,
        amounts: OrderAmounts,
        strategy: &str,
        market_db_id: i64,
        paper_mode: bool,
        now: Double,
    ) -> (r: PostOutcome)
        requires
            old(self).wf(),
            amounts.wf(),
        ensures
            final(self).wf(),
            paper_mode ==> {
                let order = LiveOrderView {
                    order_id: free_name(old(self).contents(), token_id@, now),
                    token_id: token_id@,
                    condition_id: condition_id@,
                    side: side@,
                    price,
                    size,
                    strategy: strategy@,
                    posted_at: now,
                    market_db_id,
                };
                &&& r matches PostOutcome::Posted { order_id, effects }
                &&& order_id@ == order.order_id
                &&& effect_views(effects@) == posted_effects(order)
                &&& final(self).contents() == old(self).contents().insert(order.order_id, order)
                &&& !old(self).contents().contains_key(order.order_id)
                &&& exists|k: nat| #[trigger]
                    is_free(old(self).contents(), token_id@, now, k) && order.order_id
                        == paper_name(token_id@, now, k)
                &&& final(self).contents().dom().finite()
                &&& final(self).contents().dom().len() == old(self).contents().dom().len() + 1
            },
            !paper_mode ==> final(self).contents() == old(self).contents() && (match ticket_of(
                number_of(token_id@),
                side@,
                amount_view(amounts.price),
                amount_view(amounts.size),
            ) {
                Ok(ticket) => r matches PostOutcome::Send(t) && t@ == ticket,
                Err(message) => r matches PostOutcome::Rejected(m) && m@ == message,
            }),
    {
        if paper_mode {
            let fake_id: String = self.free_paper_name(token_id, now);
            let effects: Vec<Effect> = self.order_accepted(
                fake_id.as_str(),
                token_id,
                condition_id,
                side,
                price,
                size,
                strategy,
                market_db_id,
                now,
            );
            return PostOutcome::Posted { order_id: fake_id, effects };
        }
        match ticket_from(parse_number(token_id), side, amounts) {
            Ok(ticket) => PostOutcome::Send(ticket),
            Err(message) => PostOutcome::Rejected(message),
        }
    }

    /// Takes note that an order was accepted under the given name.
    pub fn order_accepted(
        &mut self,
        order_id: &str,
        token_id: &str,
        condition_id: &str,
        side: &str,
        price: Double,
        size: Double,
        strategy: &str,
        market_db_id: i64,
        now: Double,
    ) -> (r: Vec<Effect>)
        requires
            old(self).wf(),
        ensures
            final(self).wf(),
            ({
                let order = LiveOrderView {
                    order_id: order_id@,
                    token_id: token_id@,
                    condition_id: condition_id@,
                    side: side@,
                    price,
                    size,
                    strategy: strategy@,
                    posted_at: now,
                    market_db_id,
                };
                &&& effect_views(r@) == posted_effects(order)
                &&& final(self).contents() == old(self).contents().insert(order_id@, order)
            }),
    {
        let order: LiveOrder = LiveOrder {
            order_id: order_id.to_string(),
            token_id: token_id.to_string(),
            condition_id: condition_id.to_string(),
            side: side.to_string(),
            price,
            size,
            strategy: strategy.to_string(),
            posted_at: now,
            market_db_id,
        };
        let mut effects: Vec<Effect> = Vec::new();
        effects.push(Effect::RecordOrder(order.clone()));
        effects.push(
            Effect::Publish(
                BotEvent::OrderPosted {
                    order_id: order_id.to_string(),
                    token_id: token_id.to_string(),
                    side: side.to_string(),
                    price,
                    size,
                    strategy: strategy.to_string(),
                },
            ),
        );
        assert(effect_views(effects@) =~= posted_effects(order@));
        store::insert_order(&mut self.live_orders, order_id.to_string(), order);
        proof {
            assert forall|k: Seq<char>| #[trigger]
                self.contents().contains_key(k) implies self.contents()[k].order_id
                == k by {
                if k != order_id@ {
                    assert(old(self).contents().contains_key(k));
                }
            }
        }
        effects
    }

    /// Cancels an order.
    pub fn cancel_order(&mut self, order_id: &str, paper_mode: bool) -> (r: Vec<Effect>)
        ensures
            final(self).contents() == old(self).contents().remove(order_id@),
            effect_views(r@) == cancel_effects(order_id@, paper_mode),
            old(self).wf() ==> final(self).wf(),
    {
        store::remove_order(&mut self.live_orders, order_id);
        let mut effects: Vec<Effect> = Vec::new();
        effects.push(
            Effect::RecordStatus {
                order_id: order_id.to_string(),
                status: "cancelled".to_string(),
                fill_price: None,
                fill_size: None,
            },
        );
        let reason: &str = if paper_mode { "paper_cancel" } else { "cancel_replace" };
        effects.push(
            Effect::Publish(
                BotEvent::OrderCancelled {
                    order_id: order_id.to_string(),
                    reason: reason.to_string(),
                },
            ),
        );
        if !paper_mode {
            effects.push(Effect::CancelOnExchange { order_id: order_id.to_string() });
        }
        assert(effect_views(effects@) =~= cancel_effects(order_id@, paper_mode));
        proof {
            if old(self).wf() {
                assert forall|k: Seq<char>| #[trigger]
                    self.contents().contains_key(k) implies self.contents()[k].order_id
                    == k by {
                    assert(old(self).contents().contains_key(k));
                }
            }
        }
        effects
    }

    fn cancel_each(&mut self, ids: &Vec<String>, paper_mode: bool) -> (r: Vec<Effect>)
        ensures
            effect_views(r@) == all_cancel_effects(text::texts(ids@), paper_mode),
            forall|k: Seq<char>|
                #[trigger] final(self).contents().contains_key(k) <==> old(
                    self,
                ).contents().contains_key(k)
                    && !text::texts(ids@).contains(k),
            forall|k: Seq<char>| #[trigger]
                final(self).contents().contains_key(k) ==> final(self).contents()[k] == old(
                    self,
                ).contents()[k],
            old(self).wf() ==> final(self).wf(),
    {
        let mut out: Vec<Effect> = Vec::new();
        let ghost all: Seq<Seq<char>> = text::texts(ids@);
        let mut i: usize = 0;
        assert(all.subrange(0, 0) =~= Seq::<Seq<char>>::empty());
        assert(effect_views(out@) =~= Seq::<EffectView>::empty());
        while i < ids.len()
            invariant
                i <= ids@.len(),
                all == text::texts(ids@),
                effect_views(out@) == all_cancel_effects(all.subrange(0, i as int), paper_mode),
                forall|k: Seq<char>|
                    #[trigger] self.contents().contains_key(k) <==> old(
                        self,
                    ).contents().contains_key(k)
                        && !all.subrange(0, i as int).contains(k),
                forall|k: Seq<char>| #[trigger]
                    self.contents().contains_key(k) ==> self.contents()[k] == old(
                        self,
                    ).contents()[k],
                old(self).wf() ==> self.wf(),
            decreases ids@.len() - i,
        {
            let ghost before: Seq<Effect> = out@;
            let ghost held: Map<Seq<char>, LiveOrderView> = self.contents();
            let mut more: Vec<Effect> = self.cancel_order(ids[i].as_str(), paper_mode);
            let ghost added: Seq<Effect> = more@;
            out.append(&mut more);
            proof {
                let done = all.subrange(0, i as int);
                let next = all.subrange(0, i + 1);
                assert(next.drop_last() =~= done);
                assert(all[i as int] == ids@[i as int]@);
                assert(out@ =~= before + added);
                assert(effect_views(out@) =~= effect_views(before) + effect_views(added));
                assert forall|k: Seq<char>| next.contains(k) <==> done.contains(k) || k
                    == all[i as int] by {
                    if done.contains(k) {
                        let j = choose|j: int| 0 <= j < done.len() && done[j] == k;
                        assert(next[j] == k);
                    }
                    assert(next[i as int] == all[i as int]);
                    if next.contains(k) && k != all[i as int] {
                        let j = choose|j: int| 0 <= j < next.len() && next[j] == k;
                        assert(done[j] == k);
                    }
                }
            }
            i = i + 1;
        }
        assert(all.subrange(0, i as int) =~= all);
        out
    }

    /// Cancels all orders of a market, in the order in which the map is walked.
    pub fn cancel_market_orders(&mut self, condition_id: &str, paper_mode: bool) -> (r: (
        usize,
        Vec<Effect>,
    ))
        ensures
            final(self).contents() == other_markets(old(self).contents(), condition_id@),
            ids_in_market(old(self).contents(), condition_id@).finite(),
            r.0 == ids_in_market(old(self).contents(), condition_id@).len(),
            exists|e: Seq<(Seq<char>, LiveOrderView)>| #[trigger]
                store::lists(e, old(self).contents()) && effect_views(r.1@) == all_cancel_effects(
                    market_ids(e, condition_id@),
                    paper_mode,
                ),
            old(self).wf() ==> final(self).wf(),
    {
        let listed: Vec<(String, LiveOrder)> = store::list_orders(&self.live_orders);
        let ghost e: Seq<(Seq<char>, LiveOrderView)> = store::order_views(listed@);
        assert(store::lists(e, self.contents()));
        let mut ids: Vec<String> = Vec::new();
        let mut i: usize = 0;
        assert(e.subrange(0, 0) =~= Seq::<(Seq<char>, LiveOrderView)>::empty());
        assert(text::texts(ids@) =~= Seq::<Seq<char>>::empty());
        while i < listed.len()
            invariant
                i <= listed@.len(),
                e == store::order_views(listed@),
                text::texts(ids@) == market_ids(e.subrange(0, i as int), condition_id@),
            decreases listed@.len() - i,
        {
            proof {
                assert(e.subrange(0, i + 1).drop_last() =~= e.subrange(0, i as int));
                assert(e[i as int] == (listed@[i as int].0@, listed@[i as int].1@));
            }
            if text::same(listed[i].1.condition_id.as_str(), condition_id) {
                let ghost before: Seq<String> = ids@;
                ids.push(listed[i].0.clone());
                assert(text::texts(ids@) =~= text::texts(before).push(e[i as int].0));
            }
            i = i + 1;
        }
        assert(e.subrange(0, i as int) =~= e);
        let effects: Vec<Effect> = self.cancel_each(&ids, paper_mode);
        proof {
            lemma_market_ids(e, condition_id@);
            lemma_market_ids_count(e, old(self).contents(), condition_id@);
            let was = old(self).contents();
            let now = self.contents();
            assert forall|k: Seq<char>| now.contains_key(k) <==> other_markets(
                was,
                condition_id@,
            ).contains_key(k) by {
                assert(now.contains_key(k) <==> was.contains_key(k) && !text::texts(
                    ids@,
                ).contains(k));
                assert(other_markets(was, condition_id@).contains_key(k) <==> was.contains_key(k)
                    && was[k].condition_id != condition_id@);
                if was.contains_key(k) {
                    let j = choose|j: int| 0 <= j < e.len() && (#[trigger] e[j]).0 == k;
                    assert(was[k] == e[j].1);
                    if was[k].condition_id == condition_id@ {
                        assert(market_ids(e, condition_id@).contains(k));
                    } else if market_ids(e, condition_id@).contains(k) {
                        let m = choose|m: int|
                            0 <= m < e.len() && (#[trigger] e[m]).0 == k && e[m].1.condition_id
                                == condition_id@;
                        assert(was[e[m].0] == e[m].1);
                    }
                }
            }
            assert(now =~= other_markets(was, condition_id@));
        }
        (ids.len(), effects)
    }

    /// The names of all live orders, in the order in which the map is walked.
    pub fn live_order_ids(&self) -> (r: Vec<String>)
        ensures
            exists|e: Seq<(Seq<char>, LiveOrderView)>| #[trigger]
                store::lists(e, self.contents()) && text::texts(r@) == keys(e),
    {
        let listed: Vec<(String, LiveOrder)> = store::list_orders(&self.live_orders);
        let ghost e: Seq<(Seq<char>, LiveOrderView)> = store::order_views(listed@);
        assert(store::lists(e, self.contents()));
        let mut ids: Vec<String> = Vec::new();
        let mut i: usize = 0;
        while i < listed.len()
            invariant
                i <= listed@.len(),
                e == store::order_views(listed@),
                text::texts(ids@) =~= keys(e).subrange(0, i as int),
            decreases listed@.len() - i,
        {
            let ghost before: Seq<String> = ids@;
            ids.push(listed[i].0.clone());
            assert(text::texts(ids@) =~= text::texts(before).push(keys(e)[i as int]));
            i = i + 1;
        }
        assert(text::texts(ids@) =~= keys(e));
        ids
    }

    /// Forgets all orders after the exchange was asked to cancel them all; `all_ids` names
    /// those that were live then. Where the exchange refused (`batch_cancelled` is false), each
    /// is cancelled on its own.
    pub fn cancel_all(&mut self, all_ids: &Vec<String>, batch_cancelled: bool) -> (r: Vec<Effect>)
        ensures
            all_ids@.len() == 0 ==> *final(self) == *old(self) && r@.len() == 0,
            all_ids@.len() > 0 ==> final(self).contents() == Map::<
                Seq<char>,
                LiveOrderView,
            >::empty() && effect_views(r@) == (if batch_cancelled {
                Seq::empty()
            } else {
                all_cancel_effects(text::texts(all_ids@), false)
            }) + status_effects(text::texts(all_ids@), "cancelled"@),
            old(self).wf() ==> final(self).wf(),
    {
        let mut effects: Vec<Effect> = Vec::new();
        if all_ids.len() == 0 {
            return effects;
        }
        if !batch_cancelled {
            effects = self.cancel_each(all_ids, false);
        }
        store::clear_orders(&mut self.live_orders);
        assert(self.contents() =~= Map::<Seq<char>, LiveOrderView>::empty());
        let ghost first: Seq<EffectView> = effect_views(effects@);
        let mut more: Vec<Effect> = Self::statuses(all_ids, "cancelled");
        let ghost before: Seq<Effect> = effects@;
        let ghost added: Seq<Effect> = more@;
        effects.append(&mut more);
        proof {
            assert(effects@ =~= before + added);
            assert(effect_views(effects@) =~= effect_views(before) + effect_views(added));
            if batch_cancelled {
                assert(first =~= Seq::<EffectView>::empty());
            }
        }
        effects
    }

    fn statuses(ids: &Vec<String>, status: &str) -> (r: Vec<Effect>)
        ensures
            effect_views(r@) == status_effects(text::texts(ids@), status@),
    {
        let mut out: Vec<Effect> = Vec::new();
        let ghost wanted: Seq<EffectView> = status_effects(text::texts(ids@), status@);
        let mut i: usize = 0;
        while i < ids.len()
            invariant
                i <= ids@.len(),
                wanted == status_effects(text::texts(ids@), status@),
                effect_views(out@) =~= wanted.subrange(0, i as int),
            decreases ids@.len() - i,
        {
            let ghost before: Seq<Effect> = out@;
            out.push(
                Effect::RecordStatus {
                    order_id: ids[i].clone(),
                    status: status.to_string(),
                    fill_price: None,
                    fill_size: None,
                },
            );
            assert(effect_views(out@) =~= effect_views(before).push(wanted[i as int]));
            i = i + 1;
        }
        assert(effect_views(out@) =~= wanted);
        out
    }

    /// The live orders of a market, in the order in which the map is walked.
    pub fn get_market_orders(&self, condition_id: &str) -> (r: Vec<LiveOrder>)
        ensures
            exists|e: Seq<(Seq<char>, LiveOrderView)>| #[trigger]
                store::lists(e, self.contents()) && views(r@) == market_orders(
                    e,
                    condition_id@,
                ),
    {
        let listed: Vec<(String, LiveOrder)> = store::list_orders(&self.live_orders);
        let ghost e: Seq<(Seq<char>, LiveOrderView)> = store::order_views(listed@);
        assert(store::lists(e, self.contents()));
        let mut out: Vec<LiveOrder> = Vec::new();
        let mut i: usize = 0;
        assert(e.subrange(0, 0) =~= Seq::<(Seq<char>, LiveOrderView)>::empty());
        assert(views(out@) =~= Seq::<LiveOrderView>::empty());
        while i < listed.len()
            invariant
                i <= listed@.len(),
                e == store::order_views(listed@),
                views(out@) == market_orders(e.subrange(0, i as int), condition_id@),
            decreases listed@.len() - i,
        {
            proof {
                assert(e.subrange(0, i + 1).drop_last() =~= e.subrange(0, i as int));
                assert(e[i as int] == (listed@[i as int].0@, listed@[i as int].1@));
            }
            if text::same(listed[i].1.condition_id.as_str(), condition_id) {
                let ghost before: Seq<LiveOrder> = out@;
                out.push(listed[i].1.clone());
                assert(views(out@) =~= views(before).push(e[i as int].1));
            }
            i = i + 1;
        }
        assert(e.subrange(0, i as int) =~= e);
        out
    }

    /// All live orders, in the order in which the map is walked.
    pub fn all_orders(&self) -> (r: Vec<LiveOrder>)
        ensures
            exists|e: Seq<(Seq<char>, LiveOrderView)>| #[trigger]
                store::lists(e, self.contents()) && views(r@) == values(e),
    {
        let listed: Vec<(String, LiveOrder)> = store::list_orders(&self.live_orders);
        let ghost e: Seq<(Seq<char>, LiveOrderView)> = store::order_views(listed@);
        assert(store::lists(e, self.contents()));
        let mut out: Vec<LiveOrder> = Vec::new();
        let mut i: usize = 0;
        while i < listed.len()
            invariant
                i <= listed@.len(),
                e == store::order_views(listed@),
                views(out@) =~= values(e).subrange(0, i as int),
            decreases listed@.len() - i,
        {
            let ghost before: Seq<LiveOrder> = out@;
            out.push(listed[i].1.clone());
            assert(views(out@) =~= views(before).push(values(e)[i as int]));
            i = i + 1;
        }
        assert(views(out@) =~= values(e));
        out
    }

    /// Number of live orders.
    pub fn live_order_count(&self) -> (r: usize)
        ensures
            r == self.contents().dom().len(),
    {
        store::count_orders(&self.live_orders)
    }

    /// Takes in a fill.
    pub fn on_fill(
        &mut self,
        order_id: &str,
        fill_price: Double,
        fill_size: Double,
        fully_filled: bool,
    ) -> (r: Vec<Effect>)
        ensures
            final(self).contents() == if fully_filled {
                old(self).contents().remove(order_id@)
            } else {
                old(self).contents()
            },
            effect_views(r@) == seq![
                EffectView::Publish(
                    BotEventView::OrderFilled {
                        order_id: order_id@,
                        fill_price,
                        fill_size,
                        fully_filled,
                    },
                ),
                EffectView::RecordStatus {
                    order_id: order_id@,
                    status: if fully_filled {
                        "filled"@
                    } else {
                        "partially_filled"@
                    },
                    fill_price: Some(fill_price),
                    fill_size: Some(fill_size),
                },
            ],
            fully_filled ==> !final(self).contents().contains_key(order_id@),
            forall|k: Seq<char>|
                k != order_id@ || !fully_filled ==> #[trigger] final(self).contents().contains_key(
                    k,
                ) == old(self).contents().contains_key(k),
            old(self).wf() ==> final(self).wf(),
    {
        let mut effects: Vec<Effect> = Vec::new();
        effects.push(
            Effect::Publish(
                BotEvent::OrderFilled {
                    order_id: order_id.to_string(),
                    fill_price,
                    fill_size,
                    fully_filled,
                },
            ),
        );
        let status: &str = if fully_filled { "filled" } else { "partially_filled" };
        if fully_filled {
            store::remove_order(&mut self.live_orders, order_id);
        }
        effects.push(
            Effect::RecordStatus {
                order_id: order_id.to_string(),
                status: status.to_string(),
                fill_price: Some(fill_price),
                fill_size: Some(fill_size),
            },
        );
        assert(effect_views(effects@) =~= seq![effects@[0]@, effects@[1]@]);
        proof {
            if old(self).wf() {
                assert forall|k: Seq<char>| #[trigger]
                    self.contents().contains_key(k) implies self.contents()[k].order_id
                    == k by {
                    assert(old(self).contents().contains_key(k));
                }
            }
        }
        effects
    }

    /// Forgets the orders that the exchange does not know; `open_ids` names those that it
    /// knows. Orders on paper stay.
    pub fn reconcile(&mut self, open_ids: &Vec<String>) -> (r: Vec<Effect>)
        ensures
            final(self).contents() == fresh_orders(old(self).contents(), text::texts(open_ids@)),
            exists|e: Seq<(Seq<char>, LiveOrderView)>| #[trigger]
                store::lists(e, old(self).contents()) && effect_views(r@) == status_effects(
                    stale_ids(e, text::texts(open_ids@)),
                    "expired"@,
                ),
            old(self).wf() ==> final(self).wf(),
    {
        let listed: Vec<(String, LiveOrder)> = store::list_orders(&self.live_orders);
        let ghost e: Seq<(Seq<char>, LiveOrderView)> = store::order_views(listed@);
        assert(store::lists(e, self.contents()));
        let ghost open: Seq<Seq<char>> = text::texts(open_ids@);
        let mut ids: Vec<String> = Vec::new();
        let mut i: usize = 0;
        assert(e.subrange(0, 0) =~= Seq::<(Seq<char>, LiveOrderView)>::empty());
        assert(text::texts(ids@) =~= Seq::<Seq<char>>::empty());
        while i < listed.len()
            invariant
                i <= listed@.len(),
                e == store::order_views(listed@),
                open == text::texts(open_ids@),
                text::texts(ids@) == stale_ids(e.subrange(0, i as int), open),
            decreases listed@.len() - i,
        {
            proof {
                assert(e.subrange(0, i + 1).drop_last() =~= e.subrange(0, i as int));
                assert(e[i as int] == (listed@[i as int].0@, listed@[i as int].1@));
            }
            if !text::starts_with(listed[i].0.as_str(), "paper-") && !text::listed(
                open_ids,
                &listed[i].0,
            ) {
                let ghost before: Seq<String> = ids@;
                ids.push(listed[i].0.clone());
                assert(text::texts(ids@) =~= text::texts(before).push(e[i as int].0));
            }
            i = i + 1;
        }
        assert(e.subrange(0, i as int) =~= e);
        let _ = self.cancel_each(&ids, true);
        proof {
            lemma_stale_ids(e, open);
            let was = old(self).contents();
            let now = self.contents();
            assert forall|k: Seq<char>| now.contains_key(k) <==> fresh_orders(
                was,
                open,
            ).contains_key(k) by {
                assert(now.contains_key(k) <==> was.contains_key(k) && !text::texts(
                    ids@,
                ).contains(k));
                assert(fresh_orders(was, open).contains_key(k) <==> was.contains_key(k)
                    && !is_stale(k, open));
                if was.contains_key(k) {
                    let j = choose|j: int| 0 <= j < e.len() && (#[trigger] e[j]).0 == k;
                    assert(stale_ids(e, open).contains(k) <==> is_stale(k, open));
                }
            }
            assert(now =~= fresh_orders(was, open));
        }
        Self::statuses(&ids, "expired")
    }
}

/// An order posted on paper is live until it is cancelled, and cancelling it leaves what there
/// was before.
pub proof fn cancel_undoes_post(
    orders: Map<Seq<char>, LiveOrderView>,
    order_id: Seq<char>,
    order: LiveOrderView,
)
    requires
        !orders.contains_key(order_id),
    ensures
        orders.insert(order_id, order).contains_key(order_id),
        orders.insert(order_id, order).remove(order_id) == orders,
{
    assert(orders.insert(order_id, order).remove(order_id) =~= orders);
}

/// Names of orders on paper are told from others: reconciliation keeps them whatever the
/// exchange knows.
pub proof fn paper_orders_survive(
    orders: Map<Seq<char>, LiveOrderView>,
    token_id: Seq<char>,
    now: Double,
    k: nat,
    open_ids: Seq<Seq<char>>,
)
    requires
        orders.contains_key(paper_name(token_id, now, k)),
    ensures
        fresh_orders(orders, open_ids).contains_key(paper_name(token_id, now, k)),
        fresh_orders(orders, open_ids)[paper_name(token_id, now, k)] == orders[paper_name(
            token_id,
            now,
            k,
        )],
{
    let id = paper_name(token_id, now, k);
    reveal_strlit("paper-");
    assert(id.subrange(0, "paper-"@.len() as int) =~= "paper-"@);
    assert(text::occurs_at(id, "paper-"@, 0));
}

/// Reconciliation keeps every order that the exchange knows, and a second one with the same
/// answer changes nothing.
pub proof fn reconciled_once(
    orders: Map<Seq<char>, LiveOrderView>,
    open_ids: Seq<Seq<char>>,
    order_id: Seq<char>,
)
    ensures
        orders.contains_key(order_id) && open_ids.contains(order_id) ==> fresh_orders(
            orders,
            open_ids,
        ).contains_key(order_id),
        fresh_orders(fresh_orders(orders, open_ids), open_ids) == fresh_orders(orders, open_ids),
{
    let once = fresh_orders(orders, open_ids);
    assert(fresh_orders(once, open_ids) =~= once);
}

/// After the orders of a market are cancelled none of them is left, and those of other markets
/// are untouched.
pub proof fn cancelled_market_is_empty(
    orders: Map<Seq<char>, LiveOrderView>,
    condition_id: Seq<char>,
    order_id: Seq<char>,
)
    ensures
        other_markets(orders, condition_id).contains_key(order_id) ==> other_markets(
            orders,
            condition_id,
        )[order_id].condition_id != condition_id,
        orders.contains_key(order_id) && orders[order_id].condition_id != condition_id ==> (
        other_markets(orders, condition_id).contains_key(order_id) && other_markets(
            orders,
            condition_id,
        )[order_id] == orders[order_id]),
{
}

} // verus!

//! What becomes of orders, told by the orders that are live before and after and by what is done
//! outside.

use vstd::prelude::*;

use super::amount;
use super::amount::Amount;
use super::order_manager;
use super::order_manager::{EffectView, LiveOrderView, OrderType, SignatureType};
use crate::config::AuthConfig;
use crate::double::Double;
use crate::events::bus::BotEventView;
use crate::store;
use crate::text;

verus! {

/// Every order that is posted is stored as it is, and told with its name, token, side, price,
/// size and strategy; nothing else is done.
pub proof fn postings_are_stored_and_told(order: LiveOrderView)
    ensures
        ({
            let effects = order_manager::posted_effects(order);
            &&& effects.len() == 2
            &&& effects.contains(EffectView::RecordOrder(order))
            &&& effects[1] matches EffectView::Publish(BotEventView::OrderPosted {
                order_id,
                token_id,
                side,
                price,
                size,
                strategy,
            }) && order_id == order.order_id && token_id == order.token_id && side == order.side
                && price == order.price && size == order.size && strategy == order.strategy
        }),
{
    let effects = order_manager::posted_effects(order);
    assert(effects[0] == EffectView::RecordOrder(order));
}

/// What is done outside for one order that is cancelled.
pub open spec fn is_done(
    effects: Seq<EffectView>,
    at: int,
    order_id: Seq<char>,
    paper: bool,
) -> bool {
    &&& 0 <= at
    &&& at + 2 <= effects.len()
    &&& effects[at] == (EffectView::RecordStatus {
        order_id,
        status: "cancelled"@,
        fill_price: None,
        fill_size: None,
    })
    &&& effects[at + 1] matches EffectView::Publish(BotEventView::OrderCancelled {
        order_id: told,
        reason,
    }) && told == order_id && (paper ==> reason == "paper_cancel"@) && (!paper ==> reason
        == "cancel_replace"@)
    &&& !paper ==> at + 3 <= effects.len() && effects[at + 2] == (EffectView::CancelOnExchange {
        order_id,
    })
}

/// Each order of a row that is cancelled is stored as such and told, in its turn; the exchange is
/// asked to cancel it unless it is on paper; and nothing else is done.
pub proof fn cancellations_are_carried_out(ids: Seq<Seq<char>>, paper: bool, i: int)
    requires
        0 <= i < ids.len(),
    ensures
        paper ==> order_manager::all_cancel_effects(ids, paper).len() == 2 * ids.len(),
        paper ==> is_done(order_manager::all_cancel_effects(ids, paper), 2 * i, ids[i], paper),
        !paper ==> order_manager::all_cancel_effects(ids, paper).len() == 3 * ids.len(),
        !paper ==> is_done(order_manager::all_cancel_effects(ids, paper), 3 * i, ids[i], paper),
    decreases ids.len(),
{
    let front = ids.drop_last();
    let last = ids.len() - 1;
    assert(order_manager::all_cancel_effects(Seq::empty(), paper).len() == 0);
    if front.len() == 0 {
        assert(front =~= Seq::<Seq<char>>::empty());
    } else if i < last {
        cancellations_are_carried_out(front, paper, i);
        assert(front[i] == ids[i]);
    } else {
        cancellations_are_carried_out(front, paper, 0);
    }
}

/// A single cancellation is that of a row of one.
pub proof fn one_cancellation_is_carried_out(order_id: Seq<char>, paper: bool)
    ensures
        is_done(order_manager::cancel_effects(order_id, paper), 0, order_id, paper),
        order_manager::cancel_effects(order_id, paper).len() == if paper {
            2nat
        } else {
            3nat
        },
{
}

/// The same status is stored for every order of a row, without a fill, and nothing else is done.
pub proof fn statuses_are_stored(ids: Seq<Seq<char>>, status: Seq<char>, i: int)
    requires
        0 <= i < ids.len(),
    ensures
        order_manager::status_effects(ids, status).len() == ids.len(),
        order_manager::status_effects(ids, status)[i] == (EffectView::RecordStatus {
            order_id: ids[i],
            status,
            fill_price: None,
            fill_size: None,
        }),
{
}

/// The orders that leave with a market are those of the market: each is named once, and no other.
pub proof fn markets_are_cleared(
    e: Seq<(Seq<char>, LiveOrderView)>,
    orders: Map<Seq<char>, LiveOrderView>,
    condition_id: Seq<char>,
    k: Seq<char>,
)
    requires
        store::lists(e, orders),
    ensures
        order_manager::market_ids(e, condition_id).no_duplicates(),
        order_manager::market_ids(e, condition_id).contains(k) <==> orders.contains_key(k)
            && orders[k].condition_id == condition_id,
        order_manager::ids_in_market(orders, condition_id).contains(k) <==> orders.contains_key(k)
            && orders[k].condition_id == condition_id,
        order_manager::other_markets(orders, condition_id).contains_key(k)
            <==> orders.contains_key(k) && orders[k].condition_id != condition_id,
        order_manager::other_markets(orders, condition_id).contains_key(k)
            ==> order_manager::other_markets(orders, condition_id)[k] == orders[k],
{
    order_manager::lemma_market_ids(e, condition_id);
    order_manager::lemma_market_ids_differ(e, condition_id);
    if orders.contains_key(k) {
        let i = choose|i: int| 0 <= i < e.len() && (#[trigger] e[i]).0 == k;
        assert(orders[k] == e[i].1);
    }
}

/// The orders given of a market are those that are live in it.
pub proof fn market_orders_are_of_the_market(
    e: Seq<(Seq<char>, LiveOrderView)>,
    condition_id: Seq<char>,
    order: LiveOrderView,
)
    ensures
        order_manager::market_orders(e, condition_id).contains(order) <==> order.condition_id
            == condition_id && exists|i: int| 0 <= i < e.len() && (#[trigger] e[i]).1 == order,
        order_manager::market_orders(e, condition_id).len() == order_manager::market_ids(
            e,
            condition_id,
        ).len(),
    decreases e.len(),
{
    if e.len() > 0 {
        let front = e.drop_last();
        let last = e.len() - 1;
        market_orders_are_of_the_market(front, condition_id, order);
        let before = order_manager::market_orders(front, condition_id);
        let after = order_manager::market_orders(e, condition_id);
        if e.last().1.condition_id == condition_id {
            assert(after == before.push(e.last().1));
            if before.contains(order) {
                let m = choose|m: int| 0 <= m < before.len() && before[m] == order;
                assert(after[m] == order);
            }
            if e.last().1 == order {
                assert(after[before.len() as int] == order);
            }
            if after.contains(order) && e.last().1 != order {
                let m = choose|m: int| 0 <= m < after.len() && after[m] == order;
                assert(before[m] == order);
            }
        }
        if exists|i: int| 0 <= i < front.len() && (#[trigger] front[i]).1 == order {
            let i = choose|i: int| 0 <= i < front.len() && (#[trigger] front[i]).1 == order;
            assert(e[i].1 == order);
        }
        if exists|i: int| 0 <= i < e.len() && (#[trigger] e[i]).1 == order {
            let i = choose|i: int| 0 <= i < e.len() && (#[trigger] e[i]).1 == order;
            if i < last {
                assert(front[i].1 == order);
            }
        }
        if e[last].1 == order {
            assert(e.last().1 == order);
        }
    } else {
        assert(order_manager::market_orders(e, condition_id).len() == 0);
    }
}

/// Whether a name is that of an order on paper.
pub open spec fn is_on_paper(name: Seq<char>) -> bool {
    name.len() >= 6 && name.subrange(0, 6) == seq!['p', 'a', 'p', 'e', 'r', '-']
}

/// An order stays through reconciliation if it is on paper or the exchange has it, and only so;
/// those that leave are named as expired, and they alone.
pub proof fn unknown_orders_expire(
    e: Seq<(Seq<char>, LiveOrderView)>,
    orders: Map<Seq<char>, LiveOrderView>,
    open_ids: Seq<Seq<char>>,
    k: Seq<char>,
)
    requires
        store::lists(e, orders),
        orders.contains_key(k),
    ensures
        order_manager::fresh_orders(orders, open_ids).contains_key(k) <==> is_on_paper(k)
            || open_ids.contains(k),
        order_manager::fresh_orders(orders, open_ids).contains_key(k)
            ==> order_manager::fresh_orders(orders, open_ids)[k] == orders[k],
        order_manager::stale_ids(e, open_ids).contains(k) <==> !is_on_paper(k)
            && !open_ids.contains(k),
{
    order_manager::lemma_stale_ids(e, open_ids);
    let i = choose|i: int| 0 <= i < e.len() && (#[trigger] e[i]).0 == k;
    reveal_strlit("paper-");
    assert("paper-"@ =~= seq!['p', 'a', 'p', 'e', 'r', '-']);
}

/// Names and orders of a list stand at the places where they stand in it.
pub proof fn listed_orders_are_given(e: Seq<(Seq<char>, LiveOrderView)>, i: int)
    requires
        0 <= i < e.len(),
    ensures
        order_manager::keys(e).len() == e.len(),
        order_manager::keys(e)[i] == e[i].0,
        order_manager::values(e).len() == e.len(),
        order_manager::values(e)[i] == e[i].1,
{
}

/// The first name that is tried for an order on paper: the mark of paper, the first eight letters
/// of the token and the second; later names add a number.
pub proof fn paper_names_tell_token_and_time(token_id: Seq<char>, now: Double, k: nat)
    ensures
        ({
            let start: int = if token_id.len() < 8 {
                token_id.len() as int
            } else {
                8
            };
            let name = order_manager::paper_name(token_id, now, k);
            let second = text::spec_decimal(now.to_nat() as nat);
            &&& is_on_paper(name)
            &&& name.len() >= 7 + start + second.len()
            &&& name.subrange(6, 6 + start) == token_id.subrange(0, start)
            &&& name[6 + start] == '-'
            &&& name.subrange(7 + start, 7 + start + second.len()) == second
            &&& k == 0 ==> name.len() == 7 + start + second.len()
            &&& k > 0 ==> name[7 + start + second.len()] == '-' && name.subrange(
                8 + start + second.len(),
                name.len() as int,
            ) == text::spec_decimal(k)
        }),
{
    let start: int = if token_id.len() < 8 {
        token_id.len() as int
    } else {
        8
    };
    let name = order_manager::paper_name(token_id, now, k);
    let second = text::spec_decimal(now.to_nat() as nat);
    reveal_strlit("paper-");
    reveal_strlit("-");
    assert(name.subrange(0, 6) =~= seq!['p', 'a', 'p', 'e', 'r', '-']);
    assert(name.subrange(6, 6 + start) =~= token_id.subrange(0, start));
    assert(name.subrange(7 + start, 7 + start + second.len()) =~= second);
    if k > 0 {
        assert(name.subrange(8 + start + second.len(), name.len() as int) =~= text::spec_decimal(
            k,
        ));
    }
}

/// A request with a token that has a number, one of the two sides, and a price and size that are
/// decimals becomes an order for that token and side, good till cancelled, with the price as its
/// price and the size as its size, each to two places.
pub proof fn sound_requests_are_sent(token: Seq<u64>, side: Seq<char>, price: Amount, size: Amount)
    requires
        side == "BUY"@ || side == "SELL"@,
    ensures
        order_manager::ticket_of(Ok(token), side, Ok(price), Ok(size)) matches Ok(t) && {
            &&& t.token == token
            &&& t.buy <==> side == "BUY"@
            &&& t.price == amount::sent(price)
            &&& t.size == amount::sent(size)
            &&& t.order_type == OrderType::Gtc
        },
{
}

/// A request that is not sound is refused, with what is wrong first: the token, the side, the
/// price, the size.
pub proof fn unsound_requests_are_refused(
    number: Result<Seq<u64>, Seq<char>>,
    side: Seq<char>,
    price: Result<Amount, Seq<char>>,
    size: Result<Amount, Seq<char>>,
)
    requires
        number is Err || (side != "BUY"@ && side != "SELL"@) || price is Err || size is Err,
    ensures
        order_manager::ticket_of(number, side, price, size) matches Err(m) && {
            if number is Err {
                m == "invalid token ID: "@ + number->Err_0
            } else if side != "BUY"@ && side != "SELL"@ {
                m == "invalid side: "@ + side
            } else if price is Err {
                m == "invalid price: "@ + price->Err_0
            } else {
                m == "invalid size: "@ + size->Err_0
            }
        },
{
}

/// Sound credentials become a setup with the signer and the key. Orders are signed by a proxy for
/// the number one, by a safe for two and else by the account itself; the funder is named where
/// another account than the signer's is, and only there.
pub proof fn sound_credentials_log_in(
    auth: AuthConfig,
    signer: Seq<u8>,
    key: u128,
    funder: Seq<u8>,
)
    ensures
        order_manager::setup_of(auth, Ok(signer), Ok(()), Ok(key), Ok(funder)) matches Ok(s) && {
            &&& s.signer == signer
            &&& s.api_key == key
            &&& s.signature_type == SignatureType::Proxy <==> auth.signature_type == 1
            &&& s.signature_type == SignatureType::GnosisSafe <==> auth.signature_type == 2
            &&& (auth.signature_type == 1 || auth.signature_type == 2)
                && auth.funder_address@.len() > 0 ==> s.funder == Some(funder)
            &&& auth.signature_type != 1 && auth.signature_type != 2 ==> s.funder is None
            &&& auth.funder_address@.len() == 0 ==> s.funder is None
        },
{
}

/// Credentials that are not sound do not log in: what is wrong first is told, and a funder's
/// address is read only where there is one.
pub proof fn unsound_credentials_are_refused(
    auth: AuthConfig,
    signer: Result<Seq<u8>, Seq<char>>,
    client: Result<(), Seq<char>>,
    key: Result<u128, Seq<char>>,
    funder: Result<Seq<u8>, Seq<char>>,
)
    ensures
        ({
            let r = order_manager::setup_of(auth, signer, client, key, funder);
            let other = (auth.signature_type == 1 || auth.signature_type == 2)
                && auth.funder_address@.len() > 0;
            &&& r is Err <==> signer is Err || client is Err || key is Err || (other
                && funder is Err)
            &&& signer is Err ==> r->Err_0 == "invalid private key: "@ + signer->Err_0
            &&& signer is Ok && client is Err ==> r->Err_0 == "failed to create CLOB client: "@
                + client->Err_0
            &&& signer is Ok && client is Ok && key is Err ==> r->Err_0
                == "invalid CLOB API key UUID: "@ + key->Err_0
            &&& signer is Ok && client is Ok && key is Ok && other && funder is Err ==> r->Err_0
                == "invalid funder address: "@ + funder->Err_0
        }),
{
}

/// The name of an order on paper is the first that no live order has: there is no other.
pub proof fn paper_names_are_the_first_free(
    orders: Map<Seq<char>, LiveOrderView>,
    token_id: Seq<char>,
    now: Double,
    j: nat,
    k: nat,
)
    requires
        order_manager::is_free(orders, token_id, now, k),
    ensures
        !orders.contains_key(order_manager::paper_name(token_id, now, k)),
        j < k ==> orders.contains_key(order_manager::paper_name(token_id, now, j)),
        order_manager::is_free(orders, token_id, now, j) ==> j == k,
        order_manager::free_name(orders, token_id, now) == order_manager::paper_name(
            token_id,
            now,
            k,
        ),
{
    let n = choose|n: nat| order_manager::is_free(orders, token_id, now, n);
    assert(order_manager::is_free(orders, token_id, now, n));
    if n < k {
        assert(orders.contains_key(order_manager::paper_name(token_id, now, n)));
    }
    if k < n {
        assert(orders.contains_key(order_manager::paper_name(token_id, now, k)));
    }
    if j < k {
        assert(orders.contains_key(order_manager::paper_name(token_id, now, j)));
    }
    if order_manager::is_free(orders, token_id, now, j) && k < j {
        assert(orders.contains_key(order_manager::paper_name(token_id, now, k)));
    }
}

} // verus!

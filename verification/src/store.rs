//! Concurrent maps from text to the values that the bot keeps.
//!
//! A map is known by its contents: a finite `Map` from keys to what the values hold. The order in
//! which a map is walked is left open.

use dashmap::DashMap;
use vstd::prelude::*;

use crate::executor::order_manager::{LiveOrder, LiveOrderView};
use crate::feeds::types::{OrderBook, OrderBookView};
use crate::position::tracker::{TokenPosition, TokenPositionView};
use crate::strategy::engine::{MarketContext, MarketContextView};

verus! {

/// `dashmap::DashMap`.
#[verifier::external_type_specification]
#[verifier::external_body]
#[verifier::reject_recursive_types(K)]
#[verifier::reject_recursive_types(V)]
#[verifier::reject_recursive_types(S)]
pub struct ExDashMap<K, V, S>(DashMap<K, V, S>);

/// Whether `s` lists the entries of `m`, each once.
pub open spec fn lists<V>(s: Seq<(Seq<char>, V)>, m: Map<Seq<char>, V>) -> bool {
    &&& forall|i: int|
        0 <= i < s.len() ==> m.contains_key((#[trigger] s[i]).0) && m[s[i].0] == s[i].1
    &&& forall|i: int, j: int| 0 <= i < j < s.len() ==> (#[trigger] s[i]).0 != (#[trigger] s[j]).0
    &&& forall|k: Seq<char>| #[trigger]
        m.contains_key(k) ==> exists|i: int| 0 <= i < s.len() && (#[trigger] s[i]).0 == k
}

/// The entries of a finite map can be listed.
pub proof fn lemma_can_list<V>(m: Map<Seq<char>, V>) -> (s: Seq<(Seq<char>, V)>)
    requires
        m.dom().finite(),
    ensures
        lists(s, m),
    decreases m.dom().len(),
{
    if m.dom().len() == 0 {
        assert forall|k: Seq<char>| !m.contains_key(k) by {
            if m.dom().contains(k) {
                assert(m.dom() =~= Set::empty());
            }
        }
        Seq::empty()
    } else {
        let k = m.dom().choose();
        assert(m.dom().contains(k)) by {
            if m.dom() =~= Set::empty() {
                assert(m.dom().len() == 0);
            }
        }
        let rest = m.remove(k);
        assert(rest.dom() =~= m.dom().remove(k));
        let front = lemma_can_list(rest);
        let s = front.push((k, m[k]));
        assert forall|j: Seq<char>| #[trigger] m.contains_key(j) implies exists|i: int|
            0 <= i < s.len() && (#[trigger] s[i]).0 == j by {
            if j == k {
                assert(s[front.len() as int].0 == j);
            } else {
                assert(rest.contains_key(j));
                let i = choose|i: int| 0 <= i < front.len() && (#[trigger] front[i]).0 == j;
                assert(s[i].0 == j);
            }
        }
        assert forall|i: int| 0 <= i < s.len() implies m.contains_key((#[trigger] s[i]).0)
            && m[s[i].0] == s[i].1 by {
            if i < front.len() {
                assert(s[i] == front[i]);
                assert(rest.contains_key(front[i].0));
            }
        }
        assert forall|i: int, j: int| 0 <= i < j < s.len() implies (#[trigger] s[i]).0 != (
        #[trigger] s[j]).0 by {
            assert(s[i] == front[i]);
            assert(rest.contains_key(front[i].0));
            if j < front.len() {
                assert(s[j] == front[j]);
            }
        }
        s
    }
}

/// A map whose entries can be listed is finite, and has as many entries as the list.
pub proof fn lemma_listed<V>(s: Seq<(Seq<char>, V)>, m: Map<Seq<char>, V>)
    requires
        lists(s, m),
    ensures
        m.dom().finite(),
        m.dom().len() == s.len(),
{
    let keys = s.map_values(|e: (Seq<char>, V)| e.0);
    assert(keys.no_duplicates()) by {
        assert forall|i: int, j: int| 0 <= i < keys.len() && 0 <= j < keys.len() && i
            != j implies keys[i] != keys[j] by {
            if i < j {
                assert(s[i].0 != s[j].0);
            } else {
                assert(s[j].0 != s[i].0);
            }
        }
    }
    keys.unique_seq_to_set();
    vstd::seq_lib::seq_to_set_is_finite(keys);
    assert(keys.to_set() =~= m.dom()) by {
        assert forall|k: Seq<char>| keys.contains(k) <==> m.contains_key(k) by {
            if keys.contains(k) {
                let i = choose|i: int| 0 <= i < keys.len() && keys[i] == k;
                assert(m.contains_key(s[i].0));
            }
            if m.contains_key(k) {
                let i = choose|i: int| 0 <= i < s.len() && (#[trigger] s[i]).0 == k;
                assert(keys[i] == k);
            }
        }
    }
}

/// The order books that a map holds.
pub uninterp spec fn books_of(m: DashMap<String, OrderBook>) -> Map<Seq<char>, OrderBookView>;

/// `DashMap::new`: the map is empty.
#[verifier::external_body]
pub(crate) fn no_books() -> (r: DashMap<String, OrderBook>)
    ensures
        books_of(r).dom() == Set::<Seq<char>>::empty(),
{
    DashMap::new()
}

/// `DashMap::insert`: the key then holds the value, and every other key what it held before.
#[verifier::external_body]
pub(crate) fn insert_book(m: &mut DashMap<String, OrderBook>, key: String, value: OrderBook)
    ensures
        books_of(*final(m)) == books_of(*old(m)).insert(key@, value@),
{
    m.insert(key, value);
}

/// `DashMap::get`: a copy of what the key holds, if it holds anything.
#[verifier::external_body]
pub(crate) fn find_book(m: &DashMap<String, OrderBook>, key: &str) -> (r: Option<OrderBook>)
    ensures
        r is Some <==> books_of(*m).contains_key(key@),
        r matches Some(value) ==> value@ == books_of(*m)[key@],
{
    match m.get(key) {
        Some(entry) => Some(entry.value().clone()),
        None => None,
    }
}

/// `DashMap::remove`: the key then holds nothing, and every other key what it held before.
#[verifier::external_body]
pub(crate) fn remove_book(m: &mut DashMap<String, OrderBook>, key: &str)
    ensures
        books_of(*final(m)) == books_of(*old(m)).remove(key@),
{
    m.remove(key);
}

/// The positions that a map holds.
pub uninterp spec fn positions_of(m: DashMap<String, TokenPosition>) -> Map<
    Seq<char>,
    TokenPositionView,
>;

/// What a list of positions says, with their keys.
pub open spec fn position_views(s: Seq<(String, TokenPosition)>) -> Seq<
    (Seq<char>, TokenPositionView),
> {
    s.map_values(|e: (String, TokenPosition)| (e.0@, e.1@))
}

/// `DashMap::new`: the map is empty.
#[verifier::external_body]
pub(crate) fn no_positions() -> (r: DashMap<String, TokenPosition>)
    ensures
        positions_of(r).dom() == Set::<Seq<char>>::empty(),
{
    DashMap::new()
}

/// `DashMap::insert`: the key then holds the value, and every other key what it held before.
#[verifier::external_body]
pub(crate) fn insert_position(
    m: &mut DashMap<String, TokenPosition>,
    key: String,
    value: TokenPosition,
)
    ensures
        positions_of(*final(m)) == positions_of(*old(m)).insert(key@, value@),
{
    m.insert(key, value);
}

/// `DashMap::get`: a copy of what the key holds, if it holds anything.
#[verifier::external_body]
pub(crate) fn find_position(m: &DashMap<String, TokenPosition>, key: &str) -> (r: Option<
    TokenPosition,
>)
    ensures
        r is Some <==> positions_of(*m).contains_key(key@),
        r matches Some(value) ==> value@ == positions_of(*m)[key@],
{
    match m.get(key) {
        Some(entry) => Some(entry.value().clone()),
        None => None,
    }
}

/// `DashMap::iter`: copies of all entries, each once, in an order that is left open.
#[verifier::external_body]
pub(crate) fn list_positions(m: &DashMap<String, TokenPosition>) -> (r: Vec<
    (String, TokenPosition),
>)
    ensures
        lists(position_views(r@), positions_of(*m)),
{
    m.iter().map(|entry| (entry.key().clone(), entry.value().clone())).collect()
}

/// The orders that a map holds.
pub uninterp spec fn orders_of(m: DashMap<String, LiveOrder>) -> Map<Seq<char>, LiveOrderView>;

/// What a list of orders says, with their keys.
pub open spec fn order_views(s: Seq<(String, LiveOrder)>) -> Seq<(Seq<char>, LiveOrderView)> {
    s.map_values(|e: (String, LiveOrder)| (e.0@, e.1@))
}

/// `DashMap::new`: the map is empty.
#[verifier::external_body]
pub(crate) fn no_orders() -> (r: DashMap<String, LiveOrder>)
    ensures
        orders_of(r).dom() == Set::<Seq<char>>::empty(),
{
    DashMap::new()
}

/// `DashMap::insert`: the key then holds the value, and every other key what it held before.
#[verifier::external_body]
pub(crate) fn insert_order(m: &mut DashMap<String, LiveOrder>, key: String, value: LiveOrder)
    ensures
        orders_of(*final(m)) == orders_of(*old(m)).insert(key@, value@),
{
    m.insert(key, value);
}

/// `DashMap::remove`: the key then holds nothing, and every other key what it held before.
#[verifier::external_body]
pub(crate) fn remove_order(m: &mut DashMap<String, LiveOrder>, key: &str)
    ensures
        orders_of(*final(m)) == orders_of(*old(m)).remove(key@),
{
    m.remove(key);
}

/// `DashMap::clear`: the map is empty.
#[verifier::external_body]
pub(crate) fn clear_orders(m: &mut DashMap<String, LiveOrder>)
    ensures
        orders_of(*final(m)).dom() == Set::<Seq<char>>::empty(),
{
    m.clear();
}

/// `DashMap::len`: the number of entries.
#[verifier::external_body]
pub(crate) fn count_orders(m: &DashMap<String, LiveOrder>) -> (r: usize)
    ensures
        r == orders_of(*m).dom().len(),
{
    m.len()
}

/// `DashMap::iter`: copies of all entries, each once, in an order that is left open.
#[verifier::external_body]
pub(crate) fn list_orders(m: &DashMap<String, LiveOrder>) -> (r: Vec<(String, LiveOrder)>)
    ensures
        lists(order_views(r@), orders_of(*m)),
{
    m.iter().map(|entry| (entry.key().clone(), entry.value().clone())).collect()
}

/// The markets that a map holds.
pub uninterp spec fn markets_of(m: DashMap<String, MarketContext>) -> Map<
    Seq<char>,
    MarketContextView,
>;

/// What a list of markets says, with their keys.
pub open spec fn market_views(s: Seq<(String, MarketContext)>) -> Seq<
    (Seq<char>, MarketContextView),
> {
    s.map_values(|e: (String, MarketContext)| (e.0@, e.1@))
}

/// `DashMap::new`: the map is empty.
#[verifier::external_body]
pub(crate) fn no_markets() -> (r: DashMap<String, MarketContext>)
    ensures
        markets_of(r).dom() == Set::<Seq<char>>::empty(),
{
    DashMap::new()
}

/// `DashMap::insert`: the key then holds the value, and every other key what it held before.
#[verifier::external_body]
pub(crate) fn insert_market(
    m: &mut DashMap<String, MarketContext>,
    key: String,
    value: MarketContext,
)
    ensures
        markets_of(*final(m)) == markets_of(*old(m)).insert(key@, value@),
{
    m.insert(key, value);
}

/// `DashMap::remove`: the key then holds nothing, and every other key what it held before.
#[verifier::external_body]
pub(crate) fn remove_market(m: &mut DashMap<String, MarketContext>, key: &str)
    ensures
        markets_of(*final(m)) == markets_of(*old(m)).remove(key@),
{
    m.remove(key);
}

/// `DashMap::contains_key`: whether the key holds anything.
#[verifier::external_body]
pub(crate) fn has_market(m: &DashMap<String, MarketContext>, key: &str) -> (r: bool)
    ensures
        r == markets_of(*m).contains_key(key@),
{
    m.contains_key(key)
}

/// `DashMap::len`: the number of entries.
#[verifier::external_body]
pub(crate) fn count_markets(m: &DashMap<String, MarketContext>) -> (r: usize)
    ensures
        r == markets_of(*m).dom().len(),
{
    m.len()
}

/// `DashMap::iter`: copies of all entries, each once, in an order that is left open.
#[verifier::external_body]
pub(crate) fn list_markets(m: &DashMap<String, MarketContext>) -> (r: Vec<
    (String, MarketContext),
>)
    ensures
        lists(market_views(r@), markets_of(*m)),
{
    m.iter().map(|entry| (entry.key().clone(), entry.value().clone())).collect()
}

} // verus!

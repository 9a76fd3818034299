//! What is held of each token.

use dashmap::DashMap;
use vstd::prelude::*;

use crate::double::Double;
use crate::feeds::types;
use crate::store;
use crate::strategy::pricing::MarketInventory;
use crate::text;

verus! {

/// What is held of a token.
#[derive(Debug)]
pub struct TokenPosition {
    pub token_id: String,
    pub condition_id: String,
    pub side: String,
    pub shares: Double,
    pub avg_entry_price: Double,
}

/// What a position says.
pub struct TokenPositionView {
    pub token_id: Seq<char>,
    pub condition_id: Seq<char>,
    pub side: Seq<char>,
    pub shares: Double,
    pub avg_entry_price: Double,
}

impl View for TokenPosition {
    type V = TokenPositionView;

    open spec fn view(&self) -> TokenPositionView {
        TokenPositionView {
            token_id: self.token_id@,
            condition_id: self.condition_id@,
            side: self.side@,
            shares: self.shares,
            avg_entry_price: self.avg_entry_price,
        }
    }
}

impl Clone for TokenPosition {
    fn clone(&self) -> (r: TokenPosition)
        ensures
            r@ == self@,
    {
        TokenPosition {
            token_id: self.token_id.clone(),
            condition_id: self.condition_id.clone(),
            side: self.side.clone(),
            shares: self.shares,
            avg_entry_price: self.avg_entry_price,
        }
    }
}

/// What a list of positions says.
pub open spec fn views(s: Seq<TokenPosition>) -> Seq<TokenPositionView> {
    s.map_values(|p: TokenPosition| p@)
}

/// A position of which nothing is held yet.
pub open spec fn opened(
    token_id: Seq<char>,
    condition_id: Seq<char>,
    side: Seq<char>,
) -> TokenPositionView {
    TokenPositionView {
        token_id,
        condition_id,
        side,
        shares: Double::ratio(0, 1),
        avg_entry_price: Double::ratio(0, 1),
    }
}

/// A position after a fill: a purchase adds shares and averages the price over what was paid,
/// any other side takes shares away, but not below zero.
pub open spec fn filled(
    pos: TokenPositionView,
    side: Seq<char>,
    price: Double,
    size: Double,
) -> TokenPositionView {
    if side == "BUY"@ {
        let cost = pos.avg_entry_price.times(pos.shares).plus(price.times(size));
        let shares = pos.shares.plus(size);
        TokenPositionView {
            shares,
            avg_entry_price: if types::positive(shares) {
                cost.over(shares)
            } else {
                pos.avg_entry_price
            },
            ..pos
        }
    } else {
        TokenPositionView { shares: pos.shares.minus(size).max(Double::ratio(0, 1)), ..pos }
    }
}

/// The positions after a fill.
pub open spec fn after_fill(
    positions: Map<Seq<char>, TokenPositionView>,
    token_id: Seq<char>,
    condition_id: Seq<char>,
    side: Seq<char>,
    price: Double,
    size: Double,
) -> Map<Seq<char>, TokenPositionView> {
    positions.insert(
        token_id,
        filled(
            if positions.contains_key(token_id) {
                positions[token_id]
            } else {
                opened(token_id, condition_id, side)
            },
            side,
            price,
            size,
        ),
    )
}

/// The positions after a list of them was loaded.
pub open spec fn after_load(
    positions: Map<Seq<char>, TokenPositionView>,
    rows: Seq<TokenPositionView>,
) -> Map<Seq<char>, TokenPositionView>
    decreases rows.len(),
{
    if rows.len() == 0 {
        positions
    } else {
        after_load(positions, rows.drop_last()).insert(rows.last().token_id, rows.last())
    }
}

/// What is held of a market: positions first taken by a purchase count as YES, others as NO.
pub open spec fn inventory_over(
    s: Seq<TokenPositionView>,
    condition_id: Seq<char>,
) -> MarketInventory
    decreases s.len(),
{
    if s.len() == 0 {
        MarketInventory { yes_shares: Double::ratio(0, 1), no_shares: Double::ratio(0, 1) }
    } else {
        let front = inventory_over(s.drop_last(), condition_id);
        if s.last().condition_id != condition_id {
            front
        } else if s.last().side == "BUY"@ {
            MarketInventory { yes_shares: front.yes_shares.plus(s.last().shares), ..front }
        } else {
            MarketInventory { no_shares: front.no_shares.plus(s.last().shares), ..front }
        }
    }
}

/// Whether this is what is held of a market, with the shares added in some order in which the
/// positions can be walked.
pub open spec fn is_inventory(
    r: MarketInventory,
    positions: Map<Seq<char>, TokenPositionView>,
    condition_id: Seq<char>,
) -> bool {
    exists|s: Seq<TokenPositionView>| #[trigger]
        walks(s, positions) && r == inventory_over(s, condition_id)
}

/// What was paid for all that is held. A sum starts from the negative zero, which leaves
/// every term as it is.
pub open spec fn exposure_over(s: Seq<TokenPositionView>) -> Double
    decreases s.len(),
{
    if s.len() == 0 {
        Double::ratio(0, 1).negated()
    } else {
        exposure_over(s.drop_last()).plus(s.last().shares.times(s.last().avg_entry_price))
    }
}

/// The positions of a list of entries.
pub open spec fn entries(s: Seq<(Seq<char>, TokenPositionView)>) -> Seq<TokenPositionView> {
    s.map_values(|e: (Seq<char>, TokenPositionView)| e.1)
}

/// Whether `s` lists all positions, each once.
pub open spec fn walks(
    s: Seq<TokenPositionView>,
    positions: Map<Seq<char>, TokenPositionView>,
) -> bool {
    exists|e: Seq<(Seq<char>, TokenPositionView)>| #[trigger]
        store::lists(e, positions) && s == entries(e)
}

/// The tokens of which anything is held.
pub open spec fn held(positions: Map<Seq<char>, TokenPositionView>) -> Set<Seq<char>> {
    Set::new(|k: Seq<char>| positions.contains_key(k) && types::positive(positions[k].shares))
}

/// The shares that are held of a token.
pub open spec fn shares_held(
    positions: Map<Seq<char>, TokenPositionView>,
    token_id: Seq<char>,
) -> Double {
    if positions.contains_key(token_id) {
        positions[token_id].shares
    } else {
        Double::ratio(0, 1)
    }
}

/// A row of the inventory table.
#[derive(Debug)]
pub struct InventoryRow {
    pub token_id: String,
    pub condition_id: String,
    pub side: String,
    pub shares: Double,
    pub avg_entry_price: Double,
}

/// What is held of a market, by a list of positions.
pub fn inventory_in(positions: &Vec<TokenPosition>, condition_id: &str) -> (r: MarketInventory)
    ensures
        r == inventory_over(views(positions@), condition_id@),
{
    let mut inventory: MarketInventory = MarketInventory {
        yes_shares: Double::ratio(0, 1),
        no_shares: Double::ratio(0, 1),
    };
    let ghost all: Seq<TokenPositionView> = views(positions@);
    let mut i: usize = 0;
    assert(all.subrange(0, 0) =~= Seq::<TokenPositionView>::empty());
    while i < positions.len()
        invariant
            i <= positions@.len(),
            all == views(positions@),
            inventory == inventory_over(all.subrange(0, i as int), condition_id@),
        decreases positions@.len() - i,
    {
        proof {
            assert(all.subrange(0, i + 1).drop_last() =~= all.subrange(0, i as int));
            assert(all[i as int] == positions@[i as int]@);
        }
        let pos: &TokenPosition = &positions[i];
        if text::same(pos.condition_id.as_str(), condition_id) {
            if text::same(pos.side.as_str(), "BUY") {
                inventory.yes_shares = inventory.yes_shares.plus(pos.shares);
            } else {
                inventory.no_shares = inventory.no_shares.plus(pos.shares);
            }
        }
        i = i + 1;
    }
    assert(all.subrange(0, i as int) =~= all);
    inventory
}

/// What was paid for a list of positions.
pub fn exposure_in(positions: &Vec<TokenPosition>) -> (r: Double)
    ensures
        r == exposure_over(views(positions@)),
{
    let mut total: Double = Double::ratio(0, 1).negated();
    let ghost all: Seq<TokenPositionView> = views(positions@);
    let mut i: usize = 0;
    assert(all.subrange(0, 0) =~= Seq::<TokenPositionView>::empty());
    while i < positions.len()
        invariant
            i <= positions@.len(),
            all == views(positions@),
            total == exposure_over(all.subrange(0, i as int)),
        decreases positions@.len() - i,
    {
        proof {
            assert(all.subrange(0, i + 1).drop_last() =~= all.subrange(0, i as int));
            assert(all[i as int] == positions@[i as int]@);
        }
        total = total.plus(positions[i].shares.times(positions[i].avg_entry_price));
        i = i + 1;
    }
    assert(all.subrange(0, i as int) =~= all);
    total
}

/// Keeps what is held of each token.
pub struct PositionTracker {
    pub positions: DashMap<String, TokenPosition>,
}

impl PositionTracker {
    /// The positions by token.
    pub open spec fn contents(&self) -> Map<Seq<char>, TokenPositionView> {
        store::positions_of(self.positions)
    }

    pub fn new() -> (r: Self)
        ensures
            r.contents() == Map::<Seq<char>, TokenPositionView>::empty(),
    {
        let positions: DashMap<String, TokenPosition> = store::no_positions();
        assert(store::positions_of(positions) =~= Map::<Seq<char>, TokenPositionView>::empty());
        PositionTracker { positions }
    }

    /// Takes in the rows of the inventory table.
    pub fn load_from_db(&mut self, rows: Vec<TokenPosition>)
        ensures
            final(self).contents() == after_load(old(self).contents(), views(rows@)),
    {
        let ghost all: Seq<TokenPositionView> = views(rows@);
        let mut i: usize = 0;
        assert(all.subrange(0, 0) =~= Seq::<TokenPositionView>::empty());
        while i < rows.len()
            invariant
                i <= rows@.len(),
                all == views(rows@),
                self.contents() == after_load(old(self).contents(), all.subrange(0, i as int)),
            decreases rows@.len() - i,
        {
            proof {
                assert(all.subrange(0, i + 1).drop_last() =~= all.subrange(0, i as int));
                assert(all[i as int] == rows@[i as int]@);
            }
            store::insert_position(
                &mut self.positions,
                rows[i].token_id.clone(),
                rows[i].clone(),
            );
            i = i + 1;
        }
        assert(all.subrange(0, i as int) =~= all);
    }

    /// Takes in a fill. The result is the row to store.
    pub fn on_fill(
        &mut self,
        token_id: &str,
        condition_id: &str,
        side: &str,
        fill_price: Double,
        fill_size: Double,
    ) -> (r: InventoryRow)
        ensures
            final(self).contents() == after_fill(
                old(self).contents(),
                token_id@,
                condition_id@,
                side@,
                fill_price,
                fill_size,
            ),
            r.token_id@ == token_id@,
            r.condition_id@ == condition_id@,
            r.side@ == side@,
            r.shares == final(self).contents()[token_id@].shares,
            r.avg_entry_price == final(self).contents()[token_id@].avg_entry_price,
    {
        let zero: Double = Double::ratio(0, 1);
        let mut pos: TokenPosition = match store::find_position(&self.positions, token_id) {
            Some(p) => p,
            None => TokenPosition {
                token_id: token_id.to_string(),
                condition_id: condition_id.to_string(),
                side: side.to_string(),
                shares: zero,
                avg_entry_price: zero,
            },
        };
        if text::same(side, "BUY") {
            let total_cost: Double = pos.avg_entry_price.times(pos.shares).plus(
                fill_price.times(fill_size),
            );
            pos.shares = pos.shares.plus(fill_size);
            if zero.lt(pos.shares) {
                pos.avg_entry_price = total_cost.over(pos.shares);
            }
        } else {
            pos.shares = pos.shares.minus(fill_size).max(zero);
        }
        let row: InventoryRow = InventoryRow {
            token_id: token_id.to_string(),
            condition_id: condition_id.to_string(),
            side: side.to_string(),
            shares: pos.shares,
            avg_entry_price: pos.avg_entry_price,
        };
        store::insert_position(&mut self.positions, token_id.to_string(), pos);
        row
    }

    /// The shares that are held of a token.
    pub fn shares_of(&self, token_id: &str) -> (r: Double)
        ensures
            r == shares_held(self.contents(), token_id@),
    {
        match store::find_position(&self.positions, token_id) {
            Some(pos) => pos.shares,
            None => Double::ratio(0, 1),
        }
    }

    /// What is held of a market. The shares of several tokens are added in the order in which
    /// the map is walked.
    pub fn get_inventory(&self, condition_id: &str) -> (r: MarketInventory)
        ensures
            is_inventory(r, self.contents(), condition_id@),
    {
        let all: Vec<TokenPosition> = self.all_positions();
        inventory_in(&all, condition_id)
    }

    /// What was paid for all that is held. The amounts are added in the order in which the map
    /// is walked.
    pub fn get_total_exposure_usd(&self) -> (r: Double)
        ensures
            exists|s: Seq<TokenPositionView>| #[trigger]
                walks(s, self.contents()) && r == exposure_over(s),
    {
        let all: Vec<TokenPosition> = self.all_positions();
        exposure_in(&all)
    }

    /// All positions, in the order in which the map is walked.
    pub fn all_positions(&self) -> (r: Vec<TokenPosition>)
        ensures
            walks(views(r@), self.contents()),
    {
        let listed: Vec<(String, TokenPosition)> = store::list_positions(&self.positions);
        let ghost e: Seq<(Seq<char>, TokenPositionView)> = store::position_views(listed@);
        let mut out: Vec<TokenPosition> = Vec::new();
        let mut i: usize = 0;
        while i < listed.len()
            invariant
                i <= listed@.len(),
                e == store::position_views(listed@),
                views(out@) =~= entries(e).subrange(0, i as int),
            decreases listed@.len() - i,
        {
            let ghost before: Seq<TokenPosition> = out@;
            out.push(listed[i].1.clone());
            proof {
                assert(views(out@) =~= views(before).push(listed@[i as int].1@));
                assert(entries(e)[i as int] == listed@[i as int].1@);
            }
            i = i + 1;
        }
        assert(views(out@) =~= entries(e));
        out
    }

    /// Number of tokens of which anything is held.
    pub fn position_count(&self) -> (r: usize)
        ensures
            held(self.contents()).finite(),
            r == held(self.contents()).len(),
    {
        let listed: Vec<(String, TokenPosition)> = store::list_positions(&self.positions);
        let ghost e: Seq<(Seq<char>, TokenPositionView)> = store::position_views(listed@);
        let zero: Double = Double::ratio(0, 1);
        let mut count: usize = 0;
        let ghost mut found: Set<Seq<char>> = Set::empty();
        let mut i: usize = 0;
        while i < listed.len()
            invariant
                i <= listed@.len(),
                e == store::position_views(listed@),
                store::lists(e, self.contents()),
                zero == Double::ratio(0, 1),
                found.finite(),
                count == found.len(),
                count <= i,
                forall|k: Seq<char>|
                    found.contains(k) <==> held(self.contents()).contains(k) && exists|j: int|
                        0 <= j < i && (#[trigger] e[j]).0 == k,
            decreases listed@.len() - i,
        {
            let ghost key: Seq<char> = e[i as int].0;
            let ghost before: Set<Seq<char>> = found;
            assert(e[i as int] == (listed@[i as int].0@, listed@[i as int].1@));
            assert(!found.contains(key)) by {
                if found.contains(key) {
                    let j = choose|j: int| 0 <= j < i && (#[trigger] e[j]).0 == key;
                    assert(e[j].0 != e[i as int].0);
                }
            }
            if zero.lt(listed[i].1.shares) {
                count = count + 1;
                proof {
                    found = found.insert(key);
                }
            }
            proof {
                assert forall|k: Seq<char>| found.contains(k) <==> held(self.contents()).contains(k)
                    && exists|j: int| 0 <= j < i + 1 && (#[trigger] e[j]).0 == k by {
                    if before.contains(k) {
                        let j = choose|j: int| 0 <= j < i && (#[trigger] e[j]).0 == k;
                        assert(e[j].0 == k);
                    }
                    if k == key {
                        assert(e[i as int].0 == k);
                    }
                    if held(self.contents()).contains(k) && !before.contains(k) && exists|j: int|
                        0 <= j < i + 1 && (#[trigger] e[j]).0 == k {
                        let j = choose|j: int| 0 <= j < i + 1 && (#[trigger] e[j]).0 == k;
                        assert(j == i);
                    }
                }
            }
            i = i + 1;
        }
        proof {
            assert(found =~= held(self.contents()));
        }
        count
    }
}

/// What is held of a token after a sale is never less than zero, and the average price stays.
pub proof fn sale_keeps_price(
    pos: TokenPositionView,
    side: Seq<char>,
    price: Double,
    size: Double,
)
    requires
        side != "BUY"@,
    ensures
        Double::ratio(0, 1).le(filled(pos, side, price, size).shares),
        filled(pos, side, price, size).avg_entry_price == pos.avg_entry_price,
{
    crate::double::laws::lemma_ratio(0, 1);
}

/// A fill touches no other token, and keeps the market and the side of one that was held.
pub proof fn fill_is_local(
    positions: Map<Seq<char>, TokenPositionView>,
    token_id: Seq<char>,
    condition_id: Seq<char>,
    side: Seq<char>,
    price: Double,
    size: Double,
    other: Seq<char>,
)
    ensures
        ({
            let after = after_fill(positions, token_id, condition_id, side, price, size);
            &&& after.contains_key(token_id)
            &&& other != token_id ==> after.contains_key(other) == positions.contains_key(other)
                && after[other] == positions[other]
            &&& positions.contains_key(token_id) ==> after[token_id].condition_id
                == positions[token_id].condition_id && after[token_id].side
                == positions[token_id].side
        }),
{
}

/// The positions of a market, in their order.
pub open spec fn of_market(
    s: Seq<TokenPositionView>,
    condition_id: Seq<char>,
) -> Seq<TokenPositionView>
    decreases s.len(),
{
    if s.len() == 0 {
        s
    } else if s.last().condition_id == condition_id {
        of_market(s.drop_last(), condition_id).push(s.last())
    } else {
        of_market(s.drop_last(), condition_id)
    }
}

/// The positions that were first taken by a purchase, or the others, in their order.
pub open spec fn of_side(s: Seq<TokenPositionView>, bought: bool) -> Seq<TokenPositionView>
    decreases s.len(),
{
    if s.len() == 0 {
        s
    } else if (s.last().side == "BUY"@) == bought {
        of_side(s.drop_last(), bought).push(s.last())
    } else {
        of_side(s.drop_last(), bought)
    }
}

/// The shares of a row of positions, added up in their order.
pub open spec fn shares_over(s: Seq<TokenPositionView>) -> Double
    decreases s.len(),
{
    if s.len() == 0 {
        Double::ratio(0, 1)
    } else {
        shares_over(s.drop_last()).plus(s.last().shares)
    }
}

/// The two sides share out the positions of a market: each of them belongs to one side and is
/// counted there once, those of other markets to none, and what is held of a side is the sum of
/// its positions.
pub proof fn inventory_splits_market(s: Seq<TokenPositionView>, condition_id: Seq<char>)
    ensures
        ({
            let market = of_market(s, condition_id);
            &&& inventory_over(s, condition_id).yes_shares == shares_over(of_side(market, true))
            &&& inventory_over(s, condition_id).no_shares == shares_over(of_side(market, false))
            &&& of_side(market, true).to_multiset().add(of_side(market, false).to_multiset())
                == market.to_multiset()
            &&& of_side(market, true).len() + of_side(market, false).len() == market.len()
            &&& forall|p: TokenPositionView|
                market.to_multiset().count(p) == (if p.condition_id == condition_id {
                    s.to_multiset().count(p)
                } else {
                    0
                })
        }),
    decreases s.len(),
{
    broadcast use vstd::seq_lib::group_to_multiset_ensures;

    let market = of_market(s, condition_id);
    if s.len() > 0 {
        let front = s.drop_last();
        let rest = of_market(front, condition_id);
        inventory_splits_market(front, condition_id);
        assert(s =~= front.push(s.last()));
        assert(s.to_multiset() =~= front.to_multiset().insert(s.last()));
        if s.last().condition_id == condition_id {
            assert(market.drop_last() =~= rest);
            assert(market.to_multiset() =~= rest.to_multiset().insert(s.last()));
            let bought = s.last().side == "BUY"@;
            assert(of_side(market, bought) == of_side(rest, bought).push(s.last()));
            assert(of_side(market, !bought) == of_side(rest, !bought));
            assert(of_side(market, bought).drop_last() =~= of_side(rest, bought));
            assert(of_side(market, bought).to_multiset() =~= of_side(
                rest,
                bought,
            ).to_multiset().insert(s.last()));
        }
        assert(of_side(market, true).to_multiset().add(of_side(market, false).to_multiset())
            =~= market.to_multiset());
    } else {
        assert(of_side(market, true).to_multiset().add(of_side(market, false).to_multiset())
            =~= market.to_multiset());
    }
}

/// The shares of a row of positions, added up exactly, in units of two to the power -1074.
pub open spec fn exact_shares(s: Seq<TokenPositionView>) -> int
    decreases s.len(),
{
    if s.len() == 0 {
        0
    } else {
        exact_shares(s.drop_last()) + s.last().shares.val()
    }
}

/// Without rounding, the shares of both sides of a market add up to all shares of the market.
pub proof fn sides_add_up(market: Seq<TokenPositionView>)
    ensures
        exact_shares(of_side(market, true)) + exact_shares(of_side(market, false))
            == exact_shares(market),
    decreases market.len(),
{
    if market.len() > 0 {
        let front = market.drop_last();
        let bought = market.last().side == "BUY"@;
        sides_add_up(front);
        assert(of_side(market, bought) == of_side(front, bought).push(market.last()));
        assert(of_side(market, bought).drop_last() =~= of_side(front, bought));
        assert(of_side(market, !bought) == of_side(front, !bought));
    }
}

/// What is held of a market follows from its own positions and their order.
pub proof fn inventory_follows_the_market(
    s: Seq<TokenPositionView>,
    t: Seq<TokenPositionView>,
    condition_id: Seq<char>,
)
    requires
        of_market(s, condition_id) == of_market(t, condition_id),
    ensures
        inventory_over(s, condition_id) == inventory_over(t, condition_id),
{
    inventory_splits_market(s, condition_id);
    inventory_splits_market(t, condition_id);
}

/// Whether a token is held and belongs to a market.
pub open spec fn belongs(
    positions: Map<Seq<char>, TokenPositionView>,
    token_id: Seq<char>,
    condition_id: Seq<char>,
) -> bool {
    positions.contains_key(token_id) && positions[token_id].condition_id == condition_id
}

/// Whether two states hold the same positions of a market.
pub open spec fn agree_on(
    a: Map<Seq<char>, TokenPositionView>,
    b: Map<Seq<char>, TokenPositionView>,
    condition_id: Seq<char>,
) -> bool {
    forall|k: Seq<char>| #[trigger]
        belongs(a, k, condition_id) == belongs(b, k, condition_id) && (belongs(a, k, condition_id)
            ==> a[k] == b[k])
}

/// The entries of a market, or those of all others, in their order.
spec fn picked(
    e: Seq<(Seq<char>, TokenPositionView)>,
    condition_id: Seq<char>,
    own: bool,
) -> Seq<(Seq<char>, TokenPositionView)>
    decreases e.len(),
{
    if e.len() == 0 {
        e
    } else if (e.last().1.condition_id == condition_id) == own {
        picked(e.drop_last(), condition_id, own).push(e.last())
    } else {
        picked(e.drop_last(), condition_id, own)
    }
}

/// What is picked is there, is of the right kind, and is all there is of it.
proof fn lemma_picked(
    e: Seq<(Seq<char>, TokenPositionView)>,
    condition_id: Seq<char>,
    own: bool,
)
    requires
        forall|i: int, j: int|
            0 <= i < j < e.len() ==> (#[trigger] e[i]).0 != (#[trigger] e[j]).0,
    ensures
        ({
            let p = picked(e, condition_id, own);
            &&& forall|i: int|
                0 <= i < p.len() ==> e.contains(#[trigger] p[i]) && (p[i].1.condition_id
                    == condition_id) == own
            &&& forall|i: int|
                0 <= i < e.len() && ((#[trigger] e[i]).1.condition_id == condition_id) == own
                    ==> p.contains(e[i])
            &&& forall|i: int, j: int|
                0 <= i < j < p.len() ==> (#[trigger] p[i]).0 != (#[trigger] p[j]).0
            &&& of_market(entries(p), condition_id) == (if own {
                of_market(entries(e), condition_id)
            } else {
                Seq::empty()
            })
        }),
    decreases e.len(),
{
    let p = picked(e, condition_id, own);
    if e.len() == 0 {
        assert(entries(e) =~= Seq::<TokenPositionView>::empty());
    } else {
        let front = e.drop_last();
        let q = picked(front, condition_id, own);
        let last = e.last();
        assert forall|i: int, j: int| 0 <= i < j < front.len() implies (#[trigger] front[i]).0 != (
        #[trigger] front[j]).0 by {
            assert(front[i] == e[i] && front[j] == e[j]);
        }
        lemma_picked(front, condition_id, own);
        assert(entries(e).drop_last() =~= entries(front));
        assert(entries(e).last() == last.1);
        assert(e[e.len() - 1] == last);
        let taken = (last.1.condition_id == condition_id) == own;
        if taken {
            assert(p == q.push(last));
            assert(entries(p).drop_last() =~= entries(q));
            assert(entries(p).last() == last.1);
            assert(p[q.len() as int] == last);
        }
        assert forall|i: int| 0 <= i < q.len() implies e.contains(#[trigger] q[i]) && q[i].0
            != last.0 by {
            let k = choose|k: int| 0 <= k < front.len() && front[k] == q[i];
            assert(e[k] == q[i]);
            assert(e[k].0 != e[e.len() - 1].0);
        }
        assert forall|i: int| 0 <= i < p.len() implies e.contains(#[trigger] p[i]) && (
        p[i].1.condition_id == condition_id) == own by {
            if i < q.len() {
                assert(p[i] == q[i]);
            } else {
                assert(e.contains(e[e.len() - 1]));
            }
        }
        assert forall|i: int|
            0 <= i < e.len() && ((#[trigger] e[i]).1.condition_id == condition_id)
                == own implies p.contains(e[i]) by {
            if i < front.len() {
                assert(front[i] == e[i]);
                let k = choose|k: int| 0 <= k < q.len() && q[k] == front[i];
                assert(p[k] == e[i]);
            }
        }
        assert forall|i: int, j: int| 0 <= i < j < p.len() implies (#[trigger] p[i]).0 != (
        #[trigger] p[j]).0 by {
            assert(p[i] == q[i]);
            if j < q.len() {
                assert(p[j] == q[j]);
            }
        }
    }
}

/// The positions of a market in two rows, one after the other.
proof fn lemma_market_joined(
    s: Seq<TokenPositionView>,
    t: Seq<TokenPositionView>,
    condition_id: Seq<char>,
)
    ensures
        of_market(s + t, condition_id) == of_market(s, condition_id) + of_market(t, condition_id),
    decreases t.len(),
{
    if t.len() == 0 {
        assert(s + t =~= s);
        assert(of_market(s, condition_id) + t =~= of_market(s, condition_id));
    } else {
        lemma_market_joined(s, t.drop_last(), condition_id);
        assert((s + t).drop_last() =~= s + t.drop_last());
        assert((s + t).last() == t.last());
        assert(of_market(s + t, condition_id) =~= of_market(s, condition_id) + of_market(
            t,
            condition_id,
        ));
    }
}

/// What is held of a market depends on its own positions alone: where two states agree on them,
/// what can be said of one can be said of the other.
pub proof fn inventory_is_of_the_market(
    a: Map<Seq<char>, TokenPositionView>,
    b: Map<Seq<char>, TokenPositionView>,
    condition_id: Seq<char>,
    r: MarketInventory,
)
    requires
        agree_on(a, b, condition_id),
        b.dom().finite(),
        is_inventory(r, a, condition_id),
    ensures
        is_inventory(r, b, condition_id),
{
    let s = choose|s: Seq<TokenPositionView>| #[trigger]
        walks(s, a) && r == inventory_over(s, condition_id);
    let e = choose|e: Seq<(Seq<char>, TokenPositionView)>| #[trigger]
        store::lists(e, a) && s == entries(e);
    let f = store::lemma_can_list(b);
    let own = picked(e, condition_id, true);
    let rest = picked(f, condition_id, false);
    let g = own + rest;
    lemma_picked(e, condition_id, true);
    lemma_picked(f, condition_id, false);
    assert forall|i: int| 0 <= i < own.len() implies belongs(
        b,
        (#[trigger] own[i]).0,
        condition_id,
    ) && b[own[i].0] == own[i].1 by {
        let k = choose|k: int| 0 <= k < e.len() && e[k] == own[i];
        assert(a.contains_key(e[k].0));
        assert(belongs(a, own[i].0, condition_id));
    }
    assert forall|i: int| 0 <= i < rest.len() implies b.contains_key((#[trigger] rest[i]).0)
        && b[rest[i].0] == rest[i].1 && !belongs(b, rest[i].0, condition_id) by {
        let k = choose|k: int| 0 <= k < f.len() && f[k] == rest[i];
        assert(b.contains_key(f[k].0));
    }
    assert forall|i: int| 0 <= i < g.len() implies b.contains_key((#[trigger] g[i]).0)
        && b[g[i].0] == g[i].1 by {
        if i < own.len() {
            assert(g[i] == own[i]);
        } else {
            assert(g[i] == rest[i - own.len()]);
        }
    }
    assert forall|i: int, j: int| 0 <= i < j < g.len() implies (#[trigger] g[i]).0 != (
    #[trigger] g[j]).0 by {
        if j < own.len() {
            assert(g[i] == own[i] && g[j] == own[j]);
        } else if i < own.len() {
            assert(g[i] == own[i] && g[j] == rest[j - own.len()]);
        } else {
            assert(g[i] == rest[i - own.len()] && g[j] == rest[j - own.len()]);
        }
    }
    assert forall|k: Seq<char>| #[trigger] b.contains_key(k) implies exists|i: int|
        0 <= i < g.len() && (#[trigger] g[i]).0 == k by {
        if belongs(b, k, condition_id) {
            assert(belongs(a, k, condition_id));
            let i = choose|i: int| 0 <= i < e.len() && (#[trigger] e[i]).0 == k;
            assert(own.contains(e[i]));
            let j = choose|j: int| 0 <= j < own.len() && own[j] == e[i];
            assert(g[j].0 == k);
        } else {
            let i = choose|i: int| 0 <= i < f.len() && (#[trigger] f[i]).0 == k;
            assert(rest.contains(f[i]));
            let j = choose|j: int| 0 <= j < rest.len() && rest[j] == f[i];
            assert(g[own.len() + j].0 == k);
        }
    }
    assert(store::lists(g, b));
    let t = entries(g);
    assert(walks(t, b));
    assert(t =~= entries(own) + entries(rest));
    lemma_market_joined(entries(own), entries(rest), condition_id);
    assert(of_market(s, condition_id) + Seq::<TokenPositionView>::empty() =~= of_market(
        s,
        condition_id,
    ));
    inventory_follows_the_market(s, t, condition_id);
}

/// Fills of other markets leave what is held of a market as it is.
pub proof fn fills_elsewhere_keep_inventory(
    positions: Map<Seq<char>, TokenPositionView>,
    token_id: Seq<char>,
    filled_market: Seq<char>,
    side: Seq<char>,
    price: Double,
    size: Double,
    condition_id: Seq<char>,
    r: MarketInventory,
)
    requires
        positions.dom().finite(),
        !belongs(positions, token_id, condition_id),
        !positions.contains_key(token_id) ==> filled_market != condition_id,
    ensures
        is_inventory(
            r,
            after_fill(positions, token_id, filled_market, side, price, size),
            condition_id,
        ) <==> is_inventory(r, positions, condition_id),
{
    let after = after_fill(positions, token_id, filled_market, side, price, size);
    assert(after.dom() =~= positions.dom().insert(token_id));
    assert(agree_on(positions, after, condition_id));
    assert(agree_on(after, positions, condition_id));
    if is_inventory(r, positions, condition_id) {
        inventory_is_of_the_market(positions, after, condition_id, r);
    }
    if is_inventory(r, after, condition_id) {
        inventory_is_of_the_market(after, positions, condition_id, r);
    }
}

/// Of a market of which no position is known, nothing is held.
pub proof fn unknown_market_is_empty(
    positions: Map<Seq<char>, TokenPositionView>,
    condition_id: Seq<char>,
    r: MarketInventory,
)
    requires
        forall|k: Seq<char>| !#[trigger] belongs(positions, k, condition_id),
        is_inventory(r, positions, condition_id),
    ensures
        r.yes_shares == Double::ratio(0, 1),
        r.no_shares == Double::ratio(0, 1),
{
    let none = Map::<Seq<char>, TokenPositionView>::empty();
    assert(agree_on(positions, none, condition_id));
    inventory_is_of_the_market(positions, none, condition_id, r);
    let s = choose|s: Seq<TokenPositionView>| #[trigger]
        walks(s, none) && r == inventory_over(s, condition_id);
    let e = choose|e: Seq<(Seq<char>, TokenPositionView)>| #[trigger]
        store::lists(e, none) && s == entries(e);
    if e.len() > 0 {
        assert(none.contains_key(e[0].0));
    }
}

} // verus!

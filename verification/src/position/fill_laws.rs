//! What fills do to the positions, told by the positions and fills that go in and the positions
//! that come out.

use vstd::arithmetic::power2::*;
use vstd::prelude::*;

use super::tracker;
use super::tracker::TokenPositionView;
use crate::double::{error, laws, order, value, Double};

verus! {

/// One, in units of two to the power -1074.
pub open spec fn one() -> int {
    pow2(1074) as int
}

/// Whether a number is not below zero and not above two to the power 64.
pub open spec fn is_usual(x: Double) -> bool {
    x.is_finite() && 0 <= x.val() <= pow2(1138)
}

proof fn lemma_usual()
    ensures
        pow2(1138) * pow2(1138) <= pow2(1074) * pow2(2000),
        pow2(1138) * pow2(1138) == pow2(1202) * pow2(1074),
        pow2(1074) > 0,
        pow2(1074) <= pow2(1202),
        8 * pow2(1202) <= pow2(1205),
        pow2(1205) * pow2(1074) <= pow2(1074) * pow2(2000),
        pow2(1205) <= pow2(2000),
        2 * pow2(1138) <= pow2(2000),
{
    lemma2_to64();
    lemma_pow2_adds(1138, 1138);
    lemma_pow2_adds(1202, 1074);
    lemma_pow2_adds(1074, 2000);
    lemma_pow2_adds(1205, 1074);
    lemma_pow2_adds(3, 1202);
    lemma_pow2_adds(1, 1138);
    lemma_pow2_pos(1074);
    lemma_pow2_strictly_increases(2276, 3074);
    lemma_pow2_strictly_increases(2279, 3074);
    lemma_pow2_strictly_increases(1074, 1202);
    lemma_pow2_strictly_increases(1205, 2000);
    lemma_pow2_strictly_increases(1139, 2000);
}

/// The product of a price and a number of shares, but for rounding.
proof fn lemma_cost(a: Double, s: Double) -> (cost: int)
    requires
        is_usual(a),
        is_usual(s),
    ensures
        cost == a.val() * s.val(),
        0 <= cost <= pow2(1202) * one(),
        a.times(s).is_finite(),
        0x20_0000_0000_0000 * (a.times(s).val() * one() - cost) <= cost + 0x10_0000_0000_0000
            * one(),
        0x20_0000_0000_0000 * (cost - a.times(s).val() * one()) <= cost + 0x10_0000_0000_0000
            * one(),
{
    lemma_usual();
    let cost = a.val() * s.val();
    assert(a.units() * s.units() == cost && 0 <= cost <= pow2(1138) * pow2(1138))
        by (nonlinear_arith)
        requires
            cost == a.val() * s.val(),
            0 <= a.val() <= pow2(1138),
            0 <= s.val() <= pow2(1138),
            a.units() == a.val() || (a.val() == 0 && a.units() == 0),
            s.units() == s.val() || (s.val() == 0 && s.units() == 0),
    ;
    error::times_is_near(a, s);
    error::near_in_figures(a.times(s).val() * one(), cost, one(), cost);
    cost
}

/// A purchase costs what it costs: the average price times the shares is, but for rounding, what
/// it was before and the price times the size of the purchase. The shares are those before and
/// those bought.
pub proof fn purchases_add_their_cost(
    pos: TokenPositionView,
    side: Seq<char>,
    price: Double,
    size: Double,
)
    requires
        side == "BUY"@,
        is_usual(pos.shares),
        is_usual(pos.avg_entry_price),
        is_usual(price),
        is_usual(size),
        one() <= tracker::filled(pos, side, price, size).shares.val(),
    ensures
        ({
            let after = tracker::filled(pos, side, price, size);
            let cost = pos.avg_entry_price.val() * pos.shares.val() + price.val() * size.val();
            let shares = pos.shares.val() + size.val();
            let kept = after.avg_entry_price.val() * after.shares.val();
            let slack = cost + 0x80_0000_0000_0000 * (one() + after.shares.val());
            &&& after.shares.is_finite()
            &&& error::near(after.shares.val(), shares, 1)
            &&& after.avg_entry_price.is_finite()
            &&& 0x4_0000_0000_0000 * (kept - cost) <= slack
            &&& 0x4_0000_0000_0000 * (cost - kept) <= slack
            &&& after.token_id == pos.token_id
            &&& after.condition_id == pos.condition_id
            &&& after.side == pos.side
        }),
{
    lemma_usual();
    laws::lemma_ratio(0, 1);
    value::lemma_finite_parts(Double::ratio(0, 1));
    let u = one();
    let a = pos.avg_entry_price;
    let s = pos.shares;
    let x = lemma_cost(a, s);
    let y = lemma_cost(price, size);
    let p = a.times(s);
    let q = price.times(size);
    let pu = p.val() * u;
    let qu = q.val() * u;
    lemma_bounded(pu, x, u);
    lemma_bounded(qu, y, u);
    let w = pow2(1202) * u;
    assert(u <= w) by (nonlinear_arith)
        requires
            w == pow2(1202) * u,
            pow2(1202) >= 1,
            u > 0,
    ;
    assert(-3 * pow2(1202) <= p.val() <= 3 * pow2(1202)) by (nonlinear_arith)
        requires
            -2 * w - u <= pu <= 2 * w + u,
            u <= w,
            pu == p.val() * u,
            w == pow2(1202) * u,
            u > 0,
    ;
    assert(-3 * pow2(1202) <= q.val() <= 3 * pow2(1202)) by (nonlinear_arith)
        requires
            -2 * w - u <= qu <= 2 * w + u,
            u <= w,
            qu == q.val() * u,
            w == pow2(1202) * u,
            u > 0,
    ;
    let sum = p.val() + q.val();
    error::plus_is_near(p, q);
    let c = p.plus(q);
    let size_of_sum = if sum < 0 {
        -sum
    } else {
        sum
    };
    error::near_in_figures(c.val(), sum, 1, size_of_sum);
    error::plus_is_near(s, size);
    let shares = s.plus(size);
    let m = shares.val();
    value::lemma_order(Double::ratio(0, 1), shares);
    let cs = c.units() as int;
    assert(cs <= 8 * pow2(1202)) by {
        lemma_bounded(c.val(), size_of_sum, 1);
    }
    assert(c.units() * pow2(1074) <= shares.units() * pow2(2000)) by (nonlinear_arith)
        requires
            c.units() <= pow2(1205),
            shares.units() >= u,
            u == pow2(1074),
            pow2(1205) <= pow2(2000),
            u > 0,
    ;
    error::over_is_near(c, shares);
    let d = c.over(shares).val();
    let cu = c.val() * u;
    let cus = if cu < 0 {
        -cu
    } else {
        cu
    };
    error::near_in_figures(d * m, cu, m, cus);
    let su = sum * u;
    assert(su == pu + qu) by (nonlinear_arith)
        requires
            su == sum * u,
            sum == p.val() + q.val(),
            pu == p.val() * u,
            qu == q.val() * u,
    ;
    let sus = size_of_sum * u;
    assert(sus == su || sus == -su) by (nonlinear_arith)
        requires
            sus == size_of_sum * u,
            su == sum * u,
            size_of_sum == sum || size_of_sum == -sum,
    ;
    assert(sus >= 0) by (nonlinear_arith)
        requires
            sus == size_of_sum * u,
            size_of_sum >= 0,
            u > 0,
    ;
    assert(0x20_0000_0000_0000 * (cu - su) <= sus + 0x10_0000_0000_0000 * u && 0x20_0000_0000_0000
        * (su - cu) <= sus + 0x10_0000_0000_0000 * u) by (nonlinear_arith)
        requires
            0x20_0000_0000_0000 * (c.val() - sum) <= size_of_sum + 0x10_0000_0000_0000,
            0x20_0000_0000_0000 * (sum - c.val()) <= size_of_sum + 0x10_0000_0000_0000,
            cu == c.val() * u,
            su == sum * u,
            sus == size_of_sum * u,
            u > 0,
    ;
    lemma_account(x, y, pu, qu, su, sus, cu, cus, d * m, u, m);
}

/// What is near a number is not above twice its size.
proof fn lemma_bounded(a: int, size: int, u: int)
    requires
        size >= 0,
        u > 0,
        exists|b: int|
            (b == size || b == -size) && 0x20_0000_0000_0000 * (#[trigger] (a - b)) <= size
                + 0x10_0000_0000_0000 * u && 0x20_0000_0000_0000 * (b - a) <= size
                + 0x10_0000_0000_0000 * u,
    ensures
        -2 * size - u <= a <= 2 * size + u,
{
    let b = choose|b: int|
        (b == size || b == -size) && 0x20_0000_0000_0000 * (#[trigger] (a - b)) <= size
            + 0x10_0000_0000_0000 * u && 0x20_0000_0000_0000 * (b - a) <= size
            + 0x10_0000_0000_0000 * u;
}

/// Four roundings together.
proof fn lemma_account(
    x: int,
    y: int,
    pu: int,
    qu: int,
    su: int,
    sus: int,
    cu: int,
    cus: int,
    kept: int,
    u: int,
    m: int,
)
    requires
        x >= 0,
        y >= 0,
        u > 0,
        m > 0,
        0x20_0000_0000_0000 * (pu - x) <= x + 0x10_0000_0000_0000 * u,
        0x20_0000_0000_0000 * (x - pu) <= x + 0x10_0000_0000_0000 * u,
        0x20_0000_0000_0000 * (qu - y) <= y + 0x10_0000_0000_0000 * u,
        0x20_0000_0000_0000 * (y - qu) <= y + 0x10_0000_0000_0000 * u,
        su == pu + qu,
        sus == su || sus == -su,
        sus >= 0,
        0x20_0000_0000_0000 * (cu - su) <= sus + 0x10_0000_0000_0000 * u,
        0x20_0000_0000_0000 * (su - cu) <= sus + 0x10_0000_0000_0000 * u,
        cus == cu || cus == -cu,
        cus >= 0,
        0x20_0000_0000_0000 * (kept - cu) <= cus + 0x10_0000_0000_0000 * m,
        0x20_0000_0000_0000 * (cu - kept) <= cus + 0x10_0000_0000_0000 * m,
    ensures
        0x4_0000_0000_0000 * (kept - (x + y)) <= (x + y) + 0x80_0000_0000_0000 * (u + m),
        0x4_0000_0000_0000 * ((x + y) - kept) <= (x + y) + 0x80_0000_0000_0000 * (u + m),
{
    let t = x + y;
    assert(sus <= 2 * t + 2 * u);
    assert(cus <= 4 * t + 8 * u);
    let d = (kept - cu) + (cu - su) + (su - t);
    assert(0x20_0000_0000_0000 * d <= cus + sus + t + 0x10_0000_0000_0000 * (m + 3 * u));
    assert(0x20_0000_0000_0000 * (-d) <= cus + sus + t + 0x10_0000_0000_0000 * (m + 3 * u));
    assert(0x20_0000_0000_0000 * d <= 8 * t + 8 * (0x80_0000_0000_0000 * (u + m)));
    assert(0x20_0000_0000_0000 * (-d) <= 8 * t + 8 * (0x80_0000_0000_0000 * (u + m)));
}

/// After a purchase the average price lies between what it was and the price of the purchase,
/// whichever of the two is the lower, but for rounding.
pub proof fn averages_lie_between(
    pos: TokenPositionView,
    side: Seq<char>,
    price: Double,
    size: Double,
)
    requires
        side == "BUY"@,
        is_usual(pos.shares),
        is_usual(pos.avg_entry_price),
        is_usual(price),
        is_usual(size),
        one() <= tracker::filled(pos, side, price, size).shares.val(),
    ensures
        ({
            let after = tracker::filled(pos, side, price, size).avg_entry_price.val();
            let a = pos.avg_entry_price.val();
            let p = price.val();
            let high = if a < p {
                p
            } else {
                a
            };
            let low = if a < p {
                a
            } else {
                p
            };
            &&& 0x2_0000_0000_0000 * (after - high) <= high + 0x80_0000_0000_0000
            &&& 0x2_0000_0000_0000 * (low - after) <= low + 0x80_0000_0000_0000
        }),
{
    purchases_add_their_cost(pos, side, price, size);
    lemma_usual();
    let filled = tracker::filled(pos, side, price, size);
    let d = filled.avg_entry_price.val();
    let m = filled.shares.val();
    let a = pos.avg_entry_price.val();
    let p = price.val();
    let s = pos.shares.val();
    let q = size.val();
    let n = s + q;
    let u = one();
    let cost = a * s + p * q;
    let high = if a < p {
        p
    } else {
        a
    };
    let low = if a < p {
        a
    } else {
        p
    };
    lemma2_to64();
    lemma2_to64_rest();
    lemma_pow2_adds(60, 1014);
    lemma_pow2_pos(1014);
    assert(u >= 0x1000_0000_0000_0000) by (nonlinear_arith)
        requires
            u == pow2(60) * pow2(1014),
            pow2(60) == 0x1000_0000_0000_0000,
            pow2(1014) >= 1,
    ;
    error::near_in_figures(m, n, 1, n);
    let e = n - m;
    lemma_close(n, m);
    let hn = high * n;
    let ln = low * n;
    let hm = high * m;
    let lm = low * m;
    assert(ln <= cost <= hn) by (nonlinear_arith)
        requires
            cost == a * s + p * q,
            ln == low * n,
            hn == high * n,
            n == s + q,
            s >= 0,
            q >= 0,
            low <= a <= high,
            low <= p <= high,
    ;
    assert(0x8_0000_0000_0000 * (hn - hm) <= hm) by (nonlinear_arith)
        requires
            0x8_0000_0000_0000 * (n - m) <= m,
            hn == high * n,
            hm == high * m,
            high >= 0,
    ;
    assert(0x8_0000_0000_0000 * (lm - ln) <= lm) by (nonlinear_arith)
        requires
            0x8_0000_0000_0000 * (m - n) <= m,
            ln == low * n,
            lm == low * m,
            low >= 0,
    ;
    let dm = d * m;
    lemma_between(dm, cost, hn, hm, ln, lm, u, m);
    assert(0x2_0000_0000_0000 * (d - high) <= high + 0x80_0000_0000_0000) by (nonlinear_arith)
        requires
            0x2_0000_0000_0000 * (dm - hm) <= hm + 0x80_0000_0000_0000 * m,
            dm == d * m,
            hm == high * m,
            m > 0,
    ;
    assert(0x2_0000_0000_0000 * (low - d) <= low + 0x80_0000_0000_0000) by (nonlinear_arith)
        requires
            0x2_0000_0000_0000 * (lm - dm) <= lm + 0x80_0000_0000_0000 * m,
            dm == d * m,
            lm == low * m,
            m > 0,
    ;
}

proof fn lemma_close(n: int, m: int)
    requires
        n >= 0,
        m >= 0x1000_0000_0000_0000,
        0x20_0000_0000_0000 * (m - n) <= n + 0x10_0000_0000_0000,
        0x20_0000_0000_0000 * (n - m) <= n + 0x10_0000_0000_0000,
    ensures
        0x8_0000_0000_0000 * (n - m) <= m,
        0x8_0000_0000_0000 * (m - n) <= m,
{
    assert(n <= 2 * m);
}

proof fn lemma_between(
    dm: int,
    cost: int,
    hn: int,
    hm: int,
    ln: int,
    lm: int,
    u: int,
    m: int,
)
    requires
        0 <= ln <= cost <= hn,
        0 <= lm,
        0 <= hm,
        0 < u <= m,
        0x8_0000_0000_0000 * (hn - hm) <= hm,
        0x8_0000_0000_0000 * (lm - ln) <= lm,
        0x4_0000_0000_0000 * (dm - cost) <= cost + 0x80_0000_0000_0000 * (u + m),
        0x4_0000_0000_0000 * (cost - dm) <= cost + 0x80_0000_0000_0000 * (u + m),
    ensures
        0x2_0000_0000_0000 * (dm - hm) <= hm + 0x80_0000_0000_0000 * m,
        0x2_0000_0000_0000 * (lm - dm) <= lm + 0x80_0000_0000_0000 * m,
{
    assert(hn <= 2 * hm);
    assert(0x4_0000_0000_0000 * (dm - hn) <= hn + 0x100_0000_0000_0000 * m);
    assert(0x4_0000_0000_0000 * (hn - hm) <= hm);
    assert(cost - lm >= ln - lm);
    if cost <= lm {
        assert(0x4_0000_0000_0000 * (lm - cost) <= lm);
    } else {
        assert(0x4_0000_0000_0000 * (lm - dm) <= lm + 0x100_0000_0000_0000 * m);
    }
}

/// A sale takes its shares away, as far as there are any, and leaves the rest of the position.
pub proof fn sales_take_shares_away(
    pos: TokenPositionView,
    side: Seq<char>,
    price: Double,
    size: Double,
)
    requires
        side != "BUY"@,
        pos.shares.is_finite(),
        size.is_finite(),
    ensures
        ({
            let after = tracker::filled(pos, side, price, size);
            &&& size.lt(pos.shares) ==> after.shares == pos.shares.minus(size)
                || after.shares.same(Double::ratio(0, 1))
            &&& size.lt(pos.shares) && -pow2(2000) <= pos.shares.val() - size.val() <= pow2(2000)
                ==> error::near(after.shares.val(), pos.shares.val() - size.val(), 1)
            &&& pos.shares.le(size) ==> after.shares.same(Double::ratio(0, 1))
            &&& after.avg_entry_price == pos.avg_entry_price
            &&& after.token_id == pos.token_id
            &&& after.condition_id == pos.condition_id
            &&& after.side == pos.side
        }),
{
    laws::lemma_ratio(0, 1);
    value::lemma_order(size, pos.shares);
    error::negated_value(size);
    order::lemma_plus_key(pos.shares, size.negated());
    let d = pos.shares.val() - size.val();
    laws::lemma_zero_rounds(1);
    if d > 0 {
        order::lemma_key_monotone(0, d, 1);
    } else {
        order::lemma_key_monotone(d, 0, 1);
    }
    if -pow2(2000) <= d <= pow2(2000) {
        error::plus_is_near(pos.shares, size.negated());
        value::lemma_finite_parts(Double::ratio(0, 1));
        value::lemma_order(Double::ratio(0, 1), pos.shares.minus(size));
    }
}

/// A fill of a token that is not held opens a position of its market and side, and fills that.
pub proof fn first_fills_open_positions(
    positions: Map<Seq<char>, TokenPositionView>,
    token_id: Seq<char>,
    condition_id: Seq<char>,
    side: Seq<char>,
    price: Double,
    size: Double,
)
    requires
        !positions.contains_key(token_id),
    ensures
        ({
            let after = tracker::after_fill(
                positions,
                token_id,
                condition_id,
                side,
                price,
                size,
            )[token_id];
            let zero = Double::ratio(0, 1);
            &&& after.token_id == token_id
            &&& after.condition_id == condition_id
            &&& after.side == side
            &&& after == tracker::filled(
                TokenPositionView {
                    token_id,
                    condition_id,
                    side,
                    shares: zero,
                    avg_entry_price: zero,
                },
                side,
                price,
                size,
            )
        }),
{
}

/// A fill of a token that is held goes to its position.
pub proof fn later_fills_go_to_the_position(
    positions: Map<Seq<char>, TokenPositionView>,
    token_id: Seq<char>,
    condition_id: Seq<char>,
    side: Seq<char>,
    price: Double,
    size: Double,
)
    requires
        positions.contains_key(token_id),
    ensures
        tracker::after_fill(positions, token_id, condition_id, side, price, size)[token_id]
            == tracker::filled(positions[token_id], side, price, size),
{
}

/// Loading rows puts each under its token, the later over the earlier, and leaves other tokens.
pub proof fn loaded_rows_are_there(
    positions: Map<Seq<char>, TokenPositionView>,
    rows: Seq<TokenPositionView>,
    token_id: Seq<char>,
    i: int,
)
    ensures
        0 <= i < rows.len() && rows[i].token_id == token_id && (forall|j: int|
            i < j < rows.len() ==> (#[trigger] rows[j]).token_id != token_id)
            ==> tracker::after_load(positions, rows).contains_key(token_id) && tracker::after_load(
            positions,
            rows,
        )[token_id] == rows[i],
        (forall|j: int| 0 <= j < rows.len() ==> (#[trigger] rows[j]).token_id != token_id) ==> (
        tracker::after_load(positions, rows).contains_key(token_id) == positions.contains_key(
            token_id,
        ) && tracker::after_load(positions, rows)[token_id] == positions[token_id]),
    decreases rows.len(),
{
    if rows.len() > 0 {
        let front = rows.drop_last();
        assert(forall|j: int| 0 <= j < front.len() ==> #[trigger] front[j] == rows[j]);
        assert(rows[rows.len() - 1] == rows.last());
        loaded_rows_are_there(positions, front, token_id, i);
    }
}

/// What was paid for a row of positions grows with every position by its shares times its
/// average price.
pub proof fn exposure_adds_up(s: Seq<TokenPositionView>, p: TokenPositionView)
    ensures
        tracker::exposure_over(s.push(p)) == tracker::exposure_over(s).plus(
            p.shares.times(p.avg_entry_price),
        ),
        tracker::exposure_over(Seq::empty()).same(Double::ratio(0, 1)),
{
    assert(s.push(p).drop_last() =~= s);
    laws::lemma_ratio(0, 1);
    laws::lemma_signed(true, 0);
}

/// A token is held where its position has shares above zero.
pub proof fn held_tokens_have_shares(
    positions: Map<Seq<char>, TokenPositionView>,
    token_id: Seq<char>,
)
    ensures
        tracker::held(positions).contains(token_id) <==> positions.contains_key(token_id)
            && Double::ratio(0, 1).lt(positions[token_id].shares),
{
}

/// What is held of a market grows with every position of it by its shares: of YES where the
/// position was first taken by a purchase, of NO otherwise.
pub proof fn inventory_grows_with_positions(
    s: Seq<TokenPositionView>,
    p: TokenPositionView,
    condition_id: Seq<char>,
)
    ensures
        ({
            let before = tracker::inventory_over(s, condition_id);
            let after = tracker::inventory_over(s.push(p), condition_id);
            let bought = p.side == "BUY"@;
            &&& p.condition_id != condition_id ==> after == before
            &&& p.condition_id == condition_id && bought ==> after.yes_shares
                == before.yes_shares.plus(p.shares) && after.no_shares == before.no_shares
            &&& p.condition_id == condition_id && !bought ==> after.no_shares
                == before.no_shares.plus(p.shares) && after.yes_shares == before.yes_shares
        }),
{
    assert(s.push(p).drop_last() =~= s);
}

} // verus!

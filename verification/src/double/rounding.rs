//! Rounding of a ratio of naturals to 53 significant bits, ties to even.
//!
//! A finite binary64 magnitude is a whole number of units of two to the power
//! -1074.  Rounding takes the exact ratio `p / q`, counted in those units, to the
//! magnitude bits of the nearest binary64 number.

use vstd::arithmetic::div_mod::*;
use vstd::arithmetic::mul::*;
use vstd::arithmetic::power2::*;
use vstd::prelude::*;

verus! {

/// Two to the power 52: the weight of the implicit significand bit.
pub const HIDDEN: u64 = 0x10_0000_0000_0000;

/// Magnitude bits of infinity; every finite magnitude lies below.
pub const INFINITE: u64 = 0x7FF0_0000_0000_0000;

/// The integer nearest to `p / q`; a tie goes to the even neighbour.
pub open spec fn nearest_even(p: nat, q: nat) -> nat
    recommends
        q > 0,
{
    let floor = p / q;
    let rest = p % q;
    if 2 * rest < q {
        floor
    } else if 2 * rest > q {
        floor + 1
    } else {
        floor + floor % 2
    }
}

/// The least number of binary places by which `p / q` has to be shifted right to
/// fall below two to the power 53.
pub open spec fn excess(p: nat, q: nat) -> nat
    decreases p - q,
{
    if q == 0 || p < q * (2 * HIDDEN) {
        0
    } else {
        proof {
            assert(q * (2 * HIDDEN) >= 2 * q) by (nonlinear_arith)
                requires
                    q > 0,
                    HIDDEN >= 1,
            ;
        }
        1 + excess(p, 2 * q)
    }
}

/// Magnitude bits of the binary64 number nearest to `p / q` units.
///
/// With the significand `m` and the exponent `e` of the result, the encoding is
/// `e * 2^52 + m` for subnormal and normal numbers alike, also where rounding
/// carries `m` up to two to the power 53; what does not fit is infinite.
pub open spec fn rounded(p: nat, q: nat) -> int {
    let e = excess(p, q);
    let bits = e * HIDDEN + nearest_even(p, q * pow2(e));
    if bits < INFINITE {
        bits
    } else {
        INFINITE as int
    }
}

/// `k` if it is positive, else zero.
pub open spec fn plus(k: int) -> nat {
    if k > 0 {
        k as nat
    } else {
        0
    }
}

/// Magnitude bits of `a / b` times two to the power `k`.
pub open spec fn rounded_at(a: nat, b: nat, k: int) -> int {
    rounded(a * pow2(plus(k)), b * pow2(plus(-k)))
}

/// `p / q` needs the shift `e`: it fits below two to the power 53 after the shift
/// and did not one place earlier.
pub open spec fn fits(p: nat, q: nat, e: nat) -> bool {
    &&& p < q * (2 * HIDDEN) * pow2(e)
    &&& e > 0 ==> p >= q * HIDDEN * pow2(e)
}

/// `excess` is the shift that is needed.
pub proof fn lemma_excess_fits(p: nat, q: nat)
    requires
        q > 0,
    ensures
        fits(p, q, excess(p, q)),
    decreases p - q,
{
    lemma_pow2(0);
    lemma2_to64();
    if p >= q * (2 * HIDDEN) {
        assert(q * (2 * HIDDEN) >= 2 * q) by (nonlinear_arith)
            requires
                q > 0,
                HIDDEN >= 1,
        ;
        lemma_excess_fits(p, 2 * q);
        let e: nat = excess(p, 2 * q);
        lemma_pow2_unfold(e + 1);
        assert((2 * q) * (2 * HIDDEN) * pow2(e) == q * (2 * HIDDEN) * (2 * pow2(e)))
            by (nonlinear_arith);
        assert((2 * q) * HIDDEN * pow2(e) == q * HIDDEN * (2 * pow2(e))) by (nonlinear_arith);
        if e == 0 {
            assert(q * HIDDEN * 2 == q * (2 * HIDDEN)) by (nonlinear_arith);
            assert(pow2(1) == 2);
        }
    } else {
        assert(q * (2 * HIDDEN) * 1 == q * (2 * HIDDEN)) by (nonlinear_arith);
    }
}

/// The shift that fits is unique.
pub proof fn lemma_fits_unique(p: nat, q: nat, e: nat)
    requires
        q > 0,
        fits(p, q, e),
    ensures
        excess(p, q) == e,
{
    let f: nat = excess(p, q);
    lemma_excess_fits(p, q);
    if e < f {
        lemma_fits_apart(p, q, e, f);
    } else if f < e {
        lemma_fits_apart(p, q, f, e);
    }
}

proof fn lemma_fits_apart(p: nat, q: nat, low: nat, high: nat)
    requires
        low < high,
        p >= q * HIDDEN * pow2(high),
    ensures
        p >= q * (2 * HIDDEN) * pow2(low),
{
    lemma_pow2_unfold(high);
    if low < high - 1 {
        lemma_pow2_strictly_increases(low, (high - 1) as nat);
    }
    let small: nat = pow2(low);
    let large: nat = pow2((high - 1) as nat);
    assert(q * HIDDEN * (2 * large) >= q * (2 * HIDDEN) * small) by (nonlinear_arith)
        requires
            large >= small,
    ;
}

/// Rounding up to the next integer depends on the ratio alone.
pub proof fn lemma_nearest_scale(p: nat, q: nat, c: nat)
    requires
        q > 0,
        c > 0,
    ensures
        nearest_even(p * c, q * c) == nearest_even(p, q),
{
    lemma_fundamental_div_mod(p as int, q as int);
    lemma_mod_bound(p as int, q as int);
    let f: int = p as int / q as int;
    let r: int = p as int % q as int;
    assert(p * c == f * (q * c) + r * c) by (nonlinear_arith)
        requires
            p == q * f + r,
    ;
    assert(0 <= r * c < q * c) by (nonlinear_arith)
        requires
            0 <= r < q,
            c > 0,
    ;
    lemma_fundamental_div_mod_converse((p * c) as int, (q * c) as int, f, r * c);
    assert((2 * (r * c) < q * c) == (2 * r < q)) by (nonlinear_arith)
        requires
            c > 0,
    ;
    assert((2 * (r * c) > q * c) == (2 * r > q)) by (nonlinear_arith)
        requires
            c > 0,
    ;
}

/// The result of rounding depends on the ratio alone.
pub proof fn lemma_rounded_scale(p: nat, q: nat, c: nat)
    requires
        q > 0,
        c > 0,
    ensures
        rounded(p * c, q * c) == rounded(p, q),
{
    let e: nat = excess(p, q);
    lemma_excess_fits(p, q);
    lemma_pow2_pos(e);
    let w: nat = pow2(e);
    assert(p * c < (q * c) * (2 * HIDDEN) * w) by (nonlinear_arith)
        requires
            p < q * (2 * HIDDEN) * w,
            c > 0,
    ;
    if e > 0 {
        assert(p * c >= (q * c) * HIDDEN * w) by (nonlinear_arith)
            requires
                p >= q * HIDDEN * w,
                c > 0,
        ;
    }
    assert(q * c > 0) by (nonlinear_arith)
        requires
            q > 0,
            c > 0,
    ;
    lemma_fits_unique(p * c, q * c, e);
    assert(q * w > 0) by (nonlinear_arith)
        requires
            q > 0,
            w > 0,
    ;
    lemma_nearest_scale(p, q * w, c);
    assert((q * c) * w == (q * w) * c) by (nonlinear_arith);
}

/// Rounding a ratio of equal denominators keeps the order.
proof fn lemma_nearest_same(p1: nat, p2: nat, q: nat)
    requires
        q > 0,
        p1 <= p2,
    ensures
        nearest_even(p1, q) <= nearest_even(p2, q),
{
    lemma_div_is_ordered(p1 as int, p2 as int, q as int);
    lemma_fundamental_div_mod(p1 as int, q as int);
    lemma_fundamental_div_mod(p2 as int, q as int);
    lemma_mod_bound(p1 as int, q as int);
    lemma_mod_bound(p2 as int, q as int);
}

/// Rounding to an integer keeps the order.
pub proof fn lemma_nearest_monotone(p1: nat, q1: nat, p2: nat, q2: nat)
    requires
        q1 > 0,
        q2 > 0,
        p1 * q2 <= p2 * q1,
    ensures
        nearest_even(p1, q1) <= nearest_even(p2, q2),
{
    lemma_nearest_scale(p1, q1, q2);
    lemma_nearest_scale(p2, q2, q1);
    assert(q1 * q2 == q2 * q1) by (nonlinear_arith);
    assert(q1 * q2 > 0) by (nonlinear_arith)
        requires
            q1 > 0,
            q2 > 0,
    ;
    lemma_nearest_same(p1 * q2, p2 * q1, q1 * q2);
}

/// Bounds on the significand that rounding yields.
pub proof fn lemma_significand_range(p: nat, q: nat)
    requires
        q > 0,
    ensures
        nearest_even(p, q * pow2(excess(p, q))) <= 2 * HIDDEN,
        excess(p, q) > 0 ==> nearest_even(p, q * pow2(excess(p, q))) >= HIDDEN,
{
    let e: nat = excess(p, q);
    lemma_excess_fits(p, q);
    lemma_pow2_pos(e);
    let w: nat = q * pow2(e);
    assert(w > 0) by (nonlinear_arith)
        requires
            q > 0,
            pow2(e) > 0,
            w == q * pow2(e),
    ;
    assert(p < (2 * HIDDEN) * w) by (nonlinear_arith)
        requires
            p < q * (2 * HIDDEN) * pow2(e),
            w == q * pow2(e),
    ;
    lemma_nearest_whole((2 * HIDDEN) as nat, w);
    lemma_nearest_same(p, (2 * HIDDEN) as nat * w, w);
    if e > 0 {
        assert(p >= HIDDEN * w) by (nonlinear_arith)
            requires
                p >= q * HIDDEN * pow2(e),
                w == q * pow2(e),
        ;
        lemma_nearest_whole(HIDDEN as nat, w);
        lemma_nearest_same(HIDDEN as nat * w, p, w);
    }
}

/// A whole number is its own rounding.
pub proof fn lemma_nearest_whole(n: nat, q: nat)
    requires
        q > 0,
    ensures
        nearest_even(n * q, q) == n,
{
    lemma_fundamental_div_mod_converse((n * q) as int, q as int, n as int, 0);
}

/// Rounding keeps the order.
pub proof fn lemma_rounded_monotone(p1: nat, q1: nat, p2: nat, q2: nat)
    requires
        q1 > 0,
        q2 > 0,
        p1 * q2 <= p2 * q1,
    ensures
        rounded(p1, q1) <= rounded(p2, q2),
{
    let e1: nat = excess(p1, q1);
    let e2: nat = excess(p2, q2);
    lemma_excess_fits(p1, q1);
    lemma_excess_fits(p2, q2);
    lemma_significand_range(p1, q1);
    lemma_significand_range(p2, q2);
    lemma_pow2_pos(e1);
    lemma_pow2_pos(e2);
    if e1 == e2 {
        let w: nat = pow2(e1);
        assert(p1 * (q2 * w) <= p2 * (q1 * w)) by (nonlinear_arith)
            requires
                p1 * q2 <= p2 * q1,
        ;
        assert(q1 * w > 0 && q2 * w > 0) by (nonlinear_arith)
            requires
                q1 > 0,
                q2 > 0,
                w > 0,
        ;
        lemma_nearest_monotone(p1, q1 * w, p2, q2 * w);
    } else if e1 < e2 {
        let m1: nat = nearest_even(p1, q1 * pow2(e1));
        let m2: nat = nearest_even(p2, q2 * pow2(e2));
        assert(e1 * HIDDEN + m1 <= e2 * HIDDEN + m2) by (nonlinear_arith)
            requires
                e1 + 1 <= e2,
                m1 <= 2 * HIDDEN,
                m2 >= HIDDEN,
        ;
    } else {
        lemma_pow2_unfold(e1);
        if e2 < e1 - 1 {
            lemma_pow2_strictly_increases(e2, (e1 - 1) as nat);
        }
        let small: nat = pow2(e2);
        let large: nat = pow2((e1 - 1) as nat);
        assert(p1 * q2 >= q1 * HIDDEN * (2 * large) * q2) by (nonlinear_arith)
            requires
                p1 >= q1 * HIDDEN * (2 * large),
        ;
        assert(p2 * q1 < q2 * (2 * HIDDEN) * small * q1) by (nonlinear_arith)
            requires
                p2 < q2 * (2 * HIDDEN) * small,
                q1 > 0,
        ;
        assert(q1 * HIDDEN * (2 * large) * q2 >= q2 * (2 * HIDDEN) * small * q1)
            by (nonlinear_arith)
            requires
                large >= small,
        ;
    }
}

/// A significand with its exponent is its own rounding.
pub proof fn lemma_rounded_exact(m: nat, e: nat)
    requires
        m < 2 * HIDDEN,
        e > 0 ==> m >= HIDDEN,
        e <= 2045,
    ensures
        rounded(m * pow2(e), 1) == e * HIDDEN + m,
        e * HIDDEN + m < INFINITE,
{
    lemma_pow2_pos(e);
    let w: nat = pow2(e);
    assert(m * w < 1 * (2 * HIDDEN) * w) by (nonlinear_arith)
        requires
            m < 2 * HIDDEN,
            w > 0,
    ;
    if e > 0 {
        assert(m * w >= 1 * HIDDEN * w) by (nonlinear_arith)
            requires
                m >= HIDDEN,
                w > 0,
        ;
    }
    lemma_fits_unique(m * w, 1, e);
    lemma_nearest_whole(m, w);
}

} // verus!

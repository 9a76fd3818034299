//! Correctly rounded arithmetic.

use vstd::arithmetic::div_mod::*;
use vstd::arithmetic::mul::*;
use vstd::arithmetic::power2::*;
use vstd::prelude::*;

use super::rounding;
use super::rounding::{HIDDEN, INFINITE};
use super::value;
use super::value::{Double, QUIET, SIGN};

verus! {

/// Two to the power `c`.
pub(crate) fn power(c: u32) -> (r: u128)
    requires
        c <= 127,
    ensures
        r == pow2(c as nat),
{
    let mut r: u128 = 1;
    let mut i: u32 = 0;
    proof {
        lemma2_to64();
    }
    while i < c
        invariant
            i <= c <= 127,
            r == pow2(i as nat),
        decreases c - i,
    {
        proof {
            lemma_pow2_unfold((i + 1) as nat);
            lemma_power_fits((i + 1) as nat);
        }
        r = r * 2;
        i = i + 1;
    }
    r
}

/// Powers of two up to the 127th fit in 128 bits.
pub proof fn lemma_power_fits(c: nat)
    requires
        c <= 127,
    ensures
        pow2(c) <= 0x8000_0000_0000_0000_0000_0000_0000_0000,
{
    lemma2_to64();
    lemma2_to64_rest();
    lemma_pow2_adds(64, 63);
    if c < 127 {
        lemma_pow2_strictly_increases(c, 127);
    }
}

/// Number of binary places of `n`.
fn places(n: u128) -> (b: u32)
    requires
        n > 0,
        n < pow2(127),
    ensures
        1 <= b <= 127,
        pow2((b - 1) as nat) <= n < pow2(b as nat),
{
    let mut b: u32 = 0;
    let mut top: u128 = 1;
    proof {
        lemma2_to64();
    }
    while top <= n
        invariant
            b <= 127,
            top == pow2(b as nat),
            0 < n < pow2(127),
            b > 0 ==> pow2((b - 1) as nat) <= n,
        decreases 127 - b,
    {
        proof {
            if b == 127 {
                assert(false);
            }
            lemma_pow2_unfold((b + 1) as nat);
            lemma_power_fits((b + 1) as nat);
        }
        top = top * 2;
        b = b + 1;
    }
    b
}

/// Exponent of `n * 2^k` where `n` has `b` binary places.
pub open spec fn exponent_at(b: nat, k: int) -> nat {
    rounding::plus(b + k - 53)
}

proof fn lemma_zero(k: int)
    ensures
        rounding::rounded_at(0, 1, k) == 0,
{
    let q: nat = pow2(rounding::plus(-k));
    lemma_pow2_pos(rounding::plus(-k));
    assert(0 * pow2(rounding::plus(k)) == 0);
    assert(1 * q == q);
    lemma_pow2(0);
    lemma2_to64();
    assert(q * (2 * HIDDEN) > 0) by (nonlinear_arith)
        requires
            q > 0,
    ;
    assert(rounding::excess(0, q) == 0);
    assert(q * pow2(0) == q) by (nonlinear_arith)
        requires
            pow2(0) == 1,
    ;
    lemma_fundamental_div_mod_converse(0, q as int, 0, 0);
}

/// Which shift `n * 2^k` needs, and what range its significand falls in.
proof fn lemma_exponent(n: nat, k: int, b: nat)
    requires
        b >= 1,
        pow2((b - 1) as nat) <= n < pow2(b),
    ensures
        ({
            let p = n * pow2(rounding::plus(k));
            let q = 1 * pow2(rounding::plus(-k));
            &&& q > 0
            &&& rounding::excess(p, q) == exponent_at(b, k)
            &&& rounding::nearest_even(p, q * pow2(exponent_at(b, k))) <= 2 * HIDDEN
            &&& exponent_at(b, k) > 0 ==> rounding::nearest_even(
                p,
                q * pow2(exponent_at(b, k)),
            ) >= HIDDEN
        }),
{
    let up: nat = rounding::plus(k);
    let down: nat = rounding::plus(-k);
    let e: nat = exponent_at(b, k);
    let p: nat = n * pow2(up);
    let q: nat = 1 * pow2(down);
    lemma_pow2_pos(up);
    lemma_pow2_pos(down);
    lemma_pow2_pos(e);
    lemma2_to64_rest();
    lemma_pow2_adds(b, up);
    assert(p < pow2(b) * pow2(up)) by (nonlinear_arith)
        requires
            p == n * pow2(up),
            n < pow2(b),
            pow2(up) > 0,
    ;
    lemma_pow2_adds(down, 53);
    lemma_pow2_adds(down + 53, e);
    lemma_le(b + up, down + 53 + e);
    assert(q * (2 * HIDDEN) * pow2(e) == pow2(down + 53 + e));
    if e > 0 {
        lemma_pow2_adds((b - 1) as nat, up);
        lemma_pow2_adds(down, 52);
        lemma_pow2_adds(down + 52, e);
        assert(p >= pow2((b - 1) as nat) * pow2(up)) by (nonlinear_arith)
            requires
                p == n * pow2(up),
                n >= pow2((b - 1) as nat),
        ;
        assert(q * HIDDEN * pow2(e) == pow2(down + 52 + e));
        assert(down + 52 + e == b - 1 + up);
    }
    rounding::lemma_fits_unique(p, q, e);
    rounding::lemma_significand_range(p, q);
}

/// Powers of two do not fall.
pub proof fn lemma_le(a: nat, b: nat)
    requires
        a <= b,
    ensures
        pow2(a) <= pow2(b),
{
    if a < b {
        lemma_pow2_strictly_increases(a, b);
    }
}

/// `n * 2^k` has at most 53 places: its significand is a multiple of `n`.
proof fn lemma_shift_left(n: nat, k: int, b: nat)
    requires
        1 <= b <= 127,
        pow2((b - 1) as nat) <= n < pow2(b),
        exponent_at(b, k) <= k,
    ensures
        ({
            let e = exponent_at(b, k);
            let w = pow2((k - e) as nat);
            &&& k - e <= 52
            &&& n * w < 2 * HIDDEN
            &&& e > 0 ==> n * w >= HIDDEN
            &&& rounding::rounded_at(n, 1, k) == if e * HIDDEN + n * w < INFINITE {
                e * HIDDEN + n * w
            } else {
                INFINITE as int
            }
        }),
{
    let e: nat = exponent_at(b, k);
    let d: nat = (k - e) as nat;
    lemma_exponent(n, k, b);
    lemma_pow2_pos(e);
    lemma_pow2_pos(d);
    lemma_pow2_adds(d, e);
    assert(n * pow2(k as nat) == (n * pow2(d)) * pow2(e)) by (nonlinear_arith)
        requires
            pow2(k as nat) == pow2(d) * pow2(e),
    ;
    lemma2_to64();
    lemma2_to64_rest();
    assert(1 * pow2(rounding::plus(-k)) * pow2(e) == pow2(e)) by (nonlinear_arith)
        requires
            pow2(rounding::plus(-k)) == 1,
    ;
    rounding::lemma_nearest_whole(n * pow2(d), pow2(e));
    assert(n * pow2(d) < pow2(b) * pow2(d)) by (nonlinear_arith)
        requires
            n < pow2(b),
            pow2(d) > 0,
    ;
    lemma_pow2_adds(b, d);
    lemma_le(b + d, 53);
}

/// The part of `n` that is cut off decides the rounding.
proof fn lemma_cut(n: nat, k: int, b: nat)
    requires
        b >= 1,
        pow2((b - 1) as nat) <= n < pow2(b),
        exponent_at(b, k) > k,
    ensures
        ({
            let e = exponent_at(b, k);
            let m = rounding::nearest_even(n, pow2((e - k) as nat));
            &&& m <= 2 * HIDDEN
            &&& e > 0 ==> m >= HIDDEN
            &&& rounding::rounded_at(n, 1, k) == if e * HIDDEN + m < INFINITE {
                e * HIDDEN + m
            } else {
                INFINITE as int
            }
        }),
{
    let e: nat = exponent_at(b, k);
    let cut: nat = (e - k) as nat;
    let up: nat = rounding::plus(k);
    let down: nat = rounding::plus(-k);
    lemma_exponent(n, k, b);
    lemma_pow2_pos(up);
    lemma_pow2_pos(cut);
    lemma_pow2_adds(down, e);
    lemma_pow2_adds(cut, up);
    assert(down + e == cut + up);
    assert(1 * pow2(down) * pow2(e) == pow2(cut) * pow2(up)) by (nonlinear_arith)
        requires
            pow2(down) * pow2(e) == pow2(cut) * pow2(up),
    ;
    rounding::lemma_nearest_scale(n, pow2(cut), pow2(up));
}

/// Less than half a unit in the last place rounds to nothing.
proof fn lemma_vanishes(n: nat, k: int, b: nat)
    requires
        1 <= b <= 127,
        pow2((b - 1) as nat) <= n < pow2(b),
        exponent_at(b, k) - k > b,
    ensures
        rounding::rounded_at(n, 1, k) == 0,
        exponent_at(b, k) == 0,
{
    let e: nat = exponent_at(b, k);
    let cut: nat = (e - k) as nat;
    lemma_cut(n, k, b);
    lemma_le(b, (cut - 1) as nat);
    lemma_pow2_unfold(cut);
    lemma_fundamental_div_mod_converse(n as int, pow2(cut) as int, 0, n as int);
    assert(rounding::nearest_even(n, pow2(cut)) == 0);
}

/// `n * 2^k`, rounded.
fn round_at(negative: bool, n: u128, k: i32) -> (r: Double)
    requires
        n < pow2(127),
        -4000 <= k <= 4000,
    ensures
        r == value::signed(negative, rounding::rounded_at(n as nat, 1, k as int)),
{
    let bits: u64 = if n == 0 {
        proof {
            lemma_zero(k as int);
        }
        0
    } else {
        let b: i32 = places(n) as i32;
        let e: i32 = if b + k > 53 { b + k - 53 } else { 0 };
        let cut: i32 = e - k;
        let m: u64 = if cut <= 0 {
            proof {
                lemma_shift_left(n as nat, k as int, b as nat);
            }
            let w: u128 = power((-cut) as u32);
            (n * w) as u64
        } else if cut > b {
            proof {
                lemma_vanishes(n as nat, k as int, b as nat);
            }
            0
        } else {
            let w: u128 = power(cut as u32);
            proof {
                lemma_pow2_pos(cut as nat);
            }
            let floor: u128 = n / w;
            let rest: u128 = n % w;
            proof {
                lemma_cut(n as nat, k as int, b as nat);
            }
            let up: bool = if rest < w - rest {
                false
            } else if rest > w - rest {
                true
            } else {
                floor % 2 == 1
            };
            if up {
                (floor + 1) as u64
            } else {
                floor as u64
            }
        };
        assert(rounding::rounded_at(n as nat, 1, k as int) == if e * HIDDEN + m < INFINITE {
            e * HIDDEN + m
        } else {
            INFINITE as int
        });
        if e >= 2046 {
            INFINITE
        } else {
            let full: u64 = e as u64 * HIDDEN + m;
            if full < INFINITE {
                full
            } else {
                INFINITE
            }
        }
    };
    if negative {
        Double { bits: bits + SIGN }
    } else {
        Double { bits }
    }
}


/// One, in units of two to the power -1074, is two to this power.
pub const UNIT: u32 = 1074;

pub open spec fn quiet() -> Double {
    Double { bits: QUIET }
}

/// The number nearest to `p / q` units.
pub open spec fn nearest(negative: bool, p: nat, q: nat) -> Double {
    value::signed(negative, rounding::rounded(p, q))
}

pub open spec fn magnitude_of(v: int) -> nat {
    if v < 0 {
        -v as nat
    } else {
        v as nat
    }
}

impl Double {
    /// The exact sum, rounded.  A zero sum of opposite terms is positive.
    #[verifier::opaque]
    pub open spec fn spec_plus(self, other: Double) -> Double {
        if self.is_nan() || other.is_nan() {
            quiet()
        } else if self.is_infinite() {
            if other.is_infinite() && self.is_negative() != other.is_negative() {
                quiet()
            } else {
                self
            }
        } else if other.is_infinite() {
            other
        } else {
            let sum = self.val() + other.val();
            let negative = sum < 0 || (sum == 0 && self.is_negative() && other.is_negative());
            nearest(negative, magnitude_of(sum), 1)
        }
    }

    /// The exact difference, rounded.
    pub open spec fn spec_minus(self, other: Double) -> Double {
        self.spec_plus(other.negated())
    }

    /// The exact product, rounded.
    #[verifier::opaque]
    pub open spec fn spec_times(self, other: Double) -> Double {
        let negative = self.is_negative() != other.is_negative();
        if self.is_nan() || other.is_nan() {
            quiet()
        } else if self.is_infinite() || other.is_infinite() {
            if self.mag() == 0 || other.mag() == 0 {
                quiet()
            } else {
                value::signed(negative, INFINITE as int)
            }
        } else {
            nearest(negative, self.units() * other.units(), pow2(UNIT as nat))
        }
    }

    /// The exact quotient, rounded.
    #[verifier::opaque]
    pub open spec fn spec_over(self, other: Double) -> Double {
        let negative = self.is_negative() != other.is_negative();
        if self.is_nan() || other.is_nan() {
            quiet()
        } else if self.is_infinite() {
            if other.is_infinite() {
                quiet()
            } else {
                value::signed(negative, INFINITE as int)
            }
        } else if other.is_infinite() {
            value::signed(negative, 0)
        } else if other.mag() == 0 {
            if self.mag() == 0 {
                quiet()
            } else {
                value::signed(negative, INFINITE as int)
            }
        } else {
            nearest(negative, self.units() * pow2(UNIT as nat), other.units())
        }
    }

    /// The greatest whole number not above this one.
    #[verifier::opaque]
    pub open spec fn spec_floor(self) -> Double {
        if !self.is_finite() {
            self
        } else {
            let one = pow2(UNIT as nat);
            let whole = self.units() / one;
            let up = self.is_negative() && self.units() % one != 0;
            nearest(self.is_negative(), (if up {
                whole + 1
            } else {
                whole
            }) * one, 1)
        }
    }

    /// The least whole number not below this one.
    #[verifier::opaque]
    pub open spec fn spec_ceil(self) -> Double {
        if !self.is_finite() {
            self
        } else {
            let one = pow2(UNIT as nat);
            let whole = self.units() / one;
            let up = !self.is_negative() && self.units() % one != 0;
            nearest(self.is_negative(), (if up {
                whole + 1
            } else {
                whole
            }) * one, 1)
        }
    }

    /// The number nearest to `n / d`.
    #[verifier::opaque]
    pub open spec fn spec_ratio(n: u32, d: u32) -> Double {
        nearest(false, n as nat * pow2(UNIT as nat), d as nat)
    }

    /// The number nearest to an integer.
    #[verifier::opaque]
    pub open spec fn spec_from_int(n: i64) -> Double {
        nearest(n < 0, magnitude_of(n as int) * pow2(UNIT as nat), 1)
    }

    /// The number nearest to a natural number.
    #[verifier::opaque]
    pub open spec fn spec_from_nat(n: u64) -> Double {
        nearest(false, n as nat * pow2(UNIT as nat), 1)
    }

    /// The whole part, towards zero, of a finite number.
    pub open spec fn whole(self) -> int {
        let w = (self.units() / pow2(UNIT as nat)) as int;
        if self.is_negative() {
            -w
        } else {
            w
        }
    }

    /// The whole part as an `i64`: out of range it is the nearest bound, and zero for
    /// "not a number".
    #[verifier::opaque]
    pub open spec fn spec_to_int(self) -> i64 {
        if self.is_nan() {
            0
        } else if self.is_infinite() || self.whole() > i64::MAX || self.whole() < i64::MIN {
            if self.is_negative() {
                i64::MIN
            } else {
                i64::MAX
            }
        } else {
            self.whole() as i64
        }
    }

    /// The whole part as a `u64`, with the same rule.
    #[verifier::opaque]
    pub open spec fn spec_to_nat(self) -> u64 {
        if self.is_nan() {
            0
        } else if self.is_negative() {
            0
        } else if self.is_infinite() || self.whole() > u64::MAX {
            u64::MAX
        } else {
            self.whole() as u64
        }
    }

    /// Significand and exponent.
    pub(crate) fn parts(self) -> (r: (u64, u32))
        requires
            self.is_finite(),
        ensures
            r.0 == self.sig(),
            r.1 == self.exp(),
            r.0 < 2 * HIDDEN,
            r.1 <= 2045,
            r.1 > 0 ==> r.0 >= HIDDEN,
    {
        proof {
            value::lemma_finite_parts(self);
        }
        let m: u64 = self.magnitude();
        if m < HIDDEN {
            (m, 0)
        } else {
            let e: u64 = m / HIDDEN - 1;
            (m - e * HIDDEN, e as u32)
        }
    }

    /// `self + other`.
    #[verifier::when_used_as_spec(spec_plus)]
    pub fn plus(self, other: Double) -> (r: Double)
        ensures
            r == self.plus(other),
    {
        reveal(Double::spec_plus);
        if self.is_nan() || other.is_nan() {
            return Double { bits: QUIET };
        }
        if self.magnitude() == INFINITE {
            if other.magnitude() == INFINITE && self.is_negative() != other.is_negative() {
                return Double { bits: QUIET };
            }
            return self;
        }
        if other.magnitude() == INFINITE {
            return other;
        }
        if self.magnitude() >= other.magnitude() {
            add_ordered(self, other)
        } else {
            add_ordered(other, self)
        }
    }

    /// `self - other`.
    #[verifier::when_used_as_spec(spec_minus)]
    pub fn minus(self, other: Double) -> (r: Double)
        ensures
            r == self.minus(other),
    {
        self.plus(other.negated())
    }

    /// `self * other`.
    #[verifier::when_used_as_spec(spec_times)]
    pub fn times(self, other: Double) -> (r: Double)
        ensures
            r == self.times(other),
    {
        reveal(Double::spec_times);
        let negative: bool = self.is_negative() != other.is_negative();
        if self.is_nan() || other.is_nan() {
            return Double { bits: QUIET };
        }
        if self.magnitude() == INFINITE || other.magnitude() == INFINITE {
            if self.magnitude() == 0 || other.magnitude() == 0 {
                return Double { bits: QUIET };
            }
            return Double { bits: if negative { INFINITE + SIGN } else { INFINITE } };
        }
        let (sx, ex): (u64, u32) = self.parts();
        let (sy, ey): (u64, u32) = other.parts();
        proof {
            lemma_product(sx as nat, ex as nat, sy as nat, ey as nat);
            lemma_power_fits(106);
        }
        let n: u128 = sx as u128 * sy as u128;
        round_at(negative, n, ex as i32 + ey as i32 - UNIT as i32)
    }

    /// `self / other`.
    #[verifier::when_used_as_spec(spec_over)]
    pub fn over(self, other: Double) -> (r: Double)
        ensures
            r == self.over(other),
    {
        reveal(Double::spec_over);
        let negative: bool = self.is_negative() != other.is_negative();
        let infinite: Double = Double { bits: if negative { INFINITE + SIGN } else { INFINITE } };
        if self.is_nan() || other.is_nan() {
            return Double { bits: QUIET };
        }
        if self.magnitude() == INFINITE {
            if other.magnitude() == INFINITE {
                return Double { bits: QUIET };
            }
            return infinite;
        }
        if other.magnitude() == INFINITE {
            return Double { bits: if negative { SIGN } else { 0 } };
        }
        if other.magnitude() == 0 {
            if self.magnitude() == 0 {
                return Double { bits: QUIET };
            }
            return infinite;
        }
        let (sx, ex): (u64, u32) = self.parts();
        let (sy, ey): (u64, u32) = other.parts();
        proof {
            value::lemma_finite_parts(other);
            lemma_quotient(sx as nat, ex as nat, sy as nat, ey as nat);
        }
        divide(negative, sx, sy, ex as i32 - ey as i32 + UNIT as i32)
    }

    /// The whole part and whether anything is left of it, for a finite number.
    fn split(self) -> (r: (u128, bool))
        requires
            self.is_finite(),
            self.exp() <= UNIT + 63,
        ensures
            r.0 == self.units() / pow2(UNIT as nat),
            r.0 < pow2(117),
            r.1 == (self.units() % pow2(UNIT as nat) != 0),
            self.exp() < UNIT ==> r.0 < 2 * HIDDEN,
    {
        let (s, e): (u64, u32) = self.parts();
        if e >= UNIT {
            let w: u128 = power(e - UNIT);
            proof {
                lemma_whole(s as nat, e as nat);
                lemma_power_fits(117);
            }
            (s as u128 * w, false)
        } else {
            proof {
                lemma_split(s as nat, e as nat);
            }
            if UNIT - e > 53 {
                proof {
                    lemma2_to64_rest();
                    lemma_le(53, (UNIT - e) as nat);
                    lemma_fundamental_div_mod_converse(
                        s as int,
                        pow2((UNIT - e) as nat) as int,
                        0,
                        s as int,
                    );
                    lemma_pow2_pos(117);
                }
                (0, s != 0)
            } else {
                let w: u64 = power(UNIT - e) as u64;
                proof {
                    lemma_le((UNIT - e) as nat, 53);
                    lemma_pow2_pos((UNIT - e) as nat);
                    lemma2_to64_rest();
                    lemma_le(53, 117);
                    assert(s as int / w as int <= s) by (nonlinear_arith)
                        requires
                            w > 0,
                            s >= 0,
                    ;
                }
                ((s / w) as u128, s % w != 0)
            }
        }
    }

    /// `self`, rounded down to a whole number.
    #[verifier::when_used_as_spec(spec_floor)]
    pub fn floor(self) -> (r: Double)
        ensures
            r == self.floor(),
    {
        reveal(Double::spec_floor);
        if self.magnitude() >= INFINITE {
            return self;
        }
        let (_s, e): (u64, u32) = self.parts();
        if e >= UNIT {
            proof {
                lemma_already_whole(self);
            }
            return self;
        }
        let (whole, rest): (u128, bool) = self.split();
        let n: u128 = if rest && self.is_negative() { whole + 1 } else { whole };
        proof {
            lemma2_to64_rest();
            lemma_le(54, 127);
            lemma_pow2_unfold(54);
            lemma_at_plain(n as nat, UNIT as nat);
        }
        round_at(self.is_negative(), n, UNIT as i32)
    }

    /// `self`, rounded up to a whole number.
    #[verifier::when_used_as_spec(spec_ceil)]
    pub fn ceil(self) -> (r: Double)
        ensures
            r == self.ceil(),
    {
        reveal(Double::spec_ceil);
        if self.magnitude() >= INFINITE {
            return self;
        }
        let (_s, e): (u64, u32) = self.parts();
        if e >= UNIT {
            proof {
                lemma_already_whole(self);
            }
            return self;
        }
        let (whole, rest): (u128, bool) = self.split();
        let n: u128 = if rest && !self.is_negative() { whole + 1 } else { whole };
        proof {
            lemma2_to64_rest();
            lemma_le(54, 127);
            lemma_pow2_unfold(54);
            lemma_at_plain(n as nat, UNIT as nat);
        }
        round_at(self.is_negative(), n, UNIT as i32)
    }

    /// The number that the decimal fraction `n / d` denotes.
    #[verifier::when_used_as_spec(spec_ratio)]
    pub fn ratio(n: u32, d: u32) -> (r: Double)
        requires
            d > 0,
        ensures
            r == Double::ratio(n, d),
    {
        reveal(Double::spec_ratio);
        proof {
            lemma_scaled(n as nat, d as nat, UNIT as nat, 0);
            lemma2_to64();
        }
        divide(false, n as u64, d as u64, UNIT as i32)
    }

    /// The number nearest to an integer.
    #[verifier::when_used_as_spec(spec_from_int)]
    pub fn from_int(n: i64) -> (r: Double)
        ensures
            r == Double::from_int(n),
    {
        reveal(Double::spec_from_int);
        let m: u128 = if n < 0 { (-(n as i128)) as u128 } else { n as u128 };
        proof {
            lemma2_to64();
            lemma2_to64_rest();
            lemma_le(64, 127);
            lemma_at_plain(m as nat, UNIT as nat);
        }
        round_at(n < 0, m, UNIT as i32)
    }

    /// The number nearest to a natural number.
    #[verifier::when_used_as_spec(spec_from_nat)]
    pub fn from_nat(n: u64) -> (r: Double)
        ensures
            r == Double::from_nat(n),
    {
        reveal(Double::spec_from_nat);
        proof {
            lemma2_to64();
            lemma2_to64_rest();
            lemma_le(64, 127);
            lemma_at_plain(n as nat, UNIT as nat);
        }
        round_at(false, n as u128, UNIT as i32)
    }

    /// The whole part as an `i64`.
    #[verifier::when_used_as_spec(spec_to_int)]
    pub fn to_int(self) -> (r: i64)
        ensures
            r == self.to_int(),
    {
        reveal(Double::spec_to_int);
        if self.is_nan() {
            return 0;
        }
        let bound: i64 = if self.is_negative() { i64::MIN } else { i64::MAX };
        if self.magnitude() == INFINITE {
            return bound;
        }
        let (_s, e): (u64, u32) = self.parts();
        if e > UNIT + 63 {
            proof {
                lemma_huge(self);
            }
            return bound;
        }
        let (whole, _rest): (u128, bool) = self.split();
        if self.is_negative() {
            if whole > 0x8000_0000_0000_0000 {
                bound
            } else if whole == 0x8000_0000_0000_0000 {
                i64::MIN
            } else {
                -(whole as i64)
            }
        } else if whole > 0x7FFF_FFFF_FFFF_FFFF {
            bound
        } else {
            whole as i64
        }
    }

    /// The whole part as a `u64`.
    #[verifier::when_used_as_spec(spec_to_nat)]
    pub fn to_nat(self) -> (r: u64)
        ensures
            r == self.to_nat(),
    {
        reveal(Double::spec_to_nat);
        if self.is_nan() || self.is_negative() {
            return 0;
        }
        if self.magnitude() == INFINITE {
            return u64::MAX;
        }
        let (_s, e): (u64, u32) = self.parts();
        if e > UNIT + 63 {
            proof {
                lemma_huge(self);
            }
            return u64::MAX;
        }
        let (whole, _rest): (u128, bool) = self.split();
        if whole > 0xFFFF_FFFF_FFFF_FFFF {
            u64::MAX
        } else {
            whole as u64
        }
    }
}

proof fn lemma_exponents_ordered(x: Double, y: Double)
    requires
        x.is_finite(),
        y.is_finite(),
        x.mag() >= y.mag(),
    ensures
        x.exp() >= y.exp(),
{
    lemma_div_is_ordered(y.mag(), x.mag(), HIDDEN as int);
}

/// Both terms in units of the lesser exponent.
proof fn lemma_aligned(sx: nat, ex: nat, sy: nat, ey: nat)
    requires
        sx < 2 * HIDDEN,
        sy < 2 * HIDDEN,
        ey <= ex <= ey + 70,
        sx * pow2(ex) >= sy * pow2(ey),
    ensures
        ({
            let w = pow2((ex - ey) as nat);
            &&& w > 0
            &&& sy <= sx * w < pow2(123)
            &&& sx * w + sy < pow2(127)
            &&& sx * pow2(ex) == sx * w * pow2(ey)
            &&& (sx * w - sy) * pow2(ey) == sx * pow2(ex) - sy * pow2(ey)
            &&& (sx * w + sy) * pow2(ey) == sx * pow2(ex) + sy * pow2(ey)
            &&& sx * w == sy <==> sx * pow2(ex) == sy * pow2(ey)
        }),
{
    let d: nat = (ex - ey) as nat;
    let w: int = pow2(d) as int;
    let v: int = pow2(ey) as int;
    lemma_pow2_pos(d);
    lemma_pow2_pos(ey);
    lemma_pow2_adds(d, ey);
    assert(sx * (w * v) == sx * w * v) by (nonlinear_arith);
    assert((sx * w - sy) * v == sx * w * v - sy * v) by (nonlinear_arith);
    assert((sx * w + sy) * v == sx * w * v + sy * v) by (nonlinear_arith);
    assert(sy <= sx * w) by (nonlinear_arith)
        requires
            sx * w * v >= sy * v,
            v > 0,
    ;
    assert((sx * w == sy) == (sx * w * v == sy * v)) by (nonlinear_arith)
        requires
            v > 0,
    ;
    lemma2_to64_rest();
    lemma_le(d, 70);
    lemma_pow2_adds(53, 70);
    assert(sx * w < pow2(53) * pow2(70)) by (nonlinear_arith)
        requires
            sx < pow2(53),
            0 < w <= pow2(70),
    ;
    lemma_le(53, 123);
    lemma_pow2_unfold(124);
    lemma_le(124, 127);
}

proof fn lemma_plain(e: nat)
    ensures
        pow2(rounding::plus(-(e as int))) == 1,
{
    lemma2_to64();
}

/// Rounding at a natural exponent.
proof fn lemma_at_plain(n: nat, e: nat)
    ensures
        rounding::rounded_at(n, 1, e as int) == rounding::rounded(n * pow2(e), 1),
{
    lemma_plain(e);
    assert(rounding::plus(e as int) == e);
}

/// A term that lies more than 70 places lower leaves the greater one as it is.
proof fn lemma_far_sum(sx: nat, ex: nat, sy: nat, ey: nat)
    requires
        sx < 2 * HIDDEN,
        sx >= HIDDEN,
        sy < 2 * HIDDEN,
        ex > ey + 70,
        ex <= 2045,
    ensures
        sx * pow2(ex) > sy * pow2(ey),
        rounding::rounded(sx * pow2(ex) + sy * pow2(ey), 1) == ex * HIDDEN + sx,
        rounding::rounded((sx * pow2(ex) - sy * pow2(ey)) as nat, 1) == ex * HIDDEN + sx,
{
    let w: int = pow2((ex - 2) as nat) as int;
    let small: int = (sy * pow2(ey)) as int;
    lemma_pow2_unfold(ex);
    lemma_pow2_unfold((ex - 1) as nat);
    lemma_pow2_pos((ex - 2) as nat);
    lemma2_to64_rest();
    lemma_pow2_adds(53, ey);
    lemma_pow2_pos(ey);
    assert(small < pow2(53) * pow2(ey)) by (nonlinear_arith)
        requires
            small == sy * pow2(ey),
            sy < pow2(53),
            pow2(ey) > 0,
    ;
    assert(small >= 0) by (nonlinear_arith)
        requires
            small == sy * pow2(ey),
    ;
    lemma_le(53 + ey, (ex - 2) as nat);
    assert(0 <= small < w);
    assert(pow2(ex) == 4 * w);
    let h: int = HIDDEN as int;
    let big: int = (sx * pow2(ex)) as int;
    assert(big == sx * (4 * w));
    // The sum.
    assert(big + small < 2 * h * (4 * w) && big + small >= h * (4 * w)) by (nonlinear_arith)
        requires
            big == sx * (4 * w),
            h <= sx < 2 * h,
            0 <= small < w,
    ;
    rounding::lemma_fits_unique((big + small) as nat, 1, ex);
    assert(big + small == sx * (4 * w) + small);
    lemma_fundamental_div_mod_converse(big + small, 4 * w, sx as int, small);
    assert(1 * pow2(ex) == 4 * w);
    rounding::lemma_rounded_exact(sx, ex);
    // The difference.
    assert(big > small) by (nonlinear_arith)
        requires
            big == sx * (4 * w),
            sx >= 1,
            0 <= small < w,
    ;
    if small == 0 {
    } else if sx > h {
        assert(big - small < 2 * h * (4 * w) && big - small >= h * (4 * w)) by (nonlinear_arith)
            requires
                big == sx * (4 * w),
                h + 1 <= sx < 2 * h,
                0 <= small < w,
        ;
        rounding::lemma_fits_unique((big - small) as nat, 1, ex);
        assert(big - small == (sx - 1) * (4 * w) + (4 * w - small)) by (nonlinear_arith)
            requires
                big == sx * (4 * w),
        ;
        lemma_fundamental_div_mod_converse(big - small, 4 * w, sx - 1, 4 * w - small);
    } else {
        assert(pow2((ex - 1) as nat) == 2 * w);
        assert(big - small < 2 * h * (2 * w) && big - small >= h * (2 * w)) by (nonlinear_arith)
            requires
                big == h * (4 * w),
                h >= 1,
                0 < small < w,
        ;
        rounding::lemma_fits_unique((big - small) as nat, 1, (ex - 1) as nat);
        assert(big - small == (2 * h - 1) * (2 * w) + (2 * w - small)) by (nonlinear_arith)
            requires
                big == h * (4 * w),
        ;
        lemma_fundamental_div_mod_converse(big - small, 2 * w, 2 * h - 1, 2 * w - small);
        assert(1 * pow2((ex - 1) as nat) == 2 * w);
        assert((ex - 1) * h + 2 * h == ex * h + h) by (nonlinear_arith);
    }
}

/// The sum of two finite numbers, the greater magnitude first.
fn add_ordered(x: Double, y: Double) -> (r: Double)
    requires
        x.is_finite(),
        y.is_finite(),
        x.mag() >= y.mag(),
    ensures
        ({
            let sum = x.val() + y.val();
            let negative = sum < 0 || (sum == 0 && x.is_negative() && y.is_negative());
            r == nearest(negative, magnitude_of(sum), 1)
        }),
{
    let (sx, ex): (u64, u32) = x.parts();
    let (sy, ey): (u64, u32) = y.parts();
    let opposite: bool = x.is_negative() != y.is_negative();
    proof {
        lemma_exponents_ordered(x, y);
        value::lemma_order(x, y);
        value::lemma_finite_parts(x);
        value::lemma_finite_parts(y);
    }
    let d: u32 = ex - ey;
    if d > 70 {
        proof {
            lemma_far_sum(sx as nat, ex as nat, sy as nat, ey as nat);
        }
        return x;
    }
    let w: u128 = power(d);
    proof {
        lemma_aligned(sx as nat, ex as nat, sy as nat, ey as nat);
        lemma_power_fits(123);
    }
    let big: u128 = sx as u128 * w;
    if opposite {
        let rest: u128 = big - sy as u128;
        proof {
            assert(rest * pow2(ey as nat) == x.units() - y.units());
            lemma_at_plain(rest as nat, ey as nat);
        }
        round_at(if rest == 0 { false } else { x.is_negative() }, rest, ey as i32)
    } else {
        let all: u128 = big + sy as u128;
        proof {
            lemma_at_plain(all as nat, ey as nat);
        }
        round_at(x.is_negative(), all, ey as i32)
    }
}


/// `rounded_at` counts the places of the numerator in either argument.
proof fn lemma_at_shift(a: nat, b: nat, k: int, j: nat)
    requires
        b > 0,
    ensures
        rounding::rounded_at(a * pow2(j), b, k - j) == rounding::rounded_at(a, b, k),
{
    let t: nat = (rounding::plus(k - j) + j - rounding::plus(k)) as nat;
    lemma_pow2_adds(rounding::plus(k), t);
    lemma_pow2_adds(rounding::plus(-k), t);
    lemma_pow2_adds(j, rounding::plus(k - j));
    lemma_pow2_pos(rounding::plus(-k));
    lemma_pow2_pos(t);
    assert(j + rounding::plus(k - j) == rounding::plus(k) + t);
    assert(rounding::plus(j - k) == rounding::plus(-k) + t);
    let p: int = (a * pow2(rounding::plus(k))) as int;
    let q: int = (b * pow2(rounding::plus(-k))) as int;
    assert(a * pow2(j) * pow2(rounding::plus(k - j)) == p * pow2(t)) by (nonlinear_arith)
        requires
            pow2(j) * pow2(rounding::plus(k - j)) == pow2(rounding::plus(k)) * pow2(t),
            p == a * pow2(rounding::plus(k)),
    ;
    assert(b * pow2(rounding::plus(j - k)) == q * pow2(t)) by (nonlinear_arith)
        requires
            pow2(rounding::plus(j - k)) == pow2(rounding::plus(-k)) * pow2(t),
            q == b * pow2(rounding::plus(-k)),
    ;
    assert(q > 0) by (nonlinear_arith)
        requires
            q == b * pow2(rounding::plus(-k)),
            b > 0,
            pow2(rounding::plus(-k)) > 0,
    ;
    rounding::lemma_rounded_scale(p as nat, q as nat, pow2(t));
}

/// A quotient cut to a whole number with one more bit for what was cut off.
pub open spec fn sticky(a: nat, b: nat) -> nat {
    2 * (a / b) + if a % b == 0 {
        0nat
    } else {
        1nat
    }
}

/// Cut off at least one place higher, the sticky quotient rounds like the exact one.
proof fn lemma_sticky(a: nat, b: nat, j: nat)
    requires
        b > 0,
        j >= 1,
    ensures
        rounding::nearest_even(a, b * pow2(j)) == rounding::nearest_even(
            sticky(a, b),
            pow2(j + 1),
        ),
{
    let f: int = a as int / b as int;
    let r: int = a as int % b as int;
    let v: int = pow2((j - 1) as nat) as int;
    let w: int = 2 * v;
    let bi: int = b as int;
    lemma_pow2_unfold(j);
    lemma_pow2_unfold(j + 1);
    lemma_pow2_pos((j - 1) as nat);
    lemma_fundamental_div_mod(a as int, bi);
    lemma_mod_bound(a as int, bi);
    lemma_div_pos_is_pos(a as int, bi);
    let g: int = f / w;
    let h: int = f % w;
    lemma_fundamental_div_mod(f, w);
    lemma_mod_bound(f, w);
    let s: int = if r == 0 {
        0
    } else {
        1
    };
    assert(a == g * (bi * w) + (bi * h + r)) by (nonlinear_arith)
        requires
            a == bi * f + r,
            f == w * g + h,
    ;
    assert(0 <= bi * h + r < bi * w) by (nonlinear_arith)
        requires
            0 <= h <= w - 1,
            0 <= r < bi,
    ;
    lemma_fundamental_div_mod_converse(a as int, bi * w, g, bi * h + r);
    assert(sticky(a, b) == g * (2 * w) + (2 * h + s)) by (nonlinear_arith)
        requires
            sticky(a, b) == 2 * f + s,
            f == w * g + h,
    ;
    lemma_fundamental_div_mod_converse(sticky(a, b) as int, 2 * w, g, 2 * h + s);
    assert(2 * (bi * h + r) - bi * w == 2 * (bi * (h - v) + r)) by (nonlinear_arith)
        requires
            w == 2 * v,
    ;
    if h < v {
        assert(bi * (h - v) + r < 0) by (nonlinear_arith)
            requires
                h - v <= -1,
                0 <= r < bi,
        ;
    } else if h > v {
        assert(bi * (h - v) + r > 0) by (nonlinear_arith)
            requires
                h - v >= 1,
                0 <= r < bi,
        ;
    } else {
        assert(bi * (h - v) == 0) by (nonlinear_arith)
            requires
                h == v,
        ;
    }
}

/// A quotient of at least 73 places rounds like its sticky form.
proof fn lemma_sticky_rounds(a: nat, b: nat, k: int)
    requires
        b > 0,
        a >= b * pow2(72),
    ensures
        rounding::rounded_at(a, b, k) == rounding::rounded_at(sticky(a, b), 1, k - 1),
{
    let up: nat = rounding::plus(k);
    let down: nat = rounding::plus(-k);
    let up2: nat = rounding::plus(k - 1);
    let down2: nat = rounding::plus(1 - k);
    let p: nat = a * pow2(up);
    let q: nat = b * pow2(down);
    let n: nat = sticky(a, b);
    lemma_pow2_pos(up);
    lemma_pow2_pos(down);
    lemma_pow2_pos(up2);
    lemma_pow2_pos(down2);
    assert(q > 0) by (nonlinear_arith)
        requires
            q == b * pow2(down),
            b > 0,
            pow2(down) > 0,
    ;
    let e: nat = rounding::excess(p, q);
    rounding::lemma_excess_fits(p, q);
    lemma2_to64_rest();
    lemma_pow2_adds(down, 53);
    lemma_pow2_adds(down + 53, e);
    let h: nat = HIDDEN as nat;
    assert(q * (2 * h) * pow2(e) == b * pow2(down + 53 + e)) by (nonlinear_arith)
        requires
            q == b * pow2(down),
            pow2(down + 53 + e) == pow2(down) * (2 * h) * pow2(e),
    ;
    lemma_pow2_adds(72, up);
    assert(p >= b * pow2(72 + up)) by (nonlinear_arith)
        requires
            p == a * pow2(up),
            a >= b * pow2(72),
            pow2(72 + up) == pow2(72) * pow2(up),
    ;
    if 72 + up >= down + 53 + e {
        lemma_le(down + 53 + e, 72 + up);
        assert(b * pow2(72 + up) >= b * pow2(down + 53 + e)) by (nonlinear_arith)
            requires
                pow2(72 + up) >= pow2(down + 53 + e),
        ;
    }
    let j: nat = (e - k) as nat;
    assert(e - k >= 20);
    // The upper bound, free of the shift.
    lemma_pow2_adds(53 + j, up);
    let top: nat = pow2(53 + j);
    assert(a < b * top) by (nonlinear_arith)
        requires
            a * pow2(up) < b * pow2(53 + j + up),
            pow2(53 + j + up) == top * pow2(up),
            pow2(up) > 0,
    ;
    let f: int = a as int / b as int;
    lemma_fundamental_div_mod(a as int, b as int);
    lemma_mod_bound(a as int, b as int);
    assert(f < top) by (nonlinear_arith)
        requires
            a < b * top,
            a == b * f + a as int % b as int,
            0 <= a as int % b as int,
            b > 0,
    ;
    lemma_pow2_unfold(54 + j);
    assert(n < pow2(54 + j));
    lemma_pow2_adds(54 + j, up2);
    assert(n * pow2(up2) < pow2(54 + j + up2)) by (nonlinear_arith)
        requires
            n < pow2(54 + j),
            pow2(54 + j + up2) == pow2(54 + j) * pow2(up2),
            pow2(up2) > 0,
    ;
    lemma_pow2_adds(down2, 53);
    lemma_pow2_adds(down2 + 53, e);
    assert(54 + j + up2 == down2 + 53 + e);
    // The lower bound.
    if e > 0 {
        lemma_pow2_adds(down, 52);
        lemma_pow2_adds(down + 52, e);
        assert(q * h * pow2(e) == b * pow2(down + 52 + e)) by (nonlinear_arith)
            requires
                q == b * pow2(down),
                pow2(down + 52 + e) == pow2(down) * h * pow2(e),
        ;
        lemma_pow2_adds(52 + j, up);
        let low: nat = pow2(52 + j);
        assert(a >= b * low) by (nonlinear_arith)
            requires
                a * pow2(up) >= b * pow2(52 + j + up),
                pow2(52 + j + up) == low * pow2(up),
                pow2(up) > 0,
        ;
        assert(f >= low) by (nonlinear_arith)
            requires
                a >= b * low,
                a == b * f + a as int % b as int,
                (a as int % b as int) < b,
                b > 0,
        ;
        lemma_pow2_unfold(53 + j);
        lemma_pow2_adds(53 + j, up2);
        assert(n * pow2(up2) >= pow2(53 + j + up2)) by (nonlinear_arith)
            requires
                n >= pow2(53 + j),
                pow2(53 + j + up2) == pow2(53 + j) * pow2(up2),
        ;
        lemma_pow2_adds(down2, 52);
        lemma_pow2_adds(down2 + 52, e);
        assert(53 + j + up2 == down2 + 52 + e);
    }
    let q2: nat = 1 * pow2(down2);
    assert(q2 * (2 * HIDDEN) * pow2(e) == pow2(down2 + 53 + e));
    assert(e > 0 ==> q2 * HIDDEN * pow2(e) == pow2(down2 + 52 + e));
    rounding::lemma_fits_unique(n * pow2(up2), q2, e);
    // The significands.
    lemma_sticky(a, b, j);
    lemma_pow2_adds(down, e);
    lemma_pow2_adds(j, up);
    lemma_pow2_pos(j);
    assert(down + e == j + up);
    assert(q * pow2(e) == b * pow2(j) * pow2(up)) by (nonlinear_arith)
        requires
            q == b * pow2(down),
            pow2(down) * pow2(e) == pow2(j) * pow2(up),
    ;
    assert(b * pow2(j) > 0) by (nonlinear_arith)
        requires
            b > 0,
            pow2(j) > 0,
    ;
    rounding::lemma_nearest_scale(a, b * pow2(j), pow2(up));
    lemma_pow2_adds(down2, e);
    lemma_pow2_adds(j + 1, up2);
    lemma_pow2_pos(j + 1);
    assert(down2 + e == j + 1 + up2);
    rounding::lemma_nearest_scale(n, pow2(j + 1), pow2(up2));
}

/// `a / b * 2^k`, rounded.
fn divide(negative: bool, a: u64, b: u64, k: i32) -> (r: Double)
    requires
        a < 2 * HIDDEN,
        0 < b < 2 * HIDDEN,
        -3000 <= k <= 3200,
    ensures
        r == value::signed(negative, rounding::rounded_at(a as nat, b as nat, k as int)),
{
    proof {
        lemma2_to64_rest();
        lemma_le(53, 127);
    }
    if a == 0 {
        proof {
            lemma_zero_over(b as nat, k as int);
        }
        return round_at(negative, 0, k);
    }
    let length: u32 = places(a as u128);
    proof {
        if length > 53 {
            lemma_le(53, (length - 1) as nat);
        }
        lemma_lifted(a as nat, length as nat);
        lemma_power_fits(126);
    }
    let lift: u32 = 126 - length;
    let w: u128 = power(lift);
    let top: u128 = a as u128 * w;
    let floor: u128 = top / b as u128;
    let rest: u128 = top % b as u128;
    proof {
        lemma_at_shift(a as nat, b as nat, k as int, lift as nat);
        lemma_pow2_adds(53, 72);
        assert(top >= b * pow2(72)) by (nonlinear_arith)
            requires
                top >= pow2(125),
                pow2(125) == pow2(53) * pow2(72),
                b < pow2(53),
        ;
        lemma_sticky_rounds(top as nat, b as nat, k - lift);
        assert(floor <= top) by (nonlinear_arith)
            requires
                floor == top / (b as u128),
                b > 0,
        ;
        lemma_pow2_unfold(127);
    }
    let n: u128 = if rest == 0 {
        2 * floor
    } else {
        2 * floor + 1
    };
    round_at(negative, n, k - lift as i32 - 1)
}

/// The numerator moved up to 126 places.
proof fn lemma_lifted(a: nat, length: nat)
    requires
        1 <= length <= 53,
        pow2((length - 1) as nat) <= a < pow2(length),
    ensures
        pow2(125) <= a * pow2((126 - length) as nat) < pow2(126),
{
    let lift: nat = (126 - length) as nat;
    lemma_pow2_adds((length - 1) as nat, lift);
    lemma_pow2_adds(length, lift);
    lemma_pow2_pos(lift);
    assert(pow2((length - 1) as nat) * pow2(lift) <= a * pow2(lift) < pow2(length) * pow2(lift))
        by (nonlinear_arith)
        requires
            pow2((length - 1) as nat) <= a < pow2(length),
            pow2(lift) > 0,
    ;
}

proof fn lemma_zero_over(b: nat, k: int)
    requires
        b > 0,
    ensures
        rounding::rounded_at(0, b, k) == 0,
        rounding::rounded_at(0, 1, k) == 0,
{
    lemma_zero(k);
    let q: nat = pow2(rounding::plus(-k));
    lemma_pow2_pos(rounding::plus(-k));
    assert(0 * pow2(rounding::plus(k)) == 0);
    assert(0 * b == 0);
    rounding::lemma_rounded_scale(0, q, b);
    assert(q * b == b * q) by (nonlinear_arith);
    assert(1 * q == q);
}

proof fn lemma_product(sx: nat, ex: nat, sy: nat, ey: nat)
    requires
        sx < 2 * HIDDEN,
        sy < 2 * HIDDEN,
    ensures
        sx * sy < pow2(106),
        sx * sy < pow2(127),
        rounding::rounded_at(sx * sy, 1, ex + ey - UNIT) == rounding::rounded(
            (sx * pow2(ex)) * (sy * pow2(ey)),
            pow2(UNIT as nat),
        ),
{
    let k: int = ex + ey - UNIT;
    lemma2_to64_rest();
    lemma_pow2_adds(53, 53);
    assert(sx * sy < pow2(53) * pow2(53)) by (nonlinear_arith)
        requires
            sx < pow2(53),
            sy < pow2(53),
    ;
    lemma_le(106, 127);
    lemma_pow2_adds(ex, ey);
    assert((sx * pow2(ex)) * (sy * pow2(ey)) == (sx * sy) * (pow2(ex) * pow2(ey)))
        by (nonlinear_arith);
    lemma_scaled(sx * sy, 1, ex + ey, UNIT as nat);
}

proof fn lemma_quotient(sx: nat, ex: nat, sy: nat, ey: nat)
    requires
        sy > 0,
    ensures
        rounding::rounded_at(sx, sy, ex - ey + UNIT) == rounding::rounded(
            (sx * pow2(ex)) * pow2(UNIT as nat),
            sy * pow2(ey),
        ),
{
    lemma_pow2_adds(ex, UNIT as nat);
    assert((sx * pow2(ex)) * pow2(UNIT as nat) == sx * (pow2(ex) * pow2(UNIT as nat)))
        by (nonlinear_arith);
    lemma_scaled(sx, sy, ex + UNIT as nat, ey);
}

/// Powers of two above and below the line cancel.
proof fn lemma_scaled(a: nat, b: nat, above: nat, below: nat)
    requires
        b > 0,
    ensures
        rounding::rounded(a * pow2(above), b * pow2(below)) == rounding::rounded_at(
            a,
            b,
            above - below,
        ),
{
    let k: int = above - below;
    let t: nat = if above < below {
        above
    } else {
        below
    };
    lemma_pow2_adds(rounding::plus(k), t);
    lemma_pow2_adds(rounding::plus(-k), t);
    lemma_pow2_pos(t);
    lemma_pow2_pos(rounding::plus(-k));
    let p: nat = a * pow2(rounding::plus(k));
    let q: nat = b * pow2(rounding::plus(-k));
    assert(a * pow2(above) == p * pow2(t)) by (nonlinear_arith)
        requires
            pow2(above) == pow2(rounding::plus(k)) * pow2(t),
            p == a * pow2(rounding::plus(k)),
    ;
    assert(b * pow2(below) == q * pow2(t)) by (nonlinear_arith)
        requires
            pow2(below) == pow2(rounding::plus(-k)) * pow2(t),
            q == b * pow2(rounding::plus(-k)),
    ;
    assert(q > 0) by (nonlinear_arith)
        requires
            q == b * pow2(rounding::plus(-k)),
            b > 0,
            pow2(rounding::plus(-k)) > 0,
    ;
    rounding::lemma_rounded_scale(p, q, pow2(t));
}


/// A number of at least 53 whole places has no fraction.
pub proof fn lemma_whole(s: nat, e: nat)
    requires
        e >= UNIT,
    ensures
        (s * pow2(e)) / pow2(UNIT as nat) == s * pow2((e - UNIT) as nat),
        (s * pow2(e)) % pow2(UNIT as nat) == 0,
        s * pow2(e) == s * pow2((e - UNIT) as nat) * pow2(UNIT as nat),
        s < 2 * HIDDEN && e <= UNIT + 63 ==> s * pow2((e - UNIT) as nat) < pow2(117),
{
    let d: nat = (e - UNIT) as nat;
    let one: nat = pow2(UNIT as nat);
    lemma_pow2_adds(d, UNIT as nat);
    lemma_pow2_pos(UNIT as nat);
    assert(s * (pow2(d) * one) == (s * pow2(d)) * one) by (nonlinear_arith);
    lemma_fundamental_div_mod_converse(
        (s * pow2(e)) as int,
        one as int,
        (s * pow2(d)) as int,
        0,
    );
    if s < 2 * HIDDEN && e <= UNIT + 63 {
        lemma2_to64_rest();
        lemma_le(d, 63);
        lemma_pow2_adds(53, 63);
        lemma_pow2_pos(d);
        assert(s * pow2(d) < pow2(53) * pow2(63)) by (nonlinear_arith)
            requires
                s < pow2(53),
                0 < pow2(d) <= pow2(63),
        ;
        lemma_le(116, 117);
    }
}

/// The fraction is what the significand has below one.
proof fn lemma_split(s: nat, e: nat)
    requires
        e < UNIT,
    ensures
        (s * pow2(e)) / pow2(UNIT as nat) == s / pow2((UNIT - e) as nat),
        ((s * pow2(e)) % pow2(UNIT as nat) != 0) == (s % pow2((UNIT - e) as nat) != 0),
{
    let c: nat = (UNIT - e) as nat;
    let w: int = pow2(c) as int;
    let v: int = pow2(e) as int;
    lemma_pow2_adds(c, e);
    lemma_pow2_pos(c);
    lemma_pow2_pos(e);
    let f: int = s as int / w;
    let r: int = s as int % w;
    lemma_fundamental_div_mod(s as int, w);
    lemma_mod_bound(s as int, w);
    assert(s * v == f * (w * v) + r * v) by (nonlinear_arith)
        requires
            s == w * f + r,
    ;
    assert(0 <= r * v < w * v) by (nonlinear_arith)
        requires
            0 <= r < w,
            v > 0,
    ;
    lemma_fundamental_div_mod_converse(s * v, w * v, f, r * v);
    assert((r * v != 0) == (r != 0)) by (nonlinear_arith)
        requires
            v > 0,
    ;
}

proof fn lemma_already_whole(x: Double)
    requires
        x.is_finite(),
        x.exp() >= UNIT,
    ensures
        x == nearest(x.is_negative(), (x.units() / pow2(UNIT as nat)) * pow2(UNIT as nat), 1),
        x.units() % pow2(UNIT as nat) == 0,
{
    lemma_whole(x.sig(), x.exp());
    value::lemma_finite_parts(x);
}

/// A number of 64 or more places after the first has a whole part beyond 64 bits.
proof fn lemma_huge(x: Double)
    requires
        x.is_finite(),
        x.exp() > UNIT + 63,
    ensures
        x.units() / pow2(UNIT as nat) > u64::MAX,
{
    let d: nat = (x.exp() - UNIT) as nat;
    lemma_whole(x.sig(), x.exp());
    value::lemma_finite_parts(x);
    lemma2_to64();
    lemma2_to64_rest();
    lemma_le(64, d);
    let s: nat = x.sig();
    assert(s * pow2(d) >= pow2(64)) by (nonlinear_arith)
        requires
            s >= 1,
            pow2(d) >= pow2(64),
    ;
}

} // verus!

//! Decimal notation with a fixed number of places.

use vstd::arithmetic::div_mod::*;
use vstd::arithmetic::mul::*;
use vstd::arithmetic::power2::*;
use vstd::prelude::*;
use vstd::string::*;

use super::arithmetic;
use super::arithmetic::UNIT;
use super::rounding;
use super::rounding::INFINITE;
use super::value;
use super::value::Double;
use crate::text;

verus! {

/// Ten to the power `p`.
pub open spec fn ten(p: nat) -> nat
    decreases p,
{
    if p == 0 {
        1
    } else {
        10 * ten((p - 1) as nat)
    }
}

/// The decimal notation of `n / 10^p`, with the point even where no place follows.
pub open spec fn pointed(n: nat, p: nat) -> Seq<char>
    decreases p,
{
    if p == 0 {
        text::spec_decimal(n).push('.')
    } else {
        pointed(n / 10, (p - 1) as nat).push(text::digit(n as int % 10))
    }
}

/// The decimal notation of `n / 10^p`.
pub open spec fn placed(n: nat, p: nat) -> Seq<char> {
    if p == 0 {
        text::spec_decimal(n)
    } else {
        pointed(n, p)
    }
}

/// The value of a row of decimal digits, the lowest first.
pub open spec fn little(s: Seq<u8>) -> nat
    decreases s.len(),
{
    if s.len() == 0 {
        0
    } else {
        s[0] as nat + 10 * little(s.drop_first())
    }
}

pub open spec fn digits(s: Seq<u8>) -> bool {
    forall|i: int| 0 <= i < s.len() ==> #[trigger] s[i] < 10
}

/// The digits in writing order.
spec fn written(s: Seq<u8>) -> Seq<char>
    decreases s.len(),
{
    if s.len() == 0 {
        Seq::empty()
    } else {
        written(s.drop_first()).push(text::digit(s[0] as int))
    }
}

/// The digits in writing order, with a point before the last `p`.
spec fn written_pointed(s: Seq<u8>, p: nat) -> Seq<char>
    decreases p,
{
    if p == 0 {
        written(s).push('.')
    } else {
        written_pointed(s.drop_first(), (p - 1) as nat).push(text::digit(s[0] as int))
    }
}

proof fn lemma_written(s: Seq<u8>)
    requires
        digits(s),
        s.len() >= 1,
        s.len() == 1 || s.last() != 0,
    ensures
        written(s) == text::spec_decimal(little(s)),
    decreases s.len(),
{
    let rest: Seq<u8> = s.drop_first();
    if s.len() == 1 {
        assert(rest.len() == 0);
        assert(little(rest) == 0);
        assert(written(rest) =~= Seq::<char>::empty());
        assert(written(s) =~= seq![text::digit(s[0] as int)]);
    } else {
        assert(digits(rest));
        assert(rest.last() == s.last());
        lemma_written(rest);
        lemma_positive(rest);
        assert(little(s) / 10 == little(rest));
        assert(little(s) as int % 10 == s[0]);
    }
}

proof fn lemma_positive(s: Seq<u8>)
    requires
        s.len() >= 1,
        s.last() != 0,
    ensures
        little(s) > 0,
    decreases s.len(),
{
    let rest: Seq<u8> = s.drop_first();
    if s.len() > 1 {
        assert(rest.last() == s.last());
        lemma_positive(rest);
    }
}

proof fn lemma_written_pointed(s: Seq<u8>, p: nat)
    requires
        digits(s),
        s.len() >= p + 1,
        s.len() == p + 1 || s.last() != 0,
    ensures
        written_pointed(s, p) == pointed(little(s), p),
    decreases p,
{
    if p == 0 {
        lemma_written(s);
    } else {
        let rest: Seq<u8> = s.drop_first();
        assert(digits(rest));
        assert(s.len() > p + 1 ==> rest.last() == s.last());
        lemma_written_pointed(rest, (p - 1) as nat);
        assert(little(s) / 10 == little(rest));
        assert(little(s) as int % 10 == s[0]);
    }
}

/// A zero on top leaves the value.
proof fn lemma_top(s: Seq<u8>, d: u8)
    ensures
        little(s.push(d)) == little(s) + d * ten(s.len()),
    decreases s.len(),
{
    if s.len() == 0 {
        assert(s.push(d).drop_first() =~= Seq::<u8>::empty());
        assert(little(Seq::<u8>::empty()) == 0);
        assert(little(s) == 0);
        assert(ten(0) == 1);
        assert(d * 1 == d);
    } else {
        assert(s.push(d).drop_first() =~= s.drop_first().push(d));
        lemma_top(s.drop_first(), d);
        let t: int = ten((s.len() - 1) as nat) as int;
        assert(10 * (d * t) == d * (10 * t)) by (nonlinear_arith);
    }
}

/// The digits of a number, the lowest first.
fn split_digits(n: u128) -> (r: Vec<u8>)
    ensures
        digits(r@),
        little(r@) == n,
{
    let mut out: Vec<u8> = Vec::new();
    let mut rest: u128 = n;
    proof {
        assert(ten(0) == 1);
        assert(n * 1 == n);
    }
    while rest > 0
        invariant
            digits(out@),
            n == little(out@) + rest * ten(out@.len()),
        decreases rest,
    {
        let d: u8 = (rest % 10) as u8;
        proof {
            lemma_top(out@, d);
            let t: int = ten(out@.len()) as int;
            let q: int = rest as int / 10;
            assert(rest * t == d * t + q * (10 * t)) by (nonlinear_arith)
                requires
                    rest == 10 * q + d,
            ;
        }
        out.push(d);
        rest = rest / 10;
    }
    out
}

/// Twice the number.
fn twice(s: &Vec<u8>) -> (r: Vec<u8>)
    requires
        digits(s@),
    ensures
        digits(r@),
        little(r@) == 2 * little(s@),
{
    let mut out: Vec<u8> = Vec::new();
    let mut carry: u8 = 0;
    let mut i: usize = 0;
    assert(s@.subrange(0, 0) =~= Seq::<u8>::empty());
    while i < s.len()
        invariant
            digits(s@),
            digits(out@),
            i <= s@.len(),
            out@.len() == i,
            carry <= 1,
            little(out@) + carry * ten(i as nat) == 2 * little(s@.subrange(0, i as int)),
        decreases s@.len() - i,
    {
        let d: u8 = s[i];
        let v: u8 = 2 * d + carry;
        let low: u8 = v % 10;
        let up: u8 = v / 10;
        proof {
            lemma_top(out@, low);
            lemma_top(s@.subrange(0, i as int), d);
            assert(s@.subrange(0, i as int).push(d) =~= s@.subrange(0, i + 1));
            let t: int = ten(i as nat) as int;
            assert(low * t + up * (10 * t) == 2 * (d * t) + carry * t) by (nonlinear_arith)
                requires
                    low + 10 * up == 2 * d + carry,
            ;
        }
        out.push(low);
        carry = up;
        i = i + 1;
    }
    assert(s@.subrange(0, i as int) =~= s@);
    if carry > 0 {
        proof {
            lemma_top(out@, carry);
        }
        out.push(carry);
    }
    out
}

/// The digits, at least `p + 1` of them, without further zeros on top.
fn tidy(s: Vec<u8>, p: usize) -> (r: Vec<u8>)
    requires
        digits(s@),
        p < 100,
    ensures
        digits(r@),
        little(r@) == little(s@),
        r@.len() >= p + 1,
        r@.len() == p + 1 || r@.last() != 0,
{
    let mut out: Vec<u8> = s;
    while out.len() < p + 1
        invariant
            digits(out@),
            little(out@) == little(s@),
            p < 100,
        decreases p + 1 - out@.len(),
    {
        proof {
            lemma_top(out@, 0);
            assert(0 * ten(out@.len()) == 0);
        }
        out.push(0);
    }
    while out.len() > p + 1 && out[out.len() - 1] == 0
        invariant
            digits(out@),
            little(out@) == little(s@),
            out@.len() >= p + 1,
            p < 100,
        decreases out@.len(),
    {
        proof {
            let low: Seq<u8> = out@.drop_last();
            lemma_top(low, 0);
            assert(low.push(0) =~= out@);
            assert(0 * ten(low.len()) == 0);
        }
        out.pop();
    }
    out
}

/// The digits in writing order, with a point before the last `p` if there are any.
fn write(s: &Vec<u8>, p: usize) -> (r: String)
    requires
        digits(s@),
        s@.len() >= p + 1,
        s@.len() == p + 1 || s@.last() != 0,
    ensures
        r@ == placed(little(s@), p as nat),
{
    let mut out: String = String::new();
    let mut i: usize = s.len();
    assert(s@.skip(s@.len() as int) =~= Seq::<u8>::empty());
    while i > p
        invariant
            digits(s@),
            p <= i <= s@.len(),
            out@ == written(s@.skip(i as int)),
        decreases i,
    {
        i = i - 1;
        proof {
            assert(s@.skip(i as int).drop_first() =~= s@.skip(i + 1));
        }
        text::push_digit(&mut out, s[i] as u64);
    }
    if p == 0 {
        proof {
            assert(s@.skip(0) =~= s@);
            lemma_written(s@);
        }
        return out;
    }
    proof {
        reveal_strlit(".");
    }
    out.append(".");
    assert(out@ =~= written_pointed(s@.skip(p as int), 0));
    while i > 0
        invariant
            digits(s@),
            i <= p < s@.len(),
            out@ == written_pointed(s@.skip(i as int), (p - i) as nat),
        decreases i,
    {
        i = i - 1;
        proof {
            assert(s@.skip(i as int).drop_first() =~= s@.skip(i + 1));
        }
        text::push_digit(&mut out, s[i] as u64);
    }
    proof {
        assert(s@.skip(0) =~= s@);
        lemma_written_pointed(s@, p as nat);
    }
    out
}

/// Ten to the power `p`.
fn power_of_ten(p: u32) -> (r: u128)
    requires
        p <= 4,
    ensures
        r == ten(p as nat),
        1 <= r <= 10000,
{
    proof {
        reveal_with_fuel(ten, 5);
    }
    if p == 0 {
        1
    } else if p == 1 {
        10
    } else if p == 2 {
        100
    } else if p == 3 {
        1000
    } else {
        10000
    }
}

/// `n / 2^c`, rounded to an integer.
fn near(n: u128, c: u32) -> (r: u128)
    requires
        c > 0,
        n < 0x4000_0000_0000_0000_0000_0000,
    ensures
        r == rounding::nearest_even(n as nat, pow2(c as nat)),
{
    if c > 127 {
        proof {
            lemma2_to64();
            lemma2_to64_rest();
            lemma_pow2_adds(64, 31);
            arithmetic::lemma_le(95, (c - 1) as nat);
            lemma_pow2_unfold(c as nat);
            lemma_fundamental_div_mod_converse(n as int, pow2(c as nat) as int, 0, n as int);
        }
        return 0;
    }
    let w: u128 = arithmetic::power(c);
    proof {
        lemma_pow2_pos(c as nat);
    }
    let floor: u128 = n / w;
    let rest: u128 = n % w;
    proof {
        assert(floor <= n) by (nonlinear_arith)
            requires
                floor == n / w,
                w > 0,
        ;
    }
    if rest < w - rest {
        floor
    } else if rest > w - rest {
        floor + 1
    } else {
        floor + floor % 2
    }
}

/// The steps of a number without a fraction.
proof fn lemma_whole_steps(x: Double, p: nat)
    requires
        x.is_finite(),
        x.exp() >= UNIT,
    ensures
        x.steps(p) == x.sig() * ten(p) * pow2((x.exp() - UNIT) as nat),
{
    let one: nat = pow2(UNIT as nat);
    let s: int = x.sig() as int;
    let t: int = ten(p) as int;
    let w: int = pow2((x.exp() - UNIT) as nat) as int;
    arithmetic::lemma_whole(x.sig(), x.exp());
    lemma_pow2_pos(UNIT as nat);
    assert(s * w * one * t == (s * t * w) * one) by (nonlinear_arith);
    assert(s * t * w >= 0) by (nonlinear_arith)
        requires
            s >= 0,
            t >= 0,
            w >= 0,
    ;
    rounding::lemma_nearest_whole((s * t * w) as nat, one);
}

/// The steps of a number with a fraction.
proof fn lemma_fraction_steps(x: Double, p: nat)
    requires
        x.is_finite(),
        x.exp() < UNIT,
    ensures
        x.steps(p) == rounding::nearest_even(
            x.sig() * ten(p),
            pow2((UNIT - x.exp()) as nat),
        ),
{
    let c: nat = (UNIT - x.exp()) as nat;
    let s: int = x.sig() as int;
    let t: int = ten(p) as int;
    let v: int = pow2(x.exp()) as int;
    lemma_pow2_adds(c, x.exp());
    lemma_pow2_pos(c);
    lemma_pow2_pos(x.exp());
    assert(s * v * t == (s * t) * v) by (nonlinear_arith);
    assert(s * t >= 0) by (nonlinear_arith)
        requires
            s >= 0,
            t >= 0,
    ;
    rounding::lemma_nearest_scale((s * t) as nat, pow2(c), pow2(x.exp()));
}

impl Double {
    /// A finite magnitude in steps of `10^-p`, rounded to the nearest step, ties to even.
    pub open spec fn steps(self, p: nat) -> nat {
        rounding::nearest_even(self.units() * ten(p), pow2(UNIT as nat))
    }

    /// The decimal notation with `p` places.
    pub open spec fn spec_fixed(self, p: nat) -> Seq<char> {
        if self.is_nan() {
            "NaN"@
        } else if self.is_infinite() {
            if self.is_negative() {
                "-inf"@
            } else {
                "inf"@
            }
        } else if self.is_negative() {
            seq!['-'] + placed(self.steps(p), p)
        } else {
            placed(self.steps(p), p)
        }
    }

    /// The decimal notation with `p` places.
    pub fn fixed(self, p: u32) -> (r: String)
        requires
            p <= 4,
        ensures
            r@ == self.spec_fixed(p as nat),
    {
        if self.is_nan() {
            return "NaN".to_string();
        }
        if self.magnitude() == INFINITE {
            return if self.is_negative() { "-inf".to_string() } else { "inf".to_string() };
        }
        let body: String = self.fixed_magnitude(p);
        if self.is_negative() {
            proof {
                reveal_strlit("-");
                assert("-"@ =~= seq!['-']);
            }
            let mut s: String = "-".to_string();
            s.append(body.as_str());
            s
        } else {
            body
        }
    }

    fn fixed_magnitude(self, p: u32) -> (r: String)
        requires
            p <= 4,
            self.is_finite(),
        ensures
            r@ == placed(self.steps(p as nat), p as nat),
    {
        let (s, e): (u64, u32) = self.parts();
        let t: u128 = power_of_ten(p);
        proof {
            assert(s * t <= 0x20_0000_0000_0000 * 10000) by (nonlinear_arith)
                requires
                    s <= 0x20_0000_0000_0000,
                    t <= 10000,
            ;
        }
        let n: u128 = s as u128 * t;
        if e >= UNIT {
            proof {
                lemma_whole_steps(self, p as nat);
            }
            let mut row: Vec<u8> = split_digits(n);
            let mut i: u32 = UNIT;
            proof {
                lemma2_to64();
                assert(n * 1 == n);
            }
            while i < e
                invariant
                    UNIT <= i <= e <= 2045,
                    digits(row@),
                    little(row@) == n * pow2((i - UNIT) as nat),
                decreases e - i,
            {
                proof {
                    lemma_pow2_unfold((i + 1 - UNIT) as nat);
                    let w: int = pow2((i - UNIT) as nat) as int;
                    assert(2 * (n * w) == n * (2 * w)) by (nonlinear_arith);
                }
                row = twice(&row);
                i = i + 1;
            }
            let row: Vec<u8> = tidy(row, p as usize);
            write(&row, p as usize)
        } else {
            let m: u128 = near(n, UNIT - e);
            proof {
                lemma_fraction_steps(self, p as nat);
            }
            let row: Vec<u8> = tidy(split_digits(m), p as usize);
            write(&row, p as usize)
        }
    }
}

} // verus!

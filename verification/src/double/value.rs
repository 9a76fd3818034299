//! The number type, what its bit patterns stand for, and its order.

use vstd::arithmetic::power2::*;
use vstd::prelude::*;

use super::rounding;
use super::rounding::{HIDDEN, INFINITE};

verus! {

/// The sign bit.
pub const SIGN: u64 = 0x8000_0000_0000_0000;

/// The pattern that stands for "not a number" in results.
pub const QUIET: u64 = 0x7FF8_0000_0000_0000;

/// A binary64 number.  Every bit pattern is a value.
#[derive(Clone, Copy, Debug)]
pub struct Double {
    pub bits: u64,
}

/// The number with the given sign and magnitude bits.
pub open spec fn signed(negative: bool, magnitude: int) -> Double {
    Double {
        bits: (if negative {
            magnitude + SIGN
        } else {
            magnitude
        }) as u64,
    }
}

impl Double {
    /// Whether the sign bit is set.
    pub open spec fn spec_is_negative(self) -> bool {
        self.bits >= SIGN
    }

    /// The bits below the sign bit.
    pub open spec fn mag(self) -> int {
        if self.spec_is_negative() {
            self.bits - SIGN
        } else {
            self.bits as int
        }
    }

    pub open spec fn spec_is_nan(self) -> bool {
        self.mag() > INFINITE
    }

    pub open spec fn is_infinite(self) -> bool {
        self.mag() == INFINITE
    }

    pub open spec fn is_finite(self) -> bool {
        self.mag() < INFINITE
    }

    /// Exponent of a finite number, counted from the smallest.
    pub open spec fn exp(self) -> nat {
        if self.mag() < HIDDEN {
            0
        } else {
            (self.mag() / HIDDEN as int - 1) as nat
        }
    }

    /// Significand of a finite number.
    pub open spec fn sig(self) -> nat {
        (self.mag() - self.exp() * HIDDEN) as nat
    }

    /// Absolute value of a finite number, in units of two to the power -1074.
    pub open spec fn units(self) -> nat {
        self.sig() * pow2(self.exp())
    }

    /// Value of a finite number, in units of two to the power -1074.
    pub open spec fn val(self) -> int {
        if self.spec_is_negative() {
            -self.units()
        } else {
            self.units() as int
        }
    }

    /// Position in the order of the numbers; both zeros are at 0.
    pub open spec fn key(self) -> int {
        if self.spec_is_negative() {
            -self.mag()
        } else {
            self.mag()
        }
    }

    pub open spec fn spec_lt(self, other: Double) -> bool {
        !self.spec_is_nan() && !other.spec_is_nan() && self.key() < other.key()
    }

    pub open spec fn spec_le(self, other: Double) -> bool {
        !self.spec_is_nan() && !other.spec_is_nan() && self.key() <= other.key()
    }

    pub open spec fn spec_same(self, other: Double) -> bool {
        !self.spec_is_nan() && !other.spec_is_nan() && self.key() == other.key()
    }

    pub open spec fn spec_abs(self) -> Double {
        signed(false, self.mag())
    }

    pub open spec fn spec_negated(self) -> Double {
        signed(!self.spec_is_negative(), self.mag())
    }

    pub open spec fn spec_min(self, other: Double) -> Double {
        if self.spec_is_nan() {
            other
        } else if other.spec_lt(self) {
            other
        } else {
            self
        }
    }

    pub open spec fn spec_max(self, other: Double) -> Double {
        if self.spec_is_nan() {
            other
        } else if self.spec_lt(other) {
            other
        } else {
            self
        }
    }

    pub open spec fn spec_clamp(self, low: Double, high: Double) -> Double {
        if self.spec_lt(low) {
            low
        } else if high.spec_lt(self) {
            high
        } else {
            self
        }
    }

    /// The number with this bit pattern.
    pub fn from_bits(bits: u64) -> (r: Double)
        ensures
            r == (Double { bits }),
    {
        Double { bits }
    }

    /// The bit pattern of the number.
    pub fn to_bits(self) -> (r: u64)
        ensures
            r == self.bits,
    {
        self.bits
    }

    /// Whether the sign bit is set.
    #[verifier::when_used_as_spec(spec_is_negative)]
    pub fn is_negative(self) -> (r: bool)
        ensures
            r == self.is_negative(),
    {
        self.bits >= SIGN
    }

    /// The bits below the sign bit.
    pub(crate) fn magnitude(self) -> (r: u64)
        ensures
            r == self.mag(),
    {
        if self.bits >= SIGN {
            self.bits - SIGN
        } else {
            self.bits
        }
    }

    /// Whether this is no number.
    #[verifier::when_used_as_spec(spec_is_nan)]
    pub fn is_nan(self) -> (r: bool)
        ensures
            r == self.is_nan(),
    {
        self.magnitude() > INFINITE
    }

    /// `self < other`; false if either is no number.
    #[verifier::when_used_as_spec(spec_lt)]
    pub fn lt(self, other: Double) -> (r: bool)
        ensures
            r == self.lt(other),
    {
        if self.is_nan() || other.is_nan() {
            false
        } else if self.is_negative() {
            if other.is_negative() {
                other.magnitude() < self.magnitude()
            } else {
                self.magnitude() > 0 || other.magnitude() > 0
            }
        } else {
            !other.is_negative() && self.magnitude() < other.magnitude()
        }
    }

    /// `self <= other`; false if either is no number.
    #[verifier::when_used_as_spec(spec_le)]
    pub fn le(self, other: Double) -> (r: bool)
        ensures
            r == self.le(other),
    {
        !self.is_nan() && !other.is_nan() && !other.lt(self)
    }

    /// `self == other`: the two zeros are equal, "not a number" equals nothing.
    #[verifier::when_used_as_spec(spec_same)]
    pub fn same(self, other: Double) -> (r: bool)
        ensures
            r == self.same(other),
    {
        self.le(other) && other.le(self)
    }

    /// Absolute value: the sign bit cleared.
    #[verifier::when_used_as_spec(spec_abs)]
    pub fn abs(self) -> (r: Double)
        ensures
            r == self.abs(),
    {
        Double { bits: self.magnitude() }
    }

    /// The sign bit flipped.
    #[verifier::when_used_as_spec(spec_negated)]
    pub fn negated(self) -> (r: Double)
        ensures
            r == self.negated(),
    {
        if self.is_negative() {
            Double { bits: self.bits - SIGN }
        } else {
            Double { bits: self.bits + SIGN }
        }
    }

    /// The lesser of two numbers; "not a number" yields to the other.
    #[verifier::when_used_as_spec(spec_min)]
    pub fn min(self, other: Double) -> (r: Double)
        ensures
            r == self.min(other),
    {
        if self.is_nan() {
            other
        } else if other.lt(self) {
            other
        } else {
            self
        }
    }

    /// The greater of two numbers; "not a number" yields to the other.
    #[verifier::when_used_as_spec(spec_max)]
    pub fn max(self, other: Double) -> (r: Double)
        ensures
            r == self.max(other),
    {
        if self.is_nan() {
            other
        } else if self.lt(other) {
            other
        } else {
            self
        }
    }

    /// The nearest number within `low` and `high`.
    #[verifier::when_used_as_spec(spec_clamp)]
    pub fn clamp(self, low: Double, high: Double) -> (r: Double)
        requires
            low.le(high),
        ensures
            r == self.clamp(low, high),
    {
        if self.lt(low) {
            low
        } else if high.lt(self) {
            high
        } else {
            self
        }
    }
}

/// What the fields of a finite number obey, and that the number is its own rounding.
pub proof fn lemma_finite_parts(x: Double)
    requires
        x.is_finite(),
    ensures
        x.sig() < 2 * HIDDEN,
        x.exp() > 0 ==> x.sig() >= HIDDEN,
        x.exp() <= 2045,
        x.mag() == x.exp() * HIDDEN + x.sig(),
        rounding::rounded(x.units(), 1) == x.mag(),
        x.mag() == 0 <==> x.units() == 0,
{
    let m: int = x.mag();
    if m >= HIDDEN {
        assert(m == (m / 0x10_0000_0000_0000) * 0x10_0000_0000_0000 + m % 0x10_0000_0000_0000);
    }
    rounding::lemma_rounded_exact(x.sig(), x.exp());
    lemma_pow2_pos(x.exp());
    let s: int = x.sig() as int;
    let w: int = pow2(x.exp()) as int;
    assert(s * w == 0 <==> s == 0) by (nonlinear_arith)
        requires
            w > 0,
    ;
}

/// The order of finite numbers is the order of their values.
pub proof fn lemma_order(x: Double, y: Double)
    requires
        x.is_finite(),
        y.is_finite(),
    ensures
        x.key() < y.key() <==> x.val() < y.val(),
        x.key() == y.key() <==> x.val() == y.val(),
        x.mag() < y.mag() <==> x.units() < y.units(),
        x.mag() == y.mag() <==> x.units() == y.units(),
{
    lemma_finite_parts(x);
    lemma_finite_parts(y);
    if x.units() <= y.units() {
        rounding::lemma_rounded_monotone(x.units(), 1, y.units(), 1);
    }
    if y.units() <= x.units() {
        rounding::lemma_rounded_monotone(y.units(), 1, x.units(), 1);
    }
}

} // verus!

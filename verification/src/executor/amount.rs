//! Decimal amounts, as the exchange takes them.

use vstd::prelude::*;

use crate::double::{decimal, laws, rounding};

verus! {

/// The greatest mantissa of an amount: two to the power 96, less one.
pub const MAX_MANTISSA: i128 = 0xFFFF_FFFF_FFFF_FFFF_FFFF_FFFF;

/// The most decimal places of an amount.
pub const MAX_SCALE: u32 = 28;

/// Decimal places of the prices and sizes that are sent: ticks are cents, and lots are hundredths
/// of a share.
pub const PLACES: u32 = 2;

/// A decimal number: the mantissa, divided by ten to the power of the scale.
#[derive(Clone, Copy, Debug, PartialEq, Eq, Structural)]
pub struct Amount {
    pub mantissa: i128,
    pub scale: u32,
}

impl Amount {
    /// Whether the number is one that 96 bits and 28 decimal places can hold.
    pub open spec fn wf(self) -> bool {
        &&& -MAX_MANTISSA <= self.mantissa <= MAX_MANTISSA
        &&& self.scale <= MAX_SCALE
    }

    /// Builds an amount, unless it is out of range.
    pub fn new(mantissa: i128, scale: u32) -> (r: Option<Amount>)
        ensures
            r is Some <==> (Amount { mantissa, scale }).wf(),
            r matches Some(a) ==> a == (Amount { mantissa, scale }),
    {
        if -MAX_MANTISSA <= mantissa && mantissa <= MAX_MANTISSA && scale <= MAX_SCALE {
            Some(Amount { mantissa, scale })
        } else {
            None
        }
    }
}

/// The integer nearest to `m / q`; a tie goes to the even neighbour.
pub open spec fn half_even(m: int, q: nat) -> int {
    if m < 0 {
        -rounding::nearest_even((-m) as nat, q)
    } else {
        rounding::nearest_even(m as nat, q) as int
    }
}

/// The mantissa and the scale of an amount that is rounded to so many decimal places: one that
/// has no more of them stays as it is.
pub open spec fn rounded_to(mantissa: int, scale: u32, places: u32) -> (int, u32) {
    if scale <= places {
        (mantissa, scale)
    } else {
        (half_even(mantissa, decimal::ten((scale - places) as nat)), places)
    }
}

/// `rust_decimal::Decimal::round_dp`: rounds to the nearest number with at most so many decimal
/// places, and a tie to the one with an even last digit. The number is handed over and back as
/// its mantissa and its scale.
#[verifier::external_body]
fn round_dp(mantissa: i128, scale: u32, places: u32) -> (r: (i128, u32))
    requires
        -MAX_MANTISSA <= mantissa <= MAX_MANTISSA,
        scale <= MAX_SCALE,
    ensures
        r.0 as int == rounded_to(mantissa as int, scale, places).0,
        r.1 == rounded_to(mantissa as int, scale, places).1,
{
    let d = rust_decimal::Decimal::from_i128_with_scale(mantissa, scale).round_dp(places);
    (d.mantissa(), d.scale())
}

/// The price or the size that is sent for an amount: rounded to two decimal places.
pub fn order_amount(mantissa: i128, scale: u32) -> (r: (i128, u32))
    requires
        -MAX_MANTISSA <= mantissa <= MAX_MANTISSA,
        scale <= MAX_SCALE,
    ensures
        scale <= PLACES ==> r == (mantissa, scale),
        scale > PLACES ==> r.1 == PLACES && r.0 as int == half_even(
            mantissa as int,
            decimal::ten((scale - PLACES) as nat),
        ),
{
    round_dp(mantissa, scale, PLACES)
}

/// What is sent for an amount.
pub open spec fn sent(a: Amount) -> Amount {
    let (mantissa, scale) = rounded_to(a.mantissa as int, a.scale, PLACES);
    Amount { mantissa: mantissa as i128, scale }
}

/// What is sent for an amount.
pub(crate) fn send_amount(a: Amount) -> (r: Amount)
    requires
        a.wf(),
    ensures
        r == sent(a),
{
    let (mantissa, scale): (i128, u32) = order_amount(a.mantissa, a.scale);
    Amount { mantissa, scale }
}

/// Ten to some power is above zero.
proof fn lemma_ten(p: nat)
    ensures
        decimal::ten(p) > 0,
    decreases p,
{
    if p > 0 {
        lemma_ten((p - 1) as nat);
    }
}

/// What is sent has no more than two decimal places, is within half a cent of the amount, and
/// does not change when it is rounded once more.
pub proof fn sent_amounts_are_close(a: Amount)
    requires
        a.wf(),
    ensures
        sent(a).scale <= PLACES,
        a.scale <= PLACES ==> sent(a) == a,
        a.scale > PLACES ==> ({
            let step = decimal::ten((a.scale - PLACES) as nat);
            let m = half_even(a.mantissa as int, step);
            &&& -(step as int) <= 2 * (m * step - a.mantissa) <= step
            &&& sent(a).mantissa == m
        }),
        sent(sent(a)) == sent(a),
        sent(a).wf(),
{
    if a.scale > PLACES {
        let step = decimal::ten((a.scale - PLACES) as nat);
        lemma_ten((a.scale - PLACES) as nat);
        let size: nat = if a.mantissa < 0 {
            (-(a.mantissa as int)) as nat
        } else {
            a.mantissa as nat
        };
        laws::lemma_nearest_error(size, step);
        let n = rounding::nearest_even(size, step);
        let m = half_even(a.mantissa as int, step);
        assert(m * step == (if a.mantissa < 0 {
            -(n * step)
        } else {
            (n * step) as int
        })) by (nonlinear_arith)
            requires
                m == (if a.mantissa < 0 {
                    -(n as int)
                } else {
                    n as int
                }),
        ;
        lemma_step((a.scale - PLACES) as nat);
        assert(n <= size) by (nonlinear_arith)
            requires
                2 * (n * step) <= 2 * size + step,
                step >= 10,
        ;
    }
}

/// Ten to a power other than the zeroth is ten at least.
proof fn lemma_step(p: nat)
    requires
        p > 0,
    ensures
        decimal::ten(p) >= 10,
{
    lemma_ten((p - 1) as nat);
}

} // verus!

//! Decimal numbers: a signed integer mantissa and the number of its digits
//! that follow the decimal point. The arithmetic on them, which rounds, is
//! that of `rust_decimal`; what it returns is named here, not restated. How
//! a number is written out is stated.

use vstd::prelude::*;
use vstd::arithmetic::div_mod::{
    lemma_basic_div,
    lemma_div_denominator,
    lemma_fundamental_div_mod,
};
use std::str::FromStr;
use rust_decimal::MathematicalOps;
use crate::ascii::{ascii_text, decimal_digits, low_decimal_digits};

verus! {

/// The largest mantissa that `rust_decimal` holds: 96 bits.
pub const MAX_MANTISSA: u128 = 0xFFFF_FFFF_FFFF_FFFF_FFFF_FFFF;

/// The largest scale that `rust_decimal` holds.
pub const MAX_SCALE: u32 = 28;

/// The decimal number `mantissa / 10^scale`.
#[derive(Debug, Clone, Copy, PartialEq, Eq, Structural)]
pub struct DecimalNumber {
    pub mantissa: i128,
    pub scale: u32,
}

/// 10 to the power `n`.
pub open spec fn pow10(n: nat) -> nat
    decreases n,
{
    if n == 0 {
        1
    } else {
        10 * pow10((n - 1) as nat)
    }
}

/// Powers of 10 are positive and grow with the exponent.
pub proof fn lemma_pow10_monotone(m: nat, n: nat)
    requires
        m <= n,
    ensures
        0 < pow10(m) <= pow10(n),
    decreases n,
{
    if n == 0 {
    } else if m == n {
        lemma_pow10_monotone((m - 1) as nat, (n - 1) as nat);
    } else {
        lemma_pow10_monotone(m, (n - 1) as nat);
    }
}

impl DecimalNumber {
    /// Whether `rust_decimal` holds the number as it stands.
    pub open spec fn fits(self) -> bool {
        self.scale <= MAX_SCALE && -(MAX_MANTISSA as int) <= self.mantissa <= MAX_MANTISSA as int
    }

    /// The number written out, as ASCII bytes: a minus sign if it is
    /// negative, the digits of its whole part, and where the scale is not
    /// zero, a point and as many digits as the scale says, zeros at the end
    /// included.
    pub open spec fn ascii(self) -> Seq<u8> {
        let magnitude = (if self.mantissa < 0 {
            -self.mantissa
        } else {
            self.mantissa as int
        }) as nat;
        let unit = pow10(self.scale as nat);
        let sign = if self.mantissa < 0 {
            seq![45u8]
        } else {
            Seq::empty()
        };
        if self.scale == 0 {
            sign + decimal_digits(magnitude)
        } else {
            sign + decimal_digits(magnitude / unit) + seq![46u8] + low_decimal_digits(
                magnitude % unit,
                self.scale as nat,
            )
        }
    }

    /// The number as text, where `rust_decimal` holds it.
    pub fn to_text(&self) -> (text: Option<String>)
        ensures
            match text {
                Some(t) => decimal_text(*self) == Some(t@),
                None => decimal_text(*self) is None,
            },
    {
        decimal_to_string(*self)
    }

    /// The largest integer that is not above the number.
    pub open spec fn floor(self) -> int {
        self.mantissa as int / pow10(self.scale as nat) as int
    }

    /// The floor of the number where a `u64` holds it, and the largest `u64`
    /// where none does: above the range and below zero alike.
    pub open spec fn saturating_floor(self) -> u64 {
        if 0 <= self.floor() <= u64::MAX {
            self.floor() as u64
        } else {
            u64::MAX
        }
    }

    /// The integer `value`, with no digits after the point.
    pub fn from_u64(value: u64) -> (number: DecimalNumber)
        ensures
            number == (DecimalNumber { mantissa: value as i128, scale: 0 }),
    {
        DecimalNumber { mantissa: value as i128, scale: 0 }
    }

    /// The floor of the number as a `u64`, saturated.
    pub fn floor_to_u64(&self) -> (floor: u64)
        ensures
            floor == self.saturating_floor(),
    {
        if self.mantissa < 0 {
            proof {
                let d = pow10(self.scale as nat) as int;
                lemma_pow10_monotone(0, self.scale as nat);
                lemma_fundamental_div_mod(self.mantissa as int, d);
                assert(self.mantissa as int / d < 0) by (nonlinear_arith)
                    requires
                        self.mantissa as int == d * (self.mantissa as int / d) + (self.mantissa as int
                            % d),
                        self.mantissa < 0,
                        0 <= self.mantissa as int % d < d,
                ;
            }
            return u64::MAX;
        }
        let mut quotient: u128 = self.mantissa as u128;
        let mut dropped: u32 = 0;
        proof {
            assert(pow10(0) == 1);
        }
        while dropped < self.scale && quotient != 0
            invariant
                dropped <= self.scale,
                self.mantissa >= 0,
                quotient as int == self.mantissa as int / pow10(dropped as nat) as int,
            decreases self.scale - dropped,
        {
            proof {
                lemma_pow10_monotone(0, dropped as nat);
                lemma_div_denominator(self.mantissa as int, pow10(dropped as nat) as int, 10);
                assert(pow10((dropped + 1) as nat) == 10 * pow10(dropped as nat));
                assert(pow10(dropped as nat) as int * 10 == pow10((dropped + 1) as nat) as int);
            }
            quotient = quotient / 10;
            dropped = dropped + 1;
        }
        proof {
            if dropped < self.scale {
                let small = pow10(dropped as nat) as int;
                let large = pow10(self.scale as nat) as int;
                lemma_pow10_monotone(dropped as nat, self.scale as nat);
                lemma_fundamental_div_mod(self.mantissa as int, small);
                assert(self.mantissa as int == self.mantissa as int % small) by (nonlinear_arith)
                    requires
                        self.mantissa as int == small * (self.mantissa as int / small) + (
                        self.mantissa as int % small),
                        self.mantissa as int / small == 0,
                ;
                lemma_basic_div(self.mantissa as int, large);
            }
        }
        if quotient > u64::MAX as u128 {
            u64::MAX
        } else {
            quotient as u64
        }
    }
}

/// The number that a text spells, as `rust_decimal` reads it, or `None` where
/// it reads none.
pub uninterp spec fn decimal_parsed(text: Seq<char>) -> Option<DecimalNumber>;

/// The text that `rust_decimal` writes for a number, or `None` where it
/// cannot hold the number.
pub open spec fn decimal_text(value: DecimalNumber) -> Option<Seq<char>> {
    if value.fits() {
        Some(ascii_text(value.ascii()))
    } else {
        None
    }
}

/// The product of two numbers as `rust_decimal` rounds it, or `None` where
/// it cannot hold one of the three.
pub uninterp spec fn decimal_product(a: DecimalNumber, b: DecimalNumber) -> Option<DecimalNumber>;

/// The quotient of two numbers as `rust_decimal` rounds it, or `None` where
/// the divisor is zero or it cannot hold one of the three.
pub uninterp spec fn decimal_quotient(a: DecimalNumber, b: DecimalNumber) -> Option<DecimalNumber>;

/// `base` to a power that is not negative, as `rust_decimal` rounds it, or
/// `None` where it cannot hold the base or the power.
pub uninterp spec fn decimal_power(base: DecimalNumber, exponent: u64) -> Option<DecimalNumber>;

/// `base` to a power that may be negative, as `rust_decimal` rounds it, or
/// `None` where it cannot hold the base or the power.
pub uninterp spec fn decimal_signed_power(base: DecimalNumber, exponent: i64) -> Option<
    DecimalNumber,
>;

/// Calls `Decimal::from_str` of `rust_decimal`. The claim: the text alone
/// determines whether a number is read and which.
#[verifier::external_body]
pub(crate) fn decimal_from_str(text: &str) -> (number: Option<DecimalNumber>)
    ensures
        number == decimal_parsed(text@),
{
    match rust_decimal::Decimal::from_str(text) {
        Ok(d) => Some(DecimalNumber { mantissa: d.mantissa(), scale: d.scale() }),
        Err(_) => None,
    }
}

/// Calls `to_string` on a `Decimal` of `rust_decimal`, where that type holds
/// the number. The claim: the type holds the number where the mantissa has
/// at most 96 bits and the scale is at most 28, and the text is then what
/// `decimal_text` says: sign, whole part, and where the scale is not zero,
/// a point and `scale` digits.
#[verifier::external_body]
pub(crate) fn decimal_to_string(value: DecimalNumber) -> (text: Option<String>)
    ensures
        match text {
            Some(t) => decimal_text(value) == Some(t@),
            None => decimal_text(value) is None,
        },
{
    let d = rust_decimal::Decimal::try_from_i128_with_scale(value.mantissa, value.scale).ok()?;
    Some(d.to_string())
}

/// Calls `Decimal::checked_mul` of `rust_decimal`. The claim: the two
/// numbers alone determine whether there is a product and which.
#[verifier::external_body]
pub(crate) fn decimal_checked_mul(a: DecimalNumber, b: DecimalNumber) -> (product: Option<
    DecimalNumber,
>)
    ensures
        product == decimal_product(a, b),
{
    let x = rust_decimal::Decimal::try_from_i128_with_scale(a.mantissa, a.scale).ok()?;
    let y = rust_decimal::Decimal::try_from_i128_with_scale(b.mantissa, b.scale).ok()?;
    let z = x.checked_mul(y)?;
    Some(DecimalNumber { mantissa: z.mantissa(), scale: z.scale() })
}

/// Calls `Decimal::checked_div` of `rust_decimal`. The claim: the two
/// numbers alone determine whether there is a quotient and which.
#[verifier::external_body]
pub(crate) fn decimal_checked_div(a: DecimalNumber, b: DecimalNumber) -> (quotient: Option<
    DecimalNumber,
>)
    ensures
        quotient == decimal_quotient(a, b),
{
    let x = rust_decimal::Decimal::try_from_i128_with_scale(a.mantissa, a.scale).ok()?;
    let y = rust_decimal::Decimal::try_from_i128_with_scale(b.mantissa, b.scale).ok()?;
    let z = x.checked_div(y)?;
    Some(DecimalNumber { mantissa: z.mantissa(), scale: z.scale() })
}

/// Calls `MathematicalOps::checked_powu` of `rust_decimal`. The claim: the
/// base and the exponent alone determine whether there is a power and
/// which.
#[verifier::external_body]
pub(crate) fn decimal_checked_powu(base: DecimalNumber, exponent: u64) -> (power: Option<
    DecimalNumber,
>)
    ensures
        power == decimal_power(base, exponent),
{
    let x = rust_decimal::Decimal::try_from_i128_with_scale(base.mantissa, base.scale).ok()?;
    let z = x.checked_powu(exponent)?;
    Some(DecimalNumber { mantissa: z.mantissa(), scale: z.scale() })
}

/// Calls `MathematicalOps::checked_powi` of `rust_decimal`. The claim: the
/// base and the exponent alone determine whether there is a power and
/// which.
#[verifier::external_body]
pub(crate) fn decimal_checked_powi(base: DecimalNumber, exponent: i64) -> (power: Option<
    DecimalNumber,
>)
    ensures
        power == decimal_signed_power(base, exponent),
{
    let x = rust_decimal::Decimal::try_from_i128_with_scale(base.mantissa, base.scale).ok()?;
    let z = x.checked_powi(exponent)?;
    Some(DecimalNumber { mantissa: z.mantissa(), scale: z.scale() })
}

} // verus!

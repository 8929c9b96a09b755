//! The price of a pool and the least output that a trade must bring.

use vstd::prelude::*;
use crate::decimal::{
    decimal_checked_div,
    decimal_checked_mul,
    decimal_checked_powi,
    decimal_checked_powu,
    decimal_from_str,
    decimal_parsed,
    decimal_power,
    decimal_product,
    decimal_quotient,
    decimal_signed_power,
    decimal_text,
    DecimalNumber,
    MAX_MANTISSA,
};
use crate::error::DomainError;

verus! {

/// The fee rate that stands for the whole amount.
pub const FEE_RATE_UNIT: u64 = 1_000_000;

/// The slippage that stands for the whole amount, in percent.
pub const SLIPPAGE_UNIT: u16 = 100;

/// The integer `n` as a decimal number.
pub open spec fn whole(n: int) -> DecimalNumber {
    DecimalNumber { mantissa: n as i128, scale: 0 }
}

/// `quotient(a, b)` where both are known.
pub open spec fn quotient_of(a: Option<DecimalNumber>, b: Option<DecimalNumber>) -> Option<
    DecimalNumber,
> {
    match (a, b) {
        (Some(x), Some(y)) => decimal_quotient(x, y),
        _ => None,
    }
}

/// `product(a, b)` where both are known.
pub open spec fn product_of(a: Option<DecimalNumber>, b: Option<DecimalNumber>) -> Option<
    DecimalNumber,
> {
    match (a, b) {
        (Some(x), Some(y)) => decimal_product(x, y),
        _ => None,
    }
}

/// `power(base, exponent)` where the base is known.
pub open spec fn power_of(base: Option<DecimalNumber>, exponent: u64) -> Option<DecimalNumber> {
    match base {
        Some(x) => decimal_power(x, exponent),
        None => None,
    }
}

/// The power of ten by which a raw price is scaled: the decimals of token A
/// less those of token B.
pub open spec fn price_exponent(decimals_a: i8, decimals_b: i8) -> int {
    decimals_a - decimals_b
}

/// The price of token A in token B: the square of `sqrt_price_x64 / 2^64`,
/// times ten to the `price_exponent`. `None` where a step has no result.
pub open spec fn price_from_sqrt_price(sqrt_price_x64: u128, decimals_a: i8, decimals_b: i8)
    -> Option<DecimalNumber> {
    if sqrt_price_x64 > MAX_MANTISSA {
        None
    } else {
        let ratio = quotient_of(Some(whole(sqrt_price_x64 as int)), decimal_power(whole(2), 64));
        let raw = power_of(ratio, 2);
        let shift = decimal_signed_power(
            whole(10),
            price_exponent(decimals_a, decimals_b) as i64,
        );
        product_of(raw, shift)
    }
}

/// The text of the price of token A in token B.
pub open spec fn price_text(sqrt_price_x64: u128, decimals_a: i8, decimals_b: i8) -> Option<
    Seq<char>,
> {
    match price_from_sqrt_price(sqrt_price_x64, decimals_a, decimals_b) {
        Some(price) => decimal_text(price),
        None => None,
    }
}

/// The fee taken from a trade, in millionths of the amount: the pool's fee
/// and the protocol's share of it, the share rounded down.
pub open spec fn spec_total_fee_rate(fee_rate: u16, protocol_fee_rate: u16) -> int {
    fee_rate + (fee_rate * protocol_fee_rate) / 100
}

/// The least amount of the other token that a trade of `amount` must bring
/// at `price`, before it is cut to an integer: what is left of the amount
/// after the fee, times the price, less the slippage.
pub open spec fn output_with_slippage(
    price: DecimalNumber,
    amount: u64,
    slippage: u16,
    total_fee_rate: int,
) -> Option<DecimalNumber> {
    let fee_factor = decimal_quotient(
        whole(FEE_RATE_UNIT - total_fee_rate),
        whole(FEE_RATE_UNIT as int),
    );
    let after_fee = product_of(Some(whole(amount as int)), fee_factor);
    let output = product_of(after_fee, Some(price));
    let slippage_factor = decimal_quotient(
        whole(SLIPPAGE_UNIT - slippage),
        whole(SLIPPAGE_UNIT as int),
    );
    product_of(output, slippage_factor)
}

/// The integer that is handed to the pool as the least acceptable output:
/// the floor of the amount, and the largest `u64` where the amount is not
/// known or a `u64` cannot hold its floor.
pub open spec fn spec_least_output(amount: Option<DecimalNumber>) -> u64 {
    match amount {
        Some(a) => a.saturating_floor(),
        None => u64::MAX,
    }
}

/// What `calculate_token_b_amount` returns.
pub open spec fn token_b_amount(
    price: Seq<char>,
    amount_a: u64,
    slippage: u16,
    fee_rate: u16,
    protocol_fee_rate: u16,
) -> Result<u64, DomainError> {
    match decimal_parsed(price) {
        None => Err(DomainError::InvalidPrice),
        Some(p) => if spec_total_fee_rate(fee_rate, protocol_fee_rate) >= FEE_RATE_UNIT {
            Err(DomainError::FeeRateTooLarge)
        } else if slippage >= SLIPPAGE_UNIT {
            Err(DomainError::SlippageTooLarge)
        } else {
            Ok(
                spec_least_output(
                    output_with_slippage(
                        p,
                        amount_a,
                        slippage,
                        spec_total_fee_rate(fee_rate, protocol_fee_rate),
                    ),
                ),
            )
        },
    }
}

/// The fee taken from a trade, in millionths of the amount.
pub fn total_fee_rate(fee_rate: u16, protocol_fee_rate: u16) -> (total: u64)
    ensures
        total == spec_total_fee_rate(fee_rate, protocol_fee_rate),
{
    assert(fee_rate * protocol_fee_rate <= 65535 * 65535) by (nonlinear_arith)
        requires
            fee_rate <= 65535,
            protocol_fee_rate <= 65535,
    ;
    fee_rate as u64 + (fee_rate as u64 * protocol_fee_rate as u64) / 100
}

/// The least acceptable output for an amount that may not be known.
pub fn least_output(amount: Option<DecimalNumber>) -> (least: u64)
    ensures
        least == spec_least_output(amount),
{
    match amount {
        Some(a) => a.floor_to_u64(),
        None => u64::MAX,
    }
}

/// The price of token A in token B, as text, for a pool whose square root
/// price is `sqrt_price_x64` in 64.64 fixed point.
pub fn pricemath_sqrt_price_x64_to_price(sqrt_price_x64: u128, decimals_a: i8, decimals_b: i8) -> (r:
    Result<String, DomainError>)
    ensures
        match r {
            Ok(text) => price_text(sqrt_price_x64, decimals_a, decimals_b) == Some(text@),
            Err(e) => e == DomainError::PriceOutOfRange && price_text(
                sqrt_price_x64,
                decimals_a,
                decimals_b,
            ) is None,
        },
{
    if sqrt_price_x64 > MAX_MANTISSA {
        return Err(DomainError::PriceOutOfRange);
    }
    let sqrt_price = DecimalNumber { mantissa: sqrt_price_x64 as i128, scale: 0 };
    let two = DecimalNumber { mantissa: 2, scale: 0 };
    let ten = DecimalNumber { mantissa: 10, scale: 0 };
    let exponent: i64 = decimals_a as i64 - decimals_b as i64;
    let unit = decimal_checked_powu(two, 64);
    let shift = decimal_checked_powi(ten, exponent);
    let price = match (unit, shift) {
        (Some(u), Some(s)) => match decimal_checked_div(sqrt_price, u) {
            Some(ratio) => match decimal_checked_powu(ratio, 2) {
                Some(raw) => decimal_checked_mul(raw, s),
                None => None,
            },
            None => None,
        },
        _ => None,
    };
    match price {
        Some(p) => match p.to_text() {
            Some(text) => Ok(text),
            None => Err(DomainError::PriceOutOfRange),
        },
        None => Err(DomainError::PriceOutOfRange),
    }
}

/// The least amount of token B to accept for `amount_a` of token A at
/// `price`, after the pool's fees and with `slippage` percent given up.
pub fn calculate_token_b_amount(
    price: &str,
    amount_a: u64,
    slippage: u16,
    fee_rate: u16,
    protocol_fee_rate: u16,
) -> (r: Result<u64, DomainError>)
    ensures
        r == token_b_amount(price@, amount_a, slippage, fee_rate, protocol_fee_rate),
{
    let price = match decimal_from_str(price) {
        Some(p) => p,
        None => {
            return Err(DomainError::InvalidPrice);
        },
    };
    let amount_a_decimal = DecimalNumber::from_u64(amount_a);
    let total = total_fee_rate(fee_rate, protocol_fee_rate);
    if total >= FEE_RATE_UNIT {
        return Err(DomainError::FeeRateTooLarge);
    }
    if slippage >= SLIPPAGE_UNIT {
        return Err(DomainError::SlippageTooLarge);
    }
    let fee_factor = decimal_checked_div(
        DecimalNumber::from_u64(FEE_RATE_UNIT - total),
        DecimalNumber::from_u64(FEE_RATE_UNIT),
    );
    let slippage_factor = decimal_checked_div(
        DecimalNumber::from_u64((SLIPPAGE_UNIT - slippage) as u64),
        DecimalNumber::from_u64(SLIPPAGE_UNIT as u64),
    );
    let amount_b_with_slippage = match (fee_factor, slippage_factor) {
        (Some(fee), Some(slip)) => match decimal_checked_mul(amount_a_decimal, fee) {
            Some(after_fee) => match decimal_checked_mul(after_fee, price) {
                Some(amount_b) => decimal_checked_mul(amount_b, slip),
                None => None,
            },
            None => None,
        },
        _ => None,
    };
    Ok(least_output(amount_b_with_slippage))
}

} // verus!

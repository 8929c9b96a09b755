use rust_decimal::prelude::ToPrimitive;
use rust_decimal::Decimal;
use whirlpool_swap::decimal::DecimalNumber;
use whirlpool_swap::error::DomainError;
use whirlpool_swap::quote::{
    calculate_token_b_amount, least_output, pricemath_sqrt_price_x64_to_price, total_fee_rate,
};

#[test]
fn price_of_unit_sqrt_price_scales_by_decimals() {
    let price = pricemath_sqrt_price_x64_to_price(1u128 << 64, 9, 6).unwrap();
    println!("price {}", price);
    assert_eq!(price, "1000");
}

#[test]
fn price_with_equal_decimals_is_the_square() {
    let price = pricemath_sqrt_price_x64_to_price(3u128 << 64, 6, 6).unwrap();
    assert_eq!(price, "9");
}

#[test]
fn price_scales_down_for_fewer_decimals_in() {
    let price = pricemath_sqrt_price_x64_to_price(1u128 << 64, 6, 9).unwrap();
    assert_eq!(price, "0.001");
}

#[test]
fn price_of_half_sqrt_price_is_a_quarter() {
    let price = pricemath_sqrt_price_x64_to_price(1u128 << 63, 0, 0).unwrap();
    assert_eq!(price, "0.2500");
}

#[test]
fn price_of_sqrt_price_beyond_96_bits_is_out_of_range() {
    assert_eq!(
        pricemath_sqrt_price_x64_to_price(1u128 << 96, 9, 6),
        Err(DomainError::PriceOutOfRange)
    );
    assert_eq!(
        pricemath_sqrt_price_x64_to_price(u128::MAX, 0, 0),
        Err(DomainError::PriceOutOfRange)
    );
}

#[test]
fn price_with_unrepresentable_scale_is_out_of_range() {
    assert_eq!(
        pricemath_sqrt_price_x64_to_price(1u128 << 64, 127, -128),
        Err(DomainError::PriceOutOfRange)
    );
    assert_eq!(
        pricemath_sqrt_price_x64_to_price(1u128 << 64, -128, 127),
        Err(DomainError::PriceOutOfRange)
    );
}

#[test]
fn least_output_without_fee() {
    assert_eq!(calculate_token_b_amount("1000", 3000_00, 10, 0, 0), Ok(270_000_000));
}

#[test]
fn total_fee_rate_adds_protocol_share() {
    assert_eq!(total_fee_rate(3000, 10), 3300);
    assert_eq!(total_fee_rate(0, 10), 0);
    assert_eq!(total_fee_rate(3000, 0), 3000);
    assert_eq!(total_fee_rate(1, 99), 1);
    assert_eq!(total_fee_rate(65535, 65535), 65535 + 42948362);
}

#[test]
fn least_output_with_fee() {
    // 1_000_000 * 996700 / 1000000 = 996700
    assert_eq!(calculate_token_b_amount("1", 1_000_000, 0, 3000, 10), Ok(996_700));
    // 996700 * 2.5 * 0.95 = 2367162.5
    assert_eq!(calculate_token_b_amount("2.5", 1_000_000, 5, 3000, 10), Ok(2_367_162));
}

#[test]
fn least_output_rounds_down() {
    assert_eq!(calculate_token_b_amount("0.3333", 10, 0, 0, 0), Ok(3));
    assert_eq!(calculate_token_b_amount("0.9999", 1, 0, 0, 0), Ok(0));
    assert_eq!(calculate_token_b_amount("1000", 0, 10, 3000, 10), Ok(0));
}

#[test]
fn fee_rate_of_the_whole_amount_is_rejected() {
    // 10000 + 10000 * 9900 / 100 = 1_000_000
    assert_eq!(total_fee_rate(10000, 9900), 1_000_000);
    assert_eq!(
        calculate_token_b_amount("1", 1, 0, 10000, 9900),
        Err(DomainError::FeeRateTooLarge)
    );
    assert_eq!(
        calculate_token_b_amount("1", 1, 0, 65535, 65535),
        Err(DomainError::FeeRateTooLarge)
    );
    // 9999 + 9999 * 9900 / 100 = 999_900
    assert_eq!(calculate_token_b_amount("1", 1_000_000, 0, 9999, 9900), Ok(100));
}

#[test]
fn slippage_of_the_whole_amount_is_rejected() {
    assert_eq!(
        calculate_token_b_amount("1", 1, 100, 0, 0),
        Err(DomainError::SlippageTooLarge)
    );
    assert_eq!(
        calculate_token_b_amount("1", 1, u16::MAX, 0, 0),
        Err(DomainError::SlippageTooLarge)
    );
    assert_eq!(calculate_token_b_amount("1", 100, 99, 0, 0), Ok(1));
}

#[test]
fn price_that_is_no_number_is_rejected() {
    assert_eq!(calculate_token_b_amount("", 1, 0, 0, 0), Err(DomainError::InvalidPrice));
    assert_eq!(calculate_token_b_amount("abc", 1, 0, 0, 0), Err(DomainError::InvalidPrice));
    assert_eq!(calculate_token_b_amount("1.2.3", 1, 0, 0, 0), Err(DomainError::InvalidPrice));
    // the price is looked at first
    assert_eq!(calculate_token_b_amount("x", 1, 100, 65535, 65535), Err(DomainError::InvalidPrice));
    // then the fee
    assert_eq!(
        calculate_token_b_amount("1", 1, 100, 65535, 65535),
        Err(DomainError::FeeRateTooLarge)
    );
}

#[test]
fn least_output_saturates() {
    assert_eq!(
        calculate_token_b_amount("79228162514264337593543950335", u64::MAX, 0, 0, 0),
        Ok(u64::MAX)
    );
    assert_eq!(calculate_token_b_amount("2", u64::MAX, 0, 0, 0), Ok(u64::MAX));
    assert_eq!(calculate_token_b_amount("1", u64::MAX, 0, 0, 0), Ok(u64::MAX));
    assert_eq!(calculate_token_b_amount("1", u64::MAX - 1, 0, 0, 0), Ok(u64::MAX - 1));
    assert_eq!(calculate_token_b_amount("-1", 5, 0, 0, 0), Ok(u64::MAX));
}

#[test]
fn least_output_of_a_decimal() {
    assert_eq!(least_output(None), u64::MAX);
    assert_eq!(least_output(Some(DecimalNumber { mantissa: 0, scale: 0 })), 0);
    assert_eq!(least_output(Some(DecimalNumber { mantissa: 12345, scale: 2 })), 123);
    assert_eq!(least_output(Some(DecimalNumber { mantissa: 12399, scale: 2 })), 123);
    assert_eq!(least_output(Some(DecimalNumber { mantissa: 99, scale: 2 })), 0);
    assert_eq!(least_output(Some(DecimalNumber { mantissa: 5, scale: 40 })), 0);
    assert_eq!(least_output(Some(DecimalNumber { mantissa: 5, scale: u32::MAX })), 0);
    assert_eq!(least_output(Some(DecimalNumber { mantissa: -1, scale: 2 })), u64::MAX);
    assert_eq!(least_output(Some(DecimalNumber { mantissa: -100, scale: 0 })), u64::MAX);
    assert_eq!(
        least_output(Some(DecimalNumber { mantissa: u64::MAX as i128, scale: 0 })),
        u64::MAX
    );
    assert_eq!(
        least_output(Some(DecimalNumber { mantissa: u64::MAX as i128 * 10 + 9, scale: 1 })),
        u64::MAX
    );
    assert_eq!(
        least_output(Some(DecimalNumber { mantissa: (u64::MAX as i128 - 1) * 10 + 9, scale: 1 })),
        u64::MAX - 1
    );
    assert_eq!(
        least_output(Some(DecimalNumber { mantissa: u64::MAX as i128 + 1, scale: 0 })),
        u64::MAX
    );
    assert_eq!(least_output(Some(DecimalNumber { mantissa: i128::MAX, scale: 0 })), u64::MAX);
    assert_eq!(least_output(Some(DecimalNumber { mantissa: i128::MAX, scale: 38 })), 1);
    assert_eq!(DecimalNumber::from_u64(7), DecimalNumber { mantissa: 7, scale: 0 });
}

#[test]
fn least_output_agrees_with_floor_and_conversion_of_the_decimal_type() {
    let mantissas: [i128; 12] = [
        0,
        1,
        9,
        10,
        12345,
        99999,
        u64::MAX as i128,
        u64::MAX as i128 + 1,
        (u64::MAX as i128) * 1000 + 999,
        79228162514264337593543950335,
        -1,
        -12345,
    ];
    for mantissa in mantissas {
        for scale in [0u32, 1, 2, 3, 5, 19, 20, 28] {
            let expected = Decimal::from_i128_with_scale(mantissa, scale)
                .floor()
                .to_u64()
                .unwrap_or(u64::MAX);
            assert_eq!(least_output(Some(DecimalNumber { mantissa, scale })), expected);
        }
    }
    for value in [0u64, 1, 1_000_000, u64::MAX] {
        let decimal = Decimal::from(value);
        assert_eq!(
            DecimalNumber::from_u64(value),
            DecimalNumber { mantissa: decimal.mantissa(), scale: decimal.scale() }
        );
    }
}

#[test]
fn price_agrees_with_the_decimal_type_read_from_text() {
    for sqrt_price in [1u128, 7, 1 << 32, (1 << 64) + 12345, 79228162514264337593543950335] {
        let read: Decimal = sqrt_price.to_string().parse().unwrap();
        assert_eq!(read.mantissa(), sqrt_price as i128);
        assert_eq!(read.scale(), 0);
        assert!(pricemath_sqrt_price_x64_to_price(sqrt_price, 9, 6).is_ok());
    }
    assert!((1u128 << 96).to_string().parse::<Decimal>().is_err());
}

fn written_out(mantissa: i128, scale: u32) -> String {
    let magnitude = mantissa.unsigned_abs();
    let unit = 10u128.pow(scale);
    let mut text = String::new();
    if mantissa < 0 {
        text.push('-');
    }
    text += &(magnitude / unit).to_string();
    if scale > 0 {
        text.push('.');
        text += &format!("{:0width$}", magnitude % unit, width = scale as usize);
    }
    text
}

#[test]
fn text_of_a_decimal_number() {
    let text = |mantissa: i128, scale: u32| DecimalNumber { mantissa, scale }.to_text();
    assert_eq!(text(0, 0), Some("0".to_string()));
    assert_eq!(text(0, 3), Some("0.000".to_string()));
    assert_eq!(text(1000, 0), Some("1000".to_string()));
    assert_eq!(text(2500, 4), Some("0.2500".to_string()));
    assert_eq!(text(25, 4), Some("0.0025".to_string()));
    assert_eq!(text(12345, 2), Some("123.45".to_string()));
    assert_eq!(text(-12345, 2), Some("-123.45".to_string()));
    assert_eq!(text(-5, 1), Some("-0.5".to_string()));
    assert_eq!(text(-7, 0), Some("-7".to_string()));
    assert_eq!(text(1, 28), Some("0.0000000000000000000000000001".to_string()));
    assert_eq!(
        text(79228162514264337593543950335, 28),
        Some("7.9228162514264337593543950335".to_string())
    );
    assert_eq!(
        text(-79228162514264337593543950335, 0),
        Some("-79228162514264337593543950335".to_string())
    );
}

#[test]
fn text_of_a_decimal_number_agrees_with_the_decimal_type() {
    let mantissas: [i128; 14] = [
        0,
        1,
        9,
        10,
        99,
        100,
        12345,
        1_000_000_007,
        u64::MAX as i128,
        u64::MAX as i128 + 1,
        79228162514264337593543950335,
        -1,
        -12345,
        -79228162514264337593543950335,
    ];
    for mantissa in mantissas {
        for scale in [0u32, 1, 2, 3, 5, 9, 10, 19, 20, 27, 28] {
            let number = DecimalNumber { mantissa, scale };
            let expected = written_out(mantissa, scale);
            assert_eq!(number.to_text(), Some(expected.clone()));
            assert_eq!(Decimal::from_i128_with_scale(mantissa, scale).to_string(), expected);
        }
    }
}

#[test]
fn no_text_for_a_number_that_the_decimal_type_cannot_hold() {
    let text = |mantissa: i128, scale: u32| DecimalNumber { mantissa, scale }.to_text();
    assert_eq!(text(1, 29), None);
    assert_eq!(text(0, u32::MAX), None);
    assert_eq!(text(79228162514264337593543950336, 0), None);
    assert_eq!(text(-79228162514264337593543950336, 0), None);
    assert_eq!(text(i128::MAX, 0), None);
    assert_eq!(text(i128::MIN, 28), None);
    assert!(text(79228162514264337593543950335, 28).is_some());
}

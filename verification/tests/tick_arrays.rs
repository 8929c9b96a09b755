use solana_sdk::pubkey::Pubkey;
use std::str::FromStr;
use whirlpool_swap::address::Address;
use whirlpool_swap::ascii::i32_decimal_ascii;
use whirlpool_swap::constant::{
    MAX_TICK_INDEX, MIN_TICK_INDEX, ORCA_WHIRLPOOL_PROGRAM_ID, TICK_ARRAY_SIZE, WSOL_USDC_3000,
};
use whirlpool_swap::error::DomainError;
use whirlpool_swap::tick_index::{
    div_floor, pdautil_get_tick_array, poolutil_get_tick_array_pubkeys_for_swap,
    tickutil_get_start_tick_index,
};
use whirlpool_swap::utils::PdaUtils;
use whirlpool_swap::whirlpool::generate_oracle_pda;

fn address(text: &str) -> Address {
    Address::new(Pubkey::from_str(text).unwrap().to_bytes())
}

fn expected_tick_array(program: &str, pool: &str, start: i32) -> Address {
    let program = Pubkey::from_str(program).unwrap();
    let pool = Pubkey::from_str(pool).unwrap();
    let start = start.to_string();
    let (key, _) = Pubkey::find_program_address(
        &[b"tick_array", pool.as_ref(), start.as_bytes()],
        &program,
    );
    Address::new(key.to_bytes())
}

#[test]
fn div_floor_rounds_down() {
    assert_eq!(div_floor(-5, 3), -2);
    assert_eq!(div_floor(5, 3), 1);
    assert_eq!(div_floor(-6, 3), -2);
    assert_eq!(div_floor(6, 3), 2);
    assert_eq!(div_floor(0, 3), 0);
    assert_eq!(div_floor(-1, 3), -1);
    assert_eq!(div_floor(-1, 1), -1);
    assert_eq!(div_floor(i32::MIN, 1), i32::MIN);
    assert_eq!(div_floor(i32::MIN, i32::MAX), -2);
    assert_eq!(div_floor(i32::MAX, i32::MAX), 1);
    assert_eq!(div_floor(i32::MIN, 2), -1073741824);
    assert_eq!(div_floor(i32::MIN + 1, 2), -1073741824);
}

#[test]
fn start_tick_index_of_positive_and_negative_ticks() {
    // one array spans 88 * 64 = 5632 ticks
    assert_eq!(tickutil_get_start_tick_index(0, 64, 0), Ok(0));
    assert_eq!(tickutil_get_start_tick_index(1, 64, 0), Ok(0));
    assert_eq!(tickutil_get_start_tick_index(5631, 64, 0), Ok(0));
    assert_eq!(tickutil_get_start_tick_index(5632, 64, 0), Ok(5632));
    assert_eq!(tickutil_get_start_tick_index(-1, 64, 0), Ok(-5632));
    assert_eq!(tickutil_get_start_tick_index(-5632, 64, 0), Ok(-5632));
    assert_eq!(tickutil_get_start_tick_index(-5633, 64, 0), Ok(-11264));
    assert_eq!(tickutil_get_start_tick_index(-20000, 64, 0), Ok(-22528));
    assert_eq!(tickutil_get_start_tick_index(-20000, 64, 1), Ok(-16896));
    assert_eq!(tickutil_get_start_tick_index(-20000, 64, -2), Ok(-33792));
    assert_eq!(tickutil_get_start_tick_index(100, 1, 0), Ok(88));
    assert_eq!(tickutil_get_start_tick_index(100, 1, -2), Ok(-88));
}

#[test]
fn start_tick_index_is_aligned_and_stable() {
    for spacing in [1u16, 8, 64, 128] {
        let span = TICK_ARRAY_SIZE * spacing as i32;
        for tick in [-300_000, -5633, -5632, -89, -88, -1, 0, 1, 87, 88, 5632, 300_000] {
            let start = tickutil_get_start_tick_index(tick, spacing, 0).unwrap();
            assert_eq!(start % span, 0);
            assert!(start <= tick && tick < start + span);
            assert_eq!(tickutil_get_start_tick_index(start, spacing, 0), Ok(start));
        }
    }
}

#[test]
fn start_tick_index_at_the_ends_of_the_tick_range() {
    assert_eq!(
        tickutil_get_start_tick_index(MAX_TICK_INDEX, 64, 0),
        Err(DomainError::TickIndexOutOfRange)
    );
    assert_eq!(
        tickutil_get_start_tick_index(MIN_TICK_INDEX, 64, 0),
        Err(DomainError::TickIndexOutOfRange)
    );
    assert_eq!(
        tickutil_get_start_tick_index(MAX_TICK_INDEX, 1, 0),
        Err(DomainError::TickIndexOutOfRange)
    );
    assert_eq!(tickutil_get_start_tick_index(MAX_TICK_INDEX, 1, -1), Ok(443520));
    assert_eq!(
        tickutil_get_start_tick_index(MIN_TICK_INDEX, 1, 0),
        Err(DomainError::TickIndexOutOfRange)
    );
    assert_eq!(tickutil_get_start_tick_index(MIN_TICK_INDEX, 1, 1), Ok(-443608));
    // the last array that fits: 443608 + 88 = 443696 does not, 443520 + 88 = 443608 does
    assert_eq!(tickutil_get_start_tick_index(443607, 1, 0), Ok(443520));
    assert_eq!(
        tickutil_get_start_tick_index(443608, 1, 0),
        Err(DomainError::TickIndexOutOfRange)
    );
    assert_eq!(tickutil_get_start_tick_index(-443608, 1, 0), Ok(-443608));
    assert_eq!(
        tickutil_get_start_tick_index(-443609, 1, 0),
        Err(DomainError::TickIndexOutOfRange)
    );
}

#[test]
fn start_tick_index_of_extreme_values() {
    assert_eq!(
        tickutil_get_start_tick_index(0, 0, 0),
        Err(DomainError::ZeroTickSpacing)
    );
    for tick in [i32::MIN, i32::MAX] {
        for spacing in [1u16, u16::MAX] {
            for offset in [i32::MIN, -1, 0, 1, i32::MAX] {
                assert_eq!(
                    tickutil_get_start_tick_index(tick, spacing, offset),
                    Err(DomainError::TickIndexOutOfRange)
                );
            }
        }
    }
    assert_eq!(
        tickutil_get_start_tick_index(0, u16::MAX, 0),
        Err(DomainError::TickIndexOutOfRange)
    );
    assert_eq!(tickutil_get_start_tick_index(0, 5041, 0), Ok(0));
    assert_eq!(
        tickutil_get_start_tick_index(0, 5042, 0),
        Err(DomainError::TickIndexOutOfRange)
    );
}

#[test]
fn decimal_text_of_tick_indices() {
    for x in [0, 1, -1, 9, 10, -10, 99, 100, 5632, -5632, 443636, -443636, i32::MAX, i32::MIN] {
        assert_eq!(i32_decimal_ascii(x), x.to_string().into_bytes());
    }
}

#[test]
fn tick_array_address_is_derived_from_the_decimal_seed() {
    let program = address(ORCA_WHIRLPOOL_PROGRAM_ID);
    let pool = address(WSOL_USDC_3000);
    for start in [0, 5632, -5632, -22528, 439296] {
        let found = pdautil_get_tick_array(&program, &pool, start).unwrap();
        assert_eq!(found, expected_tick_array(ORCA_WHIRLPOOL_PROGRAM_ID, WSOL_USDC_3000, start));
        assert_ne!(found, pool);
        assert_ne!(found, program);
    }
    assert_ne!(
        pdautil_get_tick_array(&program, &pool, 0),
        pdautil_get_tick_array(&pool, &program, 0)
    );
}

#[test]
fn swap_tick_arrays_walk_with_the_price() {
    let program = address(ORCA_WHIRLPOOL_PROGRAM_ID);
    let pool = address(WSOL_USDC_3000);
    let falling =
        poolutil_get_tick_array_pubkeys_for_swap(-20000, 64, true, &program, &pool).unwrap();
    let rising =
        poolutil_get_tick_array_pubkeys_for_swap(-20000, 64, false, &program, &pool).unwrap();
    let expected = |start: i32| expected_tick_array(ORCA_WHIRLPOOL_PROGRAM_ID, WSOL_USDC_3000, start);
    assert_eq!(falling, [expected(-22528), expected(-28160), expected(-33792)]);
    assert_eq!(rising, [expected(-22528), expected(-16896), expected(-11264)]);
    assert_eq!(falling[0], rising[0]);
    for i in 0..3 {
        for j in 0..3 {
            if i != 0 || j != 0 {
                assert_ne!(falling[i], rising[j]);
            }
        }
    }
}

#[test]
fn swap_tick_arrays_at_the_ends_of_the_tick_range() {
    let program = address(ORCA_WHIRLPOOL_PROGRAM_ID);
    let pool = address(WSOL_USDC_3000);
    for a_to_b in [true, false] {
        for tick in [MIN_TICK_INDEX, MAX_TICK_INDEX] {
            assert_eq!(
                poolutil_get_tick_array_pubkeys_for_swap(tick, 64, a_to_b, &program, &pool),
                Err(DomainError::TickIndexOutOfRange)
            );
        }
        assert_eq!(
            poolutil_get_tick_array_pubkeys_for_swap(0, 0, a_to_b, &program, &pool),
            Err(DomainError::ZeroTickSpacing)
        );
    }
    // the first array fits, the walk towards rising ticks leaves the range
    assert!(poolutil_get_tick_array_pubkeys_for_swap(443607, 1, true, &program, &pool).is_ok());
    assert_eq!(
        poolutil_get_tick_array_pubkeys_for_swap(443607, 1, false, &program, &pool),
        Err(DomainError::TickIndexOutOfRange)
    );
    assert!(poolutil_get_tick_array_pubkeys_for_swap(-443608, 1, false, &program, &pool).is_ok());
    assert_eq!(
        poolutil_get_tick_array_pubkeys_for_swap(-443608, 1, true, &program, &pool),
        Err(DomainError::TickIndexOutOfRange)
    );
}

#[test]
fn oracle_address_is_derived_from_the_pool() {
    let program = Pubkey::from_str(ORCA_WHIRLPOOL_PROGRAM_ID).unwrap();
    let pool = Pubkey::from_str(WSOL_USDC_3000).unwrap();
    let (key, bump) = Pubkey::find_program_address(&[b"oracle", pool.as_ref()], &program);
    let found =
        generate_oracle_pda(&address(WSOL_USDC_3000), &address(ORCA_WHIRLPOOL_PROGRAM_ID)).unwrap();
    assert_eq!(found, (Address::new(key.to_bytes()), bump));
    assert_ne!(found.0, address(WSOL_USDC_3000));
}

#[test]
fn tick_array_address_by_value_is_the_address_by_reference() {
    let program = address(ORCA_WHIRLPOOL_PROGRAM_ID);
    let pool = address(WSOL_USDC_3000);
    let _ = PdaUtils::new();
    for start in [0i32, 1, -1, 5632, -5632, -22528, 439296, i32::MAX, i32::MIN] {
        let found = PdaUtils::get_tick_array_pda(program, pool, start);
        assert_eq!(
            found,
            Ok(expected_tick_array(ORCA_WHIRLPOOL_PROGRAM_ID, WSOL_USDC_3000, start))
        );
        assert_eq!(found, pdautil_get_tick_array(&program, &pool, start));
    }
    assert_ne!(
        PdaUtils::get_tick_array_pda(program, pool, 1),
        PdaUtils::get_tick_array_pda(program, pool, -1)
    );
}

#[test]
fn addresses_compare_by_their_bytes() {
    let a = Address::new([7u8; 32]);
    let mut bytes = [7u8; 32];
    assert_eq!(a, Address::new(bytes));
    bytes[31] = 8;
    assert_ne!(a, Address::new(bytes));
    assert_eq!(Address::default(), Address::new([0u8; 32]));
    assert_eq!(a.to_vec(), vec![7u8; 32]);
}

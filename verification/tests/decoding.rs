use whirlpool_swap::address::Address;
use whirlpool_swap::error::DecodeError;
use whirlpool_swap::le_bytes::{read_i128, read_i32, read_le, read_u128, read_u16, read_u32, read_u64, write_le};
use whirlpool_swap::tick_array::{Tick, TickArray, TICK_ARRAY_LEN, TICK_LEN};
use whirlpool_swap::whirlpool::{
    Whirlpool, WhirlpoolRewardInfo, ACCOUNT_DISCRIMINATOR_LEN, REWARD_INFO_LEN, WHIRLPOOL_LEN,
};

fn reward_info(seed: u8) -> WhirlpoolRewardInfo {
    WhirlpoolRewardInfo {
        mint: Address::new([seed; 32]),
        vault: Address::new([seed + 1; 32]),
        authority: Address::new([seed + 2; 32]),
        emissions_per_second_x64: (seed as u128) << 100 | 5,
        growth_global_x64: u128::MAX - seed as u128,
    }
}

fn reward_info_bytes(info: &WhirlpoolRewardInfo) -> Vec<u8> {
    let mut bytes = Vec::new();
    bytes.extend_from_slice(&info.mint.bytes);
    bytes.extend_from_slice(&info.vault.bytes);
    bytes.extend_from_slice(&info.authority.bytes);
    bytes.extend_from_slice(&info.emissions_per_second_x64.to_le_bytes());
    bytes.extend_from_slice(&info.growth_global_x64.to_le_bytes());
    bytes
}

fn known_pool() -> Whirlpool {
    Whirlpool {
        whirlpools_config: Address::new([1; 32]),
        whirlpool_bump: [254],
        tick_spacing: 64,
        tick_spacing_seed: [64, 0],
        fee_rate: 3000,
        protocol_fee_rate: 1300,
        liquidity: 0x0102_0304_0506_0708_090a_0b0c_0d0e_0f10,
        sqrt_price: 1u128 << 64,
        tick_current_index: -20000,
        protocol_fee_owed_a: 17,
        protocol_fee_owed_b: u64::MAX,
        token_mint_a: Address::new([2; 32]),
        token_vault_a: Address::new([3; 32]),
        fee_growth_global_a: 99,
        token_mint_b: Address::new([4; 32]),
        token_vault_b: Address::new([5; 32]),
        fee_growth_global_b: u128::MAX,
        reward_last_updated_timestamp: 1_700_000_000,
        reward_infos: [reward_info(10), reward_info(20), reward_info(30)],
    }
}

fn pool_bytes(pool: &Whirlpool) -> Vec<u8> {
    let mut bytes = Vec::new();
    bytes.extend_from_slice(&pool.whirlpools_config.bytes);
    bytes.extend_from_slice(&pool.whirlpool_bump);
    bytes.extend_from_slice(&pool.tick_spacing.to_le_bytes());
    bytes.extend_from_slice(&pool.tick_spacing_seed);
    bytes.extend_from_slice(&pool.fee_rate.to_le_bytes());
    bytes.extend_from_slice(&pool.protocol_fee_rate.to_le_bytes());
    bytes.extend_from_slice(&pool.liquidity.to_le_bytes());
    bytes.extend_from_slice(&pool.sqrt_price.to_le_bytes());
    bytes.extend_from_slice(&pool.tick_current_index.to_le_bytes());
    bytes.extend_from_slice(&pool.protocol_fee_owed_a.to_le_bytes());
    bytes.extend_from_slice(&pool.protocol_fee_owed_b.to_le_bytes());
    bytes.extend_from_slice(&pool.token_mint_a.bytes);
    bytes.extend_from_slice(&pool.token_vault_a.bytes);
    bytes.extend_from_slice(&pool.fee_growth_global_a.to_le_bytes());
    bytes.extend_from_slice(&pool.token_mint_b.bytes);
    bytes.extend_from_slice(&pool.token_vault_b.bytes);
    bytes.extend_from_slice(&pool.fee_growth_global_b.to_le_bytes());
    bytes.extend_from_slice(&pool.reward_last_updated_timestamp.to_le_bytes());
    for info in pool.reward_infos.iter() {
        bytes.extend_from_slice(&reward_info_bytes(info));
    }
    bytes
}

fn known_tick(i: usize) -> Tick {
    Tick {
        initialized: i % 3 == 0,
        liquidity_net: if i % 2 == 0 { -(i as i128) - 1 } else { i as i128 * 1_000_000_007 },
        liquidity_gross: (i as u128) << 64,
        fee_growth_outside_a: i as u128 + 1,
        fee_growth_outside_b: u128::MAX - i as u128,
        reward_growths_outside: [i as u128, 2 * i as u128, 3 * i as u128],
    }
}

fn tick_bytes(tick: &Tick) -> Vec<u8> {
    let mut bytes = Vec::new();
    bytes.push(tick.initialized as u8);
    bytes.extend_from_slice(&tick.liquidity_net.to_le_bytes());
    bytes.extend_from_slice(&tick.liquidity_gross.to_le_bytes());
    bytes.extend_from_slice(&tick.fee_growth_outside_a.to_le_bytes());
    bytes.extend_from_slice(&tick.fee_growth_outside_b.to_le_bytes());
    for growth in tick.reward_growths_outside.iter() {
        bytes.extend_from_slice(&growth.to_le_bytes());
    }
    bytes
}

fn tick_array_bytes(start: i32, pool: &Address) -> Vec<u8> {
    let mut bytes = Vec::new();
    bytes.extend_from_slice(&start.to_le_bytes());
    for i in 0..88 {
        bytes.extend_from_slice(&tick_bytes(&known_tick(i)));
    }
    bytes.extend_from_slice(&pool.bytes);
    bytes
}

#[test]
fn layout_lengths() {
    assert_eq!(reward_info_bytes(&reward_info(1)).len(), REWARD_INFO_LEN);
    assert_eq!(pool_bytes(&known_pool()).len(), WHIRLPOOL_LEN);
    assert_eq!(tick_bytes(&known_tick(0)).len(), TICK_LEN);
    assert_eq!(tick_array_bytes(0, &Address::default()).len(), TICK_ARRAY_LEN);
    assert_eq!(ACCOUNT_DISCRIMINATOR_LEN + WHIRLPOOL_LEN, 653);
}

#[test]
fn pool_is_decoded_field_by_field() {
    let bytes = pool_bytes(&known_pool());
    assert_eq!(Whirlpool::deserialize(&bytes), Ok(known_pool()));
    let pool = Whirlpool::deserialize(&bytes).unwrap();
    assert_eq!(pool.tick_current_index, -20000);
    assert_eq!(pool.tick_spacing, 64);
    assert_eq!(pool.fee_rate, 3000);
    assert_eq!(pool.sqrt_price, 1u128 << 64);
    assert_eq!(pool.reward_infos[2].mint, Address::new([30; 32]));
}

#[test]
fn pool_decoding_passes_over_what_follows() {
    let mut bytes = pool_bytes(&known_pool());
    bytes.extend_from_slice(&[0xAB; 40]);
    assert_eq!(Whirlpool::deserialize(&bytes), Ok(known_pool()));
}

#[test]
fn pool_decoding_checks_the_length_only() {
    let bytes = pool_bytes(&known_pool());
    for len in [0, 1, 32, 644] {
        assert_eq!(
            Whirlpool::deserialize(&bytes[..len]),
            Err(DecodeError::BufferTooShort { needed: 645, got: len })
        );
    }
    // a tick index far outside the tick range is decoded as it stands
    let mut pool = known_pool();
    pool.tick_current_index = i32::MIN;
    pool.tick_spacing = 0;
    assert_eq!(Whirlpool::deserialize(&pool_bytes(&pool)), Ok(pool));
    let all_ones = vec![0xFFu8; WHIRLPOOL_LEN];
    let decoded = Whirlpool::deserialize(&all_ones).unwrap();
    assert_eq!(decoded.tick_current_index, -1);
    assert_eq!(decoded.tick_spacing, u16::MAX);
    assert_eq!(decoded.liquidity, u128::MAX);
    assert_eq!(decoded.protocol_fee_owed_a, u64::MAX);
}

#[test]
fn pool_is_decoded_from_an_account() {
    let mut account = vec![63, 149, 209, 12, 225, 128, 99, 9];
    account.extend_from_slice(&pool_bytes(&known_pool()));
    assert_eq!(Whirlpool::deserialize_account(&account), Ok(known_pool()));
    assert_eq!(
        Whirlpool::deserialize_account(&account[..652]),
        Err(DecodeError::BufferTooShort { needed: 653, got: 652 })
    );
    assert_eq!(
        Whirlpool::deserialize_account(&account[..3]),
        Err(DecodeError::BufferTooShort { needed: 653, got: 3 })
    );
    // without the discriminator the fields are read eight bytes off
    assert_ne!(Whirlpool::deserialize(&account), Ok(known_pool()));
}

#[test]
fn reward_info_is_decoded() {
    let info = reward_info(40);
    let bytes = reward_info_bytes(&info);
    assert_eq!(WhirlpoolRewardInfo::deserialize(&bytes), Ok(info));
    assert_eq!(
        WhirlpoolRewardInfo::deserialize(&bytes[..127]),
        Err(DecodeError::BufferTooShort { needed: 128, got: 127 })
    );
    let mut padded = vec![9u8; 5];
    padded.extend_from_slice(&bytes);
    assert_eq!(WhirlpoolRewardInfo::deserialize_at(&padded, 5), info);
    assert_eq!(info.serialize(), bytes);
    assert_eq!(WhirlpoolRewardInfo::default().serialize(), vec![0u8; 128]);
}

#[test]
fn tick_is_decoded() {
    for i in 0..6 {
        let tick = known_tick(i);
        assert_eq!(Tick::deserialize(&tick_bytes(&tick)), Ok(tick));
    }
    let extreme = Tick {
        initialized: true,
        liquidity_net: i128::MIN,
        liquidity_gross: u128::MAX,
        fee_growth_outside_a: 0,
        fee_growth_outside_b: 1,
        reward_growths_outside: [u128::MAX, 0, 7],
    };
    assert_eq!(Tick::deserialize(&tick_bytes(&extreme)), Ok(extreme));
    let mut most = extreme;
    most.liquidity_net = i128::MAX;
    assert_eq!(Tick::deserialize(&tick_bytes(&most)), Ok(most));
    assert_eq!(
        Tick::deserialize(&tick_bytes(&extreme)[..112]),
        Err(DecodeError::BufferTooShort { needed: 113, got: 112 })
    );
    let empty = Tick::default();
    assert_eq!(Tick::deserialize(&[0u8; 113]), Ok(empty));
}

#[test]
fn tick_flag_must_be_zero_or_one() {
    let mut bytes = tick_bytes(&known_tick(1));
    bytes[0] = 2;
    assert_eq!(Tick::deserialize(&bytes), Err(DecodeError::InvalidFlag { offset: 0 }));
    bytes[0] = 255;
    assert_eq!(Tick::deserialize(&bytes), Err(DecodeError::InvalidFlag { offset: 0 }));
}

#[test]
fn tick_array_is_decoded() {
    let pool = Address::new([77; 32]);
    let bytes = tick_array_bytes(-22528, &pool);
    let array = TickArray::deserialize(&bytes).unwrap();
    assert_eq!(array.start_tick_index, -22528);
    assert_eq!(array.whirlpool, pool);
    for i in 0..88 {
        assert_eq!(array.ticks[i], known_tick(i));
    }
    let mut account = vec![69, 97, 189, 190, 110, 7, 66, 187];
    account.extend_from_slice(&bytes);
    let from_account = TickArray::deserialize_account(&account).unwrap();
    assert_eq!(from_account.start_tick_index, -22528);
    assert_eq!(from_account.ticks[87], known_tick(87));
    assert_eq!(from_account.whirlpool, pool);
}

#[test]
fn tick_array_decoding_fails_on_short_or_malformed_input() {
    let pool = Address::new([77; 32]);
    let mut bytes = tick_array_bytes(5632, &pool);
    assert_eq!(
        TickArray::deserialize(&bytes[..9979]).err(),
        Some(DecodeError::BufferTooShort { needed: 9980, got: 9979 })
    );
    assert_eq!(
        TickArray::deserialize_account(&bytes).err(),
        Some(DecodeError::BufferTooShort { needed: 9988, got: 9980 })
    );
    bytes[4 + 113 * 5] = 3;
    bytes[4 + 113 * 9] = 4;
    assert_eq!(
        TickArray::deserialize(&bytes).err(),
        Some(DecodeError::InvalidFlag { offset: 4 + 113 * 5 })
    );
    // the length is looked at before the flags
    assert_eq!(
        TickArray::deserialize(&bytes[..9000]).err(),
        Some(DecodeError::BufferTooShort { needed: 9980, got: 9000 })
    );
}

#[test]
fn integers_are_read_least_significant_byte_first() {
    let bytes: Vec<u8> = (1..=20).collect();
    assert_eq!(read_le(&bytes, 0, 0), 0);
    assert_eq!(read_le(&bytes, 3, 1), 4);
    assert_eq!(read_le(&bytes, 0, 3), 0x030201);
    assert_eq!(read_u16(&bytes, 1), 0x0302);
    assert_eq!(read_u32(&bytes, 0), 0x04030201);
    assert_eq!(read_u64(&bytes, 2), u64::from_le_bytes([3, 4, 5, 6, 7, 8, 9, 10]));
    assert_eq!(read_u128(&bytes, 4), u128::from_le_bytes(bytes[4..20].try_into().unwrap()));
    assert_eq!(read_i32(&bytes, 0), 0x04030201);
    assert_eq!(read_i32(&[0xFF, 0xFF, 0xFF, 0xFF], 0), -1);
    assert_eq!(read_i32(&[0x00, 0x00, 0x00, 0x80], 0), i32::MIN);
    assert_eq!(read_i32(&[0xFF, 0xFF, 0xFF, 0x7F], 0), i32::MAX);
    assert_eq!(read_i32(&(-20000i32).to_le_bytes(), 0), -20000);
    assert_eq!(read_i128(&i128::MIN.to_le_bytes(), 0), i128::MIN);
    assert_eq!(read_i128(&i128::MAX.to_le_bytes(), 0), i128::MAX);
    assert_eq!(read_i128(&(-1i128).to_le_bytes(), 0), -1);
    assert_eq!(read_i128(&(-123456789i128).to_le_bytes(), 0), -123456789);
}

#[test]
fn integers_are_written_least_significant_byte_first() {
    let mut out = vec![9u8];
    write_le(&mut out, 0x0102, 2);
    assert_eq!(out, vec![9, 2, 1]);
    write_le(&mut out, 0x01020304, 0);
    assert_eq!(out, vec![9, 2, 1]);
    write_le(&mut out, 0x01020304, 3);
    assert_eq!(out, vec![9, 2, 1, 4, 3, 2]);
    let mut wide = Vec::new();
    write_le(&mut wide, u128::MAX - 5, 16);
    assert_eq!(wide, (u128::MAX - 5).to_le_bytes().to_vec());
    let mut padded = Vec::new();
    write_le(&mut padded, 7, 18);
    assert_eq!(padded.len(), 18);
    assert_eq!(padded[0], 7);
    assert!(padded[1..].iter().all(|b| *b == 0));
    assert_eq!(read_le(&wide, 0, 16), u128::MAX - 5);
}

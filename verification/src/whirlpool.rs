//! The pool account: its layout, its decoder, and the address of its oracle.

use vstd::prelude::*;
use vstd::string::StringSliceAdditionalSpecFns;
use vstd::string::StrSliceExecFns;
use vstd::slice::slice_subrange;
use crate::address::{
    found_view,
    lemma_address_by_bytes,
    program_address,
    seeds_view,
    try_find_program_address,
    zero_bytes,
    Address,
};
use crate::constant::NUM_REWARDS;
use crate::error::{DecodeError, DomainError};
use crate::le_bytes::{
    field,
    le_bytes,
    le_value,
    lemma_le_bytes_len,
    lemma_le_bytes_of_le_value,
    lemma_le_value_bound,
    lemma_le_value_of_le_bytes,
    lemma_le_value_of_zeros,
    lemma_pow256_values,
    lemma_signed_of_unsigned_of,
    lemma_unsigned_of_signed_of,
    read_32_bytes,
    read_i32,
    read_u128,
    read_u16,
    read_u64,
    signed_of,
    unsigned_of,
    write_le,
};

verus! {

/// Number of bytes at the front of an account that say what it holds.
pub const ACCOUNT_DISCRIMINATOR_LEN: usize = 8;

/// What an account holds after its discriminator.
pub open spec fn account_body(account: Seq<u8>) -> Seq<u8> {
    account.subrange(ACCOUNT_DISCRIMINATOR_LEN as int, account.len() as int)
}

/// Number of bytes that one reward slot of a pool takes.
pub const REWARD_INFO_LEN: usize = 128;

/// Number of bytes that a pool takes, after the account's discriminator.
pub const WHIRLPOOL_LEN: usize = 645;

/// State of one liquidity mining reward of a pool.
#[derive(Debug, Clone, Copy, PartialEq)]
pub struct WhirlpoolRewardInfo {
    /// Reward token mint.
    pub mint: Address,
    /// Reward vault token account.
    pub vault: Address,
    /// Account that may initialize the reward and set its emissions.
    pub authority: Address,
    /// Tokens emitted per second and unit of liquidity, in 64.64 fixed point.
    pub emissions_per_second_x64: u128,
    /// Tokens earned per unit of liquidity since the emissions began, in
    /// 64.64 fixed point.
    pub growth_global_x64: u128,
}

/// A pool.
#[derive(Debug, PartialEq)]
pub struct Whirlpool {
    pub whirlpools_config: Address,
    pub whirlpool_bump: [u8; 1],
    pub tick_spacing: u16,
    pub tick_spacing_seed: [u8; 2],
    /// Fee of a trade, in hundredths of a basis point.
    pub fee_rate: u16,
    /// Part of the fee that the protocol takes.
    pub protocol_fee_rate: u16,
    pub liquidity: u128,
    /// Square root of the price, in 64.64 fixed point.
    pub sqrt_price: u128,
    pub tick_current_index: i32,
    pub protocol_fee_owed_a: u64,
    pub protocol_fee_owed_b: u64,
    pub token_mint_a: Address,
    pub token_vault_a: Address,
    /// In 64.64 fixed point.
    pub fee_growth_global_a: u128,
    pub token_mint_b: Address,
    pub token_vault_b: Address,
    /// In 64.64 fixed point.
    pub fee_growth_global_b: u128,
    pub reward_last_updated_timestamp: u64,
    pub reward_infos: [WhirlpoolRewardInfo; NUM_REWARDS],
}

impl WhirlpoolRewardInfo {
    /// Whether the reward slot is what the `REWARD_INFO_LEN` bytes of `bytes`
    /// from `offset` on hold: each field in turn, integers least significant
    /// byte first, nothing between the fields.
    pub open spec fn is_decoding_of(self, bytes: Seq<u8>, offset: int) -> bool {
        &&& self.mint@ == field(bytes, offset, 32)
        &&& self.vault@ == field(bytes, offset + 32, 32)
        &&& self.authority@ == field(bytes, offset + 64, 32)
        &&& self.emissions_per_second_x64 == le_value(field(bytes, offset + 96, 16))
        &&& self.growth_global_x64 == le_value(field(bytes, offset + 112, 16))
    }

    /// Decodes the reward slot that starts at `offset`.
    pub fn deserialize_at(data: &[u8], offset: usize) -> (info: WhirlpoolRewardInfo)
        requires
            offset + REWARD_INFO_LEN <= data@.len(),
        ensures
            info.is_decoding_of(data@, offset as int),
    {
        let total: usize = data.len();
        assert(offset + REWARD_INFO_LEN <= total);
        WhirlpoolRewardInfo {
            mint: Address::new(read_32_bytes(data, offset)),
            vault: Address::new(read_32_bytes(data, offset + 32)),
            authority: Address::new(read_32_bytes(data, offset + 64)),
            emissions_per_second_x64: read_u128(data, offset + 96),
            growth_global_x64: read_u128(data, offset + 112),
        }
    }

    /// Decodes a reward slot from the front of `data`.
    pub fn deserialize(data: &[u8]) -> (r: Result<WhirlpoolRewardInfo, DecodeError>)
        ensures
            match r {
                Ok(info) => data@.len() >= REWARD_INFO_LEN && info.is_decoding_of(data@, 0),
                Err(e) => data@.len() < REWARD_INFO_LEN && e == (DecodeError::BufferTooShort {
                    needed: REWARD_INFO_LEN,
                    got: data@.len() as usize,
                }),
            },
    {
        if data.len() < REWARD_INFO_LEN {
            return Err(DecodeError::BufferTooShort { needed: REWARD_INFO_LEN, got: data.len() });
        }
        Ok(WhirlpoolRewardInfo::deserialize_at(data, 0))
    }
}

impl Default for WhirlpoolRewardInfo {
    /// The reward slot that is not in use: zero throughout.
    fn default() -> (info: WhirlpoolRewardInfo)
        ensures
            info.mint@ == zero_bytes(),
            info.vault@ == zero_bytes(),
            info.authority@ == zero_bytes(),
            info.emissions_per_second_x64 == 0,
            info.growth_global_x64 == 0,
    {
        WhirlpoolRewardInfo {
            mint: Address::default(),
            vault: Address::default(),
            authority: Address::default(),
            emissions_per_second_x64: 0,
            growth_global_x64: 0,
        }
    }
}

impl Default for Whirlpool {
    /// The pool whose bytes are all zero.
    fn default() -> (pool: Whirlpool)
        ensures
            pool.is_decoding_of(Seq::new(WHIRLPOOL_LEN as nat, |i: int| 0u8)),
    {
        let zero = Address::default();
        let info = WhirlpoolRewardInfo::default();
        let pool = Whirlpool {
            whirlpools_config: zero,
            whirlpool_bump: [0u8;1],
            tick_spacing: 0,
            tick_spacing_seed: [0u8;2],
            fee_rate: 0,
            protocol_fee_rate: 0,
            liquidity: 0,
            sqrt_price: 0,
            tick_current_index: 0,
            protocol_fee_owed_a: 0,
            protocol_fee_owed_b: 0,
            token_mint_a: zero,
            token_vault_a: zero,
            fee_growth_global_a: 0,
            token_mint_b: zero,
            token_vault_b: zero,
            fee_growth_global_b: 0,
            reward_last_updated_timestamp: 0,
            reward_infos: [info;3],
        };
        proof {
            let zeros = Seq::new(WHIRLPOOL_LEN as nat, |i: int| 0u8);
            lemma_pow256_values();
            assert forall|offset: int, width: int|
                0 <= offset && 0 <= width && offset + width <= WHIRLPOOL_LEN implies le_value(
                #[trigger] field(zeros, offset, width),
            ) == 0 by {
                lemma_le_value_of_zeros(field(zeros, offset, width));
            }
            assert(zero@ =~= field(zeros, 0, 32));
            assert(zero@ =~= field(zeros, 93, 32));
            assert(zero@ =~= field(zeros, 125, 32));
            assert(zero@ =~= field(zeros, 173, 32));
            assert(zero@ =~= field(zeros, 205, 32));
            assert(pool.whirlpool_bump@ =~= field(zeros, 32, 1));
            assert(pool.tick_spacing_seed@ =~= field(zeros, 35, 2));
            assert forall|i: int| 0 <= i < NUM_REWARDS implies (
            #[trigger] pool.reward_infos@[i]).is_decoding_of(zeros, 261 + i * REWARD_INFO_LEN) by {
                let at = 261 + i * REWARD_INFO_LEN;
                assert(pool.reward_infos@[i] == info);
                assert(zero@ =~= field(zeros, at, 32));
                assert(zero@ =~= field(zeros, at + 32, 32));
                assert(zero@ =~= field(zeros, at + 64, 32));
            }
        }
        pool
    }
}

impl Whirlpool {
    /// Whether the pool is what the first `WHIRLPOOL_LEN` bytes of `bytes`
    /// hold: each field in turn, integers least significant byte first,
    /// nothing between the fields.
    pub open spec fn is_decoding_of(self, bytes: Seq<u8>) -> bool {
        &&& self.whirlpools_config@ == field(bytes, 0, 32)
        &&& self.whirlpool_bump@ == field(bytes, 32, 1)
        &&& self.tick_spacing == le_value(field(bytes, 33, 2))
        &&& self.tick_spacing_seed@ == field(bytes, 35, 2)
        &&& self.fee_rate == le_value(field(bytes, 37, 2))
        &&& self.protocol_fee_rate == le_value(field(bytes, 39, 2))
        &&& self.liquidity == le_value(field(bytes, 41, 16))
        &&& self.sqrt_price == le_value(field(bytes, 57, 16))
        &&& self.tick_current_index == signed_of(le_value(field(bytes, 73, 4)), 4)
        &&& self.protocol_fee_owed_a == le_value(field(bytes, 77, 8))
        &&& self.protocol_fee_owed_b == le_value(field(bytes, 85, 8))
        &&& self.token_mint_a@ == field(bytes, 93, 32)
        &&& self.token_vault_a@ == field(bytes, 125, 32)
        &&& self.fee_growth_global_a == le_value(field(bytes, 157, 16))
        &&& self.token_mint_b@ == field(bytes, 173, 32)
        &&& self.token_vault_b@ == field(bytes, 205, 32)
        &&& self.fee_growth_global_b == le_value(field(bytes, 237, 16))
        &&& self.reward_last_updated_timestamp == le_value(field(bytes, 253, 8))
        &&& forall|i: int|
            0 <= i < NUM_REWARDS ==> (#[trigger] self.reward_infos@[i]).is_decoding_of(
                bytes,
                261 + i * REWARD_INFO_LEN,
            )
    }

    /// Decodes a pool from the front of `data`, which starts after the
    /// account's discriminator. Only the length is checked: whatever the
    /// fields hold is handed on as it is.
    pub fn deserialize(data: &[u8]) -> (r: Result<Whirlpool, DecodeError>)
        ensures
            match r {
                Ok(pool) => data@.len() >= WHIRLPOOL_LEN && pool.is_decoding_of(data@),
                Err(e) => data@.len() < WHIRLPOOL_LEN && e == (DecodeError::BufferTooShort {
                    needed: WHIRLPOOL_LEN,
                    got: data@.len() as usize,
                }),
            },
    {
        if data.len() < WHIRLPOOL_LEN {
            return Err(DecodeError::BufferTooShort { needed: WHIRLPOOL_LEN, got: data.len() });
        }
        let whirlpool_bump: [u8; 1] = [data[32]];
        let tick_spacing_seed: [u8; 2] = [data[35], data[36]];
        let reward_infos: [WhirlpoolRewardInfo; NUM_REWARDS] = [
            WhirlpoolRewardInfo::deserialize_at(data, 261),
            WhirlpoolRewardInfo::deserialize_at(data, 389),
            WhirlpoolRewardInfo::deserialize_at(data, 517),
        ];
        proof {
            assert(whirlpool_bump@ =~= field(data@, 32, 1));
            assert(tick_spacing_seed@ =~= field(data@, 35, 2));
        }
        Ok(
            Whirlpool {
                whirlpools_config: Address::new(read_32_bytes(data, 0)),
                whirlpool_bump,
                tick_spacing: read_u16(data, 33),
                tick_spacing_seed,
                fee_rate: read_u16(data, 37),
                protocol_fee_rate: read_u16(data, 39),
                liquidity: read_u128(data, 41),
                sqrt_price: read_u128(data, 57),
                tick_current_index: read_i32(data, 73),
                protocol_fee_owed_a: read_u64(data, 77),
                protocol_fee_owed_b: read_u64(data, 85),
                token_mint_a: Address::new(read_32_bytes(data, 93)),
                token_vault_a: Address::new(read_32_bytes(data, 125)),
                fee_growth_global_a: read_u128(data, 157),
                token_mint_b: Address::new(read_32_bytes(data, 173)),
                token_vault_b: Address::new(read_32_bytes(data, 205)),
                fee_growth_global_b: read_u128(data, 237),
                reward_last_updated_timestamp: read_u64(data, 253),
                reward_infos,
            },
        )
    }

    /// Decodes a pool from an account's data: the discriminator is passed
    /// over, not read.
    pub fn deserialize_account(account: &[u8]) -> (r: Result<Whirlpool, DecodeError>)
        ensures
            match r {
                Ok(pool) => account@.len() >= ACCOUNT_DISCRIMINATOR_LEN + WHIRLPOOL_LEN
                    && pool.is_decoding_of(account_body(account@)),
                Err(e) => account@.len() < ACCOUNT_DISCRIMINATOR_LEN + WHIRLPOOL_LEN && e == (
                DecodeError::BufferTooShort {
                    needed: (ACCOUNT_DISCRIMINATOR_LEN + WHIRLPOOL_LEN) as usize,
                    got: account@.len() as usize,
                }),
            },
    {
        if account.len() < ACCOUNT_DISCRIMINATOR_LEN + WHIRLPOOL_LEN {
            return Err(
                DecodeError::BufferTooShort {
                    needed: ACCOUNT_DISCRIMINATOR_LEN + WHIRLPOOL_LEN,
                    got: account.len(),
                },
            );
        }
        let body = slice_subrange(account, ACCOUNT_DISCRIMINATOR_LEN, account.len());
        Whirlpool::deserialize(body)
    }
}

impl WhirlpoolRewardInfo {
    /// The bytes of the reward slot: each field in turn, integers least
    /// significant byte first, nothing between the fields.
    pub open spec fn encoding(self) -> Seq<u8> {
        self.mint@ + self.vault@ + self.authority@ + le_bytes(
            self.emissions_per_second_x64 as nat,
            16,
        ) + le_bytes(self.growth_global_x64 as nat, 16)
    }

    /// The reward slot as bytes.
    pub fn serialize(&self) -> (bytes: Vec<u8>)
        ensures
            bytes@ == self.encoding(),
    {
        let mut bytes: Vec<u8> = self.mint.to_vec();
        let mut vault = self.vault.to_vec();
        let mut authority = self.authority.to_vec();
        bytes.append(&mut vault);
        bytes.append(&mut authority);
        write_le(&mut bytes, self.emissions_per_second_x64, 16);
        write_le(&mut bytes, self.growth_global_x64, 16);
        bytes
    }
}

impl Whirlpool {
    /// The bytes of the pool: each field in turn, integers least significant
    /// byte first, nothing between the fields.
    pub open spec fn encoding(self) -> Seq<u8> {
        self.whirlpools_config@ + self.whirlpool_bump@ + le_bytes(self.tick_spacing as nat, 2)
            + self.tick_spacing_seed@ + le_bytes(self.fee_rate as nat, 2) + le_bytes(
            self.protocol_fee_rate as nat,
            2,
        ) + le_bytes(self.liquidity as nat, 16) + le_bytes(self.sqrt_price as nat, 16) + le_bytes(
            unsigned_of(self.tick_current_index as int, 4),
            4,
        ) + le_bytes(self.protocol_fee_owed_a as nat, 8) + le_bytes(
            self.protocol_fee_owed_b as nat,
            8,
        ) + self.token_mint_a@ + self.token_vault_a@ + le_bytes(self.fee_growth_global_a as nat, 16)
            + self.token_mint_b@ + self.token_vault_b@ + le_bytes(
            self.fee_growth_global_b as nat,
            16,
        ) + le_bytes(self.reward_last_updated_timestamp as nat, 8)
            + self.reward_infos@[0].encoding() + self.reward_infos@[1].encoding()
            + self.reward_infos@[2].encoding()
    }
}

/// The bytes of a reward slot are `REWARD_INFO_LEN` bytes, and wherever they
/// stand in a buffer, the slot is what the buffer holds there.
pub proof fn lemma_reward_info_round_trip(
    info: WhirlpoolRewardInfo,
    before: Seq<u8>,
    after: Seq<u8>,
)
    ensures
        info.encoding().len() == REWARD_INFO_LEN,
        info.is_decoding_of(before + info.encoding() + after, before.len() as int),
{
    let bytes = before + info.encoding() + after;
    let at = before.len() as int;
    let emissions = le_bytes(info.emissions_per_second_x64 as nat, 16);
    let growth = le_bytes(info.growth_global_x64 as nat, 16);
    lemma_pow256_values();
    lemma_le_bytes_len(info.emissions_per_second_x64 as nat, 16);
    lemma_le_bytes_len(info.growth_global_x64 as nat, 16);
    lemma_le_value_of_le_bytes(info.emissions_per_second_x64 as nat, 16);
    lemma_le_value_of_le_bytes(info.growth_global_x64 as nat, 16);
    assert(field(bytes, at, 32) =~= info.mint@);
    assert(field(bytes, at + 32, 32) =~= info.vault@);
    assert(field(bytes, at + 64, 32) =~= info.authority@);
    assert(field(bytes, at + 96, 16) =~= emissions);
    assert(field(bytes, at + 112, 16) =~= growth);
}

/// The bytes of a pool are `WHIRLPOOL_LEN` bytes, and decoding them,
/// whatever follows them, gives the pool back.
pub proof fn lemma_whirlpool_round_trip(pool: Whirlpool, rest: Seq<u8>)
    ensures
        pool.encoding().len() == WHIRLPOOL_LEN,
        pool.is_decoding_of(pool.encoding() + rest),
{
    let bytes = pool.encoding() + rest;
    let tick = unsigned_of(pool.tick_current_index as int, 4);
    let head = pool.whirlpools_config@ + pool.whirlpool_bump@ + le_bytes(
        pool.tick_spacing as nat,
        2,
    ) + pool.tick_spacing_seed@ + le_bytes(pool.fee_rate as nat, 2) + le_bytes(
        pool.protocol_fee_rate as nat,
        2,
    ) + le_bytes(pool.liquidity as nat, 16) + le_bytes(pool.sqrt_price as nat, 16) + le_bytes(
        tick,
        4,
    ) + le_bytes(pool.protocol_fee_owed_a as nat, 8) + le_bytes(pool.protocol_fee_owed_b as nat, 8)
        + pool.token_mint_a@ + pool.token_vault_a@ + le_bytes(pool.fee_growth_global_a as nat, 16)
        + pool.token_mint_b@ + pool.token_vault_b@ + le_bytes(
        pool.fee_growth_global_b as nat,
        16,
    ) + le_bytes(pool.reward_last_updated_timestamp as nat, 8);
    let first = pool.reward_infos@[0].encoding();
    let second = pool.reward_infos@[1].encoding();
    let third = pool.reward_infos@[2].encoding();
    lemma_pow256_values();
    lemma_signed_of_unsigned_of(pool.tick_current_index as int, 4);
    lemma_le_bytes_len(pool.tick_spacing as nat, 2);
    lemma_le_bytes_len(pool.fee_rate as nat, 2);
    lemma_le_bytes_len(pool.protocol_fee_rate as nat, 2);
    lemma_le_bytes_len(pool.liquidity as nat, 16);
    lemma_le_bytes_len(pool.sqrt_price as nat, 16);
    lemma_le_bytes_len(tick, 4);
    lemma_le_bytes_len(pool.protocol_fee_owed_a as nat, 8);
    lemma_le_bytes_len(pool.protocol_fee_owed_b as nat, 8);
    lemma_le_bytes_len(pool.fee_growth_global_a as nat, 16);
    lemma_le_bytes_len(pool.fee_growth_global_b as nat, 16);
    lemma_le_bytes_len(pool.reward_last_updated_timestamp as nat, 8);
    lemma_le_value_of_le_bytes(pool.tick_spacing as nat, 2);
    lemma_le_value_of_le_bytes(pool.fee_rate as nat, 2);
    lemma_le_value_of_le_bytes(pool.protocol_fee_rate as nat, 2);
    lemma_le_value_of_le_bytes(pool.liquidity as nat, 16);
    lemma_le_value_of_le_bytes(pool.sqrt_price as nat, 16);
    lemma_le_value_of_le_bytes(tick, 4);
    lemma_le_value_of_le_bytes(pool.protocol_fee_owed_a as nat, 8);
    lemma_le_value_of_le_bytes(pool.protocol_fee_owed_b as nat, 8);
    lemma_le_value_of_le_bytes(pool.fee_growth_global_a as nat, 16);
    lemma_le_value_of_le_bytes(pool.fee_growth_global_b as nat, 16);
    lemma_le_value_of_le_bytes(pool.reward_last_updated_timestamp as nat, 8);
    lemma_reward_info_round_trip(pool.reward_infos@[0], head, second + third + rest);
    lemma_reward_info_round_trip(pool.reward_infos@[1], head + first, third + rest);
    lemma_reward_info_round_trip(pool.reward_infos@[2], head + first + second, rest);
    assert(head.len() == 261);
    assert(bytes =~= head + first + (second + third + rest));
    assert(bytes =~= (head + first) + second + (third + rest));
    assert(bytes =~= (head + first + second) + third + rest);
    assert(field(bytes, 0, 32) =~= pool.whirlpools_config@);
    assert(field(bytes, 32, 1) =~= pool.whirlpool_bump@);
    assert(field(bytes, 33, 2) =~= le_bytes(pool.tick_spacing as nat, 2));
    assert(field(bytes, 35, 2) =~= pool.tick_spacing_seed@);
    assert(field(bytes, 37, 2) =~= le_bytes(pool.fee_rate as nat, 2));
    assert(field(bytes, 39, 2) =~= le_bytes(pool.protocol_fee_rate as nat, 2));
    assert(field(bytes, 41, 16) =~= le_bytes(pool.liquidity as nat, 16));
    assert(field(bytes, 57, 16) =~= le_bytes(pool.sqrt_price as nat, 16));
    assert(field(bytes, 73, 4) =~= le_bytes(tick, 4));
    assert(field(bytes, 77, 8) =~= le_bytes(pool.protocol_fee_owed_a as nat, 8));
    assert(field(bytes, 85, 8) =~= le_bytes(pool.protocol_fee_owed_b as nat, 8));
    assert(field(bytes, 93, 32) =~= pool.token_mint_a@);
    assert(field(bytes, 125, 32) =~= pool.token_vault_a@);
    assert(field(bytes, 157, 16) =~= le_bytes(pool.fee_growth_global_a as nat, 16));
    assert(field(bytes, 173, 32) =~= pool.token_mint_b@);
    assert(field(bytes, 205, 32) =~= pool.token_vault_b@);
    assert(field(bytes, 237, 16) =~= le_bytes(pool.fee_growth_global_b as nat, 16));
    assert(field(bytes, 253, 8) =~= le_bytes(pool.reward_last_updated_timestamp as nat, 8));
}

/// The bytes that hold a reward slot are the bytes of that slot.
pub proof fn lemma_reward_info_encoding_of_decoded(
    info: WhirlpoolRewardInfo,
    bytes: Seq<u8>,
    offset: int,
)
    requires
        0 <= offset,
        offset + REWARD_INFO_LEN <= bytes.len(),
        info.is_decoding_of(bytes, offset),
    ensures
        info.encoding() == field(bytes, offset, REWARD_INFO_LEN as int),
{
    lemma_le_bytes_of_le_value(field(bytes, offset + 96, 16));
    lemma_le_bytes_of_le_value(field(bytes, offset + 112, 16));
    assert(info.encoding() =~= field(bytes, offset, REWARD_INFO_LEN as int));
}

/// The bytes that hold a pool are the bytes of that pool: encoding what was
/// decoded gives the buffer back, as far as it was read.
pub proof fn lemma_whirlpool_encoding_of_decoded(pool: Whirlpool, bytes: Seq<u8>)
    requires
        bytes.len() >= WHIRLPOOL_LEN,
        pool.is_decoding_of(bytes),
    ensures
        pool.encoding() == bytes.subrange(0, WHIRLPOOL_LEN as int),
{
    lemma_pow256_values();
    lemma_le_value_bound(field(bytes, 73, 4));
    lemma_unsigned_of_signed_of(le_value(field(bytes, 73, 4)), 4);
    lemma_le_bytes_of_le_value(field(bytes, 33, 2));
    lemma_le_bytes_of_le_value(field(bytes, 37, 2));
    lemma_le_bytes_of_le_value(field(bytes, 39, 2));
    lemma_le_bytes_of_le_value(field(bytes, 41, 16));
    lemma_le_bytes_of_le_value(field(bytes, 57, 16));
    lemma_le_bytes_of_le_value(field(bytes, 73, 4));
    lemma_le_bytes_of_le_value(field(bytes, 77, 8));
    lemma_le_bytes_of_le_value(field(bytes, 85, 8));
    lemma_le_bytes_of_le_value(field(bytes, 157, 16));
    lemma_le_bytes_of_le_value(field(bytes, 237, 16));
    lemma_le_bytes_of_le_value(field(bytes, 253, 8));
    lemma_reward_info_encoding_of_decoded(pool.reward_infos@[0], bytes, 261);
    lemma_reward_info_encoding_of_decoded(pool.reward_infos@[1], bytes, 389);
    lemma_reward_info_encoding_of_decoded(pool.reward_infos@[2], bytes, 517);
    assert(pool.encoding() =~= bytes.subrange(0, WHIRLPOOL_LEN as int));
}

/// A run of bytes holds one reward slot only.
pub proof fn lemma_reward_info_decoding_unique(
    a: WhirlpoolRewardInfo,
    b: WhirlpoolRewardInfo,
    bytes: Seq<u8>,
    offset: int,
)
    requires
        a.is_decoding_of(bytes, offset),
        b.is_decoding_of(bytes, offset),
    ensures
        a == b,
{
    lemma_address_by_bytes(a.mint, b.mint);
    lemma_address_by_bytes(a.vault, b.vault);
    lemma_address_by_bytes(a.authority, b.authority);
}

/// A buffer holds one pool only: what `Whirlpool::deserialize` returns for
/// it is the pool that it holds.
pub proof fn lemma_whirlpool_decoding_unique(a: Whirlpool, b: Whirlpool, bytes: Seq<u8>)
    requires
        a.is_decoding_of(bytes),
        b.is_decoding_of(bytes),
    ensures
        a == b,
{
    lemma_address_by_bytes(a.whirlpools_config, b.whirlpools_config);
    lemma_address_by_bytes(a.token_mint_a, b.token_mint_a);
    lemma_address_by_bytes(a.token_vault_a, b.token_vault_a);
    lemma_address_by_bytes(a.token_mint_b, b.token_mint_b);
    lemma_address_by_bytes(a.token_vault_b, b.token_vault_b);
    assert(a.whirlpool_bump =~= b.whirlpool_bump);
    assert(a.tick_spacing_seed =~= b.tick_spacing_seed);
    assert forall|i: int| 0 <= i < NUM_REWARDS implies a.reward_infos@[i] == b.reward_infos@[i] by {
        lemma_reward_info_decoding_unique(
            a.reward_infos@[i],
            b.reward_infos@[i],
            bytes,
            261 + i * REWARD_INFO_LEN,
        );
    }
    assert(a.reward_infos =~= b.reward_infos);
}

/// The seeds from which the pool program derives the address of the oracle
/// of `pool`: the text `oracle` and the pool's address.
pub open spec fn oracle_seeds(pool: Seq<u8>) -> Seq<Seq<u8>> {
    seq!["oracle".spec_bytes(), pool]
}

/// Address of the oracle of pool `whirlpool_pubkey`, as the program
/// `dex_program_id` derives it, with the bump seed of the derivation.
pub fn generate_oracle_pda(whirlpool_pubkey: &Address, dex_program_id: &Address) -> (r: Result<
    (Address, u8),
    DomainError,
>)
    ensures
        match r {
            Ok(found) => program_address(oracle_seeds(whirlpool_pubkey@), dex_program_id@)
                == found_view(Some(found)),
            Err(e) => e == DomainError::NoProgramAddress && program_address(
                oracle_seeds(whirlpool_pubkey@),
                dex_program_id@,
            ) is None,
        },
{
    let mut seeds: Vec<Vec<u8>> = Vec::new();
    seeds.push("oracle".as_bytes_vec());
    seeds.push(whirlpool_pubkey.to_vec());
    proof {
        assert(seeds_view(&seeds) =~= oracle_seeds(whirlpool_pubkey@));
    }
    match try_find_program_address(&seeds, dex_program_id) {
        Some(found) => Ok(found),
        None => Err(DomainError::NoProgramAddress),
    }
}

} // verus!

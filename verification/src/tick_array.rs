//! The tick array account: its layout, its decoder, and the bytes of a tick
//! array.

use vstd::prelude::*;
use vstd::slice::slice_subrange;
use crate::address::{lemma_address_by_bytes, Address};
use crate::constant::{NUM_REWARDS, TICK_ARRAY_SIZE_USIZE};
use crate::error::DecodeError;
use crate::le_bytes::{
    field,
    flag_byte,
    le_bytes,
    le_value,
    lemma_le_bytes_len,
    lemma_le_bytes_of_le_value,
    lemma_le_value_bound,
    lemma_le_value_of_le_bytes,
    lemma_pow256_values,
    lemma_signed_of_unsigned_of,
    lemma_unsigned_of_signed_of,
    read_32_bytes,
    read_i128,
    read_i32,
    read_u128,
    signed_of,
    unsigned_of,
};
use crate::whirlpool::{account_body, ACCOUNT_DISCRIMINATOR_LEN};

verus! {

/// Number of bytes that one tick takes.
pub const TICK_LEN: usize = 113;

/// Number of bytes that a tick array takes, after the account's
/// discriminator.
pub const TICK_ARRAY_LEN: usize = 9980;

/// The liquidity that starts or ends at one tick, and what had accrued
/// outside it when it was last crossed.
#[derive(Debug, Clone, Copy, PartialEq)]
pub struct Tick {
    pub initialized: bool,
    pub liquidity_net: i128,
    pub liquidity_gross: u128,
    /// In 64.64 fixed point.
    pub fee_growth_outside_a: u128,
    /// In 64.64 fixed point.
    pub fee_growth_outside_b: u128,
    /// Each in 64.64 fixed point.
    pub reward_growths_outside: [u128; NUM_REWARDS],
}

/// The ticks of one span of a pool.
#[derive(Debug, Clone, Copy)]
pub struct TickArray {
    pub start_tick_index: i32,
    pub ticks: [Tick; TICK_ARRAY_SIZE_USIZE],
    pub whirlpool: Address,
}

/// Where the `i`-th tick of a tick array begins.
pub open spec fn tick_offset(i: int) -> int {
    4 + i * TICK_LEN
}

/// Whether the flag of each of the first `n` ticks is 0 or 1.
pub open spec fn flags_valid(bytes: Seq<u8>, n: int) -> bool {
    forall|i: int| 0 <= i < n ==> #[trigger] bytes[tick_offset(i)] <= 1
}

impl Tick {
    /// Whether the tick is what the `TICK_LEN` bytes of `bytes` from
    /// `offset` on hold: each field in turn, integers least significant byte
    /// first, a flag as 0 or 1, nothing between the fields.
    pub open spec fn is_decoding_of(self, bytes: Seq<u8>, offset: int) -> bool {
        &&& bytes[offset] == flag_byte(self.initialized)
        &&& self.liquidity_net == signed_of(le_value(field(bytes, offset + 1, 16)), 16)
        &&& self.liquidity_gross == le_value(field(bytes, offset + 17, 16))
        &&& self.fee_growth_outside_a == le_value(field(bytes, offset + 33, 16))
        &&& self.fee_growth_outside_b == le_value(field(bytes, offset + 49, 16))
        &&& forall|i: int|
            0 <= i < NUM_REWARDS ==> #[trigger] self.reward_growths_outside@[i] == le_value(
                field(bytes, offset + 65 + 16 * i, 16),
            )
    }

    /// Decodes the tick that starts at `offset`.
    pub fn deserialize_at(data: &[u8], offset: usize) -> (r: Result<Tick, DecodeError>)
        requires
            offset + TICK_LEN <= data@.len(),
        ensures
            match r {
                Ok(tick) => tick.is_decoding_of(data@, offset as int),
                Err(e) => data@[offset as int] > 1 && e == (DecodeError::InvalidFlag { offset }),
            },
    {
        let total: usize = data.len();
        assert(offset + TICK_LEN <= total);
        let flag: u8 = data[offset];
        if flag > 1 {
            return Err(DecodeError::InvalidFlag { offset });
        }
        let reward_growths_outside: [u128; NUM_REWARDS] = [
            read_u128(data, offset + 65),
            read_u128(data, offset + 81),
            read_u128(data, offset + 97),
        ];
        Ok(
            Tick {
                initialized: flag == 1,
                liquidity_net: read_i128(data, offset + 1),
                liquidity_gross: read_u128(data, offset + 17),
                fee_growth_outside_a: read_u128(data, offset + 33),
                fee_growth_outside_b: read_u128(data, offset + 49),
                reward_growths_outside,
            },
        )
    }

    /// Decodes a tick from the front of `data`.
    pub fn deserialize(data: &[u8]) -> (r: Result<Tick, DecodeError>)
        ensures
            match r {
                Ok(tick) => data@.len() >= TICK_LEN && tick.is_decoding_of(data@, 0),
                Err(DecodeError::BufferTooShort { needed, got }) => data@.len() < TICK_LEN
                    && needed == TICK_LEN && got == data@.len(),
                Err(DecodeError::InvalidFlag { offset }) => data@.len() >= TICK_LEN && offset == 0
                    && data@[0] > 1,
            },
    {
        if data.len() < TICK_LEN {
            return Err(DecodeError::BufferTooShort { needed: TICK_LEN, got: data.len() });
        }
        Tick::deserialize_at(data, 0)
    }
}

impl Default for Tick {
    /// The tick that holds nothing.
    fn default() -> (tick: Tick)
        ensures
            !tick.initialized,
            tick.liquidity_net == 0,
            tick.liquidity_gross == 0,
            tick.fee_growth_outside_a == 0,
            tick.fee_growth_outside_b == 0,
            forall|i: int| 0 <= i < NUM_REWARDS ==> tick.reward_growths_outside@[i] == 0,
    {
        Tick {
            initialized: false,
            liquidity_net: 0,
            liquidity_gross: 0,
            fee_growth_outside_a: 0,
            fee_growth_outside_b: 0,
            reward_growths_outside: [0u128;3],
        }
    }
}

impl TickArray {
    /// Whether the tick array is what the first `TICK_ARRAY_LEN` bytes of
    /// `bytes` hold: the first tick index, the ticks in turn, and the
    /// pool's address, nothing between them.
    pub open spec fn is_decoding_of(self, bytes: Seq<u8>) -> bool {
        &&& self.start_tick_index == signed_of(le_value(field(bytes, 0, 4)), 4)
        &&& forall|i: int|
            0 <= i < TICK_ARRAY_SIZE_USIZE ==> (#[trigger] self.ticks@[i]).is_decoding_of(
                bytes,
                tick_offset(i),
            )
        &&& self.whirlpool@ == field(bytes, 9948, 32)
    }

    /// Decodes a tick array from the front of `data`, which starts after the
    /// account's discriminator. The length is checked, and that each tick's
    /// flag is 0 or 1: whatever else the fields hold is handed on as it is.
    /// Of several flags that are neither, the first is reported.
    pub fn deserialize(data: &[u8]) -> (r: Result<TickArray, DecodeError>)
        ensures
            match r {
                Ok(array) => data@.len() >= TICK_ARRAY_LEN && flags_valid(
                    data@,
                    TICK_ARRAY_SIZE_USIZE as int,
                ) && array.is_decoding_of(data@),
                Err(DecodeError::BufferTooShort { needed, got }) => data@.len() < TICK_ARRAY_LEN
                    && needed == TICK_ARRAY_LEN && got == data@.len(),
                Err(DecodeError::InvalidFlag { offset }) => data@.len() >= TICK_ARRAY_LEN
                    && data@[offset as int] > 1 && exists|i: int|
                    0 <= i < TICK_ARRAY_SIZE_USIZE && offset == tick_offset(i) && flags_valid(
                        data@,
                        i,
                    ),
            },
    {
        if data.len() < TICK_ARRAY_LEN {
            return Err(DecodeError::BufferTooShort { needed: TICK_ARRAY_LEN, got: data.len() });
        }
        let start_tick_index = read_i32(data, 0);
        let mut ticks: [Tick; TICK_ARRAY_SIZE_USIZE] = [Tick::default();88];
        let mut i: usize = 0;
        while i < TICK_ARRAY_SIZE_USIZE
            invariant
                i <= TICK_ARRAY_SIZE_USIZE,
                data@.len() >= TICK_ARRAY_LEN,
                flags_valid(data@, i as int),
                forall|k: int|
                    0 <= k < i ==> (#[trigger] ticks@[k]).is_decoding_of(data@, tick_offset(k)),
            decreases TICK_ARRAY_SIZE_USIZE - i,
        {
            let offset: usize = 4 + i * TICK_LEN;
            match Tick::deserialize_at(data, offset) {
                Ok(tick) => {
                    ticks[i] = tick;
                },
                Err(e) => {
                    assert(offset == tick_offset(i as int));
                    return Err(e);
                },
            }
            i = i + 1;
        }
        Ok(TickArray { start_tick_index, ticks, whirlpool: Address::new(read_32_bytes(data, 9948)) })
    }

    /// Decodes a tick array from an account's data: the discriminator is
    /// passed over, not read.
    pub fn deserialize_account(account: &[u8]) -> (r: Result<TickArray, DecodeError>)
        ensures
            match r {
                Ok(array) => account@.len() >= ACCOUNT_DISCRIMINATOR_LEN + TICK_ARRAY_LEN
                    && flags_valid(account_body(account@), TICK_ARRAY_SIZE_USIZE as int)
                    && array.is_decoding_of(account_body(account@)),
                Err(DecodeError::BufferTooShort { needed, got }) => account@.len()
                    < ACCOUNT_DISCRIMINATOR_LEN + TICK_ARRAY_LEN && needed
                    == ACCOUNT_DISCRIMINATOR_LEN + TICK_ARRAY_LEN && got == account@.len(),
                Err(DecodeError::InvalidFlag { offset }) => account@.len()
                    >= ACCOUNT_DISCRIMINATOR_LEN + TICK_ARRAY_LEN && account_body(
                    account@,
                )[offset as int] > 1 && exists|i: int|
                    0 <= i < TICK_ARRAY_SIZE_USIZE && offset == tick_offset(i) && flags_valid(
                        account_body(account@),
                        i,
                    ),
            },
    {
        if account.len() < ACCOUNT_DISCRIMINATOR_LEN + TICK_ARRAY_LEN {
            return Err(
                DecodeError::BufferTooShort {
                    needed: ACCOUNT_DISCRIMINATOR_LEN + TICK_ARRAY_LEN,
                    got: account.len(),
                },
            );
        }
        let body = slice_subrange(account, ACCOUNT_DISCRIMINATOR_LEN, account.len());
        TickArray::deserialize(body)
    }
}

impl Tick {
    /// The bytes of the tick: each field in turn, integers least significant
    /// byte first, the flag as 0 or 1, nothing between the fields.
    pub open spec fn encoding(self) -> Seq<u8> {
        seq![flag_byte(self.initialized)] + le_bytes(unsigned_of(self.liquidity_net as int, 16), 16)
            + le_bytes(self.liquidity_gross as nat, 16) + le_bytes(
            self.fee_growth_outside_a as nat,
            16,
        ) + le_bytes(self.fee_growth_outside_b as nat, 16) + le_bytes(
            self.reward_growths_outside@[0] as nat,
            16,
        ) + le_bytes(self.reward_growths_outside@[1] as nat, 16) + le_bytes(
            self.reward_growths_outside@[2] as nat,
            16,
        )
    }
}

/// The bytes of some ticks, one tick after the other.
pub open spec fn ticks_encoding(ticks: Seq<Tick>) -> Seq<u8>
    decreases ticks.len(),
{
    if ticks.len() == 0 {
        Seq::empty()
    } else {
        ticks[0].encoding() + ticks_encoding(ticks.drop_first())
    }
}

impl TickArray {
    /// The bytes of the tick array: the first tick index, the ticks in turn,
    /// and the pool's address, nothing between them.
    pub open spec fn encoding(self) -> Seq<u8> {
        le_bytes(unsigned_of(self.start_tick_index as int, 4), 4) + ticks_encoding(self.ticks@)
            + self.whirlpool@
    }
}

/// The bytes of a tick are `TICK_LEN` bytes, and wherever they stand in a
/// buffer, the tick is what the buffer holds there.
pub proof fn lemma_tick_round_trip(tick: Tick, before: Seq<u8>, after: Seq<u8>)
    ensures
        tick.encoding().len() == TICK_LEN,
        tick.is_decoding_of(before + tick.encoding() + after, before.len() as int),
        (before + tick.encoding() + after)[before.len() as int] <= 1,
{
    let bytes = before + tick.encoding() + after;
    let at = before.len() as int;
    let net = unsigned_of(tick.liquidity_net as int, 16);
    lemma_pow256_values();
    lemma_signed_of_unsigned_of(tick.liquidity_net as int, 16);
    lemma_le_bytes_len(net, 16);
    lemma_le_bytes_len(tick.liquidity_gross as nat, 16);
    lemma_le_bytes_len(tick.fee_growth_outside_a as nat, 16);
    lemma_le_bytes_len(tick.fee_growth_outside_b as nat, 16);
    lemma_le_value_of_le_bytes(net, 16);
    lemma_le_value_of_le_bytes(tick.liquidity_gross as nat, 16);
    lemma_le_value_of_le_bytes(tick.fee_growth_outside_a as nat, 16);
    lemma_le_value_of_le_bytes(tick.fee_growth_outside_b as nat, 16);
    assert forall|i: int| 0 <= i < NUM_REWARDS implies le_bytes(
        tick.reward_growths_outside@[i] as nat,
        16,
    ).len() == 16 && le_value(le_bytes(tick.reward_growths_outside@[i] as nat, 16))
        == tick.reward_growths_outside@[i] by {
        lemma_le_bytes_len(tick.reward_growths_outside@[i] as nat, 16);
        lemma_le_value_of_le_bytes(tick.reward_growths_outside@[i] as nat, 16);
    }
    assert(bytes[at] == flag_byte(tick.initialized));
    assert(field(bytes, at + 1, 16) =~= le_bytes(net, 16));
    assert(field(bytes, at + 17, 16) =~= le_bytes(tick.liquidity_gross as nat, 16));
    assert(field(bytes, at + 33, 16) =~= le_bytes(tick.fee_growth_outside_a as nat, 16));
    assert(field(bytes, at + 49, 16) =~= le_bytes(tick.fee_growth_outside_b as nat, 16));
    assert(field(bytes, at + 65, 16) =~= le_bytes(tick.reward_growths_outside@[0] as nat, 16));
    assert(field(bytes, at + 81, 16) =~= le_bytes(tick.reward_growths_outside@[1] as nat, 16));
    assert(field(bytes, at + 97, 16) =~= le_bytes(tick.reward_growths_outside@[2] as nat, 16));
}

/// The bytes of `n` ticks are `n` times `TICK_LEN` bytes.
pub proof fn lemma_ticks_encoding_len(ticks: Seq<Tick>)
    ensures
        ticks_encoding(ticks).len() == ticks.len() * TICK_LEN,
    decreases ticks.len(),
{
    if ticks.len() > 0 {
        lemma_tick_round_trip(ticks[0], Seq::empty(), Seq::empty());
        lemma_ticks_encoding_len(ticks.drop_first());
        assert(ticks.len() * TICK_LEN == TICK_LEN + (ticks.len() - 1) * TICK_LEN)
            by (nonlinear_arith);
    }
}

/// The bytes of some ticks are the bytes of those before the `i`-th, then
/// the bytes of the `i`-th, then the bytes of those after it.
pub proof fn lemma_ticks_encoding_split(ticks: Seq<Tick>, i: int)
    requires
        0 <= i < ticks.len(),
    ensures
        ticks_encoding(ticks) == ticks_encoding(ticks.take(i)) + ticks[i].encoding()
            + ticks_encoding(ticks.skip(i + 1)),
    decreases i,
{
    let rest = ticks.drop_first();
    if i == 0 {
        assert(ticks.take(0) =~= Seq::<Tick>::empty());
        assert(ticks.skip(1) =~= rest);
        assert(ticks_encoding(ticks) =~= ticks_encoding(ticks.take(0)) + ticks[0].encoding()
            + ticks_encoding(ticks.skip(1)));
    } else {
        lemma_ticks_encoding_split(rest, i - 1);
        assert(ticks.take(i).drop_first() =~= rest.take(i - 1));
        assert(rest.skip(i) =~= ticks.skip(i + 1));
        assert(ticks.take(i)[0] == ticks[0]);
        assert(ticks_encoding(ticks) =~= ticks_encoding(ticks.take(i)) + ticks[i].encoding()
            + ticks_encoding(ticks.skip(i + 1)));
    }
}

/// The bytes of a tick array are `TICK_ARRAY_LEN` bytes, each flag among
/// them is 0 or 1, and decoding them, whatever follows them, gives the tick
/// array back.
pub proof fn lemma_tick_array_round_trip(array: TickArray, rest: Seq<u8>)
    ensures
        array.encoding().len() == TICK_ARRAY_LEN,
        flags_valid(array.encoding() + rest, TICK_ARRAY_SIZE_USIZE as int),
        array.is_decoding_of(array.encoding() + rest),
{
    let bytes = array.encoding() + rest;
    let start = unsigned_of(array.start_tick_index as int, 4);
    let ticks = array.ticks@;
    lemma_pow256_values();
    lemma_signed_of_unsigned_of(array.start_tick_index as int, 4);
    lemma_le_bytes_len(start, 4);
    lemma_le_value_of_le_bytes(start, 4);
    lemma_ticks_encoding_len(ticks);
    assert(field(bytes, 0, 4) =~= le_bytes(start, 4));
    assert(field(bytes, 9948, 32) =~= array.whirlpool@);
    assert forall|i: int| 0 <= i < TICK_ARRAY_SIZE_USIZE implies (#[trigger] ticks[i]).is_decoding_of(
        bytes,
        tick_offset(i),
    ) && bytes[tick_offset(i)] <= 1 by {
        let before = le_bytes(start, 4) + ticks_encoding(ticks.take(i));
        let after = ticks_encoding(ticks.skip(i + 1)) + array.whirlpool@ + rest;
        lemma_ticks_encoding_split(ticks, i);
        lemma_ticks_encoding_len(ticks.take(i));
        lemma_tick_round_trip(ticks[i], before, after);
        assert(before.len() == tick_offset(i));
        assert(bytes =~= before + ticks[i].encoding() + after);
    }
    assert forall|i: int| 0 <= i < TICK_ARRAY_SIZE_USIZE implies #[trigger] bytes[tick_offset(i)]
        <= 1 by {
        assert(ticks[i].is_decoding_of(bytes, tick_offset(i)));
    }
}

/// The bytes that hold a tick are the bytes of that tick.
pub proof fn lemma_tick_encoding_of_decoded(tick: Tick, bytes: Seq<u8>, offset: int)
    requires
        0 <= offset,
        offset + TICK_LEN <= bytes.len(),
        tick.is_decoding_of(bytes, offset),
    ensures
        tick.encoding() == field(bytes, offset, TICK_LEN as int),
{
    lemma_pow256_values();
    lemma_le_value_bound(field(bytes, offset + 1, 16));
    lemma_unsigned_of_signed_of(le_value(field(bytes, offset + 1, 16)), 16);
    lemma_le_bytes_of_le_value(field(bytes, offset + 1, 16));
    lemma_le_bytes_of_le_value(field(bytes, offset + 17, 16));
    lemma_le_bytes_of_le_value(field(bytes, offset + 33, 16));
    lemma_le_bytes_of_le_value(field(bytes, offset + 49, 16));
    lemma_le_bytes_of_le_value(field(bytes, offset + 65, 16));
    lemma_le_bytes_of_le_value(field(bytes, offset + 81, 16));
    lemma_le_bytes_of_le_value(field(bytes, offset + 97, 16));
    assert(tick.reward_growths_outside@[0] == le_value(field(bytes, offset + 65 + 16 * 0, 16)));
    assert(tick.reward_growths_outside@[1] == le_value(field(bytes, offset + 65 + 16 * 1, 16)));
    assert(tick.reward_growths_outside@[2] == le_value(field(bytes, offset + 65 + 16 * 2, 16)));
    assert(tick.encoding() =~= field(bytes, offset, TICK_LEN as int));
}

/// The bytes that hold some ticks, one after the other from `offset` on,
/// are the bytes of those ticks.
pub proof fn lemma_ticks_encoding_of_decoded(ticks: Seq<Tick>, bytes: Seq<u8>, offset: int)
    requires
        0 <= offset,
        offset + ticks.len() * TICK_LEN <= bytes.len(),
        forall|i: int|
            0 <= i < ticks.len() ==> (#[trigger] ticks[i]).is_decoding_of(
                bytes,
                offset + i * TICK_LEN,
            ),
    ensures
        ticks_encoding(ticks) == field(bytes, offset, ticks.len() * TICK_LEN),
    decreases ticks.len(),
{
    if ticks.len() == 0 {
        assert(ticks_encoding(ticks) =~= field(bytes, offset, 0));
    } else {
        let rest = ticks.drop_first();
        assert(ticks.len() * TICK_LEN == TICK_LEN + rest.len() * TICK_LEN) by (nonlinear_arith)
            requires
                rest.len() == ticks.len() - 1,
        ;
        assert(ticks[0].is_decoding_of(bytes, offset + 0 * TICK_LEN));
        lemma_tick_encoding_of_decoded(ticks[0], bytes, offset);
        assert forall|i: int| 0 <= i < rest.len() implies (#[trigger] rest[i]).is_decoding_of(
            bytes,
            offset + TICK_LEN + i * TICK_LEN,
        ) by {
            assert(rest[i] == ticks[i + 1]);
            assert(offset + (i + 1) * TICK_LEN == offset + TICK_LEN + i * TICK_LEN)
                by (nonlinear_arith);
        }
        lemma_ticks_encoding_of_decoded(rest, bytes, offset + TICK_LEN);
        assert(ticks_encoding(ticks) =~= field(bytes, offset, ticks.len() * TICK_LEN));
    }
}

/// The bytes that hold a tick array are the bytes of that tick array:
/// encoding what was decoded gives the buffer back, as far as it was read.
pub proof fn lemma_tick_array_encoding_of_decoded(array: TickArray, bytes: Seq<u8>)
    requires
        bytes.len() >= TICK_ARRAY_LEN,
        array.is_decoding_of(bytes),
    ensures
        array.encoding() == bytes.subrange(0, TICK_ARRAY_LEN as int),
{
    lemma_pow256_values();
    lemma_le_value_bound(field(bytes, 0, 4));
    lemma_unsigned_of_signed_of(le_value(field(bytes, 0, 4)), 4);
    lemma_le_bytes_of_le_value(field(bytes, 0, 4));
    assert forall|i: int| 0 <= i < array.ticks@.len() implies (
    #[trigger] array.ticks@[i]).is_decoding_of(bytes, 4 + i * TICK_LEN) by {
        assert(tick_offset(i) == 4 + i * TICK_LEN);
    }
    lemma_ticks_encoding_of_decoded(array.ticks@, bytes, 4);
    assert(array.encoding() =~= bytes.subrange(0, TICK_ARRAY_LEN as int));
}

/// A run of bytes holds one tick only.
pub proof fn lemma_tick_decoding_unique(a: Tick, b: Tick, bytes: Seq<u8>, offset: int)
    requires
        a.is_decoding_of(bytes, offset),
        b.is_decoding_of(bytes, offset),
    ensures
        a == b,
{
    assert forall|i: int| 0 <= i < NUM_REWARDS implies a.reward_growths_outside@[i]
        == b.reward_growths_outside@[i] by {}
    assert(a.reward_growths_outside =~= b.reward_growths_outside);
}

/// A buffer holds one tick array only: what `TickArray::deserialize` returns
/// for it is the tick array that it holds.
pub proof fn lemma_tick_array_decoding_unique(a: TickArray, b: TickArray, bytes: Seq<u8>)
    requires
        a.is_decoding_of(bytes),
        b.is_decoding_of(bytes),
    ensures
        a == b,
{
    lemma_address_by_bytes(a.whirlpool, b.whirlpool);
    assert forall|i: int| 0 <= i < TICK_ARRAY_SIZE_USIZE implies a.ticks@[i] == b.ticks@[i] by {
        lemma_tick_decoding_unique(a.ticks@[i], b.ticks@[i], bytes, tick_offset(i));
    }
    assert(a.ticks =~= b.ticks);
}

} // verus!

//! Little-endian integers in byte buffers: what a run of bytes stands for,
//! and readers and writers that keep to it.

use vstd::prelude::*;
use vstd::arithmetic::div_mod::lemma_fundamental_div_mod;

verus! {

/// 256 to the power `n`.
pub open spec fn pow256(n: nat) -> nat
    decreases n,
{
    if n == 0 {
        1
    } else {
        256 * pow256((n - 1) as nat)
    }
}

/// The number that `bytes` spell, least significant byte first.
pub open spec fn le_value(bytes: Seq<u8>) -> nat
    decreases bytes.len(),
{
    if bytes.len() == 0 {
        0
    } else {
        bytes[0] as nat + 256 * le_value(bytes.drop_first())
    }
}

/// The `width` lowest bytes of `value`, least significant byte first.
pub open spec fn le_bytes(value: nat, width: nat) -> Seq<u8>
    decreases width,
{
    if width == 0 {
        Seq::empty()
    } else {
        seq![(value % 256) as u8] + le_bytes(value / 256, (width - 1) as nat)
    }
}

/// The byte that stands for a flag.
pub open spec fn flag_byte(flag: bool) -> u8 {
    if flag {
        1
    } else {
        0
    }
}

/// The signed number whose two's complement over `width` bytes is `value`.
pub open spec fn signed_of(value: nat, width: nat) -> int {
    if 2 * value < pow256(width) {
        value as int
    } else {
        value - pow256(width)
    }
}

/// The two's complement of `value` over `width` bytes.
pub open spec fn unsigned_of(value: int, width: nat) -> nat {
    if value >= 0 {
        value as nat
    } else {
        (value + pow256(width)) as nat
    }
}

/// The powers of 256 that bound the integer types.
pub proof fn lemma_pow256_values()
    ensures
        pow256(0) == 1,
        pow256(1) == 0x100,
        pow256(2) == 0x1_0000,
        pow256(4) == 0x1_0000_0000,
        pow256(8) == 0x1_0000_0000_0000_0000,
        pow256(16) == 0x1_0000_0000_0000_0000_0000_0000_0000_0000,
{
    reveal_with_fuel(pow256, 17);
}

/// Powers of 256 grow with the exponent.
pub proof fn lemma_pow256_monotone(m: nat, n: nat)
    requires
        m <= n,
    ensures
        0 < pow256(m) <= pow256(n),
    decreases n,
{
    if n == 0 {
    } else if m == n {
        lemma_pow256_monotone((m - 1) as nat, (n - 1) as nat);
    } else {
        lemma_pow256_monotone(m, (n - 1) as nat);
    }
}

/// A run of `n` bytes spells a number below 256 to the `n`.
pub proof fn lemma_le_value_bound(bytes: Seq<u8>)
    ensures
        le_value(bytes) < pow256(bytes.len()),
    decreases bytes.len(),
{
    if bytes.len() > 0 {
        lemma_le_value_bound(bytes.drop_first());
    }
}

/// Bytes that are all zero spell zero.
pub proof fn lemma_le_value_of_zeros(bytes: Seq<u8>)
    requires
        forall|i: int| 0 <= i < bytes.len() ==> bytes[i] == 0,
    ensures
        le_value(bytes) == 0,
    decreases bytes.len(),
{
    if bytes.len() > 0 {
        lemma_le_value_of_zeros(bytes.drop_first());
    }
}

/// `le_bytes` yields as many bytes as asked for.
pub proof fn lemma_le_bytes_len(value: nat, width: nat)
    ensures
        le_bytes(value, width).len() == width,
    decreases width,
{
    if width > 0 {
        lemma_le_bytes_len(value / 256, (width - 1) as nat);
    }
}

/// Reading back what was written gives the number that was written, as far
/// as it fits the width.
pub proof fn lemma_le_value_of_le_bytes(value: nat, width: nat)
    requires
        value < pow256(width),
    ensures
        le_value(le_bytes(value, width)) == value,
    decreases width,
{
    if width > 0 {
        let rest = le_bytes(value / 256, (width - 1) as nat);
        let all = le_bytes(value, width);
        lemma_fundamental_div_mod(value as int, 256);
        lemma_le_value_of_le_bytes(value / 256, (width - 1) as nat);
        lemma_le_bytes_len(value / 256, (width - 1) as nat);
        assert(all.drop_first() =~= rest);
    }
}

/// Writing the number that a run of bytes spells gives back those bytes.
pub proof fn lemma_le_bytes_of_le_value(bytes: Seq<u8>)
    ensures
        le_bytes(le_value(bytes), bytes.len()) == bytes,
    decreases bytes.len(),
{
    if bytes.len() > 0 {
        let rest = bytes.drop_first();
        lemma_le_bytes_of_le_value(rest);
        let v = le_value(bytes);
        assert(v % 256 == bytes[0] as nat && v / 256 == le_value(rest)) by {
            vstd::arithmetic::div_mod::lemma_fundamental_div_mod_converse(
                v as int,
                256,
                le_value(rest) as int,
                bytes[0] as int,
            );
        }
        assert(le_bytes(v, bytes.len()) =~= bytes);
    }
}

/// A two's complement read back as a signed number is the number it was made
/// from.
pub proof fn lemma_signed_of_unsigned_of(value: int, width: nat)
    requires
        -(pow256(width) as int) <= 2 * value < pow256(width),
    ensures
        signed_of(unsigned_of(value, width), width) == value,
        unsigned_of(value, width) < pow256(width),
{
}

/// The number spelt by the `width` bytes of `bytes` from `offset` on.
pub fn read_le(bytes: &[u8], offset: usize, width: usize) -> (value: u128)
    requires
        width <= 16,
        offset + width <= bytes@.len(),
    ensures
        value == le_value(bytes@.subrange(offset as int, offset + width)),
        value < pow256(width as nat),
{
    let total: usize = bytes.len();
    let mut value: u128 = 0;
    let mut done: usize = 0;
    proof {
        assert(bytes@.subrange(offset + width, offset + width).len() == 0);
    }
    while done < width
        invariant
            done <= width <= 16,
            offset + width <= bytes@.len() == total,
            value == le_value(bytes@.subrange(offset + width - done, offset + width)),
            value < pow256(done as nat),
        decreases width - done,
    {
        let byte = bytes[offset + width - done - 1];
        proof {
            let tail = bytes@.subrange(offset + width - done, offset + width);
            let longer = bytes@.subrange(offset + width - done - 1, offset + width);
            assert(longer.drop_first() =~= tail);
            assert(longer[0] == byte);
            lemma_pow256_monotone((done + 1) as nat, 16);
            lemma_pow256_values();
        }
        value = value * 256 + byte as u128;
        done = done + 1;
    }
    value
}

/// Appends the `width` lowest bytes of `value` to `out`, least significant
/// byte first.
pub fn write_le(out: &mut Vec<u8>, value: u128, width: usize)
    ensures
        final(out)@ == old(out)@ + le_bytes(value as nat, width as nat),
{
    let mut rest: u128 = value;
    let mut done: usize = 0;
    while done < width
        invariant
            done <= width,
            out@ + le_bytes(rest as nat, (width - done) as nat) == old(out)@ + le_bytes(
                value as nat,
                width as nat,
            ),
        decreases width - done,
    {
        let byte: u8 = (rest % 256) as u8;
        proof {
            let more = le_bytes(rest as nat / 256, (width - done - 1) as nat);
            assert(le_bytes(rest as nat, (width - done) as nat) == seq![byte] + more);
            assert(out@.push(byte) + more =~= out@ + (seq![byte] + more));
        }
        out.push(byte);
        rest = rest / 256;
        done = done + 1;
    }
    proof {
        assert(out@ + le_bytes(rest as nat, 0) =~= out@);
    }
}

/// The two's complement of a signed number that was read from a two's
/// complement is that two's complement.
pub proof fn lemma_unsigned_of_signed_of(value: nat, width: nat)
    requires
        value < pow256(width),
    ensures
        unsigned_of(signed_of(value, width), width) == value,
{
}

/// The `width` bytes of `bytes` from `offset` on.
pub open spec fn field(bytes: Seq<u8>, offset: int, width: int) -> Seq<u8> {
    bytes.subrange(offset, offset + width)
}

/// The `u16` at `offset`.
pub fn read_u16(bytes: &[u8], offset: usize) -> (value: u16)
    requires
        offset + 2 <= bytes@.len(),
    ensures
        value == le_value(field(bytes@, offset as int, 2)),
{
    proof {
        lemma_pow256_values();
    }
    read_le(bytes, offset, 2) as u16
}

/// The `u32` at `offset`.
pub fn read_u32(bytes: &[u8], offset: usize) -> (value: u32)
    requires
        offset + 4 <= bytes@.len(),
    ensures
        value == le_value(field(bytes@, offset as int, 4)),
{
    proof {
        lemma_pow256_values();
    }
    read_le(bytes, offset, 4) as u32
}

/// The `u64` at `offset`.
pub fn read_u64(bytes: &[u8], offset: usize) -> (value: u64)
    requires
        offset + 8 <= bytes@.len(),
    ensures
        value == le_value(field(bytes@, offset as int, 8)),
{
    proof {
        lemma_pow256_values();
    }
    read_le(bytes, offset, 8) as u64
}

/// The `u128` at `offset`.
pub fn read_u128(bytes: &[u8], offset: usize) -> (value: u128)
    requires
        offset + 16 <= bytes@.len(),
    ensures
        value == le_value(field(bytes@, offset as int, 16)),
{
    read_le(bytes, offset, 16)
}

/// The `i32` at `offset`, in two's complement.
pub fn read_i32(bytes: &[u8], offset: usize) -> (value: i32)
    requires
        offset + 4 <= bytes@.len(),
    ensures
        value == signed_of(le_value(field(bytes@, offset as int, 4)), 4),
{
    proof {
        lemma_pow256_values();
    }
    let raw: u128 = read_le(bytes, offset, 4);
    if raw < 0x8000_0000 {
        raw as i32
    } else {
        (raw as i64 - 0x1_0000_0000) as i32
    }
}

/// The `i128` at `offset`, in two's complement.
pub fn read_i128(bytes: &[u8], offset: usize) -> (value: i128)
    requires
        offset + 16 <= bytes@.len(),
    ensures
        value == signed_of(le_value(field(bytes@, offset as int, 16)), 16),
{
    proof {
        lemma_pow256_values();
    }
    let raw: u128 = read_le(bytes, offset, 16);
    if raw < 0x8000_0000_0000_0000_0000_0000_0000_0000 {
        raw as i128
    } else {
        -((u128::MAX - raw) as i128) - 1
    }
}

/// The 32 bytes at `offset`.
pub fn read_32_bytes(bytes: &[u8], offset: usize) -> (value: [u8; 32])
    requires
        offset + 32 <= bytes@.len(),
    ensures
        value@ == field(bytes@, offset as int, 32),
{
    let total: usize = bytes.len();
    let mut value: [u8; 32] = [0u8;32];
    let mut i: usize = 0;
    while i < 32
        invariant
            i <= 32,
            offset + 32 <= bytes@.len() == total,
            forall|k: int| 0 <= k < i ==> value@[k] == bytes@[offset + k],
        decreases 32 - i,
    {
        value[i] = bytes[offset + i];
        i = i + 1;
    }
    proof {
        assert(value@ =~= field(bytes@, offset as int, 32));
    }
    value
}

} // verus!

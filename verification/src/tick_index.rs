//! From the current tick of a pool to the tick arrays that a swap must
//! reference: where each array starts, and what its address is.

use vstd::prelude::*;
use vstd::arithmetic::div_mod::{
    lemma_fundamental_div_mod,
    lemma_fundamental_div_mod_converse,
};
use vstd::string::StringSliceAdditionalSpecFns;
use vstd::string::StrSliceExecFns;
use crate::address::{program_address, seeds_view, try_find_program_address, Address};
use crate::ascii::{decimal_ascii, i32_decimal_ascii, lemma_decimal_ascii_injective};
use crate::constant::{MAX_TICK_INDEX, MIN_TICK_INDEX, TICK_ARRAY_SIZE};
use crate::error::DomainError;

verus! {

/// Number of tick indices that one tick array spans.
pub open spec fn ticks_in_array(tick_spacing: u16) -> int {
    TICK_ARRAY_SIZE as int * tick_spacing as int
}

/// First tick index of the array that lies `offset` arrays away from the one
/// holding `tick_current_index`.
pub open spec fn start_tick_index(tick_current_index: int, tick_spacing: u16, offset: int) -> int {
    (tick_current_index / ticks_in_array(tick_spacing) + offset) * ticks_in_array(tick_spacing)
}

/// Whether an array that starts at `start` lies wholly inside the tick range.
pub open spec fn array_in_tick_range(start: int, tick_spacing: u16) -> bool {
    MIN_TICK_INDEX as int <= start && start + ticks_in_array(tick_spacing) <= MAX_TICK_INDEX as int
}

/// What `tickutil_get_start_tick_index` returns.
pub open spec fn start_tick_outcome(
    tick_current_index: i32,
    tick_spacing: u16,
    offset: i32,
) -> Result<i32, DomainError> {
    let start = start_tick_index(tick_current_index as int, tick_spacing, offset as int);
    if tick_spacing == 0 {
        Err(DomainError::ZeroTickSpacing)
    } else if array_in_tick_range(start, tick_spacing) {
        Ok(start as i32)
    } else {
        Err(DomainError::TickIndexOutOfRange)
    }
}

/// Quotient of `a` by a positive `b`, rounded towards negative infinity.
pub fn div_floor(a: i32, b: i32) -> (q: i32)
    requires
        b > 0,
    ensures
        q == a as int / b as int,
{
    if a >= 0 {
        a / b
    } else {
        let below: i64 = -(a as i64) - 1;
        let k: i64 = below / (b as i64);
        proof {
            let r = below as int % b as int;
            lemma_fundamental_div_mod(below as int, b as int);
            assert(a as int == (-k - 1) * b + (b - r - 1)) by (nonlinear_arith)
                requires
                    below as int == b * k + r,
                    a as int == -(below as int) - 1,
            ;
            lemma_fundamental_div_mod_converse(a as int, b as int, -k - 1, b - r - 1);
        }
        (-k - 1) as i32
    }
}

/// First tick index of the tick array `offset` arrays away from the one that
/// holds `tick_current_index`, or the reason why there is no such array.
pub fn tickutil_get_start_tick_index(
    tick_current_index: i32,
    tick_spacing: u16,
    offset: i32,
) -> (r: Result<i32, DomainError>)
    ensures
        r == start_tick_outcome(tick_current_index, tick_spacing, offset),
{
    if tick_spacing == 0 {
        return Err(DomainError::ZeroTickSpacing);
    }
    let ticks: i32 = TICK_ARRAY_SIZE * (tick_spacing as i32);
    let real_index: i32 = div_floor(tick_current_index, ticks);
    let steps: i64 = real_index as i64 + offset as i64;
    assert(-4294967296 * 5767080 <= steps * ticks <= 4294967296 * 5767080) by (nonlinear_arith)
        requires
            -4294967296 <= steps <= 4294967296,
            0 < ticks <= 5767080,
    ;
    let start: i64 = steps * (ticks as i64);
    if (MIN_TICK_INDEX as i64) <= start && start + (ticks as i64) <= (MAX_TICK_INDEX as i64) {
        Ok(start as i32)
    } else {
        Err(DomainError::TickIndexOutOfRange)
    }
}

/// Every tick array starts on a multiple of its span, and the array found for
/// a tick is found again from the array's own first tick.
pub proof fn lemma_start_tick_aligned_and_stable(
    tick_current_index: int,
    tick_spacing: u16,
    offset: int,
)
    requires
        tick_spacing > 0,
    ensures
        start_tick_index(tick_current_index, tick_spacing, offset) % ticks_in_array(tick_spacing)
            == 0,
        start_tick_index(
            start_tick_index(tick_current_index, tick_spacing, 0),
            tick_spacing,
            0,
        ) == start_tick_index(tick_current_index, tick_spacing, 0),
{
    let span = ticks_in_array(tick_spacing);
    let q = tick_current_index / span;
    lemma_fundamental_div_mod_converse((q + offset) * span, span, q + offset, 0);
    lemma_fundamental_div_mod_converse(q * span, span, q, 0);
}

/// The array found for a tick holds that tick: the tick lies at or after the
/// array's first index and before the next array's, for negative ticks as
/// for the others.
pub proof fn lemma_start_tick_holds_tick(tick_current_index: int, tick_spacing: u16)
    requires
        tick_spacing > 0,
    ensures
        start_tick_index(tick_current_index, tick_spacing, 0) <= tick_current_index,
        tick_current_index < start_tick_index(tick_current_index, tick_spacing, 0)
            + ticks_in_array(tick_spacing),
{
    let span = ticks_in_array(tick_spacing);
    lemma_fundamental_div_mod(tick_current_index, span);
    assert((tick_current_index / span + 0) * span == span * (tick_current_index / span))
        by (nonlinear_arith);
}

/// Offset of the `i`-th tick array of a swap: the arrays of a swap from A to
/// B lie at falling ticks, those of a swap from B to A at rising ticks.
pub open spec fn swap_offset(a_to_b: bool, i: int) -> int {
    if a_to_b {
        -i
    } else {
        i
    }
}

/// The two directions of a swap share the array that holds the current tick
/// and no other: an array of one direction starts where an array of the
/// other does only if both are the first of their walk.
pub proof fn lemma_directions_share_first_array_only(
    tick_current_index: int,
    tick_spacing: u16,
    i: int,
    j: int,
)
    requires
        tick_spacing > 0,
        0 <= i < 3,
        0 <= j < 3,
    ensures
        start_tick_index(tick_current_index, tick_spacing, swap_offset(true, i))
            == start_tick_index(tick_current_index, tick_spacing, swap_offset(false, j)) <==> i
            == 0 && j == 0,
{
    let span = ticks_in_array(tick_spacing);
    let q = tick_current_index / span;
    assert((q - i) * span == (q + j) * span <==> i + j == 0) by (nonlinear_arith)
        requires
            span > 0,
    ;
}

/// Whatever first tick index `tickutil_get_start_tick_index` returns is a
/// multiple of the span of an array, and asked for the array of that tick
/// index it returns the same index again.
pub proof fn lemma_start_tick_outcome_aligned_and_stable(
    tick_current_index: i32,
    tick_spacing: u16,
    offset: i32,
)
    requires
        start_tick_outcome(tick_current_index, tick_spacing, offset) is Ok,
    ensures
        ({
            let start = start_tick_outcome(tick_current_index, tick_spacing, offset)->Ok_0;
            &&& start as int % ticks_in_array(tick_spacing) == 0
            &&& start_tick_outcome(start, tick_spacing, 0) == Ok::<i32, DomainError>(start)
        }),
{
    let span = ticks_in_array(tick_spacing);
    let start = start_tick_index(tick_current_index as int, tick_spacing, offset as int);
    lemma_start_tick_aligned_and_stable(tick_current_index as int, tick_spacing, offset as int);
    lemma_fundamental_div_mod(start, span);
    assert((start / span + 0) * span == span * (start / span)) by (nonlinear_arith);
}

/// The first tick index that `tickutil_get_start_tick_index` returns for a
/// tick with no offset is at or below that tick, and less than one span
/// below it: for negative ticks as for the others.
pub proof fn lemma_start_tick_outcome_holds_tick(tick_current_index: i32, tick_spacing: u16)
    requires
        start_tick_outcome(tick_current_index, tick_spacing, 0) is Ok,
    ensures
        ({
            let start = start_tick_outcome(tick_current_index, tick_spacing, 0)->Ok_0;
            start <= tick_current_index < start + ticks_in_array(tick_spacing)
        }),
{
    lemma_start_tick_holds_tick(tick_current_index as int, tick_spacing);
}

/// Where both directions of a swap have their `i`-th and `j`-th tick array,
/// the two start at the same tick only if both are the first of their walk.
pub proof fn lemma_directions_outcomes_share_first_array_only(
    tick_current_index: i32,
    tick_spacing: u16,
    i: int,
    j: int,
)
    requires
        0 <= i < 3,
        0 <= j < 3,
        start_tick_outcome(tick_current_index, tick_spacing, swap_offset(true, i) as i32) is Ok,
        start_tick_outcome(tick_current_index, tick_spacing, swap_offset(false, j) as i32) is Ok,
    ensures
        start_tick_outcome(tick_current_index, tick_spacing, swap_offset(true, i) as i32)
            == start_tick_outcome(tick_current_index, tick_spacing, swap_offset(false, j) as i32)
            <==> i == 0 && j == 0,
{
    lemma_directions_share_first_array_only(tick_current_index as int, tick_spacing, i, j);
}

/// The seeds from which the pool program derives the address of the tick
/// array of `pool` that starts at `start`: the text `tick_array`, the pool's
/// address, and `start` in decimal.
pub open spec fn tick_array_seeds(pool: Seq<u8>, start: int) -> Seq<Seq<u8>> {
    seq!["tick_array".spec_bytes(), pool, decimal_ascii(start)]
}

/// The address of the tick array of `pool` that starts at `start`, where the
/// program `program_id` has one.
pub open spec fn tick_array_address(program_id: Seq<u8>, pool: Seq<u8>, start: int) -> Option<
    Seq<u8>,
> {
    match program_address(tick_array_seeds(pool, start), program_id) {
        Some((address, _)) => Some(address),
        None => None,
    }
}

/// The `i`-th tick array that a swap must reference, or the reason why the
/// swap cannot be made: the array starts `i` spans from the one that holds
/// the current tick, towards falling ticks for a swap from A to B and
/// towards rising ticks otherwise.
pub open spec fn swap_tick_array(
    tick_current_index: i32,
    tick_spacing: u16,
    a_to_b: bool,
    program_id: Seq<u8>,
    pool: Seq<u8>,
    i: int,
) -> Result<Seq<u8>, DomainError> {
    match start_tick_outcome(tick_current_index, tick_spacing, swap_offset(a_to_b, i) as i32) {
        Err(e) => Err(e),
        Ok(start) => match tick_array_address(program_id, pool, start as int) {
            Some(address) => Ok(address),
            None => Err(DomainError::NoProgramAddress),
        },
    }
}

/// The three tick arrays of a swap in the order of the walk, or the first
/// reason met on the walk why one of them cannot be had.
pub open spec fn swap_tick_arrays(
    tick_current_index: i32,
    tick_spacing: u16,
    a_to_b: bool,
    program_id: Seq<u8>,
    pool: Seq<u8>,
) -> Result<Seq<Seq<u8>>, DomainError> {
    let first = swap_tick_array(tick_current_index, tick_spacing, a_to_b, program_id, pool, 0);
    let second = swap_tick_array(tick_current_index, tick_spacing, a_to_b, program_id, pool, 1);
    let third = swap_tick_array(tick_current_index, tick_spacing, a_to_b, program_id, pool, 2);
    match (first, second, third) {
        (Ok(a), Ok(b), Ok(c)) => Ok(seq![a, b, c]),
        (Err(e), _, _) => Err(e),
        (_, Err(e), _) => Err(e),
        (_, _, Err(e)) => Err(e),
    }
}

/// The addresses of a swap's tick arrays, each as its bytes.
pub open spec fn addresses_view(addresses: [Address; 3]) -> Seq<Seq<u8>> {
    seq![addresses@[0]@, addresses@[1]@, addresses@[2]@]
}

/// Address of the tick array of pool `whirlpool_pubkey` that starts at
/// `start_tick_index`, as the program `program_id` derives it.
pub fn pdautil_get_tick_array(
    program_id: &Address,
    whirlpool_pubkey: &Address,
    start_tick_index: i32,
) -> (r: Result<Address, DomainError>)
    ensures
        match r {
            Ok(address) => tick_array_address(program_id@, whirlpool_pubkey@, start_tick_index as int)
                == Some(address@),
            Err(e) => e == DomainError::NoProgramAddress && tick_array_address(
                program_id@,
                whirlpool_pubkey@,
                start_tick_index as int,
            ) is None,
        },
{
    let mut seeds: Vec<Vec<u8>> = Vec::new();
    seeds.push("tick_array".as_bytes_vec());
    seeds.push(whirlpool_pubkey.to_vec());
    seeds.push(i32_decimal_ascii(start_tick_index));
    proof {
        assert(seeds_view(&seeds) =~= tick_array_seeds(
            whirlpool_pubkey@,
            start_tick_index as int,
        ));
    }
    match try_find_program_address(&seeds, program_id) {
        Some((address, _bump)) => Ok(address),
        None => Err(DomainError::NoProgramAddress),
    }
}

/// Addresses of the three tick arrays that a swap must reference, in the
/// order in which the price crosses them.
pub fn poolutil_get_tick_array_pubkeys_for_swap(
    tick_current_index: i32,
    tick_spacing: u16,
    a_to_b: bool,
    program_id: &Address,
    whirlpool_pubkey: &Address,
) -> (r: Result<[Address; 3], DomainError>)
    ensures
        match r {
            Ok(pubkeys) => swap_tick_arrays(
                tick_current_index,
                tick_spacing,
                a_to_b,
                program_id@,
                whirlpool_pubkey@,
            ) == Ok::<Seq<Seq<u8>>, DomainError>(addresses_view(pubkeys)),
            Err(e) => swap_tick_arrays(
                tick_current_index,
                tick_spacing,
                a_to_b,
                program_id@,
                whirlpool_pubkey@,
            ) == Err::<Seq<Seq<u8>>, DomainError>(e),
        },
{
    let mut offset: i32 = 0;
    let mut pubkeys: [Address; 3] = [Address::default();3];
    let mut i: usize = 0;
    while i < 3
        invariant
            i <= 3,
            offset as int == swap_offset(a_to_b, i as int),
            forall|k: int|
                0 <= k < i ==> #[trigger] swap_tick_array(
                    tick_current_index,
                    tick_spacing,
                    a_to_b,
                    program_id@,
                    whirlpool_pubkey@,
                    k,
                ) == Ok::<Seq<u8>, DomainError>(pubkeys@[k]@),
        decreases 3 - i,
    {
        let start_tick_index = match tickutil_get_start_tick_index(
            tick_current_index,
            tick_spacing,
            offset,
        ) {
            Ok(start) => start,
            Err(e) => {
                return Err(e);
            },
        };
        let tick_array_pubkey = match pdautil_get_tick_array(
            program_id,
            whirlpool_pubkey,
            start_tick_index,
        ) {
            Ok(address) => address,
            Err(e) => {
                return Err(e);
            },
        };
        pubkeys[i] = tick_array_pubkey;
        offset = if a_to_b {
            offset - 1
        } else {
            offset + 1
        };
        i = i + 1;
    }
    Ok(pubkeys)
}

/// The two directions of a swap ask for the same tick array only where both
/// ask for the one that holds the current tick: the seeds of any other pair
/// of arrays differ.
pub proof fn lemma_directions_share_first_seeds_only(
    tick_current_index: int,
    tick_spacing: u16,
    pool: Seq<u8>,
    i: int,
    j: int,
)
    requires
        tick_spacing > 0,
        0 <= i < 3,
        0 <= j < 3,
    ensures
        tick_array_seeds(
            pool,
            start_tick_index(tick_current_index, tick_spacing, swap_offset(true, i)),
        ) == tick_array_seeds(
            pool,
            start_tick_index(tick_current_index, tick_spacing, swap_offset(false, j)),
        ) <==> i == 0 && j == 0,
{
    let falling = start_tick_index(tick_current_index, tick_spacing, swap_offset(true, i));
    let rising = start_tick_index(tick_current_index, tick_spacing, swap_offset(false, j));
    lemma_directions_share_first_array_only(tick_current_index, tick_spacing, i, j);
    if tick_array_seeds(pool, falling) == tick_array_seeds(pool, rising) {
        assert(tick_array_seeds(pool, falling)[2] == decimal_ascii(falling));
        assert(tick_array_seeds(pool, rising)[2] == decimal_ascii(rising));
        lemma_decimal_ascii_injective(falling, rising);
    }
}

/// A swap whose walk leaves the tick range has no tick arrays: where one of
/// the three arrays would start below the smallest tick index or end above
/// the largest, `poolutil_get_tick_array_pubkeys_for_swap` fails.
pub proof fn lemma_walk_outside_tick_range_fails(
    tick_current_index: i32,
    tick_spacing: u16,
    a_to_b: bool,
    program_id: Seq<u8>,
    pool: Seq<u8>,
    i: int,
)
    requires
        0 <= i < 3,
        !array_in_tick_range(
            start_tick_index(tick_current_index as int, tick_spacing, swap_offset(a_to_b, i)),
            tick_spacing,
        ),
    ensures
        swap_tick_arrays(tick_current_index, tick_spacing, a_to_b, program_id, pool) is Err,
{
    assert(swap_tick_array(tick_current_index, tick_spacing, a_to_b, program_id, pool, i) is Err);
}

} // verus!

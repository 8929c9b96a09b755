//! The address of a tick array, for callers that hold their addresses by
//! value.

use vstd::prelude::*;
use vstd::string::StrSliceExecFns;
use crate::address::{seeds_view, try_find_program_address, Address};
use crate::ascii::i32_decimal_ascii;
use crate::error::DomainError;
use crate::tick_index::{tick_array_address, tick_array_seeds};

verus! {

/// Derives addresses for the pool program.
#[derive(Debug, Clone, Copy, PartialEq, Eq, Structural)]
pub struct PdaUtils;

impl Default for PdaUtils {
    /// The one value of the type.
    fn default() -> (utils: PdaUtils)
        ensures
            utils == PdaUtils,
    {
        PdaUtils {  }
    }
}

impl PdaUtils {
    /// The one value of the type.
    pub fn new() -> (utils: PdaUtils)
        ensures
            utils == PdaUtils,
    {
        PdaUtils {  }
    }

    /// Address of the tick array of pool `whirlpool_address` that starts at
    /// `start_tick`, as the program `program_id` derives it: from the text
    /// `tick_array`, the pool's address, and `start_tick` in decimal.
    pub fn get_tick_array_pda(program_id: Address, whirlpool_address: Address, start_tick: i32) -> (r:
        Result<Address, DomainError>)
        ensures
            match r {
                Ok(address) => tick_array_address(
                    program_id@,
                    whirlpool_address@,
                    start_tick as int,
                ) == Some(address@),
                Err(e) => e == DomainError::NoProgramAddress && tick_array_address(
                    program_id@,
                    whirlpool_address@,
                    start_tick as int,
                ) is None,
            },
    {
        let mut seeds: Vec<Vec<u8>> = Vec::new();
        seeds.push("tick_array".as_bytes_vec());
        seeds.push(whirlpool_address.to_vec());
        seeds.push(i32_decimal_ascii(start_tick));
        proof {
            assert(seeds_view(&seeds) =~= tick_array_seeds(whirlpool_address@, start_tick as int));
        }
        match try_find_program_address(&seeds, &program_id) {
            Some((address, _bump)) => Ok(address),
            None => Err(DomainError::NoProgramAddress),
        }
    }
}

} // verus!

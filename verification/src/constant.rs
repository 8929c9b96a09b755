//! Protocol constants shared by the decoder, the address derivation and the
//! quote estimator.

use vstd::prelude::*;

verus! {

/// Largest tick index the pool program accepts.
pub const MAX_TICK_INDEX: i32 = 443636;

/// Smallest tick index the pool program accepts.
pub const MIN_TICK_INDEX: i32 = -443636;

/// Number of ticks held by one tick array.
pub const TICK_ARRAY_SIZE: i32 = 88;

/// Number of reward slots of a pool and of a tick.
pub const NUM_REWARDS: usize = 3;

/// `TICK_ARRAY_SIZE` as an array length.
pub const TICK_ARRAY_SIZE_USIZE: usize = 88;

/// Base58 text of the pool program's address.
pub const ORCA_WHIRLPOOL_PROGRAM_ID: &'static str = "whirLbMiicVdio4qvUfM5KAg6Ct8VwpYzGff3uctyCc";

/// Decimals of wrapped SOL.
pub const WSOL_DECIMALS: i8 = 9;

/// Decimals of USDC.
pub const USDC_DECIMALS: i8 = 6;

/// Base58 text of the wrapped SOL mint.
pub const WSOL_ADDRESS: &'static str = "So11111111111111111111111111111111111111112";

/// Base58 text of the USDC mint.
pub const USDC_ADDRESS: &'static str = "EPjFWdd5AufqSSqeM2qN1xzybapC8G4wEGGkZwyTDt1v";

/// Base58 text of the WSOL/USDC pool with the 0.3% fee tier.
pub const WSOL_USDC_3000: &'static str = "HJPjoWUrhoZzkNfRpHuieeFk9WcZWjwy6PBjZ81ngndJ";

} // verus!

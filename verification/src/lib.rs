//! Client-side support for swapping against a concentrated-liquidity pool:
//! decoding pool accounts, deriving the accounts a swap must reference, and
//! estimating the minimum acceptable output of a trade.

pub mod address;
pub mod ascii;
pub mod constant;
pub mod decimal;
pub mod error;
pub mod le_bytes;
pub mod quote;
pub mod swap;
pub mod tick_array;
pub mod tick_index;
pub mod utils;
pub mod whirlpool;

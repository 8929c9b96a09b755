//! The two ways a call into this library can fail.

use vstd::prelude::*;

verus! {

/// The input bytes cannot hold the value that was asked for.
#[derive(Debug, Clone, Copy, PartialEq, Eq, Structural)]
pub enum DecodeError {
    /// The buffer holds `got` bytes where the layout takes `needed`.
    BufferTooShort { needed: usize, got: usize },
    /// The byte at `offset` stands for a flag and is neither 0 nor 1.
    InvalidFlag { offset: usize },
}

/// A pool value or a caller's parameter lies outside what the protocol admits.
#[derive(Debug, Clone, Copy, PartialEq, Eq, Structural)]
pub enum DomainError {
    /// The pool's tick spacing is zero.
    ZeroTickSpacing,
    /// A tick array would start below the smallest tick index or end above
    /// the largest one.
    TickIndexOutOfRange,
    /// The total fee rate reaches 1,000,000 (one hundred percent).
    FeeRateTooLarge,
    /// The slippage reaches one hundred percent.
    SlippageTooLarge,
    /// The price text is not a decimal number.
    InvalidPrice,
    /// The price cannot be represented as a decimal number.
    PriceOutOfRange,
    /// No bump seed yields an address off the curve for these seeds.
    NoProgramAddress,
}

} // verus!

//! Errors of the matcher program.
use vstd::prelude::*;

verus! {

/// Why the matcher refused an instruction. Each variant stands for the Solana
/// program error of the same name.
#[derive(Debug, Clone, Copy, PartialEq, Eq, Structural)]
pub enum MatcherError {
    /// Fewer accounts than the instruction needs.
    NotEnoughAccountKeys,
    /// The LP PDA did not sign.
    MissingRequiredSignature,
    /// The matcher context account is not writable.
    InvalidAccountData,
    /// The matcher context account is too small.
    AccountDataTooSmall,
    /// The instruction data is not a well-formed matcher call.
    InvalidInstructionData,
    /// The execution price does not fit in a `u64`.
    ArithmeticOverflow,
}

} // verus!

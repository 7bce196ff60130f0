//! Typed failure codes surfaced to the host runtime.

use vstd::prelude::*;

verus! {

/// Every way an instruction can fail. A failing instruction aborts
/// before any ledger mutation is committed, so re-submission is safe.
#[derive(Clone, Copy, Debug, PartialEq, Eq, Structural)]
pub enum StakePoolError {
    /// A pool for this match already exists; a pool is created once.
    AlreadyInUse,
    /// No pool exists for the given match identifier.
    PoolNotExist,
    /// The instruction buffer is shorter than the opcode's payload.
    MalformedInstruction,
    /// The tag byte is not a recognized opcode.
    UnknownOpcode,
    /// The fee denominator is zero or the numerator exceeds it.
    InvalidFeeRatio,
    /// A bet of zero amount was submitted.
    InvalidAmount,
    /// The pool's state does not admit the requested operation.
    PoolStateClosed,
    /// The outcome index is not one of the three valid picks.
    InvalidOutcome,
    /// A winning outcome has already been recorded for this pool.
    AlreadyResolved,
    /// The bet does not entitle its holder to a payout here.
    InvalidClaim,
    /// This bet record's payout has already been claimed.
    AlreadyClaimed,
    /// A deposit would push a pool's escrow beyond the ledger's
    /// integer width.
    ArithmeticOverflow,
    /// The reward calculation failed: the winning side holds no stake,
    /// or the payout does not fit the ledger's integer width.
    CalculateRewardFailed,
    /// The fund-transfer collaborator reported a failure.
    TransferError,
}

impl StakePoolError {
    /// The numeric code under which the host runtime reports this error.
    pub open spec fn code_spec(self) -> u32 {
        match self {
            StakePoolError::AlreadyInUse => 0,
            StakePoolError::PoolNotExist => 1,
            StakePoolError::MalformedInstruction => 2,
            StakePoolError::UnknownOpcode => 3,
            StakePoolError::InvalidFeeRatio => 4,
            StakePoolError::InvalidAmount => 5,
            StakePoolError::PoolStateClosed => 6,
            StakePoolError::InvalidOutcome => 7,
            StakePoolError::AlreadyResolved => 8,
            StakePoolError::InvalidClaim => 9,
            StakePoolError::AlreadyClaimed => 10,
            StakePoolError::ArithmeticOverflow => 11,
            StakePoolError::CalculateRewardFailed => 12,
            StakePoolError::TransferError => 13,
        }
    }

    /// Numeric code for the host runtime's typed failure reporting.
    pub fn code(&self) -> (c: u32)
        ensures
            c == self.code_spec(),
    {
        match self {
            StakePoolError::AlreadyInUse => 0,
            StakePoolError::PoolNotExist => 1,
            StakePoolError::MalformedInstruction => 2,
            StakePoolError::UnknownOpcode => 3,
            StakePoolError::InvalidFeeRatio => 4,
            StakePoolError::InvalidAmount => 5,
            StakePoolError::PoolStateClosed => 6,
            StakePoolError::InvalidOutcome => 7,
            StakePoolError::AlreadyResolved => 8,
            StakePoolError::InvalidClaim => 9,
            StakePoolError::AlreadyClaimed => 10,
            StakePoolError::ArithmeticOverflow => 11,
            StakePoolError::CalculateRewardFailed => 12,
            StakePoolError::TransferError => 13,
        }
    }
}

} // verus!

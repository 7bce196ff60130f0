//! Instruction wire codec: the byte contract exposed to the host
//! runtime.
//!
//! Byte 0 is the opcode; the rest is the opcode's payload, laid out as
//! fixed-width little-endian fields with no variable-length encoding.
//! Decoding rejects a buffer shorter than the opcode's payload and an
//! unrecognized tag byte; encoding is the mirror operation and
//! round-trips exactly.

use vstd::prelude::*;
use vstd::bytes::{
    lemma_auto_spec_u64_to_from_le_bytes, spec_u64_from_le_bytes, spec_u64_to_le_bytes,
    u64_from_le_bytes, u64_to_le_bytes,
};
use vstd::slice::{slice_index_get, slice_subrange};
use crate::error::StakePoolError;
use crate::fee::{Fee, InitArgs};
use crate::ledger::Address;

verus! {

/// One operation of the engine, as carried on the wire.
#[derive(Clone, Copy, Debug, PartialEq, Eq, Structural)]
pub enum StakePoolInstruction {
    /// Opcode 0: creates the match pool, state `Open`.
    /// Payload: fee denominator and numerator, 8 bytes each.
    Initialize(InitArgs),
    /// Opcode 1: records a wager and escrows its stake.
    /// Payload: match identifier, outcome byte, stake amount.
    DepositBet {
        /// Match to bet on.
        match_id: u64,
        /// The pick: side A = 0, draw = 1, side B = 2.
        outcome: u8,
        /// Stake to escrow.
        amount: u64,
    },
    /// Opcode 2: pays one winning record out and settles it.
    /// Payload: match identifier and bet record identifier.
    ClaimRewards {
        /// Match the record belongs to.
        match_id: u64,
        /// Identifier of the bet record to settle.
        record_id: u64,
    },
    /// Opcode 3: read-only payout preview for one bettor; no mutation.
    /// Payload: match identifier and the bettor's 32-byte address.
    CalculateRewards {
        /// Match to preview.
        match_id: u64,
        /// Whose wagers to preview.
        bettor: Address,
    },
    /// Opcode 4: read-only query of everything escrowed for one match.
    /// Payload: match identifier.
    GetPoolBalance {
        /// Match to query.
        match_id: u64,
    },
}

/// Wire form of an address: its four 64-bit words, each little-endian,
/// least significant word first.
pub open spec fn spec_address_to_le_bytes(a: Address) -> Seq<u8> {
    spec_u64_to_le_bytes(a.w0) + spec_u64_to_le_bytes(a.w1) + spec_u64_to_le_bytes(a.w2)
        + spec_u64_to_le_bytes(a.w3)
}

/// The address read from 32 wire bytes.
pub open spec fn spec_address_from_le_bytes(s: Seq<u8>) -> Address
    recommends
        s.len() == 32,
{
    Address {
        w0: spec_u64_from_le_bytes(s.subrange(0, 8)),
        w1: spec_u64_from_le_bytes(s.subrange(8, 16)),
        w2: spec_u64_from_le_bytes(s.subrange(16, 24)),
        w3: spec_u64_from_le_bytes(s.subrange(24, 32)),
    }
}

/// The exact bytes of one encoded instruction.
pub open spec fn spec_serialize(i: StakePoolInstruction) -> Seq<u8> {
    match i {
        StakePoolInstruction::Initialize(args) => seq![0u8] + spec_u64_to_le_bytes(
            args.fee.denominator,
        ) + spec_u64_to_le_bytes(args.fee.numerator),
        StakePoolInstruction::DepositBet { match_id, outcome, amount } => seq![1u8]
            + spec_u64_to_le_bytes(match_id) + seq![outcome] + spec_u64_to_le_bytes(amount),
        StakePoolInstruction::ClaimRewards { match_id, record_id } => seq![2u8]
            + spec_u64_to_le_bytes(match_id) + spec_u64_to_le_bytes(record_id),
        StakePoolInstruction::CalculateRewards { match_id, bettor } => seq![3u8]
            + spec_u64_to_le_bytes(match_id) + spec_address_to_le_bytes(bettor),
        StakePoolInstruction::GetPoolBalance { match_id } => seq![4u8] + spec_u64_to_le_bytes(
            match_id,
        ),
    }
}

/// The instruction read from a byte buffer: the tag byte selects the
/// opcode, a buffer shorter than the opcode's fixed payload is
/// malformed, and trailing bytes beyond the payload are ignored.
pub open spec fn spec_deserialize(input: Seq<u8>) -> Result<
    StakePoolInstruction,
    StakePoolError,
> {
    if input.len() < 1 {
        Err(StakePoolError::MalformedInstruction)
    } else if input[0] == 0 {
        if input.len() < 17 {
            Err(StakePoolError::MalformedInstruction)
        } else {
            Ok(
                StakePoolInstruction::Initialize(
                    InitArgs {
                        fee: Fee {
                            denominator: spec_u64_from_le_bytes(input.subrange(1, 9)),
                            numerator: spec_u64_from_le_bytes(input.subrange(9, 17)),
                        },
                    },
                ),
            )
        }
    } else if input[0] == 1 {
        if input.len() < 18 {
            Err(StakePoolError::MalformedInstruction)
        } else {
            Ok(
                StakePoolInstruction::DepositBet {
                    match_id: spec_u64_from_le_bytes(input.subrange(1, 9)),
                    outcome: input[9],
                    amount: spec_u64_from_le_bytes(input.subrange(10, 18)),
                },
            )
        }
    } else if input[0] == 2 {
        if input.len() < 17 {
            Err(StakePoolError::MalformedInstruction)
        } else {
            Ok(
                StakePoolInstruction::ClaimRewards {
                    match_id: spec_u64_from_le_bytes(input.subrange(1, 9)),
                    record_id: spec_u64_from_le_bytes(input.subrange(9, 17)),
                },
            )
        }
    } else if input[0] == 3 {
        if input.len() < 41 {
            Err(StakePoolError::MalformedInstruction)
        } else {
            Ok(
                StakePoolInstruction::CalculateRewards {
                    match_id: spec_u64_from_le_bytes(input.subrange(1, 9)),
                    bettor: spec_address_from_le_bytes(input.subrange(9, 41)),
                },
            )
        }
    } else if input[0] == 4 {
        if input.len() < 9 {
            Err(StakePoolError::MalformedInstruction)
        } else {
            Ok(
                StakePoolInstruction::GetPoolBalance {
                    match_id: spec_u64_from_le_bytes(input.subrange(1, 9)),
                },
            )
        }
    } else {
        Err(StakePoolError::UnknownOpcode)
    }
}

impl StakePoolInstruction {
    /// Encodes this instruction into its wire bytes.
    pub fn serialize(&self) -> (out: Vec<u8>)
        ensures
            out@ == spec_serialize(*self),
    {
        let mut out: Vec<u8> = Vec::new();
        match self {
            StakePoolInstruction::Initialize(args) => {
                out.push(0u8);
                let mut b = u64_to_le_bytes(args.fee.denominator);
                out.append(&mut b);
                let mut b = u64_to_le_bytes(args.fee.numerator);
                out.append(&mut b);
            },
            StakePoolInstruction::DepositBet { match_id, outcome, amount } => {
                out.push(1u8);
                let mut b = u64_to_le_bytes(*match_id);
                out.append(&mut b);
                out.push(*outcome);
                let mut b = u64_to_le_bytes(*amount);
                out.append(&mut b);
            },
            StakePoolInstruction::ClaimRewards { match_id, record_id } => {
                out.push(2u8);
                let mut b = u64_to_le_bytes(*match_id);
                out.append(&mut b);
                let mut b = u64_to_le_bytes(*record_id);
                out.append(&mut b);
            },
            StakePoolInstruction::CalculateRewards { match_id, bettor } => {
                out.push(3u8);
                let mut b = u64_to_le_bytes(*match_id);
                out.append(&mut b);
                let mut b = u64_to_le_bytes(bettor.w0);
                out.append(&mut b);
                let mut b = u64_to_le_bytes(bettor.w1);
                out.append(&mut b);
                let mut b = u64_to_le_bytes(bettor.w2);
                out.append(&mut b);
                let mut b = u64_to_le_bytes(bettor.w3);
                out.append(&mut b);
            },
            StakePoolInstruction::GetPoolBalance { match_id } => {
                out.push(4u8);
                let mut b = u64_to_le_bytes(*match_id);
                out.append(&mut b);
            },
        }
        proof {
            assert(out@ =~= spec_serialize(*self));
        }
        out
    }

    /// Decodes an instruction from a byte buffer.
    pub fn deserialize(input: &[u8]) -> (r: Result<StakePoolInstruction, StakePoolError>)
        ensures
            r == spec_deserialize(input@),
    {
        if input.len() < 1 {
            return Err(StakePoolError::MalformedInstruction);
        }
        let op = *slice_index_get(input, 0);
        match op {
            0 => {
                if input.len() < 17 {
                    Err(StakePoolError::MalformedInstruction)
                } else {
                    let denominator = u64_from_le_bytes(slice_subrange(input, 1, 9));
                    let numerator = u64_from_le_bytes(slice_subrange(input, 9, 17));
                    Ok(StakePoolInstruction::Initialize(InitArgs { fee: Fee { denominator, numerator } }))
                }
            },
            1 => {
                if input.len() < 18 {
                    Err(StakePoolError::MalformedInstruction)
                } else {
                    let match_id = u64_from_le_bytes(slice_subrange(input, 1, 9));
                    let outcome = *slice_index_get(input, 9);
                    let amount = u64_from_le_bytes(slice_subrange(input, 10, 18));
                    Ok(StakePoolInstruction::DepositBet { match_id, outcome, amount })
                }
            },
            2 => {
                if input.len() < 17 {
                    Err(StakePoolError::MalformedInstruction)
                } else {
                    let match_id = u64_from_le_bytes(slice_subrange(input, 1, 9));
                    let record_id = u64_from_le_bytes(slice_subrange(input, 9, 17));
                    Ok(StakePoolInstruction::ClaimRewards { match_id, record_id })
                }
            },
            3 => {
                if input.len() < 41 {
                    Err(StakePoolError::MalformedInstruction)
                } else {
                    let match_id = u64_from_le_bytes(slice_subrange(input, 1, 9));
                    let bettor = Address {
                        w0: u64_from_le_bytes(slice_subrange(input, 9, 17)),
                        w1: u64_from_le_bytes(slice_subrange(input, 17, 25)),
                        w2: u64_from_le_bytes(slice_subrange(input, 25, 33)),
                        w3: u64_from_le_bytes(slice_subrange(input, 33, 41)),
                    };
                    proof {
                        assert(input@.subrange(9, 41).subrange(0, 8) =~= input@.subrange(9, 17));
                        assert(input@.subrange(9, 41).subrange(8, 16) =~= input@.subrange(17, 25));
                        assert(input@.subrange(9, 41).subrange(16, 24) =~= input@.subrange(25, 33));
                        assert(input@.subrange(9, 41).subrange(24, 32) =~= input@.subrange(33, 41));
                    }
                    Ok(StakePoolInstruction::CalculateRewards { match_id, bettor })
                }
            },
            4 => {
                if input.len() < 9 {
                    Err(StakePoolError::MalformedInstruction)
                } else {
                    let match_id = u64_from_le_bytes(slice_subrange(input, 1, 9));
                    Ok(StakePoolInstruction::GetPoolBalance { match_id })
                }
            },
            _ => Err(StakePoolError::UnknownOpcode),
        }
    }
}

/// Law: the codec round-trips. Decoding the encoding of any
/// representable instruction yields that instruction back.
pub proof fn lemma_round_trip(i: StakePoolInstruction)
    ensures
        spec_deserialize(spec_serialize(i)) == Ok::<StakePoolInstruction, StakePoolError>(i),
{
    lemma_auto_spec_u64_to_from_le_bytes();
    let s = spec_serialize(i);
    match i {
        StakePoolInstruction::Initialize(args) => {
            assert(s.subrange(1, 9) =~= spec_u64_to_le_bytes(args.fee.denominator));
            assert(s.subrange(9, 17) =~= spec_u64_to_le_bytes(args.fee.numerator));
        },
        StakePoolInstruction::DepositBet { match_id, outcome, amount } => {
            assert(s.subrange(1, 9) =~= spec_u64_to_le_bytes(match_id));
            assert(s[9] == outcome);
            assert(s.subrange(10, 18) =~= spec_u64_to_le_bytes(amount));
        },
        StakePoolInstruction::ClaimRewards { match_id, record_id } => {
            assert(s.subrange(1, 9) =~= spec_u64_to_le_bytes(match_id));
            assert(s.subrange(9, 17) =~= spec_u64_to_le_bytes(record_id));
        },
        StakePoolInstruction::CalculateRewards { match_id, bettor } => {
            assert(s.subrange(1, 9) =~= spec_u64_to_le_bytes(match_id));
            assert(s.subrange(9, 41).subrange(0, 8) =~= spec_u64_to_le_bytes(bettor.w0));
            assert(s.subrange(9, 41).subrange(8, 16) =~= spec_u64_to_le_bytes(bettor.w1));
            assert(s.subrange(9, 41).subrange(16, 24) =~= spec_u64_to_le_bytes(bettor.w2));
            assert(s.subrange(9, 41).subrange(24, 32) =~= spec_u64_to_le_bytes(bettor.w3));
        },
        StakePoolInstruction::GetPoolBalance { match_id } => {
            assert(s.subrange(1, 9) =~= spec_u64_to_le_bytes(match_id));
        },
    }
}

} // verus!

//! Pari-mutuel betting-pool ledger.
//!
//! Users wager on one of three mutually exclusive outcomes of a match
//! (side A, draw, side B). Funds are escrowed into per-outcome pools;
//! once the match resolves, winners claim their stake back plus a
//! proportional share of the losing pools, minus a manager fee levied
//! on the winnings. The crate provides the pool-accounting engine:
//! pool lifecycle, bet recording, proportional payout calculation,
//! claim settlement with exactly-once semantics, and the instruction
//! wire codec exposed to the host runtime.

pub mod error;
pub mod fee;
pub mod instruction;
pub mod ledger;
pub mod payout;
pub mod pool;
pub mod processor;

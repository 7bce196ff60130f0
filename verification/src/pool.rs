//! Match pool: per-outcome escrow totals and the pool lifecycle.
//!
//! A pool moves strictly forward through `Open -> Locked -> Resolved ->
//! Closed`; no state is ever revisited. Bets are accepted only while
//! `Open` and before `lock_time`; the winning outcome is recorded
//! exactly once, at the transition to `Resolved`.

use vstd::prelude::*;
use crate::error::StakePoolError;
use crate::fee::{Fee, InitArgs};

verus! {

/// Lifecycle state of a match pool.
#[derive(Clone, Copy, Debug, PartialEq, Eq, Structural)]
pub enum PoolState {
    /// Accepting bets.
    Open,
    /// Betting window closed; awaiting resolution.
    Locked,
    /// Winning outcome recorded; payouts claimable.
    Resolved,
    /// Claim window closed; the pool remains readable for audit.
    Closed,
}

/// Aggregate betting pool for one match: escrowed amount per outcome
/// (side A, draw, side B) and lifecycle state.
pub struct MatchPool {
    /// External identifier of the match; immutable.
    pub match_id: u64,
    /// Escrowed amount per outcome, indexed A = 0, draw = 1, B = 2.
    /// Non-decreasing while `Open`, frozen once `Locked`.
    pub outcome_totals: Vec<u64>,
    /// Lifecycle state; moves strictly forward.
    pub state: PoolState,
    /// After this host timestamp, no further bets are accepted.
    pub lock_time: u64,
    /// Set exactly once, at the transition to `Resolved`.
    pub winning_outcome: Option<u8>,
    /// Manager fee; immutable after pool creation.
    pub fee: Fee,
}

impl MatchPool {
    /// Everything escrowed in this pool, over all three outcomes.
    pub open spec fn total_escrow(self) -> int {
        self.outcome_totals@[0] + self.outcome_totals@[1] + self.outcome_totals@[2]
    }

    /// Well-formedness: three outcome slots, a usable fee ratio, a total
    /// that fits the ledger's integer width, and a winning outcome that
    /// exists exactly from resolution on and names a valid pick.
    pub open spec fn wf(self) -> bool {
        &&& self.outcome_totals@.len() == 3
        &&& self.fee.is_valid()
        &&& self.total_escrow() <= u64::MAX
        &&& ((self.state is Resolved || self.state is Closed) <==> self.winning_outcome is Some)
        &&& (self.winning_outcome matches Some(k) ==> k < 3)
    }

    /// The two pools agree on everything but the lifecycle fields.
    pub open spec fn same_but_lifecycle(self, other: MatchPool) -> bool {
        &&& self.match_id == other.match_id
        &&& self.outcome_totals@ == other.outcome_totals@
        &&& self.lock_time == other.lock_time
        &&& self.fee == other.fee
    }

    /// Creates the pool for one match: empty per-outcome escrow, state
    /// `Open`, no winning outcome. Rejects a malformed fee ratio.
    pub fn create(match_id: u64, lock_time: u64, init: InitArgs) -> (r: Result<MatchPool, StakePoolError>)
        ensures
            init.fee.is_valid() ==> (r matches Ok(p)
                && p.wf()
                && p.match_id == match_id
                && p.lock_time == lock_time
                && p.fee == init.fee
                && p.state is Open
                && p.winning_outcome is None
                && p.outcome_totals@ =~= seq![0u64, 0u64, 0u64]),
            !init.fee.is_valid() ==> r == Err::<MatchPool, StakePoolError>(StakePoolError::InvalidFeeRatio),
    {
        if !init.fee.check_valid() {
            return Err(StakePoolError::InvalidFeeRatio);
        }
        let mut totals: Vec<u64> = Vec::new();
        totals.push(0);
        totals.push(0);
        totals.push(0);
        Ok(MatchPool {
            match_id,
            outcome_totals: totals,
            state: PoolState::Open,
            lock_time,
            winning_outcome: None,
            fee: init.fee,
        })
    }

    /// Explicit authorized lock: closes the betting window.
    pub fn lock(&mut self) -> (r: Result<(), StakePoolError>)
        requires
            old(self).wf(),
        ensures
            final(self).wf(),
            final(self).same_but_lifecycle(*old(self)),
            old(self).state is Open ==> (r is Ok
                && final(self).state is Locked
                && final(self).winning_outcome == old(self).winning_outcome),
            !(old(self).state is Open) ==> (r == Err::<(), StakePoolError>(StakePoolError::PoolStateClosed)
                && *final(self) == *old(self)),
    {
        match self.state {
            PoolState::Open => {
                self.state = PoolState::Locked;
                Ok(())
            },
            _ => Err(StakePoolError::PoolStateClosed),
        }
    }

    /// Time-triggered lock: an `Open` pool whose `lock_time` has passed
    /// moves to `Locked`; any other pool is left as it is. Returns
    /// whether the transition fired.
    pub fn lock_if_due(&mut self, now: u64) -> (locked: bool)
        requires
            old(self).wf(),
        ensures
            final(self).wf(),
            locked == (old(self).state is Open && now >= old(self).lock_time),
            locked ==> (final(self).same_but_lifecycle(*old(self))
                && final(self).state is Locked
                && final(self).winning_outcome == old(self).winning_outcome),
            !locked ==> *final(self) == *old(self),
    {
        match self.state {
            PoolState::Open => {
                if now >= self.lock_time {
                    self.state = PoolState::Locked;
                    true
                } else {
                    false
                }
            },
            _ => false,
        }
    }

    /// Authorized resolution: records the winning outcome, exactly once.
    /// Rejects an out-of-range pick, a second resolution, and a pool
    /// whose betting window was never closed or that is already closed.
    pub fn resolve(&mut self, winning: u8) -> (r: Result<(), StakePoolError>)
        requires
            old(self).wf(),
        ensures
            final(self).wf(),
            winning >= 3 ==> (r == Err::<(), StakePoolError>(StakePoolError::InvalidOutcome)
                && *final(self) == *old(self)),
            winning < 3 && old(self).state is Locked ==> (r is Ok
                && final(self).same_but_lifecycle(*old(self))
                && final(self).state is Resolved
                && final(self).winning_outcome == Some(winning)),
            winning < 3 && old(self).state is Resolved ==> (r == Err::<(), StakePoolError>(StakePoolError::AlreadyResolved)
                && *final(self) == *old(self)),
            winning < 3 && (old(self).state is Open || old(self).state is Closed) ==> (r == Err::<(), StakePoolError>(StakePoolError::PoolStateClosed)
                && *final(self) == *old(self)),
    {
        if winning >= 3 {
            return Err(StakePoolError::InvalidOutcome);
        }
        match self.state {
            PoolState::Locked => {
                self.state = PoolState::Resolved;
                self.winning_outcome = Some(winning);
                Ok(())
            },
            PoolState::Resolved => Err(StakePoolError::AlreadyResolved),
            _ => Err(StakePoolError::PoolStateClosed),
        }
    }

    /// Administrative sweep once claimable funds have been withdrawn:
    /// a `Resolved` pool moves to `Closed` and rejects further claims,
    /// but remains readable.
    pub fn close(&mut self) -> (r: Result<(), StakePoolError>)
        requires
            old(self).wf(),
        ensures
            final(self).wf(),
            old(self).state is Resolved ==> (r is Ok
                && final(self).same_but_lifecycle(*old(self))
                && final(self).state is Closed
                && final(self).winning_outcome == old(self).winning_outcome),
            !(old(self).state is Resolved) ==> (r == Err::<(), StakePoolError>(StakePoolError::PoolStateClosed)
                && *final(self) == *old(self)),
    {
        match self.state {
            PoolState::Resolved => {
                self.state = PoolState::Closed;
                Ok(())
            },
            _ => Err(StakePoolError::PoolStateClosed),
        }
    }

    /// Escrows one stake into the given outcome's slot. Rejects an
    /// amount that would push the pool's total beyond the ledger's
    /// integer width; nothing else is validated here.
    pub fn add_stake(&mut self, outcome: u8, amount: u64) -> (r: Result<(), StakePoolError>)
        requires
            old(self).wf(),
            outcome < 3,
        ensures
            final(self).wf(),
            old(self).total_escrow() + amount > u64::MAX ==> (r == Err::<(), StakePoolError>(
                StakePoolError::ArithmeticOverflow,
            ) && *final(self) == *old(self)),
            old(self).total_escrow() + amount <= u64::MAX ==> (r is Ok
                && final(self).outcome_totals@ == old(self).outcome_totals@.update(
                outcome as int,
                (old(self).outcome_totals@[outcome as int] + amount) as u64,
            )
                && final(self).match_id == old(self).match_id
                && final(self).state == old(self).state
                && final(self).lock_time == old(self).lock_time
                && final(self).winning_outcome == old(self).winning_outcome
                && final(self).fee == old(self).fee
                && final(self).total_escrow() == old(self).total_escrow() + amount),
    {
        let total = self.balance();
        if amount > u64::MAX - total {
            return Err(StakePoolError::ArithmeticOverflow);
        }
        let t = self.outcome_totals[outcome as usize];
        self.outcome_totals.set(outcome as usize, t + amount);
        Ok(())
    }

    /// The amount escrowed in this pool, over all outcomes.
    pub fn balance(&self) -> (b: u64)
        requires
            self.wf(),
        ensures
            b == self.total_escrow(),
    {
        self.outcome_totals[0] + self.outcome_totals[1] + self.outcome_totals[2]
    }
}

} // verus!

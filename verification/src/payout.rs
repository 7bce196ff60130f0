//! Reward calculator: a winner's payout from the aggregate pool sizes,
//! the individual stake, and the manager fee.
//!
//! The payout returns the stake and adds a share of the losing pools
//! proportional to the stake's share of the winning pool; the fee is
//! levied on the winnings only, never on the returned principal.

use vstd::prelude::*;
use vstd::arithmetic::div_mod::{
    lemma_div_is_ordered, lemma_div_multiples_vanish, lemma_div_pos_is_pos,
    lemma_fundamental_div_mod, lemma_mod_bound,
};
use vstd::arithmetic::mul::{
    lemma_mul_is_distributive_add, lemma_mul_is_distributive_add_other_way,
    lemma_mul_nonnegative, lemma_mul_upper_bound,
};
use crate::error::StakePoolError;
use crate::fee::{apply_fee, fee_amount_of, lemma_fee_amount_le_gross};
use crate::ledger::{stake_on_outcome, BetRecord};
use crate::pool::{MatchPool, PoolState};

verus! {

/// Gross profit of a winning record in a resolved pool: the losing
/// pools shared in proportion to the record's stake within the winning
/// pool, rounded down.
pub open spec fn gross_profit_of(pool: MatchPool, rec: BetRecord) -> int
    recommends
        pool.wf(),
        pool.winning_outcome is Some,
{
    let w = pool.winning_outcome->0;
    let winning_total = pool.outcome_totals@[w as int] as int;
    let losing_total = pool.total_escrow() - winning_total;
    (rec.amount * losing_total) / winning_total
}

/// Functional model of the payout computation, error cases included:
/// claims are owed only in a resolved pool, only to this pool's match,
/// only to the winning outcome, and only while unclaimed. A drained
/// winning side and a result beyond the ledger's integer width both
/// fail the calculation with `CalculateRewardFailed`.
pub open spec fn payout_spec(pool: MatchPool, rec: BetRecord) -> Result<u64, StakePoolError>
    recommends
        pool.wf(),
{
    if !(pool.state is Resolved) {
        Err(StakePoolError::PoolStateClosed)
    } else {
        let w = pool.winning_outcome->0;
        if rec.match_id != pool.match_id {
            Err(StakePoolError::InvalidClaim)
        } else if rec.outcome != w {
            Err(StakePoolError::InvalidClaim)
        } else if rec.claimed {
            Err(StakePoolError::AlreadyClaimed)
        } else if pool.outcome_totals@[w as int] == 0 {
            Err(StakePoolError::CalculateRewardFailed)
        } else {
            let profit = gross_profit_of(pool, rec);
            if profit > u64::MAX {
                Err(StakePoolError::CalculateRewardFailed)
            } else {
                let net = profit - fee_amount_of(profit as u64, pool.fee);
                if rec.amount + net > u64::MAX {
                    Err(StakePoolError::CalculateRewardFailed)
                } else {
                    Ok((rec.amount + net) as u64)
                }
            }
        }
    }
}

/// Computes the final payout owed to one bet record: the stake plus the
/// proportional share of the losing pools net of the manager fee.
///
/// Read-only; the caller transfers the returned amount and only then
/// settles the record, so that a failed transfer leaves the claim
/// repeatable and a settled record is never paid again.
pub fn compute_payout(pool: &MatchPool, rec: &BetRecord) -> (r: Result<u64, StakePoolError>)
    requires
        pool.wf(),
    ensures
        r == payout_spec(*pool, *rec),
        !(pool.state is Resolved) ==> r == Err::<u64, StakePoolError>(StakePoolError::PoolStateClosed),
        pool.state is Resolved && rec.outcome != pool.winning_outcome->0 ==> r == Err::<
            u64,
            StakePoolError,
        >(StakePoolError::InvalidClaim),
        pool.state is Resolved && rec.match_id == pool.match_id && rec.outcome
            == pool.winning_outcome->0 && rec.claimed ==> r == Err::<u64, StakePoolError>(
            StakePoolError::AlreadyClaimed,
        ),
        r matches Ok(v) ==> v == rec.amount + gross_profit_of(*pool, *rec) - fee_amount_of(
            gross_profit_of(*pool, *rec) as u64,
            pool.fee,
        ),
{
    match pool.state {
        PoolState::Resolved => {},
        _ => {
            return Err(StakePoolError::PoolStateClosed);
        },
    }
    let w: u8 = match pool.winning_outcome {
        Some(w) => w,
        None => {
            proof {
                assert(false);
            }
            return Err(StakePoolError::CalculateRewardFailed);
        },
    };
    if rec.match_id != pool.match_id {
        return Err(StakePoolError::InvalidClaim);
    }
    if rec.outcome != w {
        return Err(StakePoolError::InvalidClaim);
    }
    if rec.claimed {
        return Err(StakePoolError::AlreadyClaimed);
    }
    let winning_total: u64 = pool.outcome_totals[w as usize];
    if winning_total == 0 {
        return Err(StakePoolError::CalculateRewardFailed);
    }
    let total: u64 = pool.balance();
    proof {
        assert(winning_total <= total);
    }
    let losing_total: u64 = total - winning_total;
    proof {
        lemma_mul_upper_bound(
            rec.amount as int,
            u64::MAX as int,
            losing_total as int,
            u64::MAX as int,
        );
    }
    let profit_wide: u128 = (rec.amount as u128) * (losing_total as u128) / (
    winning_total as u128);
    if profit_wide > u64::MAX as u128 {
        return Err(StakePoolError::CalculateRewardFailed);
    }
    let profit: u64 = profit_wide as u64;
    let net: u64 = match apply_fee(profit, pool.fee) {
        Ok(p) => p.0,
        Err(_) => {
            proof {
                assert(false);
            }
            return Err(StakePoolError::CalculateRewardFailed);
        },
    };
    proof {
        lemma_fee_amount_le_gross(profit, pool.fee);
    }
    if rec.amount > u64::MAX - net {
        return Err(StakePoolError::CalculateRewardFailed);
    }
    Ok(rec.amount + net)
}

/// Everything the winning records of this pool's match draw out of the
/// pool when each is claimed once: for every record on the winning
/// outcome, its stake plus its gross profit — which is its final payout
/// to the bettor plus the fee retained by the manager.
pub open spec fn winning_drain(pool: MatchPool, records: Seq<BetRecord>) -> int
    recommends
        pool.wf(),
        pool.winning_outcome is Some,
    decreases records.len(),
{
    if records.len() == 0 {
        0
    } else {
        winning_drain(pool, records.drop_last()) + if records.last().match_id == pool.match_id
            && records.last().outcome == pool.winning_outcome->0 {
            records.last().amount + gross_profit_of(pool, records.last())
        } else {
            0
        }
    }
}

/// A paid claim draws its record's stake plus its gross profit: the
/// final payout to the bettor and the fee retained by the manager,
/// together.
pub proof fn lemma_claim_drain(pool: MatchPool, rec: BetRecord)
    requires
        pool.wf(),
        payout_spec(pool, rec) is Ok,
    ensures
        payout_spec(pool, rec)->Ok_0 + fee_amount_of(gross_profit_of(pool, rec) as u64, pool.fee)
            == rec.amount + gross_profit_of(pool, rec),
{
    let w = pool.winning_outcome->0;
    let winning_total = pool.outcome_totals@[w as int] as int;
    let losing_total = pool.total_escrow() - winning_total;
    lemma_mul_nonnegative(rec.amount as int, losing_total);
    lemma_div_pos_is_pos(rec.amount * losing_total, winning_total);
    lemma_fee_amount_le_gross(gross_profit_of(pool, rec) as u64, pool.fee);
}

/// Flooring division by a positive divisor is superadditive: rounding
/// two summands down separately never beats rounding their sum down.
proof fn lemma_div_superadditive(x: int, y: int, d: int)
    requires
        0 <= x,
        0 <= y,
        0 < d,
    ensures
        x / d + y / d <= (x + y) / d,
{
    lemma_fundamental_div_mod(x, d);
    lemma_fundamental_div_mod(y, d);
    lemma_mod_bound(x, d);
    lemma_mod_bound(y, d);
    assert(d * (x / d + y / d) == d * (x / d) + d * (y / d)) by {
        lemma_mul_is_distributive_add(d, x / d, y / d);
    }
    lemma_div_is_ordered(d * (x / d + y / d), x + y, d);
    lemma_div_multiples_vanish(x / d + y / d, d);
}

/// A stake sum is never negative.
proof fn lemma_stake_on_outcome_nonneg(records: Seq<BetRecord>, match_id: u64, outcome: u8)
    ensures
        stake_on_outcome(records, match_id, outcome) >= 0,
    decreases records.len(),
{
    if records.len() > 0 {
        lemma_stake_on_outcome_nonneg(records.drop_last(), match_id, outcome);
    }
}

/// Over any records, what the winning ones draw stays within their own
/// stakes plus those stakes' proportional share of the losing pools.
proof fn lemma_winning_drain_bounded(pool: MatchPool, records: Seq<BetRecord>)
    requires
        pool.wf(),
        pool.state is Resolved,
        pool.outcome_totals@[pool.winning_outcome->0 as int] > 0,
    ensures
        winning_drain(pool, records) <= stake_on_outcome(
            records,
            pool.match_id,
            pool.winning_outcome->0,
        ) + (stake_on_outcome(records, pool.match_id, pool.winning_outcome->0) * (
        pool.total_escrow() - pool.outcome_totals@[pool.winning_outcome->0 as int])) / (
        pool.outcome_totals@[pool.winning_outcome->0 as int] as int),
    decreases records.len(),
{
    let w = pool.winning_outcome->0;
    let winning_total = pool.outcome_totals@[w as int] as int;
    let losing_total = pool.total_escrow() - winning_total;
    if records.len() == 0 {
        assert((0int * losing_total) / winning_total == 0) by {
            lemma_mul_is_distributive_add_other_way(losing_total, 0, 0);
            lemma_div_pos_is_pos(0, winning_total);
            lemma_div_is_ordered(0 * losing_total, 0, winning_total);
        }
    } else {
        let prefix = records.drop_last();
        let rec = records.last();
        let s_prefix = stake_on_outcome(prefix, pool.match_id, w);
        let s_all = stake_on_outcome(records, pool.match_id, w);
        lemma_winning_drain_bounded(pool, prefix);
        lemma_stake_on_outcome_nonneg(prefix, pool.match_id, w);
        if rec.match_id == pool.match_id && rec.outcome == w {
            lemma_mul_nonnegative(s_prefix, losing_total);
            lemma_mul_nonnegative(rec.amount as int, losing_total);
            lemma_div_superadditive(
                s_prefix * losing_total,
                rec.amount * losing_total,
                winning_total,
            );
            assert((s_prefix + rec.amount) * losing_total == s_prefix * losing_total + rec.amount
                * losing_total) by {
                lemma_mul_is_distributive_add_other_way(losing_total, s_prefix, rec.amount as int);
            }
            assert(s_all == s_prefix + rec.amount);
        }
    }
}

/// Law: no over-distribution. In a resolved pool whose winning-outcome
/// records conserve its winning total, paying every winning record once
/// — final payout to the bettor plus fee to the manager — draws at most
/// the whole pool; the rounding residue stays in escrow. (A winning
/// side with no stake pays nothing at all: every claim on it fails the
/// calculation.)
pub proof fn lemma_no_over_distribution(pool: MatchPool, records: Seq<BetRecord>)
    requires
        pool.wf(),
        pool.state is Resolved,
        pool.outcome_totals@[pool.winning_outcome->0 as int] > 0,
        stake_on_outcome(records, pool.match_id, pool.winning_outcome->0)
            == pool.outcome_totals@[pool.winning_outcome->0 as int],
    ensures
        winning_drain(pool, records) <= pool.total_escrow(),
{
    let w = pool.winning_outcome->0;
    let winning_total = pool.outcome_totals@[w as int] as int;
    let losing_total = pool.total_escrow() - winning_total;
    lemma_winning_drain_bounded(pool, records);
    assert((winning_total * losing_total) / winning_total == losing_total) by {
        lemma_div_multiples_vanish(losing_total, winning_total);
    }
}

} // verus!

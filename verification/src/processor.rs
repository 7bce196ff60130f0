//! The engine: match pools, the bet ledger, and the instruction
//! dispatcher that routes decoded operations to them.
//!
//! Every operation either fully applies or fails without any ledger
//! mutation, and every operation preserves the engine invariant: pools
//! are unique per match, well formed, and each pool's per-outcome
//! totals equal the stakes its ledger records hold — funds are
//! conserved.

use vstd::prelude::*;
use crate::error::StakePoolError;
use crate::fee::InitArgs;
use crate::ledger::{
    lemma_stake_on_outcome_absent, lemma_stake_on_outcome_push, lemma_stake_on_outcome_update,
    lemma_stake_splits_by_outcome, mark_claimed_spec, stake_for_match, stake_on_outcome, Address,
    BetLedger, BetRecord,
};
use crate::instruction::{spec_deserialize, StakePoolInstruction};
use crate::payout::{compute_payout, lemma_no_over_distribution, payout_spec, winning_drain};
use crate::pool::{MatchPool, PoolState};

verus! {

/// A pool's per-outcome totals agree exactly with the stakes recorded
/// for its match in the ledger.
pub open spec fn pool_conserved(pool: MatchPool, records: Seq<BetRecord>) -> bool {
    forall|k: u8| k < 3 ==> pool.outcome_totals@[k as int] == stake_on_outcome(
        records,
        pool.match_id,
        k,
    )
}

/// The pool-accounting engine: one pool per match and the shared
/// append-only bet ledger, behind the instruction wire format.
pub struct Processor {
    /// One pool per match; match identifiers are unique.
    pub pools: Vec<MatchPool>,
    /// The shared bet ledger, across all matches.
    pub ledger: BetLedger,
}

impl Processor {
    /// There is a pool for this match.
    pub open spec fn has_pool(self, match_id: u64) -> bool {
        exists|i: int| 0 <= i < self.pools@.len() && self.pools@[i].match_id == match_id
    }

    /// Position of this match's pool.
    pub open spec fn pool_index_of(self, match_id: u64) -> int {
        choose|i: int| 0 <= i < self.pools@.len() && self.pools@[i].match_id == match_id
    }

    /// The pool of this match.
    pub open spec fn spec_pool(self, match_id: u64) -> MatchPool
        recommends
            self.has_pool(match_id),
    {
        self.pools@[self.pool_index_of(match_id)]
    }

    /// The engine invariant: a well-formed ledger, well-formed pools
    /// with unique match identifiers, per-outcome conservation of every
    /// pool against the ledger, and no record without its pool.
    pub open spec fn wf(self) -> bool {
        &&& self.ledger.wf()
        &&& forall|i: int| 0 <= i < self.pools@.len() ==> (#[trigger] self.pools@[i]).wf()
        &&& forall|i: int, j: int|
            0 <= i < self.pools@.len() && 0 <= j < self.pools@.len() && i != j
                ==> #[trigger] self.pools@[i].match_id != #[trigger] self.pools@[j].match_id
        &&& forall|i: int|
            0 <= i < self.pools@.len() ==> pool_conserved(
                #[trigger] self.pools@[i],
                self.ledger.records@,
            )
        &&& forall|i: int|
            0 <= i < self.ledger.records@.len() ==> self.has_pool(
                (#[trigger] self.ledger.records@[i]).match_id,
            )
    }

    /// Neither the pools nor the ledger changed.
    pub open spec fn unchanged_views(pre: Processor, post: Processor) -> bool {
        &&& post.pools@ == pre.pools@
        &&& post.ledger.records@ == pre.ledger.records@
    }

    /// A pool position holds the pool of its own match identifier.
    pub proof fn lemma_pool_index(self, i: int)
        requires
            self.wf(),
            0 <= i < self.pools@.len(),
        ensures
            self.has_pool(self.pools@[i].match_id),
            self.pool_index_of(self.pools@[i].match_id) == i,
    {
        let m = self.pools@[i].match_id;
        assert(self.has_pool(m)) by {
            assert(0 <= i < self.pools@.len() && self.pools@[i].match_id == m);
        }
        let j = self.pool_index_of(m);
        assert(0 <= j < self.pools@.len() && self.pools@[j].match_id == m);
        if j != i {
            assert(self.pools@[i].match_id != self.pools@[j].match_id);
        }
    }

    /// An engine with no pools and an empty ledger.
    pub fn new() -> (p: Processor)
        ensures
            p.wf(),
            p.pools@.len() == 0,
            p.ledger.records@.len() == 0,
    {
        Processor { pools: Vec::new(), ledger: BetLedger::new() }
    }

    /// Position of this match's pool, if any.
    fn find_pool(&self, match_id: u64) -> (r: Option<usize>)
        ensures
            (match r {
                Some(i) => i < self.pools@.len() && self.pools@[i as int].match_id == match_id,
                None => !self.has_pool(match_id),
            }),
    {
        let n = self.pools.len();
        let mut i: usize = 0;
        while i < n
            invariant
                i <= n,
                n == self.pools@.len(),
                forall|j: int| 0 <= j < i ==> self.pools@[j].match_id != match_id,
            decreases n - i,
        {
            if self.pools[i].match_id == match_id {
                return Some(i);
            }
            i = i + 1;
        }
        None
    }

    /// Why pool creation fails, if it does: one pool per match, and the
    /// fee ratio must be usable.
    pub open spec fn initialize_error(pre: Processor, match_id: u64, init: InitArgs) -> Option<
        StakePoolError,
    > {
        if pre.has_pool(match_id) {
            Some(StakePoolError::AlreadyInUse)
        } else if !init.fee.is_valid() {
            Some(StakePoolError::InvalidFeeRatio)
        } else {
            None
        }
    }

    /// What pool creation does: appends one fresh `Open` pool with empty
    /// per-outcome escrow and touches nothing else.
    pub open spec fn initialize_effect(
        pre: Processor,
        post: Processor,
        match_id: u64,
        lock_time: u64,
        init: InitArgs,
    ) -> bool {
        &&& post.ledger.records@ == pre.ledger.records@
        &&& post.pools@.len() == pre.pools@.len() + 1
        &&& forall|i: int| 0 <= i < pre.pools@.len() ==> post.pools@[i] == pre.pools@[i]
        &&& post.pools@.last().match_id == match_id
        &&& post.pools@.last().lock_time == lock_time
        &&& post.pools@.last().fee == init.fee
        &&& post.pools@.last().state is Open
        &&& post.pools@.last().winning_outcome is None
        &&& post.pools@.last().outcome_totals@ =~= seq![0u64, 0u64, 0u64]
    }

    /// Creates the pool for one match: `Initialize`. The match
    /// identifier and the betting deadline come from the host's account
    /// data; the fee comes from the instruction payload.
    pub fn initialize(&mut self, match_id: u64, lock_time: u64, init: InitArgs) -> (r: Result<
        (),
        StakePoolError,
    >)
        requires
            old(self).wf(),
        ensures
            final(self).wf(),
            (match Self::initialize_error(*old(self), match_id, init) {
                Some(e) => r == Err::<(), StakePoolError>(e) && Self::unchanged_views(
                    *old(self),
                    *final(self),
                ),
                None => r is Ok && Self::initialize_effect(
                    *old(self),
                    *final(self),
                    match_id,
                    lock_time,
                    init,
                ),
            }),
    {
        if let Some(_i) = self.find_pool(match_id) {
            return Err(StakePoolError::AlreadyInUse);
        }
        let pool = match MatchPool::create(match_id, lock_time, init) {
            Ok(p) => p,
            Err(e) => {
                return Err(e);
            },
        };
        proof {
            assert forall|i: int|
                0 <= i < self.ledger.records@.len() implies (#[trigger] self.ledger.records@[i]).match_id
                != match_id by {
                if self.ledger.records@[i].match_id == match_id {
                    assert(self.has_pool(match_id));
                }
            }
            lemma_stake_on_outcome_absent(self.ledger.records@, match_id, 0);
            lemma_stake_on_outcome_absent(self.ledger.records@, match_id, 1);
            lemma_stake_on_outcome_absent(self.ledger.records@, match_id, 2);
        }
        self.pools.push(pool);
        proof {
            let post = *self;
            let pre = *old(self);
            let n = pre.pools@.len() as int;
            assert(post.pools@[n] == post.pools@.last());
            assert forall|i: int|
                0 <= i < post.pools@.len() implies pool_conserved(
                #[trigger] post.pools@[i],
                post.ledger.records@,
            ) by {
                if i < n {
                    assert(pool_conserved(pre.pools@[i], pre.ledger.records@));
                } else {
                    assert forall|k: u8| k < 3 implies post.pools@[i].outcome_totals@[k as int]
                        == stake_on_outcome(post.ledger.records@, match_id, k) by {
                        assert(stake_on_outcome(post.ledger.records@, match_id, k) == 0);
                    }
                }
            }
            assert forall|i: int|
                0 <= i < post.ledger.records@.len() implies post.has_pool(
                (#[trigger] post.ledger.records@[i]).match_id,
            ) by {
                assert(pre.has_pool(pre.ledger.records@[i].match_id));
                let w = choose|j: int|
                    0 <= j < pre.pools@.len() && pre.pools@[j].match_id
                        == pre.ledger.records@[i].match_id;
                assert(post.pools@[w].match_id == pre.ledger.records@[i].match_id);
            }
        }
        Ok(())
    }

    /// Why a deposit fails, if it does, in the order the checks run:
    /// the pool must exist, be `Open` with its deadline not yet reached
    /// (regardless of the amount), the stake must be positive, the pick
    /// one of the three outcomes, and the pool's total must stay within
    /// the ledger's integer width.
    pub open spec fn deposit_error(
        pre: Processor,
        match_id: u64,
        outcome: u8,
        amount: u64,
        now: u64,
    ) -> Option<StakePoolError> {
        if !pre.has_pool(match_id) {
            Some(StakePoolError::PoolNotExist)
        } else {
            let pool = pre.spec_pool(match_id);
            if !(pool.state is Open) {
                Some(StakePoolError::PoolStateClosed)
            } else if now >= pool.lock_time {
                Some(StakePoolError::PoolStateClosed)
            } else if amount == 0 {
                Some(StakePoolError::InvalidAmount)
            } else if outcome >= 3 {
                Some(StakePoolError::InvalidOutcome)
            } else if pool.total_escrow() + amount > u64::MAX {
                Some(StakePoolError::ArithmeticOverflow)
            } else {
                None
            }
        }
    }

    /// What a deposit does: appends exactly one unclaimed record and
    /// adds its amount to exactly its outcome's slot of its match's
    /// pool; everything else is untouched.
    pub open spec fn deposit_effect(
        pre: Processor,
        post: Processor,
        match_id: u64,
        bettor: Address,
        outcome: u8,
        amount: u64,
        record_id: u64,
    ) -> bool {
        let i = pre.pool_index_of(match_id);
        &&& record_id == pre.ledger.records@.len()
        &&& post.ledger.records@ == pre.ledger.records@.push(
            BetRecord { match_id, bettor, outcome, amount, claimed: false },
        )
        &&& post.pools@.len() == pre.pools@.len()
        &&& forall|j: int|
            0 <= j < pre.pools@.len() && j != i ==> post.pools@[j] == pre.pools@[j]
        &&& post.pools@[i].match_id == pre.pools@[i].match_id
        &&& post.pools@[i].state == pre.pools@[i].state
        &&& post.pools@[i].lock_time == pre.pools@[i].lock_time
        &&& post.pools@[i].winning_outcome == pre.pools@[i].winning_outcome
        &&& post.pools@[i].fee == pre.pools@[i].fee
        &&& post.pools@[i].outcome_totals@ == pre.pools@[i].outcome_totals@.update(
            outcome as int,
            (pre.pools@[i].outcome_totals@[outcome as int] + amount) as u64,
        )
    }

    /// Records one wager: `DepositBet`. Appends a ledger record and
    /// escrows the stake into the pool's outcome slot; any failure
    /// leaves the engine untouched. A pool that is no longer `Open`, or
    /// whose deadline has passed, rejects the bet whatever the amount.
    pub fn record_bet(
        &mut self,
        match_id: u64,
        bettor: Address,
        outcome: u8,
        amount: u64,
        now: u64,
    ) -> (r: Result<u64, StakePoolError>)
        requires
            old(self).wf(),
        ensures
            final(self).wf(),
            (match Self::deposit_error(*old(self), match_id, outcome, amount, now) {
                Some(e) => r == Err::<u64, StakePoolError>(e) && Self::unchanged_views(
                    *old(self),
                    *final(self),
                ),
                None => r matches Ok(id) && Self::deposit_effect(
                    *old(self),
                    *final(self),
                    match_id,
                    bettor,
                    outcome,
                    amount,
                    id,
                ),
            }),
            old(self).has_pool(match_id) && !(old(self).spec_pool(match_id).state is Open) ==> r
                == Err::<u64, StakePoolError>(StakePoolError::PoolStateClosed),
    {
        let idx = match self.find_pool(match_id) {
            Some(i) => i,
            None => {
                return Err(StakePoolError::PoolNotExist);
            },
        };
        proof {
            old(self).lemma_pool_index(idx as int);
        }
        let st = self.pools[idx].state;
        match st {
            PoolState::Open => {},
            _ => {
                return Err(StakePoolError::PoolStateClosed);
            },
        }
        if now >= self.pools[idx].lock_time {
            return Err(StakePoolError::PoolStateClosed);
        }
        if amount == 0 {
            return Err(StakePoolError::InvalidAmount);
        }
        if outcome >= 3 {
            return Err(StakePoolError::InvalidOutcome);
        }
        let pool = &mut self.pools[idx];
        match pool.add_stake(outcome, amount) {
            Ok(()) => {},
            Err(e) => {
                proof {
                    assert(self.pools@ =~= old(self).pools@);
                }
                return Err(e);
            },
        }
        let rec = BetRecord { match_id, bettor, outcome, amount, claimed: false };
        let id = self.ledger.append(rec);
        proof {
            let pre = *old(self);
            let post = *self;
            let i = idx as int;
            assert(post.ledger.records@ == pre.ledger.records@.push(rec));
            assert forall|j: int|
                0 <= j < post.pools@.len() implies pool_conserved(
                #[trigger] post.pools@[j],
                post.ledger.records@,
            ) by {
                assert(pool_conserved(pre.pools@[j], pre.ledger.records@));
                assert forall|k: u8| k < 3 implies post.pools@[j].outcome_totals@[k as int]
                    == stake_on_outcome(post.ledger.records@, post.pools@[j].match_id, k) by {
                    lemma_stake_on_outcome_push(
                        pre.ledger.records@,
                        rec,
                        pre.pools@[j].match_id,
                        k,
                    );
                    if j != i {
                        assert(pre.pools@[j].match_id != pre.pools@[i].match_id);
                    }
                }
            }
            assert forall|jj: int|
                0 <= jj < post.ledger.records@.len() implies post.has_pool(
                (#[trigger] post.ledger.records@[jj]).match_id,
            ) by {
                if jj < pre.ledger.records@.len() {
                    assert(pre.has_pool(pre.ledger.records@[jj].match_id));
                    let w = choose|x: int|
                        0 <= x < pre.pools@.len() && pre.pools@[x].match_id
                            == pre.ledger.records@[jj].match_id;
                    assert(post.pools@[w].match_id == pre.ledger.records@[jj].match_id);
                } else {
                    assert(post.pools@[i].match_id == match_id);
                }
            }
            assert(Self::deposit_effect(pre, post, match_id, bettor, outcome, amount, id));
        }
        Ok(id)
    }

    /// What pricing a claim returns: who to pay and how much, under the
    /// payout model — or why the claim is rejected. The record must
    /// exist and belong to the named match; everything further (pool
    /// resolved, winning outcome, not yet claimed, amounts within
    /// width) is the payout model's.
    pub open spec fn claim_payout_spec(pre: Processor, match_id: u64, record_id: u64) -> Result<
        (Address, u64),
        StakePoolError,
    > {
        if !pre.has_pool(match_id) {
            Err(StakePoolError::PoolNotExist)
        } else if record_id >= pre.ledger.records@.len() {
            Err(StakePoolError::InvalidClaim)
        } else {
            let rec = pre.ledger.records@[record_id as int];
            if rec.match_id != match_id {
                Err(StakePoolError::InvalidClaim)
            } else {
                match payout_spec(pre.spec_pool(match_id), rec) {
                    Ok(v) => Ok((rec.bettor, v)),
                    Err(e) => Err(e),
                }
            }
        }
    }

    /// Prices one claim: the read-only half of `ClaimRewards`. The host
    /// transfers the returned amount from escrow to the returned address
    /// and only then settles the record with `confirm_claim`; a failed
    /// transfer leaves the claim repeatable.
    pub fn claim_payout(&self, match_id: u64, record_id: u64) -> (r: Result<
        (Address, u64),
        StakePoolError,
    >)
        requires
            self.wf(),
        ensures
            r == Self::claim_payout_spec(*self, match_id, record_id),
    {
        let idx = match self.find_pool(match_id) {
            Some(i) => i,
            None => {
                return Err(StakePoolError::PoolNotExist);
            },
        };
        proof {
            self.lemma_pool_index(idx as int);
        }
        let rec = match self.ledger.get(record_id) {
            Some(r) => r,
            None => {
                return Err(StakePoolError::InvalidClaim);
            },
        };
        if rec.match_id != match_id {
            return Err(StakePoolError::InvalidClaim);
        }
        match compute_payout(&self.pools[idx], &rec) {
            Ok(v) => Ok((rec.bettor, v)),
            Err(e) => Err(e),
        }
    }

    /// Settles one record: the second half of `ClaimRewards`, called
    /// only after the host reports the payout transfer succeeded. A
    /// record settles exactly once; a second attempt is rejected with
    /// `AlreadyClaimed` and nothing moves.
    pub fn confirm_claim(&mut self, record_id: u64) -> (r: Result<(), StakePoolError>)
        requires
            old(self).wf(),
        ensures
            final(self).wf(),
            final(self).pools@ == old(self).pools@,
            (match mark_claimed_spec(old(self).ledger.records@, record_id) {
                Ok(new_records) => r is Ok && final(self).ledger.records@ == new_records,
                Err(e) => r == Err::<(), StakePoolError>(e) && final(self).ledger.records@ == old(
                    self,
                ).ledger.records@,
            }),
            r is Ok <==> (record_id < old(self).ledger.records@.len() && !old(
                self,
            ).ledger.records@[record_id as int].claimed),
    {
        let r = self.ledger.mark_claimed(record_id);
        proof {
            let pre = *old(self);
            let post = *self;
            if r is Ok {
                let i = record_id as int;
                let newrec = post.ledger.records@[i];
                assert(post.ledger.records@ == pre.ledger.records@.update(i, newrec));
                assert forall|j: int|
                    0 <= j < post.pools@.len() implies pool_conserved(
                    #[trigger] post.pools@[j],
                    post.ledger.records@,
                ) by {
                    assert(pool_conserved(pre.pools@[j], pre.ledger.records@));
                    assert forall|k: u8| k < 3 implies post.pools@[j].outcome_totals@[k as int]
                        == stake_on_outcome(post.ledger.records@, post.pools@[j].match_id, k) by {
                        lemma_stake_on_outcome_update(
                            pre.ledger.records@,
                            i,
                            newrec,
                            pre.pools@[j].match_id,
                            k,
                        );
                    }
                }
                assert forall|jj: int|
                    0 <= jj < post.ledger.records@.len() implies post.has_pool(
                    (#[trigger] post.ledger.records@[jj]).match_id,
                ) by {
                    assert(post.ledger.records@[jj].match_id == pre.ledger.records@[jj].match_id);
                    assert(pre.has_pool(pre.ledger.records@[jj].match_id));
                    let w = choose|x: int|
                        0 <= x < pre.pools@.len() && pre.pools@[x].match_id
                            == pre.ledger.records@[jj].match_id;
                    assert(post.pools@[w].match_id == pre.ledger.records@[jj].match_id);
                }
            }
        }
        r
    }

    /// Re-establishes the engine invariant after one pool changed in
    /// lifecycle fields only: same match, same escrow totals.
    proof fn lemma_wf_after_lifecycle(pre: Processor, post: Processor, i: int)
        requires
            pre.wf(),
            0 <= i < pre.pools@.len(),
            post.ledger.records@ == pre.ledger.records@,
            post.pools@.len() == pre.pools@.len(),
            forall|j: int| 0 <= j < pre.pools@.len() && j != i ==> post.pools@[j] == pre.pools@[j],
            post.pools@[i].wf(),
            post.pools@[i].match_id == pre.pools@[i].match_id,
            post.pools@[i].outcome_totals@ == pre.pools@[i].outcome_totals@,
        ensures
            post.wf(),
    {
        assert forall|j: int| 0 <= j < post.pools@.len() implies (#[trigger] post.pools@[j]).wf() by {
            if j != i {
                assert(pre.pools@[j].wf());
            }
        }
        assert forall|j: int, l: int|
            0 <= j < post.pools@.len() && 0 <= l < post.pools@.len() && j != l
            implies #[trigger] post.pools@[j].match_id != #[trigger] post.pools@[l].match_id by {
            assert(pre.pools@[j].match_id != pre.pools@[l].match_id);
        }
        assert forall|j: int|
            0 <= j < post.pools@.len() implies pool_conserved(
            #[trigger] post.pools@[j],
            post.ledger.records@,
        ) by {
            assert(pool_conserved(pre.pools@[j], pre.ledger.records@));
            assert forall|k: u8| k < 3 implies post.pools@[j].outcome_totals@[k as int]
                == stake_on_outcome(post.ledger.records@, post.pools@[j].match_id, k) by {
                assert(pre.pools@[j].outcome_totals@[k as int] == stake_on_outcome(
                    pre.ledger.records@,
                    pre.pools@[j].match_id,
                    k,
                ));
            }
        }
        assert forall|jj: int|
            0 <= jj < post.ledger.records@.len() implies post.has_pool(
            (#[trigger] post.ledger.records@[jj]).match_id,
        ) by {
            assert(pre.has_pool(pre.ledger.records@[jj].match_id));
            let w = choose|x: int|
                0 <= x < pre.pools@.len() && pre.pools@[x].match_id
                    == pre.ledger.records@[jj].match_id;
            assert(post.pools@[w].match_id == pre.ledger.records@[jj].match_id);
        }
    }

    /// One pool changed to the given lifecycle fields; its match, escrow
    /// totals, deadline and fee, every other pool, and the ledger are
    /// untouched.
    pub open spec fn pool_lifecycle_changed(
        pre: Processor,
        post: Processor,
        match_id: u64,
        state: PoolState,
        winning: Option<u8>,
    ) -> bool {
        let i = pre.pool_index_of(match_id);
        &&& post.ledger.records@ == pre.ledger.records@
        &&& post.pools@.len() == pre.pools@.len()
        &&& forall|j: int| 0 <= j < pre.pools@.len() && j != i ==> post.pools@[j] == pre.pools@[j]
        &&& post.pools@[i].same_but_lifecycle(pre.pools@[i])
        &&& post.pools@[i].state == state
        &&& post.pools@[i].winning_outcome == winning
    }

    /// Authorized lock: closes the betting window of one match's pool.
    pub fn lock_pool(&mut self, match_id: u64) -> (r: Result<(), StakePoolError>)
        requires
            old(self).wf(),
        ensures
            final(self).wf(),
            !old(self).has_pool(match_id) ==> r == Err::<(), StakePoolError>(
                StakePoolError::PoolNotExist,
            ) && Self::unchanged_views(*old(self), *final(self)),
            old(self).has_pool(match_id) && old(self).spec_pool(match_id).state is Open ==> (r
                is Ok && Self::pool_lifecycle_changed(
                *old(self),
                *final(self),
                match_id,
                PoolState::Locked,
                old(self).spec_pool(match_id).winning_outcome,
            )),
            old(self).has_pool(match_id) && !(old(self).spec_pool(match_id).state is Open) ==> (r
                == Err::<(), StakePoolError>(StakePoolError::PoolStateClosed)
                && Self::unchanged_views(*old(self), *final(self))),
    {
        let idx = match self.find_pool(match_id) {
            Some(i) => i,
            None => {
                return Err(StakePoolError::PoolNotExist);
            },
        };
        proof {
            old(self).lemma_pool_index(idx as int);
        }
        let pool = &mut self.pools[idx];
        let r = pool.lock();
        proof {
            if r is Err {
                assert(self.pools@ =~= old(self).pools@);
            }
            Self::lemma_wf_after_lifecycle(*old(self), *self, idx as int);
        }
        r
    }

    /// Authorized resolution: records the winning outcome of one match's
    /// pool, exactly once.
    pub fn resolve_pool(&mut self, match_id: u64, winning: u8) -> (r: Result<(), StakePoolError>)
        requires
            old(self).wf(),
        ensures
            final(self).wf(),
            !old(self).has_pool(match_id) ==> r == Err::<(), StakePoolError>(
                StakePoolError::PoolNotExist,
            ) && Self::unchanged_views(*old(self), *final(self)),
            old(self).has_pool(match_id) && winning >= 3 ==> (r == Err::<(), StakePoolError>(
                StakePoolError::InvalidOutcome,
            ) && Self::unchanged_views(*old(self), *final(self))),
            old(self).has_pool(match_id) && winning < 3 && old(self).spec_pool(match_id).state
                is Locked ==> (r is Ok && Self::pool_lifecycle_changed(
                *old(self),
                *final(self),
                match_id,
                PoolState::Resolved,
                Some(winning),
            )),
            old(self).has_pool(match_id) && winning < 3 && old(self).spec_pool(match_id).state
                is Resolved ==> (r == Err::<(), StakePoolError>(StakePoolError::AlreadyResolved)
                && Self::unchanged_views(*old(self), *final(self))),
            old(self).has_pool(match_id) && winning < 3 && (old(self).spec_pool(match_id).state
                is Open || old(self).spec_pool(match_id).state is Closed) ==> (r == Err::<
                (),
                StakePoolError,
            >(StakePoolError::PoolStateClosed) && Self::unchanged_views(*old(self), *final(self))),
    {
        let idx = match self.find_pool(match_id) {
            Some(i) => i,
            None => {
                return Err(StakePoolError::PoolNotExist);
            },
        };
        proof {
            old(self).lemma_pool_index(idx as int);
        }
        let pool = &mut self.pools[idx];
        let r = pool.resolve(winning);
        proof {
            if r is Err {
                assert(self.pools@ =~= old(self).pools@);
            }
            Self::lemma_wf_after_lifecycle(*old(self), *self, idx as int);
        }
        r
    }

    /// Administrative sweep: closes one match's resolved pool to further
    /// claims; it remains readable.
    pub fn close_pool(&mut self, match_id: u64) -> (r: Result<(), StakePoolError>)
        requires
            old(self).wf(),
        ensures
            final(self).wf(),
            !old(self).has_pool(match_id) ==> r == Err::<(), StakePoolError>(
                StakePoolError::PoolNotExist,
            ) && Self::unchanged_views(*old(self), *final(self)),
            old(self).has_pool(match_id) && old(self).spec_pool(match_id).state is Resolved ==> (r
                is Ok && Self::pool_lifecycle_changed(
                *old(self),
                *final(self),
                match_id,
                PoolState::Closed,
                old(self).spec_pool(match_id).winning_outcome,
            )),
            old(self).has_pool(match_id) && !(old(self).spec_pool(match_id).state is Resolved)
                ==> (r == Err::<(), StakePoolError>(StakePoolError::PoolStateClosed)
                && Self::unchanged_views(*old(self), *final(self))),
    {
        let idx = match self.find_pool(match_id) {
            Some(i) => i,
            None => {
                return Err(StakePoolError::PoolNotExist);
            },
        };
        proof {
            old(self).lemma_pool_index(idx as int);
        }
        let pool = &mut self.pools[idx];
        let r = pool.close();
        proof {
            if r is Err {
                assert(self.pools@ =~= old(self).pools@);
            }
            Self::lemma_wf_after_lifecycle(*old(self), *self, idx as int);
        }
        r
    }

    /// Everything escrowed for one match: `GetPoolBalance`, read-only.
    pub fn get_pool_balance(&self, match_id: u64) -> (r: Result<u64, StakePoolError>)
        requires
            self.wf(),
        ensures
            !self.has_pool(match_id) ==> r == Err::<u64, StakePoolError>(
                StakePoolError::PoolNotExist,
            ),
            self.has_pool(match_id) ==> (r matches Ok(b) && b == self.spec_pool(
                match_id,
            ).total_escrow()),
    {
        let idx = match self.find_pool(match_id) {
            Some(i) => i,
            None => {
                return Err(StakePoolError::PoolNotExist);
            },
        };
        proof {
            self.lemma_pool_index(idx as int);
        }
        Ok(self.pools[idx].balance())
    }

    /// Read-only payout preview: one entry per record of this bettor on
    /// this match whose claim would currently be paid, in insertion
    /// order, with the amount the payout model owes it.
    pub open spec fn rewards_preview_spec(
        pool: MatchPool,
        records: Seq<BetRecord>,
        bettor: Address,
    ) -> Seq<RewardEntry>
        decreases records.len(),
    {
        if records.len() == 0 {
            Seq::empty()
        } else {
            let prefix = Self::rewards_preview_spec(pool, records.drop_last(), bettor);
            let rec = records.last();
            if rec.match_id == pool.match_id && rec.bettor == bettor && payout_spec(pool, rec)
                is Ok {
                prefix.push(
                    RewardEntry {
                        record_id: (records.len() - 1) as u64,
                        amount: payout_spec(pool, rec)->Ok_0,
                    },
                )
            } else {
                prefix
            }
        }
    }

    /// Previews the rewards one bettor could claim on one match:
    /// `CalculateRewards`, read-only, no mutation. Before resolution the
    /// preview is empty; afterwards it prices every still-claimable
    /// winning record of the bettor.
    pub fn calculate_rewards(&self, match_id: u64, bettor: Address) -> (r: Result<
        Vec<RewardEntry>,
        StakePoolError,
    >)
        requires
            self.wf(),
        ensures
            !self.has_pool(match_id) ==> r == Err::<Vec<RewardEntry>, StakePoolError>(
                StakePoolError::PoolNotExist,
            ),
            self.has_pool(match_id) ==> (r matches Ok(entries) && entries@
                == Self::rewards_preview_spec(
                self.spec_pool(match_id),
                self.ledger.records@,
                bettor,
            )),
    {
        let idx = match self.find_pool(match_id) {
            Some(i) => i,
            None => {
                return Err(StakePoolError::PoolNotExist);
            },
        };
        proof {
            self.lemma_pool_index(idx as int);
        }
        let mut out: Vec<RewardEntry> = Vec::new();
        let n = self.ledger.records.len();
        let mut i: usize = 0;
        while i < n
            invariant
                i <= n,
                n == self.ledger.records@.len(),
                self.wf(),
                idx < self.pools@.len(),
                self.pools@[idx as int].match_id == match_id,
                self.pool_index_of(match_id) == idx as int,
                out@ == Self::rewards_preview_spec(
                    self.spec_pool(match_id),
                    self.ledger.records@.take(i as int),
                    bettor,
                ),
            decreases n - i,
        {
            let rec = self.ledger.records[i];
            proof {
                assert(self.ledger.records@.take(i + 1).drop_last() =~= self.ledger.records@.take(
                    i as int,
                ));
                assert(self.ledger.records@.take(i + 1).last() == rec);
            }
            if rec.match_id == match_id && rec.bettor == bettor {
                match compute_payout(&self.pools[idx], &rec) {
                    Ok(v) => {
                        out.push(RewardEntry { record_id: i as u64, amount: v });
                    },
                    Err(_) => {},
                }
            }
            i = i + 1;
        }
        proof {
            assert(self.ledger.records@.take(n as int) =~= self.ledger.records@);
        }
        Ok(out)
    }
}

/// One line of a rewards preview: a claimable record and the payout the
/// model owes it.
#[derive(Clone, Copy, Debug, PartialEq, Eq, Structural)]
pub struct RewardEntry {
    /// Identifier of the claimable bet record.
    pub record_id: u64,
    /// The final payout the claim would transfer.
    pub amount: u64,
}

/// The host-supplied facts an instruction may need beyond its payload:
/// the host resolves accounts and verifies signatures before invoking
/// the engine, and hands the results in as plain values.
#[derive(Clone, Copy, Debug, PartialEq, Eq, Structural)]
pub struct HostContext {
    /// Current host time, held against the betting deadline.
    pub now: u64,
    /// The signing account; recorded as the bettor of a deposit.
    pub caller: Address,
    /// Match identifier from the host's account data; read by
    /// `Initialize`, which carries none in its payload.
    pub match_id: u64,
    /// Betting deadline from the host's account data; read by
    /// `Initialize` only.
    pub lock_time: u64,
}

/// What one processed instruction did, and what the host must still do:
/// perform the named fund transfer, emit the matching event.
#[derive(Debug, PartialEq, Eq)]
pub enum ProcessOutcome {
    /// A pool was created for this match; no transfer owed.
    PoolCreated {
        /// Match the new pool belongs to.
        match_id: u64,
    },
    /// A bet was recorded; the host transfers the amount from the
    /// bettor to escrow within the same atomic instruction, so that a
    /// failed transfer discards the recorded bet with the rest of the
    /// instruction.
    BetDeposited {
        /// Identifier of the new bet record.
        record_id: u64,
        /// Stake to move from the bettor into escrow.
        amount: u64,
    },
    /// A claim was validated and priced; nothing settled yet. The host
    /// transfers the amount from escrow to the bettor and only after
    /// the transfer succeeds calls `confirm_claim` with this record.
    ClaimReady {
        /// Record the claim settles.
        record_id: u64,
        /// Account the payout is owed to.
        bettor: Address,
        /// The final payout: stake plus winnings net of the fee.
        amount: u64,
    },
    /// The read-only rewards preview; no transfer owed.
    RewardsReport {
        /// One line per currently claimable record, in insertion order.
        entries: Vec<RewardEntry>,
    },
    /// The read-only escrow total of one match; no transfer owed.
    Balance {
        /// Everything escrowed for the match, over all outcomes.
        amount: u64,
    },
}

impl Processor {
    /// Decodes one instruction and routes it: the wire contract exposed
    /// to the host runtime. A failing instruction leaves the engine
    /// untouched; a succeeding one applies fully and returns what the
    /// host must still transfer.
    pub fn process(&mut self, ctx: HostContext, data: &[u8]) -> (r: Result<
        ProcessOutcome,
        StakePoolError,
    >)
        requires
            old(self).wf(),
        ensures
            final(self).wf(),
            r is Err ==> Self::unchanged_views(*old(self), *final(self)),
            (match spec_deserialize(data@) {
                Err(e) => r == Err::<ProcessOutcome, StakePoolError>(e),
                Ok(instruction) => match instruction {
                    StakePoolInstruction::Initialize(args) => (match Self::initialize_error(
                        *old(self),
                        ctx.match_id,
                        args,
                    ) {
                        Some(e) => r == Err::<ProcessOutcome, StakePoolError>(e),
                        None => r == Ok::<ProcessOutcome, StakePoolError>(
                            ProcessOutcome::PoolCreated { match_id: ctx.match_id },
                        ) && Self::initialize_effect(
                            *old(self),
                            *final(self),
                            ctx.match_id,
                            ctx.lock_time,
                            args,
                        ),
                    }),
                    StakePoolInstruction::DepositBet { match_id, outcome, amount } => (match Self::deposit_error(
                        *old(self),
                        match_id,
                        outcome,
                        amount,
                        ctx.now,
                    ) {
                        Some(e) => r == Err::<ProcessOutcome, StakePoolError>(e),
                        None => (r matches Ok(ProcessOutcome::BetDeposited { record_id, amount: a })
                            && a == amount && Self::deposit_effect(
                            *old(self),
                            *final(self),
                            match_id,
                            ctx.caller,
                            outcome,
                            amount,
                            record_id,
                        )),
                    }),
                    StakePoolInstruction::ClaimRewards { match_id, record_id } => (match Self::claim_payout_spec(
                        *old(self),
                        match_id,
                        record_id,
                    ) {
                        Ok(payout) => r == Ok::<ProcessOutcome, StakePoolError>(
                            ProcessOutcome::ClaimReady {
                                record_id,
                                bettor: payout.0,
                                amount: payout.1,
                            },
                        ) && Self::unchanged_views(*old(self), *final(self)),
                        Err(e) => r == Err::<ProcessOutcome, StakePoolError>(e),
                    }),
                    StakePoolInstruction::CalculateRewards { match_id, bettor } => {
                        &&& Self::unchanged_views(*old(self), *final(self))
                        &&& if old(self).has_pool(match_id) {
                            r matches Ok(ProcessOutcome::RewardsReport { entries }) && entries@
                                == Self::rewards_preview_spec(
                                old(self).spec_pool(match_id),
                                old(self).ledger.records@,
                                bettor,
                            )
                        } else {
                            r == Err::<ProcessOutcome, StakePoolError>(StakePoolError::PoolNotExist)
                        }
                    },
                    StakePoolInstruction::GetPoolBalance { match_id } => {
                        &&& Self::unchanged_views(*old(self), *final(self))
                        &&& if old(self).has_pool(match_id) {
                            r == Ok::<ProcessOutcome, StakePoolError>(
                                ProcessOutcome::Balance {
                                    amount: old(self).spec_pool(match_id).total_escrow() as u64,
                                },
                            )
                        } else {
                            r == Err::<ProcessOutcome, StakePoolError>(StakePoolError::PoolNotExist)
                        }
                    },
                },
            }),
    {
        let instruction = match StakePoolInstruction::deserialize(data) {
            Ok(i) => i,
            Err(e) => {
                return Err(e);
            },
        };
        match instruction {
            StakePoolInstruction::Initialize(args) => {
                match self.initialize(ctx.match_id, ctx.lock_time, args) {
                    Ok(()) => Ok(ProcessOutcome::PoolCreated { match_id: ctx.match_id }),
                    Err(e) => Err(e),
                }
            },
            StakePoolInstruction::DepositBet { match_id, outcome, amount } => {
                match self.record_bet(match_id, ctx.caller, outcome, amount, ctx.now) {
                    Ok(record_id) => Ok(ProcessOutcome::BetDeposited { record_id, amount }),
                    Err(e) => Err(e),
                }
            },
            StakePoolInstruction::ClaimRewards { match_id, record_id } => {
                match self.claim_payout(match_id, record_id) {
                    Ok(payout) => Ok(
                        ProcessOutcome::ClaimReady {
                            record_id,
                            bettor: payout.0,
                            amount: payout.1,
                        },
                    ),
                    Err(e) => Err(e),
                }
            },
            StakePoolInstruction::CalculateRewards { match_id, bettor } => {
                match self.calculate_rewards(match_id, bettor) {
                    Ok(entries) => Ok(ProcessOutcome::RewardsReport { entries }),
                    Err(e) => Err(e),
                }
            },
            StakePoolInstruction::GetPoolBalance { match_id } => {
                match self.get_pool_balance(match_id) {
                    Ok(amount) => Ok(ProcessOutcome::Balance { amount }),
                    Err(e) => Err(e),
                }
            },
        }
    }
}

/// Law: funds are conserved. In a well-formed engine, everything a
/// pool's per-outcome totals hold is exactly the stake the ledger
/// records for that match — deposits moved every escrowed unit into the
/// totals and nothing else ever moved them.
pub proof fn lemma_conservation(p: Processor, i: int)
    requires
        p.wf(),
        0 <= i < p.pools@.len(),
    ensures
        p.pools@[i].total_escrow() == stake_for_match(p.ledger.records@, p.pools@[i].match_id),
{
    let pool = p.pools@[i];
    lemma_stake_splits_by_outcome(p.ledger.records@, pool.match_id);
    assert(pool.outcome_totals@[0] == stake_on_outcome(p.ledger.records@, pool.match_id, 0));
    assert(pool.outcome_totals@[1] == stake_on_outcome(p.ledger.records@, pool.match_id, 1));
    assert(pool.outcome_totals@[2] == stake_on_outcome(p.ledger.records@, pool.match_id, 2));
}

/// Law: no over-distribution. In a well-formed engine with a resolved
/// pool whose winning side holds stake, settling every winning record
/// once — final payout to its bettor plus fee to the manager — draws at
/// most everything the pool escrowed; the rounding residue stays with
/// the pool.
pub proof fn lemma_engine_no_over_distribution(p: Processor, i: int)
    requires
        p.wf(),
        0 <= i < p.pools@.len(),
        p.pools@[i].state is Resolved,
        p.pools@[i].outcome_totals@[p.pools@[i].winning_outcome->0 as int] > 0,
    ensures
        winning_drain(p.pools@[i], p.ledger.records@) <= p.pools@[i].total_escrow(),
{
    let pool = p.pools@[i];
    let w = pool.winning_outcome->0;
    assert(pool_conserved(pool, p.ledger.records@));
    assert(pool.outcome_totals@[w as int] == stake_on_outcome(
        p.ledger.records@,
        pool.match_id,
        w,
    ));
    lemma_no_over_distribution(pool, p.ledger.records@);
}

} // verus!

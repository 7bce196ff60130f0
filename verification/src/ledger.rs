//! Append-only bet ledger: one durable record per wager.
//!
//! Records are never deleted; the claim operation is the only mutation
//! and flips the `claimed` flag exactly once. The record's position in
//! the ledger is its identifier.

use vstd::prelude::*;
use crate::error::StakePoolError;

verus! {

/// An account address in the host's addressing scheme, held as four
/// 64-bit words of the 32-byte address, least significant word first.
#[derive(Clone, Copy, Debug, PartialEq, Eq, Hash, Structural)]
pub struct Address {
    /// Bytes 0..8 of the address.
    pub w0: u64,
    /// Bytes 8..16 of the address.
    pub w1: u64,
    /// Bytes 16..24 of the address.
    pub w2: u64,
    /// Bytes 24..32 of the address.
    pub w3: u64,
}

/// One wager: who bet how much on which outcome of which match, and
/// whether its payout has been claimed.
#[derive(Clone, Copy, Debug, PartialEq, Eq, Structural)]
pub struct BetRecord {
    /// Match this wager belongs to.
    pub match_id: u64,
    /// Account that placed and may claim this wager.
    pub bettor: Address,
    /// The pick: side A = 0, draw = 1, side B = 2.
    pub outcome: u8,
    /// Escrowed stake; always positive.
    pub amount: u64,
    /// Whether the payout for this record has been settled.
    pub claimed: bool,
}

impl BetRecord {
    /// A record the ledger accepts: a valid pick and a positive stake.
    pub open spec fn wf(self) -> bool {
        self.outcome < 3 && self.amount > 0
    }
}

/// Sum of the stakes placed on `outcome` of `match_id`, over a record
/// sequence.
pub open spec fn stake_on_outcome(records: Seq<BetRecord>, match_id: u64, outcome: u8) -> int
    decreases records.len(),
{
    if records.len() == 0 {
        0
    } else {
        stake_on_outcome(records.drop_last(), match_id, outcome) + if records.last().match_id
            == match_id && records.last().outcome == outcome {
            records.last().amount as int
        } else {
            0
        }
    }
}

/// Sum of the stakes placed on `match_id`, over all outcomes.
pub open spec fn stake_for_match(records: Seq<BetRecord>, match_id: u64) -> int
    decreases records.len(),
{
    if records.len() == 0 {
        0
    } else {
        stake_for_match(records.drop_last(), match_id) + if records.last().match_id == match_id {
            records.last().amount as int
        } else {
            0
        }
    }
}

/// A match's stake is exactly the three per-outcome stakes together,
/// provided every record names one of the three outcomes.
pub proof fn lemma_stake_splits_by_outcome(records: Seq<BetRecord>, match_id: u64)
    requires
        forall|i: int| 0 <= i < records.len() ==> (#[trigger] records[i]).outcome < 3,
    ensures
        stake_for_match(records, match_id) == stake_on_outcome(records, match_id, 0)
            + stake_on_outcome(records, match_id, 1) + stake_on_outcome(records, match_id, 2),
    decreases records.len(),
{
    if records.len() > 0 {
        lemma_stake_splits_by_outcome(records.drop_last(), match_id);
    }
}

/// Appending one record adds its amount to exactly the stake sum of its
/// own match and outcome, and to no other.
pub proof fn lemma_stake_on_outcome_push(
    records: Seq<BetRecord>,
    rec: BetRecord,
    match_id: u64,
    outcome: u8,
)
    ensures
        stake_on_outcome(records.push(rec), match_id, outcome) == stake_on_outcome(
            records,
            match_id,
            outcome,
        ) + if rec.match_id == match_id && rec.outcome == outcome {
            rec.amount as int
        } else {
            0
        },
{
    assert(records.push(rec).drop_last() =~= records);
}

/// A match no record names has a zero stake sum on every outcome.
pub proof fn lemma_stake_on_outcome_absent(records: Seq<BetRecord>, match_id: u64, outcome: u8)
    requires
        forall|i: int| 0 <= i < records.len() ==> (#[trigger] records[i]).match_id != match_id,
    ensures
        stake_on_outcome(records, match_id, outcome) == 0,
    decreases records.len(),
{
    if records.len() > 0 {
        lemma_stake_on_outcome_absent(records.drop_last(), match_id, outcome);
    }
}

/// Replacing a record without changing its match, outcome or amount
/// leaves every stake sum unchanged; settling a claim moves no stake.
pub proof fn lemma_stake_on_outcome_update(
    records: Seq<BetRecord>,
    i: int,
    rec: BetRecord,
    match_id: u64,
    outcome: u8,
)
    requires
        0 <= i < records.len(),
        rec.match_id == records[i].match_id,
        rec.outcome == records[i].outcome,
        rec.amount == records[i].amount,
    ensures
        stake_on_outcome(records.update(i, rec), match_id, outcome) == stake_on_outcome(
            records,
            match_id,
            outcome,
        ),
    decreases records.len(),
{
    let updated = records.update(i, rec);
    if i == records.len() - 1 {
        assert(updated.drop_last() =~= records.drop_last());
    } else {
        assert(updated.drop_last() =~= records.drop_last().update(i, rec));
        lemma_stake_on_outcome_update(records.drop_last(), i, rec, match_id, outcome);
        assert(updated.last() == records.last());
    }
}

/// The durable, append-only record of every bet.
pub struct BetLedger {
    /// All records ever appended, in insertion order; a record's index
    /// is its identifier.
    pub records: Vec<BetRecord>,
}

/// Functional model of the claim mutation: an unknown identifier is
/// rejected, a second claim on the same record is rejected, and a first
/// claim flips exactly the `claimed` flag.
pub open spec fn mark_claimed_spec(records: Seq<BetRecord>, record_id: u64) -> Result<
    Seq<BetRecord>,
    StakePoolError,
> {
    if record_id >= records.len() {
        Err(StakePoolError::InvalidClaim)
    } else if records[record_id as int].claimed {
        Err(StakePoolError::AlreadyClaimed)
    } else {
        let rec = records[record_id as int];
        Ok(
            records.update(
                record_id as int,
                BetRecord {
                    match_id: rec.match_id,
                    bettor: rec.bettor,
                    outcome: rec.outcome,
                    amount: rec.amount,
                    claimed: true,
                },
            ),
        )
    }
}

/// The wagers of `bettor` on `match_id`, in insertion order.
pub open spec fn bets_for_spec(records: Seq<BetRecord>, match_id: u64, bettor: Address) -> Seq<
    BetRecord,
>
    decreases records.len(),
{
    if records.len() == 0 {
        Seq::empty()
    } else {
        let prefix = bets_for_spec(records.drop_last(), match_id, bettor);
        if records.last().match_id == match_id && records.last().bettor == bettor {
            prefix.push(records.last())
        } else {
            prefix
        }
    }
}

impl BetLedger {
    /// Every record in the ledger is one the ledger accepts.
    pub open spec fn wf(self) -> bool {
        forall|i: int| 0 <= i < self.records@.len() ==> (#[trigger] self.records@[i]).wf()
    }

    /// An empty ledger.
    pub fn new() -> (l: BetLedger)
        ensures
            l.records@ =~= Seq::<BetRecord>::empty(),
            l.wf(),
    {
        BetLedger { records: Vec::new() }
    }

    /// Appends one record and returns its identifier: its position in
    /// insertion order.
    pub fn append(&mut self, rec: BetRecord) -> (id: u64)
        requires
            old(self).wf(),
            rec.wf(),
        ensures
            final(self).wf(),
            final(self).records@ == old(self).records@.push(rec),
            id == old(self).records@.len(),
    {
        let id = self.records.len() as u64;
        self.records.push(rec);
        id
    }

    /// Settles a record exactly once. Fails with `InvalidClaim` for an
    /// unknown identifier and `AlreadyClaimed` for a record already
    /// settled; on success only the `claimed` flag changes.
    pub fn mark_claimed(&mut self, record_id: u64) -> (r: Result<(), StakePoolError>)
        requires
            old(self).wf(),
        ensures
            final(self).wf(),
            (match mark_claimed_spec(old(self).records@, record_id) {
                Ok(new_records) => r is Ok && final(self).records@ == new_records,
                Err(e) => r == Err::<(), StakePoolError>(e) && final(self).records@ == old(
                    self,
                ).records@,
            }),
            r is Ok <==> (record_id < old(self).records@.len()
                && !old(self).records@[record_id as int].claimed),
    {
        if record_id >= self.records.len() as u64 {
            return Err(StakePoolError::InvalidClaim);
        }
        let idx = record_id as usize;
        let rec = self.records[idx];
        if rec.claimed {
            return Err(StakePoolError::AlreadyClaimed);
        }
        self.records.set(
            idx,
            BetRecord {
                match_id: rec.match_id,
                bettor: rec.bettor,
                outcome: rec.outcome,
                amount: rec.amount,
                claimed: true,
            },
        );
        Ok(())
    }

    /// Read-only view of one record.
    pub fn get(&self, record_id: u64) -> (r: Option<BetRecord>)
        ensures
            record_id < self.records@.len() ==> r == Some(self.records@[record_id as int]),
            record_id >= self.records@.len() ==> r is None,
    {
        if record_id >= self.records.len() as u64 {
            None
        } else {
            Some(self.records[record_id as usize])
        }
    }

    /// All wagers of `bettor` on `match_id`, in insertion order.
    pub fn bets_for(&self, match_id: u64, bettor: Address) -> (out: Vec<BetRecord>)
        ensures
            out@ == bets_for_spec(self.records@, match_id, bettor),
    {
        let mut out: Vec<BetRecord> = Vec::new();
        let n = self.records.len();
        let mut i: usize = 0;
        while i < n
            invariant
                i <= n,
                n == self.records@.len(),
                out@ == bets_for_spec(self.records@.take(i as int), match_id, bettor),
            decreases n - i,
        {
            let rec = self.records[i];
            proof {
                assert(self.records@.take(i + 1).drop_last() =~= self.records@.take(i as int));
                assert(self.records@.take(i + 1).last() == rec);
            }
            if rec.match_id == match_id && rec.bettor == bettor {
                out.push(rec);
            }
            i = i + 1;
        }
        proof {
            assert(self.records@.take(n as int) =~= self.records@);
        }
        out
    }
}

/// Law: a claim succeeds at most once. After a successful claim of a
/// record, a second claim of the same record is rejected with
/// `AlreadyClaimed`, never settled again.
pub proof fn lemma_no_double_claim(records: Seq<BetRecord>, after: Seq<BetRecord>, record_id: u64)
    requires
        mark_claimed_spec(records, record_id) == Ok::<Seq<BetRecord>, StakePoolError>(after),
    ensures
        mark_claimed_spec(after, record_id) == Err::<Seq<BetRecord>, StakePoolError>(
            StakePoolError::AlreadyClaimed,
        ),
{
}

} // verus!

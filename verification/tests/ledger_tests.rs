use betana::error::StakePoolError;
use betana::ledger::{Address, BetLedger, BetRecord};

fn addr(tag: u64) -> Address {
    Address { w0: tag, w1: 2 * tag, w2: 3 * tag, w3: 4 * tag }
}

fn record(match_id: u64, bettor: Address, outcome: u8, amount: u64) -> BetRecord {
    BetRecord { match_id, bettor, outcome, amount, claimed: false }
}

#[test]
fn append_assigns_positions_in_order() {
    let mut ledger = BetLedger::new();
    assert_eq!(ledger.append(record(1, addr(1), 0, 100)), 0);
    assert_eq!(ledger.append(record(1, addr(2), 2, 50)), 1);
    assert_eq!(ledger.append(record(2, addr(1), 1, 75)), 2);
    assert_eq!(ledger.get(1).unwrap().amount, 50);
    assert_eq!(ledger.get(3), None);
}

#[test]
fn mark_claimed_succeeds_once_then_rejects() {
    let mut ledger = BetLedger::new();
    let id = ledger.append(record(1, addr(1), 0, 100));
    assert_eq!(ledger.mark_claimed(id), Ok(()));
    assert!(ledger.get(id).unwrap().claimed);
    assert_eq!(ledger.mark_claimed(id), Err(StakePoolError::AlreadyClaimed));
    assert!(ledger.get(id).unwrap().claimed);
}

#[test]
fn mark_claimed_changes_only_the_flag() {
    let mut ledger = BetLedger::new();
    let id = ledger.append(record(9, addr(5), 2, 123));
    ledger.mark_claimed(id).unwrap();
    let rec = ledger.get(id).unwrap();
    assert_eq!(rec.match_id, 9);
    assert_eq!(rec.bettor, addr(5));
    assert_eq!(rec.outcome, 2);
    assert_eq!(rec.amount, 123);
    assert!(rec.claimed);
}

#[test]
fn mark_claimed_rejects_unknown_record() {
    let mut ledger = BetLedger::new();
    assert_eq!(ledger.mark_claimed(0), Err(StakePoolError::InvalidClaim));
    ledger.append(record(1, addr(1), 0, 100));
    assert_eq!(ledger.mark_claimed(1), Err(StakePoolError::InvalidClaim));
}

#[test]
fn bets_for_filters_by_match_and_bettor_in_order() {
    let mut ledger = BetLedger::new();
    ledger.append(record(1, addr(1), 0, 100));
    ledger.append(record(1, addr(2), 0, 50));
    ledger.append(record(2, addr(1), 1, 75));
    ledger.append(record(1, addr(1), 2, 25));
    let mine = ledger.bets_for(1, addr(1));
    assert_eq!(mine.len(), 2);
    assert_eq!(mine[0].amount, 100);
    assert_eq!(mine[0].outcome, 0);
    assert_eq!(mine[1].amount, 25);
    assert_eq!(mine[1].outcome, 2);
    assert_eq!(ledger.bets_for(3, addr(1)), vec![]);
}

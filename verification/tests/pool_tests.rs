use betana::error::StakePoolError;
use betana::fee::{Fee, InitArgs};
use betana::pool::{MatchPool, PoolState};

fn init_args() -> InitArgs {
    InitArgs { fee: Fee { denominator: 100, numerator: 5 } }
}

#[test]
fn create_pool_starts_open_and_empty() {
    let pool = MatchPool::create(7, 1_000, init_args()).unwrap();
    assert_eq!(pool.match_id, 7);
    assert_eq!(pool.lock_time, 1_000);
    assert_eq!(pool.state, PoolState::Open);
    assert_eq!(pool.winning_outcome, None);
    assert_eq!(pool.outcome_totals, vec![0, 0, 0]);
    assert_eq!(pool.balance(), 0);
}

#[test]
fn create_pool_rejects_bad_fee() {
    let bad = InitArgs { fee: Fee { denominator: 0, numerator: 0 } };
    assert!(matches!(MatchPool::create(7, 0, bad), Err(StakePoolError::InvalidFeeRatio)));
}

#[test]
fn lifecycle_moves_strictly_forward() {
    let mut pool = MatchPool::create(7, 1_000, init_args()).unwrap();
    assert_eq!(pool.lock(), Ok(()));
    assert_eq!(pool.state, PoolState::Locked);
    assert_eq!(pool.resolve(2), Ok(()));
    assert_eq!(pool.state, PoolState::Resolved);
    assert_eq!(pool.winning_outcome, Some(2));
    assert_eq!(pool.close(), Ok(()));
    assert_eq!(pool.state, PoolState::Closed);
}

#[test]
fn lock_twice_fails() {
    let mut pool = MatchPool::create(7, 1_000, init_args()).unwrap();
    pool.lock().unwrap();
    assert_eq!(pool.lock(), Err(StakePoolError::PoolStateClosed));
}

#[test]
fn lock_if_due_fires_only_at_deadline() {
    let mut pool = MatchPool::create(7, 1_000, init_args()).unwrap();
    assert!(!pool.lock_if_due(999));
    assert_eq!(pool.state, PoolState::Open);
    assert!(pool.lock_if_due(1_000));
    assert_eq!(pool.state, PoolState::Locked);
    assert!(!pool.lock_if_due(2_000));
    assert_eq!(pool.state, PoolState::Locked);
}

#[test]
fn resolve_rejects_out_of_range_outcome() {
    let mut pool = MatchPool::create(7, 1_000, init_args()).unwrap();
    pool.lock().unwrap();
    assert_eq!(pool.resolve(3), Err(StakePoolError::InvalidOutcome));
    assert_eq!(pool.state, PoolState::Locked);
}

#[test]
fn resolve_twice_fails_with_already_resolved() {
    let mut pool = MatchPool::create(7, 1_000, init_args()).unwrap();
    pool.lock().unwrap();
    pool.resolve(0).unwrap();
    assert_eq!(pool.resolve(1), Err(StakePoolError::AlreadyResolved));
    assert_eq!(pool.winning_outcome, Some(0));
}

#[test]
fn resolve_open_pool_fails() {
    let mut pool = MatchPool::create(7, 1_000, init_args()).unwrap();
    assert_eq!(pool.resolve(0), Err(StakePoolError::PoolStateClosed));
}

#[test]
fn close_unresolved_pool_fails() {
    let mut pool = MatchPool::create(7, 1_000, init_args()).unwrap();
    assert_eq!(pool.close(), Err(StakePoolError::PoolStateClosed));
    pool.lock().unwrap();
    assert_eq!(pool.close(), Err(StakePoolError::PoolStateClosed));
}

#[test]
fn add_stake_accumulates_per_outcome() {
    let mut pool = MatchPool::create(7, 1_000, init_args()).unwrap();
    pool.add_stake(0, 100).unwrap();
    pool.add_stake(0, 50).unwrap();
    pool.add_stake(2, 100).unwrap();
    assert_eq!(pool.outcome_totals, vec![150, 0, 100]);
    assert_eq!(pool.balance(), 250);
}

#[test]
fn add_stake_rejects_overflowing_total() {
    let mut pool = MatchPool::create(7, 1_000, init_args()).unwrap();
    pool.add_stake(1, u64::MAX - 1).unwrap();
    assert_eq!(pool.add_stake(0, 2), Err(StakePoolError::ArithmeticOverflow));
    assert_eq!(pool.outcome_totals, vec![0, u64::MAX - 1, 0]);
    pool.add_stake(0, 1).unwrap();
    assert_eq!(pool.balance(), u64::MAX);
}

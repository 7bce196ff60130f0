use betana::error::StakePoolError;
use betana::fee::{Fee, InitArgs};
use betana::instruction::StakePoolInstruction;
use betana::ledger::{Address, BetRecord};
use betana::payout::compute_payout;
use betana::pool::{MatchPool, PoolState};
use betana::processor::{HostContext, ProcessOutcome, Processor, RewardEntry};

const MATCH: u64 = 7;
const DEADLINE: u64 = 1_000;

fn addr(tag: u64) -> Address {
    Address { w0: tag, w1: 0, w2: 0, w3: tag }
}

fn five_percent() -> InitArgs {
    InitArgs { fee: Fee { denominator: 100, numerator: 5 } }
}

fn open_pool_engine() -> Processor {
    let mut engine = Processor::new();
    engine.initialize(MATCH, DEADLINE, five_percent()).unwrap();
    engine
}

#[test]
fn scenario_five_percent_pool_distributes_without_loss() {
    let mut engine = open_pool_engine();
    let bet_a1 = engine.record_bet(MATCH, addr(1), 0, 100, 0).unwrap();
    let bet_a2 = engine.record_bet(MATCH, addr(2), 0, 50, 0).unwrap();
    engine.record_bet(MATCH, addr(3), 2, 100, 0).unwrap();
    assert_eq!(engine.get_pool_balance(MATCH), Ok(250));

    engine.lock_pool(MATCH).unwrap();
    engine.resolve_pool(MATCH, 0).unwrap();

    // Winning pool 150, losing pool 100. The 100-stake wins
    // floor(100 * 100 / 150) = 66 gross, pays floor(66 * 5 / 100) = 3
    // fee, and receives 100 + 63. The 50-stake wins 33 gross, pays 1
    // fee, and receives 50 + 32.
    let (payee1, payout1) = engine.claim_payout(MATCH, bet_a1).unwrap();
    assert_eq!(payee1, addr(1));
    assert_eq!(payout1, 163);
    engine.confirm_claim(bet_a1).unwrap();

    let (payee2, payout2) = engine.claim_payout(MATCH, bet_a2).unwrap();
    assert_eq!(payee2, addr(2));
    assert_eq!(payout2, 82);
    engine.confirm_claim(bet_a2).unwrap();

    // No over-distribution: payouts plus collected fees stay within the
    // pool; one unit of rounding residue remains in escrow.
    let fees = 3 + 1;
    let distributed = payout1 + payout2 + fees;
    assert_eq!(distributed, 249);
    assert!(distributed <= 250);
}

#[test]
fn record_bet_after_lock_fails_regardless_of_amount() {
    let mut engine = open_pool_engine();
    engine.lock_pool(MATCH).unwrap();
    assert_eq!(
        engine.record_bet(MATCH, addr(1), 0, 100, 0),
        Err(StakePoolError::PoolStateClosed)
    );
    assert_eq!(
        engine.record_bet(MATCH, addr(1), 0, 0, 0),
        Err(StakePoolError::PoolStateClosed)
    );
    assert_eq!(
        engine.record_bet(MATCH, addr(1), 9, u64::MAX, 0),
        Err(StakePoolError::PoolStateClosed)
    );
    assert_eq!(engine.get_pool_balance(MATCH), Ok(0));
}

#[test]
fn record_bet_after_deadline_fails() {
    let mut engine = open_pool_engine();
    assert_eq!(
        engine.record_bet(MATCH, addr(1), 0, 100, DEADLINE),
        Err(StakePoolError::PoolStateClosed)
    );
    assert!(engine.record_bet(MATCH, addr(1), 0, 100, DEADLINE - 1).is_ok());
}

#[test]
fn record_bet_validation_errors() {
    let mut engine = open_pool_engine();
    assert_eq!(
        engine.record_bet(99, addr(1), 0, 100, 0),
        Err(StakePoolError::PoolNotExist)
    );
    assert_eq!(
        engine.record_bet(MATCH, addr(1), 0, 0, 0),
        Err(StakePoolError::InvalidAmount)
    );
    assert_eq!(
        engine.record_bet(MATCH, addr(1), 3, 100, 0),
        Err(StakePoolError::InvalidOutcome)
    );
    engine.record_bet(MATCH, addr(1), 0, u64::MAX - 1, 0).unwrap();
    assert_eq!(
        engine.record_bet(MATCH, addr(2), 1, 2, 0),
        Err(StakePoolError::ArithmeticOverflow)
    );
}

#[test]
fn initialize_same_match_twice_fails() {
    let mut engine = open_pool_engine();
    assert_eq!(
        engine.initialize(MATCH, DEADLINE, five_percent()),
        Err(StakePoolError::AlreadyInUse)
    );
    assert!(engine.initialize(MATCH + 1, DEADLINE, five_percent()).is_ok());
}

#[test]
fn initialize_rejects_bad_fee() {
    let mut engine = Processor::new();
    let bad = InitArgs { fee: Fee { denominator: 4, numerator: 5 } };
    assert_eq!(engine.initialize(MATCH, DEADLINE, bad), Err(StakePoolError::InvalidFeeRatio));
}

#[test]
fn double_claim_pays_once_then_rejects() {
    let mut engine = open_pool_engine();
    let bet = engine.record_bet(MATCH, addr(1), 1, 100, 0).unwrap();
    engine.record_bet(MATCH, addr(2), 0, 60, 0).unwrap();
    engine.lock_pool(MATCH).unwrap();
    engine.resolve_pool(MATCH, 1).unwrap();

    let (_, first) = engine.claim_payout(MATCH, bet).unwrap();
    assert_eq!(first, 100 + 60 - 3);
    assert_eq!(engine.confirm_claim(bet), Ok(()));

    // The settled record is rejected both at pricing and at settlement.
    assert_eq!(engine.claim_payout(MATCH, bet), Err(StakePoolError::AlreadyClaimed));
    assert_eq!(engine.confirm_claim(bet), Err(StakePoolError::AlreadyClaimed));
}

#[test]
fn losing_record_cannot_claim() {
    let mut engine = open_pool_engine();
    let losing_bet = engine.record_bet(MATCH, addr(1), 2, 100, 0).unwrap();
    engine.record_bet(MATCH, addr(2), 0, 60, 0).unwrap();
    engine.lock_pool(MATCH).unwrap();
    engine.resolve_pool(MATCH, 0).unwrap();
    assert_eq!(engine.claim_payout(MATCH, losing_bet), Err(StakePoolError::InvalidClaim));
}

#[test]
fn claim_needs_resolved_pool() {
    let mut engine = open_pool_engine();
    let bet = engine.record_bet(MATCH, addr(1), 0, 100, 0).unwrap();
    assert_eq!(engine.claim_payout(MATCH, bet), Err(StakePoolError::PoolStateClosed));
    engine.lock_pool(MATCH).unwrap();
    assert_eq!(engine.claim_payout(MATCH, bet), Err(StakePoolError::PoolStateClosed));
    engine.resolve_pool(MATCH, 0).unwrap();
    assert!(engine.claim_payout(MATCH, bet).is_ok());
    engine.close_pool(MATCH).unwrap();
    assert_eq!(engine.claim_payout(MATCH, bet), Err(StakePoolError::PoolStateClosed));
}

#[test]
fn claim_validation_errors() {
    let mut engine = open_pool_engine();
    let bet = engine.record_bet(MATCH, addr(1), 0, 100, 0).unwrap();
    engine.initialize(MATCH + 1, DEADLINE, five_percent()).unwrap();
    engine.lock_pool(MATCH).unwrap();
    engine.resolve_pool(MATCH, 0).unwrap();
    assert_eq!(engine.claim_payout(99, bet), Err(StakePoolError::PoolNotExist));
    assert_eq!(engine.claim_payout(MATCH, 5), Err(StakePoolError::InvalidClaim));
    // A record of another match is no claim on this pool.
    assert_eq!(engine.claim_payout(MATCH + 1, bet), Err(StakePoolError::InvalidClaim));
}

#[test]
fn resolution_guards() {
    let mut engine = open_pool_engine();
    assert_eq!(engine.resolve_pool(99, 0), Err(StakePoolError::PoolNotExist));
    assert_eq!(engine.resolve_pool(MATCH, 0), Err(StakePoolError::PoolStateClosed));
    engine.lock_pool(MATCH).unwrap();
    assert_eq!(engine.resolve_pool(MATCH, 3), Err(StakePoolError::InvalidOutcome));
    engine.resolve_pool(MATCH, 2).unwrap();
    assert_eq!(engine.resolve_pool(MATCH, 1), Err(StakePoolError::AlreadyResolved));
    engine.close_pool(MATCH).unwrap();
    assert_eq!(engine.resolve_pool(MATCH, 1), Err(StakePoolError::PoolStateClosed));
}

#[test]
fn winner_with_whole_pool_gets_stake_back() {
    // Nobody staked on a losing outcome: the winner's profit is zero
    // and the stake comes back whole.
    let mut engine = open_pool_engine();
    let bet = engine.record_bet(MATCH, addr(1), 0, 100, 0).unwrap();
    engine.lock_pool(MATCH).unwrap();
    engine.resolve_pool(MATCH, 0).unwrap();
    assert_eq!(engine.claim_payout(MATCH, bet), Ok((addr(1), 100)));
}

#[test]
fn compute_payout_rejects_drained_winning_side() {
    let pool = MatchPool {
        match_id: MATCH,
        outcome_totals: vec![0, 0, 100],
        state: PoolState::Resolved,
        lock_time: DEADLINE,
        winning_outcome: Some(0),
        fee: Fee { denominator: 100, numerator: 5 },
    };
    let rec = BetRecord { match_id: MATCH, bettor: addr(1), outcome: 0, amount: 5, claimed: false };
    assert_eq!(compute_payout(&pool, &rec), Err(StakePoolError::CalculateRewardFailed));
}

#[test]
fn compute_payout_rejects_oversized_profit() {
    let pool = MatchPool {
        match_id: MATCH,
        outcome_totals: vec![2, 0, u64::MAX - 2],
        state: PoolState::Resolved,
        lock_time: DEADLINE,
        winning_outcome: Some(0),
        fee: Fee { denominator: 100, numerator: 5 },
    };
    let rec = BetRecord { match_id: MATCH, bettor: addr(1), outcome: 0, amount: 4, claimed: false };
    assert_eq!(compute_payout(&pool, &rec), Err(StakePoolError::CalculateRewardFailed));
}

#[test]
fn compute_payout_rejects_oversized_total() {
    let pool = MatchPool {
        match_id: MATCH,
        outcome_totals: vec![10, 0, 10],
        state: PoolState::Resolved,
        lock_time: DEADLINE,
        winning_outcome: Some(0),
        fee: Fee { denominator: 1, numerator: 0 },
    };
    let rec = BetRecord {
        match_id: MATCH,
        bettor: addr(1),
        outcome: 0,
        amount: u64::MAX,
        claimed: false,
    };
    assert_eq!(compute_payout(&pool, &rec), Err(StakePoolError::CalculateRewardFailed));
}

#[test]
fn rewards_preview_prices_claimable_records_only() {
    let mut engine = open_pool_engine();
    let bet1 = engine.record_bet(MATCH, addr(1), 0, 100, 0).unwrap();
    engine.record_bet(MATCH, addr(2), 0, 50, 0).unwrap();
    let bet3 = engine.record_bet(MATCH, addr(1), 0, 20, 0).unwrap();
    engine.record_bet(MATCH, addr(1), 2, 30, 0).unwrap();

    // Before resolution nothing is claimable.
    assert_eq!(engine.calculate_rewards(MATCH, addr(1)), Ok(vec![]));

    engine.lock_pool(MATCH).unwrap();
    engine.resolve_pool(MATCH, 0).unwrap();

    // Winning pool 170, losing pool 30.
    let preview = engine.calculate_rewards(MATCH, addr(1)).unwrap();
    assert_eq!(
        preview,
        vec![
            RewardEntry { record_id: bet1, amount: 100 + 17 },
            RewardEntry { record_id: bet3, amount: 20 + 3 },
        ]
    );

    // A settled record drops out of the preview.
    engine.confirm_claim(bet1).unwrap();
    let preview = engine.calculate_rewards(MATCH, addr(1)).unwrap();
    assert_eq!(preview, vec![RewardEntry { record_id: bet3, amount: 23 }]);

    assert_eq!(engine.calculate_rewards(99, addr(1)), Err(StakePoolError::PoolNotExist));
}

#[test]
fn process_drives_full_match_over_the_wire() {
    let mut engine = Processor::new();
    let ctx = |now: u64, caller: Address| HostContext {
        now,
        caller,
        match_id: MATCH,
        lock_time: DEADLINE,
    };

    let init = StakePoolInstruction::Initialize(five_percent()).serialize();
    assert_eq!(
        engine.process(ctx(0, addr(9)), &init),
        Ok(ProcessOutcome::PoolCreated { match_id: MATCH })
    );

    let bet = StakePoolInstruction::DepositBet { match_id: MATCH, outcome: 0, amount: 100 }
        .serialize();
    assert_eq!(
        engine.process(ctx(0, addr(1)), &bet),
        Ok(ProcessOutcome::BetDeposited { record_id: 0, amount: 100 })
    );
    let bet = StakePoolInstruction::DepositBet { match_id: MATCH, outcome: 2, amount: 60 }
        .serialize();
    assert_eq!(
        engine.process(ctx(0, addr(2)), &bet),
        Ok(ProcessOutcome::BetDeposited { record_id: 1, amount: 60 })
    );

    let balance = StakePoolInstruction::GetPoolBalance { match_id: MATCH }.serialize();
    assert_eq!(
        engine.process(ctx(0, addr(9)), &balance),
        Ok(ProcessOutcome::Balance { amount: 160 })
    );

    engine.lock_pool(MATCH).unwrap();
    engine.resolve_pool(MATCH, 0).unwrap();

    let preview = StakePoolInstruction::CalculateRewards { match_id: MATCH, bettor: addr(1) }
        .serialize();
    assert_eq!(
        engine.process(ctx(2_000, addr(1)), &preview),
        Ok(ProcessOutcome::RewardsReport {
            entries: vec![RewardEntry { record_id: 0, amount: 100 + 57 }],
        })
    );

    let claim = StakePoolInstruction::ClaimRewards { match_id: MATCH, record_id: 0 }.serialize();
    assert_eq!(
        engine.process(ctx(2_000, addr(1)), &claim),
        Ok(ProcessOutcome::ClaimReady { record_id: 0, bettor: addr(1), amount: 157 })
    );
    // The host transfers 157 to the bettor, then settles.
    engine.confirm_claim(0).unwrap();
    assert_eq!(
        engine.process(ctx(2_000, addr(1)), &claim),
        Err(StakePoolError::AlreadyClaimed)
    );
}

#[test]
fn process_rejects_bad_wire_data_untouched() {
    let mut engine = open_pool_engine();
    let ctx = HostContext { now: 0, caller: addr(1), match_id: MATCH, lock_time: DEADLINE };
    assert_eq!(engine.process(ctx, &[]), Err(StakePoolError::MalformedInstruction));
    assert_eq!(engine.process(ctx, &[9u8; 4]), Err(StakePoolError::UnknownOpcode));
    assert_eq!(engine.process(ctx, &[1u8, 0, 0]), Err(StakePoolError::MalformedInstruction));
    assert_eq!(engine.get_pool_balance(MATCH), Ok(0));
}

#[test]
fn deposits_conserve_pool_totals() {
    let mut engine = open_pool_engine();
    let mut recorded: u64 = 0;
    for (tag, outcome, amount) in
        [(1u64, 0u8, 100u64), (2, 1, 40), (3, 2, 5), (1, 0, 7), (2, 2, 13)] {
        engine.record_bet(MATCH, addr(tag), outcome, amount, 0).unwrap();
        recorded += amount;
    }
    assert_eq!(engine.get_pool_balance(MATCH), Ok(recorded));
    let amounts: u64 = engine.ledger.records.iter().map(|r| r.amount).sum();
    assert_eq!(amounts, recorded);
}

use casperflow_protocol::staking_pool::{Error, StakingPool};

const RATE_SCALE: u128 = 1_000_000_000;
const MIN_STAKE: u128 = 1_000_000_000;

#[test]
fn deposit_mints_at_par() {
    let mut pool = StakingPool::init(10);
    assert_eq!(pool.get_exchange_rate(), RATE_SCALE);
    let minted = pool.deposit(1, 2_000_000_000).unwrap();
    assert_eq!(minted, 2_000_000_000);
    assert_eq!(pool.get_total_staked(), 2_000_000_000);
    assert_eq!(pool.get_stcspr_balance(1), 2_000_000_000);
}

#[test]
fn min_stake_boundary() {
    let mut pool = StakingPool::init(10);
    assert_eq!(pool.deposit(1, MIN_STAKE - 1), Err(Error::AmountTooSmall));
    assert_eq!(pool.get_total_staked(), 0);
    assert_eq!(pool.get_stcspr_balance(1), 0);
    let minted = pool.deposit(1, MIN_STAKE).unwrap();
    assert_eq!(minted, MIN_STAKE);
    assert_eq!(pool.get_total_staked(), MIN_STAKE);
}

#[test]
fn instant_withdraw_shortfall_mutates_nothing() {
    let mut pool = StakingPool::init(10);
    let minted = pool.deposit(1, 2_000_000_000).unwrap();
    assert_eq!(minted, 2_000_000_000);
    pool.add_instant_liquidity(100_000_000);
    // base = 1_000_000_000, fee = 5_000_000, net = 995_000_000 > 100_000_000
    let result = pool.withdraw(1, 1_000_000_000, true);
    assert_eq!(result, Err(Error::InsufficientPoolLiquidity));
    assert_eq!(pool.get_instant_pool_balance(), 100_000_000);
    assert_eq!(pool.get_total_staked(), 2_000_000_000);
    assert_eq!(pool.get_stcspr_balance(1), 2_000_000_000);
    assert_eq!(pool.token.total_supply(), 2_000_000_000);
    assert_eq!(pool.get_exchange_rate(), RATE_SCALE);
}

#[test]
fn instant_withdraw_charges_exact_fee() {
    let mut pool = StakingPool::init(10);
    pool.deposit(1, 10_000_000_000).unwrap();
    pool.add_instant_liquidity(10_000_000_000);
    // base = 2_000_000_000, fee = 2_000_000_000 * 50 / 10_000 = 10_000_000
    let paid = pool.withdraw(1, 2_000_000_000, true).unwrap();
    assert_eq!(paid, 1_990_000_000);
    assert_eq!(pool.get_instant_pool_balance(), 10_000_000_000 - 1_990_000_000);
    // the full base leaves the recorded principal; the fee stays in custody
    assert_eq!(pool.get_total_staked(), 8_000_000_000);
    assert_eq!(pool.get_stcspr_balance(1), 8_000_000_000);
}

#[test]
fn instant_fee_truncates() {
    let mut pool = StakingPool::init(10);
    pool.deposit(1, 1_000_000_000).unwrap();
    pool.add_instant_liquidity(1_000_000_000);
    // base = 1_999, fee = floor(1_999 * 50 / 10_000) = 9, net = 1_990
    let paid = pool.withdraw(1, 1_999, true).unwrap();
    assert_eq!(paid, 1_990);
    assert_eq!(pool.get_instant_pool_balance(), 1_000_000_000 - 1_990);
    assert_eq!(pool.get_total_staked(), 1_000_000_000 - 1_999);
}

#[test]
fn withdraw_more_than_held_fails() {
    let mut pool = StakingPool::init(10);
    pool.deposit(1, 2_000_000_000).unwrap();
    let result = pool.withdraw(1, 2_000_000_001, false);
    assert_eq!(result, Err(Error::InsufficientBalance));
    assert_eq!(pool.get_total_staked(), 2_000_000_000);
    assert_eq!(pool.get_stcspr_balance(1), 2_000_000_000);
}

#[test]
fn non_instant_withdraw_pays_full_value() {
    let mut pool = StakingPool::init(10);
    pool.deposit(1, 2_000_000_000).unwrap();
    let paid = pool.withdraw(1, 500_000_000, false).unwrap();
    assert_eq!(paid, 500_000_000);
    assert_eq!(pool.get_total_staked(), 1_500_000_000);
    assert_eq!(pool.get_stcspr_balance(1), 1_500_000_000);
    assert_eq!(pool.token.total_supply(), 1_500_000_000);
}

#[test]
fn compounding_moves_rate_up_and_clears_rewards() {
    let mut pool = StakingPool::init(10);
    pool.deposit(1, 2_000_000_000).unwrap();
    pool.ledger.accrue(1_000_000_000);
    pool.compound_rewards();
    assert_eq!(pool.get_total_staked(), 3_000_000_000);
    assert_eq!(pool.ledger.total_rewards, 0);
    // rate = floor(3_000_000_000 * 10^9 / 2_000_000_000)
    assert_eq!(pool.get_exchange_rate(), 1_500_000_000);
    assert!(pool.get_exchange_rate() >= RATE_SCALE);
}

#[test]
fn compounding_with_no_rewards_is_a_no_op() {
    let mut pool = StakingPool::init(10);
    pool.deposit(1, 2_000_000_000).unwrap();
    pool.compound_rewards();
    assert_eq!(pool.get_total_staked(), 2_000_000_000);
    assert_eq!(pool.get_exchange_rate(), RATE_SCALE);
}

#[test]
fn compounding_with_no_supply_keeps_rate() {
    let mut pool = StakingPool::init(10);
    pool.ledger.accrue(5_000_000_000);
    pool.compound_rewards();
    assert_eq!(pool.get_total_staked(), 5_000_000_000);
    assert_eq!(pool.ledger.total_rewards, 0);
    assert_eq!(pool.get_exchange_rate(), RATE_SCALE);
}

#[test]
fn round_trip_exact_when_divisible() {
    let mut pool = StakingPool::init(10);
    pool.deposit(1, 2_000_000_000).unwrap();
    pool.ledger.accrue(1_000_000_000);
    pool.compound_rewards();
    // rate is now 1_500_000_000; 1_500_000_000 * 10^9 divides evenly by it
    let minted = pool.deposit(2, 1_500_000_000).unwrap();
    assert_eq!(minted, 1_000_000_000);
    let paid = pool.withdraw(2, minted, false).unwrap();
    assert_eq!(paid, 1_500_000_000);
}

#[test]
fn round_trip_loses_to_truncation_otherwise() {
    let mut pool = StakingPool::init(10);
    pool.deposit(1, 2_000_000_000).unwrap();
    pool.ledger.accrue(1_000_000_000);
    pool.compound_rewards();
    // rate is now 1_500_000_000 and does not divide 1_000_000_001 * 10^9
    let minted = pool.deposit(2, 1_000_000_001).unwrap();
    assert_eq!(minted, 666_666_667);
    let paid = pool.withdraw(2, minted, false).unwrap();
    assert_eq!(paid, 1_000_000_000);
    assert!(paid < 1_000_000_001);
}

#[test]
fn principal_is_conserved_over_a_sequence() {
    let mut pool = StakingPool::init(10);
    pool.add_instant_liquidity(1_000_000_000);
    pool.deposit(1, 2_000_000_000).unwrap();
    pool.deposit(2, 3_000_000_000).unwrap();
    let first = pool.withdraw(1, 1_000_000_000, false).unwrap();
    let second = pool.withdraw(2, 500_000_000, true).unwrap();
    // withdrawals subtract their converted base value, fee included:
    // 5_000_000_000 deposited, bases 1_000_000_000 and 500_000_000 withdrawn
    assert_eq!(first, 1_000_000_000);
    assert_eq!(second, 500_000_000 - 2_500_000);
    assert_eq!(
        pool.get_total_staked(),
        2_000_000_000 + 3_000_000_000 - 1_000_000_000 - 500_000_000
    );
}

#[test]
fn pool_reports_token_name() {
    let pool = StakingPool::init(10);
    assert_eq!(pool.get_stcspr_token_name(), "Staked CSPR");
}

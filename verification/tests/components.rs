use casperflow_protocol::ledger::PrincipalLedger;
use casperflow_protocol::rate::{to_base, to_derivative, RATE_SCALE};
use casperflow_protocol::reserve::LiquidityReserve;

#[test]
fn conversions_are_exact_at_par() {
    assert_eq!(to_derivative(2_000_000_000, RATE_SCALE), 2_000_000_000);
    assert_eq!(to_base(2_000_000_000, RATE_SCALE), 2_000_000_000);
}

#[test]
fn conversions_truncate_toward_zero() {
    // 10^9 / 3*10^9 rounds down to zero derivative units
    assert_eq!(to_derivative(1, 3_000_000_000), 0);
    // 1 unit at rate 1.5 is worth 1 base unit, the half is truncated
    assert_eq!(to_base(1, 1_500_000_000), 1);
    assert_eq!(to_derivative(1_000_000_001, 1_500_000_000), 666_666_667);
    assert_eq!(to_base(666_666_667, 1_500_000_000), 1_000_000_000);
}

#[test]
fn ledger_tracks_principal_and_rewards() {
    let mut ledger = PrincipalLedger::new();
    ledger.increase(500);
    ledger.increase(300);
    ledger.decrease(200);
    assert_eq!(ledger.total_staked, 600);
    ledger.accrue(70);
    ledger.accrue(30);
    assert_eq!(ledger.total_rewards, 100);
    let settled = ledger.settle();
    assert_eq!(settled, 100);
    assert_eq!(ledger.total_rewards, 0);
    assert_eq!(ledger.total_staked, 600);
}

#[test]
fn reserve_fails_without_mutating() {
    let mut reserve = LiquidityReserve::new();
    reserve.deposit(100);
    assert!(!reserve.reserve(101));
    assert_eq!(reserve.balance, 100);
    assert!(reserve.reserve(40));
    assert_eq!(reserve.balance, 60);
}

use savings_account::borrow::BorrowModule;
use savings_account::staking_rewards::StakingRewardsModule;

const BP: u128 = 1_000_000_000;
const SECONDS_IN_YEAR: u128 = 31_556_926;

fn pool() -> StakingRewardsModule {
    StakingRewardsModule::new(10, 20)
}

#[test]
fn borrow_rate_regression_vector() {
    // r_base 0, slope1 0.1, slope2 1.0, optimal 0.8, current 0.4 -> 0.05
    let r = pool().compute_borrow_rate(0, 100_000_000, BP, 800_000_000, 400_000_000);
    assert_eq!(r, 50_000_000);
}

#[test]
fn borrow_rate_continuous_at_kink() {
    let r_base = 10_000_000;
    let r_slope1 = 100_000_000;
    // at u_current == u_optimal the steep branch starts exactly at r_base + r_slope1
    let at_kink =
        pool().compute_borrow_rate(r_base, r_slope1, BP, 800_000_000, 800_000_000);
    assert_eq!(at_kink, r_base + r_slope1);
    // just below the kink the flat branch approaches the same value
    let below =
        pool().compute_borrow_rate(r_base, r_slope1, BP, 800_000_000, 799_999_999);
    assert_eq!(below, r_base + 99_999_999);
}

#[test]
fn borrow_rate_nondecreasing_below_optimal() {
    let us = [0u128, 100_000_000, 200_000_000, 400_000_000, 700_000_000, 799_999_999];
    let mut last = 0u128;
    for &u in us.iter() {
        let r = pool().compute_borrow_rate(5_000_000, 100_000_000, BP, 800_000_000, u);
        assert!(r >= last);
        last = r;
    }
}

#[test]
fn borrow_rate_steep_branch() {
    // u 0.9, optimal 0.8: r = base + slope1 + (0.1 * slope2 / 0.2)
    let r = pool().compute_borrow_rate(0, 100_000_000, BP, 800_000_000, 900_000_000);
    assert_eq!(r, 100_000_000 + 500_000_000);
}

#[test]
fn capital_utilisation_of_zero_borrowed() {
    assert_eq!(pool().compute_capital_utilisation(0, 123_456_789), 0);
    assert_eq!(pool().compute_capital_utilisation(0, 1), 0);
}

#[test]
fn capital_utilisation_at_full() {
    assert_eq!(pool().compute_capital_utilisation(777, 777), BP);
    assert_eq!(
        pool().compute_capital_utilisation(5_000_000_000, 5_000_000_000),
        BP
    );
}

#[test]
fn capital_utilisation_truncates() {
    // 1/3 of the pool lent out: floor(1 * BP / 3)
    assert_eq!(pool().compute_capital_utilisation(1, 3), 333_333_333);
}

#[test]
fn debt_of_zero_elapsed_is_zero() {
    assert_eq!(pool().compute_debt(1_000_000_000_000, 0, 50_000_000), 0);
    assert_eq!(pool().compute_debt(1_000_000_000_000, 0, 999_999_999), 0);
}

#[test]
fn withdrawal_of_zero_elapsed_is_principal() {
    let principal = 1_000_000_000_000u128;
    assert_eq!(
        pool().compute_withdrawal_amount(principal, 0, 50_000_000),
        principal
    );
}

#[test]
fn debt_one_year_exact() {
    // one year at 5%: interest only, principal excluded
    let principal = 1_000_000_000_000u128;
    let debt = pool().compute_debt(principal, SECONDS_IN_YEAR, 50_000_000);
    assert_eq!(debt, 50_000_000_000);
}

#[test]
fn withdrawal_one_year_exact() {
    // one year at 2%: principal plus interest
    let principal = 1_000_000_000_000u128;
    let total = pool().compute_withdrawal_amount(principal, SECONDS_IN_YEAR, 20_000_000);
    assert_eq!(total, 1_020_000_000_000);
}

#[test]
fn deposit_rate_exact() {
    // u 0.4, borrow rate 0.05, reserve factor 0.1:
    // 0.4 * 0.4 * 0.05 * 0.9 = 0.0072
    let r = pool().compute_deposit_rate(400_000_000, 50_000_000, 100_000_000);
    assert_eq!(r, 7_200_000);
}

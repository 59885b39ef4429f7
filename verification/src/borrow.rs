//! Fixed-point interest-rate and utilization model.
//!
//! All quantities are non-negative integers scaled by `BASE_PRECISION`
//! (`10^9` integer units represent the real value `1.0`). Every division
//! truncates toward zero, and the order of operations is part of the
//! definition: intermediate truncation affects the result, so each spec
//! function spells the computation out step by step.

use vstd::prelude::*;

verus! {

use vstd::arithmetic::div_mod::lemma_basic_div;
use vstd::arithmetic::div_mod::lemma_div_is_ordered;
use vstd::arithmetic::div_mod::lemma_div_multiples_vanish;
use vstd::arithmetic::mul::lemma_mul_inequality;
use vstd::arithmetic::mul::lemma_mul_is_commutative;

/// Fixed-point scale factor: this many integer units stand for `1.0`.
pub const BASE_PRECISION: u128 = 1000000000;

/// Length of a year in seconds, used to pro-rate yearly rates.
pub const SECONDS_IN_YEAR: u128 = 31556926;

/// Share of the pool currently lent out: `borrowed * BASE_PRECISION / reserves`,
/// truncated. Undefined for `reserves == 0`; callers must guard.
pub open spec fn spec_capital_utilisation(borrowed_amount: int, total_pool_reserves: int) -> int {
    borrowed_amount * (BASE_PRECISION as int) / total_pool_reserves
}

/// The kinked utilization curve: a low slope below the optimal utilization
/// target and a steep one above it.
pub open spec fn spec_borrow_rate(
    r_base: int,
    r_slope1: int,
    r_slope2: int,
    u_optimal: int,
    u_current: int,
) -> int {
    if u_current < u_optimal {
        r_base + u_current * r_slope1 / u_optimal
    } else {
        r_base + r_slope1 + (u_current - u_optimal) * r_slope2 / ((BASE_PRECISION as int) - u_optimal)
    }
}

/// Depositor rate: utilization is applied twice (once to weight borrower
/// interest by pool share, once by construction of the formula), then the
/// reserve factor is taken out.
pub open spec fn spec_deposit_rate(u_current: int, borrow_rate: int, reserve_factor: int) -> int {
    u_current * u_current * borrow_rate * ((BASE_PRECISION as int) - reserve_factor)
        / ((BASE_PRECISION as int) * (BASE_PRECISION as int) * (BASE_PRECISION as int))
}

/// Interest owed on `amount` after `time_diff` seconds at `borrow_rate`.
/// Returns the interest only; the caller adds the principal separately.
pub open spec fn spec_debt(amount: int, time_diff: int, borrow_rate: int) -> int {
    let time_unit_percentage: int = time_diff * (BASE_PRECISION as int) / (SECONDS_IN_YEAR as int);
    let debt_percentage: int = time_unit_percentage * borrow_rate / (BASE_PRECISION as int);
    debt_percentage * amount / (BASE_PRECISION as int)
}

/// Principal plus interest owed to a depositor after `time_diff` seconds at
/// `deposit_rate`. Unlike `spec_debt`, the principal is included.
pub open spec fn spec_withdrawal_amount(amount: int, time_diff: int, deposit_rate: int) -> int {
    let percentage: int = time_diff * deposit_rate / (SECONDS_IN_YEAR as int);
    amount + percentage * amount / (BASE_PRECISION as int)
}

/// The interest-rate math of the pool, as a module trait the pool type
/// implements. All methods are pure and deterministic with verified default
/// bodies; the truncation points match the spec functions exactly.
pub trait BorrowModule: Sized {
    /// Borrow rate for the current utilization, on the kinked curve.
    ///
    /// Below the optimal utilization the divisor is `u_optimal` (nonzero
    /// there since `u_current < u_optimal`); at or above it the divisor is
    /// `BASE_PRECISION - u_optimal`, so `u_optimal` must then lie strictly
    /// below `BASE_PRECISION`.
    fn compute_borrow_rate(
        &self,
        r_base: u128,
        r_slope1: u128,
        r_slope2: u128,
        u_optimal: u128,
        u_current: u128,
    ) -> (r: u128)
        requires
            u_current < u_optimal ==> {
                &&& u_current * r_slope1 <= u128::MAX
                &&& r_base + u_current * r_slope1 / (u_optimal as int) <= u128::MAX
            },
            u_current >= u_optimal ==> {
                &&& u_optimal < BASE_PRECISION
                &&& (u_current - u_optimal) * r_slope2 <= u128::MAX
                &&& r_base + r_slope1 + (u_current - u_optimal) * r_slope2
                    / (BASE_PRECISION - u_optimal) <= u128::MAX
            },
        ensures
            r == spec_borrow_rate(
                r_base as int,
                r_slope1 as int,
                r_slope2 as int,
                u_optimal as int,
                u_current as int,
            ),
    {
        if u_current < u_optimal {
            let utilisation_ratio: u128 = u_current * r_slope1 / u_optimal;
            r_base + utilisation_ratio
        } else {
            let denominator: u128 = BASE_PRECISION - u_optimal;
            let numerator: u128 = (u_current - u_optimal) * r_slope2;
            (r_base + r_slope1) + numerator / denominator
        }
    }

    /// Deposit rate from the current utilization, the borrow rate, and the
    /// reserve factor (which may not exceed `BASE_PRECISION`).
    fn compute_deposit_rate(
        &self,
        u_current: u128,
        borrow_rate: u128,
        reserve_factor: u128,
    ) -> (r: u128)
        requires
            reserve_factor <= BASE_PRECISION,
            u_current * borrow_rate <= u128::MAX,
            u_current * u_current * borrow_rate <= u128::MAX,
            u_current * u_current * borrow_rate * (BASE_PRECISION - reserve_factor) <= u128::MAX,
        ensures
            r == spec_deposit_rate(u_current as int, borrow_rate as int, reserve_factor as int),
    {
        let bp: u128 = BASE_PRECISION;
        let loan_ratio: u128 = u_current * borrow_rate;
        assert(u_current * (u_current * borrow_rate)
            == u_current * u_current * borrow_rate) by (nonlinear_arith);
        let weighted: u128 = u_current * loan_ratio;
        assert(u_current * u_current * borrow_rate * ((bp - reserve_factor) as int)
            == (u_current * u_current * borrow_rate) * ((bp - reserve_factor) as int));
        let deposit_rate: u128 = weighted * (bp - reserve_factor);
        deposit_rate / (bp * bp * bp)
    }

    /// Utilization ratio of the pool. The caller must guard against an empty
    /// pool: `total_pool_reserves` may not be zero.
    fn compute_capital_utilisation(
        &self,
        borrowed_amount: u128,
        total_pool_reserves: u128,
    ) -> (r: u128)
        requires
            total_pool_reserves > 0,
            borrowed_amount * BASE_PRECISION <= u128::MAX,
        ensures
            r == spec_capital_utilisation(borrowed_amount as int, total_pool_reserves as int),
    {
        let bp: u128 = BASE_PRECISION;
        borrowed_amount * bp / total_pool_reserves
    }

    /// Interest accrued on a loan of `amount` over `time_diff` seconds.
    fn compute_debt(&self, amount: u128, time_diff: u128, borrow_rate: u128) -> (r: u128)
        requires
            time_diff * BASE_PRECISION <= u128::MAX,
            time_diff * BASE_PRECISION / (SECONDS_IN_YEAR as int) * borrow_rate <= u128::MAX,
            time_diff * BASE_PRECISION / (SECONDS_IN_YEAR as int) * borrow_rate
                / (BASE_PRECISION as int) * amount <= u128::MAX,
        ensures
            r == spec_debt(amount as int, time_diff as int, borrow_rate as int),
    {
        let bp: u128 = BASE_PRECISION;
        let secs_year: u128 = SECONDS_IN_YEAR;
        let time_unit_percentage: u128 = time_diff * bp / secs_year;
        let debt_percentage: u128 = time_unit_percentage * borrow_rate / bp;
        debt_percentage * amount / bp
    }

    /// Principal plus accrued interest owed to a depositor of `amount` over
    /// `time_diff` seconds.
    fn compute_withdrawal_amount(&self, amount: u128, time_diff: u128, deposit_rate: u128) -> (r: u128)
        requires
            time_diff * deposit_rate <= u128::MAX,
            time_diff * deposit_rate / (SECONDS_IN_YEAR as int) * amount <= u128::MAX,
            amount + time_diff * deposit_rate / (SECONDS_IN_YEAR as int) * amount
                / (BASE_PRECISION as int) <= u128::MAX,
        ensures
            r == spec_withdrawal_amount(amount as int, time_diff as int, deposit_rate as int),
    {
        let bp: u128 = BASE_PRECISION;
        let secs_year: u128 = SECONDS_IN_YEAR;
        let percentage: u128 = time_diff * deposit_rate / secs_year;
        amount + percentage * amount / bp
    }
}

/// The pool contract computes its prices with this module's math.
impl BorrowModule for crate::staking_rewards::StakingRewardsModule {

}

/// Below the optimal utilization, the borrow rate never decreases as the
/// utilization grows.
pub proof fn lemma_borrow_rate_monotone(
    r_base: int,
    r_slope1: int,
    r_slope2: int,
    u_optimal: int,
    u1: int,
    u2: int,
)
    requires
        0 <= r_slope1,
        0 <= u1 <= u2 < u_optimal,
    ensures
        spec_borrow_rate(r_base, r_slope1, r_slope2, u_optimal, u1)
            <= spec_borrow_rate(r_base, r_slope1, r_slope2, u_optimal, u2),
{
    lemma_mul_inequality(u1, u2, r_slope1);
    lemma_div_is_ordered(u1 * r_slope1, u2 * r_slope1, u_optimal);
}

/// At the optimal utilization the two branches of the curve agree: the
/// below-optimal formula evaluated there yields exactly
/// `r_base + r_slope1`, the value of the at-or-above branch.
pub proof fn lemma_borrow_rate_continuous_at_kink(
    r_base: int,
    r_slope1: int,
    r_slope2: int,
    u_optimal: int,
)
    requires
        0 < u_optimal < BASE_PRECISION,
    ensures
        r_base + u_optimal * r_slope1 / u_optimal == r_base + r_slope1,
        spec_borrow_rate(r_base, r_slope1, r_slope2, u_optimal, u_optimal) == r_base + r_slope1,
{
    lemma_mul_is_commutative(u_optimal, r_slope1);
    lemma_div_multiples_vanish(r_slope1, u_optimal);
    assert((u_optimal - u_optimal) * r_slope2 == 0) by (nonlinear_arith);
    lemma_basic_div(0, (BASE_PRECISION as int) - u_optimal);
}

/// An empty loan book has zero utilization, whatever the (positive) reserves.
pub proof fn lemma_capital_utilisation_of_zero(total_pool_reserves: int)
    requires
        0 < total_pool_reserves,
    ensures
        spec_capital_utilisation(0, total_pool_reserves) == 0,
{
    lemma_basic_div(0, total_pool_reserves);
}

/// A fully lent-out pool sits at utilization `BASE_PRECISION`, i.e. `1.0`.
pub proof fn lemma_capital_utilisation_at_full(total_pool_reserves: int)
    requires
        0 < total_pool_reserves,
    ensures
        spec_capital_utilisation(total_pool_reserves, total_pool_reserves)
            == BASE_PRECISION as int,
{
    lemma_div_multiples_vanish(BASE_PRECISION as int, total_pool_reserves);
}

/// No time elapsed means no interest owed, whatever the rate.
pub proof fn lemma_debt_of_zero_elapsed(amount: int, borrow_rate: int)
    ensures
        spec_debt(amount, 0, borrow_rate) == 0,
{
    lemma_basic_div(0, SECONDS_IN_YEAR as int);
    lemma_basic_div(0, BASE_PRECISION as int);
    assert(0 * (BASE_PRECISION as int) == 0);
    assert(0 * (BASE_PRECISION as int) / (SECONDS_IN_YEAR as int) == 0);
    assert(0 * borrow_rate == 0);
    assert(0 * borrow_rate / (BASE_PRECISION as int) == 0);
    assert(0 * amount == 0);
    assert(0 * amount / (BASE_PRECISION as int) == 0);
}

/// No time elapsed means a depositor withdraws exactly the principal.
pub proof fn lemma_withdrawal_of_zero_elapsed(amount: int, deposit_rate: int)
    ensures
        spec_withdrawal_amount(amount, 0, deposit_rate) == amount,
{
    lemma_basic_div(0, SECONDS_IN_YEAR as int);
    lemma_basic_div(0, BASE_PRECISION as int);
    assert(0 * deposit_rate == 0);
    assert(0 * deposit_rate / (SECONDS_IN_YEAR as int) == 0);
    assert(0 * amount == 0);
    assert(0 * amount / (BASE_PRECISION as int) == 0);
}

} // verus!

//! Accounting core of a collateralized lending pool.
//!
//! Lenders supply a stablecoin and earn interest; borrowers pledge a
//! staking-derivative token as collateral. The pledged collateral keeps
//! earning staking rewards, which are periodically claimed from a delegation
//! service and converted into the stablecoin reserve through a swap venue.
//!
//! The crate holds the verified logic of that system: the fixed-point
//! interest-rate model, the doubly-linked staking-position ledger, the
//! epoch-guarded reward-harvest decisions, and a mock delegation service for
//! exercising the workflow. All remote work (storage, transfers, the actual
//! asynchronous calls) is performed by the host around this library; the
//! functions here take the host-supplied values (epochs, balances, call
//! replies) as plain arguments and return the actions to perform.

pub mod borrow;
pub mod delegation_mock;
pub mod errors;
pub mod price_aggregator;
pub mod staking_rewards;
pub mod tokens;

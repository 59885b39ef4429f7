//! The errors the pool's endpoints report.
//!
//! Every error is raised synchronously, before any state change: an
//! operation that fails leaves the module exactly as it found it.

use vstd::prelude::*;

verus! {

/// Why an endpoint refused to act.
#[derive(Clone, Copy, Debug, PartialEq, Eq, Structural)]
pub enum ScError {
    /// The rewards-claim checkpoint already sits at the current epoch.
    AlreadyClaimedThisEpoch,
    /// The position ledger is empty, so there is nothing to claim for.
    NoPositionsAvailable,
    /// Rewards must be claimed in the current epoch before converting.
    MustClaimFirst,
    /// The conversion checkpoint already sits at the current epoch.
    AlreadyConvertedThisEpoch,
    /// The confirmation entry point was called by anyone but the swap venue.
    UnauthorizedCaller,
    /// The given price aggregator address is not a smart contract.
    InvalidPriceAggregatorAddress,
    /// The given liquid staking token identifier is not well-formed.
    InvalidLiquidStakingTokenId,
    /// A stake of zero was offered.
    MustPayMoreThanZero,
    /// A transferred token does not belong to the expected token class.
    InvalidToken,
}

impl ScError {
    /// The error message the host surfaces to a caller.
    pub fn message(&self) -> (r: &'static str)
    {
        match self {
            ScError::AlreadyClaimedThisEpoch => "Already claimed this epoch",
            ScError::NoPositionsAvailable => "No staking positions available",
            ScError::MustClaimFirst => "Must claim rewards for this epoch first",
            ScError::AlreadyConvertedThisEpoch => "Already converted to stablecoins this epoch",
            ScError::UnauthorizedCaller => "Only the DEX Swap SC may call this function",
            ScError::InvalidPriceAggregatorAddress => "Invalid price aggregator address",
            ScError::InvalidLiquidStakingTokenId => "Invalid liquid staking token ID",
            ScError::MustPayMoreThanZero => "Must pay more than 0 EGLD",
            ScError::InvalidToken => "Invalid token",
        }
    }
}

} // verus!

//! The price-oracle helper: a thin convenience around the remote price
//! aggregator.
//!
//! The aggregator itself is a remote contract; the host issues the actual
//! feed query and hands the optional reply back. This module holds the
//! configured aggregator address and the repackaging of the feed's
//! five-part reply.

use vstd::prelude::*;

verus! {

use crate::errors::ScError;

/// Call shape of the remote price aggregator: the latest feed for a token
/// pair, if it has one, as the five-part reply `(round id, from ticker, to
/// ticker, price, decimals)`. The host routes the call; this module only
/// consumes the reply (see `PriceAggregatorModule::get_price_for_pair`).
pub trait PriceAggregator {
    /// Ask the aggregator for the pair's latest feed.
    fn latest_price_feed_optional(&self, from: Vec<u8>, to: Vec<u8>) -> Option<
        (u32, Vec<u8>, Vec<u8>, u128, u8),
    >;
}

/// A price feed reading, repackaged from the aggregator's five-part reply.
pub struct AggregatorResult {
    /// The aggregation round the price stems from.
    pub round_id: u32,
    /// Ticker of the token the price is quoted for.
    pub from_token_name: Vec<u8>,
    /// Ticker of the token the price is quoted in.
    pub to_token_name: Vec<u8>,
    /// The price itself, scaled by `10^decimals`.
    pub price: u128,
    /// Number of decimals the price is scaled by.
    pub decimals: u8,
}

impl AggregatorResult {
    /// Repackages the feed's five-part reply into a named record.
    pub fn from(multi_result: (u32, Vec<u8>, Vec<u8>, u128, u8)) -> (r: AggregatorResult)
        ensures
            r.round_id == multi_result.0,
            r.from_token_name@ == multi_result.1@,
            r.to_token_name@ == multi_result.2@,
            r.price == multi_result.3,
            r.decimals == multi_result.4,
    {
        let (round_id, from_token_name, to_token_name, price, decimals) = multi_result;
        AggregatorResult { round_id, from_token_name, to_token_name, price, decimals }
    }
}

/// Holds the configured price aggregator address; address `0` means none is
/// configured yet.
pub struct PriceAggregatorModule {
    /// Address of the aggregator contract, `0` while unset.
    pub price_aggregator_address: u64,
}

impl PriceAggregatorModule {
    /// A fresh module with no aggregator configured.
    pub fn new() -> (r: PriceAggregatorModule)
        ensures
            r.price_aggregator_address == 0,
    {
        PriceAggregatorModule { price_aggregator_address: 0 }
    }

    /// Owner-only endpoint: stores the aggregator address. The host first
    /// checks that the address names a smart contract and passes the
    /// verdict in; a plain account is refused.
    pub fn set_price_aggregator_address(
        &mut self,
        address: u64,
        address_is_smart_contract: bool,
    ) -> (r: Result<(), ScError>)
        ensures
            !address_is_smart_contract ==> r == Result::<(), ScError>::Err(
                ScError::InvalidPriceAggregatorAddress,
            ) && *final(self) == *old(self),
            address_is_smart_contract ==> r == Result::<(), ScError>::Ok(())
                && final(self).price_aggregator_address == address,
    {
        if !address_is_smart_contract {
            return Err(ScError::InvalidPriceAggregatorAddress);
        }
        self.price_aggregator_address = address;
        Ok(())
    }

    /// The price for a token pair. While no aggregator is configured the
    /// answer is `None` and no query is even issued; otherwise the host asks
    /// the configured aggregator for the pair's latest feed and the price is
    /// lifted out of its optional reply.
    pub fn get_price_for_pair(&self, reply: Option<AggregatorResult>) -> (r: Option<u128>)
        ensures
            self.price_aggregator_address == 0 ==> r is None,
            self.price_aggregator_address != 0 ==> r == (match reply {
                Some(feed) => Some(feed.price),
                None => None::<u128>,
            }),
    {
        if self.price_aggregator_address == 0 {
            return None;
        }
        match reply {
            Some(feed) => Some(feed.price),
            None => None,
        }
    }
}

} // verus!

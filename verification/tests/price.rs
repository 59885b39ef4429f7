use savings_account::errors::ScError;
use savings_account::price_aggregator::AggregatorResult;
use savings_account::price_aggregator::PriceAggregatorModule;

fn feed(price: u128) -> AggregatorResult {
    AggregatorResult::from((7, b"EGLD".to_vec(), b"USDC".to_vec(), price, 9))
}

#[test]
fn aggregator_result_from_repackages_the_reply() {
    let r = AggregatorResult::from((42, b"EGLD".to_vec(), b"USDC".to_vec(), 12_345, 6));
    assert_eq!(r.round_id, 42);
    assert_eq!(r.from_token_name, b"EGLD".to_vec());
    assert_eq!(r.to_token_name, b"USDC".to_vec());
    assert_eq!(r.price, 12_345);
    assert_eq!(r.decimals, 6);
}

#[test]
fn set_address_rejects_a_plain_account() {
    let mut m = PriceAggregatorModule::new();
    let r = m.set_price_aggregator_address(55, false);
    assert_eq!(r.unwrap_err(), ScError::InvalidPriceAggregatorAddress);
    assert_eq!(m.price_aggregator_address, 0);
}

#[test]
fn set_address_stores_a_contract_address() {
    let mut m = PriceAggregatorModule::new();
    m.set_price_aggregator_address(55, true).unwrap();
    assert_eq!(m.price_aggregator_address, 55);
}

#[test]
fn price_is_none_while_unconfigured() {
    let m = PriceAggregatorModule::new();
    // no aggregator: no price, whatever reply might be around
    assert_eq!(m.get_price_for_pair(Some(feed(999))), None);
    assert_eq!(m.get_price_for_pair(None), None);
}

#[test]
fn price_is_lifted_from_the_feed_reply() {
    let mut m = PriceAggregatorModule::new();
    m.set_price_aggregator_address(55, true).unwrap();
    assert_eq!(m.get_price_for_pair(Some(feed(31_415))), Some(31_415));
    assert_eq!(m.get_price_for_pair(None), None);
}

use savings_account::delegation_mock::DelegationMock;
use savings_account::errors::ScError;
use savings_account::staking_rewards::StakingRewardsModule;
use savings_account::tokens::EsdtTokenPayment;

const DELEGATION_ADDRESS: u64 = 10;
const DEX_ADDRESS: u64 = 20;

fn token_id() -> Vec<u8> {
    b"LSTOKEN-1a2b3c".to_vec()
}

fn fresh_tokens(first_nonce: u64, amounts: &[u128]) -> Vec<EsdtTokenPayment> {
    amounts
        .iter()
        .enumerate()
        .map(|(i, &amount)| EsdtTokenPayment {
            token_name: token_id(),
            token_nonce: first_nonce + i as u64,
            amount,
        })
        .collect()
}

#[test]
fn claim_twice_in_same_epoch_fails_second_time() {
    let mut m = StakingRewardsModule::new(DELEGATION_ADDRESS, DEX_ADDRESS);
    m.add_staking_position(1000);
    m.add_staking_position(2000);

    let (pos_ids, nonces) = m.claim_staking_rewards(1).unwrap();
    assert_eq!(pos_ids, vec![1, 2]);
    assert_eq!(nonces, vec![1000, 2000]);

    // the success callback fires synchronously in this harness
    let reply = fresh_tokens(5000, &[111, 222]);
    m.claim_staking_rewards_callback(true, 1, &pos_ids, &reply);
    assert_eq!(m.last_staking_rewards_claim_epoch, 1);
    assert_eq!(
        m.traverse().iter().map(|p| p.liquid_staking_nonce).collect::<Vec<u64>>(),
        vec![5000, 5001]
    );

    // second claim in the same epoch is refused and mutates nothing
    let again = m.claim_staking_rewards(1);
    assert_eq!(again.unwrap_err(), ScError::AlreadyClaimedThisEpoch);
    assert_eq!(m.last_staking_rewards_claim_epoch, 1);
    assert_eq!(
        m.traverse().iter().map(|p| p.liquid_staking_nonce).collect::<Vec<u64>>(),
        vec![5000, 5001]
    );
}

#[test]
fn claim_with_no_positions_fails() {
    let m = StakingRewardsModule::new(DELEGATION_ADDRESS, DEX_ADDRESS);
    let r = m.claim_staking_rewards(1);
    assert_eq!(r.unwrap_err(), ScError::NoPositionsAvailable);
}

#[test]
fn claim_callback_ignores_mismatched_reply() {
    let mut m = StakingRewardsModule::new(DELEGATION_ADDRESS, DEX_ADDRESS);
    m.add_staking_position(1000);
    m.add_staking_position(2000);
    let (pos_ids, _) = m.claim_staking_rewards(1).unwrap();

    // a malformed reply (one token for two positions) must not update anything
    let short_reply = fresh_tokens(5000, &[111]);
    m.claim_staking_rewards_callback(true, 1, &pos_ids, &short_reply);
    assert_eq!(m.last_staking_rewards_claim_epoch, 0);
    assert_eq!(
        m.traverse().iter().map(|p| p.liquid_staking_nonce).collect::<Vec<u64>>(),
        vec![1000, 2000]
    );
}

#[test]
fn claim_callback_on_failure_leaves_state_for_retry() {
    let mut m = StakingRewardsModule::new(DELEGATION_ADDRESS, DEX_ADDRESS);
    m.add_staking_position(1000);
    let (pos_ids, _) = m.claim_staking_rewards(3).unwrap();
    let reply = fresh_tokens(5000, &[111]);
    m.claim_staking_rewards_callback(false, 3, &pos_ids, &reply);
    // checkpoint not advanced: the claim stays retryable
    assert_eq!(m.last_staking_rewards_claim_epoch, 0);
    assert!(m.claim_staking_rewards(3).is_ok());
}

#[test]
fn convert_before_claim_fails() {
    let mut m = StakingRewardsModule::new(DELEGATION_ADDRESS, DEX_ADDRESS);
    m.add_staking_position(1000);
    let r = m.convert_staking_token_to_stablecoin(1, 500);
    assert_eq!(r.unwrap_err(), ScError::MustClaimFirst);
    assert_eq!(m.stablecoin_reserves, 0);
}

#[test]
fn convert_after_claim_swaps_full_balance_with_zero_floor() {
    let mut m = StakingRewardsModule::new(DELEGATION_ADDRESS, DEX_ADDRESS);
    m.add_staking_position(1000);
    let (pos_ids, _) = m.claim_staking_rewards(4).unwrap();
    m.claim_staking_rewards_callback(true, 4, &pos_ids, &fresh_tokens(9000, &[5]));

    let (amount_in, min_out) = m.convert_staking_token_to_stablecoin(4, 777).unwrap();
    assert_eq!(amount_in, 777);
    assert_eq!(min_out, 0);

    // the confirmation advances the checkpoint and grows the reserve
    let ok = m.convert_staking_token_to_stablecoin_callback(DEX_ADDRESS, 4, 640);
    assert!(ok.is_ok());
    assert_eq!(m.last_staking_token_convert_epoch, 4);
    assert_eq!(m.stablecoin_reserves, 640);

    // a second conversion in the same epoch is refused
    let again = m.convert_staking_token_to_stablecoin(4, 100);
    assert_eq!(again.unwrap_err(), ScError::AlreadyConvertedThisEpoch);
}

#[test]
fn convert_callback_rejects_unauthorized_caller() {
    let mut m = StakingRewardsModule::new(DELEGATION_ADDRESS, DEX_ADDRESS);
    let r = m.convert_staking_token_to_stablecoin_callback(DEX_ADDRESS + 1, 4, 640);
    assert_eq!(r.unwrap_err(), ScError::UnauthorizedCaller);
    assert_eq!(m.stablecoin_reserves, 0);
    assert_eq!(m.last_staking_token_convert_epoch, 0);
}

#[test]
fn full_harvest_round_through_the_delegation_mock() {
    // the host's loop: claim -> batched transfer to the delegation service
    // -> callback with the minted instances -> convert -> confirmation
    let mut pool = StakingRewardsModule::new(DELEGATION_ADDRESS, DEX_ADDRESS);
    let mut delegation = DelegationMock::init(token_id()).unwrap();

    // two borrowers stake and pledge the minted instances as collateral
    let nonce_a = delegation.stake(400).unwrap();
    let nonce_b = delegation.stake(600).unwrap();
    pool.add_staking_position(nonce_a);
    pool.add_staking_position(nonce_b);

    // phase one: claim
    let (pos_ids, nonces) = pool.claim_staking_rewards(7).unwrap();
    assert_eq!(nonces, vec![nonce_a, nonce_b]);
    let transfers: Vec<EsdtTokenPayment> = nonces
        .iter()
        .zip([400u128, 600u128].iter())
        .map(|(&token_nonce, &amount)| EsdtTokenPayment {
            token_name: token_id(),
            token_nonce,
            amount,
        })
        .collect();
    let (new_tokens, reward) = delegation.claim_rewards(&transfers).unwrap();
    assert_eq!(reward, 100); // a tenth of the total
    assert_eq!(new_tokens.len(), 2);
    assert_eq!(new_tokens[0].amount, 400);
    assert_eq!(new_tokens[1].amount, 600);
    pool.claim_staking_rewards_callback(true, 7, &pos_ids, &new_tokens);
    assert_eq!(pool.last_staking_rewards_claim_epoch, 7);
    assert_eq!(
        pool.traverse().iter().map(|p| p.liquid_staking_nonce).collect::<Vec<u64>>(),
        vec![new_tokens[0].token_nonce, new_tokens[1].token_nonce]
    );

    // phase two: convert the claimed reward into the stablecoin reserve
    let (amount_in, min_out) = pool.convert_staking_token_to_stablecoin(7, reward).unwrap();
    assert_eq!((amount_in, min_out), (100, 0));
    pool.convert_staking_token_to_stablecoin_callback(DEX_ADDRESS, 7, 99).unwrap();
    assert_eq!(pool.stablecoin_reserves, 99);
}

#[test]
fn error_messages_match_the_endpoints() {
    assert_eq!(ScError::AlreadyClaimedThisEpoch.message(), "Already claimed this epoch");
    assert_eq!(ScError::NoPositionsAvailable.message(), "No staking positions available");
    assert_eq!(ScError::MustClaimFirst.message(), "Must claim rewards for this epoch first");
    assert_eq!(
        ScError::AlreadyConvertedThisEpoch.message(),
        "Already converted to stablecoins this epoch"
    );
    assert_eq!(
        ScError::UnauthorizedCaller.message(),
        "Only the DEX Swap SC may call this function"
    );
}

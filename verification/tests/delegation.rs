use savings_account::delegation_mock::DelegationMock;
use savings_account::errors::ScError;
use savings_account::tokens::is_valid_esdt_identifier;
use savings_account::tokens::EsdtTokenPayment;

fn token_id() -> Vec<u8> {
    b"LSTOKEN-1a2b3c".to_vec()
}

#[test]
fn init_accepts_a_well_formed_token_id() {
    let m = DelegationMock::init(token_id()).unwrap();
    assert_eq!(m.liquid_staking_token_id, token_id());
    assert_eq!(m.last_sft_nonce, 0);
}

#[test]
fn init_rejects_a_malformed_token_id() {
    let r = DelegationMock::init(b"bad".to_vec());
    assert_eq!(r.unwrap_err(), ScError::InvalidLiquidStakingTokenId);
}

#[test]
fn token_identifier_validation() {
    assert!(is_valid_esdt_identifier(&b"LSTOKEN-1a2b3c".to_vec()));
    assert!(is_valid_esdt_identifier(&b"EGLD000-123456".to_vec()));
    assert!(is_valid_esdt_identifier(&b"ABC-123456".to_vec())); // shortest ticker
    assert!(is_valid_esdt_identifier(&b"ABCDEFGH12-abcdef".to_vec())); // longest ticker
    assert!(!is_valid_esdt_identifier(&b"AB-123456".to_vec())); // ticker too short
    assert!(!is_valid_esdt_identifier(&b"ABCDEFGHIJK-123456".to_vec())); // ticker too long
    assert!(!is_valid_esdt_identifier(&b"LSTOKEN123456".to_vec())); // no dash
    assert!(!is_valid_esdt_identifier(&b"lstoken-123456".to_vec())); // lowercase ticker
    assert!(!is_valid_esdt_identifier(&b"LSTOKEN-123ABC".to_vec())); // uppercase suffix
    assert!(!is_valid_esdt_identifier(&b"LSTOKEN-12345".to_vec())); // suffix too short
    assert!(!is_valid_esdt_identifier(&b"LSTOKEN-1234567".to_vec())); // suffix too long
    assert!(!is_valid_esdt_identifier(&Vec::new()));
}

#[test]
fn stake_rejects_zero_payment() {
    let mut m = DelegationMock::init(token_id()).unwrap();
    assert_eq!(m.stake(0).unwrap_err(), ScError::MustPayMoreThanZero);
    assert_eq!(m.last_sft_nonce, 0);
}

#[test]
fn stake_mints_fresh_instances() {
    let mut m = DelegationMock::init(token_id()).unwrap();
    assert_eq!(m.stake(100).unwrap(), 1);
    assert_eq!(m.stake(250).unwrap(), 2);
    assert_eq!(m.last_sft_nonce, 2);
}

#[test]
fn claim_rewards_reissues_instances_and_pays_a_tenth() {
    let mut m = DelegationMock::init(token_id()).unwrap();
    m.stake(400).unwrap();
    m.stake(600).unwrap();
    let transfers = vec![
        EsdtTokenPayment { token_name: token_id(), token_nonce: 1, amount: 400 },
        EsdtTokenPayment { token_name: token_id(), token_nonce: 2, amount: 600 },
    ];
    let (new_tokens, reward) = m.claim_rewards(&transfers).unwrap();
    assert_eq!(reward, 100);
    assert_eq!(new_tokens.len(), 2);
    // old instances burnt, fresh nonces minted in order, amounts preserved
    assert_eq!(new_tokens[0].token_nonce, 3);
    assert_eq!(new_tokens[1].token_nonce, 4);
    assert_eq!(new_tokens[0].amount, 400);
    assert_eq!(new_tokens[1].amount, 600);
    assert_eq!(new_tokens[0].token_name, token_id());
    assert_eq!(m.last_sft_nonce, 4);
}

#[test]
fn claim_rewards_truncates_the_reward() {
    let mut m = DelegationMock::init(token_id()).unwrap();
    m.stake(15).unwrap();
    let transfers = vec![EsdtTokenPayment {
        token_name: token_id(),
        token_nonce: 1,
        amount: 15,
    }];
    let (_, reward) = m.claim_rewards(&transfers).unwrap();
    assert_eq!(reward, 1);
}

#[test]
fn claim_rewards_rejects_a_foreign_token() {
    let mut m = DelegationMock::init(token_id()).unwrap();
    m.stake(400).unwrap();
    let transfers = vec![
        EsdtTokenPayment { token_name: token_id(), token_nonce: 1, amount: 400 },
        EsdtTokenPayment { token_name: b"OTHER00-1a2b3c".to_vec(), token_nonce: 9, amount: 5 },
    ];
    let r = m.claim_rewards(&transfers);
    assert_eq!(r.unwrap_err(), ScError::InvalidToken);
    // all-or-nothing: nothing was minted
    assert_eq!(m.last_sft_nonce, 1);
}

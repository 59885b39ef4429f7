use savings_account::staking_rewards::StakingRewardsModule;

fn module_with_positions(nonces: &[u64]) -> StakingRewardsModule {
    let mut m = StakingRewardsModule::new(10, 20);
    for &n in nonces {
        m.add_staking_position(n);
    }
    m
}

#[test]
fn append_three_then_remove_middle() {
    // scenario: ids 1,2,3 with links 0-1-2-3-0; removing 2 leaves 0-1-3-0
    let mut m = module_with_positions(&[100, 200, 300]);
    assert_eq!(m.get_first_staking_position_id(), 1);
    let all = m.traverse();
    assert_eq!(all.len(), 3);
    assert_eq!(
        all.iter().map(|p| p.liquid_staking_nonce).collect::<Vec<u64>>(),
        vec![100, 200, 300]
    );
    assert_eq!(all[0].prev_pos_id, 0);
    assert_eq!(all[0].next_pos_id, 2);
    assert_eq!(all[1].prev_pos_id, 1);
    assert_eq!(all[1].next_pos_id, 3);
    assert_eq!(all[2].prev_pos_id, 2);
    assert_eq!(all[2].next_pos_id, 0);

    m.remove_staking_position(2);
    let rest = m.traverse();
    assert_eq!(rest.len(), 2);
    assert_eq!(rest[0].liquid_staking_nonce, 100);
    assert_eq!(rest[0].prev_pos_id, 0);
    assert_eq!(rest[0].next_pos_id, 3);
    assert_eq!(rest[1].liquid_staking_nonce, 300);
    assert_eq!(rest[1].prev_pos_id, 1);
    assert_eq!(rest[1].next_pos_id, 0);
    // 3 still exists, so the highest valid id is unchanged
    assert_eq!(m.last_valid_staking_position_id, 3);
}

#[test]
fn remove_tail_rewinds_last_valid_id() {
    let mut m = module_with_positions(&[100, 200, 300]);
    assert_eq!(m.last_valid_staking_position_id, 3);
    m.remove_staking_position(3);
    assert_eq!(m.last_valid_staking_position_id, 2);
    m.remove_staking_position(2);
    assert_eq!(m.last_valid_staking_position_id, 1);
    m.remove_staking_position(1);
    assert_eq!(m.last_valid_staking_position_id, 0);
    assert_eq!(m.traverse().len(), 0);
    assert!(m.get_first_staking_position().is_none());
}

#[test]
fn remove_interior_then_tail_rewinds_past_gap() {
    let mut m = module_with_positions(&[100, 200, 300]);
    m.remove_staking_position(2);
    m.remove_staking_position(3);
    // the tail's predecessor is 1 now that 2 is gone
    assert_eq!(m.last_valid_staking_position_id, 1);
    let all = m.traverse();
    assert_eq!(all.len(), 1);
    assert_eq!(all[0].liquid_staking_nonce, 100);
}

#[test]
fn append_is_idempotent() {
    let mut m = StakingRewardsModule::new(10, 20);
    let first = m.add_staking_position(4242);
    let second = m.add_staking_position(4242);
    assert_eq!(first, 1);
    assert_eq!(second, first);
    assert_eq!(m.traverse().len(), 1);
    assert_eq!(m.last_valid_staking_position_id, 1);
}

#[test]
fn freed_id_is_reused_after_tail_removal() {
    let mut m = module_with_positions(&[100, 200, 300]);
    m.remove_staking_position(3);
    let id = m.add_staking_position(999);
    assert_eq!(id, 3);
    assert_eq!(m.last_valid_staking_position_id, 3);
    assert_eq!(
        m.traverse().iter().map(|p| p.liquid_staking_nonce).collect::<Vec<u64>>(),
        vec![100, 200, 999]
    );
}

#[test]
fn remove_of_zero_or_unknown_id_is_noop() {
    let mut m = module_with_positions(&[100, 200]);
    m.remove_staking_position(0);
    m.remove_staking_position(77);
    m.remove_staking_position(2);
    m.remove_staking_position(2);
    assert_eq!(m.traverse().len(), 1);
    assert_eq!(m.last_valid_staking_position_id, 1);
}

#[test]
fn nonce_index_follows_the_ledger() {
    let mut m = module_with_positions(&[100, 200, 300]);
    assert_eq!(m.staking_position_nonce_to_id(100), 1);
    assert_eq!(m.staking_position_nonce_to_id(200), 2);
    assert_eq!(m.staking_position_nonce_to_id(300), 3);
    assert_eq!(m.staking_position_nonce_to_id(400), 0);
    m.remove_staking_position(2);
    // the index entry of a removed position is cleared with it
    assert_eq!(m.staking_position_nonce_to_id(200), 0);
}

#[test]
fn first_position_getters() {
    let mut m = StakingRewardsModule::new(10, 20);
    assert_eq!(m.get_first_staking_position_id(), 0);
    assert!(m.get_first_staking_position().is_none());
    m.add_staking_position(500);
    m.add_staking_position(600);
    assert_eq!(m.get_first_staking_position_id(), 1);
    let first = m.get_first_staking_position().unwrap();
    assert_eq!(first.liquid_staking_nonce, 500);
    m.remove_staking_position(1);
    assert_eq!(m.get_first_staking_position_id(), 2);
    let first = m.get_first_staking_position().unwrap();
    assert_eq!(first.liquid_staking_nonce, 600);
}

#[test]
fn traversal_round_trips_after_churn() {
    // after a mix of appends and removals the traversal visits exactly the
    // surviving positions once, and next/prev links point back at each node
    let mut m = module_with_positions(&[10, 20, 30, 40, 50]);
    m.remove_staking_position(2);
    m.remove_staking_position(5);
    m.add_staking_position(60);
    let all = m.traverse();
    let nonces: Vec<u64> = all.iter().map(|p| p.liquid_staking_nonce).collect();
    assert_eq!(nonces, vec![10, 30, 40, 60]);
    // round trip: follow next then prev from every interior node
    let mut id = m.get_first_staking_position_id();
    let mut prev = 0u64;
    for p in all.iter() {
        assert_eq!(p.prev_pos_id, prev);
        prev = id;
        id = p.next_pos_id;
    }
    assert_eq!(id, 0);
    assert_eq!(prev, m.last_valid_staking_position_id);
}

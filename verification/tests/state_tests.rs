use chaoschain::state::{ChainConfig, StateManager, StateStoreImpl};
use chaoschain::types::Block;

fn block(height: u64) -> Block {
    Block {
        parent_hash: [0u8; 32],
        height,
        transactions: Vec::new(),
        state_root: [0u8; 32],
        proposer_sig: [0u8; 64],
        drama_level: 0,
        producer_mood: String::from("calm"),
        producer_id: String::from("prod"),
    }
}

#[test]
fn test_basic_state_flow() {
    let config = ChainConfig::default();
    let store = StateStoreImpl::new(config);
    let state = store.get_state();
    assert_eq!(state.balances.len(), 0);
}

#[test]
fn producers_are_registered_once_and_listed_in_hex() {
    let mut store = StateStoreImpl::new(ChainConfig::default());
    let key = [0u8; 32];
    assert!(!store.is_valid_producer(&key));
    store.add_block_producer(&key);
    store.add_block_producer(&key);
    assert!(store.is_valid_producer(&key));
    let state = store.get_state();
    assert_eq!(state.producers.len(), 1);
    // 32 zero bytes encode as 64 zero digits.
    assert_eq!(state.producers[0], "0".repeat(64));

    let other = [0xabu8; 32];
    assert!(!store.is_valid_producer(&other));
    store.add_block_producer(&other);
    assert!(store.is_valid_producer(&other));
    assert_eq!(store.get_state().producers[1], "ab".repeat(32));
}

#[test]
fn rewards_are_credited_to_every_producer() {
    let config = ChainConfig { min_block_time: 1000, block_reward: Some(50) };
    let mut store = StateStoreImpl::new(config);
    let alice = [1u8; 32];
    let bob = [2u8; 32];
    store.add_block_producer(&alice);
    store.add_block_producer(&bob);

    store.apply_block(&block(0)).unwrap();
    assert_eq!(store.get_balance(&alice), 50);
    assert_eq!(store.get_balance(&bob), 50);

    store.apply_block(&block(1)).unwrap();
    assert_eq!(store.get_balance(&alice), 100);
    assert_eq!(store.get_balance(&bob), 100);

    // An account that never produced has no balance.
    assert_eq!(store.get_balance(&[9u8; 32]), 0);
}

#[test]
fn blocks_are_filed_by_height() {
    let mut store = StateStoreImpl::new(ChainConfig::default());
    store.apply_block(&block(2)).unwrap();
    store.apply_block(&block(0)).unwrap();
    store.apply_block(&block(1)).unwrap();

    assert_eq!(store.get_block_height(), 3);
    assert_eq!(store.get_latest_block().unwrap().height, 2);

    let latest = store.get_latest_blocks(2);
    assert_eq!(latest.len(), 2);
    assert_eq!(latest[0].height, 2);
    assert_eq!(latest[1].height, 1);
}

#[test]
fn empty_store_has_no_latest_block() {
    let store = StateStoreImpl::new(ChainConfig::default());
    assert!(store.get_latest_block().is_none());
    assert_eq!(store.get_block_height(), 0);
    assert!(store.get_latest_blocks(5).is_empty());
}

#[test]
fn manager_applies_rewards_without_storing_blocks() {
    let config = ChainConfig { min_block_time: 1000, block_reward: Some(7) };
    let mut manager = StateManager::new(config);
    assert!(manager.apply_block(&block(0)).is_ok());
    // No producers yet: nothing was credited.
    assert_eq!(manager.get_state().balances.len(), 0);
}

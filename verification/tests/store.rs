use l2_sequencer::api::{get_block, get_commitments, get_height, get_pool, schedule};
use l2_sequencer::config::consensus::validator_key;
use l2_sequencer::handlers::{
    handle_synchronization_response, is_missing_block, leaf_key, leaf_values,
};
use l2_sequencer::state::server::{
    BlockStore, InMemoryConsensus, MessagePool, SqLiteBlockStore, SqLiteMessagePool,
};
use l2_sequencer::types::{Block, ConsensusCommitment, Message};
use l2_sequencer::{get_current_time, timestamp_of_reading, to_timestamp};

fn block(height: u32, timestamp: u32) -> Block {
    Block {
        height,
        messages: vec![Message { data: vec![height as u8], timestamp }],
        signature: Some(vec![1]),
        commitments: None,
        timestamp,
    }
}

#[test]
fn new_store_is_empty() {
    let store = BlockStore::new();
    assert_eq!(store.current_block_height(), 0);
    assert!(!store.block_exists(0));
    assert_eq!(get_block(&store, 0), None);
    assert_eq!(get_height(&store), 0);
}

#[test]
fn genesis_is_inserted_once() {
    let mut store = BlockStore::new();
    store.trigger_genesis(42);
    assert_eq!(store.current_block_height(), 1);
    let genesis = store.get_block_by_height(0);
    assert_eq!(
        genesis,
        Block {
            height: 0,
            messages: vec![],
            signature: Some(vec![]),
            commitments: None,
            timestamp: 42,
        }
    );
    store.trigger_genesis(43);
    assert_eq!(store.current_block_height(), 1);
    assert_eq!(store.get_block_by_height(0).timestamp, 42);
    assert_eq!(store.last_block_timestamp(), 42);
}

#[test]
fn genesis_is_not_inserted_into_a_filled_store() {
    let mut store = BlockStore::new();
    assert!(store.insert_block(0, block(0, 5)));
    store.trigger_genesis(43);
    assert_eq!(store.current_block_height(), 1);
    assert_eq!(store.get_block_by_height(0), block(0, 5));
}

#[test]
fn blocks_are_inserted_only_at_the_current_height() {
    let mut store = BlockStore::new();
    store.trigger_genesis(1);
    assert!(!store.insert_block(0, block(0, 2)));
    assert!(!store.insert_block(2, block(2, 2)));
    assert!(!store.insert_block(1, block(2, 2)));
    assert!(!store.insert_block(2, block(1, 2)));
    assert_eq!(store.current_block_height(), 1);
    assert!(store.insert_block(1, block(1, 2)));
    assert!(!store.insert_block(1, block(1, 3)));
    assert!(store.insert_block(2, block(2, 3)));
    assert_eq!(store.current_block_height(), 3);
    assert_eq!(store.last_block_timestamp(), 3);
}

#[test]
fn stored_block_carries_its_height() {
    let mut store = BlockStore::new();
    store.trigger_genesis(1);
    for h in 1..20u32 {
        assert!(store.insert_block(h, block(h, h + 1)));
    }
    assert_eq!(store.current_block_height(), 20);
    for h in 0..20u32 {
        assert!(store.block_exists(h));
        assert_eq!(store.get_block_by_height(h).height, h);
        assert_eq!(get_block(&store, h).unwrap().height, h);
    }
    assert!(!store.block_exists(20));
    assert_eq!(get_block(&store, 20), None);
    assert_eq!(get_block(&store, u32::MAX), None);
    assert_eq!(get_block(&store, 7), Some(block(7, 8)));
}

#[test]
fn pool_keeps_insertion_order() {
    let mut pool = MessagePool::new();
    assert_eq!(pool.size(), 0);
    assert!(pool.get_all_messages().is_empty());
    let first = Message { data: vec![1, 2, 3, 4, 5], timestamp: 0 };
    let second = Message { data: vec![1, 2, 3, 4, 6], timestamp: 0 };
    assert_eq!(
        schedule(&mut pool, first.clone()),
        Some(
            "[Ok] Message is being sequenced: Message { data: [1, 2, 3, 4, 5], timestamp: 0 }"
                .to_string()
        )
    );
    assert!(pool.insert_message(second.clone()));
    assert!(pool.insert_message(first.clone()));
    assert_eq!(pool.size(), 3);
    assert_eq!(pool.get_all_messages(), vec![first.clone(), second.clone(), first.clone()]);
    assert_eq!(get_pool(&pool), vec![first.clone(), second.clone(), first.clone()]);
    assert_eq!(pool.get_message_by_index(0), first);
    assert_eq!(pool.get_message_by_index(1), second);
    pool.reinitialize();
    assert_eq!(pool.size(), 0);
    assert!(pool.get_all_messages().is_empty());
    assert!(pool.insert_message(second.clone()));
    assert_eq!(pool.get_all_messages(), vec![second]);
}

#[test]
fn accepted_commitments_are_listed() {
    let mut state = InMemoryConsensus::empty_with_default_validators("0");
    assert!(get_commitments(&state).is_empty());
    let commitment = ConsensusCommitment { validator: validator_key(1), random: 3 };
    state.commitments.push(commitment.clone());
    assert_eq!(get_commitments(&state), vec![commitment]);
}

#[test]
fn synchronization_catches_up_block_by_block() {
    let mut ahead = BlockStore::new();
    ahead.trigger_genesis(10);
    for h in 1..5u32 {
        assert!(ahead.insert_block(h, block(h, 10 + h)));
    }
    assert_eq!(ahead.current_block_height(), 5);

    let mut behind = BlockStore::new();
    behind.trigger_genesis(10);
    let mut state = InMemoryConsensus::empty_with_default_validators("3");
    loop {
        let next_height = behind.current_block_height();
        let fetched = match get_block(&ahead, next_height) {
            Some(block) => block,
            None => break,
        };
        state.round_winner = Some(validator_key(0));
        state.proposed = true;
        state.lowest_block = Some(vec![1]);
        assert!(handle_synchronization_response(&mut behind, &mut state, fetched, next_height));
        assert_eq!(state.round_winner, None);
        assert!(!state.proposed);
        assert_eq!(state.lowest_block, None);
    }
    assert_eq!(behind.current_block_height(), 5);
    for h in 0..5u32 {
        assert_eq!(behind.get_block_by_height(h), ahead.get_block_by_height(h));
    }
}

#[test]
fn synchronization_refuses_a_block_at_the_wrong_height() {
    let mut store = BlockStore::new();
    store.trigger_genesis(10);
    let mut state = InMemoryConsensus::empty_with_default_validators("3");
    state.round_winner = Some(validator_key(0));
    assert!(!handle_synchronization_response(&mut store, &mut state, block(2, 11), 1));
    assert!(!handle_synchronization_response(&mut store, &mut state, block(1, 11), 2));
    assert!(!handle_synchronization_response(&mut store, &mut state, block(0, 11), 0));
    assert_eq!(store.current_block_height(), 1);
    assert_eq!(state.round_winner, Some(validator_key(0)));
    assert!(handle_synchronization_response(&mut store, &mut state, block(1, 11), 1));
    assert_eq!(store.current_block_height(), 2);
}

#[test]
fn missing_block_reply_is_recognised() {
    assert!(is_missing_block("[Warning] Requested Block that does not exist"));
    assert!(!is_missing_block("[Warning] Requested Block that does not exist "));
    assert!(!is_missing_block(""));
    assert!(!is_missing_block("{\"height\":1}"));
    assert_eq!(
        l2_sequencer::api::missing_block_reply(),
        "[Warning] Requested Block that does not exist"
    );
}

#[test]
fn leaf_values_are_payloads_in_order() {
    let block = Block {
        height: 1,
        messages: vec![
            Message { data: vec![1, 2, 3, 4, 5], timestamp: 0 },
            Message { data: vec![], timestamp: 9 },
            Message { data: vec![7], timestamp: 1 },
        ],
        signature: None,
        commitments: None,
        timestamp: 0,
    };
    assert_eq!(leaf_values(&block), vec![vec![1, 2, 3, 4, 5], vec![], vec![7]]);
}

#[test]
fn leaf_key_is_bits_most_significant_first() {
    assert_eq!(leaf_key(&vec![]), Some(vec![]));
    assert_eq!(leaf_key(&vec![0x80]), Some(vec![1, 0, 0, 0, 0, 0, 0, 0]));
    assert_eq!(leaf_key(&vec![0x01]), Some(vec![0, 0, 0, 0, 0, 0, 0, 1]));
    assert_eq!(
        leaf_key(&vec![0xa5, 0x3c]),
        Some(vec![1, 0, 1, 0, 0, 1, 0, 1, 0, 0, 1, 1, 1, 1, 0, 0])
    );
    let hash: Vec<u8> = (0..32u8).map(|i| i.wrapping_mul(37)).collect();
    let expected: Vec<u8> = hash
        .iter()
        .flat_map(|&byte| (0..8).rev().map(move |i| (byte >> i) & 1))
        .collect();
    assert_eq!(leaf_key(&hash), Some(expected));
}

#[test]
fn timestamps_are_seconds_modulo_two_to_the_32() {
    assert_eq!(to_timestamp(0), 0);
    assert_eq!(to_timestamp(1_700_000_000), 1_700_000_000);
    assert_eq!(to_timestamp(u32::MAX as u64), u32::MAX);
    assert_eq!(to_timestamp(u32::MAX as u64 + 1), 0);
    assert_eq!(to_timestamp(u64::MAX), u32::MAX);
}

#[test]
fn clock_before_the_epoch_reads_as_zero() {
    assert_eq!(timestamp_of_reading(None), 0);
    assert_eq!(timestamp_of_reading(Some(0)), 0);
    assert_eq!(timestamp_of_reading(Some(1_700_000_000)), 1_700_000_000);
    assert_eq!(timestamp_of_reading(Some(u32::MAX as u64 + 5)), 4);
}

#[test]
fn clock_reads_after_2020() {
    let now = get_current_time();
    assert!(now > 1_577_836_800);
}

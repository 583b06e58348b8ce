use l2_sequencer::api::{commit, CommitOutcome};
use l2_sequencer::config::consensus::{
    default_validators, validator_key, validator_secret, ConsensusConfig, CLEARING_PHASE,
    CONSENSUS_THRESHOLD, ROUND_DURATION,
};
use l2_sequencer::consensus::logic::{
    current_round, evaluate_commitment, get_committing_validator, is_clearing_phase,
    phase_offset, round_start,
};
use l2_sequencer::consensus::round::{consensus_tick, record_commitment, to_be_bytes, TickAction};
use l2_sequencer::state::server::{
    BlockStore, InMemoryConsensus, MessagePool, SqLiteBlockStore, SqLiteMessagePool,
};
use l2_sequencer::types::{ConsensusCommitment, Message};

const GENESIS: u32 = 1_000;

fn config() -> ConsensusConfig {
    ConsensusConfig::new(60, 20, 3).unwrap()
}

fn chain() -> BlockStore {
    let mut store = BlockStore::new();
    store.trigger_genesis(GENESIS);
    store
}

fn node(index: &str) -> InMemoryConsensus {
    InMemoryConsensus::empty_with_default_validators(index)
}

#[test]
fn config_requires_clearing_shorter_than_round() {
    assert!(ConsensusConfig::new(60, 20, 3).is_some());
    assert!(ConsensusConfig::new(60, 59, 0).is_some());
    assert!(ConsensusConfig::new(60, 60, 3).is_none());
    assert!(ConsensusConfig::new(0, 0, 3).is_none());
    assert!(ConsensusConfig::new(1, 0, 3).is_some());
}

#[test]
fn standard_config_holds_the_constants() {
    let standard = ConsensusConfig::standard();
    assert_eq!(standard.round_duration, ROUND_DURATION);
    assert_eq!(standard.clearing_phase, CLEARING_PHASE);
    assert_eq!(standard.consensus_threshold, CONSENSUS_THRESHOLD);
    assert!(CLEARING_PHASE < ROUND_DURATION);
    assert_eq!(
        ConsensusConfig::new(ROUND_DURATION, CLEARING_PHASE, CONSENSUS_THRESHOLD),
        Some(standard)
    );
}

#[test]
fn round_is_elapsed_over_duration_plus_one() {
    let c = config();
    assert_eq!(current_round(GENESIS, GENESIS, &c), 1);
    assert_eq!(current_round(GENESIS + 59, GENESIS, &c), 1);
    assert_eq!(current_round(GENESIS + 60, GENESIS, &c), 2);
    assert_eq!(current_round(GENESIS + 125, GENESIS, &c), 3);
    assert_eq!(current_round(GENESIS + 600, GENESIS, &c), 11);
}

#[test]
fn round_does_not_overflow() {
    let c = ConsensusConfig::new(1, 0, 3).unwrap();
    assert_eq!(current_round(u32::MAX, 0, &c), 1u64 << 32);
}

#[test]
fn clock_behind_last_block_counts_as_no_time_elapsed() {
    let c = config();
    assert_eq!(current_round(GENESIS - 1, GENESIS, &c), 1);
    assert_eq!(phase_offset(GENESIS - 500, GENESIS, &c), 0);
    assert_eq!(round_start(GENESIS - 1, GENESIS, &c), GENESIS);
    assert!(is_clearing_phase(0, GENESIS, &c));
}

#[test]
fn phase_offset_is_elapsed_modulo_duration() {
    let c = config();
    assert_eq!(phase_offset(GENESIS, GENESIS, &c), 0);
    assert_eq!(phase_offset(GENESIS + 59, GENESIS, &c), 59);
    assert_eq!(phase_offset(GENESIS + 60, GENESIS, &c), 0);
    assert_eq!(phase_offset(GENESIS + 125, GENESIS, &c), 5);
}

#[test]
fn round_start_is_last_block_plus_whole_rounds() {
    let c = config();
    assert_eq!(round_start(GENESIS + 59, GENESIS, &c), GENESIS);
    assert_eq!(round_start(GENESIS + 60, GENESIS, &c), GENESIS + 60);
    assert_eq!(round_start(GENESIS + 125, GENESIS, &c), GENESIS + 120);
    assert_eq!(round_start(u32::MAX, 0, &c), u32::MAX - u32::MAX % 60);
}

#[test]
fn clearing_phase_is_half_open() {
    let c = config();
    assert!(is_clearing_phase(GENESIS, GENESIS, &c));
    assert!(is_clearing_phase(GENESIS + 19, GENESIS, &c));
    assert!(!is_clearing_phase(GENESIS + 20, GENESIS, &c));
    assert!(!is_clearing_phase(GENESIS + 59, GENESIS, &c));
    assert!(is_clearing_phase(GENESIS + 60, GENESIS, &c));
    assert!(is_clearing_phase(GENESIS + 79, GENESIS, &c));
    assert!(!is_clearing_phase(GENESIS + 80, GENESIS, &c));
}

#[test]
fn leader_rotation_is_round_robin() {
    let c = config();
    let validators = default_validators();
    assert_eq!(validators.len(), 4);
    for k in 0..12u32 {
        let now = GENESIS + k * c.round_duration;
        assert_eq!(current_round(now, GENESIS, &c), k as u64 + 1);
        assert_eq!(
            get_committing_validator(now, GENESIS, &validators, &c),
            Some(validators[(k % 4) as usize].clone())
        );
        let late = now + c.round_duration - 1;
        assert_eq!(
            get_committing_validator(late, GENESIS, &validators, &c),
            Some(validators[(k % 4) as usize].clone())
        );
    }
}

#[test]
fn no_validators_no_committer_no_winner() {
    let c = config();
    let validators: Vec<Vec<u8>> = vec![];
    assert_eq!(get_committing_validator(GENESIS, GENESIS, &validators, &c), None);
    let commitment = ConsensusCommitment { validator: vec![], random: 5 };
    assert_eq!(evaluate_commitment(&commitment, &validators), None);
}

#[test]
fn winner_is_random_modulo_validators() {
    let validators = default_validators();
    for (random, index) in [(0u64, 0usize), (1, 1), (5, 1), (7, 3), (u64::MAX, 3), (1 << 40, 0)] {
        let commitment = ConsensusCommitment { validator: validator_key(0), random };
        assert_eq!(
            evaluate_commitment(&commitment, &validators),
            Some(validators[index].clone())
        );
    }
}

#[test]
fn built_in_keys_match_their_secrets() {
    for index in 0..4u8 {
        let secret = validator_secret(index);
        assert_eq!(secret, vec![0x11 * (index + 1); 32]);
        let key = k256::ecdsa::SigningKey::from_slice(&secret).unwrap();
        let public = key.verifying_key().to_encoded_point(false).as_bytes().to_vec();
        assert_eq!(validator_key(index), public);
        assert_eq!(default_validators()[index as usize], public);
    }
    assert_eq!(validator_key(9), validator_key(3));
    assert_eq!(validator_secret(200), validator_secret(3));
}

#[test]
fn default_state_selects_identity() {
    for (setting, index) in [("0", 0u8), ("1", 1), ("2", 2), ("3", 3), ("", 3), ("x", 3), ("00", 3)] {
        let state = node(setting);
        assert_eq!(state.validators, default_validators());
        assert_eq!(state.local_validator, validator_key(index));
        assert_eq!(state.local_signing_key, validator_secret(index));
        assert!(state.commitments.is_empty());
        assert_eq!(state.round_winner, None);
        assert!(!state.proposed && !state.committed && !state.signed);
        assert_eq!(state.lowest_block, None);
    }
}

#[test]
fn empty_state_has_no_validators() {
    let state = InMemoryConsensus::empty();
    assert!(state.validators.is_empty());
    assert_eq!(state.local_validator, validator_key(0));
    assert_eq!(state.local_signing_key, validator_secret(1));
    assert_eq!(state.round_winner, None);
    assert!(!state.proposed && !state.committed && !state.signed);
}

#[test]
fn reinitialize_wipes_the_round_and_keeps_identity() {
    let mut state = node("2");
    state.commitments.push(ConsensusCommitment { validator: vec![1], random: 1 });
    state.round_winner = Some(validator_key(1));
    state.proposed = true;
    state.committed = true;
    state.signed = true;
    state.lowest_block = Some(vec![1, 2, 3]);
    state.reinitialize();
    assert!(state.commitments.is_empty());
    assert_eq!(state.round_winner, None);
    assert!(!state.proposed && !state.committed && !state.signed);
    assert_eq!(state.lowest_block, None);
    assert_eq!(state.validators, default_validators());
    assert_eq!(state.local_validator, validator_key(2));
    assert_eq!(state.local_signing_key, validator_secret(2));
}

#[test]
fn height_bytes_are_big_endian() {
    assert_eq!(to_be_bytes(1), vec![0, 0, 0, 1]);
    assert_eq!(to_be_bytes(0x0102_0304), vec![1, 2, 3, 4]);
    assert_eq!(to_be_bytes(u32::MAX), vec![255, 255, 255, 255]);
    assert_eq!(to_be_bytes(0xfedc_ba98), 0xfedc_ba98u32.to_be_bytes().to_vec());
}

#[test]
fn tick_in_clearing_phase_reinitializes_and_emits_nothing() {
    let c = config();
    let store = chain();
    let mut pool = MessagePool::new();
    pool.insert_message(Message { data: vec![1], timestamp: 0 });
    for offset in [0u32, 1, 19, 60, 79, 120] {
        let mut state = node("0");
        state.round_winner = Some(validator_key(0));
        state.committed = true;
        state.lowest_block = Some(vec![1]);
        let action = consensus_tick(&store, &mut pool, &mut state, GENESIS + offset, &c);
        assert!(matches!(action, TickAction::Reinitialized));
        assert_eq!(state.round_winner, None);
        assert!(!state.committed);
        assert_eq!(state.lowest_block, None);
        assert_eq!(pool.size(), 1);
    }
}

#[test]
fn committer_is_asked_to_commit_once() {
    let c = config();
    let store = chain();
    let mut pool = MessagePool::new();
    let now = GENESIS + 25;
    let mut state = node("0");
    match consensus_tick(&store, &mut pool, &mut state, now, &c) {
        TickAction::Commit { validator, height } => {
            assert_eq!(validator, validator_key(0));
            assert_eq!(height, vec![0, 0, 0, 1]);
        }
        other => panic!("unexpected {:?}", other),
    }
    assert!(!state.committed);
    assert_eq!(state.round_winner, None);
    let recorded = record_commitment(&mut state, 6).unwrap();
    assert_eq!(recorded, ConsensusCommitment { validator: validator_key(0), random: 6 });
    assert!(state.committed);
    assert_eq!(state.round_winner, Some(validator_key(2)));
    assert_eq!(state.commitments, vec![recorded]);
    assert!(matches!(
        consensus_tick(&store, &mut pool, &mut state, now, &c),
        TickAction::Idle
    ));
    assert_eq!(record_commitment(&mut state, 7), None);
    assert_eq!(state.round_winner, Some(validator_key(2)));
    assert_eq!(state.commitments.len(), 1);
}

#[test]
fn other_validators_are_not_asked_to_commit() {
    let c = config();
    let store = chain();
    let mut pool = MessagePool::new();
    for setting in ["1", "2", "3"] {
        let mut state = node(setting);
        assert!(matches!(
            consensus_tick(&store, &mut pool, &mut state, GENESIS + 25, &c),
            TickAction::Idle
        ));
    }
    let mut second = node("1");
    assert!(matches!(
        consensus_tick(&store, &mut pool, &mut second, GENESIS + 85, &c),
        TickAction::Commit { .. }
    ));
}

#[test]
fn winner_proposes_once_and_empties_the_pool() {
    let c = config();
    let store = chain();
    let mut pool = MessagePool::new();
    pool.insert_message(Message { data: vec![1, 2, 3, 4, 5], timestamp: 0 });
    pool.insert_message(Message { data: vec![6], timestamp: 3 });
    let now = GENESIS + 30;
    let mut state = node("2");
    state.round_winner = Some(validator_key(2));
    let block = match consensus_tick(&store, &mut pool, &mut state, now, &c) {
        TickAction::Propose(block) => block,
        other => panic!("unexpected {:?}", other),
    };
    assert_eq!(block.height, 1);
    assert_eq!(block.timestamp, now);
    assert_eq!(block.commitments, None);
    assert_eq!(
        block.messages,
        vec![
            Message { data: vec![1, 2, 3, 4, 5], timestamp: 0 },
            Message { data: vec![6], timestamp: 3 },
        ]
    );
    let signature = k256::ecdsa::Signature::from_slice(block.signature.as_ref().unwrap()).unwrap();
    let key = k256::ecdsa::VerifyingKey::from_sec1_bytes(&validator_key(2)).unwrap();
    assert!(k256::ecdsa::signature::Verifier::verify(&key, &block.to_bytes(), &signature).is_ok());
    assert!(state.proposed);
    assert_eq!(pool.size(), 0);
    pool.insert_message(Message { data: vec![7], timestamp: 4 });
    assert!(matches!(
        consensus_tick(&store, &mut pool, &mut state, now + 5, &c),
        TickAction::Idle
    ));
    assert_eq!(pool.size(), 1);
}

#[test]
fn winner_with_unusable_key_does_not_propose() {
    let c = config();
    let store = chain();
    let mut pool = MessagePool::new();
    pool.insert_message(Message { data: vec![1], timestamp: 0 });
    let mut state = node("2");
    state.local_signing_key = vec![0; 32];
    state.round_winner = Some(validator_key(2));
    assert!(matches!(
        consensus_tick(&store, &mut pool, &mut state, GENESIS + 30, &c),
        TickAction::Idle
    ));
    assert!(!state.proposed);
    assert_eq!(pool.size(), 1);
}

#[test]
fn losers_do_not_propose() {
    let c = config();
    let store = chain();
    let mut pool = MessagePool::new();
    let mut state = node("1");
    state.round_winner = Some(validator_key(2));
    assert!(matches!(
        consensus_tick(&store, &mut pool, &mut state, GENESIS + 30, &c),
        TickAction::Idle
    ));
    assert!(!state.proposed);
}

#[test]
fn committer_that_wins_commits_then_proposes() {
    let c = config();
    let store = chain();
    let mut pool = MessagePool::new();
    let now = GENESIS + 40;
    let mut state = node("0");
    assert!(matches!(
        consensus_tick(&store, &mut pool, &mut state, now, &c),
        TickAction::Commit { .. }
    ));
    record_commitment(&mut state, 8).unwrap();
    assert_eq!(state.round_winner, Some(validator_key(0)));
    assert!(matches!(
        consensus_tick(&store, &mut pool, &mut state, now, &c),
        TickAction::Propose(_)
    ));
    assert!(matches!(
        consensus_tick(&store, &mut pool, &mut state, now, &c),
        TickAction::Idle
    ));
}

#[test]
fn commitment_from_committer_elects_winner() {
    let c = config();
    let store = chain();
    let mut state = node("1");
    let commitment = ConsensusCommitment { validator: validator_key(0), random: 7 };
    let outcome = commit(&store, &mut state, commitment.clone(), true, GENESIS + 25, &c);
    assert_eq!(outcome, CommitOutcome::Accepted);
    assert_eq!(state.round_winner, Some(validator_key(3)));
    assert_eq!(state.commitments, vec![commitment]);
    assert!(!state.committed);
}

#[test]
fn commitment_in_compressed_form_is_recognised() {
    let c = config();
    let store = chain();
    let mut state = node("1");
    let key = k256::ecdsa::VerifyingKey::from_sec1_bytes(&validator_key(0)).unwrap();
    let compressed = key.to_encoded_point(true).as_bytes().to_vec();
    assert_eq!(compressed.len(), 33);
    let commitment = ConsensusCommitment { validator: compressed, random: 1 };
    assert_eq!(
        commit(&store, &mut state, commitment, true, GENESIS + 25, &c),
        CommitOutcome::Accepted
    );
    assert_eq!(state.round_winner, Some(validator_key(1)));
}

#[test]
fn second_commitment_is_ignored() {
    let c = config();
    let store = chain();
    let mut state = node("1");
    let first = ConsensusCommitment { validator: validator_key(0), random: 7 };
    let second = ConsensusCommitment { validator: validator_key(0), random: 8 };
    assert_eq!(
        commit(&store, &mut state, first.clone(), true, GENESIS + 25, &c),
        CommitOutcome::Accepted
    );
    assert_eq!(
        commit(&store, &mut state, second, true, GENESIS + 26, &c),
        CommitOutcome::WinnerAlreadyChosen
    );
    assert_eq!(state.round_winner, Some(validator_key(3)));
    assert_eq!(state.commitments, vec![first]);
}

#[test]
fn commitment_from_another_validator_is_ignored() {
    let c = config();
    let store = chain();
    for sender in [1u8, 2, 3] {
        let mut state = node("0");
        let commitment = ConsensusCommitment { validator: validator_key(sender), random: 7 };
        assert_eq!(
            commit(&store, &mut state, commitment, true, GENESIS + 25, &c),
            CommitOutcome::NotCommitter
        );
        assert_eq!(state.round_winner, None);
        assert!(state.commitments.is_empty());
    }
    let mut state = node("0");
    let second_round = ConsensusCommitment { validator: validator_key(1), random: 7 };
    assert_eq!(
        commit(&store, &mut state, second_round, true, GENESIS + 85, &c),
        CommitOutcome::Accepted
    );
}

#[test]
fn commitment_with_undecodable_key_is_ignored() {
    let c = config();
    let store = chain();
    let mut state = node("0");
    for key in [vec![], vec![0; 32], vec![4; 65]] {
        let commitment = ConsensusCommitment { validator: key, random: 7 };
        assert_eq!(
            commit(&store, &mut state, commitment, true, GENESIS + 25, &c),
            CommitOutcome::NotCommitter
        );
    }
    assert_eq!(state.round_winner, None);
}

#[test]
fn commitment_with_invalid_receipt_is_rejected() {
    let c = config();
    let store = chain();
    let mut state = node("1");
    let commitment = ConsensusCommitment { validator: validator_key(0), random: 7 };
    assert_eq!(
        commit(&store, &mut state, commitment, false, GENESIS + 25, &c),
        CommitOutcome::InvalidReceipt
    );
    assert_eq!(state.round_winner, None);
    assert!(state.commitments.is_empty());
}

#[test]
fn commitment_without_validators_is_ignored() {
    let c = config();
    let store = chain();
    let mut state = InMemoryConsensus::empty();
    let commitment = ConsensusCommitment { validator: validator_key(0), random: 7 };
    assert_eq!(
        commit(&store, &mut state, commitment, true, GENESIS + 25, &c),
        CommitOutcome::NotCommitter
    );
}

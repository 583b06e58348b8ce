use l2_sequencer::api::{commit, propose, CommitOutcome};
use l2_sequencer::config::consensus::{
    default_validators, validator_key, validator_secret, ConsensusConfig,
};
use l2_sequencer::consensus::round::{consensus_tick, record_commitment, TickAction};
use l2_sequencer::handlers::{
    contains_key, count_valid_commitments, handle_block_proposal, names_validator, track_lowest,
    ProposalOutcome, Rejection,
};
use l2_sequencer::state::server::{
    BlockStore, InMemoryConsensus, MessagePool, SqLiteBlockStore, SqLiteMessagePool,
};
use l2_sequencer::types::{Block, BlockCommitment, ConsensusCommitment, Message};

const GENESIS: u32 = 1_000;
const NOW: u32 = GENESIS + 30;

fn config() -> ConsensusConfig {
    ConsensusConfig::new(60, 20, 3).unwrap()
}

fn chain() -> BlockStore {
    let mut store = BlockStore::new();
    store.trigger_genesis(GENESIS);
    store
}

fn node(index: u8) -> InMemoryConsensus {
    let setting = format!("{}", index);
    InMemoryConsensus::empty_with_default_validators(&setting)
}

fn node_with_winner(index: u8, winner: u8) -> InMemoryConsensus {
    let mut state = node(index);
    state.round_winner = Some(validator_key(winner));
    state
}

fn sign(index: u8, bytes: &[u8]) -> Vec<u8> {
    let key = k256::ecdsa::SigningKey::from_slice(&validator_secret(index)).unwrap();
    let signature: k256::ecdsa::Signature = k256::ecdsa::signature::Signer::sign(&key, bytes);
    signature.to_bytes().to_vec()
}

fn commitment(index: u8, block: &Block) -> BlockCommitment {
    BlockCommitment {
        signature: sign(index, &block.to_bytes()),
        validator: validator_key(index),
        timestamp: NOW,
    }
}

fn proposal_by(leader: u8, payload: u8) -> Block {
    let mut block = Block {
        height: 1,
        messages: vec![Message { data: vec![payload, 2, 3, 4, 5], timestamp: 0 }],
        signature: None,
        commitments: None,
        timestamp: NOW,
    };
    block.signature = Some(sign(leader, &block.to_bytes()));
    block
}

#[test]
fn message_travels_from_pool_to_chain() {
    let c = config();
    let mut stores: Vec<BlockStore> = (0..4).map(|_| chain()).collect();
    let mut nodes: Vec<InMemoryConsensus> = (0..4u8).map(node).collect();
    let mut pools: Vec<MessagePool> = (0..4).map(|_| MessagePool::new()).collect();
    let message = Message { data: vec![1, 2, 3, 4, 5], timestamp: 0 };
    assert!(pools[2].insert_message(message.clone()));

    // Round 1: validator 0 commits and elects validator 2.
    let random = match consensus_tick(&stores[0], &mut pools[0], &mut nodes[0], NOW, &c) {
        TickAction::Commit { validator, height } => {
            assert_eq!(validator, validator_key(0));
            assert_eq!(height, vec![0, 0, 0, 1]);
            6u64
        }
        other => panic!("unexpected {:?}", other),
    };
    let announced: ConsensusCommitment = record_commitment(&mut nodes[0], random).unwrap();
    for i in 1..4 {
        assert_eq!(
            commit(&stores[i], &mut nodes[i], announced.clone(), true, NOW, &c),
            CommitOutcome::Accepted
        );
    }
    for state in nodes.iter() {
        assert_eq!(state.round_winner, Some(validator_key(2)));
    }

    // Validator 2 proposes.
    let mut block = match consensus_tick(&stores[2], &mut pools[2], &mut nodes[2], NOW, &c) {
        TickAction::Propose(block) => block,
        other => panic!("unexpected {:?}", other),
    };
    assert_eq!(block.messages, vec![message.clone()]);
    for i in [0usize, 1, 3] {
        assert!(matches!(
            consensus_tick(&stores[i], &mut pools[i], &mut nodes[i], NOW, &c),
            TickAction::Idle
        ));
    }

    // The proposal gathers commitments on its way round.
    for (count, i) in [0usize, 1, 3].into_iter().enumerate() {
        assert_eq!(
            propose(&mut stores[i], &mut nodes[i], &mut block, NOW + 1, &c),
            ProposalOutcome::Signed
        );
        let attached = block.commitments.as_ref().unwrap();
        assert_eq!(attached.len(), count + 1);
        assert_eq!(attached[count].validator, validator_key(i as u8));
        assert_eq!(attached[count].timestamp, NOW + 1);
        assert_eq!(stores[i].current_block_height(), 1);
    }

    // With three commitments it is sealed wherever it arrives.
    for i in 0..4usize {
        let mut arriving = block.clone();
        assert_eq!(
            propose(&mut stores[i], &mut nodes[i], &mut arriving, NOW + 2, &c),
            ProposalOutcome::Committed
        );
        assert_eq!(arriving, block);
        assert_eq!(stores[i].current_block_height(), 2);
        assert_eq!(stores[i].get_block_by_height(1), block);
        assert_eq!(stores[i].get_block_by_height(1).messages, vec![message.clone()]);
    }

    // A late copy is a duplicate.
    let mut late = block.clone();
    assert_eq!(
        propose(&mut stores[1], &mut nodes[1], &mut late, NOW + 3, &c),
        ProposalOutcome::Duplicate
    );
    assert_eq!(stores[1].current_block_height(), 2);
}

#[test]
fn stale_proposal_is_rejected() {
    let c = config();
    let mut store = chain();
    let mut state = node_with_winner(0, 2);
    let mut block = proposal_by(2, 1);
    let before = block.clone();
    // NOW + 60 lies in round 2, which began at GENESIS + 60.
    assert_eq!(
        propose(&mut store, &mut state, &mut block, NOW + 60, &c),
        ProposalOutcome::Rejected(Rejection::StaleTimestamp)
    );
    assert_eq!(block, before);
    assert_eq!(state.lowest_block, None);
    assert_eq!(store.current_block_height(), 1);
}

#[test]
fn proposal_stamped_at_round_start_is_not_stale() {
    let c = config();
    let mut store = chain();
    let mut state = node_with_winner(0, 2);
    let mut block = Block {
        height: 1,
        messages: vec![],
        signature: None,
        commitments: None,
        timestamp: GENESIS + 60,
    };
    block.signature = Some(sign(2, &block.to_bytes()));
    assert_eq!(
        propose(&mut store, &mut state, &mut block, GENESIS + 119, &c),
        ProposalOutcome::Signed
    );
    let mut early = Block { timestamp: GENESIS + 59, ..block.clone() };
    early.signature = Some(sign(2, &early.to_bytes()));
    assert_eq!(
        propose(&mut store, &mut state, &mut early, GENESIS + 119, &c),
        ProposalOutcome::Rejected(Rejection::StaleTimestamp)
    );
}

#[test]
fn unsigned_proposal_is_rejected() {
    let c = config();
    let mut store = chain();
    let mut state = node_with_winner(0, 2);
    let mut block = proposal_by(2, 1);
    block.signature = None;
    assert_eq!(
        propose(&mut store, &mut state, &mut block, NOW, &c),
        ProposalOutcome::Rejected(Rejection::Unsigned)
    );
    assert_eq!(block.commitments, None);
}

#[test]
fn proposal_waits_for_a_round_winner() {
    let c = config();
    let mut store = chain();
    let mut state = node(0);
    let mut block = proposal_by(2, 1);
    assert_eq!(
        propose(&mut store, &mut state, &mut block, NOW, &c),
        ProposalOutcome::AwaitingConsensus
    );
    assert_eq!(block.commitments, None);
    assert_eq!(state.lowest_block, None);
}

#[test]
fn proposal_for_a_stored_height_is_a_duplicate() {
    let c = config();
    let mut store = chain();
    let mut state = node_with_winner(0, 2);
    let mut block = proposal_by(2, 1);
    block.height = 0;
    block.signature = Some(vec![0; 64]);
    assert_eq!(
        propose(&mut store, &mut state, &mut block, NOW, &c),
        ProposalOutcome::Duplicate
    );
    assert_eq!(store.current_block_height(), 1);
}

#[test]
fn proposal_signed_by_another_validator_is_rejected() {
    let c = config();
    let mut store = chain();
    let mut state = node_with_winner(0, 2);
    let mut block = proposal_by(1, 1);
    assert_eq!(
        propose(&mut store, &mut state, &mut block, NOW, &c),
        ProposalOutcome::Rejected(Rejection::InvalidLeaderSignature)
    );
    assert_eq!(block.commitments, None);
    assert_eq!(state.lowest_block, None);
}

#[test]
fn proposal_with_malformed_signature_is_rejected() {
    let c = config();
    let mut store = chain();
    for signature in [vec![], vec![1, 2, 3], vec![0; 64], vec![0xff; 64], vec![1; 65]] {
        let mut state = node_with_winner(0, 2);
        let mut block = proposal_by(2, 1);
        block.signature = Some(signature);
        assert_eq!(
            propose(&mut store, &mut state, &mut block, NOW, &c),
            ProposalOutcome::Rejected(Rejection::InvalidLeaderSignature)
        );
    }
}

#[test]
fn signature_with_a_byte_too_many_is_rejected() {
    let c = config();
    let mut store = chain();
    let mut state = node_with_winner(0, 2);
    let mut block = proposal_by(2, 1);
    let good = block.signature.clone().unwrap();
    let mut longer = good.clone();
    longer.push(0);
    block.signature = Some(longer);
    assert_eq!(
        propose(&mut store, &mut state, &mut block, NOW, &c),
        ProposalOutcome::Rejected(Rejection::InvalidLeaderSignature)
    );
    block.signature = Some(good[..63].to_vec());
    assert_eq!(
        propose(&mut store, &mut state, &mut block, NOW, &c),
        ProposalOutcome::Rejected(Rejection::InvalidLeaderSignature)
    );
    block.signature = Some(good);
    assert_eq!(
        propose(&mut store, &mut state, &mut block, NOW, &c),
        ProposalOutcome::Signed
    );
}

#[test]
fn committee_keys_are_uncompressed() {
    for key in default_validators() {
        assert_eq!(key.len(), 65);
        assert_eq!(key[0], 4);
    }
}

#[test]
fn commitment_under_a_compressed_committee_key_is_not_accepted() {
    let c = config();
    let store = chain();
    let compressed = k256::ecdsa::VerifyingKey::from_sec1_bytes(&validator_key(0))
        .unwrap()
        .to_encoded_point(true)
        .as_bytes()
        .to_vec();
    let mut state = node(1);
    state.validators[0] = compressed.clone();
    let announced = ConsensusCommitment { validator: compressed, random: 1 };
    assert_eq!(
        commit(&store, &mut state, announced, true, NOW, &c),
        CommitOutcome::NotCommitter
    );
    assert_eq!(state.round_winner, None);
}

#[test]
fn proposal_altered_after_signing_is_rejected() {
    let c = config();
    let mut store = chain();
    let mut state = node_with_winner(0, 2);
    let mut block = proposal_by(2, 1);
    block.messages[0].data[0] ^= 1;
    assert_eq!(
        propose(&mut store, &mut state, &mut block, NOW, &c),
        ProposalOutcome::Rejected(Rejection::InvalidLeaderSignature)
    );
}

#[test]
fn proposal_at_a_future_height_is_rejected() {
    let c = config();
    let mut store = chain();
    let mut state = node_with_winner(0, 2);
    let mut block = proposal_by(2, 1);
    block.height = 2;
    block.signature = Some(sign(2, &block.to_bytes()));
    block.commitments = Some(vec![
        commitment(0, &block),
        commitment(1, &block),
        commitment(3, &block),
    ]);
    let before = block.clone();
    assert_eq!(
        propose(&mut store, &mut state, &mut block, NOW, &c),
        ProposalOutcome::Rejected(Rejection::WrongHeight)
    );
    assert_eq!(block, before);
    assert_eq!(state.lowest_block, None);
    assert_eq!(store.current_block_height(), 1);
}

#[test]
fn threshold_minus_one_is_not_enough() {
    let c = config();
    let mut store = chain();
    let mut state = node_with_winner(0, 2);
    let mut block = proposal_by(2, 1);
    block.commitments = Some(vec![commitment(0, &block), commitment(1, &block)]);
    let before = block.clone();
    assert_eq!(
        propose(&mut store, &mut state, &mut block, NOW, &c),
        ProposalOutcome::Waiting
    );
    assert_eq!(block, before);
    assert_eq!(store.current_block_height(), 1);

    let third = commitment(3, &block);
    block.commitments.as_mut().unwrap().push(third);
    assert_eq!(
        propose(&mut store, &mut state, &mut block, NOW, &c),
        ProposalOutcome::Committed
    );
    assert_eq!(store.current_block_height(), 2);
    assert_eq!(store.get_block_by_height(1), block);
}

#[test]
fn repeated_commitment_counts_once() {
    let c = config();
    let mut store = chain();
    let mut state = node_with_winner(0, 2);
    let mut block = proposal_by(2, 1);
    let compressed = k256::ecdsa::VerifyingKey::from_sec1_bytes(&validator_key(1))
        .unwrap()
        .to_encoded_point(true)
        .as_bytes()
        .to_vec();
    let mut alias = commitment(1, &block);
    alias.validator = compressed;
    block.commitments = Some(vec![
        commitment(0, &block),
        commitment(1, &block),
        commitment(1, &block),
        alias,
        commitment(0, &block),
    ]);
    let attached = block.commitments.clone().unwrap();
    assert_eq!(
        count_valid_commitments(&default_validators(), &block.to_bytes(), &attached),
        2
    );
    assert_eq!(
        propose(&mut store, &mut state, &mut block, NOW, &c),
        ProposalOutcome::Waiting
    );
    assert_eq!(store.current_block_height(), 1);
}

#[test]
fn invalid_commitments_are_passed_over() {
    let block = proposal_by(2, 1);
    let other = proposal_by(2, 9);
    let bytes = block.to_bytes();
    let validators = default_validators();

    let stranger_key = k256::ecdsa::SigningKey::from_slice(&[0x55; 32]).unwrap();
    let stranger_signature: k256::ecdsa::Signature =
        k256::ecdsa::signature::Signer::sign(&stranger_key, &bytes);
    let stranger = BlockCommitment {
        signature: stranger_signature.to_bytes().to_vec(),
        validator: stranger_key.verifying_key().to_encoded_point(false).as_bytes().to_vec(),
        timestamp: NOW,
    };
    let wrong_block = commitment(0, &other);
    let wrong_signer = BlockCommitment { validator: validator_key(1), ..commitment(0, &block) };
    let no_key = BlockCommitment { validator: vec![1, 2, 3], ..commitment(0, &block) };
    let no_signature = BlockCommitment { signature: vec![], ..commitment(0, &block) };

    let junk = vec![stranger, wrong_block, wrong_signer, no_key, no_signature];
    assert_eq!(count_valid_commitments(&validators, &bytes, &junk), 0);

    let mut mixed = junk.clone();
    mixed.insert(2, commitment(3, &block));
    assert_eq!(count_valid_commitments(&validators, &bytes, &mixed), 1);
    mixed.push(commitment(2, &block));
    mixed.push(commitment(1, &block));
    mixed.push(commitment(0, &block));
    assert_eq!(count_valid_commitments(&validators, &bytes, &mixed), 4);

    assert_eq!(count_valid_commitments(&validators, &bytes, &vec![]), 0);
    assert_eq!(count_valid_commitments(&vec![], &bytes, &mixed), 0);
    let two = vec![validator_key(3), validator_key(0)];
    assert_eq!(count_valid_commitments(&two, &bytes, &mixed), 2);
}

#[test]
fn threshold_zero_commits_at_once() {
    let c = ConsensusConfig::new(60, 20, 0).unwrap();
    let mut store = chain();
    let mut state = node_with_winner(0, 2);
    let mut block = proposal_by(2, 1);
    assert_eq!(
        propose(&mut store, &mut state, &mut block, NOW, &c),
        ProposalOutcome::Committed
    );
    assert_eq!(block.commitments, None);
}

#[test]
fn node_signs_only_once() {
    let c = config();
    let mut store = chain();
    let mut state = node_with_winner(0, 2);
    let mut block = proposal_by(2, 1);
    assert_eq!(
        propose(&mut store, &mut state, &mut block, NOW, &c),
        ProposalOutcome::Signed
    );
    let signed = block.clone();
    let attached = signed.commitments.as_ref().unwrap();
    assert_eq!(attached.len(), 1);
    assert_eq!(attached[0].validator, validator_key(0));
    assert_eq!(attached[0].signature, sign(0, &block.to_bytes()));
    assert_eq!(attached[0].signature.len(), 64);
    assert_eq!(attached[0].timestamp, NOW);
    assert!(names_validator(attached, &validator_key(0)));
    assert!(!names_validator(attached, &validator_key(1)));
    assert_eq!(
        propose(&mut store, &mut state, &mut block, NOW, &c),
        ProposalOutcome::Waiting
    );
    assert_eq!(block, signed);
    assert_eq!(state.lowest_block, Some(block.to_bytes()));
}

#[test]
fn node_with_unusable_key_cannot_sign() {
    let c = config();
    let mut store = chain();
    let mut state = node_with_winner(0, 2);
    state.local_signing_key = vec![0; 32];
    let mut block = proposal_by(2, 1);
    let before = block.clone();
    assert_eq!(
        propose(&mut store, &mut state, &mut block, NOW, &c),
        ProposalOutcome::SigningFailed
    );
    assert_eq!(block, before);
}

#[test]
fn lower_proposal_wins_the_split() {
    let c = config();
    let low = proposal_by(2, 1);
    let high = proposal_by(2, 200);
    assert!(low.to_bytes() < high.to_bytes());

    // High first, then low: both are signed, low is kept.
    let mut store = chain();
    let mut state = node_with_winner(0, 2);
    let mut first = high.clone();
    assert_eq!(propose(&mut store, &mut state, &mut first, NOW, &c), ProposalOutcome::Signed);
    assert_eq!(state.lowest_block, Some(high.to_bytes()));
    let mut second = low.clone();
    assert_eq!(propose(&mut store, &mut state, &mut second, NOW, &c), ProposalOutcome::Signed);
    assert_eq!(state.lowest_block, Some(low.to_bytes()));
    let mut again = high.clone();
    assert_eq!(
        propose(&mut store, &mut state, &mut again, NOW, &c),
        ProposalOutcome::Rejected(Rejection::LowerBlockKnown)
    );
    assert_eq!(again, high);

    // Low first, then high: high is turned away.
    let mut store = chain();
    let mut state = node_with_winner(1, 2);
    let mut first = low.clone();
    assert_eq!(propose(&mut store, &mut state, &mut first, NOW, &c), ProposalOutcome::Signed);
    let mut second = high.clone();
    assert_eq!(
        propose(&mut store, &mut state, &mut second, NOW, &c),
        ProposalOutcome::Rejected(Rejection::LowerBlockKnown)
    );
    assert_eq!(state.lowest_block, Some(low.to_bytes()));
    assert_eq!(second, high);
}

#[test]
fn sealed_higher_proposal_loses_to_a_known_lower_one() {
    let c = config();
    let low = proposal_by(2, 1);
    let mut high = proposal_by(2, 200);
    high.commitments = Some(vec![
        commitment(0, &high),
        commitment(1, &high),
        commitment(3, &high),
    ]);
    let mut store = chain();
    let mut state = node_with_winner(0, 2);
    let mut first = low.clone();
    assert_eq!(propose(&mut store, &mut state, &mut first, NOW, &c), ProposalOutcome::Signed);
    assert_eq!(
        propose(&mut store, &mut state, &mut high, NOW, &c),
        ProposalOutcome::Rejected(Rejection::LowerBlockKnown)
    );
    assert_eq!(store.current_block_height(), 1);
}

#[test]
fn lowest_proposal_is_tracked() {
    let mut lowest: Option<Vec<u8>> = None;
    assert!(track_lowest(&mut lowest, &vec![5, 5]));
    assert_eq!(lowest, Some(vec![5, 5]));
    assert!(track_lowest(&mut lowest, &vec![5, 5]));
    assert_eq!(lowest, Some(vec![5, 5]));
    assert!(!track_lowest(&mut lowest, &vec![5, 6]));
    assert!(!track_lowest(&mut lowest, &vec![5, 5, 0]));
    assert_eq!(lowest, Some(vec![5, 5]));
    assert!(track_lowest(&mut lowest, &vec![5]));
    assert_eq!(lowest, Some(vec![5]));
    assert!(track_lowest(&mut lowest, &vec![]));
    assert_eq!(lowest, Some(vec![]));
    assert!(!track_lowest(&mut lowest, &vec![0]));
}

#[test]
fn handler_checks_height_before_the_tiebreak() {
    let mut store = chain();
    let mut state = node(0);
    state.lowest_block = Some(vec![]);
    let mut block = proposal_by(2, 1);
    block.height = 5;
    assert_eq!(
        handle_block_proposal(&mut store, &mut state, &mut block, 3, NOW),
        ProposalOutcome::Rejected(Rejection::WrongHeight)
    );
    block.height = 1;
    assert_eq!(
        handle_block_proposal(&mut store, &mut state, &mut block, 3, NOW),
        ProposalOutcome::Rejected(Rejection::LowerBlockKnown)
    );
    assert_eq!(state.lowest_block, Some(vec![]));
}

#[test]
fn handler_on_an_empty_store_accepts_height_zero() {
    let mut store = BlockStore::new();
    let mut state = node(0);
    let mut block = proposal_by(2, 1);
    assert_eq!(
        handle_block_proposal(&mut store, &mut state, &mut block, 0, NOW),
        ProposalOutcome::Rejected(Rejection::WrongHeight)
    );
    block.height = 0;
    assert_eq!(
        handle_block_proposal(&mut store, &mut state, &mut block, 0, NOW),
        ProposalOutcome::Committed
    );
    assert_eq!(store.current_block_height(), 1);
}

#[test]
fn keys_are_found_by_their_bytes() {
    let validators = default_validators();
    for index in 0..4u8 {
        assert!(contains_key(&validators, &validator_key(index)));
    }
    assert!(!contains_key(&validators, &vec![]));
    assert!(!contains_key(&validators, &validator_secret(0)));
    assert!(!contains_key(&vec![], &validator_key(0)));
}

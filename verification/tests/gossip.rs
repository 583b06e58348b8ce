use l2_sequencer::api::{
    commitment_reply_prefix, lock_failure_reply, processed_reply, propose_reply,
};
use l2_sequencer::bytestring::{bytes_eq, compare_bytes, expand_bits, Rank};
use l2_sequencer::config::network::{default_host, peers, GOSSIP_PROPOSAL_RETRY_LIMIT_PER_PEER};
use l2_sequencer::gossipper::{docker_skip_self, next_gossip_step, GossipStep, Gossipper};
use l2_sequencer::handlers::{ProposalOutcome, Rejection};
use l2_sequencer::text::same_text;
use l2_sequencer::types::{Block, BlockCommitment, Message};

#[test]
fn docker_names_map_to_local_addresses() {
    assert!(docker_skip_self("0.0.0.0:8080", "rust-node-1:8080"));
    assert!(docker_skip_self("0.0.0.0:8081", "rust-node-2:8081"));
    assert!(docker_skip_self("0.0.0.0:8082", "rust-node-3:8082"));
    assert!(docker_skip_self("0.0.0.0:8083", "rust-node-4:8083"));
    assert!(!docker_skip_self("0.0.0.0:8080", "rust-node-2:8081"));
    assert!(!docker_skip_self("0.0.0.0:8081", "rust-node-1:8080"));
    assert!(!docker_skip_self("rust-node-1:8080", "0.0.0.0:8080"));
    assert!(!docker_skip_self("127.0.0.1:8081", "rust-node-2:8081"));
    assert!(!docker_skip_self("0.0.0.0:8080", "rust-node-1:8081"));
    assert!(!docker_skip_self("0.0.0.0:8080", ""));
}

#[test]
fn own_address_is_self() {
    assert!(docker_skip_self("127.0.0.1:8081", "127.0.0.1:8081"));
    assert!(docker_skip_self("0.0.0.0:8080", "0.0.0.0:8080"));
    assert!(docker_skip_self("rust-node-3:8082", "rust-node-3:8082"));
    assert!(docker_skip_self("", ""));
    assert!(!docker_skip_self("127.0.0.1:8081", "127.0.0.1:8080"));
    assert!(!docker_skip_self("127.0.0.1:8081", "127.0.0.1:808"));
}

#[test]
fn targets_are_all_peers_but_self_in_order() {
    let gossipper = Gossipper { peers: peers() };
    assert_eq!(
        gossipper.targets("0.0.0.0:8080"),
        vec!["rust-node-2:8081", "rust-node-3:8082", "rust-node-4:8083"]
    );
    assert_eq!(
        gossipper.targets("0.0.0.0:8082"),
        vec!["rust-node-1:8080", "rust-node-2:8081", "rust-node-4:8083"]
    );
    assert_eq!(
        gossipper.targets("rust-node-4:8083"),
        vec!["rust-node-1:8080", "rust-node-2:8081", "rust-node-3:8082"]
    );
    assert_eq!(gossipper.targets("127.0.0.1:8081"), peers());
    let alone = Gossipper { peers: vec![] };
    assert!(alone.targets("0.0.0.0:8080").is_empty());
    let twice = Gossipper { peers: vec!["a:1", "b:2", "a:1"] };
    assert_eq!(twice.targets("a:1"), vec!["b:2"]);
}

#[test]
fn default_network() {
    assert_eq!(default_host(), "0.0.0.0:8080");
    assert_eq!(
        peers(),
        vec!["rust-node-1:8080", "rust-node-2:8081", "rust-node-3:8082", "rust-node-4:8083"]
    );
}

#[test]
fn gossip_stops_on_the_exact_reply() {
    let limit = GOSSIP_PROPOSAL_RETRY_LIMIT_PER_PEER;
    assert_eq!(
        next_gossip_step(Some("[Ok] Block was processed"), 0, limit),
        GossipStep::Delivered
    );
    assert_eq!(
        next_gossip_step(Some("[Ok] Block was processed"), limit, limit),
        GossipStep::Delivered
    );
    assert_eq!(next_gossip_step(Some(processed_reply()), 0, 0), GossipStep::Delivered);
}

#[test]
fn gossip_retries_up_to_the_limit() {
    assert_eq!(next_gossip_step(None, 0, 3), GossipStep::Retry);
    assert_eq!(next_gossip_step(None, 2, 3), GossipStep::Retry);
    assert_eq!(next_gossip_step(None, 3, 3), GossipStep::GiveUp);
    assert_eq!(next_gossip_step(None, 4, 3), GossipStep::GiveUp);
    assert_eq!(next_gossip_step(None, 0, 0), GossipStep::GiveUp);
    assert_eq!(
        next_gossip_step(Some("[Warning] Awaiting consensus evaluation"), 1, 3),
        GossipStep::Retry
    );
    assert_eq!(
        next_gossip_step(Some("Block was rejected: Block { .. }"), 3, 3),
        GossipStep::GiveUp
    );
    assert_eq!(next_gossip_step(Some("[Ok] Block was processed."), 0, 1), GossipStep::Retry);
    assert_eq!(next_gossip_step(Some(""), 0, 1), GossipStep::Retry);
}

#[test]
fn reply_texts() {
    assert_eq!(processed_reply(), "[Ok] Block was processed");
    assert_eq!(lock_failure_reply(), "[Error] Failed to obtain locks");
    assert_eq!(commitment_reply_prefix(), "[Ok] Commitment was accepted: ");
}

fn shown_block() -> Block {
    Block {
        height: 12,
        messages: vec![
            Message { data: vec![1, 2, 3, 4, 5], timestamp: 0 },
            Message { data: vec![], timestamp: 4_294_967_295 },
        ],
        signature: Some(vec![0, 10, 255]),
        commitments: Some(vec![
            BlockCommitment { signature: vec![7], validator: vec![8, 9], timestamp: 100 },
            BlockCommitment { signature: vec![], validator: vec![], timestamp: 0 },
        ]),
        timestamp: 1_700_000_000,
    }
}

#[test]
fn each_outcome_has_its_reply() {
    let block = shown_block();
    for rejection in [
        Rejection::StaleTimestamp,
        Rejection::Unsigned,
        Rejection::InvalidLeaderSignature,
        Rejection::WrongHeight,
        Rejection::LowerBlockKnown,
    ] {
        assert_eq!(
            propose_reply(ProposalOutcome::Rejected(rejection), &block),
            format!("Block was rejected: {:?}", &block)
        );
    }
    assert_eq!(
        propose_reply(ProposalOutcome::AwaitingConsensus, &block),
        "[Warning] Awaiting consensus evaluation"
    );
    for outcome in [
        ProposalOutcome::Duplicate,
        ProposalOutcome::Committed,
        ProposalOutcome::Signed,
        ProposalOutcome::Waiting,
        ProposalOutcome::SigningFailed,
    ] {
        assert_eq!(propose_reply(outcome, &block), "[Ok] Block was processed");
        assert_eq!(
            next_gossip_step(Some(propose_reply(outcome, &block).as_str()), 0, 3),
            GossipStep::Delivered
        );
    }
}

#[test]
fn rejected_reply_shows_the_block() {
    let block = Block {
        height: 1,
        messages: vec![Message { data: vec![1, 2], timestamp: 3 }],
        signature: None,
        commitments: None,
        timestamp: 40,
    };
    assert_eq!(
        propose_reply(ProposalOutcome::Rejected(Rejection::WrongHeight), &block),
        "Block was rejected: Block { height: 1, messages: [Message { data: [1, 2], \
         timestamp: 3 }], signature: None, commitments: None, timestamp: 40 }"
    );
}

#[test]
fn shown_text_matches_debug_formatting() {
    let block = shown_block();
    assert_eq!(block.debug_text(), format!("{:?}", block));
    for message in block.messages.iter() {
        assert_eq!(message.debug_text(), format!("{:?}", message));
    }
    for commitment in block.commitments.as_ref().unwrap().iter() {
        assert_eq!(commitment.debug_text(), format!("{:?}", commitment));
    }
    let bare = Block {
        height: 0,
        messages: vec![],
        signature: Some(vec![]),
        commitments: Some(vec![]),
        timestamp: 0,
    };
    assert_eq!(bare.debug_text(), format!("{:?}", bare));
    assert_eq!(
        bare.debug_text(),
        "Block { height: 0, messages: [], signature: Some([]), commitments: Some([]), \
         timestamp: 0 }"
    );
    let one = Message { data: vec![9, 10, 99, 100, 101, 199, 200, 255], timestamp: 1_000_000_007 };
    assert_eq!(
        one.debug_text(),
        "Message { data: [9, 10, 99, 100, 101, 199, 200, 255], timestamp: 1000000007 }"
    );
}

#[test]
fn text_comparison() {
    assert!(same_text("", ""));
    assert!(same_text("abc", "abc"));
    assert!(!same_text("abc", "abd"));
    assert!(!same_text("abc", "ab"));
}

#[test]
fn byte_strings_compare_lexicographically() {
    let cases: [(&[u8], &[u8], Rank); 9] = [
        (&[], &[], Rank::Same),
        (&[], &[0], Rank::Below),
        (&[0], &[], Rank::Above),
        (&[1, 2, 3], &[1, 2, 3], Rank::Same),
        (&[1, 2], &[1, 2, 0], Rank::Below),
        (&[1, 2, 0], &[1, 2], Rank::Above),
        (&[1, 3], &[1, 2, 9], Rank::Above),
        (&[0, 255], &[1], Rank::Below),
        (&[255], &[254, 255, 255], Rank::Above),
    ];
    for (a, b, rank) in cases {
        let (a, b) = (a.to_vec(), b.to_vec());
        assert_eq!(compare_bytes(&a, &b), rank);
        assert_eq!(bytes_eq(&a, &b), rank == Rank::Same);
        let expected = match a.cmp(&b) {
            std::cmp::Ordering::Less => Rank::Below,
            std::cmp::Ordering::Equal => Rank::Same,
            std::cmp::Ordering::Greater => Rank::Above,
        };
        assert_eq!(rank, expected);
    }
}

#[test]
fn bits_expand_most_significant_first() {
    assert_eq!(expand_bits(&vec![0b1100_0001]), Some(vec![1, 1, 0, 0, 0, 0, 0, 1]));
    assert_eq!(expand_bits(&vec![0, 255]).unwrap().len(), 16);
    assert_eq!(
        expand_bits(&vec![0, 255]),
        Some(vec![0, 0, 0, 0, 0, 0, 0, 0, 1, 1, 1, 1, 1, 1, 1, 1])
    );
}

//! What each endpoint of a node decides, on values already read from the
//! request and with the node's state at hand.

use crate::bytestring::bytes_eq;
use crate::config::consensus::ConsensusConfig;
use crate::consensus::logic::{
    committer_at, evaluate_commitment, get_committing_validator, round_start, round_start_at,
    winner_of,
};
use crate::crypto::ecdsa::{canonical_key, ecdsa_verifies, sec1_canonical, verify_signature};
use crate::encoding::canonical_bytes;
use crate::handlers::{
    chain_after, consensus_after_proposal, handle_block_proposal, proposal_after,
    proposal_outcome, valid_signers, ProposalOutcome, Rejection,
};
use crate::state::server::{
    BlockStore, ConsensusValue, InMemoryConsensus, MessagePool, SqLiteBlockStore,
    SqLiteMessagePool,
};
use crate::types::{
    block_text, message_text, Block, BlockValue, ConsensusCommitment, ConsensusCommitmentValue,
    Message, MessageValue,
};
use vstd::string::StringExecFns;
use vstd::prelude::*;

verus! {

/// The text that acknowledges a scheduled message: a fixed opening, then
/// the message as the node shows it.
pub open spec fn scheduled_text(m: MessageValue) -> Seq<char> {
    "[Ok] Message is being sequenced: "@ + message_text(m)
}

/// Queues a message for the next block and returns the acknowledgement.
/// `None`, with the pool unchanged, only when the pool is full.
pub fn schedule(pool: &mut MessagePool, message: Message) -> (reply: Option<String>)
    requires
        old(pool).wf(),
    ensures
        final(pool).wf(),
        reply.is_some() == (old(pool)@.len() < u32::MAX),
        reply.is_some() ==> reply.unwrap()@ == scheduled_text(message@),
        final(pool)@ == if reply.is_some() {
            old(pool)@.push(message@)
        } else {
            old(pool)@
        },
{
    let mut text: String = String::new();
    text.append("[Ok] Message is being sequenced: ");
    let shown: String = message.debug_text();
    text.append(shown.as_str());
    assert(text@ =~= scheduled_text(message@));
    if pool.insert_message(message) {
        Some(text)
    } else {
        None
    }
}

/// What became of a consensus commitment.
#[derive(Clone, Copy, Debug, PartialEq, Eq, Structural)]
pub enum CommitOutcome {
    /// The commitment came from the round's committer and elected the round
    /// winner.
    Accepted,
    /// A round winner is already known; the commitment was ignored.
    WinnerAlreadyChosen,
    /// The commitment does not come from the round's committer; it was
    /// ignored.
    NotCommitter,
    /// The commitment's verifiable random output did not verify; it was
    /// turned away.
    InvalidReceipt,
}

/// What a node in state `c`, whose last block is stamped `last_block_ts`,
/// does with a commitment at time `now`.
pub open spec fn commit_outcome(
    c: ConsensusValue,
    last_block_ts: u32,
    commitment: ConsensusCommitmentValue,
    receipt_valid: bool,
    now: u32,
    config: ConsensusConfig,
) -> CommitOutcome {
    let committer = committer_at(now, last_block_ts, c.validators, config.round_duration);
    if c.round_winner.is_some() {
        CommitOutcome::WinnerAlreadyChosen
    } else if committer.is_none() || sec1_canonical(commitment.validator) != committer {
        CommitOutcome::NotCommitter
    } else if !receipt_valid {
        CommitOutcome::InvalidReceipt
    } else {
        CommitOutcome::Accepted
    }
}

/// The consensus state after a commitment has been handled: an accepted
/// commitment is recorded and elects the round winner. Nothing else changes.
pub open spec fn consensus_after_commit(
    outcome: CommitOutcome,
    c: ConsensusValue,
    commitment: ConsensusCommitmentValue,
) -> ConsensusValue {
    if outcome == CommitOutcome::Accepted {
        ConsensusValue {
            round_winner: winner_of(commitment.random, c.validators),
            commitments: c.commitments.push(commitment),
            ..c
        }
    } else {
        c
    }
}

/// Whether `key` has the shape of a public key in uncompressed SEC1 form:
/// the tag byte 4 followed by two coordinates of 32 bytes each.
pub open spec fn is_uncompressed_key(key: Seq<u8>) -> bool {
    key.len() == 65 && key[0] == 4
}

/// Handles a consensus commitment received from a peer.
///
/// A commitment is accepted only from a committer whose key stands in the
/// committee in uncompressed SEC1 form.
///
/// `receipt_valid` says whether the commitment's verifiable random output
/// verified against the committer's key and the next height.
pub fn commit(
    block_store: &BlockStore,
    consensus: &mut InMemoryConsensus,
    commitment: ConsensusCommitment,
    receipt_valid: bool,
    now: u32,
    config: &ConsensusConfig,
) -> (outcome: CommitOutcome)
    requires
        block_store.wf(),
        block_store@.len() > 0,
        config.wf(),
    ensures
        outcome == commit_outcome(
            old(consensus)@,
            block_store@.last().timestamp,
            commitment@,
            receipt_valid,
            now,
            *config,
        ),
        final(consensus)@ == consensus_after_commit(outcome, old(consensus)@, commitment@),
        outcome == CommitOutcome::Accepted ==> is_uncompressed_key(
            sec1_canonical(commitment@.validator).unwrap(),
        ),
{
    if consensus.round_winner.is_some() {
        return CommitOutcome::WinnerAlreadyChosen;
    }
    let last_block_ts: u32 = block_store.last_block_timestamp();
    let committer: Vec<u8> = match get_committing_validator(
        now,
        last_block_ts,
        &consensus.validators,
        config,
    ) {
        Some(key) => key,
        None => {
            return CommitOutcome::NotCommitter;
        },
    };
    let sender: Vec<u8> = match canonical_key(&commitment.validator) {
        Some(key) => key,
        None => {
            return CommitOutcome::NotCommitter;
        },
    };
    if !bytes_eq(&sender, &committer) {
        return CommitOutcome::NotCommitter;
    }
    if !receipt_valid {
        return CommitOutcome::InvalidReceipt;
    }
    let winner: Option<Vec<u8>> = evaluate_commitment(&commitment, &consensus.validators);
    consensus.round_winner = winner;
    let ghost before = consensus.commitments.deep_view();
    consensus.commitments.push(commitment);
    assert(consensus.commitments.deep_view() =~= before.push(commitment@));
    CommitOutcome::Accepted
}

/// Whether a proposal gets as far as the proposal state machine: it is not
/// stale, it is signed, a round winner is known, no block is stored at its
/// height, and the round winner's signature on it verifies.
pub open spec fn reaches_handler(
    chain: Seq<BlockValue>,
    c: ConsensusValue,
    p: BlockValue,
    now: u32,
    config: ConsensusConfig,
) -> bool {
    &&& p.timestamp >= round_start_at(now, chain.last().timestamp, config.round_duration)
    &&& p.signature.is_some()
    &&& c.round_winner.is_some()
    &&& p.height >= chain.len()
    &&& ecdsa_verifies(c.round_winner.unwrap(), canonical_bytes(p), p.signature.unwrap())
}

/// What a node in state `c`, with `chain` stored, does with the proposal
/// `p` at time `now`.
pub open spec fn propose_outcome(
    chain: Seq<BlockValue>,
    c: ConsensusValue,
    p: BlockValue,
    now: u32,
    config: ConsensusConfig,
) -> ProposalOutcome {
    if p.timestamp < round_start_at(now, chain.last().timestamp, config.round_duration) {
        ProposalOutcome::Rejected(Rejection::StaleTimestamp)
    } else if p.signature.is_none() {
        ProposalOutcome::Rejected(Rejection::Unsigned)
    } else if c.round_winner.is_none() {
        ProposalOutcome::AwaitingConsensus
    } else if p.height < chain.len() {
        ProposalOutcome::Duplicate
    } else if !ecdsa_verifies(c.round_winner.unwrap(), canonical_bytes(p), p.signature.unwrap()) {
        ProposalOutcome::Rejected(Rejection::InvalidLeaderSignature)
    } else {
        proposal_outcome(chain, c, p, config.consensus_threshold)
    }
}

/// Whether the leader's signature of a proposal is looked at and is not 64
/// bytes long: the proposal is not stale, it is signed, a round winner is
/// known, no block is stored at its height, and the signature has another
/// length than that of `r || s`.
pub open spec fn malformed_leader_signature(
    chain: Seq<BlockValue>,
    c: ConsensusValue,
    p: BlockValue,
    now: u32,
    config: ConsensusConfig,
) -> bool {
    &&& p.timestamp >= round_start_at(now, chain.last().timestamp, config.round_duration)
    &&& p.signature.is_some()
    &&& c.round_winner.is_some()
    &&& p.height >= chain.len()
    &&& p.signature.unwrap().len() != 64
}

/// Handles a block proposal received from a peer at time `now`.
///
/// The proposal is turned away when it is stamped before the start of the
/// current round, when it carries no leader signature, or when that
/// signature does not verify against the round winner over the proposal's
/// canonical bytes. Without a round winner it has to wait, and a proposal
/// for a height that is already stored counts as processed. Any other
/// proposal goes through [`handle_block_proposal`].
pub fn propose(
    block_store: &mut BlockStore,
    consensus: &mut InMemoryConsensus,
    proposal: &mut Block,
    now: u32,
    config: &ConsensusConfig,
) -> (outcome: ProposalOutcome)
    requires
        old(block_store).wf(),
        old(block_store)@.len() > 0,
        config.wf(),
    ensures
        final(block_store).wf(),
        outcome == propose_outcome(
            old(block_store)@,
            old(consensus)@,
            old(proposal)@,
            now,
            *config,
        ),
        reaches_handler(old(block_store)@, old(consensus)@, old(proposal)@, now, *config) ==> {
            &&& final(block_store)@ == chain_after(outcome, old(block_store)@, old(proposal)@)
            &&& final(consensus)@ == consensus_after_proposal(
                old(block_store)@,
                old(consensus)@,
                old(proposal)@,
            )
            &&& final(proposal)@ == proposal_after(outcome, old(consensus)@, old(proposal)@, now)
        },
        !reaches_handler(old(block_store)@, old(consensus)@, old(proposal)@, now, *config) ==> {
            &&& final(block_store)@ == old(block_store)@
            &&& final(consensus)@ == old(consensus)@
            &&& final(proposal)@ == old(proposal)@
        },
        malformed_leader_signature(old(block_store)@, old(consensus)@, old(proposal)@, now, *config)
            ==> outcome == ProposalOutcome::Rejected(Rejection::InvalidLeaderSignature),
        outcome == ProposalOutcome::Signed ==> final(proposal)@.attached().last().signature.len()
            == 64,
{
    let last_block_ts: u32 = block_store.last_block_timestamp();
    if proposal.timestamp < round_start(now, last_block_ts, config) {
        return ProposalOutcome::Rejected(Rejection::StaleTimestamp);
    }
    let valid: Option<bool> = match (&proposal.signature, &consensus.round_winner) {
        (None, _) => {
            return ProposalOutcome::Rejected(Rejection::Unsigned);
        },
        (Some(_), None) => {
            return ProposalOutcome::AwaitingConsensus;
        },
        (Some(signature), Some(round_winner)) => {
            if block_store.block_exists(proposal.height) {
                None
            } else {
                let bytes: Vec<u8> = proposal.to_bytes();
                Some(verify_signature(round_winner, &bytes, signature))
            }
        },
    };
    match valid {
        None => ProposalOutcome::Duplicate,
        Some(false) => ProposalOutcome::Rejected(Rejection::InvalidLeaderSignature),
        Some(true) => handle_block_proposal(
            block_store,
            consensus,
            proposal,
            config.consensus_threshold,
            now,
        ),
    }
}

/// The block stored at `height`, if there is one.
pub fn get_block(block_store: &BlockStore, height: u32) -> (block: Option<Block>)
    requires
        block_store.wf(),
    ensures
        block.deep_view() == if height < block_store@.len() {
            Some(block_store@[height as int])
        } else {
            None
        },
{
    if block_store.block_exists(height) {
        Some(block_store.get_block_by_height(height))
    } else {
        None
    }
}

/// The number of stored blocks.
pub fn get_height(block_store: &BlockStore) -> (height: u32)
    requires
        block_store.wf(),
    ensures
        height == block_store@.len(),
{
    block_store.current_block_height()
}

/// The pending messages, oldest first.
pub fn get_pool(pool: &MessagePool) -> (messages: Vec<Message>)
    ensures
        messages.deep_view() == pool@,
{
    pool.get_all_messages()
}

/// The commitments accepted this round, oldest first.
pub fn get_commitments(consensus: &InMemoryConsensus) -> (commitments: Vec<ConsensusCommitment>)
    ensures
        commitments.deep_view() == consensus@.commitments,
{
    let mut out: Vec<ConsensusCommitment> = Vec::new();
    let mut i: usize = 0;
    while i < consensus.commitments.len()
        invariant
            i <= consensus.commitments.len(),
            out@.len() == i,
            forall|n: int| 0 <= n < i ==> out@[n]@ == consensus.commitments@[n]@,
        decreases consensus.commitments.len() - i,
    {
        out.push(consensus.commitments[i].clone());
        i += 1;
    }
    assert(out.deep_view() =~= consensus.commitments.deep_view());
    out
}


/// The text that answers a proposal: a fixed line when it was processed,
/// another while the node awaits a round winner, and otherwise a fixed
/// opening followed by the proposal as the node shows it.
pub open spec fn propose_reply_text(outcome: ProposalOutcome, p: BlockValue) -> Seq<char> {
    match outcome {
        ProposalOutcome::Rejected(_) => "Block was rejected: "@ + block_text(p),
        ProposalOutcome::AwaitingConsensus => "[Warning] Awaiting consensus evaluation"@,
        _ => crate::gossipper::processed_text(),
    }
}

/// The text that answers a proposal with the given outcome. `proposal` is
/// the proposal as it was received.
pub fn propose_reply(outcome: ProposalOutcome, proposal: &Block) -> (text: String)
    ensures
        text@ == propose_reply_text(outcome, proposal@),
{
    let mut text: String = String::new();
    match outcome {
        ProposalOutcome::Rejected(_) => {
            text.append("Block was rejected: ");
            let shown: String = proposal.debug_text();
            text.append(shown.as_str());
            assert(text@ =~= "Block was rejected: "@ + block_text(proposal@));
        },
        ProposalOutcome::AwaitingConsensus => {
            text.append("[Warning] Awaiting consensus evaluation");
            assert(text@ =~= "[Warning] Awaiting consensus evaluation"@);
        },
        _ => {
            text.append("[Ok] Block was processed");
            assert(text@ =~= crate::gossipper::processed_text());
        },
    }
    text
}

/// The text that answers a processed proposal. Peers that gossip a proposal
/// retry until they read exactly this.
pub fn processed_reply() -> (text: &'static str)
    ensures
        text@ == crate::gossipper::processed_text(),
{
    "[Ok] Block was processed"
}

/// The text that answers a request for a block that is not stored.
pub fn missing_block_reply() -> (text: &'static str)
    ensures
        text@ == crate::handlers::missing_block_text(),
{
    "[Warning] Requested Block that does not exist"
}

/// The text that answers a commitment when the node's state is in use.
pub fn lock_failure_reply() -> (text: &'static str)
    ensures
        text@ == "[Error] Failed to obtain locks"@,
{
    "[Error] Failed to obtain locks"
}

/// The text that opens the answer to a commitment.
pub fn commitment_reply_prefix() -> (text: &'static str)
    ensures
        text@ == "[Ok] Commitment was accepted: "@,
{
    "[Ok] Commitment was accepted: "
}

/// A block that `propose` appends is sealed: the round winner's signature
/// over its canonical bytes verifies, at least the threshold of distinct
/// validators attest to it, and it sits at the height of the next block.
pub proof fn lemma_appended_block_is_sealed(
    chain: Seq<BlockValue>,
    c: ConsensusValue,
    p: BlockValue,
    now: u32,
    config: ConsensusConfig,
)
    requires
        propose_outcome(chain, c, p, now, config) == ProposalOutcome::Committed,
    ensures
        c.round_winner.is_some(),
        p.signature.is_some(),
        ecdsa_verifies(c.round_winner.unwrap(), canonical_bytes(p), p.signature.unwrap()),
        valid_signers(c.validators, canonical_bytes(p), p.attached()).len()
            >= config.consensus_threshold,
        p.height == chain.len(),
        reaches_handler(chain, c, p, now, config),
{
}

/// A block is appended by `propose` in no other case: every other outcome
/// leaves the chain as it was.
pub proof fn lemma_only_committed_appends(
    chain: Seq<BlockValue>,
    c: ConsensusValue,
    p: BlockValue,
    now: u32,
    config: ConsensusConfig,
)
    requires
        propose_outcome(chain, c, p, now, config) != ProposalOutcome::Committed,
    ensures
        chain_after(propose_outcome(chain, c, p, now, config), chain, p) == chain,
{
}

/// Once a round winner is known, no commitment from a peer replaces it:
/// the commitment is ignored and the state stays as it is.
pub proof fn lemma_winner_is_chosen_once(
    c: ConsensusValue,
    last_block_ts: u32,
    commitment: ConsensusCommitmentValue,
    receipt_valid: bool,
    now: u32,
    config: ConsensusConfig,
)
    requires
        c.round_winner.is_some(),
    ensures
        commit_outcome(c, last_block_ts, commitment, receipt_valid, now, config)
            == CommitOutcome::WinnerAlreadyChosen,
        consensus_after_commit(
            commit_outcome(c, last_block_ts, commitment, receipt_valid, now, config),
            c,
            commitment,
        ) == c,
{
}

/// A commitment is accepted only from the committer of the current round,
/// and only with a verifiable random output that verified.
pub proof fn lemma_accepted_commitment_is_from_committer(
    c: ConsensusValue,
    last_block_ts: u32,
    commitment: ConsensusCommitmentValue,
    receipt_valid: bool,
    now: u32,
    config: ConsensusConfig,
)
    requires
        commit_outcome(c, last_block_ts, commitment, receipt_valid, now, config)
            == CommitOutcome::Accepted,
    ensures
        receipt_valid,
        c.round_winner.is_none(),
        sec1_canonical(commitment.validator) == committer_at(
            now,
            last_block_ts,
            c.validators,
            config.round_duration,
        ),
        consensus_after_commit(CommitOutcome::Accepted, c, commitment).round_winner == winner_of(
            commitment.random,
            c.validators,
        ),
{
}

} // verus!

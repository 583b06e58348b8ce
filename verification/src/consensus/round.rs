//! One tick of the consensus loop: what a node does, given the time and its
//! state, and what it leaves to its caller to carry out.
//!
//! A tick that finds this node to be the round's committer hands the caller
//! the inputs of the verifiable random function. The caller obtains the
//! random output, announces it, records it with [`record_commitment`] and
//! ticks again at the same time.

use crate::bytestring::bytes_eq;
use crate::config::consensus::ConsensusConfig;
use crate::consensus::logic::{
    committer_at, evaluate_commitment, get_committing_validator, in_clearing_phase,
    is_clearing_phase, winner_of,
};
use crate::crypto::ecdsa::{ecdsa_signature, sign_message};
use crate::encoding::canonical_bytes;
use crate::state::server::{
    BlockStore, ConsensusValue, InMemoryConsensus, MessagePool, SqLiteBlockStore,
    SqLiteMessagePool,
};
use crate::types::{
    Block, BlockValue, ConsensusCommitment, ConsensusCommitmentValue, MessageValue,
};
use vstd::prelude::*;

verus! {

/// The four things a tick can come to.
#[derive(Clone, Copy, Debug, PartialEq, Eq, Structural)]
pub enum TickKind {
    /// The round is in its clearing phase: the consensus state was wiped.
    Reinitialize,
    /// This node is the round's committer and has not committed yet.
    Commit,
    /// This node is the round winner and has just proposed a block.
    Propose,
    /// Nothing to do.
    Idle,
}

/// What a tick leaves to the caller.
#[derive(Debug)]
pub enum TickAction {
    /// Nothing: the consensus state was wiped.
    Reinitialized,
    /// Obtain the verifiable random output for this validator key and this
    /// height (four bytes, big endian), announce it to the peers, record it
    /// with [`record_commitment`], and tick again.
    Commit { validator: Vec<u8>, height: Vec<u8> },
    /// Send this block to the peers.
    Propose(Block),
    /// Nothing.
    Idle,
}

impl TickAction {
    pub open spec fn kind(&self) -> TickKind {
        match self {
            TickAction::Reinitialized => TickKind::Reinitialize,
            TickAction::Commit { .. } => TickKind::Commit,
            TickAction::Propose(_) => TickKind::Propose,
            TickAction::Idle => TickKind::Idle,
        }
    }
}

/// The four bytes of `x`, most significant first.
pub open spec fn be_bytes(x: u32) -> Seq<u8> {
    seq![
        (x / 0x100_0000) as u8,
        (x / 0x1_0000 % 0x100) as u8,
        (x / 0x100 % 0x100) as u8,
        (x % 0x100) as u8,
    ]
}

/// The four bytes of `x`, most significant first.
pub fn to_be_bytes(x: u32) -> (bytes: Vec<u8>)
    ensures
        bytes@ == be_bytes(x),
{
    let b0: u8 = (x >> 24) as u8;
    let b1: u8 = ((x >> 16) & 0xff) as u8;
    let b2: u8 = ((x >> 8) & 0xff) as u8;
    let b3: u8 = (x & 0xff) as u8;
    assert(x >> 24 == x / 0x100_0000 && (x >> 16) & 0xff == x / 0x1_0000 % 0x100 && (x >> 8) & 0xff
        == x / 0x100 % 0x100 && x & 0xff == x % 0x100) by (bit_vector);
    let mut bytes: Vec<u8> = Vec::new();
    bytes.push(b0);
    bytes.push(b1);
    bytes.push(b2);
    bytes.push(b3);
    assert(bytes@ =~= be_bytes(x));
    bytes
}

/// The block a round winner proposes, before it is signed: every pending
/// message, at the next height, stamped `now`.
pub open spec fn draft_block(chain: Seq<BlockValue>, pending: Seq<MessageValue>, now: u32) -> BlockValue {
    BlockValue {
        height: chain.len() as u32,
        messages: pending,
        signature: None,
        commitments: None,
        timestamp: now,
    }
}

/// The block a round winner sends: its draft under its signature.
pub open spec fn proposed_block(
    chain: Seq<BlockValue>,
    pending: Seq<MessageValue>,
    c: ConsensusValue,
    now: u32,
) -> BlockValue {
    BlockValue {
        signature: ecdsa_signature(
            c.local_signing_key,
            canonical_bytes(draft_block(chain, pending, now)),
        ),
        ..draft_block(chain, pending, now)
    }
}

/// The pool after a tick: emptied by a proposal, unchanged otherwise.
pub open spec fn pending_after_tick(kind: TickKind, pending: Seq<MessageValue>) -> Seq<
    MessageValue,
> {
    if kind == TickKind::Propose {
        Seq::empty()
    } else {
        pending
    }
}

/// What a tick at time `now` comes to for a node in state `c` with `chain`
/// stored and `pending` in its pool.
pub open spec fn tick_kind(
    chain: Seq<BlockValue>,
    pending: Seq<MessageValue>,
    c: ConsensusValue,
    now: u32,
    config: ConsensusConfig,
) -> TickKind {
    let last_block_ts = chain.last().timestamp;
    if in_clearing_phase(now, last_block_ts, config) {
        TickKind::Reinitialize
    } else if !c.committed && committer_at(now, last_block_ts, c.validators, config.round_duration)
        == Some(c.local_validator) {
        TickKind::Commit
    } else if !c.proposed && c.round_winner == Some(c.local_validator) && ecdsa_signature(
        c.local_signing_key,
        canonical_bytes(draft_block(chain, pending, now)),
    ).is_some() {
        TickKind::Propose
    } else {
        TickKind::Idle
    }
}

/// The consensus state after a tick: wiped in the clearing phase, marked as
/// having proposed after a proposal, unchanged otherwise.
pub open spec fn consensus_after_tick(kind: TickKind, c: ConsensusValue) -> ConsensusValue {
    match kind {
        TickKind::Reinitialize => c.reinitialized(),
        TickKind::Propose => ConsensusValue { proposed: true, ..c },
        _ => c,
    }
}

/// One tick of the consensus loop at time `now`.
///
/// In the clearing phase the state is wiped and nothing is emitted. After
/// it, the round's committer is asked, once per round, to commit; and the
/// round winner, once per round, proposes a block of all pending messages
/// under its signature and empties the pool.
pub fn consensus_tick(
    block_store: &BlockStore,
    pool: &mut MessagePool,
    consensus: &mut InMemoryConsensus,
    now: u32,
    config: &ConsensusConfig,
) -> (action: TickAction)
    requires
        block_store.wf(),
        block_store@.len() > 0,
        config.wf(),
    ensures
        action.kind() == tick_kind(block_store@, old(pool)@, old(consensus)@, now, *config),
        final(consensus)@ == consensus_after_tick(action.kind(), old(consensus)@),
        final(pool)@ == pending_after_tick(action.kind(), old(pool)@),
        match action {
            TickAction::Commit { validator, height } => {
                &&& validator@ == old(consensus)@.local_validator
                &&& height@ == be_bytes(block_store@.len() as u32)
            },
            TickAction::Propose(block) => {
                &&& block@ == proposed_block(block_store@, old(pool)@, old(consensus)@, now)
                &&& block@.signature.unwrap().len() == 64
            },
            _ => true,
        },
{
    let last_block_ts: u32 = block_store.last_block_timestamp();
    if is_clearing_phase(now, last_block_ts, config) {
        consensus.reinitialize();
        return TickAction::Reinitialized;
    }
    let next_height: u32 = block_store.current_block_height();
    if !consensus.committed {
        let committer: Option<Vec<u8>> = get_committing_validator(
            now,
            last_block_ts,
            &consensus.validators,
            config,
        );
        let is_committer: bool = match &committer {
            Some(key) => bytes_eq(key, &consensus.local_validator),
            None => false,
        };
        if is_committer {
            return TickAction::Commit {
                validator: consensus.local_validator.clone(),
                height: to_be_bytes(next_height),
            };
        }
    }
    let is_winner: bool = match &consensus.round_winner {
        Some(winner) => bytes_eq(winner, &consensus.local_validator),
        None => false,
    };
    if consensus.proposed || !is_winner {
        return TickAction::Idle;
    }
    let mut block = Block {
        height: next_height,
        messages: pool.get_all_messages(),
        signature: None,
        commitments: None,
        timestamp: now,
    };
    assert(block@ == draft_block(block_store@, old(pool)@, now));
    let bytes: Vec<u8> = block.to_bytes();
    match sign_message(&consensus.local_signing_key, &bytes) {
        Some(signature) => {
            block.signature = Some(signature);
            consensus.proposed = true;
            pool.reinitialize();
            TickAction::Propose(block)
        },
        None => TickAction::Idle,
    }
}

/// The consensus state after this node has recorded its own commitment: the
/// commitment is kept, it elects the round winner, and the node counts as
/// having committed. A node that has committed already stays as it is.
pub open spec fn consensus_after_own_commitment(c: ConsensusValue, random: u64) -> ConsensusValue {
    if c.committed {
        c
    } else {
        ConsensusValue {
            round_winner: winner_of(random, c.validators),
            committed: true,
            commitments: c.commitments.push(
                ConsensusCommitmentValue { validator: c.local_validator, random },
            ),
            ..c
        }
    }
}

/// Records the commitment of this node as the round's committer, given the
/// integer that its verifiable random output exposes. Returns the
/// commitment as recorded, or `None` when the node has committed already
/// this round, in which case nothing changes.
pub fn record_commitment(consensus: &mut InMemoryConsensus, random: u64) -> (recorded: Option<
    ConsensusCommitment,
>)
    ensures
        final(consensus)@ == consensus_after_own_commitment(old(consensus)@, random),
        recorded.deep_view() == if old(consensus)@.committed {
            None
        } else {
            Some(
                ConsensusCommitmentValue { validator: old(consensus)@.local_validator, random },
            )
        },
{
    if consensus.committed {
        return None;
    }
    let commitment = ConsensusCommitment { validator: consensus.local_validator.clone(), random };
    let recorded = commitment.clone();
    consensus.round_winner = evaluate_commitment(&commitment, &consensus.validators);
    consensus.committed = true;
    let ghost before = consensus.commitments.deep_view();
    consensus.commitments.push(commitment);
    assert(consensus.commitments.deep_view() =~= before.push(commitment@));
    Some(recorded)
}


/// Clearing phase: while fewer seconds than the clearing phase lasts have
/// passed since the last block, a tick wipes the consensus state and emits
/// neither a commitment nor a proposal.
pub proof fn lemma_clearing_phase_reinitializes(
    chain: Seq<BlockValue>,
    pending: Seq<MessageValue>,
    c: ConsensusValue,
    now: u32,
    config: ConsensusConfig,
)
    requires
        config.wf(),
        now >= chain.last().timestamp,
        now - chain.last().timestamp < config.clearing_phase,
    ensures
        tick_kind(chain, pending, c, now, config) == TickKind::Reinitialize,
        consensus_after_tick(tick_kind(chain, pending, c, now, config), c) == c.reinitialized(),
{
    let e = (now - chain.last().timestamp) as int;
    let d = config.round_duration as int;
    assert(e % d == e) by (nonlinear_arith)
        requires
            0 <= e < d,
    ;
}

/// The clearing phase comes back at the start of every round.
pub proof fn lemma_every_round_opens_with_clearing(
    chain: Seq<BlockValue>,
    pending: Seq<MessageValue>,
    c: ConsensusValue,
    k: nat,
    config: ConsensusConfig,
)
    requires
        config.wf(),
        config.clearing_phase > 0,
        chain.last().timestamp + k * config.round_duration <= u32::MAX,
    ensures
        tick_kind(
            chain,
            pending,
            c,
            (chain.last().timestamp + k * config.round_duration) as u32,
            config,
        ) == TickKind::Reinitialize,
{
    crate::consensus::logic::lemma_round_after_whole_rounds(
        chain.last().timestamp,
        k,
        config.round_duration,
    );
}

/// A node proposes at most once per round: after a tick that proposed, no
/// tick proposes again until a clearing phase has wiped the state.
pub proof fn lemma_single_proposal_per_round(
    chain: Seq<BlockValue>,
    pending: Seq<MessageValue>,
    c: ConsensusValue,
    now: u32,
    later_chain: Seq<BlockValue>,
    later_pending: Seq<MessageValue>,
    later: u32,
    config: ConsensusConfig,
)
    requires
        tick_kind(chain, pending, c, now, config) == TickKind::Propose,
    ensures
        !c.proposed,
        consensus_after_tick(TickKind::Propose, c).proposed,
        tick_kind(
            later_chain,
            later_pending,
            consensus_after_tick(TickKind::Propose, c),
            later,
            config,
        ) != TickKind::Propose,
{
}

/// A node that has proposed does not propose: the flag alone rules it out.
pub proof fn lemma_proposed_blocks_proposal(
    chain: Seq<BlockValue>,
    pending: Seq<MessageValue>,
    c: ConsensusValue,
    now: u32,
    config: ConsensusConfig,
)
    requires
        c.proposed,
    ensures
        tick_kind(chain, pending, c, now, config) != TickKind::Propose,
{
}

/// A committer commits at most once per round: once it has recorded its
/// commitment it counts as having committed, a round winner is set if
/// there are validators, no tick asks it to commit again, and a second
/// record changes nothing.
pub proof fn lemma_single_commitment_per_round(
    chain: Seq<BlockValue>,
    pending: Seq<MessageValue>,
    c: ConsensusValue,
    random: u64,
    again: u64,
    now: u32,
    config: ConsensusConfig,
)
    requires
        !c.committed,
    ensures
        consensus_after_own_commitment(c, random).committed,
        consensus_after_own_commitment(c, random).round_winner == winner_of(random, c.validators),
        tick_kind(chain, pending, consensus_after_own_commitment(c, random), now, config)
            != TickKind::Commit,
        consensus_after_own_commitment(consensus_after_own_commitment(c, random), again)
            == consensus_after_own_commitment(c, random),
{
}

/// Outside the clearing phase a tick leaves the round winner and the
/// committed flag as they are.
pub proof fn lemma_tick_keeps_winner(kind: TickKind, c: ConsensusValue)
    requires
        kind != TickKind::Reinitialize,
    ensures
        consensus_after_tick(kind, c).round_winner == c.round_winner,
        consensus_after_tick(kind, c).committed == c.committed,
{
}


/// The winner's proposal: outside the clearing phase, a node that is the
/// round winner, has not proposed yet, is not due to commit and whose key
/// signs, proposes. The block holds every pending message in order, at the
/// next height, stamped `now`, without commitments and under the node's
/// signature over its canonical bytes; afterwards the node counts as having
/// proposed and its pool is empty.
pub proof fn lemma_winner_proposes(
    chain: Seq<BlockValue>,
    pending: Seq<MessageValue>,
    c: ConsensusValue,
    now: u32,
    config: ConsensusConfig,
)
    requires
        chain.len() <= u32::MAX,
        !in_clearing_phase(now, chain.last().timestamp, config),
        c.committed || committer_at(
            now,
            chain.last().timestamp,
            c.validators,
            config.round_duration,
        ) != Some(c.local_validator),
        c.round_winner == Some(c.local_validator),
        !c.proposed,
        ecdsa_signature(
            c.local_signing_key,
            canonical_bytes(draft_block(chain, pending, now)),
        ).is_some(),
    ensures
        tick_kind(chain, pending, c, now, config) == TickKind::Propose,
        proposed_block(chain, pending, c, now).height == chain.len(),
        proposed_block(chain, pending, c, now).messages == pending,
        proposed_block(chain, pending, c, now).timestamp == now,
        proposed_block(chain, pending, c, now).commitments.is_none(),
        proposed_block(chain, pending, c, now).signature == ecdsa_signature(
            c.local_signing_key,
            canonical_bytes(proposed_block(chain, pending, c, now)),
        ),
        consensus_after_tick(TickKind::Propose, c).proposed,
        consensus_after_tick(TickKind::Propose, c) == (ConsensusValue { proposed: true, ..c }),
        pending_after_tick(TickKind::Propose, pending).len() == 0,
{
}

} // verus!

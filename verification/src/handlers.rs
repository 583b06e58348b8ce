//! The block-proposal state machine and the replay of synchronized blocks.

use crate::bytestring::{bytes_eq, compare_bytes, lex_lt, Rank};
use crate::consensus::logic::keys_of;
use crate::crypto::ecdsa::{
    canonical_key, ecdsa_signature, ecdsa_verifies, sec1_canonical, sign_message,
    verify_signature,
};
use crate::encoding::canonical_bytes;
use crate::state::server::{
    chain_wf, may_insert, BlockStore, ConsensusValue, InMemoryConsensus, SqLiteBlockStore,
};
use crate::text::same_text;
use crate::types::{
    optional_bytes, Block, BlockCommitment, BlockCommitmentValue, BlockValue, MessageValue,
};
use vstd::prelude::*;

verus! {

/// The commitment `c` is a valid attestation of the block with canonical
/// bytes `bytes` by the validator `v`: its key decodes to `v`, `v` sits on
/// the committee, and its signature verifies over the bytes.
pub open spec fn attests(
    validators: Seq<Seq<u8>>,
    bytes: Seq<u8>,
    c: BlockCommitmentValue,
    v: Seq<u8>,
) -> bool {
    &&& sec1_canonical(c.validator) == Some(v)
    &&& validators.contains(v)
    &&& ecdsa_verifies(c.validator, bytes, c.signature)
}

/// The validators with a valid attestation among `commitments`.
pub open spec fn valid_signers(
    validators: Seq<Seq<u8>>,
    bytes: Seq<u8>,
    commitments: Seq<BlockCommitmentValue>,
) -> Set<Seq<u8>> {
    Set::new(
        |v: Seq<u8>|
            exists|i: int|
                0 <= i < commitments.len() && attests(validators, bytes, #[trigger] commitments[i], v),
    )
}

/// Whether one of `commitments` names `key` as its validator.
pub open spec fn signed_by(commitments: Seq<BlockCommitmentValue>, key: Seq<u8>) -> bool {
    exists|i: int| 0 <= i < commitments.len() && (#[trigger] commitments[i]).validator == key
}

/// Whether `key` is one of `keys`.
pub fn contains_key(keys: &Vec<Vec<u8>>, key: &Vec<u8>) -> (found: bool)
    ensures
        found == keys_of(keys@).contains(key@),
{
    let mut i: usize = 0;
    while i < keys.len()
        invariant
            i <= keys.len(),
            forall|n: int| 0 <= n < i ==> keys_of(keys@)[n] != key@,
        decreases keys.len() - i,
    {
        if bytes_eq(&keys[i], key) {
            assert(keys_of(keys@)[i as int] == key@);
            return true;
        }
        i += 1;
    }
    false
}

/// One more commitment adds its validator to the valid signers when it
/// attests, and nothing otherwise.
proof fn lemma_valid_signers_step(
    validators: Seq<Seq<u8>>,
    bytes: Seq<u8>,
    commitments: Seq<BlockCommitmentValue>,
    i: int,
)
    requires
        0 <= i < commitments.len(),
    ensures
        valid_signers(validators, bytes, commitments.take(i + 1)) == match sec1_canonical(
            commitments[i].validator,
        ) {
            Some(v) => if attests(validators, bytes, commitments[i], v) {
                valid_signers(validators, bytes, commitments.take(i)).insert(v)
            } else {
                valid_signers(validators, bytes, commitments.take(i))
            },
            None => valid_signers(validators, bytes, commitments.take(i)),
        },
{
    let before = commitments.take(i);
    let after = commitments.take(i + 1);
    let old_set = valid_signers(validators, bytes, before);
    let new_set = valid_signers(validators, bytes, after);
    let expected = match sec1_canonical(commitments[i].validator) {
        Some(v) => if attests(validators, bytes, commitments[i], v) {
            old_set.insert(v)
        } else {
            old_set
        },
        None => old_set,
    };
    assert forall|v: Seq<u8>| new_set.contains(v) <==> expected.contains(v) by {
        if new_set.contains(v) {
            let j = choose|j: int|
                0 <= j < after.len() && attests(validators, bytes, #[trigger] after[j], v);
            if j < i {
                assert(before[j] == after[j]);
                assert(old_set.contains(v));
            } else {
                assert(after[j] == commitments[i]);
            }
        }
        if expected.contains(v) {
            if old_set.contains(v) {
                let j = choose|j: int|
                    0 <= j < before.len() && attests(validators, bytes, #[trigger] before[j], v);
                assert(after[j] == before[j]);
            } else {
                assert(after[i] == commitments[i]);
            }
        }
    }
    assert(new_set =~= expected);
}

/// Appending a key to a list adds it to the set of the list's keys.
proof fn lemma_keys_push(keys: Seq<Vec<u8>>, key: Vec<u8>)
    ensures
        keys_of(keys.push(key)) == keys_of(keys).push(key@),
        keys_of(keys.push(key)).to_set() == keys_of(keys).to_set().insert(key@),
{
    let grown = keys_of(keys.push(key));
    assert(grown =~= keys_of(keys).push(key@));
    assert forall|v: Seq<u8>| grown.to_set().contains(v) <==> keys_of(keys).to_set().insert(
        key@,
    ).contains(v) by {
        if grown.contains(v) {
            let j = choose|j: int| 0 <= j < grown.len() && grown[j] == v;
            if j < keys.len() {
                assert(keys_of(keys)[j] == v);
            }
        }
        if keys_of(keys).contains(v) {
            let j = choose|j: int| 0 <= j < keys_of(keys).len() && keys_of(keys)[j] == v;
            assert(grown[j] == v);
        }
        if v == key@ {
            assert(grown[keys.len() as int] == v);
        }
    }
    assert(grown.to_set() =~= keys_of(keys).to_set().insert(key@));
}

/// Counts the distinct validators that attest to the block with canonical
/// bytes `bytes`. A commitment whose key does not decode, whose validator is
/// not on the committee or whose signature does not verify is passed over;
/// a validator that attests twice counts once.
pub fn count_valid_commitments(
    validators: &Vec<Vec<u8>>,
    bytes: &Vec<u8>,
    commitments: &Vec<BlockCommitment>,
) -> (count: usize)
    ensures
        valid_signers(keys_of(validators@), bytes@, commitments.deep_view()).finite(),
        count == valid_signers(keys_of(validators@), bytes@, commitments.deep_view()).len(),
{
    let ghost all = commitments.deep_view();
    let ghost committee = keys_of(validators@);
    let mut seen: Vec<Vec<u8>> = Vec::new();
    let mut i: usize = 0;
    assert(keys_of(seen@).to_set() =~= valid_signers(committee, bytes@, all.take(0)));
    while i < commitments.len()
        invariant
            i <= commitments.len(),
            all == commitments.deep_view(),
            committee == keys_of(validators@),
            keys_of(seen@).no_duplicates(),
            keys_of(seen@).to_set() == valid_signers(committee, bytes@, all.take(i as int)),
        decreases commitments.len() - i,
    {
        let commitment = &commitments[i];
        proof {
            lemma_valid_signers_step(committee, bytes@, all, i as int);
            assert(all[i as int] == commitment@);
        }
        match canonical_key(&commitment.validator) {
            Some(key) => {
                if contains_key(validators, &key) && verify_signature(
                    &commitment.validator,
                    bytes,
                    &commitment.signature,
                ) {
                    if !contains_key(&seen, &key) {
                        proof {
                            lemma_keys_push(seen@, key);
                        }
                        seen.push(key);
                    } else {
                        assert(keys_of(seen@).to_set().insert(key@) =~= keys_of(seen@).to_set());
                    }
                }
            },
            None => {},
        }
        i += 1;
    }
    proof {
        assert(all.take(commitments.len() as int) =~= all);
        keys_of(seen@).unique_seq_to_set();
    }
    seen.len()
}

/// Whether one of `commitments` names `key` as its validator.
pub fn names_validator(commitments: &Vec<BlockCommitment>, key: &Vec<u8>) -> (found: bool)
    ensures
        found == signed_by(commitments.deep_view(), key@),
{
    let mut i: usize = 0;
    while i < commitments.len()
        invariant
            i <= commitments.len(),
            forall|n: int| 0 <= n < i ==> (#[trigger] commitments.deep_view()[n]).validator != key@,
        decreases commitments.len() - i,
    {
        if bytes_eq(&commitments[i].validator, key) {
            assert(commitments.deep_view()[i as int].validator == key@);
            return true;
        }
        i += 1;
    }
    false
}


/// Why a proposal was turned away.
#[derive(Clone, Copy, Debug, PartialEq, Eq, Structural)]
pub enum Rejection {
    /// It is stamped earlier than the start of the current round.
    StaleTimestamp,
    /// It carries no leader signature.
    Unsigned,
    /// Its leader signature does not verify against the round winner.
    InvalidLeaderSignature,
    /// Its height is not the height of the next block.
    WrongHeight,
    /// A proposal with lower canonical bytes is known at this height.
    LowerBlockKnown,
}

/// What became of a proposal.
#[derive(Clone, Copy, Debug, PartialEq, Eq, Structural)]
pub enum ProposalOutcome {
    /// Turned away; nothing changed.
    Rejected(Rejection),
    /// No round winner is known yet to check the leader's signature
    /// against; nothing changed.
    AwaitingConsensus,
    /// A block is already stored at the proposal's height; nothing changed.
    Duplicate,
    /// The threshold was met and the block was appended to the chain. Its
    /// messages are now due in the trie.
    Committed,
    /// This node added its own commitment; the proposal is due to be
    /// gossiped.
    Signed,
    /// This node has signed already and the threshold is not met.
    Waiting,
    /// This node has not signed yet, and its key produced no signature.
    SigningFailed,
}

/// The lowest proposal known after `candidate` has been seen.
pub open spec fn lowest_after(lowest: Option<Seq<u8>>, candidate: Seq<u8>) -> Option<Seq<u8>> {
    match lowest {
        None => Some(candidate),
        Some(known) => if lex_lt(candidate, known) {
            Some(candidate)
        } else {
            Some(known)
        },
    }
}

/// Whether `candidate` loses the tiebreak: a strictly lower proposal is
/// known.
pub open spec fn loses_tiebreak(lowest: Option<Seq<u8>>, candidate: Seq<u8>) -> bool {
    match lowest {
        None => false,
        Some(known) => lex_lt(known, candidate),
    }
}

/// The commitment this node adds when it signs a proposal.
pub open spec fn own_commitment(signature: Seq<u8>, c: ConsensusValue, now: u32) -> BlockCommitmentValue {
    BlockCommitmentValue { signature, validator: c.local_validator, timestamp: now }
}

/// What a node in state `c`, with `chain` stored, does with the proposal
/// `p` when `threshold` commitments seal a block.
pub open spec fn proposal_outcome(
    chain: Seq<BlockValue>,
    c: ConsensusValue,
    p: BlockValue,
    threshold: u32,
) -> ProposalOutcome {
    let bytes = canonical_bytes(p);
    if !may_insert(chain, p.height, p) {
        ProposalOutcome::Rejected(Rejection::WrongHeight)
    } else if loses_tiebreak(c.lowest_block, bytes) {
        ProposalOutcome::Rejected(Rejection::LowerBlockKnown)
    } else if valid_signers(c.validators, bytes, p.attached()).len() >= threshold {
        ProposalOutcome::Committed
    } else if signed_by(p.attached(), c.local_validator) {
        ProposalOutcome::Waiting
    } else if ecdsa_signature(c.local_signing_key, bytes).is_none() {
        ProposalOutcome::SigningFailed
    } else {
        ProposalOutcome::Signed
    }
}

/// The consensus state after the proposal `p` has been handled: a proposal
/// at the right height that does not lose the tiebreak becomes, or stays
/// above, the lowest known one. Nothing else changes.
pub open spec fn consensus_after_proposal(
    chain: Seq<BlockValue>,
    c: ConsensusValue,
    p: BlockValue,
) -> ConsensusValue {
    if may_insert(chain, p.height, p) && !loses_tiebreak(c.lowest_block, canonical_bytes(p)) {
        ConsensusValue { lowest_block: lowest_after(c.lowest_block, canonical_bytes(p)), ..c }
    } else {
        c
    }
}

/// The proposal after it has been handled: with this node's commitment at
/// the end of its list when the node signed it, unchanged otherwise.
pub open spec fn proposal_after(
    outcome: ProposalOutcome,
    c: ConsensusValue,
    p: BlockValue,
    now: u32,
) -> BlockValue {
    if outcome == ProposalOutcome::Signed {
        BlockValue {
            commitments: Some(
                p.attached().push(
                    own_commitment(
                        ecdsa_signature(c.local_signing_key, canonical_bytes(p)).unwrap(),
                        c,
                        now,
                    ),
                ),
            ),
            ..p
        }
    } else {
        p
    }
}

/// The chain after the proposal has been handled: one block longer when the
/// proposal was committed, unchanged otherwise.
pub open spec fn chain_after(outcome: ProposalOutcome, chain: Seq<BlockValue>, p: BlockValue) -> Seq<
    BlockValue,
> {
    if outcome == ProposalOutcome::Committed {
        chain.push(p)
    } else {
        chain
    }
}

/// Records `bytes` as a candidate for the lowest proposal at the current
/// height. Returns whether the candidate survives: `false` when a strictly
/// lower proposal is known, in which case nothing changes.
pub fn track_lowest(lowest: &mut Option<Vec<u8>>, bytes: &Vec<u8>) -> (survives: bool)
    ensures
        survives == !loses_tiebreak(optional_bytes(*old(lowest)), bytes@),
        optional_bytes(*final(lowest)) == if survives {
            lowest_after(optional_bytes(*old(lowest)), bytes@)
        } else {
            optional_bytes(*old(lowest))
        },
{
    let rank: Option<Rank> = match lowest {
        Some(known) => Some(compare_bytes(bytes, known)),
        None => None,
    };
    match rank {
        None => {
            *lowest = Some(bytes.clone());
            true
        },
        Some(Rank::Below) => {
            *lowest = Some(bytes.clone());
            proof {
                crate::bytestring::lemma_lex_lt_asymmetric(bytes@, optional_bytes(*old(lowest)).unwrap());
            }
            true
        },
        Some(Rank::Same) => {
            proof {
                if lex_lt(bytes@, bytes@) {
                    crate::bytestring::lemma_lex_lt_asymmetric(bytes@, bytes@);
                }
            }
            true
        },
        Some(Rank::Above) => {
            proof {
                crate::bytestring::lemma_lex_lt_total(bytes@, optional_bytes(*old(lowest)).unwrap());
            }
            false
        },
    }
}

/// Handles a proposal whose leader signature has been checked.
///
/// A proposal at any height but the next is turned away, and so is one that
/// loses the tiebreak against a lower proposal seen at this height. Of the
/// rest, one that carries commitments from at least `threshold` distinct
/// validators is appended to the chain; one that this node has not signed
/// yet receives this node's commitment, stamped `now`; any other is left to
/// wait for more commitments.
pub fn handle_block_proposal(
    block_store: &mut BlockStore,
    consensus: &mut InMemoryConsensus,
    proposal: &mut Block,
    threshold: u32,
    now: u32,
) -> (outcome: ProposalOutcome)
    requires
        old(block_store).wf(),
    ensures
        final(block_store).wf(),
        outcome == proposal_outcome(old(block_store)@, old(consensus)@, old(proposal)@, threshold),
        final(block_store)@ == chain_after(outcome, old(block_store)@, old(proposal)@),
        final(consensus)@ == consensus_after_proposal(
            old(block_store)@,
            old(consensus)@,
            old(proposal)@,
        ),
        final(proposal)@ == proposal_after(outcome, old(consensus)@, old(proposal)@, now),
        outcome == ProposalOutcome::Signed ==> final(proposal)@.attached().last().signature.len()
            == 64,
{
    let next_height: u32 = block_store.current_block_height();
    if proposal.height != next_height || next_height == u32::MAX {
        return ProposalOutcome::Rejected(Rejection::WrongHeight);
    }
    let bytes: Vec<u8> = proposal.to_bytes();
    if !track_lowest(&mut consensus.lowest_block, &bytes) {
        return ProposalOutcome::Rejected(Rejection::LowerBlockKnown);
    }
    let (count, is_signed): (usize, bool) = match &proposal.commitments {
        Some(commitments) => (
            count_valid_commitments(&consensus.validators, &bytes, commitments),
            names_validator(commitments, &consensus.local_validator),
        ),
        None => {
            let none: Vec<BlockCommitment> = Vec::new();
            assert(none.deep_view() =~= Seq::<BlockCommitmentValue>::empty());
            (
                count_valid_commitments(&consensus.validators, &bytes, &none),
                names_validator(&none, &consensus.local_validator),
            )
        },
    };
    if count >= threshold as usize {
        let sealed: Block = proposal.clone();
        let inserted: bool = block_store.insert_block(next_height, sealed);
        assert(inserted);
        return ProposalOutcome::Committed;
    }
    if is_signed {
        return ProposalOutcome::Waiting;
    }
    let signature: Vec<u8> = match sign_message(&consensus.local_signing_key, &bytes) {
        Some(s) => s,
        None => {
            return ProposalOutcome::SigningFailed;
        },
    };
    let commitment = BlockCommitment {
        signature,
        validator: consensus.local_validator.clone(),
        timestamp: now,
    };
    let mut taken: Option<Vec<BlockCommitment>> = None;
    std::mem::swap(&mut taken, &mut proposal.commitments);
    let mut list: Vec<BlockCommitment> = match taken {
        Some(l) => l,
        None => Vec::new(),
    };
    let ghost before = list.deep_view();
    assert(before =~= old(proposal)@.attached());
    list.push(commitment);
    assert(list.deep_view() =~= before.push(commitment@));
    proposal.commitments = Some(list);
    ProposalOutcome::Signed
}


/// The reply of a peer that has no block at the requested height.
pub open spec fn missing_block_text() -> Seq<char> {
    "[Warning] Requested Block that does not exist"@
}

/// Whether a peer's reply to a request for a block says that it has none.
pub fn is_missing_block(reply: &str) -> (missing: bool)
    ensures
        missing == (reply@ == missing_block_text()),
{
    same_text(reply, "[Warning] Requested Block that does not exist")
}

/// Replays a block fetched from a peer for the height `next_height`.
///
/// The block is appended when `next_height` is the height of the next block
/// and the block carries it; the consensus state is then wiped, since the
/// round it describes has ended. Returns whether the block was appended, in
/// which case its messages are due in the trie. Otherwise nothing changes.
pub fn handle_synchronization_response(
    block_store: &mut BlockStore,
    consensus: &mut InMemoryConsensus,
    block: Block,
    next_height: u32,
) -> (appended: bool)
    requires
        old(block_store).wf(),
    ensures
        final(block_store).wf(),
        appended == may_insert(old(block_store)@, next_height, block@),
        final(block_store)@ == if appended {
            old(block_store)@.push(block@)
        } else {
            old(block_store)@
        },
        final(consensus)@ == if appended {
            old(consensus)@.reinitialized()
        } else {
            old(consensus)@
        },
{
    if block_store.insert_block(next_height, block) {
        consensus.reinitialize();
        true
    } else {
        false
    }
}

/// The payloads of a list of messages, in list order.
pub open spec fn payloads_of(messages: Seq<MessageValue>) -> Seq<Seq<u8>> {
    Seq::new(messages.len(), |i: int| messages[i].data)
}

/// The values of the trie leaves that a block adds: the payload of each of
/// its messages, in the order the block lists them.
pub fn leaf_values(block: &Block) -> (values: Vec<Vec<u8>>)
    ensures
        keys_of(values@) == payloads_of(block@.messages),
{
    let mut values: Vec<Vec<u8>> = Vec::new();
    let mut i: usize = 0;
    while i < block.messages.len()
        invariant
            i <= block.messages.len(),
            values@.len() == i,
            forall|n: int| 0 <= n < i ==> values@[n]@ == block.messages@[n].data@,
        decreases block.messages.len() - i,
    {
        values.push(block.messages[i].data.clone());
        i += 1;
    }
    assert(keys_of(values@) =~= payloads_of(block@.messages));
    values
}

/// The binary path that keys a trie leaf, given the hash of the leaf: the
/// bits of the hash, most significant first. `None` only when the path
/// would not fit the machine's address space.
pub fn leaf_key(leaf_hash: &Vec<u8>) -> (key: Option<Vec<u8>>)
    ensures
        key.is_some() <==> 8 * leaf_hash@.len() <= usize::MAX,
        key.is_some() ==> key.unwrap()@ == crate::bytestring::bits_msb_first(leaf_hash@),
{
    crate::bytestring::expand_bits(leaf_hash)
}


/// The valid signers of a block are validators, so there are finitely many,
/// and no more than the committee has members.
pub proof fn lemma_valid_signers_bounded(
    validators: Seq<Seq<u8>>,
    bytes: Seq<u8>,
    commitments: Seq<BlockCommitmentValue>,
)
    ensures
        valid_signers(validators, bytes, commitments).finite(),
        valid_signers(validators, bytes, commitments).len() <= validators.len(),
{
    let signers = valid_signers(validators, bytes, commitments);
    assert(signers.subset_of(validators.to_set()));
    vstd::set_lib::lemma_len_subset(signers, validators.to_set());
    validators.lemma_cardinality_of_set();
}

/// One more commitment adds its validator to the valid signers when it
/// attests, and changes nothing otherwise.
pub proof fn lemma_valid_signers_push(
    validators: Seq<Seq<u8>>,
    bytes: Seq<u8>,
    commitments: Seq<BlockCommitmentValue>,
    extra: BlockCommitmentValue,
)
    ensures
        valid_signers(validators, bytes, commitments.push(extra)) == match sec1_canonical(
            extra.validator,
        ) {
            Some(v) => if attests(validators, bytes, extra, v) {
                valid_signers(validators, bytes, commitments).insert(v)
            } else {
                valid_signers(validators, bytes, commitments)
            },
            None => valid_signers(validators, bytes, commitments),
        },
{
    let grown = commitments.push(extra);
    assert(grown.take(commitments.len() as int) =~= commitments);
    assert(grown.take(commitments.len() as int + 1) =~= grown);
    lemma_valid_signers_step(validators, bytes, grown, commitments.len() as int);
}

/// A block is committed only with commitments from at least `threshold`
/// distinct validators, and only at the height of the next block.
pub proof fn lemma_committed_means_threshold(
    chain: Seq<BlockValue>,
    c: ConsensusValue,
    p: BlockValue,
    threshold: u32,
)
    requires
        proposal_outcome(chain, c, p, threshold) == ProposalOutcome::Committed,
    ensures
        valid_signers(c.validators, canonical_bytes(p), p.attached()).len() >= threshold,
        p.height == chain.len(),
        chain_after(ProposalOutcome::Committed, chain, p) == chain.push(p),
{
}

/// A proposal that survived the tiebreak still survives it when it comes
/// back, as it does once it carries more commitments.
pub proof fn lemma_survivor_keeps_surviving(lowest: Option<Seq<u8>>, bytes: Seq<u8>)
    requires
        !loses_tiebreak(lowest, bytes),
    ensures
        !loses_tiebreak(lowest_after(lowest, bytes), bytes),
{
    if lex_lt(bytes, bytes) {
        crate::bytestring::lemma_lex_lt_asymmetric(bytes, bytes);
    }
}

/// Threshold enforcement: a proposal one valid commitment short of the
/// threshold is not committed and leaves the chain as it was; the same
/// proposal, come back with one more valid commitment from a validator that
/// had not signed, is committed: the chain grows by one, the block stored
/// at its height is the proposal with all its commitments, the earlier
/// blocks stay, and the proposal itself is handed back unchanged, so that
/// nothing is left to gossip.
pub proof fn lemma_threshold_enforced(
    chain: Seq<BlockValue>,
    c: ConsensusValue,
    p: BlockValue,
    threshold: u32,
    extra: BlockCommitmentValue,
    v: Seq<u8>,
)
    requires
        may_insert(chain, p.height, p),
        !loses_tiebreak(c.lowest_block, canonical_bytes(p)),
        valid_signers(c.validators, canonical_bytes(p), p.attached()).len() + 1 == threshold,
        attests(c.validators, canonical_bytes(p), extra, v),
        !valid_signers(c.validators, canonical_bytes(p), p.attached()).contains(v),
    ensures
        proposal_outcome(chain, c, p, threshold) != ProposalOutcome::Committed,
        chain_after(proposal_outcome(chain, c, p, threshold), chain, p) == chain,
        ({
            let more = BlockValue { commitments: Some(p.attached().push(extra)), ..p };
            let later = consensus_after_proposal(chain, c, p);
            let stored = chain_after(proposal_outcome(chain, later, more, threshold), chain, more);
            &&& proposal_outcome(chain, later, more, threshold) == ProposalOutcome::Committed
            &&& stored.len() == chain.len() + 1
            &&& stored[p.height as int] == more
            &&& forall|h: int| 0 <= h < chain.len() ==> stored[h] == chain[h]
            &&& proposal_after(ProposalOutcome::Committed, later, more, 0) == more
        }),
{
    let bytes = canonical_bytes(p);
    let more = BlockValue { commitments: Some(p.attached().push(extra)), ..p };
    assert(canonical_bytes(more) == bytes);
    lemma_survivor_keeps_surviving(c.lowest_block, bytes);
    lemma_valid_signers_bounded(c.validators, bytes, p.attached());
    lemma_valid_signers_push(c.validators, bytes, p.attached(), extra);
}

/// Split resolution does not depend on the order of arrival: whichever of
/// two proposals is seen first, the same one is the lowest known afterwards.
pub proof fn lemma_lowest_is_order_independent(lowest: Option<Seq<u8>>, a: Seq<u8>, b: Seq<u8>)
    ensures
        lowest_after(lowest_after(lowest, a), b) == lowest_after(lowest_after(lowest, b), a),
{
    crate::bytestring::lemma_lex_lt_total(a, b);
    if lex_lt(a, b) {
        crate::bytestring::lemma_lex_lt_asymmetric(a, b);
    }
    if lex_lt(b, a) {
        crate::bytestring::lemma_lex_lt_asymmetric(b, a);
    }
    if let Some(known) = lowest {
        crate::bytestring::lemma_lex_lt_total(a, known);
        crate::bytestring::lemma_lex_lt_total(b, known);
        if lex_lt(a, known) {
            crate::bytestring::lemma_lex_lt_asymmetric(a, known);
        }
        if lex_lt(b, known) {
            crate::bytestring::lemma_lex_lt_asymmetric(b, known);
        }
        if lex_lt(a, b) && lex_lt(b, known) {
            crate::bytestring::lemma_lex_lt_transitive(a, b, known);
        }
        if lex_lt(b, a) && lex_lt(a, known) {
            crate::bytestring::lemma_lex_lt_transitive(b, a, known);
        }
        if lex_lt(known, a) && lex_lt(a, b) {
            crate::bytestring::lemma_lex_lt_transitive(known, a, b);
        }
        if lex_lt(known, b) && lex_lt(b, a) {
            crate::bytestring::lemma_lex_lt_transitive(known, b, a);
        }
    }
}

/// Of two different proposals at one height, a node that has seen both
/// keeps on with the one whose canonical bytes are lower and turns the
/// other away, whichever came first.
pub proof fn lemma_tiebreak_picks_lower(a: Seq<u8>, b: Seq<u8>)
    requires
        lex_lt(a, b),
    ensures
        lowest_after(lowest_after(None, a), b) == Some(a),
        lowest_after(lowest_after(None, b), a) == Some(a),
        !loses_tiebreak(Some(a), a),
        loses_tiebreak(Some(a), b),
{
    crate::bytestring::lemma_lex_lt_asymmetric(a, b);
    if lex_lt(a, a) {
        crate::bytestring::lemma_lex_lt_asymmetric(a, a);
    }
}


/// The lowest known proposal never lies above a proposal that has been
/// seen, and never rises.
pub proof fn lemma_lowest_bounds(lowest: Option<Seq<u8>>, seen: Seq<u8>)
    ensures
        lowest_after(lowest, seen).is_some(),
        !lex_lt(seen, lowest_after(lowest, seen).unwrap()),
        lowest.is_some() ==> !lex_lt(lowest.unwrap(), lowest_after(lowest, seen).unwrap()),
{
    if lex_lt(seen, seen) {
        crate::bytestring::lemma_lex_lt_asymmetric(seen, seen);
    }
    if let Some(known) = lowest {
        if lex_lt(known, known) {
            crate::bytestring::lemma_lex_lt_asymmetric(known, known);
        }
        if lex_lt(seen, known) {
            crate::bytestring::lemma_lex_lt_asymmetric(seen, known);
        }
    }
}

/// Agreement under a split: two nodes that have both seen the proposals
/// `a` and `b`, in whatever order and whatever they knew before, cannot go
/// on with different ones. If the first does not turn `a` away and the
/// second does not turn `b` away, then `a` and `b` have the same canonical
/// bytes.
pub proof fn lemma_split_agreement(
    first_knew: Option<Seq<u8>>,
    second_knew: Option<Seq<u8>>,
    a: Seq<u8>,
    b: Seq<u8>,
)
    requires
        !loses_tiebreak(lowest_after(lowest_after(first_knew, b), a), a),
        !loses_tiebreak(lowest_after(lowest_after(second_knew, a), b), b),
    ensures
        a == b,
{
    let first = lowest_after(lowest_after(first_knew, b), a);
    let second = lowest_after(lowest_after(second_knew, a), b);
    lemma_lowest_bounds(first_knew, b);
    lemma_lowest_bounds(lowest_after(first_knew, b), a);
    lemma_lowest_bounds(second_knew, a);
    lemma_lowest_bounds(lowest_after(second_knew, a), b);
    // The first node's lowest is `a` itself, and does not lie above `b`.
    crate::bytestring::lemma_lex_lt_total(first.unwrap(), a);
    assert(first.unwrap() == a);
    let mid_first = lowest_after(first_knew, b).unwrap();
    crate::bytestring::lemma_lex_lt_total(mid_first, b);
    crate::bytestring::lemma_lex_lt_total(a, mid_first);
    if lex_lt(a, mid_first) && lex_lt(mid_first, b) {
        crate::bytestring::lemma_lex_lt_transitive(a, mid_first, b);
    }
    assert(a == b || lex_lt(a, b));
    // Likewise the second node's lowest is `b`, and does not lie above `a`.
    crate::bytestring::lemma_lex_lt_total(second.unwrap(), b);
    assert(second.unwrap() == b);
    let mid_second = lowest_after(second_knew, a).unwrap();
    crate::bytestring::lemma_lex_lt_total(mid_second, a);
    crate::bytestring::lemma_lex_lt_total(b, mid_second);
    if lex_lt(b, mid_second) && lex_lt(mid_second, a) {
        crate::bytestring::lemma_lex_lt_transitive(b, mid_second, a);
    }
    assert(a == b || lex_lt(b, a));
    if lex_lt(a, b) {
        crate::bytestring::lemma_lex_lt_asymmetric(a, b);
    }
}


/// Catching up: a fetched block that may be inserted at the next height is
/// stored there and reads back as it came, the earlier blocks stay, the
/// chain stays well formed, and the round that the node was in is wiped:
/// no winner, no flags, no lowest proposal.
pub proof fn lemma_synchronized_block_is_stored(
    chain: Seq<BlockValue>,
    c: ConsensusValue,
    next_height: u32,
    block: BlockValue,
)
    requires
        chain_wf(chain),
        may_insert(chain, next_height, block),
    ensures
        chain_wf(chain.push(block)),
        chain.push(block).len() == next_height + 1,
        chain.push(block)[next_height as int] == block,
        forall|h: int| 0 <= h < next_height ==> chain.push(block)[h] == chain[h],
        c.reinitialized().round_winner.is_none(),
        !c.reinitialized().proposed && !c.reinitialized().committed && !c.reinitialized().signed,
        c.reinitialized().lowest_block.is_none(),
        c.reinitialized().commitments.len() == 0,
        c.reinitialized().validators == c.validators,
{
}

} // verus!

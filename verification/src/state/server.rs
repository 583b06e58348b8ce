//! The chain of sealed blocks, the pool of pending messages and the
//! per-round consensus state.
//!
//! The chain and the pool are held in memory in the order they were filled;
//! a caller that persists them replays its rows through the same methods.

use crate::config::consensus::{
    default_validator_keys, default_validators, validator_key, validator_key_bytes,
    validator_secret, validator_secret_bytes,
};
use crate::consensus::logic::keys_of;
use crate::text::same_text;
use crate::types::{
    clone_messages, optional_bytes, Block, BlockValue, ConsensusCommitment,
    ConsensusCommitmentValue, Message, MessageValue, Timestamp,
};
use vstd::prelude::*;

verus! {

/// The genesis block: height 0, no messages, an empty signature.
pub open spec fn genesis(timestamp: u32) -> BlockValue {
    BlockValue {
        height: 0,
        messages: Seq::empty(),
        signature: Some(Seq::empty()),
        commitments: None,
        timestamp,
    }
}

/// A chain is well formed when the block at every position carries that
/// position as its height, and the number of blocks fits a `u32`.
pub open spec fn chain_wf(chain: Seq<BlockValue>) -> bool {
    &&& chain.len() <= u32::MAX
    &&& forall|h: int| 0 <= h < chain.len() ==> (#[trigger] chain[h]).height == h
}

/// Whether `block` may be stored at `height` on top of `chain`: only at the
/// chain's current height, only if it carries that height, and only while
/// the count of blocks still fits a `u32`.
pub open spec fn may_insert(chain: Seq<BlockValue>, height: u32, block: BlockValue) -> bool {
    &&& height == chain.len()
    &&& block.height == height
    &&& chain.len() < u32::MAX
}

/// An append-only store of blocks, indexed by height.
pub trait SqLiteBlockStore: Sized {
    /// The stored blocks, by height.
    spec fn chain(&self) -> Seq<BlockValue>;

    /// Whether a block is stored at `height`.
    fn block_exists(&self, height: u32) -> (exists: bool)
        requires
            chain_wf(self.chain()),
        ensures
            exists == (height < self.chain().len()),
    ;

    /// Stores the genesis block if the store is empty, and does nothing
    /// otherwise.
    fn trigger_genesis(&mut self, timestamp: Timestamp)
        requires
            chain_wf(old(self).chain()),
        ensures
            chain_wf(final(self).chain()),
            final(self).chain() == if old(self).chain().len() == 0 {
                seq![genesis(timestamp)]
            } else {
                old(self).chain()
            },
    ;

    /// Appends `block` at `height` when [`may_insert`] allows it; otherwise
    /// leaves the store as it is.
    fn insert_block(&mut self, height: u32, block: Block) -> (inserted: bool)
        requires
            chain_wf(old(self).chain()),
        ensures
            chain_wf(final(self).chain()),
            inserted == may_insert(old(self).chain(), height, block@),
            final(self).chain() == if inserted {
                old(self).chain().push(block@)
            } else {
                old(self).chain()
            },
    ;

    /// The block stored at `height`.
    fn get_block_by_height(&self, height: u32) -> (block: Block)
        requires
            chain_wf(self.chain()),
            height < self.chain().len(),
        ensures
            block@ == self.chain()[height as int],
            block.height == height,
    ;

    /// The number of stored blocks, which is also the height of the next
    /// block.
    fn current_block_height(&self) -> (height: u32)
        requires
            chain_wf(self.chain()),
        ensures
            height == self.chain().len(),
    ;
}

/// The chain of sealed blocks.
pub struct BlockStore {
    blocks: Vec<Block>,
}

impl View for BlockStore {
    type V = Seq<BlockValue>;

    closed spec fn view(&self) -> Seq<BlockValue> {
        self.blocks.deep_view()
    }
}

impl BlockStore {
    /// The store holds a well-formed chain.
    pub open spec fn wf(&self) -> bool {
        chain_wf(self@)
    }

    /// An empty store.
    pub fn new() -> (store: BlockStore)
        ensures
            store.wf(),
            store@ == Seq::<BlockValue>::empty(),
    {
        let store = BlockStore { blocks: Vec::new() };
        assert(store@ =~= Seq::<BlockValue>::empty());
        store
    }

    /// The timestamp of the most recent block.
    pub fn last_block_timestamp(&self) -> (timestamp: u32)
        requires
            self.wf(),
            self@.len() > 0,
        ensures
            timestamp == self@.last().timestamp,
    {
        self.blocks[self.blocks.len() - 1].timestamp
    }
}

impl SqLiteBlockStore for BlockStore {
    open spec fn chain(&self) -> Seq<BlockValue> {
        self@
    }

    fn block_exists(&self, height: u32) -> (exists: bool) {
        (height as usize) < self.blocks.len()
    }

    fn trigger_genesis(&mut self, timestamp: Timestamp) {
        if self.blocks.len() == 0 {
            let block = Block {
                timestamp,
                height: 0,
                signature: Some(Vec::new()),
                messages: Vec::new(),
                commitments: None,
            };
            assert(block@ == genesis(timestamp)) by {
                assert(block@.messages =~= Seq::empty());
                assert(block@.signature.unwrap() =~= Seq::empty());
            }
            self.blocks.push(block);
            assert(self@ =~= seq![genesis(timestamp)]);
        }
    }

    fn insert_block(&mut self, height: u32, block: Block) -> (inserted: bool) {
        if height as usize == self.blocks.len() && block.height == height && height < u32::MAX {
            self.blocks.push(block);
            assert(self@ =~= old(self)@.push(block@));
            true
        } else {
            false
        }
    }

    fn get_block_by_height(&self, height: u32) -> (block: Block) {
        self.blocks[height as usize].clone()
    }

    fn current_block_height(&self) -> (height: u32) {
        self.blocks.len() as u32
    }
}

/// A store of pending messages in the order they were submitted.
pub trait SqLiteMessagePool: Sized {
    /// The pending messages, oldest first.
    spec fn pending(&self) -> Seq<MessageValue>;

    /// Adds a message at the end of the pool, unless the pool already holds
    /// as many messages as a `u32` can count.
    fn insert_message(&mut self, message: Message) -> (inserted: bool)
        requires
            old(self).pending().len() <= u32::MAX,
        ensures
            final(self).pending().len() <= u32::MAX,
            inserted == (old(self).pending().len() < u32::MAX),
            final(self).pending() == if inserted {
                old(self).pending().push(message@)
            } else {
                old(self).pending()
            },
    ;

    /// The message at position `index`.
    fn get_message_by_index(&self, index: u32) -> (message: Message)
        requires
            index < self.pending().len(),
        ensures
            message@ == self.pending()[index as int],
    ;

    /// All pending messages, oldest first.
    fn get_all_messages(&self) -> (messages: Vec<Message>)
        ensures
            messages.deep_view() == self.pending(),
    ;

    /// Drops every pending message.
    fn reinitialize(&mut self)
        ensures
            final(self).pending() == Seq::<MessageValue>::empty(),
    ;
}

/// The pool of messages waiting for a block.
pub struct MessagePool {
    messages: Vec<Message>,
}

impl View for MessagePool {
    type V = Seq<MessageValue>;

    closed spec fn view(&self) -> Seq<MessageValue> {
        self.messages.deep_view()
    }
}

impl MessagePool {
    /// The number of pending messages fits a `u32`.
    pub open spec fn wf(&self) -> bool {
        self@.len() <= u32::MAX
    }

    /// An empty pool.
    pub fn new() -> (pool: MessagePool)
        ensures
            pool.wf(),
            pool@ == Seq::<MessageValue>::empty(),
    {
        let pool = MessagePool { messages: Vec::new() };
        assert(pool@ =~= Seq::<MessageValue>::empty());
        pool
    }

    /// The number of pending messages.
    pub fn size(&self) -> (size: u32)
        requires
            self.wf(),
        ensures
            size == self@.len(),
    {
        self.messages.len() as u32
    }
}

impl SqLiteMessagePool for MessagePool {
    open spec fn pending(&self) -> Seq<MessageValue> {
        self@
    }

    fn insert_message(&mut self, message: Message) -> (inserted: bool) {
        if self.messages.len() >= u32::MAX as usize {
            return false;
        }
        self.messages.push(message);
        assert(self@ =~= old(self)@.push(message@));
        true
    }

    fn get_message_by_index(&self, index: u32) -> (message: Message) {
        self.messages[index as usize].clone()
    }

    fn get_all_messages(&self) -> (messages: Vec<Message>) {
        clone_messages(&self.messages)
    }

    fn reinitialize(&mut self) {
        self.messages = Vec::new();
        assert(self@ =~= Seq::<MessageValue>::empty());
    }
}


/// The consensus state of one node in one round.
#[derive(Debug)]
pub struct InMemoryConsensus {
    /// The committee, fixed at boot, each member by its public key.
    pub validators: Vec<Vec<u8>>,
    /// This node's public key.
    pub local_validator: Vec<u8>,
    /// This node's secret key.
    pub local_signing_key: Vec<u8>,
    /// The commitments accepted this round.
    pub commitments: Vec<ConsensusCommitment>,
    /// The elected proposer, once a commitment has been accepted.
    pub round_winner: Option<Vec<u8>>,
    /// This node has proposed a block this round.
    pub proposed: bool,
    /// This node has issued its commitment this round.
    pub committed: bool,
    /// Reserved for the signing step; cleared with the rest of the round.
    pub signed: bool,
    /// Canonical bytes of the lowest proposal seen at the current height.
    pub lowest_block: Option<Vec<u8>>,
}

/// The value of an [`InMemoryConsensus`].
pub struct ConsensusValue {
    pub validators: Seq<Seq<u8>>,
    pub local_validator: Seq<u8>,
    pub local_signing_key: Seq<u8>,
    pub commitments: Seq<ConsensusCommitmentValue>,
    pub round_winner: Option<Seq<u8>>,
    pub proposed: bool,
    pub committed: bool,
    pub signed: bool,
    pub lowest_block: Option<Seq<u8>>,
}

impl ConsensusValue {
    /// The state at the start of a round for the given identity.
    pub open spec fn fresh(
        validators: Seq<Seq<u8>>,
        local_validator: Seq<u8>,
        local_signing_key: Seq<u8>,
    ) -> ConsensusValue {
        ConsensusValue {
            validators,
            local_validator,
            local_signing_key,
            commitments: Seq::empty(),
            round_winner: None,
            proposed: false,
            committed: false,
            signed: false,
            lowest_block: None,
        }
    }

    /// This state with everything a round accumulates wiped; the committee
    /// and the node's identity stay.
    pub open spec fn reinitialized(self) -> ConsensusValue {
        ConsensusValue::fresh(self.validators, self.local_validator, self.local_signing_key)
    }
}

impl View for InMemoryConsensus {
    type V = ConsensusValue;

    open spec fn view(&self) -> ConsensusValue {
        ConsensusValue {
            validators: keys_of(self.validators@),
            local_validator: self.local_validator@,
            local_signing_key: self.local_signing_key@,
            commitments: self.commitments.deep_view(),
            round_winner: crate::types::optional_bytes(self.round_winner),
            proposed: self.proposed,
            committed: self.committed,
            signed: self.signed,
            lowest_block: crate::types::optional_bytes(self.lowest_block),
        }
    }
}

/// The built-in validator that a `LOCAL_VALIDATOR` setting selects: `"0"`,
/// `"1"` and `"2"` the first three, anything else the fourth.
pub open spec fn selected_validator(setting: Seq<char>) -> u8 {
    if setting == "0"@ {
        0
    } else if setting == "1"@ {
        1
    } else if setting == "2"@ {
        2
    } else {
        3
    }
}

impl InMemoryConsensus {
    /// A state without validators, with the first built-in validator's
    /// public key and the second one's secret key.
    pub fn empty() -> (state: InMemoryConsensus)
        ensures
            state@ == ConsensusValue::fresh(
                Seq::empty(),
                validator_key_bytes(0),
                validator_secret_bytes(1),
            ),
    {
        let state = InMemoryConsensus {
            validators: Vec::new(),
            local_validator: validator_key(0),
            local_signing_key: validator_secret(1),
            commitments: Vec::new(),
            round_winner: None,
            proposed: false,
            committed: false,
            signed: false,
            lowest_block: None,
        };
        assert(state@.validators =~= Seq::empty());
        assert(state@.commitments =~= Seq::empty());
        state
    }

    /// The state of a node of the local deployment at the start of a round:
    /// the four built-in validators, and the identity that `setting`
    /// selects.
    pub fn empty_with_default_validators(setting: &str) -> (state: InMemoryConsensus)
        ensures
            state@ == ConsensusValue::fresh(
                default_validator_keys(),
                validator_key_bytes(selected_validator(setting@)),
                validator_secret_bytes(selected_validator(setting@)),
            ),
    {
        let index: u8 = if same_text(setting, "0") {
            0
        } else if same_text(setting, "1") {
            1
        } else if same_text(setting, "2") {
            2
        } else {
            3
        };
        let state = InMemoryConsensus {
            validators: default_validators(),
            local_validator: validator_key(index),
            local_signing_key: validator_secret(index),
            commitments: Vec::new(),
            round_winner: None,
            proposed: false,
            committed: false,
            signed: false,
            lowest_block: None,
        };
        assert(state@.commitments =~= Seq::empty());
        state
    }

    /// Wipes what the round has accumulated: commitments, winner, flags and
    /// the lowest proposal. The committee and the identity stay.
    pub fn reinitialize(&mut self)
        ensures
            final(self)@ == old(self)@.reinitialized(),
    {
        self.commitments = Vec::new();
        self.round_winner = None;
        self.proposed = false;
        self.committed = false;
        self.signed = false;
        self.lowest_block = None;
        assert(self@.commitments =~= Seq::empty());
    }
}


/// In a well-formed chain the block stored at each height carries that
/// height.
pub proof fn lemma_stored_block_has_its_height(chain: Seq<BlockValue>, height: u32)
    requires
        chain_wf(chain),
        height < chain.len(),
    ensures
        chain[height as int].height == height,
{
}

/// Every way of adding to a chain keeps it well formed: the genesis block
/// on an empty chain, and any block that [`may_insert`] admits.
pub proof fn lemma_chain_stays_well_formed(
    chain: Seq<BlockValue>,
    height: u32,
    block: BlockValue,
    timestamp: u32,
)
    requires
        chain_wf(chain),
    ensures
        chain_wf(seq![genesis(timestamp)]),
        may_insert(chain, height, block) ==> chain_wf(chain.push(block)),
{
}


/// Inserting at the next height appends: the count goes up by one, the new
/// block stands at that height and reads back as it was given, and every
/// earlier block stays where it was.
pub proof fn lemma_insert_appends(chain: Seq<BlockValue>, height: u32, block: BlockValue)
    requires
        chain_wf(chain),
        may_insert(chain, height, block),
    ensures
        chain_wf(chain.push(block)),
        chain.push(block).len() == chain.len() + 1,
        height < chain.push(block).len(),
        chain.push(block)[height as int] == block,
        forall|h: int| 0 <= h < height ==> chain.push(block)[h] == chain[h],
{
}

} // verus!

//! The data that travels between nodes: messages, blocks and the two kinds
//! of commitment, each with the mathematical value its contracts speak of.

use crate::bytestring::bytes_eq;
use crate::text::{
    byte_list_text, decimal_text, optional_byte_list_text, push_byte_list, push_decimal,
    push_optional_byte_list,
};
use vstd::prelude::*;
use vstd::std_specs::cmp::PartialEqSpecImpl;
use vstd::string::StringExecFns;

verus! {

pub type GenericSignature = Vec<u8>;

pub type Timestamp = u32;

pub type GenericMessageData = Vec<u8>;

pub type GenericPublicKey = Vec<u8>;

/// An opaque client payload with the unix second at which it was submitted.
#[derive(Debug)]
pub struct Message {
    pub data: GenericMessageData,
    pub timestamp: Timestamp,
}

/// The value of a [`Message`].
pub struct MessageValue {
    pub data: Seq<u8>,
    pub timestamp: u32,
}

/// A validator's signature over the canonical bytes of a candidate block.
#[derive(Debug)]
pub struct BlockCommitment {
    pub signature: GenericSignature,
    pub validator: GenericPublicKey,
    pub timestamp: Timestamp,
}

/// The value of a [`BlockCommitment`].
pub struct BlockCommitmentValue {
    pub signature: Seq<u8>,
    pub validator: Seq<u8>,
    pub timestamp: u32,
}

/// A block of the chain: the leader's signature in `signature`, the
/// attestations of the other validators in `commitments`.
#[derive(Debug)]
pub struct Block {
    pub height: u32,
    pub messages: Vec<Message>,
    pub signature: Option<GenericSignature>,
    pub commitments: Option<Vec<BlockCommitment>>,
    pub timestamp: Timestamp,
}

/// The value of a [`Block`].
pub struct BlockValue {
    pub height: u32,
    pub messages: Seq<MessageValue>,
    pub signature: Option<Seq<u8>>,
    pub commitments: Option<Seq<BlockCommitmentValue>>,
    pub timestamp: u32,
}

/// The committer's announcement for a round: who it is, and the integer that
/// its verifiable random output exposes.
#[derive(Debug)]
pub struct ConsensusCommitment {
    pub validator: GenericPublicKey,
    pub random: u64,
}

/// The value of a [`ConsensusCommitment`].
pub struct ConsensusCommitmentValue {
    pub validator: Seq<u8>,
    pub random: u64,
}

impl DeepView for Message {
    type V = MessageValue;

    open spec fn deep_view(&self) -> MessageValue {
        MessageValue { data: self.data@, timestamp: self.timestamp }
    }
}

impl View for Message {
    type V = MessageValue;

    open spec fn view(&self) -> MessageValue {
        self.deep_view()
    }
}

impl DeepView for BlockCommitment {
    type V = BlockCommitmentValue;

    open spec fn deep_view(&self) -> BlockCommitmentValue {
        BlockCommitmentValue {
            signature: self.signature@,
            validator: self.validator@,
            timestamp: self.timestamp,
        }
    }
}

impl View for BlockCommitment {
    type V = BlockCommitmentValue;

    open spec fn view(&self) -> BlockCommitmentValue {
        self.deep_view()
    }
}

/// The value of an optional byte string.
pub open spec fn optional_bytes(o: Option<Vec<u8>>) -> Option<Seq<u8>> {
    match o {
        Some(v) => Some(v@),
        None => None,
    }
}

impl DeepView for Block {
    type V = BlockValue;

    open spec fn deep_view(&self) -> BlockValue {
        BlockValue {
            height: self.height,
            messages: self.messages.deep_view(),
            signature: optional_bytes(self.signature),
            commitments: self.commitments.deep_view(),
            timestamp: self.timestamp,
        }
    }
}

impl View for Block {
    type V = BlockValue;

    open spec fn view(&self) -> BlockValue {
        self.deep_view()
    }
}

impl DeepView for ConsensusCommitment {
    type V = ConsensusCommitmentValue;

    open spec fn deep_view(&self) -> ConsensusCommitmentValue {
        ConsensusCommitmentValue { validator: self.validator@, random: self.random }
    }
}

impl View for ConsensusCommitment {
    type V = ConsensusCommitmentValue;

    open spec fn view(&self) -> ConsensusCommitmentValue {
        self.deep_view()
    }
}

impl BlockValue {
    /// The attached commitments, none attached counting as an empty list.
    pub open spec fn attached(self) -> Seq<BlockCommitmentValue> {
        match self.commitments {
            Some(c) => c,
            None => Seq::empty(),
        }
    }

    /// This block with the leader's signature and the commitments cleared:
    /// the form that every signature is computed over.
    pub open spec fn stripped(self) -> BlockValue {
        BlockValue {
            height: self.height,
            messages: self.messages,
            signature: None,
            commitments: None,
            timestamp: self.timestamp,
        }
    }
}

impl Clone for Message {
    fn clone(&self) -> (out: Self)
        ensures
            out@ == self@,
    {
        Message { data: self.data.clone(), timestamp: self.timestamp }
    }
}

impl Clone for BlockCommitment {
    fn clone(&self) -> (out: Self)
        ensures
            out@ == self@,
    {
        BlockCommitment {
            signature: self.signature.clone(),
            validator: self.validator.clone(),
            timestamp: self.timestamp,
        }
    }
}

impl Clone for ConsensusCommitment {
    fn clone(&self) -> (out: Self)
        ensures
            out@ == self@,
    {
        ConsensusCommitment { validator: self.validator.clone(), random: self.random }
    }
}

/// Copies a list of messages.
pub fn clone_messages(messages: &Vec<Message>) -> (out: Vec<Message>)
    ensures
        out.deep_view() == messages.deep_view(),
{
    let mut out: Vec<Message> = Vec::new();
    let mut i: usize = 0;
    while i < messages.len()
        invariant
            i <= messages.len(),
            out@.len() == i,
            forall|n: int| 0 <= n < i ==> out@[n]@ == messages@[n]@,
        decreases messages.len() - i,
    {
        out.push(messages[i].clone());
        i += 1;
    }
    assert(out.deep_view() =~= messages.deep_view());
    out
}

/// Copies a list of block commitments.
pub fn clone_commitments(commitments: &Vec<BlockCommitment>) -> (out: Vec<BlockCommitment>)
    ensures
        out.deep_view() == commitments.deep_view(),
{
    let mut out: Vec<BlockCommitment> = Vec::new();
    let mut i: usize = 0;
    while i < commitments.len()
        invariant
            i <= commitments.len(),
            out@.len() == i,
            forall|n: int| 0 <= n < i ==> out@[n]@ == commitments@[n]@,
        decreases commitments.len() - i,
    {
        out.push(commitments[i].clone());
        i += 1;
    }
    assert(out.deep_view() =~= commitments.deep_view());
    out
}

impl Clone for Block {
    fn clone(&self) -> (out: Self)
        ensures
            out@ == self@,
    {
        let signature: Option<Vec<u8>> = match &self.signature {
            Some(s) => Some(s.clone()),
            None => None,
        };
        let commitments: Option<Vec<BlockCommitment>> = match &self.commitments {
            Some(c) => Some(clone_commitments(c)),
            None => None,
        };
        Block {
            height: self.height,
            messages: clone_messages(&self.messages),
            signature,
            commitments,
            timestamp: self.timestamp,
        }
    }
}

impl PartialEq for Message {
    fn eq(&self, other: &Self) -> (same: bool) {
        self.timestamp == other.timestamp && bytes_eq(&self.data, &other.data)
    }
}

impl PartialEqSpecImpl for Message {
    open spec fn obeys_eq_spec() -> bool {
        true
    }

    open spec fn eq_spec(&self, other: &Self) -> bool {
        self@ == other@
    }
}

impl PartialEq for BlockCommitment {
    fn eq(&self, other: &Self) -> (same: bool) {
        self.timestamp == other.timestamp && bytes_eq(&self.signature, &other.signature)
            && bytes_eq(&self.validator, &other.validator)
    }
}

impl PartialEqSpecImpl for BlockCommitment {
    open spec fn obeys_eq_spec() -> bool {
        true
    }

    open spec fn eq_spec(&self, other: &Self) -> bool {
        self@ == other@
    }
}

impl PartialEq for ConsensusCommitment {
    fn eq(&self, other: &Self) -> (same: bool) {
        self.random == other.random && bytes_eq(&self.validator, &other.validator)
    }
}

impl PartialEqSpecImpl for ConsensusCommitment {
    open spec fn obeys_eq_spec() -> bool {
        true
    }

    open spec fn eq_spec(&self, other: &Self) -> bool {
        self@ == other@
    }
}

/// Whether two lists of messages hold equal messages in the same order.
pub fn messages_eq(a: &Vec<Message>, b: &Vec<Message>) -> (same: bool)
    ensures
        same == (a.deep_view() == b.deep_view()),
{
    if a.len() != b.len() {
        assert(a.deep_view().len() != b.deep_view().len());
        return false;
    }
    let mut i: usize = 0;
    while i < a.len()
        invariant
            i <= a.len(),
            a.len() == b.len(),
            forall|n: int| 0 <= n < i ==> a@[n]@ == b@[n]@,
        decreases a.len() - i,
    {
        if !(a[i] == b[i]) {
            assert(a.deep_view()[i as int] != b.deep_view()[i as int]);
            return false;
        }
        i += 1;
    }
    assert(a.deep_view() =~= b.deep_view());
    true
}

/// Whether two lists of block commitments hold equal commitments in the
/// same order.
pub fn commitments_eq(a: &Vec<BlockCommitment>, b: &Vec<BlockCommitment>) -> (same: bool)
    ensures
        same == (a.deep_view() == b.deep_view()),
{
    if a.len() != b.len() {
        assert(a.deep_view().len() != b.deep_view().len());
        return false;
    }
    let mut i: usize = 0;
    while i < a.len()
        invariant
            i <= a.len(),
            a.len() == b.len(),
            forall|n: int| 0 <= n < i ==> a@[n]@ == b@[n]@,
        decreases a.len() - i,
    {
        if !(a[i] == b[i]) {
            assert(a.deep_view()[i as int] != b.deep_view()[i as int]);
            return false;
        }
        i += 1;
    }
    assert(a.deep_view() =~= b.deep_view());
    true
}

impl PartialEq for Block {
    fn eq(&self, other: &Self) -> (same: bool) {
        let signatures: bool = match (&self.signature, &other.signature) {
            (Some(a), Some(b)) => bytes_eq(a, b),
            (None, None) => true,
            _ => false,
        };
        let commitments: bool = match (&self.commitments, &other.commitments) {
            (Some(a), Some(b)) => commitments_eq(a, b),
            (None, None) => true,
            _ => false,
        };
        self.height == other.height && self.timestamp == other.timestamp && signatures
            && commitments && messages_eq(&self.messages, &other.messages)
    }
}

impl PartialEqSpecImpl for Block {
    open spec fn obeys_eq_spec() -> bool {
        true
    }

    open spec fn eq_spec(&self, other: &Self) -> bool {
        self@ == other@
    }
}


/// A message as the node's replies show it, such as
/// `Message { data: [1, 2, 3], timestamp: 0 }`.
pub open spec fn message_text(m: MessageValue) -> Seq<char> {
    "Message { data: "@ + byte_list_text(m.data) + ", timestamp: "@ + decimal_text(
        m.timestamp as nat,
    ) + " }"@
}

/// Messages as the replies show them, separated by a comma and a space.
pub open spec fn messages_joined(ms: Seq<MessageValue>) -> Seq<char>
    decreases ms.len(),
{
    if ms.len() == 0 {
        Seq::empty()
    } else if ms.len() == 1 {
        message_text(ms[0])
    } else {
        messages_joined(ms.drop_last()) + ", "@ + message_text(ms.last())
    }
}

/// A block commitment as the node's replies show it.
pub open spec fn commitment_text(c: BlockCommitmentValue) -> Seq<char> {
    "BlockCommitment { signature: "@ + byte_list_text(c.signature) + ", validator: "@
        + byte_list_text(c.validator) + ", timestamp: "@ + decimal_text(c.timestamp as nat)
        + " }"@
}

/// Commitments as the replies show them, separated by a comma and a space.
pub open spec fn commitments_joined(cs: Seq<BlockCommitmentValue>) -> Seq<char>
    decreases cs.len(),
{
    if cs.len() == 0 {
        Seq::empty()
    } else if cs.len() == 1 {
        commitment_text(cs[0])
    } else {
        commitments_joined(cs.drop_last()) + ", "@ + commitment_text(cs.last())
    }
}

/// An optional list of commitments as the replies show it.
pub open spec fn optional_commitments_text(cs: Option<Seq<BlockCommitmentValue>>) -> Seq<char> {
    match cs {
        None => "None"@,
        Some(list) => "Some(["@ + commitments_joined(list) + "])"@,
    }
}

/// A block as the node's replies show it.
pub open spec fn block_text(b: BlockValue) -> Seq<char> {
    "Block { height: "@ + decimal_text(b.height as nat) + ", messages: ["@ + messages_joined(
        b.messages,
    ) + "], signature: "@ + optional_byte_list_text(b.signature) + ", commitments: "@
        + optional_commitments_text(b.commitments) + ", timestamp: "@ + decimal_text(
        b.timestamp as nat,
    ) + " }"@
}

fn push_message(out: &mut String, m: &Message)
    ensures
        final(out)@ == old(out)@ + message_text(m@),
{
    out.append("Message { data: ");
    push_byte_list(out, &m.data);
    out.append(", timestamp: ");
    push_decimal(out, m.timestamp as u64);
    out.append(" }");
    assert(out@ =~= old(out)@ + message_text(m@));
}

fn push_commitment(out: &mut String, c: &BlockCommitment)
    ensures
        final(out)@ == old(out)@ + commitment_text(c@),
{
    out.append("BlockCommitment { signature: ");
    push_byte_list(out, &c.signature);
    out.append(", validator: ");
    push_byte_list(out, &c.validator);
    out.append(", timestamp: ");
    push_decimal(out, c.timestamp as u64);
    out.append(" }");
    assert(out@ =~= old(out)@ + commitment_text(c@));
}

fn push_messages(out: &mut String, ms: &Vec<Message>)
    ensures
        final(out)@ == old(out)@ + messages_joined(ms.deep_view()),
{
    let ghost all = ms.deep_view();
    let mut i: usize = 0;
    assert(all.take(0) =~= Seq::<MessageValue>::empty());
    assert(out@ =~= old(out)@ + messages_joined(all.take(0)));
    while i < ms.len()
        invariant
            i <= ms.len(),
            all == ms.deep_view(),
            out@ == old(out)@ + messages_joined(all.take(i as int)),
        decreases ms.len() - i,
    {
        let ghost before = all.take(i as int);
        let ghost next = all.take(i + 1);
        assert(next.drop_last() =~= before);
        assert(next.last() == ms@[i as int]@);
        if i > 0 {
            out.append(", ");
        }
        push_message(out, &ms[i]);
        assert(out@ =~= old(out)@ + messages_joined(next));
        i += 1;
    }
    assert(all.take(ms.len() as int) =~= all);
}

fn push_commitments(out: &mut String, cs: &Vec<BlockCommitment>)
    ensures
        final(out)@ == old(out)@ + commitments_joined(cs.deep_view()),
{
    let ghost all = cs.deep_view();
    let mut i: usize = 0;
    assert(all.take(0) =~= Seq::<BlockCommitmentValue>::empty());
    assert(out@ =~= old(out)@ + commitments_joined(all.take(0)));
    while i < cs.len()
        invariant
            i <= cs.len(),
            all == cs.deep_view(),
            out@ == old(out)@ + commitments_joined(all.take(i as int)),
        decreases cs.len() - i,
    {
        let ghost before = all.take(i as int);
        let ghost next = all.take(i + 1);
        assert(next.drop_last() =~= before);
        assert(next.last() == cs@[i as int]@);
        if i > 0 {
            out.append(", ");
        }
        push_commitment(out, &cs[i]);
        assert(out@ =~= old(out)@ + commitments_joined(next));
        i += 1;
    }
    assert(all.take(cs.len() as int) =~= all);
}

impl Message {
    /// This message as the node's replies show it.
    pub fn debug_text(&self) -> (text: String)
        ensures
            text@ == message_text(self@),
    {
        let mut out: String = String::new();
        push_message(&mut out, self);
        assert(out@ =~= message_text(self@));
        out
    }
}

impl BlockCommitment {
    /// This commitment as the node's replies show it.
    pub fn debug_text(&self) -> (text: String)
        ensures
            text@ == commitment_text(self@),
    {
        let mut out: String = String::new();
        push_commitment(&mut out, self);
        assert(out@ =~= commitment_text(self@));
        out
    }
}

impl Block {
    /// This block as the node's replies show it.
    pub fn debug_text(&self) -> (text: String)
        ensures
            text@ == block_text(self@),
    {
        let mut out: String = String::new();
        out.append("Block { height: ");
        push_decimal(&mut out, self.height as u64);
        out.append(", messages: [");
        push_messages(&mut out, &self.messages);
        out.append("], signature: ");
        push_optional_byte_list(&mut out, &self.signature);
        out.append(", commitments: ");
        match &self.commitments {
            None => {
                out.append("None");
            },
            Some(list) => {
                let ghost before = out@;
                out.append("Some([");
                push_commitments(&mut out, list);
                out.append("])");
                assert(out@ =~= before + optional_commitments_text(self@.commitments));
            },
        }
        out.append(", timestamp: ");
        push_decimal(&mut out, self.timestamp as u64);
        out.append(" }");
        assert(out@ =~= block_text(self@));
        out
    }
}

} // verus!

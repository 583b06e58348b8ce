//! The deterministic binary form of messages and blocks.
//!
//! Integers are fixed-width little endian, a list is its length as a `u64`
//! followed by its items, an optional value is one tag byte (0 or 1)
//! followed by the value when present, and a struct is its fields in
//! declaration order with nothing between them. A decoder reads one value
//! from the front of a buffer and leaves what follows it unread.

use crate::types::{
    Block, BlockCommitment, BlockCommitmentValue, BlockValue, Message, MessageValue,
};
use vstd::prelude::*;

verus! {

// ---------------------------------------------------------------------
// What each value encodes to.
// ---------------------------------------------------------------------
/// A `u32`: four bytes, least significant first.
pub open spec fn enc_u32(x: u32) -> Seq<u8> {
    seq![
        (x % 0x100) as u8,
        (x / 0x100 % 0x100) as u8,
        (x / 0x1_0000 % 0x100) as u8,
        (x / 0x100_0000 % 0x100) as u8,
    ]
}

/// A length: eight bytes, least significant first. A length past what eight
/// bytes can count is written modulo two to the 64.
pub open spec fn enc_len(n: nat) -> Seq<u8> {
    seq![
        (n % 0x100) as u8,
        (n / 0x100 % 0x100) as u8,
        (n / 0x1_0000 % 0x100) as u8,
        (n / 0x100_0000 % 0x100) as u8,
        (n / 0x1_0000_0000 % 0x100) as u8,
        (n / 0x100_0000_0000 % 0x100) as u8,
        (n / 0x1_0000_0000_0000 % 0x100) as u8,
        (n / 0x100_0000_0000_0000 % 0x100) as u8,
    ]
}

/// The number that four bytes of `s` from position `at` on spell, least
/// significant first.
pub open spec fn le_u32_at(s: Seq<u8>, at: int) -> int {
    s[at] + 0x100 * s[at + 1] + 0x1_0000 * s[at + 2] + 0x100_0000 * s[at + 3]
}

/// The number that eight bytes of `s` from position `at` on spell, least
/// significant first.
pub open spec fn le_u64_at(s: Seq<u8>, at: int) -> int {
    s[at] + 0x100 * s[at + 1] + 0x1_0000 * s[at + 2] + 0x100_0000 * s[at + 3] + 0x1_0000_0000
        * s[at + 4] + 0x100_0000_0000 * s[at + 5] + 0x1_0000_0000_0000 * s[at + 6]
        + 0x100_0000_0000_0000 * s[at + 7]
}

/// A byte string: its length, then its bytes.
pub open spec fn enc_bytes(b: Seq<u8>) -> Seq<u8> {
    enc_len(b.len()) + b
}

/// A message: its payload, then its timestamp.
pub open spec fn enc_message(m: MessageValue) -> Seq<u8> {
    enc_bytes(m.data) + enc_u32(m.timestamp)
}

/// The messages of a list one after another, without the leading length.
pub open spec fn enc_message_items(ms: Seq<MessageValue>) -> Seq<u8>
    decreases ms.len(),
{
    if ms.len() == 0 {
        Seq::empty()
    } else {
        enc_message_items(ms.drop_last()) + enc_message(ms.last())
    }
}

/// A list of messages: its length, then its messages.
pub open spec fn enc_messages(ms: Seq<MessageValue>) -> Seq<u8> {
    enc_len(ms.len()) + enc_message_items(ms)
}

/// A block commitment: signature, validator key, timestamp.
pub open spec fn enc_commitment(c: BlockCommitmentValue) -> Seq<u8> {
    enc_bytes(c.signature) + enc_bytes(c.validator) + enc_u32(c.timestamp)
}

/// The commitments of a list one after another, without the leading length.
pub open spec fn enc_commitment_items(cs: Seq<BlockCommitmentValue>) -> Seq<u8>
    decreases cs.len(),
{
    if cs.len() == 0 {
        Seq::empty()
    } else {
        enc_commitment_items(cs.drop_last()) + enc_commitment(cs.last())
    }
}

/// A list of commitments: its length, then its commitments.
pub open spec fn enc_commitments(cs: Seq<BlockCommitmentValue>) -> Seq<u8> {
    enc_len(cs.len()) + enc_commitment_items(cs)
}

/// An optional byte string: tag 0, or tag 1 and the byte string.
pub open spec fn enc_optional_bytes(o: Option<Seq<u8>>) -> Seq<u8> {
    match o {
        None => seq![0u8],
        Some(b) => seq![1u8] + enc_bytes(b),
    }
}

/// An optional list of commitments: tag 0, or tag 1 and the list.
pub open spec fn enc_optional_commitments(o: Option<Seq<BlockCommitmentValue>>) -> Seq<u8> {
    match o {
        None => seq![0u8],
        Some(cs) => seq![1u8] + enc_commitments(cs),
    }
}

/// A block: height, messages, leader signature, commitments, timestamp.
pub open spec fn enc_block(b: BlockValue) -> Seq<u8> {
    enc_u32(b.height) + enc_messages(b.messages) + enc_optional_bytes(b.signature)
        + enc_optional_commitments(b.commitments) + enc_u32(b.timestamp)
}

/// The canonical bytes of a block: its encoding with the leader's signature
/// and the commitments cleared. Every signature over a block is a signature
/// over these bytes.
pub open spec fn canonical_bytes(b: BlockValue) -> Seq<u8> {
    enc_block(b.stripped())
}

// ---------------------------------------------------------------------
// What a buffer decodes to, read from position `at`: the value and the
// position after it, or `None` when the buffer holds no such value there.
// ---------------------------------------------------------------------
pub open spec fn dec_u32(s: Seq<u8>, at: int) -> Option<(u32, int)> {
    if 0 <= at && at + 4 <= s.len() {
        Some((le_u32_at(s, at) as u32, at + 4))
    } else {
        None
    }
}

pub open spec fn dec_len(s: Seq<u8>, at: int) -> Option<(nat, int)> {
    if 0 <= at && at + 8 <= s.len() {
        Some((le_u64_at(s, at) as nat, at + 8))
    } else {
        None
    }
}

pub open spec fn dec_bytes(s: Seq<u8>, at: int) -> Option<(Seq<u8>, int)> {
    match dec_len(s, at) {
        Some((n, p)) => if p + n <= s.len() {
            Some((s.subrange(p, p + n), p + n))
        } else {
            None
        },
        None => None,
    }
}

pub open spec fn dec_message(s: Seq<u8>, at: int) -> Option<(MessageValue, int)> {
    match dec_bytes(s, at) {
        Some((data, p)) => match dec_u32(s, p) {
            Some((timestamp, q)) => Some((MessageValue { data, timestamp }, q)),
            None => None,
        },
        None => None,
    }
}

/// `count` messages in a row.
pub open spec fn dec_message_items(s: Seq<u8>, at: int, count: nat) -> Option<
    (Seq<MessageValue>, int),
>
    decreases count,
{
    if count == 0 {
        Some((Seq::empty(), at))
    } else {
        match dec_message_items(s, at, (count - 1) as nat) {
            Some((init, p)) => match dec_message(s, p) {
                Some((m, q)) => Some((init.push(m), q)),
                None => None,
            },
            None => None,
        }
    }
}

pub open spec fn dec_messages(s: Seq<u8>, at: int) -> Option<(Seq<MessageValue>, int)> {
    match dec_len(s, at) {
        Some((n, p)) => dec_message_items(s, p, n),
        None => None,
    }
}

pub open spec fn dec_commitment(s: Seq<u8>, at: int) -> Option<(BlockCommitmentValue, int)> {
    match dec_bytes(s, at) {
        Some((signature, p)) => match dec_bytes(s, p) {
            Some((validator, q)) => match dec_u32(s, q) {
                Some((timestamp, r)) => Some(
                    (BlockCommitmentValue { signature, validator, timestamp }, r),
                ),
                None => None,
            },
            None => None,
        },
        None => None,
    }
}

/// `count` commitments in a row.
pub open spec fn dec_commitment_items(s: Seq<u8>, at: int, count: nat) -> Option<
    (Seq<BlockCommitmentValue>, int),
>
    decreases count,
{
    if count == 0 {
        Some((Seq::empty(), at))
    } else {
        match dec_commitment_items(s, at, (count - 1) as nat) {
            Some((init, p)) => match dec_commitment(s, p) {
                Some((c, q)) => Some((init.push(c), q)),
                None => None,
            },
            None => None,
        }
    }
}

pub open spec fn dec_commitments(s: Seq<u8>, at: int) -> Option<
    (Seq<BlockCommitmentValue>, int),
> {
    match dec_len(s, at) {
        Some((n, p)) => dec_commitment_items(s, p, n),
        None => None,
    }
}

/// The tag byte of an optional value: `Some(true)` for 1, `Some(false)` for
/// 0, `None` for any other byte or at the end of the buffer.
pub open spec fn dec_tag(s: Seq<u8>, at: int) -> Option<bool> {
    if 0 <= at < s.len() && s[at] == 0 {
        Some(false)
    } else if 0 <= at < s.len() && s[at] == 1 {
        Some(true)
    } else {
        None
    }
}

pub open spec fn dec_optional_bytes(s: Seq<u8>, at: int) -> Option<(Option<Seq<u8>>, int)> {
    match dec_tag(s, at) {
        Some(false) => Some((None, at + 1)),
        Some(true) => match dec_bytes(s, at + 1) {
            Some((b, p)) => Some((Some(b), p)),
            None => None,
        },
        None => None,
    }
}

pub open spec fn dec_optional_commitments(s: Seq<u8>, at: int) -> Option<
    (Option<Seq<BlockCommitmentValue>>, int),
> {
    match dec_tag(s, at) {
        Some(false) => Some((None, at + 1)),
        Some(true) => match dec_commitments(s, at + 1) {
            Some((cs, p)) => Some((Some(cs), p)),
            None => None,
        },
        None => None,
    }
}

pub open spec fn dec_block(s: Seq<u8>, at: int) -> Option<(BlockValue, int)> {
    match dec_u32(s, at) {
        Some((height, after_height)) => match dec_messages(s, after_height) {
            Some((messages, after_messages)) => match dec_optional_bytes(s, after_messages) {
                Some((signature, after_signature)) => match dec_optional_commitments(s, after_signature) {
                    Some((commitments, after_commitments)) => match dec_u32(s, after_commitments) {
                        Some((timestamp, after_timestamp)) => Some(
                            (
                                BlockValue { height, messages, signature, commitments, timestamp },
                                after_timestamp,
                            ),
                        ),
                        None => None,
                    },
                    None => None,
                },
                None => None,
            },
            None => None,
        },
        None => None,
    }
}

/// The block that a buffer holds at its front, whatever follows it.
pub open spec fn decoded_block(s: Seq<u8>) -> Option<BlockValue> {
    match dec_block(s, 0) {
        Some((b, _)) => Some(b),
        None => None,
    }
}

/// The message that a buffer holds at its front, whatever follows it.
pub open spec fn decoded_message(s: Seq<u8>) -> Option<MessageValue> {
    match dec_message(s, 0) {
        Some((m, _)) => Some(m),
        None => None,
    }
}

// ---------------------------------------------------------------------
// Lengths that a `u64` can count: true of every value held in memory.
// ---------------------------------------------------------------------
pub open spec fn countable(n: nat) -> bool {
    n <= u64::MAX
}

pub open spec fn message_fits(m: MessageValue) -> bool {
    countable(m.data.len())
}

pub open spec fn messages_fit(ms: Seq<MessageValue>) -> bool {
    &&& countable(ms.len())
    &&& forall|i: int| 0 <= i < ms.len() ==> message_fits(#[trigger] ms[i])
}

pub open spec fn commitment_fits(c: BlockCommitmentValue) -> bool {
    countable(c.signature.len()) && countable(c.validator.len())
}

pub open spec fn commitments_fit(cs: Seq<BlockCommitmentValue>) -> bool {
    &&& countable(cs.len())
    &&& forall|i: int| 0 <= i < cs.len() ==> commitment_fits(#[trigger] cs[i])
}

pub open spec fn block_fits(b: BlockValue) -> bool {
    &&& messages_fit(b.messages)
    &&& match b.signature {
        Some(s) => countable(s.len()),
        None => true,
    }
    &&& match b.commitments {
        Some(cs) => commitments_fit(cs),
        None => true,
    }
}


// ---------------------------------------------------------------------
// Numbers and their bytes.
// ---------------------------------------------------------------------
/// A `u32` is the sum of its four bytes, each at its place value.
pub proof fn lemma_u32_from_parts(x: u32)
    ensures
        x == x % 0x100 + 0x100 * (x / 0x100 % 0x100) + 0x1_0000 * (x / 0x1_0000 % 0x100)
            + 0x100_0000 * (x / 0x100_0000 % 0x100),
{
}

/// Dividing by a place value and then by 256 is dividing by the next place
/// value.
proof fn lemma_next_place(n: int, place: int)
    requires
        0 <= n,
        0 < place,
    ensures
        n / (place * 0x100) == n / place / 0x100,
{
    vstd::arithmetic::div_mod::lemma_div_denominator(n, place, 0x100);
}

/// A number is its lowest byte plus 256 times the rest.
proof fn lemma_lowest_byte(n: int)
    requires
        0 <= n,
    ensures
        n == n % 0x100 + 0x100 * (n / 0x100),
        0 <= n / 0x100,
{
}

/// A number below two to the 64 is the sum of its eight bytes, each at its
/// place value.
pub proof fn lemma_u64_from_parts(n: int)
    requires
        0 <= n <= u64::MAX,
    ensures
        n == n % 0x100 + 0x100 * (n / 0x100 % 0x100) + 0x1_0000 * (n / 0x1_0000 % 0x100)
            + 0x100_0000 * (n / 0x100_0000 % 0x100) + 0x1_0000_0000 * (n / 0x1_0000_0000 % 0x100)
            + 0x100_0000_0000 * (n / 0x100_0000_0000 % 0x100) + 0x1_0000_0000_0000 * (n
            / 0x1_0000_0000_0000 % 0x100) + 0x100_0000_0000_0000 * (n / 0x100_0000_0000_0000
            % 0x100),
{
    let d1 = n / 0x100;
    let d2 = d1 / 0x100;
    let d3 = d2 / 0x100;
    let d4 = d3 / 0x100;
    let d5 = d4 / 0x100;
    let d6 = d5 / 0x100;
    let d7 = d6 / 0x100;
    lemma_next_place(n, 0x100);
    lemma_next_place(n, 0x1_0000);
    lemma_next_place(n, 0x100_0000);
    lemma_next_place(n, 0x1_0000_0000);
    lemma_next_place(n, 0x100_0000_0000);
    lemma_next_place(n, 0x1_0000_0000_0000);
    assert(n / 0x1_0000 == d2);
    assert(n / 0x100_0000 == d3);
    assert(n / 0x1_0000_0000 == d4);
    assert(n / 0x100_0000_0000 == d5);
    assert(n / 0x1_0000_0000_0000 == d6);
    assert(n / 0x100_0000_0000_0000 == d7);
    lemma_lowest_byte(n);
    lemma_lowest_byte(d1);
    lemma_lowest_byte(d2);
    lemma_lowest_byte(d3);
    lemma_lowest_byte(d4);
    lemma_lowest_byte(d5);
    lemma_lowest_byte(d6);
    lemma_lowest_byte(d7);
    assert(d7 < 0x100);
    assert(d7 % 0x100 == d7);
}

/// Four bytes at their place values spell a `u32` whose bytes they are.
pub proof fn lemma_parts_of_u32(b0: u8, b1: u8, b2: u8, b3: u8)
    ensures
        ({
            let x = b0 + 0x100 * b1 + 0x1_0000 * b2 + 0x100_0000 * b3;
            &&& 0 <= x <= u32::MAX
            &&& x % 0x100 == b0
            &&& x / 0x100 % 0x100 == b1
            &&& x / 0x1_0000 % 0x100 == b2
            &&& x / 0x100_0000 % 0x100 == b3
        }),
{
}

/// A byte in front of a number is that number's lowest byte, and dividing
/// by 256 takes it off again.
proof fn lemma_byte_in_front(b: u8, rest: int)
    requires
        0 <= rest,
    ensures
        (b + 0x100 * rest) % 0x100 == b,
        (b + 0x100 * rest) / 0x100 == rest,
        0 <= b + 0x100 * rest,
{
}

/// Eight bytes at their place values spell a number below two to the 64
/// whose bytes they are.
pub proof fn lemma_parts_of_u64(b0: u8, b1: u8, b2: u8, b3: u8, b4: u8, b5: u8, b6: u8, b7: u8)
    ensures
        ({
            let n = b0 + 0x100 * b1 + 0x1_0000 * b2 + 0x100_0000 * b3 + 0x1_0000_0000 * b4
                + 0x100_0000_0000 * b5 + 0x1_0000_0000_0000 * b6 + 0x100_0000_0000_0000 * b7;
            &&& 0 <= n <= u64::MAX
            &&& n % 0x100 == b0
            &&& n / 0x100 % 0x100 == b1
            &&& n / 0x1_0000 % 0x100 == b2
            &&& n / 0x100_0000 % 0x100 == b3
            &&& n / 0x1_0000_0000 % 0x100 == b4
            &&& n / 0x100_0000_0000 % 0x100 == b5
            &&& n / 0x1_0000_0000_0000 % 0x100 == b6
            &&& n / 0x100_0000_0000_0000 % 0x100 == b7
        }),
{
    let t7: int = b7 as int;
    let t6: int = b6 + 0x100 * t7;
    let t5: int = b5 + 0x100 * t6;
    let t4: int = b4 + 0x100 * t5;
    let t3: int = b3 + 0x100 * t4;
    let t2: int = b2 + 0x100 * t3;
    let t1: int = b1 + 0x100 * t2;
    let n: int = b0 + 0x100 * t1;
    assert(n == b0 + 0x100 * b1 + 0x1_0000 * b2 + 0x100_0000 * b3 + 0x1_0000_0000 * b4
        + 0x100_0000_0000 * b5 + 0x1_0000_0000_0000 * b6 + 0x100_0000_0000_0000 * b7);
    lemma_byte_in_front(b7, 0);
    lemma_byte_in_front(b6, t7);
    lemma_byte_in_front(b5, t6);
    lemma_byte_in_front(b4, t5);
    lemma_byte_in_front(b3, t4);
    lemma_byte_in_front(b2, t3);
    lemma_byte_in_front(b1, t2);
    lemma_byte_in_front(b0, t1);
    lemma_next_place(n, 0x100);
    lemma_next_place(n, 0x1_0000);
    lemma_next_place(n, 0x100_0000);
    lemma_next_place(n, 0x1_0000_0000);
    lemma_next_place(n, 0x100_0000_0000);
    lemma_next_place(n, 0x1_0000_0000_0000);
    assert(n / 0x100 == t1);
    assert(n / 0x1_0000 == t2);
    assert(n / 0x100_0000 == t3);
    assert(n / 0x1_0000_0000 == t4);
    assert(n / 0x100_0000_0000 == t5);
    assert(n / 0x1_0000_0000_0000 == t6);
    assert(n / 0x100_0000_0000_0000 == t7);
}

// ---------------------------------------------------------------------
// Decoding undoes encoding.
// ---------------------------------------------------------------------
/// The buffer `s` holds exactly `piece` from position `at` on.
pub open spec fn holds_at(s: Seq<u8>, at: int, piece: Seq<u8>) -> bool {
    &&& 0 <= at
    &&& at + piece.len() <= s.len()
    &&& s.subrange(at, at + piece.len()) == piece
}

/// A buffer holds a concatenation where it holds the first part and, right
/// after it, the second.
pub proof fn lemma_holds_at_split(s: Seq<u8>, at: int, a: Seq<u8>, b: Seq<u8>)
    ensures
        holds_at(s, at, a + b) <==> holds_at(s, at, a) && holds_at(s, at + a.len(), b),
{
    if holds_at(s, at, a + b) {
        assert(s.subrange(at, at + a.len()) =~= (a + b).subrange(0, a.len() as int));
        assert((a + b).subrange(0, a.len() as int) =~= a);
        assert(s.subrange(at + a.len(), at + a.len() + b.len()) =~= (a + b).subrange(
            a.len() as int,
            (a + b).len() as int,
        ));
        assert((a + b).subrange(a.len() as int, (a + b).len() as int) =~= b);
    }
    if holds_at(s, at, a) && holds_at(s, at + a.len(), b) {
        assert(s.subrange(at, at + (a + b).len()) =~= s.subrange(at, at + a.len()) + s.subrange(
            at + a.len(),
            at + a.len() + b.len(),
        ));
    }
}

pub proof fn lemma_enc_u32_len(x: u32)
    ensures
        enc_u32(x).len() == 4,
{
}

pub proof fn lemma_enc_len_len(n: nat)
    ensures
        enc_len(n).len() == 8,
{
}

pub proof fn lemma_dec_u32(s: Seq<u8>, at: int, x: u32)
    requires
        holds_at(s, at, enc_u32(x)),
    ensures
        dec_u32(s, at) == Some((x, at + 4)),
{
    let piece = s.subrange(at, at + 4);
    assert(piece[0] == s[at] && piece[1] == s[at + 1] && piece[2] == s[at + 2] && piece[3] == s[at
        + 3]);
    assert(piece == enc_u32(x));
    lemma_u32_from_parts(x);
}

pub proof fn lemma_dec_len(s: Seq<u8>, at: int, n: nat)
    requires
        countable(n),
        holds_at(s, at, enc_len(n)),
    ensures
        dec_len(s, at) == Some((n, at + 8)),
{
    let piece = s.subrange(at, at + 8);
    assert(piece[0] == s[at] && piece[1] == s[at + 1] && piece[2] == s[at + 2] && piece[3] == s[at
        + 3] && piece[4] == s[at + 4] && piece[5] == s[at + 5] && piece[6] == s[at + 6] && piece[7]
        == s[at + 7]);
    assert(piece == enc_len(n));
    lemma_u64_from_parts(n as int);
}

pub proof fn lemma_dec_bytes(s: Seq<u8>, at: int, b: Seq<u8>)
    requires
        countable(b.len()),
        holds_at(s, at, enc_bytes(b)),
    ensures
        dec_bytes(s, at) == Some((b, at + 8 + b.len())),
{
    lemma_enc_len_len(b.len());
    lemma_holds_at_split(s, at, enc_len(b.len()), b);
    lemma_dec_len(s, at, b.len());
}

pub proof fn lemma_enc_message_len(m: MessageValue)
    ensures
        enc_message(m).len() == 12 + m.data.len(),
{
    lemma_enc_len_len(m.data.len());
    lemma_enc_u32_len(m.timestamp);
}

pub proof fn lemma_dec_message(s: Seq<u8>, at: int, m: MessageValue)
    requires
        message_fits(m),
        holds_at(s, at, enc_message(m)),
    ensures
        dec_message(s, at) == Some((m, at + enc_message(m).len())),
{
    lemma_enc_message_len(m);
    lemma_enc_len_len(m.data.len());
    lemma_holds_at_split(s, at, enc_bytes(m.data), enc_u32(m.timestamp));
    lemma_dec_bytes(s, at, m.data);
    lemma_dec_u32(s, at + 8 + m.data.len(), m.timestamp);
}

pub proof fn lemma_dec_message_items(s: Seq<u8>, at: int, ms: Seq<MessageValue>)
    requires
        messages_fit(ms),
        holds_at(s, at, enc_message_items(ms)),
    ensures
        dec_message_items(s, at, ms.len()) == Some((ms, at + enc_message_items(ms).len())),
    decreases ms.len(),
{
    if ms.len() == 0 {
        assert(ms =~= Seq::empty());
    } else {
        let init = ms.drop_last();
        lemma_holds_at_split(s, at, enc_message_items(init), enc_message(ms.last()));
        lemma_dec_message_items(s, at, init);
        lemma_dec_message(s, at + enc_message_items(init).len(), ms.last());
        assert(init.push(ms.last()) =~= ms);
    }
}

pub proof fn lemma_dec_messages(s: Seq<u8>, at: int, ms: Seq<MessageValue>)
    requires
        messages_fit(ms),
        holds_at(s, at, enc_messages(ms)),
    ensures
        dec_messages(s, at) == Some((ms, at + enc_messages(ms).len())),
{
    lemma_enc_len_len(ms.len());
    lemma_holds_at_split(s, at, enc_len(ms.len()), enc_message_items(ms));
    lemma_dec_len(s, at, ms.len());
    lemma_dec_message_items(s, at + 8, ms);
}

pub proof fn lemma_enc_commitment_len(c: BlockCommitmentValue)
    ensures
        enc_commitment(c).len() == 20 + c.signature.len() + c.validator.len(),
{
    lemma_enc_len_len(c.signature.len());
    lemma_enc_len_len(c.validator.len());
    lemma_enc_u32_len(c.timestamp);
}

pub proof fn lemma_dec_commitment(s: Seq<u8>, at: int, c: BlockCommitmentValue)
    requires
        commitment_fits(c),
        holds_at(s, at, enc_commitment(c)),
    ensures
        dec_commitment(s, at) == Some((c, at + enc_commitment(c).len())),
{
    lemma_enc_commitment_len(c);
    lemma_enc_len_len(c.signature.len());
    lemma_enc_len_len(c.validator.len());
    let a = enc_bytes(c.signature);
    let b = enc_bytes(c.validator);
    lemma_holds_at_split(s, at, a + b, enc_u32(c.timestamp));
    lemma_holds_at_split(s, at, a, b);
    lemma_dec_bytes(s, at, c.signature);
    lemma_dec_bytes(s, at + a.len(), c.validator);
    lemma_dec_u32(s, at + a.len() + b.len(), c.timestamp);
}

pub proof fn lemma_dec_commitment_items(s: Seq<u8>, at: int, cs: Seq<BlockCommitmentValue>)
    requires
        commitments_fit(cs),
        holds_at(s, at, enc_commitment_items(cs)),
    ensures
        dec_commitment_items(s, at, cs.len()) == Some(
            (cs, at + enc_commitment_items(cs).len()),
        ),
    decreases cs.len(),
{
    if cs.len() == 0 {
        assert(cs =~= Seq::empty());
    } else {
        let init = cs.drop_last();
        lemma_holds_at_split(s, at, enc_commitment_items(init), enc_commitment(cs.last()));
        lemma_dec_commitment_items(s, at, init);
        lemma_dec_commitment(s, at + enc_commitment_items(init).len(), cs.last());
        assert(init.push(cs.last()) =~= cs);
    }
}

pub proof fn lemma_dec_commitments(s: Seq<u8>, at: int, cs: Seq<BlockCommitmentValue>)
    requires
        commitments_fit(cs),
        holds_at(s, at, enc_commitments(cs)),
    ensures
        dec_commitments(s, at) == Some((cs, at + enc_commitments(cs).len())),
{
    lemma_enc_len_len(cs.len());
    lemma_holds_at_split(s, at, enc_len(cs.len()), enc_commitment_items(cs));
    lemma_dec_len(s, at, cs.len());
    lemma_dec_commitment_items(s, at + 8, cs);
}

pub proof fn lemma_dec_optional_bytes(s: Seq<u8>, at: int, o: Option<Seq<u8>>)
    requires
        o.is_some() ==> countable(o.unwrap().len()),
        holds_at(s, at, enc_optional_bytes(o)),
    ensures
        dec_optional_bytes(s, at) == Some((o, at + enc_optional_bytes(o).len())),
{
    match o {
        None => {
            assert(s.subrange(at, at + 1)[0] == 0u8);
        },
        Some(b) => {
            lemma_enc_len_len(b.len());
            lemma_holds_at_split(s, at, seq![1u8], enc_bytes(b));
            assert(s.subrange(at, at + 1)[0] == 1u8);
            lemma_dec_bytes(s, at + 1, b);
        },
    }
}

pub proof fn lemma_dec_optional_commitments(
    s: Seq<u8>,
    at: int,
    o: Option<Seq<BlockCommitmentValue>>,
)
    requires
        o.is_some() ==> commitments_fit(o.unwrap()),
        holds_at(s, at, enc_optional_commitments(o)),
    ensures
        dec_optional_commitments(s, at) == Some((o, at + enc_optional_commitments(o).len())),
{
    match o {
        None => {
            assert(s.subrange(at, at + 1)[0] == 0u8);
        },
        Some(cs) => {
            lemma_holds_at_split(s, at, seq![1u8], enc_commitments(cs));
            assert(s.subrange(at, at + 1)[0] == 1u8);
            lemma_dec_commitments(s, at + 1, cs);
        },
    }
}

pub proof fn lemma_dec_block(s: Seq<u8>, at: int, b: BlockValue)
    requires
        block_fits(b),
        holds_at(s, at, enc_block(b)),
    ensures
        dec_block(s, at) == Some((b, at + enc_block(b).len())),
{
    let e1 = enc_u32(b.height);
    let e2 = enc_messages(b.messages);
    let e3 = enc_optional_bytes(b.signature);
    let e4 = enc_optional_commitments(b.commitments);
    let e5 = enc_u32(b.timestamp);
    lemma_enc_u32_len(b.height);
    lemma_enc_u32_len(b.timestamp);
    lemma_holds_at_split(s, at, e1 + e2 + e3 + e4, e5);
    lemma_holds_at_split(s, at, e1 + e2 + e3, e4);
    lemma_holds_at_split(s, at, e1 + e2, e3);
    lemma_holds_at_split(s, at, e1, e2);
    lemma_dec_u32(s, at, b.height);
    lemma_dec_messages(s, at + 4, b.messages);
    lemma_dec_optional_bytes(s, at + 4 + e2.len(), b.signature);
    lemma_dec_optional_commitments(s, at + 4 + e2.len() + e3.len(), b.commitments);
    lemma_dec_u32(s, at + 4 + e2.len() + e3.len() + e4.len(), b.timestamp);
}

/// Decoding the encoding of a block gives the block back, whatever bytes
/// follow the encoding in the buffer.
pub proof fn lemma_block_round_trip(b: BlockValue, trailing: Seq<u8>)
    requires
        block_fits(b),
    ensures
        decoded_block(enc_block(b) + trailing) == Some(b),
{
    let s = enc_block(b) + trailing;
    assert(s.subrange(0, enc_block(b).len() as int) =~= enc_block(b));
    lemma_dec_block(s, 0, b);
}

/// Decoding the encoding of a message gives the message back, whatever
/// bytes follow the encoding in the buffer.
pub proof fn lemma_message_round_trip(m: MessageValue, trailing: Seq<u8>)
    requires
        message_fits(m),
    ensures
        decoded_message(enc_message(m) + trailing) == Some(m),
{
    let s = enc_message(m) + trailing;
    assert(s.subrange(0, enc_message(m).len() as int) =~= enc_message(m));
    lemma_dec_message(s, 0, m);
}

/// The canonical bytes of a block depend on its height, its messages and its
/// timestamp, and on nothing else: neither the leader's signature nor the
/// commitments enter them.
pub proof fn lemma_canonical_bytes_exclude_attestations(a: BlockValue, b: BlockValue)
    requires
        a.height == b.height,
        a.messages == b.messages,
        a.timestamp == b.timestamp,
    ensures
        canonical_bytes(a) == canonical_bytes(b),
{
}

/// Blocks with the same canonical bytes have the same height, the same
/// messages in the same order and the same timestamp.
pub proof fn lemma_canonical_bytes_injective(a: BlockValue, b: BlockValue)
    requires
        block_fits(a),
        block_fits(b),
        canonical_bytes(a) == canonical_bytes(b),
    ensures
        a.height == b.height,
        a.messages == b.messages,
        a.timestamp == b.timestamp,
{
    lemma_block_round_trip(a.stripped(), Seq::empty());
    lemma_block_round_trip(b.stripped(), Seq::empty());
}


// ---------------------------------------------------------------------
// Writing.
// ---------------------------------------------------------------------
fn put_u32(out: &mut Vec<u8>, x: u32)
    ensures
        final(out)@ == old(out)@ + enc_u32(x),
{
    out.push((x % 0x100) as u8);
    out.push((x / 0x100 % 0x100) as u8);
    out.push((x / 0x1_0000 % 0x100) as u8);
    out.push((x / 0x100_0000 % 0x100) as u8);
    assert(out@ =~= old(out)@ + enc_u32(x));
}

fn put_len(out: &mut Vec<u8>, n: usize)
    ensures
        final(out)@ == old(out)@ + enc_len(n as nat),
{
    let n: u64 = n as u64;
    out.push((n % 0x100) as u8);
    out.push((n / 0x100 % 0x100) as u8);
    out.push((n / 0x1_0000 % 0x100) as u8);
    out.push((n / 0x100_0000 % 0x100) as u8);
    out.push((n / 0x1_0000_0000 % 0x100) as u8);
    out.push((n / 0x100_0000_0000 % 0x100) as u8);
    out.push((n / 0x1_0000_0000_0000 % 0x100) as u8);
    out.push((n / 0x100_0000_0000_0000 % 0x100) as u8);
    assert(out@ =~= old(out)@ + enc_len(n as nat));
}

fn put_bytes(out: &mut Vec<u8>, b: &Vec<u8>)
    ensures
        final(out)@ == old(out)@ + enc_bytes(b@),
{
    put_len(out, b.len());
    let ghost start = out@;
    let mut i: usize = 0;
    while i < b.len()
        invariant
            i <= b.len(),
            out@ == start + b@.take(i as int),
        decreases b.len() - i,
    {
        out.push(b[i]);
        assert(b@.take(i + 1) =~= b@.take(i as int).push(b@[i as int]));
        assert(out@ =~= start + b@.take(i + 1));
        i += 1;
    }
    assert(b@.take(b.len() as int) =~= b@);
    assert(out@ =~= old(out)@ + enc_bytes(b@));
}

fn put_message(out: &mut Vec<u8>, m: &Message)
    ensures
        final(out)@ == old(out)@ + enc_message(m@),
{
    put_bytes(out, &m.data);
    put_u32(out, m.timestamp);
    assert(out@ =~= old(out)@ + enc_message(m@));
}

fn put_messages(out: &mut Vec<u8>, ms: &Vec<Message>)
    ensures
        final(out)@ == old(out)@ + enc_messages(ms.deep_view()),
{
    put_len(out, ms.len());
    let ghost start = out@;
    let ghost all = ms.deep_view();
    let mut i: usize = 0;
    while i < ms.len()
        invariant
            i <= ms.len(),
            all == ms.deep_view(),
            out@ == start + enc_message_items(all.take(i as int)),
        decreases ms.len() - i,
    {
        put_message(out, &ms[i]);
        proof {
            let next = all.take(i + 1);
            assert(next.drop_last() =~= all.take(i as int));
            assert(next.last() == ms@[i as int]@);
            assert(out@ =~= start + enc_message_items(next));
        }
        i += 1;
    }
    assert(all.take(ms.len() as int) =~= all);
    assert(out@ =~= old(out)@ + enc_messages(all));
}

fn put_commitment(out: &mut Vec<u8>, c: &BlockCommitment)
    ensures
        final(out)@ == old(out)@ + enc_commitment(c@),
{
    put_bytes(out, &c.signature);
    put_bytes(out, &c.validator);
    put_u32(out, c.timestamp);
    assert(out@ =~= old(out)@ + enc_commitment(c@));
}

fn put_commitments(out: &mut Vec<u8>, cs: &Vec<BlockCommitment>)
    ensures
        final(out)@ == old(out)@ + enc_commitments(cs.deep_view()),
{
    put_len(out, cs.len());
    let ghost start = out@;
    let ghost all = cs.deep_view();
    let mut i: usize = 0;
    while i < cs.len()
        invariant
            i <= cs.len(),
            all == cs.deep_view(),
            out@ == start + enc_commitment_items(all.take(i as int)),
        decreases cs.len() - i,
    {
        put_commitment(out, &cs[i]);
        proof {
            let next = all.take(i + 1);
            assert(next.drop_last() =~= all.take(i as int));
            assert(next.last() == cs@[i as int]@);
            assert(out@ =~= start + enc_commitment_items(next));
        }
        i += 1;
    }
    assert(all.take(cs.len() as int) =~= all);
    assert(out@ =~= old(out)@ + enc_commitments(all));
}

fn put_absent(out: &mut Vec<u8>)
    ensures
        final(out)@ == old(out)@ + seq![0u8],
{
    out.push(0u8);
    assert(out@ =~= old(out)@ + seq![0u8]);
}

fn put_present(out: &mut Vec<u8>)
    ensures
        final(out)@ == old(out)@ + seq![1u8],
{
    out.push(1u8);
    assert(out@ =~= old(out)@ + seq![1u8]);
}

impl Message {
    /// The encoding of this message.
    pub fn serialize(&self) -> (bytes: Vec<u8>)
        ensures
            bytes@ == enc_message(self@),
    {
        let mut out: Vec<u8> = Vec::new();
        put_message(&mut out, self);
        assert(out@ =~= enc_message(self@));
        out
    }

    /// Reads the message at the front of `bytes`; `None` when the buffer
    /// does not begin with a message.
    pub fn deserialize(bytes: &Vec<u8>) -> (message: Option<Message>)
        ensures
            message.deep_view() == decoded_message(bytes@),
    {
        match take_message(bytes, 0) {
            Some((m, _)) => Some(m),
            None => None,
        }
    }
}

impl Block {
    /// The canonical bytes of this block: the preimage of the leader's
    /// signature and of every commitment.
    pub fn to_bytes(&self) -> (bytes: Vec<u8>)
        ensures
            bytes@ == canonical_bytes(self@),
    {
        let mut out: Vec<u8> = Vec::new();
        put_u32(&mut out, self.height);
        put_messages(&mut out, &self.messages);
        put_absent(&mut out);
        put_absent(&mut out);
        put_u32(&mut out, self.timestamp);
        assert(out@ =~= canonical_bytes(self@));
        out
    }

    /// The encoding of this block, attestations included.
    pub fn serialize(&self) -> (bytes: Vec<u8>)
        ensures
            bytes@ == enc_block(self@),
    {
        let mut out: Vec<u8> = Vec::new();
        put_u32(&mut out, self.height);
        put_messages(&mut out, &self.messages);
        match &self.signature {
            None => {
                put_absent(&mut out);
            },
            Some(signature) => {
                put_present(&mut out);
                put_bytes(&mut out, signature);
            },
        }
        assert(out@ =~= enc_u32(self.height) + enc_messages(self@.messages) + enc_optional_bytes(
            self@.signature,
        ));
        match &self.commitments {
            None => {
                put_absent(&mut out);
            },
            Some(commitments) => {
                put_present(&mut out);
                put_commitments(&mut out, commitments);
            },
        }
        assert(out@ =~= enc_u32(self.height) + enc_messages(self@.messages) + enc_optional_bytes(
            self@.signature,
        ) + enc_optional_commitments(self@.commitments));
        put_u32(&mut out, self.timestamp);
        out
    }

    /// Reads the block at the front of `bytes`; `None` when the buffer does
    /// not begin with a block.
    pub fn deserialize(bytes: &Vec<u8>) -> (block: Option<Block>)
        ensures
            block.deep_view() == decoded_block(bytes@),
    {
        match take_block(bytes, 0) {
            Some((b, _)) => Some(b),
            None => None,
        }
    }
}

// ---------------------------------------------------------------------
// Reading.
// ---------------------------------------------------------------------
fn take_u32(s: &Vec<u8>, at: usize) -> (r: Option<(u32, usize)>)
    ensures
        match r {
            Some((x, p)) => dec_u32(s@, at as int) == Some((x, p as int)),
            None => dec_u32(s@, at as int).is_none(),
        },
{
    if at > s.len() || s.len() - at < 4 {
        return None;
    }
    proof {
        lemma_parts_of_u32(s@[at as int], s@[at + 1], s@[at + 2], s@[at + 3]);
    }
    let x: u32 = s[at] as u32 + 0x100 * (s[at + 1] as u32) + 0x1_0000 * (s[at + 2] as u32)
        + 0x100_0000 * (s[at + 3] as u32);
    Some((x, at + 4))
}

fn take_len(s: &Vec<u8>, at: usize) -> (r: Option<(u64, usize)>)
    ensures
        match r {
            Some((n, p)) => dec_len(s@, at as int) == Some((n as nat, p as int)),
            None => dec_len(s@, at as int).is_none(),
        },
{
    if at > s.len() || s.len() - at < 8 {
        return None;
    }
    proof {
        lemma_parts_of_u64(
            s@[at as int],
            s@[at + 1],
            s@[at + 2],
            s@[at + 3],
            s@[at + 4],
            s@[at + 5],
            s@[at + 6],
            s@[at + 7],
        );
    }
    let n: u64 = s[at] as u64 + 0x100 * (s[at + 1] as u64) + 0x1_0000 * (s[at + 2] as u64)
        + 0x100_0000 * (s[at + 3] as u64) + 0x1_0000_0000 * (s[at + 4] as u64) + 0x100_0000_0000
        * (s[at + 5] as u64) + 0x1_0000_0000_0000 * (s[at + 6] as u64) + 0x100_0000_0000_0000 * (
    s[at + 7] as u64);
    Some((n, at + 8))
}

fn take_bytes(s: &Vec<u8>, at: usize) -> (r: Option<(Vec<u8>, usize)>)
    ensures
        match r {
            Some((b, p)) => dec_bytes(s@, at as int) == Some((b@, p as int)),
            None => dec_bytes(s@, at as int).is_none(),
        },
{
    let (n, p) = match take_len(s, at) {
        Some(pair) => pair,
        None => {
            return None;
        },
    };
    if n > (s.len() - p) as u64 {
        return None;
    }
    let end: usize = p + n as usize;
    let mut out: Vec<u8> = Vec::new();
    let mut i: usize = p;
    while i < end
        invariant
            p <= i <= end <= s.len(),
            out@ == s@.subrange(p as int, i as int),
        decreases end - i,
    {
        out.push(s[i]);
        assert(out@ =~= s@.subrange(p as int, i + 1));
        i += 1;
    }
    Some((out, end))
}

fn take_message(s: &Vec<u8>, at: usize) -> (r: Option<(Message, usize)>)
    ensures
        match r {
            Some((m, p)) => dec_message(s@, at as int) == Some((m@, p as int)),
            None => dec_message(s@, at as int).is_none(),
        },
{
    let (data, p) = match take_bytes(s, at) {
        Some(pair) => pair,
        None => {
            return None;
        },
    };
    let (timestamp, q) = match take_u32(s, p) {
        Some(pair) => pair,
        None => {
            return None;
        },
    };
    Some((Message { data, timestamp }, q))
}

/// Once an item fails to decode, no longer run of items decodes.
proof fn lemma_message_items_stay_failed(s: Seq<u8>, at: int, done: nat, count: nat)
    requires
        done < count,
        match dec_message_items(s, at, done) {
            Some((_, p)) => dec_message(s, p).is_none(),
            None => true,
        },
    ensures
        dec_message_items(s, at, count).is_none(),
    decreases count,
{
    if count - 1 > done {
        lemma_message_items_stay_failed(s, at, done, (count - 1) as nat);
    }
}

fn take_messages(s: &Vec<u8>, at: usize) -> (r: Option<(Vec<Message>, usize)>)
    ensures
        match r {
            Some((ms, p)) => dec_messages(s@, at as int) == Some((ms.deep_view(), p as int)),
            None => dec_messages(s@, at as int).is_none(),
        },
{
    let (count, start) = match take_len(s, at) {
        Some(pair) => pair,
        None => {
            return None;
        },
    };
    let mut out: Vec<Message> = Vec::new();
    let mut pos: usize = start;
    let mut i: u64 = 0;
    assert(out.deep_view() =~= Seq::empty());
    while i < count
        invariant
            i <= count,
            dec_len(s@, at as int) == Some((count as nat, start as int)),
            dec_message_items(s@, start as int, i as nat) == Some((out.deep_view(), pos as int)),
        decreases count - i,
    {
        match take_message(s, pos) {
            Some((m, next)) => {
                let ghost before = out.deep_view();
                out.push(m);
                assert(out.deep_view() =~= before.push(m@));
                pos = next;
            },
            None => {
                proof {
                    lemma_message_items_stay_failed(s@, start as int, i as nat, count as nat);
                }
                return None;
            },
        }
        i += 1;
    }
    Some((out, pos))
}

fn take_commitment(s: &Vec<u8>, at: usize) -> (r: Option<(BlockCommitment, usize)>)
    ensures
        match r {
            Some((c, p)) => dec_commitment(s@, at as int) == Some((c@, p as int)),
            None => dec_commitment(s@, at as int).is_none(),
        },
{
    let (signature, p) = match take_bytes(s, at) {
        Some(pair) => pair,
        None => {
            return None;
        },
    };
    let (validator, q) = match take_bytes(s, p) {
        Some(pair) => pair,
        None => {
            return None;
        },
    };
    let (timestamp, r) = match take_u32(s, q) {
        Some(pair) => pair,
        None => {
            return None;
        },
    };
    Some((BlockCommitment { signature, validator, timestamp }, r))
}

/// Once an item fails to decode, no longer run of items decodes.
proof fn lemma_commitment_items_stay_failed(s: Seq<u8>, at: int, done: nat, count: nat)
    requires
        done < count,
        match dec_commitment_items(s, at, done) {
            Some((_, p)) => dec_commitment(s, p).is_none(),
            None => true,
        },
    ensures
        dec_commitment_items(s, at, count).is_none(),
    decreases count,
{
    if count - 1 > done {
        lemma_commitment_items_stay_failed(s, at, done, (count - 1) as nat);
    }
}

fn take_commitments(s: &Vec<u8>, at: usize) -> (r: Option<(Vec<BlockCommitment>, usize)>)
    ensures
        match r {
            Some((cs, p)) => dec_commitments(s@, at as int) == Some((cs.deep_view(), p as int)),
            None => dec_commitments(s@, at as int).is_none(),
        },
{
    let (count, start) = match take_len(s, at) {
        Some(pair) => pair,
        None => {
            return None;
        },
    };
    let mut out: Vec<BlockCommitment> = Vec::new();
    let mut pos: usize = start;
    let mut i: u64 = 0;
    assert(out.deep_view() =~= Seq::empty());
    while i < count
        invariant
            i <= count,
            dec_len(s@, at as int) == Some((count as nat, start as int)),
            dec_commitment_items(s@, start as int, i as nat) == Some(
                (out.deep_view(), pos as int),
            ),
        decreases count - i,
    {
        match take_commitment(s, pos) {
            Some((c, next)) => {
                let ghost before = out.deep_view();
                out.push(c);
                assert(out.deep_view() =~= before.push(c@));
                pos = next;
            },
            None => {
                proof {
                    lemma_commitment_items_stay_failed(s@, start as int, i as nat, count as nat);
                }
                return None;
            },
        }
        i += 1;
    }
    Some((out, pos))
}

fn take_tag(s: &Vec<u8>, at: usize) -> (r: Option<bool>)
    ensures
        r == dec_tag(s@, at as int),
        r.is_some() ==> at < s.len(),
{
    if at >= s.len() {
        None
    } else if s[at] == 0 {
        Some(false)
    } else if s[at] == 1 {
        Some(true)
    } else {
        None
    }
}

fn take_block(s: &Vec<u8>, at: usize) -> (r: Option<(Block, usize)>)
    ensures
        match r {
            Some((b, p)) => dec_block(s@, at as int) == Some((b@, p as int)),
            None => dec_block(s@, at as int).is_none(),
        },
{
    let (height, after_height) = match take_u32(s, at) {
        Some(pair) => pair,
        None => {
            return None;
        },
    };
    let (messages, after_messages) = match take_messages(s, after_height) {
        Some(pair) => pair,
        None => {
            return None;
        },
    };
    let (signature, after_signature): (Option<Vec<u8>>, usize) = match take_tag(s, after_messages) {
        None => {
            return None;
        },
        Some(false) => (None, after_messages + 1),
        Some(true) => match take_bytes(s, after_messages + 1) {
            Some((b, p)) => (Some(b), p),
            None => {
                return None;
            },
        },
    };
    let (commitments, after_commitments): (Option<Vec<BlockCommitment>>, usize) = match take_tag(s, after_signature) {
        None => {
            return None;
        },
        Some(false) => (None, after_signature + 1),
        Some(true) => match take_commitments(s, after_signature + 1) {
            Some((cs, p)) => (Some(cs), p),
            None => {
                return None;
            },
        },
    };
    let (timestamp, after_timestamp) = match take_u32(s, after_commitments) {
        Some(pair) => pair,
        None => {
            return None;
        },
    };
    Some((Block { height, messages, signature, commitments, timestamp }, after_timestamp))
}

/// Every block held in memory has lengths that a `u64` can count.
pub proof fn lemma_block_in_memory_fits(b: Block)
    ensures
        block_fits(b@),
{
    let ms = b@.messages;
    assert(ms.len() == b.messages.len());
    assert forall|i: int| 0 <= i < ms.len() implies message_fits(#[trigger] ms[i]) by {
        assert(ms[i].data.len() == b.messages@[i].data.len());
    }
    if let Some(cs) = b.commitments {
        let vs = cs.deep_view();
        assert(vs.len() == cs.len());
        assert forall|i: int| 0 <= i < vs.len() implies commitment_fits(#[trigger] vs[i]) by {
            assert(vs[i].signature.len() == cs@[i].signature.len());
            assert(vs[i].validator.len() == cs@[i].validator.len());
        }
    }
    if let Some(sig) = b.signature {
        assert(b@.signature.unwrap().len() == sig.len());
    }
}


/// Round trip: what [`Block::serialize`] writes for a block,
/// [`Block::deserialize`] reads back as that block.
pub proof fn lemma_serialized_block_reads_back(b: Block)
    ensures
        decoded_block(enc_block(b@)) == Some(b@),
{
    lemma_block_in_memory_fits(b);
    lemma_block_round_trip(b@, Seq::empty());
    assert(enc_block(b@) + Seq::<u8>::empty() =~= enc_block(b@));
}


// ---------------------------------------------------------------------
// Encoding undoes decoding: a buffer decodes to a value only where it
// holds that value's encoding.
// ---------------------------------------------------------------------
pub proof fn lemma_dec_u32_exact(s: Seq<u8>, at: int)
    requires
        dec_u32(s, at).is_some(),
    ensures
        holds_at(s, at, enc_u32(dec_u32(s, at).unwrap().0)),
        dec_u32(s, at).unwrap().1 == at + 4,
{
    let piece = s.subrange(at, at + 4);
    lemma_parts_of_u32(s[at], s[at + 1], s[at + 2], s[at + 3]);
    assert(piece =~= enc_u32(le_u32_at(s, at) as u32));
}

pub proof fn lemma_dec_len_exact(s: Seq<u8>, at: int)
    requires
        dec_len(s, at).is_some(),
    ensures
        countable(dec_len(s, at).unwrap().0),
        holds_at(s, at, enc_len(dec_len(s, at).unwrap().0)),
        dec_len(s, at).unwrap().1 == at + 8,
{
    let piece = s.subrange(at, at + 8);
    lemma_parts_of_u64(
        s[at],
        s[at + 1],
        s[at + 2],
        s[at + 3],
        s[at + 4],
        s[at + 5],
        s[at + 6],
        s[at + 7],
    );
    assert(piece =~= enc_len(le_u64_at(s, at) as nat));
}

pub proof fn lemma_dec_bytes_exact(s: Seq<u8>, at: int)
    requires
        dec_bytes(s, at).is_some(),
    ensures
        countable(dec_bytes(s, at).unwrap().0.len()),
        holds_at(s, at, enc_bytes(dec_bytes(s, at).unwrap().0)),
        dec_bytes(s, at).unwrap().1 == at + enc_bytes(dec_bytes(s, at).unwrap().0).len(),
{
    lemma_dec_len_exact(s, at);
    let (b, _) = dec_bytes(s, at).unwrap();
    lemma_enc_len_len(b.len());
    assert(holds_at(s, at + 8, b));
    lemma_holds_at_split(s, at, enc_len(b.len()), b);
}

pub proof fn lemma_dec_message_exact(s: Seq<u8>, at: int)
    requires
        dec_message(s, at).is_some(),
    ensures
        message_fits(dec_message(s, at).unwrap().0),
        holds_at(s, at, enc_message(dec_message(s, at).unwrap().0)),
        dec_message(s, at).unwrap().1 == at + enc_message(dec_message(s, at).unwrap().0).len(),
{
    lemma_dec_bytes_exact(s, at);
    let (data, p) = dec_bytes(s, at).unwrap();
    lemma_dec_u32_exact(s, p);
    let (timestamp, _) = dec_u32(s, p).unwrap();
    lemma_enc_u32_len(timestamp);
    lemma_holds_at_split(s, at, enc_bytes(data), enc_u32(timestamp));
}

pub proof fn lemma_dec_message_items_exact(s: Seq<u8>, at: int, count: nat)
    requires
        0 <= at <= s.len(),
        dec_message_items(s, at, count).is_some(),
    ensures
        dec_message_items(s, at, count).unwrap().0.len() == count,
        forall|i: int|
            0 <= i < count ==> message_fits(
                #[trigger] dec_message_items(s, at, count).unwrap().0[i],
            ),
        holds_at(s, at, enc_message_items(dec_message_items(s, at, count).unwrap().0)),
        dec_message_items(s, at, count).unwrap().1 == at + enc_message_items(
            dec_message_items(s, at, count).unwrap().0,
        ).len(),
    decreases count,
{
    if count == 0 {
        assert(s.subrange(at, at) =~= Seq::<u8>::empty());
    } else {
        lemma_dec_message_items_exact(s, at, (count - 1) as nat);
        let (init, p) = dec_message_items(s, at, (count - 1) as nat).unwrap();
        lemma_dec_message_exact(s, p);
        let (m, _) = dec_message(s, p).unwrap();
        let all = init.push(m);
        assert(all.drop_last() =~= init);
        lemma_holds_at_split(s, at, enc_message_items(init), enc_message(m));
    }
}

pub proof fn lemma_dec_commitment_exact(s: Seq<u8>, at: int)
    requires
        dec_commitment(s, at).is_some(),
    ensures
        commitment_fits(dec_commitment(s, at).unwrap().0),
        holds_at(s, at, enc_commitment(dec_commitment(s, at).unwrap().0)),
        dec_commitment(s, at).unwrap().1 == at + enc_commitment(
            dec_commitment(s, at).unwrap().0,
        ).len(),
{
    lemma_dec_bytes_exact(s, at);
    let (signature, p) = dec_bytes(s, at).unwrap();
    lemma_dec_bytes_exact(s, p);
    let (validator, q) = dec_bytes(s, p).unwrap();
    lemma_dec_u32_exact(s, q);
    let (timestamp, _) = dec_u32(s, q).unwrap();
    lemma_enc_u32_len(timestamp);
    lemma_holds_at_split(s, at, enc_bytes(signature), enc_bytes(validator));
    lemma_holds_at_split(
        s,
        at,
        enc_bytes(signature) + enc_bytes(validator),
        enc_u32(timestamp),
    );
}

pub proof fn lemma_dec_commitment_items_exact(s: Seq<u8>, at: int, count: nat)
    requires
        0 <= at <= s.len(),
        dec_commitment_items(s, at, count).is_some(),
    ensures
        dec_commitment_items(s, at, count).unwrap().0.len() == count,
        forall|i: int|
            0 <= i < count ==> commitment_fits(
                #[trigger] dec_commitment_items(s, at, count).unwrap().0[i],
            ),
        holds_at(s, at, enc_commitment_items(dec_commitment_items(s, at, count).unwrap().0)),
        dec_commitment_items(s, at, count).unwrap().1 == at + enc_commitment_items(
            dec_commitment_items(s, at, count).unwrap().0,
        ).len(),
    decreases count,
{
    if count == 0 {
        assert(s.subrange(at, at) =~= Seq::<u8>::empty());
    } else {
        lemma_dec_commitment_items_exact(s, at, (count - 1) as nat);
        let (init, p) = dec_commitment_items(s, at, (count - 1) as nat).unwrap();
        lemma_dec_commitment_exact(s, p);
        let (c, _) = dec_commitment(s, p).unwrap();
        let all = init.push(c);
        assert(all.drop_last() =~= init);
        lemma_holds_at_split(s, at, enc_commitment_items(init), enc_commitment(c));
    }
}


pub proof fn lemma_dec_messages_exact(s: Seq<u8>, at: int)
    requires
        dec_messages(s, at).is_some(),
    ensures
        messages_fit(dec_messages(s, at).unwrap().0),
        holds_at(s, at, enc_messages(dec_messages(s, at).unwrap().0)),
        dec_messages(s, at).unwrap().1 == at + enc_messages(dec_messages(s, at).unwrap().0).len(),
{
    lemma_dec_len_exact(s, at);
    let (n, p) = dec_len(s, at).unwrap();
    lemma_dec_message_items_exact(s, p, n);
    let (ms, _) = dec_message_items(s, p, n).unwrap();
    lemma_enc_len_len(n);
    lemma_holds_at_split(s, at, enc_len(ms.len()), enc_message_items(ms));
}

pub proof fn lemma_dec_commitments_exact(s: Seq<u8>, at: int)
    requires
        dec_commitments(s, at).is_some(),
    ensures
        commitments_fit(dec_commitments(s, at).unwrap().0),
        holds_at(s, at, enc_commitments(dec_commitments(s, at).unwrap().0)),
        dec_commitments(s, at).unwrap().1 == at + enc_commitments(
            dec_commitments(s, at).unwrap().0,
        ).len(),
{
    lemma_dec_len_exact(s, at);
    let (n, p) = dec_len(s, at).unwrap();
    lemma_dec_commitment_items_exact(s, p, n);
    let (cs, _) = dec_commitment_items(s, p, n).unwrap();
    lemma_enc_len_len(n);
    lemma_holds_at_split(s, at, enc_len(cs.len()), enc_commitment_items(cs));
}

pub proof fn lemma_dec_optional_bytes_exact(s: Seq<u8>, at: int)
    requires
        dec_optional_bytes(s, at).is_some(),
    ensures
        dec_optional_bytes(s, at).unwrap().0.is_some() ==> countable(
            dec_optional_bytes(s, at).unwrap().0.unwrap().len(),
        ),
        holds_at(s, at, enc_optional_bytes(dec_optional_bytes(s, at).unwrap().0)),
        dec_optional_bytes(s, at).unwrap().1 == at + enc_optional_bytes(
            dec_optional_bytes(s, at).unwrap().0,
        ).len(),
{
    match dec_tag(s, at) {
        Some(false) => {
            assert(s.subrange(at, at + 1) =~= seq![0u8]);
        },
        Some(true) => {
            lemma_dec_bytes_exact(s, at + 1);
            let (b, _) = dec_bytes(s, at + 1).unwrap();
            assert(s.subrange(at, at + 1) =~= seq![1u8]);
            lemma_holds_at_split(s, at, seq![1u8], enc_bytes(b));
        },
        None => {},
    }
}

pub proof fn lemma_dec_optional_commitments_exact(s: Seq<u8>, at: int)
    requires
        dec_optional_commitments(s, at).is_some(),
    ensures
        dec_optional_commitments(s, at).unwrap().0.is_some() ==> commitments_fit(
            dec_optional_commitments(s, at).unwrap().0.unwrap(),
        ),
        holds_at(s, at, enc_optional_commitments(dec_optional_commitments(s, at).unwrap().0)),
        dec_optional_commitments(s, at).unwrap().1 == at + enc_optional_commitments(
            dec_optional_commitments(s, at).unwrap().0,
        ).len(),
{
    match dec_tag(s, at) {
        Some(false) => {
            assert(s.subrange(at, at + 1) =~= seq![0u8]);
        },
        Some(true) => {
            lemma_dec_commitments_exact(s, at + 1);
            let (cs, _) = dec_commitments(s, at + 1).unwrap();
            assert(s.subrange(at, at + 1) =~= seq![1u8]);
            lemma_holds_at_split(s, at, seq![1u8], enc_commitments(cs));
        },
        None => {},
    }
}

pub proof fn lemma_dec_block_exact(s: Seq<u8>, at: int)
    requires
        dec_block(s, at).is_some(),
    ensures
        block_fits(dec_block(s, at).unwrap().0),
        holds_at(s, at, enc_block(dec_block(s, at).unwrap().0)),
        dec_block(s, at).unwrap().1 == at + enc_block(dec_block(s, at).unwrap().0).len(),
{
    lemma_dec_u32_exact(s, at);
    let (height, q1) = dec_u32(s, at).unwrap();
    lemma_dec_messages_exact(s, q1);
    let (messages, q2) = dec_messages(s, q1).unwrap();
    lemma_dec_optional_bytes_exact(s, q2);
    let (signature, q3) = dec_optional_bytes(s, q2).unwrap();
    lemma_dec_optional_commitments_exact(s, q3);
    let (commitments, q4) = dec_optional_commitments(s, q3).unwrap();
    lemma_dec_u32_exact(s, q4);
    let (timestamp, _) = dec_u32(s, q4).unwrap();
    let e1 = enc_u32(height);
    let e2 = enc_messages(messages);
    let e3 = enc_optional_bytes(signature);
    let e4 = enc_optional_commitments(commitments);
    let e5 = enc_u32(timestamp);
    lemma_enc_u32_len(height);
    lemma_enc_u32_len(timestamp);
    lemma_holds_at_split(s, at, e1, e2);
    lemma_holds_at_split(s, at, e1 + e2, e3);
    lemma_holds_at_split(s, at, e1 + e2 + e3, e4);
    lemma_holds_at_split(s, at, e1 + e2 + e3 + e4, e5);
}

/// A buffer decodes to a block exactly when it begins with the encoding of
/// that block: no other bytes stand for it.
pub proof fn lemma_decoding_is_exact(s: Seq<u8>, b: BlockValue)
    ensures
        decoded_block(s) == Some(b) <==> block_fits(b) && holds_at(s, 0, enc_block(b)),
{
    if decoded_block(s) == Some(b) {
        lemma_dec_block_exact(s, 0);
    }
    if block_fits(b) && holds_at(s, 0, enc_block(b)) {
        lemma_dec_block(s, 0, b);
    }
}

/// A buffer decodes to a message exactly when it begins with the encoding
/// of that message.
pub proof fn lemma_message_decoding_is_exact(s: Seq<u8>, m: MessageValue)
    ensures
        decoded_message(s) == Some(m) <==> message_fits(m) && holds_at(s, 0, enc_message(m)),
{
    if decoded_message(s) == Some(m) {
        lemma_dec_message_exact(s, 0);
    }
    if message_fits(m) && holds_at(s, 0, enc_message(m)) {
        lemma_dec_message(s, 0, m);
    }
}

} // verus!

//! Byte strings: equality, the lexicographic order used to break ties between
//! competing proposals, and the bit expansion that keys trie leaves.

use vstd::prelude::*;

verus! {

/// `a` and `b` hold the same bytes in their first `k` positions.
pub open spec fn agree_upto(a: Seq<u8>, b: Seq<u8>, k: int) -> bool {
    &&& 0 <= k <= a.len()
    &&& k <= b.len()
    &&& forall|i: int| 0 <= i < k ==> a[i] == b[i]
}

/// Strict lexicographic order on byte strings: after a common prefix either
/// `a` ends while `b` goes on, or `a` holds the smaller byte.
pub open spec fn lex_lt(a: Seq<u8>, b: Seq<u8>) -> bool {
    exists|k: int| lex_lt_at(a, b, k)
}

/// `k` is the position at which `a` is seen to be below `b`.
pub open spec fn lex_lt_at(a: Seq<u8>, b: Seq<u8>, k: int) -> bool {
    &&& agree_upto(a, b, k)
    &&& k < b.len()
    &&& (k == a.len() || a[k] < b[k])
}

/// Three-way result of comparing two byte strings.
#[derive(Clone, Copy, Debug, PartialEq, Eq, Structural)]
pub enum Rank {
    Below,
    Same,
    Above,
}

/// The rank of `a` relative to `b` in lexicographic order.
pub open spec fn rank_of(a: Seq<u8>, b: Seq<u8>) -> Rank {
    if a == b {
        Rank::Same
    } else if lex_lt(a, b) {
        Rank::Below
    } else {
        Rank::Above
    }
}

/// Two byte strings that agree on the whole of both are equal.
pub proof fn lemma_agree_whole(a: Seq<u8>, b: Seq<u8>)
    requires
        agree_upto(a, b, a.len() as int),
        a.len() == b.len(),
    ensures
        a == b,
{
    assert(a =~= b);
}

/// A position where `a` is below `b` rules out every position where `b`
/// would be below `a`, and rules out equality.
pub proof fn lemma_lex_lt_asymmetric(a: Seq<u8>, b: Seq<u8>)
    requires
        lex_lt(a, b),
    ensures
        !lex_lt(b, a),
        a != b,
{
    let k = choose|k: int| lex_lt_at(a, b, k);
    assert forall|j: int| !lex_lt_at(b, a, j) by {
        if lex_lt_at(b, a, j) {
            if j < k {
                assert(a[j] == b[j]);
            } else if k < j {
                assert(b[k] == a[k]);
            }
        }
    }
    if a == b {
        assert(k < a.len());
    }
}

/// Lexicographic order is total: of two different byte strings one is below
/// the other.
pub proof fn lemma_lex_lt_total(a: Seq<u8>, b: Seq<u8>)
    ensures
        a == b || lex_lt(a, b) || lex_lt(b, a),
    decreases a.len() + b.len(),
{
    let k = first_difference(a, b);
    lemma_first_difference(a, b);
    if k == a.len() && k == b.len() {
        lemma_agree_whole(a, b);
    } else if k == a.len() {
        assert(lex_lt_at(a, b, k));
    } else if k == b.len() {
        assert(lex_lt_at(b, a, k));
    } else if a[k] < b[k] {
        assert(lex_lt_at(a, b, k));
    } else {
        assert(lex_lt_at(b, a, k));
    }
}

/// Lexicographic order is transitive.
pub proof fn lemma_lex_lt_transitive(a: Seq<u8>, b: Seq<u8>, c: Seq<u8>)
    requires
        lex_lt(a, b),
        lex_lt(b, c),
    ensures
        lex_lt(a, c),
{
    let i = choose|k: int| lex_lt_at(a, b, k);
    let j = choose|k: int| lex_lt_at(b, c, k);
    let k = if i <= j { i } else { j };
    assert(agree_upto(a, c, k)) by {
        assert forall|n: int| 0 <= n < k implies a[n] == c[n] by {
            assert(a[n] == b[n]);
            assert(b[n] == c[n]);
        }
    }
    if i < j {
        assert(b[i] == c[i]);
    }
    assert(lex_lt_at(a, c, k));
}

/// The first position at which `a` and `b` differ, or the length of the
/// shorter one when one is a prefix of the other.
pub open spec fn first_difference(a: Seq<u8>, b: Seq<u8>) -> int
    decreases a.len(),
{
    if a.len() == 0 || b.len() == 0 || a[0] != b[0] {
        0
    } else {
        1 + first_difference(a.drop_first(), b.drop_first())
    }
}

/// `first_difference` is a common prefix length, and the strings differ
/// there unless one of them has ended.
pub proof fn lemma_first_difference(a: Seq<u8>, b: Seq<u8>)
    ensures
        agree_upto(a, b, first_difference(a, b)),
        first_difference(a, b) < a.len() && first_difference(a, b) < b.len() ==> a[first_difference(
            a,
            b,
        )] != b[first_difference(a, b)],
    decreases a.len(),
{
    if a.len() == 0 || b.len() == 0 || a[0] != b[0] {
    } else {
        let a1 = a.drop_first();
        let b1 = b.drop_first();
        lemma_first_difference(a1, b1);
        let k = first_difference(a1, b1);
        assert forall|i: int| 0 <= i < k + 1 implies a[i] == b[i] by {
            if i > 0 {
                assert(a1[i - 1] == a[i]);
                assert(b1[i - 1] == b[i]);
            }
        }
        if k < a1.len() && k < b1.len() {
            assert(a1[k] == a[k + 1]);
            assert(b1[k] == b[k + 1]);
        }
    }
}

/// Whether two byte strings are equal.
pub fn bytes_eq(a: &Vec<u8>, b: &Vec<u8>) -> (same: bool)
    ensures
        same == (a@ == b@),
{
    if a.len() != b.len() {
        return false;
    }
    let mut i: usize = 0;
    while i < a.len()
        invariant
            a.len() == b.len(),
            agree_upto(a@, b@, i as int),
        decreases a.len() - i,
    {
        if a[i] != b[i] {
            return false;
        }
        i += 1;
    }
    proof {
        lemma_agree_whole(a@, b@);
    }
    true
}

/// Compares two byte strings in lexicographic order.
pub fn compare_bytes(a: &Vec<u8>, b: &Vec<u8>) -> (rank: Rank)
    ensures
        rank == rank_of(a@, b@),
{
    let mut i: usize = 0;
    while i < a.len() && i < b.len()
        invariant
            agree_upto(a@, b@, i as int),
        decreases a.len() - i,
    {
        if a[i] < b[i] {
            assert(lex_lt_at(a@, b@, i as int));
            return Rank::Below;
        }
        if a[i] > b[i] {
            proof {
                assert(lex_lt_at(b@, a@, i as int));
                lemma_lex_lt_asymmetric(b@, a@);
            }
            return Rank::Above;
        }
        i += 1;
    }
    if a.len() < b.len() {
        assert(lex_lt_at(a@, b@, i as int));
        Rank::Below
    } else if a.len() > b.len() {
        proof {
            assert(lex_lt_at(b@, a@, i as int));
            lemma_lex_lt_asymmetric(b@, a@);
        }
        Rank::Above
    } else {
        proof {
            lemma_agree_whole(a@, b@);
            if lex_lt(a@, b@) {
                lemma_lex_lt_asymmetric(a@, b@);
            }
        }
        Rank::Same
    }
}

/// Bit `j` of byte `b`, counted from the most significant bit.
pub open spec fn bit_msb_first(b: u8, j: int) -> u8 {
    ((b as int / pow2_small(7 - j)) % 2) as u8
}

/// Two to the power `e`, for the eight exponents a byte needs.
pub open spec fn pow2_small(e: int) -> int {
    if e == 0 {
        1
    } else if e == 1 {
        2
    } else if e == 2 {
        4
    } else if e == 3 {
        8
    } else if e == 4 {
        16
    } else if e == 5 {
        32
    } else if e == 6 {
        64
    } else {
        128
    }
}

/// The bitwise big-endian expansion of a byte string: eight entries per
/// byte, each 0 or 1, most significant bit first.
pub open spec fn bits_msb_first(bytes: Seq<u8>) -> Seq<u8> {
    Seq::new(8 * bytes.len(), |i: int| bit_msb_first(bytes[i / 8], i % 8))
}

proof fn lemma_bit_of_byte(b: u8, j: u8)
    requires
        j < 8,
    ensures
        (b >> (7 - j) as u8) & 1 == bit_msb_first(b, j as int),
{
    let s: u8 = (7 - j) as u8;
    assert((b >> s) & 1 == (b >> s) % 2) by (bit_vector);
    assert(s == 0 ==> b >> s == b) by (bit_vector);
    assert(s == 1 ==> b >> s == b / 2) by (bit_vector);
    assert(s == 2 ==> b >> s == b / 4) by (bit_vector);
    assert(s == 3 ==> b >> s == b / 8) by (bit_vector);
    assert(s == 4 ==> b >> s == b / 16) by (bit_vector);
    assert(s == 5 ==> b >> s == b / 32) by (bit_vector);
    assert(s == 6 ==> b >> s == b / 64) by (bit_vector);
    assert(s == 7 ==> b >> s == b / 128) by (bit_vector);
}

/// Expands a hash into the binary path that keys its trie leaf.
///
/// Returns `None` only when eight times the length does not fit the
/// machine's address space.
pub fn expand_bits(bytes: &Vec<u8>) -> (bits: Option<Vec<u8>>)
    ensures
        bits.is_some() <==> 8 * bytes@.len() <= usize::MAX,
        bits.is_some() ==> bits.unwrap()@ == bits_msb_first(bytes@),
{
    if bytes.len() > usize::MAX / 8 {
        return None;
    }
    let mut out: Vec<u8> = Vec::new();
    let mut i: usize = 0;
    while i < bytes.len()
        invariant
            i <= bytes.len(),
            8 * bytes.len() <= usize::MAX,
            out@.len() == 8 * i,
            forall|n: int| 0 <= n < out@.len() ==> out@[n] == bit_msb_first(bytes@[n / 8], n % 8),
        decreases bytes.len() - i,
    {
        let b: u8 = bytes[i];
        let mut j: u8 = 0;
        while j < 8
            invariant
                j <= 8,
                i < bytes.len(),
                b == bytes@[i as int],
                out@.len() == 8 * i + j,
                forall|n: int|
                    0 <= n < out@.len() ==> out@[n] == bit_msb_first(bytes@[n / 8], n % 8),
            decreases 8 - j,
        {
            proof {
                lemma_bit_of_byte(b, j);
            }
            out.push((b >> (7 - j)) & 1);
            j += 1;
        }
        i += 1;
    }
    assert(out@ =~= bits_msb_first(bytes@));
    Some(out)
}

} // verus!

//! Text: comparing it, and writing numbers and byte lists the way the
//! node's replies show them.

use vstd::prelude::*;
use vstd::string::StringExecFns;

verus! {

/// Whether two pieces of text hold the same characters.
pub fn same_text(a: &str, b: &str) -> (same: bool)
    ensures
        same == (a@ == b@),
{
    let left: String = a.to_owned();
    let right: String = b.to_owned();
    left == right
}

/// The text of a decimal digit.
pub open spec fn digit_text(d: int) -> Seq<char> {
    if d == 0 {
        "0"@
    } else if d == 1 {
        "1"@
    } else if d == 2 {
        "2"@
    } else if d == 3 {
        "3"@
    } else if d == 4 {
        "4"@
    } else if d == 5 {
        "5"@
    } else if d == 6 {
        "6"@
    } else if d == 7 {
        "7"@
    } else if d == 8 {
        "8"@
    } else {
        "9"@
    }
}

/// A natural number in decimal, without leading zeros.
pub open spec fn decimal_text(n: nat) -> Seq<char>
    decreases n,
{
    if n < 10 {
        digit_text(n as int)
    } else {
        decimal_text(n / 10) + digit_text(n as int % 10)
    }
}

/// Bytes in decimal, separated by a comma and a space.
pub open spec fn bytes_joined(bytes: Seq<u8>) -> Seq<char>
    decreases bytes.len(),
{
    if bytes.len() == 0 {
        Seq::empty()
    } else if bytes.len() == 1 {
        decimal_text(bytes[0] as nat)
    } else {
        bytes_joined(bytes.drop_last()) + ", "@ + decimal_text(bytes.last() as nat)
    }
}

/// A byte string as a bracketed list of decimal numbers, such as
/// `[1, 2, 3]`.
pub open spec fn byte_list_text(bytes: Seq<u8>) -> Seq<char> {
    "["@ + bytes_joined(bytes) + "]"@
}

/// An optional byte string: `None`, or `Some(` the list `)`.
pub open spec fn optional_byte_list_text(bytes: Option<Seq<u8>>) -> Seq<char> {
    match bytes {
        None => "None"@,
        Some(b) => "Some("@ + byte_list_text(b) + ")"@,
    }
}

fn digit(d: u64) -> (text: &'static str)
    requires
        d < 10,
    ensures
        text@ == digit_text(d as int),
{
    if d == 0 {
        "0"
    } else if d == 1 {
        "1"
    } else if d == 2 {
        "2"
    } else if d == 3 {
        "3"
    } else if d == 4 {
        "4"
    } else if d == 5 {
        "5"
    } else if d == 6 {
        "6"
    } else if d == 7 {
        "7"
    } else if d == 8 {
        "8"
    } else {
        "9"
    }
}

/// Appends a number in decimal.
pub fn push_decimal(out: &mut String, n: u64)
    ensures
        final(out)@ == old(out)@ + decimal_text(n as nat),
    decreases n,
{
    if n >= 10 {
        push_decimal(out, n / 10);
    }
    out.append(digit(n % 10));
    assert(out@ =~= old(out)@ + decimal_text(n as nat));
}

/// Appends a byte string as a bracketed list of decimal numbers.
pub fn push_byte_list(out: &mut String, bytes: &Vec<u8>)
    ensures
        final(out)@ == old(out)@ + byte_list_text(bytes@),
{
    out.append("[");
    let ghost start = out@;
    let mut i: usize = 0;
    assert(bytes@.take(0) =~= Seq::<u8>::empty());
    while i < bytes.len()
        invariant
            i <= bytes.len(),
            out@ == start + bytes_joined(bytes@.take(i as int)),
        decreases bytes.len() - i,
    {
        let ghost before = bytes@.take(i as int);
        let ghost next = bytes@.take(i + 1);
        assert(next.drop_last() =~= before);
        assert(next.last() == bytes@[i as int]);
        if i > 0 {
            out.append(", ");
        }
        push_decimal(out, bytes[i] as u64);
        assert(out@ =~= start + bytes_joined(next));
        i += 1;
    }
    assert(bytes@.take(bytes.len() as int) =~= bytes@);
    out.append("]");
    assert(out@ =~= old(out)@ + byte_list_text(bytes@));
}

/// Appends an optional byte string.
pub fn push_optional_byte_list(out: &mut String, bytes: &Option<Vec<u8>>)
    ensures
        final(out)@ == old(out)@ + optional_byte_list_text(
            match bytes {
                Some(b) => Some(b@),
                None => None,
            },
        ),
{
    match bytes {
        None => {
            out.append("None");
        },
        Some(b) => {
            out.append("Some(");
            push_byte_list(out, b);
            out.append(")");
            assert(out@ =~= old(out)@ + ("Some("@ + byte_list_text(b@) + ")"@));
        },
    }
}

} // verus!

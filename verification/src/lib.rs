//! Core of a compact, semi-decentralized message sequencer.
//!
//! A fixed committee of validators orders opaque client messages into a
//! linear chain of signed blocks. This crate holds the rules of that
//! protocol: the round clock, committer rotation and winner derivation, the
//! block-proposal state machine with its split resolution, the canonical
//! block encoding, and the in-memory chain and pool those rules act on.
//! Transport, persistence and the authenticated trie live with the caller.

pub mod api;
pub mod bytestring;
pub mod config;
pub mod consensus;
pub mod crypto;
pub mod encoding;
pub mod gossipper;
pub mod handlers;
pub mod state;
pub mod text;
pub mod types;

use vstd::prelude::*;

verus! {

/// A reading of the system clock. Nothing inside it is visible here.
#[verifier::external_type_specification]
#[verifier::external_body]
pub struct ExSystemTime(std::time::SystemTime);

/// What `SystemTime::duration_since` reports when the clock stands before
/// the moment it is compared with.
#[verifier::external_type_specification]
#[verifier::external_body]
pub struct ExSystemTimeError(std::time::SystemTimeError);

/// The moment from which unix time is counted.
///
/// Hands out the constant `std::time::UNIX_EPOCH`.
#[verifier::external_body]
fn unix_epoch() -> (epoch: std::time::SystemTime) {
    std::time::UNIX_EPOCH
}

/// `std::time::SystemTime::now` reads the system clock. Nothing is promised
/// of the reading.
pub assume_specification[ std::time::SystemTime::now ]() -> (reading: std::time::SystemTime);

/// `std::time::SystemTime::duration_since` gives the time from `earlier` to
/// `reading`, or an error when `reading` is the earlier of the two. Nothing
/// is promised of which it is, nor of the span.
pub assume_specification[ std::time::SystemTime::duration_since ](
    reading: &std::time::SystemTime,
    earlier: std::time::SystemTime,
) -> (span: Result<std::time::Duration, std::time::SystemTimeError>);

/// `std::time::Duration::as_secs` gives the whole seconds of a span.
/// Nothing is promised of the number.
pub assume_specification[ std::time::Duration::as_secs ](span: &std::time::Duration) -> (seconds:
    u64);

/// The low 32 bits of a count of seconds: the form in which timestamps
/// travel.
pub open spec fn timestamp_of(seconds: u64) -> u32 {
    (seconds % 0x1_0000_0000) as u32
}

/// Reduces a count of seconds to a timestamp.
pub fn to_timestamp(seconds: u64) -> (timestamp: u32)
    ensures
        timestamp == timestamp_of(seconds),
{
    (seconds % 0x1_0000_0000) as u32
}

/// The timestamp that a clock reading stands for: the seconds since the
/// epoch reduced to a timestamp, and zero for a clock that stands before
/// the epoch.
pub open spec fn reading_timestamp(seconds: Option<u64>) -> u32 {
    match seconds {
        Some(s) => timestamp_of(s),
        None => 0,
    }
}

/// Turns a clock reading into a timestamp. `seconds` is `None` when the
/// clock stands before the epoch.
pub fn timestamp_of_reading(seconds: Option<u64>) -> (timestamp: u32)
    ensures
        timestamp == reading_timestamp(seconds),
{
    match seconds {
        Some(s) => to_timestamp(s),
        None => 0,
    }
}

/// The current unix time as a timestamp.
pub fn get_current_time() -> (now: u32) {
    let reading = std::time::SystemTime::now();
    let seconds: Option<u64> = match reading.duration_since(unix_epoch()) {
        Ok(span) => Some(span.as_secs()),
        Err(_) => None,
    };
    timestamp_of_reading(seconds)
}

} // verus!

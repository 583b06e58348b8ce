//! The rules of leader election.

pub mod logic;
pub mod round;

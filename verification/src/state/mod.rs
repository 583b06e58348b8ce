//! The state a node keeps: its chain, its pool and its round.

pub mod server;

//! Configuration: the timing and threshold of consensus, and the network.

pub mod consensus;
pub mod network;

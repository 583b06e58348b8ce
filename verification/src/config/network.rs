//! The static network of the local test deployment.

use vstd::prelude::*;

verus! {

/// Attempts a node makes to hand a proposal to one peer before it gives up.
pub const GOSSIP_PROPOSAL_RETRY_LIMIT_PER_PEER: u32 = 3;

/// Address a node listens on when none is configured.
pub fn default_host() -> (host: &'static str)
    ensures
        host@ == "0.0.0.0:8080"@,
{
    "0.0.0.0:8080"
}

/// The peers of the local deployment, in validator order.
pub fn peers() -> (list: Vec<&'static str>)
    ensures
        list@.len() == 4,
        list@[0]@ == "rust-node-1:8080"@,
        list@[1]@ == "rust-node-2:8081"@,
        list@[2]@ == "rust-node-3:8082"@,
        list@[3]@ == "rust-node-4:8083"@,
{
    let mut list: Vec<&'static str> = Vec::new();
    list.push("rust-node-1:8080");
    list.push("rust-node-2:8081");
    list.push("rust-node-3:8082");
    list.push("rust-node-4:8083");
    list
}

} // verus!

//! Whom a node gossips to, and when it stops trying.

use crate::text::same_text;
use vstd::prelude::*;

verus! {

pub type Peer = &'static str;

/// The peers a node knows.
#[derive(Debug)]
pub struct Gossipper {
    pub peers: Vec<Peer>,
}

/// The reply of a node that has processed a proposal.
pub open spec fn processed_text() -> Seq<char> {
    "[Ok] Block was processed"@
}

/// Whether `peer` is the container name under which the node that listens
/// on `this_node` is known to the others in the local deployment.
pub open spec fn is_docker_alias(this_node: Seq<char>, peer: Seq<char>) -> bool {
    ||| this_node == "0.0.0.0:8080"@ && peer == "rust-node-1:8080"@
    ||| this_node == "0.0.0.0:8081"@ && peer == "rust-node-2:8081"@
    ||| this_node == "0.0.0.0:8082"@ && peer == "rust-node-3:8082"@
    ||| this_node == "0.0.0.0:8083"@ && peer == "rust-node-4:8083"@
}

/// Whether `peer` is this node itself: its own advertised address, or its
/// container name in the local deployment.
pub open spec fn is_self(this_node: Seq<char>, peer: Seq<char>) -> bool {
    peer == this_node || is_docker_alias(this_node, peer)
}

/// The peers other than this node, in list order.
pub open spec fn others(peers: Seq<Peer>, this_node: Seq<char>) -> Seq<Peer> {
    peers.filter(|p: Peer| !is_self(this_node, p@))
}

/// Whether `peer` is this node itself, and so to be skipped: its own
/// advertised address, or its container name in the local deployment.
pub fn docker_skip_self(this_node: &str, peer: &str) -> (skip: bool)
    ensures
        skip == is_self(this_node@, peer@),
{
    if same_text(peer, this_node) {
        return true;
    } else if same_text(this_node, "0.0.0.0:8080") && same_text(peer, "rust-node-1:8080") {
        return true;
    } else if same_text(this_node, "0.0.0.0:8081") && same_text(peer, "rust-node-2:8081") {
        return true;
    } else if same_text(this_node, "0.0.0.0:8082") && same_text(peer, "rust-node-3:8082") {
        return true;
    } else if same_text(this_node, "0.0.0.0:8083") && same_text(peer, "rust-node-4:8083") {
        return true;
    }
    false
}

impl Gossipper {
    /// The peers to gossip to or to fetch from: every peer but this node,
    /// in list order.
    pub fn targets(&self, this_node: &str) -> (targets: Vec<Peer>)
        ensures
            targets@ == others(self.peers@, this_node@),
    {
        let mut targets: Vec<Peer> = Vec::new();
        let mut i: usize = 0;
        assert(self.peers@.take(0) =~= Seq::<Peer>::empty());
        while i < self.peers.len()
            invariant
                i <= self.peers.len(),
                targets@ == others(self.peers@.take(i as int), this_node@),
            decreases self.peers.len() - i,
        {
            let peer: Peer = self.peers[i];
            proof {
                let keep = |p: Peer| !is_self(this_node@, p@);
                let before = self.peers@.take(i as int);
                assert(self.peers@.take(i + 1) =~= before.push(peer));
                assert(before.push(peer).drop_last() =~= before);
                reveal_with_fuel(Seq::filter, 2);
                assert(before.push(peer).filter(keep) == if keep(peer) {
                    before.filter(keep).push(peer)
                } else {
                    before.filter(keep)
                });
            }
            if !docker_skip_self(this_node, peer) {
                targets.push(peer);
            }
            i += 1;
        }
        assert(self.peers@.take(self.peers.len() as int) =~= self.peers@);
        targets
    }
}

/// What to do after an attempt to hand a proposal to a peer.
#[derive(Clone, Copy, Debug, PartialEq, Eq, Structural)]
pub enum GossipStep {
    /// The peer processed the proposal.
    Delivered,
    /// Wait a second and try again.
    Retry,
    /// The retries are used up.
    GiveUp,
}

/// The step that follows an attempt: done when the peer answered that it
/// processed the block; otherwise one more retry while fewer than `limit`
/// have been made. `reply` is `None` when the peer did not answer.
pub open spec fn gossip_step(reply: Option<Seq<char>>, retries_made: u32, limit: u32) -> GossipStep {
    if reply == Some(processed_text()) {
        GossipStep::Delivered
    } else if retries_made < limit {
        GossipStep::Retry
    } else {
        GossipStep::GiveUp
    }
}

/// Decides what follows an attempt to hand a proposal to a peer.
pub fn next_gossip_step(reply: Option<&str>, retries_made: u32, limit: u32) -> (step: GossipStep)
    ensures
        step == gossip_step(
            match reply {
                Some(text) => Some(text@),
                None => None,
            },
            retries_made,
            limit,
        ),
{
    let delivered: bool = match reply {
        Some(text) => same_text(text, "[Ok] Block was processed"),
        None => false,
    };
    if delivered {
        GossipStep::Delivered
    } else if retries_made < limit {
        GossipStep::Retry
    } else {
        GossipStep::GiveUp
    }
}

} // verus!

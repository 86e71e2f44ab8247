use vstd::prelude::*;

use crate::types::NodeId;

verus! {

/// Provenance of an inbound item.
#[derive(Clone, Copy, PartialEq, Eq, Debug, Structural)]
pub enum Source {
    /// The item arrived from the named peer.
    Peer(NodeId),
    /// The item was submitted by a local client.
    Client,
}

} // verus!

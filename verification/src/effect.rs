use vstd::prelude::*;

use crate::event::FetchResponder;
use crate::event::FetchResult;
use crate::protocol::Message;
use crate::types::BlockHash;
use crate::types::DeployHash;
use crate::types::Item;
use crate::types::NodeId;

verus! {

/// A lookup for the storage collaborator to perform.  Deploy lookups are
/// batched (the fetcher issues single-element batches); block lookups are
/// point queries by hash or by height.
#[derive(PartialEq, Eq, Debug)]
pub enum StorageRequest {
    /// Retrieve the deploys with the given hashes, positionally: the answer
    /// has one optional deploy per requested hash.
    GetDeploys {
        /// The hashes of the wanted deploys.
        hashes: Vec<DeployHash>,
    },
    /// Retrieve the block with the given hash.
    GetBlock {
        /// The hash of the wanted block.
        hash: BlockHash,
    },
    /// Retrieve the block at the given height of the linear chain.
    GetBlockAtHeight {
        /// The height of the wanted block.
        height: u64,
    },
}

/// Work for the reactor to perform after a handler returns.  Handlers run to
/// completion and never suspend; every long-latency operation is described by
/// one of these values instead.
pub enum Effect<T: Item> {
    /// Ask the storage collaborator; the reactor folds the answer back into
    /// a `GetFromStorageResult` event carrying the same `(id, peer)`.
    GetFromStorage {
        /// The lookup to perform.
        request: StorageRequest,
        /// The identifier to tag the resulting event with.
        id: T::Id,
        /// The nominated peer to tag the resulting event with.
        peer: NodeId,
    },
    /// Send a wire message to a peer, fire-and-forget.
    SendMessage {
        /// The peer to address.
        peer: NodeId,
        /// The message to send.
        message: Message,
    },
    /// Arm a timer that delivers a `TimeoutPeer { id, peer }` event after
    /// the given number of seconds.
    ScheduleTimeout {
        /// The identifier the timeout will be about.
        id: T::Id,
        /// The peer the timeout will be about.
        peer: NodeId,
        /// The delay before the timer fires, in seconds.
        after_secs: u64,
    },
    /// Deliver the outcome of one fetch through its responder.
    Respond {
        /// The responder to consume.
        responder: FetchResponder<T>,
        /// The outcome to deliver: the item with its provenance, or `None`.
        outcome: Option<FetchResult<T>>,
    },
}

} // verus!

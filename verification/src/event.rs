use vstd::prelude::*;

use crate::types::Item;
use crate::types::NodeId;
use crate::utils::Source;

verus! {

/// The terminal outcome of a successful fetch, carrying provenance: the item
/// was found either in local storage or at the named peer.
#[derive(PartialEq, Eq, Debug)]
pub enum FetchResult<T: Item> {
    /// The item was resolved from local storage.
    FromStorage(Box<T>),
    /// The item was resolved by the named peer.
    FromPeer(T, NodeId),
}

impl<T: Item> Clone for FetchResult<T> {
    /// Clones the outcome so that every pending responder receives its own
    /// copy; the clone equals the original.
    fn clone(&self) -> (c: Self)
        ensures
            c == *self,
    {
        match self {
            FetchResult::FromStorage(item) => FetchResult::FromStorage(
                Box::new((**item).clone_item()),
            ),
            FetchResult::FromPeer(item, peer) => FetchResult::FromPeer(item.clone_item(), *peer),
        }
    }
}

/// A single-use handle through which one fetch request is answered.  The
/// reactor pairs each token with the one-shot channel of the caller; the
/// fetcher owns the handle from `Fetch` until dispatch and never signals it
/// twice.  Deliberately neither copyable nor clonable.
#[derive(PartialEq, Eq, Debug)]
pub struct FetchResponder<T: Item> {
    token: u64,
    marker: core::marker::PhantomData<T>,
}

impl<T: Item> FetchResponder<T> {
    /// The token under which the reactor registered this responder.
    pub closed spec fn spec_token(&self) -> u64 {
        self.token
    }

    /// Creates the handle for the given reactor token.
    pub fn new(token: u64) -> (r: Self)
        ensures
            r.spec_token() == token,
    {
        FetchResponder { token, marker: core::marker::PhantomData }
    }

    /// Returns the reactor token of this responder.
    pub fn token(&self) -> (t: u64)
        ensures
            t == self.spec_token(),
    {
        self.token
    }
}

/// The events consumed by the fetcher.
pub enum Event<T: Item> {
    /// Another component of this node asks for the item `id`, nominating
    /// `peer` as the remote source should storage miss.
    Fetch {
        /// The identifier of the wanted item.
        id: T::Id,
        /// The peer to ask if storage does not hold the item.
        peer: NodeId,
        /// The handle through which the outcome is delivered.
        responder: FetchResponder<T>,
    },
    /// Storage has answered the lookup that a `Fetch` issued.
    GetFromStorageResult {
        /// The identifier the lookup was about.
        id: T::Id,
        /// The peer nominated by the originating `Fetch`.
        peer: NodeId,
        /// The item, if storage holds it.
        maybe_item: Box<Option<T>>,
    },
    /// A remote peer (or a local client) supplied an item.
    GotRemotely {
        /// The item that arrived.
        item: T,
        /// Where the item came from.
        source: Source,
    },
    /// The nominated peer explicitly disclaimed the item.
    AbsentRemotely {
        /// The identifier the peer was asked for.
        id: T::Id,
        /// The peer that answered negatively.
        peer: NodeId,
    },
    /// The timer armed for a peer request fired.
    TimeoutPeer {
        /// The identifier the peer was asked for.
        id: T::Id,
        /// The peer whose request timed out.
        peer: NodeId,
    },
}

} // verus!

use vstd::prelude::*;

use crate::effect::Effect;
use crate::effect::StorageRequest;
use crate::event::Event;
use crate::event::FetchResponder;
use crate::event::FetchResult;
use crate::protocol::Message;
use crate::table::appended;
use crate::table::drained_all;
use crate::table::dropped_peer;
use crate::table::respond_all;
use crate::table::ResponderTable;
use crate::types::Block;
use crate::types::BlockByHeight;
use crate::types::BlockHash;
use crate::types::Deploy;
use crate::types::DeployHash;
use crate::types::Item;
use crate::types::NodeId;
use crate::utils::Source;

verus! {

/// Configuration of the fetcher component.
#[derive(Clone, Copy, PartialEq, Eq, Debug, Structural)]
pub struct Config {
    /// Seconds to wait after sending a peer get-request before declaring
    /// timeout on that peer-scoped bucket.
    pub get_from_peer_timeout: u64,
}

impl Config {
    /// Creates a configuration with the given peer timeout in seconds.
    pub fn new(get_from_peer_timeout: u64) -> (config: Config)
        ensures
            config.get_from_peer_timeout == get_from_peer_timeout,
    {
        Config { get_from_peer_timeout }
    }
}

/// A helper trait constraining `Fetcher` compatible reactor events: any
/// reactor event type that can absorb a fetcher event qualifies.
pub trait ReactorEventT<T: Item>: From<Event<T>> {
}

impl<REv, T: Item> ReactorEventT<T> for REv where REv: From<Event<T>> {
}

/// The behaviour of a fetcher for one item kind.  The controller logic lives
/// in the provided methods, shared by every kind; an implementor supplies the
/// responder table, the configured timeout and the storage lookup of its
/// kind.
pub trait ItemFetcher<T: Item>: Sized {
    /// The responder table, at the specification level.
    spec fn table(&self) -> ResponderTable<T>;

    /// The configured peer timeout in seconds, at the specification level.
    spec fn timeout_secs(&self) -> u64;

    /// How a storage lookup for `id` must read, at the specification level.
    spec fn storage_request_matches(id: T::Id, request: StorageRequest) -> bool;

    /// Gives access to the responder table.
    fn responders(&mut self) -> (table: &mut ResponderTable<T>)
        ensures
            *table == old(self).table(),
            final(self).table() == *final(table),
            final(self).timeout_secs() == old(self).timeout_secs();

    /// The time to wait for a nominated peer before giving up, in seconds.
    fn peer_timeout(&self) -> (timeout: u64)
        ensures
            timeout == self.timeout_secs();

    /// Handles attempting to get the item from storage: emits the storage
    /// lookup of this kind, tagged with `(id, peer)` so that the answer folds
    /// back into a `GetFromStorageResult` event.
    fn get_from_storage(&mut self, id: T::Id, peer: NodeId) -> (effects: Vec<Effect<T>>)
        ensures
            *final(self) == *old(self),
            effects@.len() == 1,
            (effects@[0] matches Effect::GetFromStorage { request, id: qid, peer: qpeer }
                && Self::storage_request_matches(id, request) && qid == id && qpeer == peer);

    /// We've been asked to fetch the item by another component of this node.
    /// We'll try to get it from our own storage component first, and if that
    /// fails, we'll send a request to `peer` for the item.
    fn fetch(&mut self, id: T::Id, peer: NodeId, responder: FetchResponder<T>) -> (effects: Vec<
        Effect<T>,
    >)
        requires
            old(self).table().wf(),
        ensures
            final(self).table().wf(),
            final(self).timeout_secs() == old(self).timeout_secs(),
            appended(old(self).table(), final(self).table(), id, peer, responder),
            effects@.len() == 1,
            (effects@[0] matches Effect::GetFromStorage { request, id: qid, peer: qpeer }
                && Self::storage_request_matches(id, request) && qid == id && qpeer == peer),
    {
        let table = self.responders();
        table.push(id, peer, responder);
        self.get_from_storage(id, peer)
    }

    /// Handles the `Ok` case of attempting to get the item from the storage
    /// component: every responder waiting for this item, whichever peer it
    /// nominated, receives the item with storage provenance.
    fn got_from_storage(&mut self, item: T, peer: NodeId) -> (effects: Vec<Effect<T>>)
        requires
            old(self).table().wf(),
        ensures
            final(self).table().wf(),
            final(self).timeout_secs() == old(self).timeout_secs(),
            drained_all(old(self).table(), final(self).table(), item.spec_id()),
            effects@ == respond_all(
                old(self).table().all_for(item.spec_id()),
                Some(FetchResult::FromStorage(Box::new(item))),
            ),
    {
        let id = item.id();
        self.signal(id, Some(FetchResult::FromStorage(Box::new(item))), peer)
    }

    /// Handles the `Err` case of attempting to get the item from the storage
    /// component: asks `peer` for the item and arms the timeout.  Where the
    /// get-request cannot be constructed, the responders for `(id, peer)`
    /// are signalled `None` instead, and no timer is armed.
    fn failed_to_get_from_storage(&mut self, id: T::Id, peer: NodeId) -> (effects: Vec<Effect<T>>)
        requires
            old(self).table().wf(),
        ensures
            final(self).table().wf(),
            final(self).timeout_secs() == old(self).timeout_secs(),
            match T::spec_encode(id) {
                Some(bytes) => {
                    &&& *final(self) == *old(self)
                    &&& effects@.len() == 2
                    &&& (effects@[0] matches Effect::SendMessage { peer: mpeer, message }
                        && mpeer == peer && (message matches Message::GetRequest {
                        tag,
                        serialized_id,
                    } && tag == T::spec_tag() && serialized_id@ == bytes))
                    &&& effects@[1] == (Effect::<T>::ScheduleTimeout {
                        id,
                        peer,
                        after_secs: old(self).timeout_secs(),
                    })
                },
                None => {
                    &&& dropped_peer(old(self).table(), final(self).table(), id, peer)
                    &&& effects@ == respond_all(
                        old(self).table().responders_for(id, peer),
                        None::<FetchResult<T>>,
                    )
                },
            },
    {
        match Message::new_get_request::<T>(&id) {
            Ok(message) => {
                let mut effects: Vec<Effect<T>> = Vec::new();
                effects.push(Effect::SendMessage { peer, message });
                let after_secs = self.peer_timeout();
                effects.push(Effect::ScheduleTimeout { id, peer, after_secs });
                effects
            },
            Err(_error) => self.signal(id, None, peer),
        }
    }

    /// Handles signalling responders with the item or `None`.  A positive
    /// outcome drains every responder for `id` across every peer bucket; a
    /// negative outcome drains only the `(id, peer)` bucket, and is a no-op
    /// when that bucket is already gone.
    fn signal(&mut self, id: T::Id, result: Option<FetchResult<T>>, peer: NodeId) -> (effects: Vec<
        Effect<T>,
    >)
        requires
            old(self).table().wf(),
        ensures
            final(self).table().wf(),
            final(self).timeout_secs() == old(self).timeout_secs(),
            match result {
                Some(ret) => {
                    &&& drained_all(old(self).table(), final(self).table(), id)
                    &&& effects@ == respond_all(old(self).table().all_for(id), Some(ret))
                },
                None => {
                    &&& dropped_peer(old(self).table(), final(self).table(), id, peer)
                    &&& effects@ == respond_all(
                        old(self).table().responders_for(id, peer),
                        None::<FetchResult<T>>,
                    )
                },
            },
    {
        let ghost pre = self.table();
        match result {
            Some(ret) => {
                let removed = self.responders().remove_id(&id);
                match removed {
                    Some(entry) => {
                        proof {
                            assert(pre.all_for(id) == entry.all());
                        }
                        entry.drain(&Some(ret))
                    },
                    None => {
                        proof {
                            assert(pre.all_for(id) =~= Seq::<FetchResponder<T>>::empty());
                            assert(respond_all(pre.all_for(id), Some(ret)) =~= Seq::<
                                Effect<T>,
                            >::empty());
                        }
                        Vec::new()
                    },
                }
            },
            None => {
                let drained = self.responders().drop_peer(&id, &peer);
                match drained {
                    Some(bucket) => bucket.drain(&None),
                    None => {
                        proof {
                            assert(pre.responders_for(id, peer) =~= Seq::<
                                FetchResponder<T>,
                            >::empty());
                            assert(respond_all(
                                pre.responders_for(id, peer),
                                None::<FetchResult<T>>,
                            ) =~= Seq::<Effect<T>>::empty());
                        }
                        Vec::new()
                    },
                }
            },
        }
    }
}

/// The component which fetches an item from local storage or asks a peer if
/// it's not in storage.
pub struct Fetcher<T: Item> {
    /// Seconds to wait for a nominated peer before declaring timeout.
    pub get_from_peer_timeout: u64,
    /// The pending responders, by item identifier and nominated peer.
    pub responders: ResponderTable<T>,
}

impl<T: Item> Fetcher<T> {
    /// Creates a fetcher with an empty responder table and the configured
    /// peer timeout.
    pub fn new(config: Config) -> (fetcher: Self)
        ensures
            fetcher.responders.wf(),
            fetcher.responders.entries@.len() == 0,
            fetcher.get_from_peer_timeout == config.get_from_peer_timeout,
    {
        Fetcher {
            get_from_peer_timeout: config.get_from_peer_timeout,
            responders: ResponderTable::new(),
        }
    }
}

impl ItemFetcher<Deploy> for Fetcher<Deploy> {
    open spec fn table(&self) -> ResponderTable<Deploy> {
        self.responders
    }

    open spec fn timeout_secs(&self) -> u64 {
        self.get_from_peer_timeout
    }

    open spec fn storage_request_matches(id: DeployHash, request: StorageRequest) -> bool {
        request matches StorageRequest::GetDeploys { hashes } && hashes@ == seq![id]
    }

    fn responders(&mut self) -> (table: &mut ResponderTable<Deploy>) {
        &mut self.responders
    }

    fn peer_timeout(&self) -> u64 {
        self.get_from_peer_timeout
    }

    /// Gets a `Deploy` from the storage component: a batched lookup with a
    /// single-element batch.
    fn get_from_storage(&mut self, id: DeployHash, peer: NodeId) -> (effects: Vec<Effect<Deploy>>) {
        let mut hashes: Vec<DeployHash> = Vec::new();
        hashes.push(id);
        proof {
            assert(hashes@ =~= seq![id]);
        }
        let mut effects: Vec<Effect<Deploy>> = Vec::new();
        effects.push(
            Effect::GetFromStorage { request: StorageRequest::GetDeploys { hashes }, id, peer },
        );
        effects
    }
}

impl ItemFetcher<Block> for Fetcher<Block> {
    open spec fn table(&self) -> ResponderTable<Block> {
        self.responders
    }

    open spec fn timeout_secs(&self) -> u64 {
        self.get_from_peer_timeout
    }

    open spec fn storage_request_matches(id: BlockHash, request: StorageRequest) -> bool {
        request matches StorageRequest::GetBlock { hash } && hash == id
    }

    fn responders(&mut self) -> (table: &mut ResponderTable<Block>) {
        &mut self.responders
    }

    fn peer_timeout(&self) -> u64 {
        self.get_from_peer_timeout
    }

    /// Gets a `Block` from the storage component: a point lookup by hash.
    fn get_from_storage(&mut self, id: BlockHash, peer: NodeId) -> (effects: Vec<Effect<Block>>) {
        let mut effects: Vec<Effect<Block>> = Vec::new();
        effects.push(
            Effect::GetFromStorage { request: StorageRequest::GetBlock { hash: id }, id, peer },
        );
        effects
    }
}

impl ItemFetcher<BlockByHeight> for Fetcher<BlockByHeight> {
    open spec fn table(&self) -> ResponderTable<BlockByHeight> {
        self.responders
    }

    open spec fn timeout_secs(&self) -> u64 {
        self.get_from_peer_timeout
    }

    open spec fn storage_request_matches(id: u64, request: StorageRequest) -> bool {
        request matches StorageRequest::GetBlockAtHeight { height } && height == id
    }

    fn responders(&mut self) -> (table: &mut ResponderTable<BlockByHeight>) {
        &mut self.responders
    }

    fn peer_timeout(&self) -> u64 {
        self.get_from_peer_timeout
    }

    /// Gets a block at a height from the storage component: a linear-chain
    /// lookup.
    fn get_from_storage(&mut self, id: u64, peer: NodeId) -> (effects: Vec<Effect<BlockByHeight>>) {
        let mut effects: Vec<Effect<BlockByHeight>> = Vec::new();
        effects.push(
            Effect::GetFromStorage {
                request: StorageRequest::GetBlockAtHeight { height: id },
                id,
                peer,
            },
        );
        effects
    }
}

impl<T: Item> Fetcher<T> where Fetcher<T>: ItemFetcher<T> {
    /// Consumes one fetcher event and returns the effects for the reactor to
    /// perform, as the component's transition function.
    pub fn handle_event(&mut self, event: Event<T>) -> (effects: Vec<Effect<T>>)
        requires
            old(self).table().wf(),
        ensures
            final(self).table().wf(),
            final(self).timeout_secs() == old(self).timeout_secs(),
            match event {
                Event::Fetch { id, peer, responder } => {
                    &&& appended(old(self).table(), final(self).table(), id, peer, responder)
                    &&& effects@.len() == 1
                    &&& (effects@[0] matches Effect::GetFromStorage { request, id: qid, peer: qpeer }
                        && Self::storage_request_matches(id, request) && qid == id
                        && qpeer == peer)
                },
                Event::GetFromStorageResult { id, peer, maybe_item } => match *maybe_item {
                    Some(item) => {
                        &&& drained_all(old(self).table(), final(self).table(), item.spec_id())
                        &&& effects@ == respond_all(
                            old(self).table().all_for(item.spec_id()),
                            Some(FetchResult::FromStorage(Box::new(item))),
                        )
                    },
                    None => match T::spec_encode(id) {
                        Some(bytes) => {
                            &&& *final(self) == *old(self)
                            &&& effects@.len() == 2
                            &&& (effects@[0] matches Effect::SendMessage { peer: mpeer, message }
                                && mpeer == peer && (message matches Message::GetRequest {
                                tag,
                                serialized_id,
                            } && tag == T::spec_tag() && serialized_id@ == bytes))
                            &&& effects@[1] == (Effect::<T>::ScheduleTimeout {
                                id,
                                peer,
                                after_secs: old(self).timeout_secs(),
                            })
                        },
                        None => {
                            &&& dropped_peer(old(self).table(), final(self).table(), id, peer)
                            &&& effects@ == respond_all(
                                old(self).table().responders_for(id, peer),
                                None::<FetchResult<T>>,
                            )
                        },
                    },
                },
                Event::GotRemotely { item, source } => match source {
                    Source::Peer(peer) => {
                        &&& drained_all(old(self).table(), final(self).table(), item.spec_id())
                        &&& effects@ == respond_all(
                            old(self).table().all_for(item.spec_id()),
                            Some(FetchResult::FromPeer(item, peer)),
                        )
                    },
                    Source::Client => {
                        &&& *final(self) == *old(self)
                        &&& effects@.len() == 0
                    },
                },
                Event::AbsentRemotely { id, peer } => {
                    &&& dropped_peer(old(self).table(), final(self).table(), id, peer)
                    &&& effects@ == respond_all(
                        old(self).table().responders_for(id, peer),
                        None::<FetchResult<T>>,
                    )
                },
                Event::TimeoutPeer { id, peer } => {
                    &&& dropped_peer(old(self).table(), final(self).table(), id, peer)
                    &&& effects@ == respond_all(
                        old(self).table().responders_for(id, peer),
                        None::<FetchResult<T>>,
                    )
                },
            },
    {
        match event {
            Event::Fetch { id, peer, responder } => self.fetch(id, peer, responder),
            Event::GetFromStorageResult { id, peer, maybe_item } => match *maybe_item {
                Some(item) => self.got_from_storage(item, peer),
                None => self.failed_to_get_from_storage(id, peer),
            },
            Event::GotRemotely { item, source } => match source {
                Source::Peer(peer) => {
                    let id = item.id();
                    self.signal(id, Some(FetchResult::FromPeer(item, peer)), peer)
                },
                Source::Client => Vec::new(),
            },
            Event::AbsentRemotely { id, peer } => self.signal(id, None, peer),
            Event::TimeoutPeer { id, peer } => self.signal(id, None, peer),
        }
    }
}

/// Folds the answer of a batched deploy lookup into the fetcher event for
/// `(id, peer)`.  The fetcher issues single-element batches, so the answer
/// must hold exactly one entry; the reactor asserts that invariant before
/// calling.
pub fn deploy_storage_result(id: DeployHash, peer: NodeId, results: Vec<Option<Deploy>>) -> (event:
    Event<Deploy>)
    requires
        results@.len() == 1,
    ensures
        (event matches Event::GetFromStorageResult { id: eid, peer: epeer, maybe_item }
            && eid == id && epeer == peer && *maybe_item == results@[0]),
{
    let mut results = results;
    let maybe_item = results.pop().unwrap();
    Event::GetFromStorageResult { id, peer, maybe_item: Box::new(maybe_item) }
}

/// Folds the answer of a block lookup by hash into the fetcher event for
/// `(id, peer)`.
pub fn block_storage_result(id: BlockHash, peer: NodeId, result: Option<Block>) -> (event: Event<
    Block,
>)
    ensures
        (event matches Event::GetFromStorageResult { id: eid, peer: epeer, maybe_item }
            && eid == id && epeer == peer && *maybe_item == result),
{
    Event::GetFromStorageResult { id, peer, maybe_item: Box::new(result) }
}

/// Folds the answer of a block lookup by height into the fetcher event for
/// `(height, peer)`, wrapping the found block into the by-height shape.
pub fn block_by_height_storage_result(height: u64, peer: NodeId, result: Option<Block>) -> (event:
    Event<BlockByHeight>)
    ensures
        (event matches Event::GetFromStorageResult { id: eid, peer: epeer, maybe_item }
            && eid == height && epeer == peer && *maybe_item == (match result {
            Some(block) => Some(BlockByHeight::Found(Box::new(block))),
            None => None,
        })),
{
    let maybe_item = match result {
        Some(block) => Some(BlockByHeight::from_block(block)),
        None => None,
    };
    Event::GetFromStorageResult { id: height, peer, maybe_item: Box::new(maybe_item) }
}

} // verus!

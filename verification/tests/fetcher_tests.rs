use fetcher::effect::Effect;
use fetcher::effect::StorageRequest;
use fetcher::error::Error;
use fetcher::event::Event;
use fetcher::event::FetchResponder;
use fetcher::event::FetchResult;
use fetcher::fetcher::block_by_height_storage_result;
use fetcher::fetcher::block_storage_result;
use fetcher::fetcher::deploy_storage_result;
use fetcher::fetcher::Config;
use fetcher::fetcher::Fetcher;
use fetcher::fetcher::ItemFetcher;
use fetcher::protocol::u64_to_le_bytes;
use fetcher::protocol::Message;
use fetcher::types::Block;
use fetcher::types::BlockByHeight;
use fetcher::types::BlockHash;
use fetcher::types::Deploy;
use fetcher::types::DeployHash;
use fetcher::types::Item;
use fetcher::types::NodeId;
use fetcher::types::Tag;
use fetcher::utils::Source;

fn deploy_fetcher(timeout: u64) -> Fetcher<Deploy> {
    Fetcher::<Deploy>::new(Config::new(timeout))
}

fn respond_token(effect: &Effect<Deploy>) -> (u64, Option<FetchResult<Deploy>>) {
    match effect {
        Effect::Respond { responder, outcome } => (responder.token(), outcome.clone()),
        _ => panic!("expected a Respond effect"),
    }
}

#[test]
fn storage_hit_resolves_from_storage() {
    let mut f = deploy_fetcher(10);
    let id = DeployHash(7);
    let peer = NodeId(1);
    let effects = f.handle_event(Event::Fetch { id, peer, responder: FetchResponder::new(1) });
    assert_eq!(effects.len(), 1);
    match &effects[0] {
        Effect::GetFromStorage { request, id: qid, peer: qpeer } => {
            assert_eq!(*qid, id);
            assert_eq!(*qpeer, peer);
            match request {
                StorageRequest::GetDeploys { hashes } => assert_eq!(hashes, &vec![id]),
                _ => panic!("expected a deploy batch lookup"),
            }
        }
        _ => panic!("expected a storage query"),
    }
    let item = Deploy { hash: id };
    let effects = f.handle_event(Event::GetFromStorageResult {
        id,
        peer,
        maybe_item: Box::new(Some(item)),
    });
    assert_eq!(effects.len(), 1);
    let (token, outcome) = respond_token(&effects[0]);
    assert_eq!(token, 1);
    assert_eq!(outcome, Some(FetchResult::FromStorage(Box::new(item))));
    assert!(f.responders.is_empty());
}

#[test]
fn storage_miss_sends_get_request_and_arms_timer() {
    let mut f = deploy_fetcher(10);
    let id = DeployHash(7);
    let peer = NodeId(1);
    f.handle_event(Event::Fetch { id, peer, responder: FetchResponder::new(1) });
    let effects = f.handle_event(Event::GetFromStorageResult {
        id,
        peer,
        maybe_item: Box::new(None),
    });
    assert_eq!(effects.len(), 2);
    match &effects[0] {
        Effect::SendMessage { peer: mpeer, message } => {
            assert_eq!(*mpeer, peer);
            let Message::GetRequest { tag, serialized_id } = message;
            assert_eq!(*tag, Tag::Deploy);
            assert_eq!(serialized_id, &vec![7, 0, 0, 0, 0, 0, 0, 0]);
        }
        _ => panic!("expected an outbound get-request"),
    }
    match &effects[1] {
        Effect::ScheduleTimeout { id: tid, peer: tpeer, after_secs } => {
            assert_eq!(*tid, id);
            assert_eq!(*tpeer, peer);
            assert_eq!(*after_secs, 10);
        }
        _ => panic!("expected an armed timer"),
    }
}

#[test]
fn peer_hit_resolves_from_peer_and_timer_is_noop() {
    let mut f = deploy_fetcher(10);
    let id = DeployHash(7);
    let peer = NodeId(1);
    f.handle_event(Event::Fetch { id, peer, responder: FetchResponder::new(1) });
    f.handle_event(Event::GetFromStorageResult { id, peer, maybe_item: Box::new(None) });
    let item = Deploy { hash: id };
    let effects = f.handle_event(Event::GotRemotely { item, source: Source::Peer(peer) });
    assert_eq!(effects.len(), 1);
    let (token, outcome) = respond_token(&effects[0]);
    assert_eq!(token, 1);
    assert_eq!(outcome, Some(FetchResult::FromPeer(item, peer)));
    assert!(f.responders.is_empty());
    let effects = f.handle_event(Event::TimeoutPeer { id, peer });
    assert_eq!(effects.len(), 0);
}

#[test]
fn peer_timeout_signals_none() {
    let mut f = deploy_fetcher(10);
    let id = DeployHash(7);
    let peer = NodeId(1);
    f.handle_event(Event::Fetch { id, peer, responder: FetchResponder::new(1) });
    f.handle_event(Event::GetFromStorageResult { id, peer, maybe_item: Box::new(None) });
    let effects = f.handle_event(Event::TimeoutPeer { id, peer });
    assert_eq!(effects.len(), 1);
    let (token, outcome) = respond_token(&effects[0]);
    assert_eq!(token, 1);
    assert_eq!(outcome, None);
    assert!(f.responders.is_empty());
}

#[test]
fn peer_absence_signals_none_and_late_timer_is_noop() {
    let mut f = deploy_fetcher(10);
    let id = DeployHash(7);
    let peer = NodeId(1);
    f.handle_event(Event::Fetch { id, peer, responder: FetchResponder::new(1) });
    f.handle_event(Event::GetFromStorageResult { id, peer, maybe_item: Box::new(None) });
    let effects = f.handle_event(Event::AbsentRemotely { id, peer });
    assert_eq!(effects.len(), 1);
    let (token, outcome) = respond_token(&effects[0]);
    assert_eq!(token, 1);
    assert_eq!(outcome, None);
    let effects = f.handle_event(Event::TimeoutPeer { id, peer });
    assert_eq!(effects.len(), 0);
    assert!(f.responders.is_empty());
}

#[test]
fn duplicate_negative_signal_is_noop() {
    let mut f = deploy_fetcher(10);
    let id = DeployHash(7);
    let peer = NodeId(1);
    f.handle_event(Event::Fetch { id, peer, responder: FetchResponder::new(1) });
    let first = f.handle_event(Event::AbsentRemotely { id, peer });
    assert_eq!(first.len(), 1);
    let second = f.handle_event(Event::AbsentRemotely { id, peer });
    assert_eq!(second.len(), 0);
}

#[test]
fn fan_out_positive_resolution_drains_all_peers() {
    let mut f = deploy_fetcher(10);
    let id = DeployHash(7);
    let peer1 = NodeId(1);
    let peer2 = NodeId(2);
    f.handle_event(Event::Fetch { id, peer: peer1, responder: FetchResponder::new(1) });
    f.handle_event(Event::Fetch { id, peer: peer2, responder: FetchResponder::new(2) });
    let sent1 = f.handle_event(Event::GetFromStorageResult {
        id,
        peer: peer1,
        maybe_item: Box::new(None),
    });
    let sent2 = f.handle_event(Event::GetFromStorageResult {
        id,
        peer: peer2,
        maybe_item: Box::new(None),
    });
    assert_eq!(sent1.len(), 2);
    assert_eq!(sent2.len(), 2);
    let item = Deploy { hash: id };
    let effects = f.handle_event(Event::GotRemotely { item, source: Source::Peer(peer2) });
    assert_eq!(effects.len(), 2);
    let (token1, outcome1) = respond_token(&effects[0]);
    let (token2, outcome2) = respond_token(&effects[1]);
    assert_eq!(token1, 1);
    assert_eq!(token2, 2);
    assert_eq!(outcome1, Some(FetchResult::FromPeer(item, peer2)));
    assert_eq!(outcome2, Some(FetchResult::FromPeer(item, peer2)));
    assert!(f.responders.is_empty());
}

#[test]
fn fan_out_timeout_drains_only_its_peer() {
    let mut f = deploy_fetcher(10);
    let id = DeployHash(7);
    let peer1 = NodeId(1);
    let peer2 = NodeId(2);
    f.handle_event(Event::Fetch { id, peer: peer1, responder: FetchResponder::new(1) });
    f.handle_event(Event::Fetch { id, peer: peer2, responder: FetchResponder::new(2) });
    f.handle_event(Event::GetFromStorageResult { id, peer: peer1, maybe_item: Box::new(None) });
    f.handle_event(Event::GetFromStorageResult { id, peer: peer2, maybe_item: Box::new(None) });
    let effects = f.handle_event(Event::TimeoutPeer { id, peer: peer1 });
    assert_eq!(effects.len(), 1);
    let (token, outcome) = respond_token(&effects[0]);
    assert_eq!(token, 1);
    assert_eq!(outcome, None);
    assert!(!f.responders.is_empty());
    assert!(f.responders.contains(&id));
    assert_eq!(f.responders.pending_for(&id, &peer1), 0);
    assert_eq!(f.responders.pending_for(&id, &peer2), 1);
    let item = Deploy { hash: id };
    let effects = f.handle_event(Event::GotRemotely { item, source: Source::Peer(peer2) });
    assert_eq!(effects.len(), 1);
    let (token, outcome) = respond_token(&effects[0]);
    assert_eq!(token, 2);
    assert_eq!(outcome, Some(FetchResult::FromPeer(item, peer2)));
    assert!(f.responders.is_empty());
}

#[test]
fn coalesced_fetches_are_delivered_together_in_order() {
    let mut f = deploy_fetcher(10);
    let id = DeployHash(7);
    let peer = NodeId(1);
    let q1 = f.handle_event(Event::Fetch { id, peer, responder: FetchResponder::new(1) });
    let q2 = f.handle_event(Event::Fetch { id, peer, responder: FetchResponder::new(2) });
    assert_eq!(q1.len(), 1);
    assert_eq!(q2.len(), 1);
    let item = Deploy { hash: id };
    let effects = f.handle_event(Event::GetFromStorageResult {
        id,
        peer,
        maybe_item: Box::new(Some(item)),
    });
    assert_eq!(effects.len(), 2);
    let (token1, outcome1) = respond_token(&effects[0]);
    let (token2, outcome2) = respond_token(&effects[1]);
    assert_eq!(token1, 1);
    assert_eq!(token2, 2);
    assert_eq!(outcome1, outcome2);
    assert_eq!(outcome1, Some(FetchResult::FromStorage(Box::new(item))));
    let duplicate = f.handle_event(Event::GetFromStorageResult {
        id,
        peer,
        maybe_item: Box::new(Some(item)),
    });
    assert_eq!(duplicate.len(), 0);
}

#[test]
fn zero_timeout_miss_resolves_none_on_next_tick() {
    let mut f = deploy_fetcher(0);
    let id = DeployHash(9);
    let peer = NodeId(3);
    f.handle_event(Event::Fetch { id, peer, responder: FetchResponder::new(5) });
    let effects = f.handle_event(Event::GetFromStorageResult {
        id,
        peer,
        maybe_item: Box::new(None),
    });
    match &effects[1] {
        Effect::ScheduleTimeout { after_secs, .. } => assert_eq!(*after_secs, 0),
        _ => panic!("expected an armed timer with zero delay"),
    }
    let effects = f.handle_event(Event::TimeoutPeer { id, peer });
    assert_eq!(effects.len(), 1);
    let (token, outcome) = respond_token(&effects[0]);
    assert_eq!(token, 5);
    assert_eq!(outcome, None);
}

#[test]
fn client_sourced_item_leaves_responders_pending() {
    let mut f = deploy_fetcher(10);
    let id = DeployHash(7);
    let peer = NodeId(1);
    f.handle_event(Event::Fetch { id, peer, responder: FetchResponder::new(1) });
    let item = Deploy { hash: id };
    let effects = f.handle_event(Event::GotRemotely { item, source: Source::Client });
    assert_eq!(effects.len(), 0);
    assert!(!f.responders.is_empty());
    let effects = f.handle_event(Event::GetFromStorageResult {
        id,
        peer,
        maybe_item: Box::new(Some(item)),
    });
    assert_eq!(effects.len(), 1);
    let (token, outcome) = respond_token(&effects[0]);
    assert_eq!(token, 1);
    assert_eq!(outcome, Some(FetchResult::FromStorage(Box::new(item))));
}

#[test]
fn block_fetcher_issues_point_lookup_by_hash() {
    let mut f = Fetcher::<Block>::new(Config::new(4));
    let id = BlockHash(11);
    let peer = NodeId(2);
    let effects = f.handle_event(Event::Fetch { id, peer, responder: FetchResponder::new(8) });
    assert_eq!(effects.len(), 1);
    match &effects[0] {
        Effect::GetFromStorage { request: StorageRequest::GetBlock { hash }, .. } => {
            assert_eq!(*hash, id);
        }
        _ => panic!("expected a block lookup by hash"),
    }
    let block = Block { hash: id, height: 3 };
    let effects = f.handle_event(Event::GetFromStorageResult {
        id,
        peer,
        maybe_item: Box::new(Some(block)),
    });
    assert_eq!(effects.len(), 1);
    match &effects[0] {
        Effect::Respond { responder, outcome } => {
            assert_eq!(responder.token(), 8);
            assert_eq!(outcome, &Some(FetchResult::FromStorage(Box::new(block))));
        }
        _ => panic!("expected a delivery"),
    }
}

#[test]
fn block_by_height_fetcher_issues_height_lookup() {
    let mut f = Fetcher::<BlockByHeight>::new(Config::new(4));
    let peer = NodeId(2);
    let effects = f.handle_event(Event::Fetch { id: 42, peer, responder: FetchResponder::new(9) });
    assert_eq!(effects.len(), 1);
    match &effects[0] {
        Effect::GetFromStorage { request: StorageRequest::GetBlockAtHeight { height }, .. } => {
            assert_eq!(*height, 42);
        }
        _ => panic!("expected a block lookup by height"),
    }
}

#[test]
fn deploy_storage_result_unwraps_single_element_batch() {
    let id = DeployHash(5);
    let peer = NodeId(6);
    let item = Deploy { hash: id };
    match deploy_storage_result(id, peer, vec![Some(item)]) {
        Event::GetFromStorageResult { id: eid, peer: epeer, maybe_item } => {
            assert_eq!(eid, id);
            assert_eq!(epeer, peer);
            assert_eq!(*maybe_item, Some(item));
        }
        _ => panic!("expected a storage-result event"),
    }
    match deploy_storage_result(id, peer, vec![None]) {
        Event::GetFromStorageResult { maybe_item, .. } => assert_eq!(*maybe_item, None),
        _ => panic!("expected a storage-result event"),
    }
}

#[test]
fn block_storage_result_carries_answer_through() {
    let id = BlockHash(5);
    let peer = NodeId(6);
    let block = Block { hash: id, height: 1 };
    match block_storage_result(id, peer, Some(block)) {
        Event::GetFromStorageResult { id: eid, peer: epeer, maybe_item } => {
            assert_eq!(eid, id);
            assert_eq!(epeer, peer);
            assert_eq!(*maybe_item, Some(block));
        }
        _ => panic!("expected a storage-result event"),
    }
}

#[test]
fn block_by_height_storage_result_wraps_found_block() {
    let peer = NodeId(6);
    let block = Block { hash: BlockHash(5), height: 42 };
    match block_by_height_storage_result(42, peer, Some(block)) {
        Event::GetFromStorageResult { id, maybe_item, .. } => {
            assert_eq!(id, 42);
            assert_eq!(*maybe_item, Some(BlockByHeight::Found(Box::new(block))));
        }
        _ => panic!("expected a storage-result event"),
    }
    match block_by_height_storage_result(43, peer, None) {
        Event::GetFromStorageResult { id, maybe_item, .. } => {
            assert_eq!(id, 43);
            assert_eq!(*maybe_item, None);
        }
        _ => panic!("expected a storage-result event"),
    }
}

#[test]
fn block_by_height_identifier_is_its_height() {
    let block = Block { hash: BlockHash(5), height: 42 };
    assert_eq!(BlockByHeight::Found(Box::new(block)).id(), 42);
    assert_eq!(BlockByHeight::Absent(17).id(), 17);
    assert_eq!(block.id(), BlockHash(5));
    assert_eq!(Deploy { hash: DeployHash(3) }.id(), DeployHash(3));
}

#[test]
fn u64_encoding_is_little_endian() {
    assert_eq!(
        u64_to_le_bytes(0x0102030405060708),
        vec![8, 7, 6, 5, 4, 3, 2, 1]
    );
    assert_eq!(u64_to_le_bytes(0), vec![0, 0, 0, 0, 0, 0, 0, 0]);
    assert_eq!(
        u64_to_le_bytes(u64::MAX),
        vec![255, 255, 255, 255, 255, 255, 255, 255]
    );
}

#[test]
fn get_request_carries_kind_tag_and_encoded_id() {
    match Message::new_get_request::<Deploy>(&DeployHash(7)) {
        Ok(Message::GetRequest { tag, serialized_id }) => {
            assert_eq!(tag, Tag::Deploy);
            assert_eq!(serialized_id, vec![7, 0, 0, 0, 0, 0, 0, 0]);
        }
        _ => panic!("expected a get-request"),
    }
    match Message::new_get_request::<Block>(&BlockHash(9)) {
        Ok(Message::GetRequest { tag, .. }) => assert_eq!(tag, Tag::Block),
        _ => panic!("expected a get-request"),
    }
    match Message::new_get_request::<BlockByHeight>(&3) {
        Ok(Message::GetRequest { tag, serialized_id }) => {
            assert_eq!(tag, Tag::BlockByHeight);
            assert_eq!(serialized_id, vec![3, 0, 0, 0, 0, 0, 0, 0]);
        }
        _ => panic!("expected a get-request"),
    }
}

#[test]
fn identifier_codec_round_trips() {
    let bytes = match Deploy::encode_id(&DeployHash(0xDEAD_BEEF)) {
        Ok(bytes) => bytes,
        Err(_) => panic!("deploy identifiers always encode"),
    };
    assert_eq!(Deploy::decode_id(&bytes), Ok(DeployHash(0xDEAD_BEEF)));
    let bytes = match Block::encode_id(&BlockHash(3)) {
        Ok(bytes) => bytes,
        Err(_) => panic!("block identifiers always encode"),
    };
    assert_eq!(Block::decode_id(&bytes), Ok(BlockHash(3)));
    let bytes = match BlockByHeight::encode_id(&u64::MAX) {
        Ok(bytes) => bytes,
        Err(_) => panic!("heights always encode"),
    };
    assert_eq!(BlockByHeight::decode_id(&bytes), Ok(u64::MAX));
}

#[test]
fn malformed_serialisation_is_rejected() {
    assert_eq!(Deploy::decode_id(&vec![1, 2, 3]), Err(Error::IdSerialization));
    assert_eq!(Block::decode_id(&vec![]), Err(Error::IdSerialization));
    assert_eq!(
        BlockByHeight::decode_id(&vec![0, 0, 0, 0, 0, 0, 0, 0, 0]),
        Err(Error::IdSerialization)
    );
}

#[test]
fn error_describes_itself() {
    assert_eq!(
        Error::IdSerialization.describe(),
        "failed to serialise item identifier"
    );
}

#[test]
fn fetcher_new_applies_config() {
    let f = deploy_fetcher(21);
    assert_eq!(f.get_from_peer_timeout, 21);
    assert_eq!(f.peer_timeout(), 21);
    assert!(f.responders.is_empty());
}

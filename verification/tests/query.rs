use dht::node::DhtNode;
use dht::query::{
    Answer, DhtObject, DhtPing, DhtPong, DhtQuery, FindNode, FindValue, Nodes, QueryResult, Store,
    Stored, ValueResult,
};
use dht::storage::{address_key_name, dht_key_from_key_id, StoreChecks};
use dht::types::{DhtError, DhtValue, KeyDescription, KeyKind, Node, Payload, PublicKey, UpdateRule};

const NOW: i32 = 1_700_000_000;

fn id_of(last: u8) -> [u8; 32] {
    let mut id = [0u8; 32];
    id[31] = last;
    id
}

fn record(tag: u8, version: i32) -> Node {
    Node {
        id: PublicKey { kind: KeyKind::Ed25519, data: vec![tag; 32] },
        addr_list: vec![203, 0, 113, tag],
        signature: vec![tag; 64],
        version,
    }
}

fn address_value(owner: u8, ttl: i32) -> DhtValue {
    DhtValue {
        key: KeyDescription {
            id: PublicKey { kind: KeyKind::Ed25519, data: vec![owner; 32] },
            key: dht_key_from_key_id(&id_of(owner), address_key_name()),
            signature: vec![3; 64],
            update_rule: UpdateRule::Signature,
        },
        ttl,
        signature: vec![4; 64],
        value: Payload::AddressList(vec![203, 0, 113, 7, 0x1B, 0x58]),
    }
}

fn store_of(owner: u8, ttl: i32, ok: bool) -> Store {
    Store {
        value: address_value(owner, ttl),
        checks: StoreChecks {
            key_hash: [owner; 32],
            signatures_ok: ok,
            owner_hash: id_of(owner),
            node_ok: Vec::new(),
        },
    }
}

#[test]
fn ping_is_answered_with_its_number_and_the_sender_is_added() {
    let a = id_of(1);
    let mut b = DhtNode::with_adnl_node(id_of(2));
    let nonce = 0xDEAD_BEEF_CAFE_F00Du64 as i64;
    let bundle = vec![
        DhtObject::Query(DhtQuery { node: record(1, 10) }),
        DhtObject::Ping(DhtPing { random_id: nonce }),
    ];
    assert_eq!(DhtNode::bundle_sender(&bundle), Some(record(1, 10)));
    let result = b.try_consume_query_bundle(bundle, Some(a), &record(2, 1), NOW);
    assert_eq!(
        result,
        Ok(QueryResult::Consumed(Answer::Pong(DhtPong { random_id: nonce })))
    );
    assert_eq!(b.known_peers_count(), 1);
    assert_eq!(b.get_known_nodes(10), Ok(vec![record(1, 10)]));
    let mut iter = None;
    assert_eq!(b.get_known_peer(&mut iter), Some(a));
}

#[test]
fn ping_alone_is_answered_too() {
    let mut b = DhtNode::with_adnl_node(id_of(2));
    let result = b.try_consume_query(DhtObject::Ping(DhtPing { random_id: -5 }), &record(2, 1), NOW);
    assert_eq!(result, Ok(QueryResult::Consumed(Answer::Pong(DhtPong { random_id: -5 }))));
    assert_eq!(b.process_ping(&DhtPing { random_id: 77 }), DhtPong { random_id: 77 });
    assert_eq!(b.known_peers_count(), 0);
}

#[test]
fn find_node_names_the_only_known_node() {
    let mut b = DhtNode::with_adnl_node([0u8; 32]);
    b.add_peer(&record(1, 10), Some(id_of(1)));
    let query = DhtObject::FindNode(FindNode { key: [0xFFu8; 32], k: 10 });
    let result = b.try_consume_query(query, &record(2, 1), NOW);
    assert_eq!(
        result,
        Ok(QueryResult::Consumed(Answer::Nodes(Nodes { nodes: vec![record(1, 10)] })))
    );
}

#[test]
fn find_value_hands_out_the_value_or_known_nodes() {
    let mut b = DhtNode::with_adnl_node([0u8; 32]);
    b.add_peer(&record(1, 10), Some(id_of(1)));
    b.add_peer(&record(3, 10), Some(id_of(3)));
    assert_eq!(b.process_store(&store_of(9, NOW + 60, true), NOW), Ok(Stored::Stored));
    let found = b.try_consume_query(
        DhtObject::FindValue(FindValue { key: [9u8; 32], k: 6 }),
        &record(2, 1),
        NOW,
    );
    assert_eq!(
        found,
        Ok(QueryResult::Consumed(Answer::Value(ValueResult::ValueFound(address_value(9, NOW + 60)))))
    );
    let missing = b.process_find_value(&FindValue { key: [8u8; 32], k: 6 }, NOW);
    match missing {
        ValueResult::ValueNotFound(found) => assert_eq!(found.nodes.len(), 2),
        other => panic!("unexpected {:?}", other),
    }
    let expired = b.process_find_value(&FindValue { key: [9u8; 32], k: 1 }, NOW + 60);
    match expired {
        ValueResult::ValueNotFound(found) => assert_eq!(found.nodes.len(), 1),
        other => panic!("unexpected {:?}", other),
    }
    let none = b.process_find_value(&FindValue { key: [8u8; 32], k: 0 }, NOW);
    assert_eq!(none, ValueResult::ValueNotFound(Nodes { nodes: Vec::new() }));
}

#[test]
fn request_for_the_signed_record_is_answered_with_it() {
    let mut b = DhtNode::with_adnl_node(id_of(2));
    let result = b.try_consume_query(DhtObject::GetSignedAddressList, &record(2, 33), NOW);
    assert_eq!(result, Ok(QueryResult::Consumed(Answer::Node(record(2, 33)))));
}

#[test]
fn store_is_served_or_fails_as_a_whole() {
    let mut b = DhtNode::with_adnl_node(id_of(2));
    let stored = b.try_consume_query(DhtObject::Store(store_of(9, NOW + 60, true)), &record(2, 1), NOW);
    assert_eq!(stored, Ok(QueryResult::Consumed(Answer::Stored(Stored::Stored))));
    assert_eq!(b.search_dht_key(&[9u8; 32], NOW), Some(address_value(9, NOW + 60)));
    let again = b.try_consume_query(DhtObject::Store(store_of(9, NOW + 30, true)), &record(2, 1), NOW);
    assert_eq!(again, Ok(QueryResult::Consumed(Answer::Stored(Stored::Stored))));
    assert_eq!(b.search_dht_key(&[9u8; 32], NOW), Some(address_value(9, NOW + 60)));
    let forged = b.try_consume_query(DhtObject::Store(store_of(7, NOW + 60, false)), &record(2, 1), NOW);
    assert_eq!(forged, Err(DhtError::SignatureInvalid));
    assert_eq!(b.search_dht_key(&[7u8; 32], NOW), None);
}

#[test]
fn expired_store_is_refused_and_changes_nothing() {
    let mut b = DhtNode::with_adnl_node(id_of(2));
    b.process_store(&store_of(9, NOW + 60, true), NOW).unwrap();
    let late = b.try_consume_query(DhtObject::Store(store_of(9, NOW - 1, true)), &record(2, 1), NOW);
    assert_eq!(late, Err(DhtError::Expired));
    assert_eq!(b.process_store(&store_of(5, NOW - 1, true), NOW), Err(DhtError::Expired));
    assert_eq!(b.search_dht_key(&[9u8; 32], NOW), Some(address_value(9, NOW + 60)));
    assert_eq!(b.search_dht_key(&[5u8; 32], NOW), None);
}

#[test]
fn object_that_is_no_query_goes_back() {
    let mut b = DhtNode::with_adnl_node(id_of(2));
    let other = DhtObject::Other(vec![1, 2, 3]);
    assert_eq!(
        b.try_consume_query(other.clone(), &record(2, 1), NOW),
        Ok(QueryResult::Rejected(other))
    );
    let envelope = DhtObject::Query(DhtQuery { node: record(1, 1) });
    assert_eq!(
        b.try_consume_query(envelope.clone(), &record(2, 1), NOW),
        Ok(QueryResult::Rejected(envelope))
    );
    assert_eq!(b.known_peers_count(), 0);
}

#[test]
fn bundle_of_another_shape_goes_back() {
    let mut b = DhtNode::with_adnl_node(id_of(2));
    let ping = DhtObject::Ping(DhtPing { random_id: 1 });
    let envelope = DhtObject::Query(DhtQuery { node: record(1, 1) });
    for bundle in [
        Vec::new(),
        vec![envelope.clone()],
        vec![ping.clone(), envelope.clone()],
        vec![ping.clone(), ping.clone()],
        vec![envelope.clone(), ping.clone(), ping.clone()],
    ] {
        assert_eq!(DhtNode::bundle_sender(&bundle), None);
        assert_eq!(
            b.try_consume_query_bundle(bundle.clone(), Some(id_of(1)), &record(2, 1), NOW),
            Ok(QueryResult::RejectedBundle(bundle))
        );
    }
    assert_eq!(b.known_peers_count(), 0);
}

#[test]
fn bundle_with_an_object_that_is_no_query_is_an_error() {
    let mut b = DhtNode::with_adnl_node(id_of(2));
    let bundle = vec![
        DhtObject::Query(DhtQuery { node: record(1, 1) }),
        DhtObject::Other(vec![0xAA]),
    ];
    assert_eq!(
        b.try_consume_query_bundle(bundle, Some(id_of(1)), &record(2, 1), NOW),
        Err(DhtError::MalformedWire)
    );
    assert_eq!(b.known_peers_count(), 1);
    let bundle = vec![
        DhtObject::Query(DhtQuery { node: record(3, 1) }),
        DhtObject::Store(store_of(9, NOW - 1, true)),
    ];
    assert_eq!(
        b.try_consume_query_bundle(bundle, None, &record(2, 1), NOW),
        Err(DhtError::Expired)
    );
    assert_eq!(b.known_peers_count(), 1);
}

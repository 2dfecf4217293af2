use dht::affinity::get_affinity;
use dht::node::DhtNode;
use dht::query::FindNode;
use dht::routing::RoutingTable;
use dht::types::{DhtError, KeyKind, Node, PublicKey};

fn id_with(byte: usize, value: u8) -> [u8; 32] {
    let mut id = [0u8; 32];
    id[byte] = value;
    id
}

fn record(tag: u8, version: i32) -> Node {
    Node {
        id: PublicKey { kind: KeyKind::Ed25519, data: vec![tag; 32] },
        addr_list: vec![tag, 9, 9],
        signature: vec![tag; 8],
        version,
    }
}

#[test]
fn table_files_and_finds_a_record() {
    let mut table = RoutingTable::new([0u8; 32]);
    assert_eq!(table.local(), [0u8; 32]);
    let peer = id_with(3, 0x10);
    assert_eq!(table.get(&peer), None);
    assert!(table.put(peer, &record(1, 5)));
    assert_eq!(table.get(&peer), Some(record(1, 5)));
    assert_eq!(table.get(&id_with(3, 0x11)), None);
}

#[test]
fn record_with_the_larger_version_stays() {
    let mut table = RoutingTable::new([0u8; 32]);
    let peer = id_with(0, 0x80);
    assert!(table.put(peer, &record(1, 5)));
    assert!(!table.put(peer, &record(2, 4)));
    assert_eq!(table.get(&peer), Some(record(1, 5)));
    assert!(!table.put(peer, &record(3, 5)));
    assert_eq!(table.get(&peer), Some(record(1, 5)));
    assert!(table.put(peer, &record(4, 6)));
    assert_eq!(table.get(&peer), Some(record(4, 6)));
    assert_eq!(table.iter_all(10).len(), 1);
}

#[test]
fn walk_goes_through_the_buckets_in_order() {
    let mut table = RoutingTable::new([0u8; 32]);
    let far = id_with(0, 0x80);
    let middle = id_with(10, 0x01);
    let near = id_with(31, 0x01);
    table.put(near, &record(3, 1));
    table.put(far, &record(1, 1));
    table.put(middle, &record(2, 1));
    assert_eq!(get_affinity(&[0u8; 32], &far), 0);
    assert_eq!(get_affinity(&[0u8; 32], &middle), 87);
    assert_eq!(get_affinity(&[0u8; 32], &near), 255);
    assert_eq!(table.iter_all(10), vec![record(1, 1), record(2, 1), record(3, 1)]);
    assert_eq!(table.iter_all(3), vec![record(1, 1), record(2, 1), record(3, 1)]);
    assert_eq!(table.iter_all(2), vec![record(1, 1), record(2, 1)]);
    assert_eq!(table.iter_all(1), vec![record(1, 1)]);
    assert!(table.iter_all(0).is_empty());
}

#[test]
fn walk_hands_out_every_record_of_a_bucket_once() {
    let mut table = RoutingTable::new([0u8; 32]);
    let mut expected = Vec::new();
    for n in 0..40u8 {
        let mut peer = id_with(0, 0x80);
        peer[20] = n;
        table.put(peer, &record(n, 1));
        expected.push(n);
    }
    table.put(id_with(5, 0x01), &record(200, 1));
    let nodes = table.iter_all(100);
    assert_eq!(nodes.len(), 41);
    assert_eq!(nodes[40], record(200, 1));
    let mut tags: Vec<u8> = nodes[..40].iter().map(|node| node.signature[0]).collect();
    tags.sort();
    assert_eq!(tags, expected);
    assert_eq!(table.iter_all(7).len(), 7);
}

#[test]
fn closest_to_an_added_node_is_that_node() {
    let mut dht = DhtNode::with_adnl_node([0u8; 32]);
    let far = id_with(0, 0x40);
    let node = id_with(7, 0x20);
    dht.add_peer(&record(1, 1), Some(far));
    dht.add_peer(&record(2, 1), Some(node));
    let found = dht.process_find_node(&FindNode { key: node, k: 1 });
    assert_eq!(found.nodes, vec![record(2, 1)]);
    let found = dht.process_find_node(&FindNode { key: far, k: 1 });
    assert_eq!(found.nodes, vec![record(1, 1)]);
}

#[test]
fn closest_visits_the_buckets_of_the_differing_bits() {
    let mut table = RoutingTable::new([0u8; 32]);
    let a = id_with(0, 0x80);
    let b = id_with(0, 0x20);
    let c = id_with(1, 0x01);
    let d = id_with(31, 0x01);
    table.put(a, &record(1, 1));
    table.put(b, &record(2, 1));
    table.put(c, &record(3, 1));
    table.put(d, &record(4, 1));
    let mut target = [0u8; 32];
    target[0] = 0x20;
    target[1] = 0x01;
    assert_eq!(table.closest_to(&target, 10), vec![record(2, 1), record(3, 1)]);
    assert_eq!(table.closest_to(&target, 1), vec![record(2, 1)]);
    assert!(table.closest_to(&target, 0).is_empty());
    assert_eq!(
        table.closest_to(&[0xFFu8; 32], 10),
        vec![record(1, 1), record(2, 1), record(3, 1), record(4, 1)]
    );
    assert_eq!(table.closest_to(&[0xFFu8; 32], 3), vec![record(1, 1), record(2, 1), record(3, 1)]);
}

#[test]
fn nothing_is_closest_to_the_local_identifier() {
    let mut table = RoutingTable::new([9u8; 32]);
    table.put(id_with(0, 0x80), &record(1, 1));
    table.put([9u8; 32], &record(2, 1));
    assert!(table.closest_to(&[9u8; 32], 10).is_empty());
    assert_eq!(table.iter_all(10).len(), 2);
}

#[test]
fn find_node_with_a_negative_count_sets_no_bound() {
    let mut dht = DhtNode::with_adnl_node([0u8; 32]);
    for n in 1..=12u8 {
        dht.add_peer(&record(n, 1), Some(id_with(0, 0x80 | n)));
    }
    let found = dht.process_find_node(&FindNode { key: [0xFFu8; 32], k: -1 });
    assert_eq!(found.nodes.len(), 12);
    let found = dht.process_find_node(&FindNode { key: [0xFFu8; 32], k: 10 });
    assert_eq!(found.nodes.len(), 10);
}

#[test]
fn known_nodes_are_not_asked_for_by_zero() {
    let mut dht = DhtNode::with_adnl_node([0u8; 32]);
    dht.add_peer(&record(1, 1), Some(id_with(0, 0x80)));
    assert_eq!(dht.get_known_nodes(0), Err(DhtError::InternalInvariant));
    assert_eq!(dht.get_known_nodes(1), Ok(vec![record(1, 1)]));
    assert_eq!(dht.get_known_nodes(5), Ok(vec![record(1, 1)]));
}

#[test]
fn peer_that_returns_after_it_was_dropped_gets_its_record_updated() {
    let mut dht = DhtNode::with_adnl_node([0u8; 32]);
    let peer = id_with(0, 0x80);
    assert_eq!(dht.add_peer(&record(1, 5), Some(peer)), Some(peer));
    assert_eq!(dht.get_known_nodes(5), Ok(vec![record(1, 5)]));
    assert_eq!(dht.key(), [0u8; 32]);
}

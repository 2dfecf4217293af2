use dht::affinity::get_affinity;
use dht::iterator::{sort_by_affinity, trim, DhtIterator};
use dht::node::DhtNode;
use dht::types::{KeyKind, Node, PublicKey};
use dht::MAX_TASKS;

fn id_with(byte: usize, value: u8, tag: u8) -> [u8; 32] {
    let mut id = [0u8; 32];
    id[byte] = value;
    id[31] = tag;
    id
}

fn record(tag: u8) -> Node {
    Node {
        id: PublicKey { kind: KeyKind::Ed25519, data: vec![tag; 32] },
        addr_list: vec![tag],
        signature: vec![tag],
        version: 1,
    }
}

fn entries(iter: &DhtIterator) -> Vec<(u8, [u8; 32])> {
    (0..iter.len()).map(|i| iter.entry(i)).collect()
}

fn node_with(peers: &[[u8; 32]]) -> DhtNode {
    let mut dht = DhtNode::with_adnl_node([0xFFu8; 32]);
    for (n, peer) in peers.iter().enumerate() {
        dht.add_peer(&record(n as u8), Some(*peer));
    }
    dht
}

#[test]
fn sort_is_by_ascending_affinity_and_stable() {
    let a = [1u8; 32];
    let b = [2u8; 32];
    let c = [3u8; 32];
    let d = [4u8; 32];
    let e = [5u8; 32];
    let order = vec![(9, a), (3, b), (9, c), (0, d), (3, e), (255, a)];
    assert_eq!(sort_by_affinity(&order), vec![(0, d), (3, b), (3, e), (9, a), (9, c), (255, a)]);
    assert_eq!(sort_by_affinity(&Vec::new()), Vec::new());
}

#[test]
fn trim_leaves_five_or_the_top_tier() {
    let p = [1u8; 32];
    let seven: Vec<(u8, [u8; 32])> = (1..=7u8).map(|n| (n, p)).collect();
    assert_eq!(trim(seven), vec![(3, p), (4, p), (5, p), (6, p), (7, p)]);
    let ties = vec![(1, p), (2, p), (9, p), (9, p), (9, p), (9, p), (9, p), (9, p)];
    assert_eq!(trim(ties), vec![(9, p); 6]);
    let few = vec![(1, p), (2, p), (3, p)];
    assert_eq!(trim(few.clone()), few);
    let five = vec![(1, p), (2, p), (3, p), (4, p), (5, p)];
    assert_eq!(trim(five.clone()), five);
    let mixed = vec![(1, p), (1, p), (7, p), (8, p), (9, p), (9, p)];
    assert_eq!(trim(mixed), vec![(1, p), (7, p), (8, p), (9, p), (9, p)]);
    assert_eq!(trim(Vec::new()), Vec::new());
}

#[test]
fn frontier_holds_the_closest_peers() {
    let target = [0u8; 32];
    let peers: Vec<[u8; 32]> = vec![
        id_with(0, 0x80, 1),
        id_with(0, 0x01, 2),
        id_with(3, 0x10, 3),
        id_with(0, 0x40, 4),
        id_with(10, 0x01, 5),
        id_with(1, 0x80, 6),
        id_with(20, 0xFF, 7),
    ];
    let dht = node_with(&peers);
    let iter = DhtIterator::with_key_id(&dht, target);
    assert_eq!(iter.key_id(), target);
    assert!(iter.serves(&target));
    assert!(!iter.serves(&[1u8; 32]));
    assert_eq!(iter.len(), MAX_TASKS as usize);
    assert_eq!(
        entries(&iter),
        vec![
            (7, peers[1]),
            (8, peers[5]),
            (27, peers[2]),
            (87, peers[4]),
            (160, peers[6]),
        ]
    );
    for (affinity, peer) in entries(&iter) {
        assert_eq!(affinity, get_affinity(&peer, &target));
    }
}

#[test]
fn frontier_of_few_peers_holds_them_all() {
    let peers = vec![id_with(0, 0x80, 1), id_with(5, 0x01, 2), id_with(0, 0x40, 3)];
    let dht = node_with(&peers);
    let iter = DhtIterator::with_key_id(&dht, [0u8; 32]);
    assert_eq!(entries(&iter), vec![(0, peers[0]), (1, peers[2]), (47, peers[1])]);
    let empty = DhtIterator::with_key_id(&DhtNode::with_adnl_node([1u8; 32]), [0u8; 32]);
    assert!(empty.is_empty());
}

#[test]
fn frontier_keeps_every_peer_of_the_top_tier() {
    let peers: Vec<[u8; 32]> = (1..=8u8).map(|n| id_with(2, 0x80, n)).collect();
    let mut all = peers.clone();
    all.push(id_with(0, 0x80, 9));
    let dht = node_with(&all);
    let iter = DhtIterator::with_key_id(&dht, [0u8; 32]);
    let expected: Vec<(u8, [u8; 32])> = peers.iter().map(|peer| (16, *peer)).collect();
    assert_eq!(entries(&iter), expected);
}

#[test]
fn update_takes_in_the_peers_that_came_since() {
    let first = vec![id_with(0, 0x80, 1), id_with(0, 0x40, 2)];
    let mut dht = node_with(&first);
    let mut iter = DhtIterator::with_key_id(&dht, [0u8; 32]);
    assert_eq!(entries(&iter), vec![(0, first[0]), (1, first[1])]);
    iter.update(&dht);
    assert_eq!(entries(&iter), vec![(0, first[0]), (1, first[1])]);
    let later = id_with(4, 0x01, 3);
    dht.add_peer(&record(3), Some(later));
    iter.update(&dht);
    assert_eq!(entries(&iter), vec![(0, first[0]), (1, first[1]), (39, later)]);
    assert_eq!(iter.pop(), Some((39, later)));
    assert_eq!(iter.len(), 2);
    iter.update(&dht);
    assert_eq!(entries(&iter), vec![(0, first[0]), (1, first[1])]);
    assert_eq!(iter.pop(), Some((1, first[1])));
    assert_eq!(iter.pop(), Some((0, first[0])));
    assert_eq!(iter.pop(), None);
    assert!(iter.is_empty());
}

#[test]
fn score_lowers_the_effective_affinity() {
    let peers = vec![id_with(2, 0x80, 1), id_with(2, 0x40, 2), id_with(0, 0x40, 3)];
    let mut dht = node_with(&peers);
    dht.set_query_result(false, &peers[0]);
    dht.set_query_result(false, &peers[2]);
    dht.set_query_result(false, &peers[2]);
    let iter = DhtIterator::with_key_id(&dht, [0u8; 32]);
    assert_eq!(entries(&iter), vec![(0, peers[2]), (14, peers[0]), (17, peers[1])]);
}

#[test]
fn peer_that_timed_out_five_times_is_not_in_the_frontier() {
    let peers = vec![id_with(2, 0x80, 1), id_with(2, 0x40, 2)];
    let mut dht = node_with(&peers);
    for _ in 0..5 {
        dht.set_query_result(false, &peers[1]);
    }
    let iter = DhtIterator::with_key_id(&dht, [0u8; 32]);
    assert_eq!(entries(&iter), vec![(16, peers[0])]);
    let affinity = get_affinity(&peers[1], &[0u8; 32]);
    let before = affinity.saturating_sub(dht.peer_score(&peers[1]));
    dht.set_query_result(true, &peers[1]);
    let after = affinity.saturating_sub(dht.peer_score(&peers[1]));
    assert_eq!(before, 11);
    assert_eq!(after, before + 1);
}

#[test]
fn frontier_holds_five_or_all_healthy_peers_after_updates() {
    let mut dht = DhtNode::with_adnl_node([0xFFu8; 32]);
    let mut iter = DhtIterator::with_key_id(&dht, [0u8; 32]);
    let mut seen = 0usize;
    let mut dropped_max: Option<u8> = None;
    let mut held: Vec<(u8, [u8; 32])> = Vec::new();
    for round in 0..6u8 {
        let mut fresh: Vec<(u8, [u8; 32])> = Vec::new();
        for n in 0..3u8 {
            let peer = id_with((round * 5 + n * 2) as usize % 30, 0x80 >> (n + round % 3), round * 3 + n + 1);
            dht.add_peer(&record(round * 3 + n), Some(peer));
            fresh.push((get_affinity(&peer, &[0u8; 32]), peer));
            seen += 1;
        }
        iter.update(&dht);
        let now = entries(&iter);
        for entry in held.iter().chain(fresh.iter()) {
            if !now.contains(entry) {
                dropped_max = Some(dropped_max.map_or(entry.0, |max| max.max(entry.0)));
            }
        }
        assert!(now.len() >= seen.min(MAX_TASKS as usize));
        if let Some(max) = dropped_max {
            for entry in now.iter() {
                assert!(entry.0 >= max);
            }
        }
        held = now;
    }
    assert_eq!(seen, 18);
}

#[test]
fn frontier_is_exhausted_when_empty_and_all_peers_were_looked_at() {
    let peers = vec![id_with(0, 0x80, 1), id_with(0, 0x40, 2)];
    let mut dht = node_with(&peers);
    let mut iter = DhtIterator::with_key_id(&dht, [0u8; 32]);
    assert!(!iter.is_exhausted(&dht));
    iter.pop();
    assert!(!iter.is_exhausted(&dht));
    iter.pop();
    assert!(iter.is_exhausted(&dht));
    dht.add_peer(&record(3), Some(id_with(0, 0x20, 3)));
    assert!(!iter.is_exhausted(&dht));
    iter.update(&dht);
    assert!(!iter.is_exhausted(&dht));
    assert_eq!(iter.pop(), Some((2, id_with(0, 0x20, 3))));
    assert!(iter.is_exhausted(&dht));
}

#[test]
fn frontier_of_many_peers_holds_the_top_tier() {
    let mut dht = DhtNode::with_adnl_node([0xFFu8; 32]);
    let mut best = 0u8;
    for n in 0..2000u32 {
        let mut peer = [0u8; 32];
        peer[0] = (n % 251) as u8;
        peer[1] = (n / 251) as u8;
        peer[2] = (n % 7) as u8;
        dht.add_peer(&record((n % 200) as u8), Some(peer));
        best = best.max(get_affinity(&peer, &[0u8; 32]));
    }
    assert_eq!(dht.known_peers_count(), 2000);
    assert_eq!(dht.get_known_nodes(5000).unwrap().len(), 2000);
    let iter = DhtIterator::with_key_id(&dht, [0u8; 32]);
    let held = entries(&iter);
    assert!(held.len() >= MAX_TASKS as usize);
    assert_eq!(held.last().unwrap().0, best);
    for pair in held.windows(2) {
        assert!(pair[0].0 <= pair[1].0);
    }
    for (affinity, peer) in held {
        assert_eq!(affinity, get_affinity(&peer, &[0u8; 32]));
    }
}

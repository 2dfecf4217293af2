use dht::node::DhtNode;
use dht::policy::DhtSearchPolicy;
use dht::publish::{overlay_node_stored, sign_key_description, sign_value, PublishStep, StoreSweep};
use dht::query::{FindValue, Store, ValueResult};
use dht::search::{FoundValue, SearchStep, Suggested, ValueReply};
use dht::storage::{address_key_name, StoreChecks};
use dht::types::{DhtValue, KeyKind, Node, OverlayNode, Payload, PayloadKind, PublicKey};
use dht::{FIND_VALUE_COUNT, MAX_TASKS};

const NOW: i32 = 1_700_000_000;

struct Network {
    nodes: Vec<DhtNode>,
}

fn id_of(n: u8) -> [u8; 32] {
    let mut id = [0u8; 32];
    id[0] = n.wrapping_mul(37);
    id[31] = n;
    id
}

fn record_of(n: u8) -> Node {
    Node {
        id: PublicKey { kind: KeyKind::Ed25519, data: id_of(n).to_vec() },
        addr_list: vec![10, 0, 0, n],
        signature: vec![n; 64],
        version: 1,
    }
}

fn registered(node: &Node) -> Option<[u8; 32]> {
    let mut id = [0u8; 32];
    if node.id.data.len() != 32 {
        return None;
    }
    id.copy_from_slice(&node.id.data);
    Some(id)
}

impl Network {
    fn with_nodes(count: u8) -> Network {
        Network { nodes: (0..count).map(|n| DhtNode::with_adnl_node(id_of(n))).collect() }
    }

    fn index_of(&self, id: &[u8; 32]) -> usize {
        self.nodes.iter().position(|node| node.key() == *id).unwrap()
    }

    fn introduce(&mut self, node: u8, peer: u8) {
        self.nodes[node as usize].add_peer(&record_of(peer), Some(id_of(peer)));
    }

    fn find_value(
        &mut self,
        asker: u8,
        key: [u8; 32],
        accept: PayloadKind,
        all: bool,
    ) -> Vec<FoundValue> {
        let asker = asker as usize;
        let policy = DhtSearchPolicy::FullSearch(MAX_TASKS);
        let mut kept = None;
        let mut search =
            self.nodes[asker].find_value(&key, accept, &policy, all, &mut kept).unwrap();
        let mut waiting: Vec<[u8; 32]> = Vec::new();
        loop {
            waiting.extend(search.fill_window());
            loop {
                let completion = if search.awaits() {
                    let peer = waiting.remove(0);
                    let at = self.index_of(&peer);
                    let query = FindValue { key, k: FIND_VALUE_COUNT };
                    let reply = match self.nodes[at].process_find_value(&query, NOW) {
                        ValueResult::ValueFound(value) => ValueReply::Found(value),
                        ValueResult::ValueNotFound(found) => ValueReply::NotFound(
                            found
                                .nodes
                                .into_iter()
                                .map(|node| Suggested { registered: registered(&node), node })
                                .collect(),
                        ),
                    };
                    Some(self.nodes[asker].value_query(&peer, Some(reply), search.accept()))
                } else {
                    None
                };
                match search.harvest(&self.nodes[asker], completion) {
                    SearchStep::Harvest => continue,
                    SearchStep::Refill => break,
                    SearchStep::Stop => return search.finish(&mut kept),
                }
            }
        }
    }

    fn publish(&mut self, publisher: u8, store: &Store, verify: &dyn Fn(&Vec<FoundValue>) -> bool, accept: PayloadKind, all: bool) -> bool {
        let mut sweep = StoreSweep::new();
        let mut verdict = None;
        loop {
            match self.nodes[publisher as usize].store_value(&mut sweep, verdict) {
                PublishStep::Done(verified) => return verified,
                PublishStep::Send(peers) => {
                    for peer in peers {
                        let at = self.index_of(&peer);
                        let answered = self.nodes[at].process_store(store, NOW).is_ok();
                        self.nodes[publisher as usize].set_query_result(answered, &peer);
                    }
                    let found = self.find_value(publisher, store.checks.key_hash, accept, all);
                    verdict = Some(verify(&found));
                },
            }
        }
    }
}

fn member(n: u8, version: i32) -> OverlayNode {
    OverlayNode {
        id: PublicKey { kind: KeyKind::Ed25519, data: vec![n; 32] },
        overlay: [0xEE; 32],
        version,
        signature: vec![n; 64],
    }
}

fn overlay_key() -> PublicKey {
    PublicKey { kind: KeyKind::Overlay, data: b"overlay".to_vec() }
}

const ROSTER_KEY: [u8; 32] = [0xAB; 32];

fn roster_store(value: DhtValue) -> Store {
    Store {
        value,
        checks: StoreChecks {
            key_hash: ROSTER_KEY,
            signatures_ok: false,
            owner_hash: [0xEE; 32],
            node_ok: vec![true],
        },
    }
}

fn publish_member(network: &mut Network, publisher: u8, node: &OverlayNode) -> bool {
    let value = network.nodes[publisher as usize]
        .store_overlay_node(&overlay_key(), &[0xEE; 32], ROSTER_KEY, node, true, NOW)
        .unwrap();
    let store = roster_store(value);
    let wanted = node.clone();
    network.publish(
        publisher,
        &store,
        &move |found| overlay_node_stored(found, &wanted).unwrap(),
        PayloadKind::OverlayNodes,
        true,
    )
}

fn rosters_of(found: &[FoundValue]) -> Vec<OverlayNode> {
    let mut nodes = Vec::new();
    for value in found {
        match &value.value {
            Payload::OverlayNodes(roster) => nodes.extend(roster.iter().cloned()),
            other => panic!("no roster: {:?}", other),
        }
    }
    nodes
}

#[test]
fn published_address_is_found_through_the_publisher() {
    let mut network = Network::with_nodes(2);
    let key_hash = [0x11u8; 32];
    let key = sign_key_description(address_key_name(), &record_of(0).id, &id_of(0));
    let list = vec![203, 0, 113, 7, 0x1B, 0x58];
    let mut value = sign_value(key.clone(), Payload::AddressList(list.clone()), NOW);
    value.signature = vec![9; 64];
    assert_eq!(network.nodes[0].process_store_signed_value(key_hash, &value, true), Ok(true));
    assert_eq!(network.nodes[0].fetch_address(&key_hash, NOW), Ok(Some((key.clone(), list.clone()))));
    network.introduce(1, 0);
    let found = network.find_value(1, key_hash, PayloadKind::AddressList, false);
    assert_eq!(found, vec![FoundValue { key, value: Payload::AddressList(list) }]);
    assert!(network.find_value(1, [0x12u8; 32], PayloadKind::AddressList, false).is_empty());
}

#[test]
fn publication_succeeds_when_a_peer_takes_the_value() {
    let mut network = Network::with_nodes(4);
    network.introduce(0, 1);
    network.introduce(0, 2);
    assert!(publish_member(&mut network, 0, &member(1, 10)));
    for peer in [1usize, 2] {
        let stored = network.nodes[peer].search_dht_key(&ROSTER_KEY, NOW).unwrap();
        assert_eq!(stored.value, Payload::OverlayNodes(vec![member(1, 10)]));
    }
    assert!(!publish_member(&mut network, 3, &member(2, 1)));
}

#[test]
fn rosters_of_two_publishers_merge_at_a_common_peer() {
    let mut network = Network::with_nodes(4);
    network.introduce(0, 2);
    network.introduce(1, 2);
    network.introduce(3, 2);
    assert!(publish_member(&mut network, 0, &member(1, 10)));
    let second = network.nodes[1]
        .store_overlay_node(&overlay_key(), &[0xEE; 32], ROSTER_KEY, &member(1, 12), true, NOW)
        .unwrap();
    let mut store = roster_store(second);
    match &mut store.value.value {
        Payload::OverlayNodes(nodes) => nodes.push(member(2, 1)),
        _ => unreachable!(),
    }
    store.checks.node_ok = vec![true, true];
    assert!(network.nodes[2].process_store(&store, NOW).is_ok());
    let found = network.find_value(3, ROSTER_KEY, PayloadKind::OverlayNodes, true);
    let mut nodes = rosters_of(&found);
    nodes.sort_by_key(|node| node.id.data.clone());
    assert_eq!(nodes, vec![member(1, 12), member(2, 1)]);
}

#[test]
fn third_party_finds_a_node_published_into_disjoint_peer_sets() {
    let mut network = Network::with_nodes(8);
    let node = member(7, 3);
    network.introduce(0, 2);
    network.introduce(0, 3);
    network.introduce(1, 4);
    network.introduce(1, 5);
    assert!(publish_member(&mut network, 0, &node));
    assert!(publish_member(&mut network, 1, &node));
    network.introduce(6, 7);
    network.introduce(7, 3);
    network.introduce(7, 5);
    let found = network.find_value(6, ROSTER_KEY, PayloadKind::OverlayNodes, true);
    assert!(!found.is_empty());
    assert!(rosters_of(&found).contains(&node));
    assert_eq!(overlay_node_stored(&found, &node), Ok(true));
}

#[test]
fn search_reaches_a_value_over_suggested_nodes() {
    let mut network = Network::with_nodes(6);
    for n in 0..5u8 {
        network.introduce(n, n + 1);
    }
    let key_hash = [0x44u8; 32];
    let key = sign_key_description(address_key_name(), &record_of(5).id, &id_of(5));
    let mut value = sign_value(key.clone(), Payload::AddressList(vec![5]), NOW);
    value.signature = vec![1];
    network.nodes[5].process_store_signed_value(key_hash, &value, true).unwrap();
    let found = network.find_value(0, key_hash, PayloadKind::AddressList, false);
    assert_eq!(found, vec![FoundValue { key, value: Payload::AddressList(vec![5]) }]);
    assert_eq!(network.nodes[0].known_peers_count(), 5);
}

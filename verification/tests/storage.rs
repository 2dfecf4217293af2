use dht::storage::{
    address_key_name, dht_key_from_key_id, nodes_key_name, same_roster, StoreChecks, ValueStore,
};
use dht::types::{
    DhtError, DhtValue, KeyDescription, KeyKind, OverlayNode, Payload, PublicKey, UpdateRule,
};

const NOW: i32 = 1_000_000;

fn key_hash(n: u8) -> [u8; 32] {
    [n; 32]
}

fn signed_value(owner: u8, ttl: i32, payload: u8) -> DhtValue {
    DhtValue {
        key: KeyDescription {
            id: PublicKey { kind: KeyKind::Ed25519, data: vec![owner; 32] },
            key: dht_key_from_key_id(&[owner; 32], address_key_name()),
            signature: vec![1; 64],
            update_rule: UpdateRule::Signature,
        },
        ttl,
        signature: vec![2; 64],
        value: Payload::AddressList(vec![payload; 4]),
    }
}

fn signed_checks(owner: u8, ok: bool) -> StoreChecks {
    StoreChecks { key_hash: key_hash(owner), signatures_ok: ok, owner_hash: [owner; 32], node_ok: Vec::new() }
}

fn member(n: u8, version: i32) -> OverlayNode {
    OverlayNode {
        id: PublicKey { kind: KeyKind::Ed25519, data: vec![n; 32] },
        overlay: [0xEE; 32],
        version,
        signature: vec![n, version as u8],
    }
}

fn roster_value(ttl: i32, nodes: Vec<OverlayNode>) -> DhtValue {
    DhtValue {
        key: KeyDescription {
            id: PublicKey { kind: KeyKind::Overlay, data: vec![7, 7, 7] },
            key: dht_key_from_key_id(&[0xEE; 32], nodes_key_name()),
            signature: Vec::new(),
            update_rule: UpdateRule::OverlayNodes,
        },
        ttl,
        signature: Vec::new(),
        value: Payload::OverlayNodes(nodes),
    }
}

fn roster_checks(ok: Vec<bool>) -> StoreChecks {
    StoreChecks { key_hash: key_hash(0xAB), signatures_ok: false, owner_hash: [0xEE; 32], node_ok: ok }
}

fn stored_roster(store: &ValueStore, now: i32) -> Vec<OverlayNode> {
    match store.search_dht_key(&key_hash(0xAB), now).map(|value| value.value) {
        Some(Payload::OverlayNodes(nodes)) => nodes,
        other => panic!("no roster stored: {:?}", other),
    }
}

#[test]
fn key_names_are_the_ascii_names() {
    assert_eq!(nodes_key_name(), b"nodes".to_vec());
    assert_eq!(address_key_name(), b"address".to_vec());
    let key = dht_key_from_key_id(&[5; 32], nodes_key_name());
    assert_eq!(key.id, [5; 32]);
    assert_eq!(key.idx, 0);
    assert_eq!(key.name, b"nodes".to_vec());
}

#[test]
fn signed_value_is_stored_and_found() {
    let mut store = ValueStore::new();
    assert_eq!(store.search_dht_key(&key_hash(1), NOW), None);
    let value = signed_value(1, NOW + 100, 9);
    assert_eq!(store.process_store(&value, &signed_checks(1, true), NOW), Ok(true));
    assert_eq!(store.search_dht_key(&key_hash(1), NOW), Some(value));
    assert_eq!(store.search_dht_key(&key_hash(2), NOW), None);
}

#[test]
fn stored_value_is_found_until_it_expires() {
    let mut store = ValueStore::new();
    let value = signed_value(1, NOW + 100, 9);
    store.process_store(&value, &signed_checks(1, true), NOW).unwrap();
    assert!(store.search_dht_key(&key_hash(1), NOW + 99).is_some());
    assert_eq!(store.search_dht_key(&key_hash(1), NOW + 100), None);
    assert_eq!(store.search_dht_key(&key_hash(1), NOW + 101), None);
    assert_eq!(store.search_dht_key(&key_hash(1), i32::MAX), None);
}

#[test]
fn signed_value_gives_way_to_a_larger_ttl_only() {
    let mut store = ValueStore::new();
    let first = signed_value(1, NOW + 100, 1);
    let smaller = signed_value(1, NOW + 50, 2);
    let equal = signed_value(1, NOW + 100, 3);
    let larger = signed_value(1, NOW + 101, 4);
    assert_eq!(store.process_store(&first, &signed_checks(1, true), NOW), Ok(true));
    assert_eq!(store.process_store(&smaller, &signed_checks(1, true), NOW), Ok(false));
    assert_eq!(store.search_dht_key(&key_hash(1), NOW), Some(first.clone()));
    assert_eq!(store.process_store(&equal, &signed_checks(1, true), NOW), Ok(false));
    assert_eq!(store.search_dht_key(&key_hash(1), NOW), Some(first));
    assert_eq!(store.process_store(&larger, &signed_checks(1, true), NOW), Ok(true));
    assert_eq!(store.search_dht_key(&key_hash(1), NOW), Some(larger));
}

#[test]
fn value_with_a_bad_signature_is_never_stored() {
    let mut store = ValueStore::new();
    let value = signed_value(1, NOW + 100, 9);
    assert_eq!(
        store.process_store(&value, &signed_checks(1, false), NOW),
        Err(DhtError::SignatureInvalid)
    );
    assert_eq!(store.search_dht_key(&key_hash(1), NOW), None);
    assert_eq!(
        store.process_store_signed_value(key_hash(1), &value, false),
        Err(DhtError::SignatureInvalid)
    );
    assert_eq!(store.search_dht_key(&key_hash(1), NOW), None);
}

#[test]
fn expired_value_is_refused() {
    let mut store = ValueStore::new();
    let kept = signed_value(1, NOW + 100, 1);
    store.process_store(&kept, &signed_checks(1, true), NOW).unwrap();
    let late = signed_value(1, NOW - 1, 2);
    assert_eq!(store.process_store(&late, &signed_checks(1, true), NOW), Err(DhtError::Expired));
    let just = signed_value(1, NOW, 2);
    assert_eq!(store.process_store(&just, &signed_checks(1, true), NOW), Err(DhtError::Expired));
    assert_eq!(store.search_dht_key(&key_hash(1), NOW), Some(kept));
    let roster = roster_value(NOW, vec![member(1, 1)]);
    assert_eq!(store.process_store(&roster, &roster_checks(vec![true]), NOW), Err(DhtError::Expired));
}

#[test]
fn update_rule_anybody_is_not_served() {
    let mut store = ValueStore::new();
    let mut value = signed_value(1, NOW + 100, 9);
    value.key.update_rule = UpdateRule::Anybody;
    assert_eq!(
        store.process_store(&value, &signed_checks(1, true), NOW),
        Err(DhtError::UnsupportedUpdateRule)
    );
    assert_eq!(store.search_dht_key(&key_hash(1), NOW), None);
}

#[test]
fn rosters_are_merged_by_version() {
    let mut store = ValueStore::new();
    let first = roster_value(NOW + 100, vec![member(1, 10)]);
    assert_eq!(store.process_store(&first, &roster_checks(vec![true]), NOW), Ok(true));
    assert_eq!(stored_roster(&store, NOW), vec![member(1, 10)]);
    let second = roster_value(NOW + 100, vec![member(1, 12), member(2, 1)]);
    assert_eq!(store.process_store(&second, &roster_checks(vec![true, true]), NOW), Ok(true));
    let mut merged = stored_roster(&store, NOW);
    merged.sort_by_key(|node| node.id.data.clone());
    assert_eq!(merged, vec![member(1, 12), member(2, 1)]);
}

#[test]
fn merge_keeps_the_larger_version_of_each_node() {
    let mut store = ValueStore::new();
    let first = roster_value(NOW + 100, vec![member(1, 5), member(2, 7), member(3, 1)]);
    store.process_store(&first, &roster_checks(vec![true, true, true]), NOW).unwrap();
    assert_eq!(stored_roster(&store, NOW), vec![member(3, 1), member(2, 7), member(1, 5)]);
    let second = roster_value(NOW + 200, vec![member(2, 6), member(4, 1), member(1, 9)]);
    assert_eq!(store.process_store(&second, &roster_checks(vec![true, true, true]), NOW), Ok(true));
    assert_eq!(
        stored_roster(&store, NOW),
        vec![member(3, 1), member(2, 7), member(1, 9), member(4, 1)]
    );
    assert_eq!(store.search_dht_key(&key_hash(0xAB), NOW).unwrap().ttl, NOW + 200);
}

#[test]
fn roster_without_news_and_without_a_larger_ttl_changes_nothing() {
    let mut store = ValueStore::new();
    let first = roster_value(NOW + 100, vec![member(1, 5), member(2, 7)]);
    store.process_store(&first, &roster_checks(vec![true, true]), NOW).unwrap();
    let same = roster_value(NOW + 100, vec![member(1, 5)]);
    assert_eq!(store.process_store(&same, &roster_checks(vec![true]), NOW), Ok(false));
    let older = roster_value(NOW + 50, vec![member(2, 3)]);
    assert_eq!(store.process_store(&older, &roster_checks(vec![true]), NOW), Ok(false));
    assert_eq!(store.search_dht_key(&key_hash(0xAB), NOW).unwrap().ttl, NOW + 100);
    let later = roster_value(NOW + 150, vec![member(2, 3)]);
    assert_eq!(store.process_store(&later, &roster_checks(vec![true]), NOW), Ok(true));
    assert_eq!(store.search_dht_key(&key_hash(0xAB), NOW).unwrap().ttl, NOW + 150);
    assert_eq!(stored_roster(&store, NOW), vec![member(2, 7), member(1, 5)]);
    let news = roster_value(NOW + 20, vec![member(9, 1)]);
    assert_eq!(store.process_store(&news, &roster_checks(vec![true]), NOW), Ok(true));
    assert_eq!(store.search_dht_key(&key_hash(0xAB), NOW).unwrap().ttl, NOW + 20);
    assert_eq!(stored_roster(&store, NOW), vec![member(2, 7), member(1, 5), member(9, 1)]);
}

#[test]
fn expired_roster_counts_as_empty() {
    let mut store = ValueStore::new();
    let first = roster_value(NOW + 10, vec![member(1, 5), member(2, 7)]);
    store.process_store(&first, &roster_checks(vec![true, true]), NOW).unwrap();
    let later = NOW + 10;
    let second = roster_value(later + 100, vec![member(3, 1)]);
    assert_eq!(store.process_store(&second, &roster_checks(vec![true]), later), Ok(true));
    assert_eq!(stored_roster(&store, later), vec![member(3, 1)]);
}

#[test]
fn nodes_that_fail_their_check_are_left_out() {
    let mut store = ValueStore::new();
    let value = roster_value(NOW + 100, vec![member(1, 1), member(2, 1), member(3, 1)]);
    assert_eq!(store.process_store(&value, &roster_checks(vec![true, false, true]), NOW), Ok(true));
    assert_eq!(stored_roster(&store, NOW), vec![member(3, 1), member(1, 1)]);
    let short = roster_value(NOW + 100, vec![member(4, 1), member(5, 1)]);
    assert_eq!(store.process_store(&short, &roster_checks(vec![true]), NOW), Ok(true));
    assert_eq!(stored_roster(&store, NOW), vec![member(3, 1), member(1, 1), member(4, 1)]);
}

#[test]
fn roster_without_a_valid_node_is_refused() {
    let mut store = ValueStore::new();
    let empty = roster_value(NOW + 100, Vec::new());
    assert_eq!(
        store.process_store(&empty, &roster_checks(Vec::new()), NOW),
        Err(DhtError::EmptyOverlayList)
    );
    let invalid = roster_value(NOW + 100, vec![member(1, 1), member(2, 1)]);
    assert_eq!(
        store.process_store(&invalid, &roster_checks(vec![false, false]), NOW),
        Err(DhtError::EmptyOverlayList)
    );
    assert_eq!(store.search_dht_key(&key_hash(0xAB), NOW), None);
}

#[test]
fn roster_value_must_have_the_shape_of_one() {
    let mut store = ValueStore::new();
    let good = roster_value(NOW + 100, vec![member(1, 1)]);
    let mut signed = good.clone();
    signed.signature = vec![1];
    assert_eq!(
        store.process_store(&signed, &roster_checks(vec![true]), NOW),
        Err(DhtError::SignatureInvalid)
    );
    let mut key_signed = good.clone();
    key_signed.key.signature = vec![1];
    assert_eq!(
        store.process_store(&key_signed, &roster_checks(vec![true]), NOW),
        Err(DhtError::SignatureInvalid)
    );
    let mut kind = good.clone();
    kind.key.id.kind = KeyKind::Ed25519;
    assert_eq!(
        store.process_store(&kind, &roster_checks(vec![true]), NOW),
        Err(DhtError::MalformedWire)
    );
    let mut name = good.clone();
    name.key.key.name = address_key_name();
    assert_eq!(
        store.process_store(&name, &roster_checks(vec![true]), NOW),
        Err(DhtError::MalformedWire)
    );
    let mut index = good.clone();
    index.key.key.idx = 1;
    assert_eq!(
        store.process_store(&index, &roster_checks(vec![true]), NOW),
        Err(DhtError::MalformedWire)
    );
    let mut owner = roster_checks(vec![true]);
    owner.owner_hash = [0xED; 32];
    assert_eq!(store.process_store(&good, &owner, NOW), Err(DhtError::MalformedWire));
    let mut payload = good.clone();
    payload.value = Payload::Other(vec![1, 2, 3]);
    assert_eq!(
        store.process_store(&payload, &roster_checks(vec![true]), NOW),
        Err(DhtError::MalformedWire)
    );
    assert_eq!(store.search_dht_key(&key_hash(0xAB), NOW), None);
    assert_eq!(store.process_store(&good, &roster_checks(vec![true]), NOW), Ok(true));
}

#[test]
fn rosters_compare_by_their_nodes() {
    assert!(same_roster(&vec![member(1, 1), member(2, 2)], &vec![member(1, 1), member(2, 2)]));
    assert!(!same_roster(&vec![member(1, 1), member(2, 2)], &vec![member(2, 2), member(1, 1)]));
    assert!(!same_roster(&vec![member(1, 1)], &vec![member(1, 2)]));
    assert!(!same_roster(&vec![member(1, 1)], &Vec::new()));
    assert!(member(1, 1).same(&member(1, 1)));
    assert!(!member(1, 1).same(&member(1, 2)));
}

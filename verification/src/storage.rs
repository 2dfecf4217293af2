//! The value store: signed values under the hash of their key, replaced by
//! the rule that each value names.

use vstd::prelude::*;
use crate::affinity::KeyId;
use crate::types::{
    copy_bytes, copy_roster, roster_view, DhtError, DhtKey, DhtKeyView, DhtValue, DhtValueView,
    KeyKind, OverlayNode, OverlayNodeView, Payload, PayloadView, PublicKeyView, UpdateRule,
};
use std::collections::hash_map::RandomState;

verus! {

/// A lock-free map from key hashes to values.
pub type ValueMap = lockfree::map::Map<KeyId, DhtValue, RandomState>;

/// The values that a value map holds, by key hash.
pub uninterp spec fn value_entries(m: ValueMap) -> Map<Seq<u8>, DhtValue>;

/// `lockfree::map::Map::new`: the new map holds no entry.
#[verifier::external_body]
fn values_new() -> (m: ValueMap)
    ensures
        forall|key: Seq<u8>| !value_entries(m).contains_key(key),
{
    lockfree::map::Map::new()
}

/// `lockfree::map::Map::get`: a copy of the value stored under `key`, if
/// there is one.
#[verifier::external_body]
fn values_get(m: &ValueMap, key: &KeyId) -> (value: Option<DhtValue>)
    ensures
        value is Some == value_entries(*m).contains_key(key@),
        value is Some ==> value->0@ == value_entries(*m)[key@]@,
{
    m.get(key).map(|guard| guard.val().clone())
}

/// `lockfree::map::Map::insert`: afterwards the map holds `value` under
/// `key` and is otherwise unchanged.
#[verifier::external_body]
fn values_insert(m: &mut ValueMap, key: KeyId, value: DhtValue)
    ensures
        value_entries(*final(m)) == value_entries(*old(m)).insert(key@, value),
{
    m.insert(key, value);
}

/// What the caller has found out about a value that is to be stored: the
/// results of the checks that need keys and hashes.
#[derive(Clone, Debug, PartialEq, Eq)]
pub struct StoreChecks {
    /// The hash of the value's key, under which the value is filed.
    pub key_hash: KeyId,
    /// Whether the signatures of the value and of its key description verify
    /// under the owner's key.
    pub signatures_ok: bool,
    /// The hash of the owner's public key.
    pub owner_hash: KeyId,
    /// For each node of an overlay roster, in order, whether it verifies as a
    /// member of the overlay that `owner_hash` names.
    pub node_ok: Vec<bool>,
}

/// The name of the key under which the roster of an overlay is filed.
pub open spec fn nodes_name() -> Seq<u8> {
    seq![110u8, 111u8, 100u8, 101u8, 115u8]
}

/// The name of the key under which the address of a node is filed.
pub open spec fn address_name() -> Seq<u8> {
    seq![97u8, 100u8, 100u8, 114u8, 101u8, 115u8, 115u8]
}

/// The key of index 0 and name `name` of the owner `id`.
pub open spec fn key_of(id: Seq<u8>, name: Seq<u8>) -> DhtKeyView {
    DhtKeyView { id, idx: 0, name }
}

/// Whether a value is expired at the time `now`.
pub open spec fn expired(ttl: i32, now: i32) -> bool {
    ttl <= now
}

/// The first position from `from` on at which `roster` holds a node of the
/// identity `id`, or the length of `roster` if there is none.
pub open spec fn position_from(roster: Seq<OverlayNodeView>, id: PublicKeyView, from: int) -> int
    decreases roster.len() - from,
{
    if from < 0 || from >= roster.len() {
        roster.len() as int
    } else if roster[from].id == id {
        from
    } else {
        position_from(roster, id, from + 1)
    }
}

/// The roster after `node` was merged into it: a node of a new identity is
/// appended, one of a known identity takes the place of the known one if its
/// version is larger.
pub open spec fn merge_one(roster: Seq<OverlayNodeView>, node: OverlayNodeView) -> Seq<
    OverlayNodeView,
> {
    let at = position_from(roster, node.id, 0);
    if at >= roster.len() {
        roster.push(node)
    } else if node.version > roster[at].version {
        roster.update(at, node)
    } else {
        roster
    }
}

/// The roster after the nodes of `incoming` were merged into it, one after
/// the other.
pub open spec fn merge_all(roster: Seq<OverlayNodeView>, incoming: Seq<OverlayNodeView>) -> Seq<
    OverlayNodeView,
>
    decreases incoming.len(),
{
    if incoming.len() == 0 {
        roster
    } else {
        merge_one(merge_all(roster, incoming.drop_last()), incoming.last())
    }
}

/// Whether node `i` passed its check.
pub open spec fn passed(ok: Seq<bool>, i: int) -> bool {
    0 <= i < ok.len() && ok[i]
}

/// The nodes of `nodes` that passed their check, the last one first.
pub open spec fn survivors(nodes: Seq<OverlayNodeView>, ok: Seq<bool>) -> Seq<OverlayNodeView>
    decreases nodes.len(),
{
    if nodes.len() == 0 {
        Seq::empty()
    } else if passed(ok, nodes.len() - 1) {
        seq![nodes.last()] + survivors(nodes.drop_last(), ok)
    } else {
        survivors(nodes.drop_last(), ok)
    }
}

/// The roster that a stored value contributes to a merge at the time `now`:
/// its nodes, or none if there is no value, it is expired, or it holds no
/// roster.
pub open spec fn roster_of(stored: Option<DhtValueView>, now: i32) -> Seq<OverlayNodeView> {
    match stored {
        Some(value) => if expired(value.ttl, now) {
            Seq::empty()
        } else {
            match value.value {
                PayloadView::OverlayNodes(nodes) => nodes,
                _ => Seq::empty(),
            }
        },
        None => Seq::empty(),
    }
}

/// Whether a stored value is live at the time `now`.
pub open spec fn live(stored: Option<DhtValueView>, now: i32) -> bool {
    stored is Some && !expired(stored->0.ttl, now)
}

/// The error, if any, for which a value under the signature rule is refused.
pub open spec fn signed_value_error(checks_ok: bool) -> Option<DhtError> {
    if !checks_ok {
        Some(DhtError::SignatureInvalid)
    } else {
        None
    }
}

/// The error, if any, for which a roster value is refused.
pub open spec fn roster_error(value: DhtValueView, owner_hash: Seq<u8>, ok: Seq<bool>) -> Option<
    DhtError,
> {
    if value.signature.len() != 0 {
        Some(DhtError::SignatureInvalid)
    } else if value.key.signature.len() != 0 {
        Some(DhtError::SignatureInvalid)
    } else if value.key.id.kind != KeyKind::Overlay {
        Some(DhtError::MalformedWire)
    } else if value.key.key != key_of(owner_hash, nodes_name()) {
        Some(DhtError::MalformedWire)
    } else {
        match value.value {
            PayloadView::OverlayNodes(nodes) => if survivors(nodes, ok).len() == 0 {
                Some(DhtError::EmptyOverlayList)
            } else {
                None
            },
            _ => Some(DhtError::MalformedWire),
        }
    }
}

/// The error, if any, for which the store refuses `value` at the time `now`.
pub open spec fn store_error(
    value: DhtValueView,
    signatures_ok: bool,
    owner_hash: Seq<u8>,
    ok: Seq<bool>,
    now: i32,
) -> Option<DhtError> {
    if expired(value.ttl, now) {
        Some(DhtError::Expired)
    } else {
        match value.key.update_rule {
            UpdateRule::Signature => signed_value_error(signatures_ok),
            UpdateRule::OverlayNodes => roster_error(value, owner_hash, ok),
            UpdateRule::Anybody => Some(DhtError::UnsupportedUpdateRule),
        }
    }
}

/// The store after a value under the signature rule that passed its checks
/// was put under `key`: it takes the place of nothing or of a value with a
/// smaller time to live.
pub open spec fn after_signed(
    store: Map<Seq<u8>, DhtValueView>,
    key: Seq<u8>,
    value: DhtValueView,
) -> Map<Seq<u8>, DhtValueView> {
    if store.contains_key(key) && store[key].ttl >= value.ttl {
        store
    } else {
        store.insert(key, value)
    }
}

/// The stored value, if there is one.
pub open spec fn stored_at(store: Map<Seq<u8>, DhtValueView>, key: Seq<u8>) -> Option<
    DhtValueView,
> {
    if store.contains_key(key) {
        Some(store[key])
    } else {
        None
    }
}

/// The roster that results at `key` when the nodes `fresh` arrive at the
/// time `now`.
pub open spec fn merged_roster(
    store: Map<Seq<u8>, DhtValueView>,
    key: Seq<u8>,
    fresh: Seq<OverlayNodeView>,
    now: i32,
) -> Seq<OverlayNodeView> {
    merge_all(roster_of(stored_at(store, key), now), fresh)
}

/// Whether the arrival of the nodes `fresh` with a value of the time to live
/// `ttl` changes what is stored at `key`: it does unless a live value is
/// there, the merge adds nothing to its roster, and `ttl` is not larger than
/// its time to live.
pub open spec fn roster_updates(
    store: Map<Seq<u8>, DhtValueView>,
    key: Seq<u8>,
    fresh: Seq<OverlayNodeView>,
    ttl: i32,
    now: i32,
) -> bool {
    !(live(stored_at(store, key), now) && merged_roster(store, key, fresh, now) == roster_of(
        stored_at(store, key),
        now,
    ) && ttl <= store[key].ttl)
}

/// The store after a roster value that passed its checks was put under
/// `key` at the time `now`, where `fresh` are the nodes that passed theirs.
pub open spec fn after_roster(
    store: Map<Seq<u8>, DhtValueView>,
    key: Seq<u8>,
    value: DhtValueView,
    fresh: Seq<OverlayNodeView>,
    now: i32,
) -> Map<Seq<u8>, DhtValueView> {
    if roster_updates(store, key, fresh, value.ttl, now) {
        store.insert(
            key,
            DhtValueView {
                key: value.key,
                ttl: value.ttl,
                signature: value.signature,
                value: PayloadView::OverlayNodes(merged_roster(store, key, fresh, now)),
            },
        )
    } else {
        store
    }
}

/// The fresh nodes of a roster value: those of its payload that passed their
/// check.
pub open spec fn fresh_nodes(value: DhtValueView, ok: Seq<bool>) -> Seq<OverlayNodeView> {
    match value.value {
        PayloadView::OverlayNodes(nodes) => survivors(nodes, ok),
        _ => Seq::empty(),
    }
}

/// The store after `value` was handed to it at the time `now`.
pub open spec fn after_store(
    store: Map<Seq<u8>, DhtValueView>,
    key: Seq<u8>,
    value: DhtValueView,
    signatures_ok: bool,
    owner_hash: Seq<u8>,
    ok: Seq<bool>,
    now: i32,
) -> Map<Seq<u8>, DhtValueView> {
    if store_error(value, signatures_ok, owner_hash, ok, now) is Some {
        store
    } else {
        match value.key.update_rule {
            UpdateRule::Signature => after_signed(store, key, value),
            UpdateRule::OverlayNodes => after_roster(store, key, value, fresh_nodes(value, ok), now),
            UpdateRule::Anybody => store,
        }
    }
}

/// The values of a node, by the hash of their key.
pub struct ValueStore {
    values: ValueMap,
}

/// The view of a value, as the store holds it.
pub open spec fn value_view() -> spec_fn(DhtValue) -> DhtValueView {
    |value: DhtValue| value@
}

impl View for ValueStore {
    type V = Map<Seq<u8>, DhtValueView>;

    closed spec fn view(&self) -> Map<Seq<u8>, DhtValueView> {
        value_entries(self.values).map_values(value_view())
    }
}

/// Merges `node` into `roster`.
fn merge_node(roster: &mut Vec<OverlayNode>, node: &OverlayNode) -> (changed: bool)
    ensures
        roster_view(final(roster)@) == merge_one(roster_view(old(roster)@), node@),
        changed == (roster_view(final(roster)@) != roster_view(old(roster)@)),
{
    let ghost before = roster_view(roster@);
    let mut i: usize = 0;
    while i < roster.len()
        invariant
            i <= roster.len(),
            roster@ == old(roster)@,
            position_from(before, node@.id, 0) == position_from(before, node@.id, i as int),
            before == roster_view(roster@),
        decreases roster.len() - i,
    {
        if roster[i].id.same(&node.id) {
            assert(before[i as int].id == node@.id);
            if node.version > roster[i].version {
                roster[i] = node.duplicate();
                assert(roster_view(roster@) =~= before.update(i as int, node@));
                assert(roster_view(roster@)[i as int] != before[i as int]);
                return true;
            }
            return false;
        }
        assert(before[i as int].id != node@.id);
        i += 1;
    }
    roster.push(node.duplicate());
    assert(roster_view(roster@) =~= before.push(node@));
    true
}

/// Copies the nodes of `nodes` that passed their check, the last one first.
fn keep_valid(nodes: &Vec<OverlayNode>, ok: &Vec<bool>) -> (kept: Vec<OverlayNode>)
    ensures
        roster_view(kept@) == survivors(roster_view(nodes@), ok@),
{
    let mut kept: Vec<OverlayNode> = Vec::new();
    let mut i: usize = nodes.len();
    let ghost all = roster_view(nodes@);
    assert(all.take(all.len() as int) =~= all);
    while i > 0
        invariant
            i <= nodes.len(),
            all == roster_view(nodes@),
            survivors(all, ok@) == roster_view(kept@) + survivors(all.take(i as int), ok@),
        decreases i,
    {
        i -= 1;
        let ghost longer = all.take(i + 1);
        assert(longer.drop_last() =~= all.take(i as int));
        assert(longer.last() == all[i as int]);
        if i < ok.len() && ok[i] {
            let ghost before = roster_view(kept@);
            kept.push(nodes[i].duplicate());
            assert(roster_view(kept@) =~= before.push(all[i as int]));
            assert(roster_view(kept@) + survivors(all.take(i as int), ok@) =~= before + (
            seq![all[i as int]] + survivors(all.take(i as int), ok@)));
        }
    }
    assert(survivors(all.take(0), ok@) =~= Seq::<OverlayNodeView>::empty());
    assert(roster_view(kept@) + Seq::<OverlayNodeView>::empty() =~= roster_view(kept@));
    kept
}

/// Tells whether two rosters hold the same nodes in the same order.
pub fn same_roster(a: &Vec<OverlayNode>, b: &Vec<OverlayNode>) -> (same: bool)
    ensures
        same == (roster_view(a@) == roster_view(b@)),
{
    if a.len() != b.len() {
        assert(roster_view(a@).len() != roster_view(b@).len());
        return false;
    }
    let mut i: usize = 0;
    while i < a.len()
        invariant
            i <= a.len(),
            a.len() == b.len(),
            forall|j: int| 0 <= j < i ==> a@[j]@ == b@[j]@,
        decreases a.len() - i,
    {
        if !a[i].same(&b[i]) {
            assert(roster_view(a@)[i as int] != roster_view(b@)[i as int]);
            return false;
        }
        i += 1;
    }
    assert(roster_view(a@) =~= roster_view(b@));
    true
}

/// Returns the name of the key under which the roster of an overlay is
/// filed.
pub fn nodes_key_name() -> (name: Vec<u8>)
    ensures
        name@ == nodes_name(),
{
    let name: Vec<u8> = vec![110u8, 111u8, 100u8, 101u8, 115u8];
    assert(name@ =~= nodes_name());
    name
}

/// Returns the name of the key under which the address of a node is filed.
pub fn address_key_name() -> (name: Vec<u8>)
    ensures
        name@ == address_name(),
{
    let name: Vec<u8> = vec![97u8, 100u8, 100u8, 114u8, 101u8, 115u8, 115u8];
    assert(name@ =~= address_name());
    name
}

/// Builds the key of index 0 and name `name` of the owner `id`.
pub fn dht_key_from_key_id(id: &KeyId, name: Vec<u8>) -> (key: DhtKey)
    ensures
        key@ == key_of(id@, name@),
{
    DhtKey { id: *id, idx: 0, name }
}

impl ValueStore {
    /// Creates an empty store.
    pub fn new() -> (store: ValueStore)
        ensures
            store@ == Map::<Seq<u8>, DhtValueView>::empty(),
    {
        let store = ValueStore { values: values_new() };
        assert(store@ =~= Map::<Seq<u8>, DhtValueView>::empty());
        store
    }

    /// Returns a copy of the value stored under `key`, unless it is expired
    /// at the time `now`.
    pub fn search_dht_key(&self, key: &KeyId, now: i32) -> (value: Option<DhtValue>)
        ensures
            value is Some == live(stored_at(self@, key@), now),
            value is Some ==> value->0@ == self@[key@],
    {
        match values_get(&self.values, key) {
            Some(value) => {
                if value.ttl > now {
                    Some(value)
                } else {
                    None
                }
            },
            None => None,
        }
    }

    /// Puts a value under the signature rule: refuses it unless its
    /// signatures verified, and else stores it unless a value with a time to
    /// live that is not smaller is stored. Tells whether it stored the value.
    pub fn process_store_signed_value(
        &mut self,
        key: KeyId,
        value: &DhtValue,
        signatures_ok: bool,
    ) -> (stored: Result<bool, DhtError>)
        ensures
            match stored {
                Ok(stored) => signatures_ok && final(self)@ == after_signed(
                    old(self)@,
                    key@,
                    value@,
                ) && stored == !(old(self)@.contains_key(key@) && old(self)@[key@].ttl
                    >= value.ttl),
                Err(error) => !signatures_ok && error == DhtError::SignatureInvalid && final(self)@
                    == old(self)@,
            },
    {
        if !signatures_ok {
            return Err(DhtError::SignatureInvalid);
        }
        match values_get(&self.values, &key) {
            Some(known) => {
                if known.ttl >= value.ttl {
                    return Ok(false);
                }
            },
            None => {},
        }
        values_insert(&mut self.values, key, value.duplicate());
        assert(self@ =~= old(self)@.insert(key@, value@));
        Ok(true)
    }

    /// Puts a roster value at the time `now`: refuses it unless it has the
    /// shape of one and a node of it passed its check, and else merges the
    /// nodes that passed into the roster stored under `key`. Tells whether
    /// that changed what is stored.
    pub fn process_store_overlay_nodes(
        &mut self,
        key: KeyId,
        value: &DhtValue,
        owner_hash: &KeyId,
        node_ok: &Vec<bool>,
        now: i32,
    ) -> (updated: Result<bool, DhtError>)
        ensures
            match updated {
                Ok(updated) => roster_error(value@, owner_hash@, node_ok@) is None && final(self)@
                    == after_roster(
                    old(self)@,
                    key@,
                    value@,
                    fresh_nodes(value@, node_ok@),
                    now,
                ) && updated == roster_updates(
                    old(self)@,
                    key@,
                    fresh_nodes(value@, node_ok@),
                    value.ttl,
                    now,
                ),
                Err(error) => roster_error(value@, owner_hash@, node_ok@) == Some(error) && final(self)@ == old(self)@,
            },
    {
        if value.signature.len() != 0 {
            return Err(DhtError::SignatureInvalid);
        }
        if value.key.signature.len() != 0 {
            return Err(DhtError::SignatureInvalid);
        }
        if !value.key.id.is_overlay() {
            return Err(DhtError::MalformedWire);
        }
        if !value.key.key.same(&dht_key_from_key_id(owner_hash, nodes_key_name())) {
            return Err(DhtError::MalformedWire);
        }
        let fresh = match &value.value {
            Payload::OverlayNodes(nodes) => keep_valid(nodes, node_ok),
            _ => {
                return Err(DhtError::MalformedWire);
            },
        };
        if fresh.len() == 0 {
            return Err(DhtError::EmptyOverlayList);
        }
        let ghost fresh_view = roster_view(fresh@);
        assert(fresh_view == fresh_nodes(value@, node_ok@));
        let known = values_get(&self.values, &key);
        let mut known_ttl: Option<i32> = None;
        let mut base: Vec<OverlayNode> = Vec::new();
        match known {
            Some(known) => {
                if known.ttl > now {
                    known_ttl = Some(known.ttl);
                    match known.value {
                        Payload::OverlayNodes(nodes) => {
                            base = nodes;
                        },
                        _ => {},
                    }
                }
            },
            None => {},
        }
        let ghost base_view = roster_view(base@);
        assert(base_view =~= roster_of(stored_at(old(self)@, key@), now));
        let mut merged = copy_roster(&base);
        let mut i: usize = 0;
        assert(fresh_view.take(0) =~= Seq::<OverlayNodeView>::empty());
        while i < fresh.len()
            invariant
                i <= fresh.len(),
                fresh_view == roster_view(fresh@),
                roster_view(merged@) == merge_all(base_view, fresh_view.take(i as int)),
            decreases fresh.len() - i,
        {
            merge_node(&mut merged, &fresh[i]);
            i += 1;
            proof {
                let longer = fresh_view.take(i as int);
                assert(longer.drop_last() =~= fresh_view.take(i - 1));
                assert(longer.last() == fresh@[i - 1]@);
            }
        }
        assert(fresh_view.take(fresh.len() as int) =~= fresh_view);
        let unchanged = same_roster(&merged, &base);
        match known_ttl {
            Some(ttl) => {
                if unchanged && value.ttl <= ttl {
                    return Ok(false);
                }
            },
            None => {},
        }
        let entry = DhtValue {
            key: value.key.duplicate(),
            ttl: value.ttl,
            signature: copy_bytes(&value.signature),
            value: Payload::OverlayNodes(merged),
        };
        values_insert(&mut self.values, key, entry);
        assert(self@ =~= old(self)@.insert(key@, entry@));
        Ok(true)
    }

    /// Puts `value` at the time `now` by the update rule that it names, with
    /// what `checks` says of it. Refuses an expired value, one that fails the
    /// checks of its rule, and a rule that the store does not serve. Tells
    /// whether what is stored has changed.
    pub fn process_store(&mut self, value: &DhtValue, checks: &StoreChecks, now: i32) -> (stored:
        Result<bool, DhtError>)
        ensures
            match stored {
                Ok(_) => store_error(
                    value@,
                    checks.signatures_ok,
                    checks.owner_hash@,
                    checks.node_ok@,
                    now,
                ) is None,
                Err(error) => store_error(
                    value@,
                    checks.signatures_ok,
                    checks.owner_hash@,
                    checks.node_ok@,
                    now,
                ) == Some(error),
            },
            final(self)@ == after_store(
                old(self)@,
                checks.key_hash@,
                value@,
                checks.signatures_ok,
                checks.owner_hash@,
                checks.node_ok@,
                now,
            ),
            stored is Ok ==> stored->Ok_0 == (final(self)@ != old(self)@),
    {
        if value.ttl <= now {
            return Err(DhtError::Expired);
        }
        match value.key.update_rule {
            UpdateRule::Signature => self.process_store_signed_value(
                checks.key_hash,
                value,
                checks.signatures_ok,
            ),
            UpdateRule::OverlayNodes => self.process_store_overlay_nodes(
                checks.key_hash,
                value,
                &checks.owner_hash,
                &checks.node_ok,
                now,
            ),
            UpdateRule::Anybody => Err(DhtError::UnsupportedUpdateRule),
        }
    }
}

/// Whether no identity occurs twice in a roster.
pub open spec fn distinct_members(roster: Seq<OverlayNodeView>) -> bool {
    forall|i: int, j: int| 0 <= i < j < roster.len() ==> roster[i].id != roster[j].id
}

/// Whether a roster holds an entry of the identity of `node` whose version
/// is not smaller than that of `node`.
pub open spec fn covers(roster: Seq<OverlayNodeView>, node: OverlayNodeView) -> bool {
    exists|j: int|
        0 <= j < roster.len() && (#[trigger] roster[j]).id == node.id && roster[j].version
            >= node.version
}

/// The position that `position_from` finds is the first one of the identity
/// at or after `from`.
pub proof fn lemma_position(roster: Seq<OverlayNodeView>, id: PublicKeyView, from: int)
    requires
        0 <= from <= roster.len(),
    ensures
        from <= position_from(roster, id, from) <= roster.len(),
        position_from(roster, id, from) < roster.len() ==> roster[position_from(
            roster,
            id,
            from,
        )].id == id,
        forall|j: int| from <= j < position_from(roster, id, from) ==> roster[j].id != id,
    decreases roster.len() - from,
{
    if from < roster.len() && roster[from].id != id {
        lemma_position(roster, id, from + 1);
    }
}

/// Merging one node keeps the identities of a roster distinct, keeps what
/// the roster covered covered, covers the node, and brings in no entry but
/// the node.
pub proof fn lemma_merge_one(roster: Seq<OverlayNodeView>, node: OverlayNodeView)
    requires
        distinct_members(roster),
    ensures
        distinct_members(merge_one(roster, node)),
        covers(merge_one(roster, node), node),
        forall|other: OverlayNodeView|
            covers(roster, other) ==> covers(merge_one(roster, node), other),
        forall|j: int|
            0 <= j < merge_one(roster, node).len() ==> #[trigger] merge_one(roster, node)[j]
                == node || roster.contains(merge_one(roster, node)[j]),
{
    let merged = merge_one(roster, node);
    let at = position_from(roster, node.id, 0);
    lemma_position(roster, node.id, 0);
    if at >= roster.len() {
        assert(merged[roster.len() as int] == node);
    } else {
        assert(merged[at].id == node.id);
    }
    assert(covers(merged, node)) by {
        if at >= roster.len() {
            assert(merged[roster.len() as int].id == node.id);
        } else {
            assert(merged[at].id == node.id && merged[at].version >= node.version);
        }
    }
    assert forall|other: OverlayNodeView| covers(roster, other) implies covers(merged, other) by {
        let j = choose|j: int|
            0 <= j < roster.len() && (#[trigger] roster[j]).id == other.id && roster[j].version
                >= other.version;
        assert(merged[j].id == other.id && merged[j].version >= other.version);
    }
    assert forall|j: int| 0 <= j < merged.len() implies #[trigger] merged[j] == node
        || roster.contains(merged[j]) by {
        if merged[j] != node {
            assert(roster[j] == merged[j]);
        }
    }
}

/// A merged roster holds each identity once and, for each identity of the
/// roster before or of the nodes that came in, an entry with the largest
/// version of that identity; and it holds no entry that was not in the
/// roster before or among the nodes that came in.
pub proof fn lemma_merge_holds_largest(base: Seq<OverlayNodeView>, incoming: Seq<OverlayNodeView>)
    requires
        distinct_members(base),
    ensures
        distinct_members(merge_all(base, incoming)),
        forall|j: int| 0 <= j < base.len() ==> covers(merge_all(base, incoming), #[trigger] base[j]),
        forall|j: int|
            0 <= j < incoming.len() ==> covers(merge_all(base, incoming), #[trigger] incoming[j]),
        forall|j: int|
            0 <= j < merge_all(base, incoming).len() ==> base.contains(
                #[trigger] merge_all(base, incoming)[j],
            ) || incoming.contains(merge_all(base, incoming)[j]),
    decreases incoming.len(),
{
    let merged = merge_all(base, incoming);
    if incoming.len() == 0 {
        assert forall|j: int| 0 <= j < base.len() implies covers(merged, #[trigger] base[j]) by {
            assert(merged[j].id == base[j].id);
        }
    } else {
        let earlier = incoming.drop_last();
        let before = merge_all(base, earlier);
        lemma_merge_holds_largest(base, earlier);
        lemma_merge_one(before, incoming.last());
        assert forall|j: int| 0 <= j < incoming.len() implies covers(
            merged,
            #[trigger] incoming[j],
        ) by {
            if j < earlier.len() {
                assert(earlier[j] == incoming[j]);
                assert(covers(before, earlier[j]));
            }
        }
        assert forall|j: int| 0 <= j < merged.len() implies base.contains(#[trigger] merged[j])
            || incoming.contains(merged[j]) by {
            if merged[j] == incoming.last() {
                assert(incoming[incoming.len() - 1] == merged[j]);
            } else {
                assert(before.contains(merged[j]));
                let i = choose|i: int| 0 <= i < before.len() && before[i] == merged[j];
                if !base.contains(before[i]) {
                    assert(earlier.contains(before[i]));
                    let e = choose|e: int| 0 <= e < earlier.len() && earlier[e] == before[i];
                    assert(incoming[e] == merged[j]);
                }
            }
        }
    }
}

/// After two roster values were put under one key, the second while the
/// first was live and with nothing live there before the first, the stored
/// roster is the merge of both: it holds each identity once, with the
/// largest version of it that came in.
pub proof fn lemma_successive_rosters(
    store: Map<Seq<u8>, DhtValueView>,
    key: Seq<u8>,
    first: DhtValueView,
    first_nodes: Seq<OverlayNodeView>,
    first_time: i32,
    second: DhtValueView,
    second_nodes: Seq<OverlayNodeView>,
    second_time: i32,
)
    requires
        !live(stored_at(store, key), first_time),
        !expired(first.ttl, second_time),
    ensures
        ({
            let once = after_roster(store, key, first, first_nodes, first_time);
            let twice = after_roster(once, key, second, second_nodes, second_time);
            let roster = merge_all(merge_all(Seq::empty(), first_nodes), second_nodes);
            &&& twice.contains_key(key)
            &&& twice[key].value == PayloadView::OverlayNodes(roster)
            &&& distinct_members(roster)
            &&& forall|j: int| 0 <= j < first_nodes.len() ==> covers(roster, #[trigger] first_nodes[j])
            &&& forall|j: int|
                0 <= j < second_nodes.len() ==> covers(roster, #[trigger] second_nodes[j])
            &&& forall|j: int|
                0 <= j < roster.len() ==> first_nodes.contains(#[trigger] roster[j])
                    || second_nodes.contains(roster[j])
        }),
{
    let empty = Seq::<OverlayNodeView>::empty();
    let middle = merge_all(empty, first_nodes);
    let roster = merge_all(middle, second_nodes);
    lemma_merge_holds_largest(empty, first_nodes);
    lemma_merge_holds_largest(middle, second_nodes);
    assert forall|j: int| 0 <= j < first_nodes.len() implies covers(
        roster,
        #[trigger] first_nodes[j],
    ) by {
        let node = first_nodes[j];
        assert(covers(middle, node));
        let i = choose|i: int|
            0 <= i < middle.len() && (#[trigger] middle[i]).id == node.id && middle[i].version
                >= node.version;
        assert(covers(roster, middle[i]));
        let k = choose|k: int|
            0 <= k < roster.len() && (#[trigger] roster[k]).id == middle[i].id && roster[k].version
                >= middle[i].version;
        assert(roster[k].id == node.id && roster[k].version >= node.version);
    }
    assert forall|j: int| 0 <= j < roster.len() implies first_nodes.contains(#[trigger] roster[j])
        || second_nodes.contains(roster[j]) by {
        if !second_nodes.contains(roster[j]) {
            assert(middle.contains(roster[j]));
            let i = choose|i: int| 0 <= i < middle.len() && middle[i] == roster[j];
            assert(empty.contains(middle[i]) || first_nodes.contains(middle[i]));
        }
    }
}

/// No roster value passes without a node that passed its check.
pub proof fn lemma_empty_roster_is_rejected(value: DhtValueView, owner_hash: Seq<u8>, ok: Seq<bool>)
    requires
        fresh_nodes(value, ok).len() == 0,
    ensures
        roster_error(value, owner_hash, ok) is Some,
        value.key.update_rule == UpdateRule::OverlayNodes ==> forall|
            store: Map<Seq<u8>, DhtValueView>,
            key: Seq<u8>,
            signatures_ok: bool,
            now: i32,
        | #[trigger]
            after_store(store, key, value, signatures_ok, owner_hash, ok, now) == store,
{
}

/// Under the signature rule a stored entry changes only when a value with a
/// strictly larger time to live arrives whose signatures verify.
pub proof fn lemma_signed_value_replaced_by_larger_ttl(
    store: Map<Seq<u8>, DhtValueView>,
    key: Seq<u8>,
    value: DhtValueView,
    signatures_ok: bool,
    owner_hash: Seq<u8>,
    ok: Seq<bool>,
    now: i32,
)
    requires
        value.key.update_rule == UpdateRule::Signature,
    ensures
        ({
            let after = after_store(store, key, value, signatures_ok, owner_hash, ok, now);
            &&& forall|other: Seq<u8>| other != key ==> stored_at(after, other) == stored_at(store, other)
            &&& !signatures_ok ==> after == store
            &&& store.contains_key(key) && after[key] != store[key] ==> signatures_ok && value.ttl
                > store[key].ttl && after[key] == value
            &&& !store.contains_key(key) && after.contains_key(key) ==> signatures_ok && after[key]
                == value
        }),
{
}

/// A value put under the signature rule that is not expired can be read
/// back at once, unless a value with a time to live that is not smaller was
/// stored under its key, which then is read instead.
pub proof fn lemma_published_is_found(
    store: Map<Seq<u8>, DhtValueView>,
    key: Seq<u8>,
    value: DhtValueView,
    now: i32,
)
    requires
        !expired(value.ttl, now),
    ensures
        live(stored_at(after_signed(store, key, value), key), now),
        after_signed(store, key, value)[key] == value || (store.contains_key(key) && after_signed(
            store,
            key,
            value,
        )[key] == store[key] && store[key].ttl >= value.ttl),
{
}

} // verus!

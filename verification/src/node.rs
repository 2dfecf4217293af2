//! The node: routing table, known peers, peer scores and value store, and
//! the operations that the query handler and the engines build on.

use vstd::prelude::*;
use crate::affinity::KeyId;
use crate::peers::{holds_id, KnownPeers, PeerCursor};
use crate::query::{DhtPing, DhtPong, FindNode, FindValue, Nodes, Store, Stored, ValueResult};
use crate::routing::{differing_bits, every_bucket, first_of, gather, listed, Listing, RoutingTable};
use crate::scores::{
    after_failure, after_failures, after_success, healthy_in, lemma_failed_peer_is_excluded,
    score_in, PeerScores,
};
use crate::storage::{
    after_roster, after_signed, fresh_nodes, live, roster_error, roster_updates, stored_at,
    ValueStore,
};
use crate::types::{nodes_view, DhtError, DhtValue, DhtValueView, Node, NodeView};
use crate::{MAX_FAIL_COUNT, MAX_PEERS};

verus! {

/// A DHT node.
pub struct DhtNode {
    buckets: RoutingTable,
    bad_peers: PeerScores,
    known_peers: KnownPeers,
    storage: ValueStore,
}

/// Mathematical value of a [`DhtNode`].
pub struct NodeState {
    /// The identifier of the node.
    pub local: Seq<u8>,
    /// The identifiers of the known peers, in slot order.
    pub peers: Seq<Seq<u8>>,
    /// The largest number of known peers.
    pub capacity: nat,
    /// The slot of the known peer that leaves next.
    pub oldest: nat,
    /// The records of the routing table, by peer.
    pub table: Map<Seq<u8>, NodeView>,
    /// The failure counters, by peer.
    pub scores: Map<Seq<u8>, u8>,
    /// The stored values, by the hash of their key.
    pub values: Map<Seq<u8>, DhtValueView>,
}

impl View for DhtNode {
    type V = NodeState;

    closed spec fn view(&self) -> NodeState {
        NodeState {
            local: self.buckets.local_id(),
            peers: self.known_peers.ids(),
            capacity: self.known_peers.capacity(),
            oldest: self.known_peers.oldest(),
            table: self.buckets@,
            scores: self.bad_peers@,
            values: self.storage@,
        }
    }
}

/// The first position from `from` on at which `ids` holds a peer that
/// `scores` admits to lookups, or the length of `ids` if there is none.
pub open spec fn next_healthy(ids: Seq<Seq<u8>>, scores: Map<Seq<u8>, u8>, from: int) -> int
    decreases ids.len() - from,
{
    if from < 0 || from >= ids.len() {
        ids.len() as int
    } else if healthy_in(scores, ids[from]) {
        from
    } else {
        next_healthy(ids, scores, from + 1)
    }
}

/// From `from` up to the next peer admitted to lookups, no peer is
/// admitted, and that one is.
pub proof fn lemma_next_healthy(ids: Seq<Seq<u8>>, scores: Map<Seq<u8>, u8>, from: int)
    requires
        0 <= from <= ids.len(),
    ensures
        from <= next_healthy(ids, scores, from) <= ids.len(),
        forall|j: int|
            from <= j < next_healthy(ids, scores, from) ==> !healthy_in(scores, #[trigger] ids[j]),
        next_healthy(ids, scores, from) < ids.len() ==> healthy_in(
            scores,
            ids[next_healthy(ids, scores, from)],
        ),
    decreases ids.len() - from,
{
    if from < ids.len() && !healthy_in(scores, ids[from]) {
        lemma_next_healthy(ids, scores, from + 1);
    }
}

/// A peer that the scores leave out of lookups is not handed out, from
/// whatever slot the search for the next peer begins.
pub proof fn lemma_excluded_peer_is_skipped(
    ids: Seq<Seq<u8>>,
    scores: Map<Seq<u8>, u8>,
    from: int,
    slot: int,
)
    requires
        0 <= from <= ids.len(),
        0 <= slot < ids.len(),
        !healthy_in(scores, ids[slot]),
    ensures
        next_healthy(ids, scores, from) != slot,
{
    lemma_next_healthy(ids, scores, from);
}

/// After as many failures in a row as the threshold counts, a known peer is
/// skipped when peers are handed out.
pub proof fn lemma_failed_peer_is_skipped(
    ids: Seq<Seq<u8>>,
    scores: Map<Seq<u8>, u8>,
    from: int,
    slot: int,
)
    requires
        0 <= from <= ids.len(),
        0 <= slot < ids.len(),
    ensures
        next_healthy(
            ids,
            after_failures(scores, ids[slot], MAX_FAIL_COUNT as nat),
            from,
        ) != slot,
{
    let failed = after_failures(scores, ids[slot], MAX_FAIL_COUNT as nat);
    lemma_failed_peer_is_excluded(scores, ids[slot]);
    lemma_excluded_peer_is_skipped(ids, failed, from, slot);
}

/// A peer whose score stands at the threshold is handed out again after one
/// success, when its slot is next.
pub proof fn lemma_recovered_peer_is_handed_out(ids: Seq<Seq<u8>>, scores: Map<Seq<u8>, u8>, slot: int)
    requires
        0 <= slot < ids.len(),
        score_in(scores, ids[slot]) == MAX_FAIL_COUNT,
    ensures
        next_healthy(ids, after_success(scores, ids[slot]), slot) == slot,
{
}

/// The slot that a cursor hands out next; a cursor that was not made yet
/// stands before the first slot.
pub open spec fn cursor_position(cursor: Option<PeerCursor>) -> int {
    match cursor {
        Some(cursor) => cursor.position() as int,
        None => 0,
    }
}

/// The slot at which a walk over `len` slots ends that began at `start`.
pub open spec fn walk_end(start: int, len: int) -> int {
    if start >= len {
        start
    } else {
        len
    }
}

/// The routing table after the record `node` of the peer `id` was filed: it
/// is kept out by a record of `id` whose version is not older.
pub open spec fn table_after_put(table: Map<Seq<u8>, NodeView>, id: Seq<u8>, node: NodeView) -> Map<
    Seq<u8>,
    NodeView,
> {
    if table.contains_key(id) && table[id].version >= node.version {
        table
    } else {
        table.insert(id, node)
    }
}

/// The node after it took note of the record `peer`, which the link layer
/// registered under `registered` or turned down. A peer that is new to the
/// known peers joins them and has its record filed; a known one is scored
/// as having answered.
pub open spec fn after_add_peer(state: NodeState, peer: NodeView, registered: Option<Seq<u8>>) -> NodeState {
    match registered {
        None => state,
        Some(id) => if holds_id(state.peers, id) {
            NodeState { scores: after_success(state.scores, id), ..state }
        } else {
            NodeState {
                peers: KnownPeers::ids_after_put(state.peers, state.capacity, state.oldest, id),
                oldest: KnownPeers::oldest_after_put(state.peers, state.capacity, state.oldest, id),
                table: table_after_put(state.table, id, peer),
                ..state
            }
        },
    }
}

/// The node after the outcome of a query to `peer` was scored.
pub open spec fn after_query_result(state: NodeState, answered: bool, peer: Seq<u8>) -> NodeState {
    NodeState {
        scores: if answered {
            after_success(state.scores, peer)
        } else {
            after_failure(state.scores, peer)
        },
        ..state
    }
}

/// The identifier that the link layer registered a peer under, as a
/// mathematical value.
pub open spec fn id_view(id: Option<KeyId>) -> Option<Seq<u8>> {
    match id {
        Some(id) => Some(id@),
        None => None,
    }
}

/// The number of records that a query asks for: a negative count sets no
/// bound.
pub open spec fn count_of(k: i32) -> int {
    if k < 0 {
        usize::MAX as int
    } else {
        k as int
    }
}

/// Returns the number of records that a query asks for.
pub fn count_limit(k: i32) -> (limit: usize)
    ensures
        limit == count_of(k),
{
    if k < 0 {
        usize::MAX
    } else {
        k as usize
    }
}

impl DhtNode {
    /// Validity of the node: that of its routing table and of its registry
    /// of known peers.
    pub closed spec fn wf(&self) -> bool {
        &&& self.buckets.wf()
        &&& self.known_peers.wf()
    }

    /// Creates the DHT node of the link-layer node with the identifier
    /// `local`: it knows no peer and stores no value.
    pub fn with_adnl_node(local: KeyId) -> (node: DhtNode)
        ensures
            node.wf(),
            node@ == (NodeState {
                local: local@,
                peers: Seq::empty(),
                capacity: MAX_PEERS as nat,
                oldest: 0,
                table: Map::empty(),
                scores: Map::empty(),
                values: Map::empty(),
            }),
    {
        DhtNode {
            buckets: RoutingTable::new(local),
            bad_peers: PeerScores::new(),
            known_peers: KnownPeers::with_limit(MAX_PEERS),
            storage: ValueStore::new(),
        }
    }

    /// Returns the identifier of the node.
    pub fn key(&self) -> (local: KeyId)
        ensures
            local@ == self@.local,
    {
        self.buckets.local()
    }

    /// Takes note of the signed record `peer`. `registered` is what the link
    /// layer made of it: the identifier under which it registered the peer,
    /// or nothing if the record did not verify, named no address, or was
    /// turned down. A peer that is new to the registry of known peers gets
    /// its record filed in the routing table, where a record with a version
    /// that is not older keeps it out. A peer that was known already is
    /// scored as having answered.
    pub fn add_peer(&mut self, peer: &Node, registered: Option<KeyId>) -> (id: Option<KeyId>)
        requires
            old(self).wf(),
        ensures
            final(self).wf(),
            id == registered,
            final(self)@ == after_add_peer(old(self)@, peer@, id_view(registered)),
    {
        match registered {
            Some(id) => {
                if self.known_peers.put(id) {
                    self.buckets.put(id, peer);
                } else {
                    self.bad_peers.set_good(&id);
                }
                Some(id)
            },
            None => None,
        }
    }

    /// Records that `peer` has answered a query.
    pub fn set_good_peer(&mut self, peer: &KeyId)
        requires
            old(self).wf(),
        ensures
            final(self).wf(),
            final(self)@ == after_query_result(old(self)@, true, peer@),
    {
        self.bad_peers.set_good(peer);
    }

    /// Scores `peer` by the outcome of a query to it: `answered` tells
    /// whether a reply came.
    pub fn set_query_result(&mut self, answered: bool, peer: &KeyId)
        requires
            old(self).wf(),
        ensures
            final(self).wf(),
            final(self)@ == after_query_result(old(self)@, answered, peer@),
    {
        if answered {
            self.bad_peers.set_good(peer);
        } else {
            self.bad_peers.set_bad(peer);
        }
    }

    /// Returns the score of `peer`.
    pub fn peer_score(&self, peer: &KeyId) -> (score: u8)
        ensures
            score == score_in(self@.scores, peer@),
    {
        self.bad_peers.score(peer)
    }

    /// Returns the number of known peers.
    pub fn known_peers_count(&self) -> (count: u32)
        requires
            self.wf(),
        ensures
            count == self@.peers.len(),
    {
        self.known_peers.count()
    }

    /// Hands out the next known peer that takes part in lookups: the first
    /// one from the cursor's slot on whose score is below the threshold. The
    /// cursor is made if there is none yet, and is left behind the slot of
    /// the peer handed out, or behind the last slot if none is.
    pub fn get_known_peer(&self, iter: &mut Option<PeerCursor>) -> (peer: Option<KeyId>)
        requires
            self.wf(),
        ensures
            *final(iter) is Some,
            match peer {
                Some(id) => {
                    let at = next_healthy(self@.peers, self@.scores, cursor_position(*old(iter)));
                    at < self@.peers.len() && id@ == self@.peers[at] && cursor_position(
                        *final(iter),
                    ) == at + 1
                },
                None => next_healthy(self@.peers, self@.scores, cursor_position(*old(iter)))
                    >= self@.peers.len() && cursor_position(*final(iter)) == walk_end(
                    cursor_position(*old(iter)),
                    self@.peers.len() as int,
                ),
            },
    {
        let mut cursor = match *iter {
            Some(cursor) => cursor,
            None => PeerCursor::start(),
        };
        let ghost start = cursor.position() as int;
        loop
            invariant
                self.wf(),
                start == cursor_position(*old(iter)),
                start <= cursor.position(),
                cursor.position() <= self@.peers.len() || cursor.position() == start,
                next_healthy(self@.peers, self@.scores, start) == next_healthy(
                    self@.peers,
                    self@.scores,
                    cursor.position() as int,
                ),
            decreases self@.peers.len() - cursor.position(),
        {
            match self.known_peers.next(&mut cursor) {
                Some(id) => {
                    if self.bad_peers.healthy(&id) {
                        *iter = Some(cursor);
                        return Some(id);
                    }
                },
                None => {
                    *iter = Some(cursor);
                    return None;
                },
            }
        }
    }

    /// Returns copies of the first `limit` records of the routing table, or
    /// of all if it holds no more, bucket after bucket from 0 to 255. It
    /// refuses to return none.
    pub fn get_known_nodes(&self, limit: usize) -> (nodes: Result<Vec<Node>, DhtError>)
        requires
            self.wf(),
        ensures
            limit == 0 ==> nodes == Err::<Vec<Node>, DhtError>(DhtError::InternalInvariant),
            limit != 0 ==> nodes is Ok && exists|listings: Seq<Listing>|
                #[trigger] listed(self@.table, self@.local, listings) && nodes_view(nodes->Ok_0@) == first_of(
                    gather(listings, every_bucket()),
                    limit as int,
                ),
    {
        if limit == 0 {
            return Err(DhtError::InternalInvariant);
        }
        let nodes = self.buckets.iter_all(limit);
        proof {
            let listings = choose|listings: Seq<Listing>|
                #[trigger] self.buckets.listed_by(listings) && nodes_view(nodes@) == first_of(
                    gather(listings, every_bucket()),
                    limit as int,
                );
            assert(listed(self@.table, self@.local, listings));
        }
        Ok(nodes)
    }

    /// Returns a copy of the value stored under the key hash `key`, unless it
    /// is expired at the time `now`.
    pub fn search_dht_key(&self, key: &KeyId, now: i32) -> (value: Option<DhtValue>)
        ensures
            value is Some == live(stored_at(self@.values, key@), now),
            value is Some ==> value->0@ == self@.values[key@],
    {
        self.storage.search_dht_key(key, now)
    }

    /// Answers a ping: the reply carries the number of the query.
    pub fn process_ping(&self, query: &DhtPing) -> (pong: DhtPong)
        ensures
            pong.random_id == query.random_id,
    {
        DhtPong { random_id: query.random_id }
    }

    /// Answers a search for nodes: copies of up to `query.k` records that
    /// are closest to `query.key`, from the buckets at whose position the
    /// local identifier and the key differ, the closest bucket first. A
    /// negative `query.k` sets no bound.
    pub fn process_find_node(&self, query: &FindNode) -> (found: Nodes)
        requires
            self.wf(),
        ensures
            exists|listings: Seq<Listing>|
                #[trigger] listed(self@.table, self@.local, listings) && nodes_view(found.nodes@) == first_of(
                    gather(listings, differing_bits(self@.local, query.key@)),
                    count_of(query.k),
                ),
    {
        let nodes = self.buckets.closest_to(&query.key, count_limit(query.k));
        proof {
            let listings = choose|listings: Seq<Listing>|
                #[trigger] self.buckets.listed_by(listings) && nodes_view(nodes@) == first_of(
                    gather(listings, differing_bits(self.buckets.local_id(), query.key@)),
                    count_of(query.k),
                );
            assert(listed(self@.table, self@.local, listings));
        }
        Nodes { nodes }
    }

    /// Answers a search for a value at the time `now`: the value stored
    /// under `query.key` if it is not expired, and else copies of up to
    /// `query.k` records of the routing table, bucket after bucket from 0 to
    /// 255.
    pub fn process_find_value(&self, query: &FindValue, now: i32) -> (result: ValueResult)
        requires
            self.wf(),
        ensures
            match result {
                ValueResult::ValueFound(value) => live(stored_at(self@.values, query.key@), now)
                    && value@ == self@.values[query.key@],
                ValueResult::ValueNotFound(found) => !live(
                    stored_at(self@.values, query.key@),
                    now,
                ) && exists|listings: Seq<Listing>|
                    #[trigger] listed(self@.table, self@.local, listings) && nodes_view(found.nodes@)
                        == first_of(gather(listings, every_bucket()), count_of(query.k)),
            },
    {
        match self.storage.search_dht_key(&query.key, now) {
            Some(value) => ValueResult::ValueFound(value),
            None => {
                let nodes = self.buckets.iter_all(count_limit(query.k));
                proof {
                    let listings = choose|listings: Seq<Listing>|
                        #[trigger] self.buckets.listed_by(listings) && nodes_view(nodes@)
                            == first_of(gather(listings, every_bucket()), count_of(query.k));
                    assert(listed(self@.table, self@.local, listings));
                }
                ValueResult::ValueNotFound(Nodes { nodes })
            },
        }
    }

    /// Puts a value under the signature rule into the value store: refuses
    /// it unless its signatures verified, and else stores it under the key
    /// hash `key` unless a value with a time to live that is not smaller is
    /// stored there. Tells whether it stored the value.
    pub fn process_store_signed_value(&mut self, key: KeyId, value: &DhtValue, signatures_ok: bool) -> (stored:
        Result<bool, DhtError>)
        requires
            old(self).wf(),
        ensures
            final(self).wf(),
            match stored {
                Ok(stored) => signatures_ok && final(self)@ == (NodeState {
                    values: after_signed(old(self)@.values, key@, value@),
                    ..old(self)@
                }) && stored == !(old(self)@.values.contains_key(key@) && old(self)@.values[key@].ttl
                    >= value.ttl),
                Err(error) => !signatures_ok && error == DhtError::SignatureInvalid && final(self)@
                    == old(self)@,
            },
    {
        self.storage.process_store_signed_value(key, value, signatures_ok)
    }

    /// Puts a roster value into the value store at the time `now`: refuses
    /// it unless it has the shape of one and a node of it passed its check,
    /// and else merges the nodes that passed into the roster stored under
    /// the key hash `key`. Tells whether that changed what is stored.
    pub fn process_store_overlay_nodes(
        &mut self,
        key: KeyId,
        value: &DhtValue,
        owner_hash: &KeyId,
        node_ok: &Vec<bool>,
        now: i32,
    ) -> (updated: Result<bool, DhtError>)
        requires
            old(self).wf(),
        ensures
            final(self).wf(),
            match updated {
                Ok(updated) => roster_error(value@, owner_hash@, node_ok@) is None && final(self)@
                    == (NodeState {
                    values: after_roster(
                        old(self)@.values,
                        key@,
                        value@,
                        fresh_nodes(value@, node_ok@),
                        now,
                    ),
                    ..old(self)@
                }) && updated == roster_updates(
                    old(self)@.values,
                    key@,
                    fresh_nodes(value@, node_ok@),
                    value.ttl,
                    now,
                ),
                Err(error) => roster_error(value@, owner_hash@, node_ok@) == Some(error) && final(self)@ == old(self)@,
            },
    {
        self.storage.process_store_overlay_nodes(key, value, owner_hash, node_ok, now)
    }

    /// Serves a request to store a value at the time `now`: the value store
    /// takes the value by its update rule or refuses it.
    pub fn process_store(&mut self, query: &Store, now: i32) -> (stored: Result<Stored, DhtError>)
        requires
            old(self).wf(),
        ensures
            final(self).wf(),
            stored is Ok == query.error(now) is None,
            stored is Err ==> query.error(now) == Some(stored->Err_0),
            final(self)@ == (NodeState { values: query.apply(old(self)@.values, now), ..old(self)@ }),
    {
        match self.storage.process_store(&query.value, &query.checks, now) {
            Ok(_) => Ok(Stored::Stored),
            Err(error) => Err(error),
        }
    }
}

} // verus!

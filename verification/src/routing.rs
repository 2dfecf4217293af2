//! The routing table: 256 buckets of node records, one for each affinity to
//! the local identifier.

use vstd::prelude::*;
use crate::affinity::{
    affinity_of, common_prefix_bits, get_affinity, id_bit, lemma_equal_bits_agree, lemma_xor_bits,
    KeyId,
};
use crate::types::{nodes_view, Node, NodeView};
use std::collections::hash_map::RandomState;

verus! {

/// Number of buckets of a routing table.
pub const BUCKETS: usize = 256;

/// A lock-free map from peer identifiers to node records.
pub type BucketMap = lockfree::map::Map<KeyId, Node, RandomState>;

/// The node records that a bucket holds, by peer identifier.
pub uninterp spec fn bucket_entries(m: BucketMap) -> Map<Seq<u8>, Node>;

/// Whether `list` names each entry of `entries` once, with a copy of its
/// record.
pub open spec fn is_listing(list: Seq<(KeyId, Node)>, entries: Map<Seq<u8>, Node>) -> bool {
    &&& forall|i: int|
        0 <= i < list.len() ==> entries.contains_key(#[trigger] list[i].0@) && entries[list[i].0@]@
            == list[i].1@
    &&& forall|i: int, j: int| 0 <= i < j < list.len() ==> list[i].0@ != list[j].0@
    &&& forall|peer: Seq<u8>|
        entries.contains_key(peer) ==> exists|i: int| #[trigger]
            named_at(list, peer, i)
}

/// Whether entry `i` of `list` is the one of `peer`.
pub open spec fn named_at(list: Seq<(KeyId, Node)>, peer: Seq<u8>, i: int) -> bool {
    0 <= i < list.len() && list[i].0@ == peer
}

/// `lockfree::map::Map::new`: the new map holds no entry.
#[verifier::external_body]
fn bucket_new() -> (m: BucketMap)
    ensures
        forall|peer: Seq<u8>| !bucket_entries(m).contains_key(peer),
{
    lockfree::map::Map::new()
}

/// `lockfree::map::Map::get`: a copy of the record stored under `peer`, if
/// there is one.
#[verifier::external_body]
fn bucket_get(m: &BucketMap, peer: &KeyId) -> (node: Option<Node>)
    ensures
        node is Some == bucket_entries(*m).contains_key(peer@),
        node is Some ==> node->0@ == bucket_entries(*m)[peer@]@,
{
    m.get(peer).map(|guard| guard.val().clone())
}

/// `lockfree::map::Map::insert`: afterwards the map holds `node` under
/// `peer` and is otherwise unchanged.
#[verifier::external_body]
fn bucket_insert(m: &mut BucketMap, peer: KeyId, node: Node)
    ensures
        bucket_entries(*final(m)) == bucket_entries(*old(m)).insert(peer@, node),
{
    m.insert(peer, node);
}

/// `lockfree::map::Map::iter`: copies of all entries, each once, in the order
/// in which the map holds them, of which nothing is said.
#[verifier::external_body]
fn bucket_list(m: &BucketMap) -> (list: Vec<(KeyId, Node)>)
    ensures
        is_listing(list@, bucket_entries(*m)),
{
    m.iter().map(|guard| (*guard.key(), guard.val().clone())).collect()
}

/// The entries of one bucket in some order: identifier and record.
pub type Listing = Seq<(Seq<u8>, NodeView)>;

/// Whether `list` names each entry of `bucket` once, with its record.
pub open spec fn enumerates(list: Listing, bucket: Map<Seq<u8>, NodeView>) -> bool {
    &&& forall|i: int|
        0 <= i < list.len() ==> bucket.contains_key(#[trigger] list[i].0) && bucket[list[i].0]
            == list[i].1
    &&& forall|i: int, j: int| 0 <= i < j < list.len() ==> list[i].0 != list[j].0
    &&& forall|peer: Seq<u8>|
        bucket.contains_key(peer) ==> exists|i: int| #[trigger]
            listed_at(list, peer, i)
}

/// Whether entry `i` of `list` is the one of `peer`.
pub open spec fn listed_at(list: Listing, peer: Seq<u8>, i: int) -> bool {
    0 <= i < list.len() && list[i].0 == peer
}

/// The records of a listing, in its order.
pub open spec fn records(list: Listing) -> Seq<NodeView> {
    list.map_values(|entry: (Seq<u8>, NodeView)| entry.1)
}

/// The records of the listings `listings[p]` with `chosen(p)`, bucket after
/// bucket.
pub open spec fn gather(listings: Seq<Listing>, chosen: spec_fn(int) -> bool) -> Seq<NodeView>
    decreases listings.len(),
{
    if listings.len() == 0 {
        Seq::empty()
    } else if chosen(listings.len() - 1) {
        gather(listings.drop_last(), chosen) + records(listings.last())
    } else {
        gather(listings.drop_last(), chosen)
    }
}

/// The first `limit` elements of `s`, or all of `s` if it has no more.
pub open spec fn first_of<A>(s: Seq<A>, limit: int) -> Seq<A> {
    if s.len() <= limit {
        s
    } else if limit <= 0 {
        Seq::empty()
    } else {
        s.take(limit)
    }
}

/// The choice of the buckets whose bit is set in `mask`.
pub open spec fn set_bits(mask: Seq<u8>) -> spec_fn(int) -> bool {
    |p: int| id_bit(mask, p)
}

/// The choice of every bucket.
pub open spec fn every_bucket() -> spec_fn(int) -> bool {
    |p: int| true
}

/// The choice of the buckets at whose position `local` and `target` differ.
pub open spec fn differing_bits(local: Seq<u8>, target: Seq<u8>) -> spec_fn(int) -> bool {
    |p: int| id_bit(local, p) != id_bit(target, p)
}

/// Every finite bucket has a listing.
pub proof fn lemma_listing_exists(bucket: Map<Seq<u8>, NodeView>)
    requires
        bucket.dom().finite(),
    ensures
        exists|list: Listing| enumerates(list, bucket),
    decreases bucket.dom().len(),
{
    if bucket.dom().len() == 0 {
        let list: Listing = Seq::empty();
        assert forall|peer: Seq<u8>| bucket.contains_key(peer) implies exists|i: int| #[trigger]
            listed_at(list, peer, i) by {
            assert(bucket.dom().contains(peer));
            bucket.dom().lemma_len0_is_empty();
        }
        assert(enumerates(list, bucket));
    } else {
        let peer = bucket.dom().choose();
        let rest = bucket.remove(peer);
        lemma_listing_exists(rest);
        let shorter = choose|list: Listing| enumerates(list, rest);
        let list = shorter.push((peer, bucket[peer]));
        assert forall|i: int| 0 <= i < list.len() implies bucket.contains_key(
            #[trigger] list[i].0,
        ) && bucket[list[i].0] == list[i].1 by {
            if i < shorter.len() {
                assert(rest.contains_key(shorter[i].0));
            }
        }
        assert forall|i: int, j: int| 0 <= i < j < list.len() implies list[i].0 != list[j].0 by {
            assert(rest.contains_key(shorter[i].0));
        }
        assert forall|other: Seq<u8>| bucket.contains_key(other) implies exists|i: int| #[trigger]
            listed_at(list, other, i) by {
            if other == peer {
                assert(listed_at(list, other, shorter.len() as int));
            } else {
                assert(rest.contains_key(other));
                let i = choose|i: int| #[trigger] listed_at(shorter, other, i);
                assert(listed_at(list, other, i));
            }
        }
        assert(enumerates(list, bucket));
    }
}

/// Gathering from the first `n` listings gives a prefix of gathering from
/// all of them.
pub proof fn lemma_gather_prefix(listings: Seq<Listing>, chosen: spec_fn(int) -> bool, n: int)
    requires
        0 <= n <= listings.len(),
    ensures
        gather(listings.take(n), chosen).is_prefix_of(gather(listings, chosen)),
    decreases listings.len(),
{
    if n == listings.len() {
        assert(listings.take(n) =~= listings);
    } else {
        lemma_gather_prefix(listings.drop_last(), chosen, n);
        assert(listings.drop_last().take(n) =~= listings.take(n));
    }
}

/// Gathering under two choices that agree on the positions of the listings
/// gives the same records.
pub proof fn lemma_gather_same_choice(
    listings: Seq<Listing>,
    first: spec_fn(int) -> bool,
    second: spec_fn(int) -> bool,
)
    requires
        forall|p: int| 0 <= p < listings.len() ==> #[trigger] first(p) == second(p),
    ensures
        gather(listings, first) == gather(listings, second),
    decreases listings.len(),
{
    if listings.len() > 0 {
        lemma_gather_same_choice(listings.drop_last(), first, second);
    }
}

/// A sequence and a prefix of it that reaches `limit` have the same first
/// `limit` elements.
pub proof fn lemma_first_of_prefix<A>(shorter: Seq<A>, longer: Seq<A>, limit: int)
    requires
        shorter.is_prefix_of(longer),
        shorter.len() >= limit,
    ensures
        first_of(shorter, limit) == first_of(longer, limit),
{
    assert(first_of(shorter, limit) =~= first_of(longer, limit));
}

/// The records of bucket `i` of the table `table` of the node `local`: those
/// of the peers whose affinity to `local` is `i`.
pub open spec fn bucket_of(table: Map<Seq<u8>, NodeView>, local: Seq<u8>, i: int) -> Map<
    Seq<u8>,
    NodeView,
> {
    Map::new(
        |peer: Seq<u8>| table.contains_key(peer) && affinity_of(local, peer) == i,
        |peer: Seq<u8>| table[peer],
    )
}

/// Whether `listings` holds a listing of each bucket of the table `table` of
/// the node `local`.
pub open spec fn listed(table: Map<Seq<u8>, NodeView>, local: Seq<u8>, listings: Seq<Listing>) -> bool {
    &&& listings.len() == BUCKETS
    &&& forall|i: int|
        0 <= i < BUCKETS ==> enumerates(#[trigger] listings[i], bucket_of(table, local, i))
}

/// Listings none of which is chosen give no records.
pub proof fn lemma_gather_none(listings: Seq<Listing>, chosen: spec_fn(int) -> bool)
    requires
        forall|p: int| 0 <= p < listings.len() ==> !#[trigger] chosen(p),
    ensures
        gather(listings, chosen) == Seq::<NodeView>::empty(),
    decreases listings.len(),
{
    if listings.len() > 0 {
        lemma_gather_none(listings.drop_last(), chosen);
    }
}

/// The closest record to a peer of the table is a record of the bucket of
/// that peer, and is the record of the peer itself where the bucket holds no
/// other: a search for the one record closest to `id` in a table that holds
/// `id` finds a record of a peer with the affinity of `id` to the local
/// identifier. The local identifier itself is not found by such a search.
pub proof fn lemma_closest_is_of_same_bucket(
    table: Map<Seq<u8>, NodeView>,
    local: Seq<u8>,
    id: Seq<u8>,
    listings: Seq<Listing>,
)
    requires
        listed(table, local, listings),
        table.contains_key(id),
        common_prefix_bits(local, id) < 256,
    ensures
        ({
            let found = first_of(gather(listings, differing_bits(local, id)), 1);
            let bucket = bucket_of(table, local, affinity_of(local, id));
            &&& found.len() == 1
            &&& exists|peer: Seq<u8>| #[trigger] bucket.contains_key(peer) && found[0] == table[peer]
            &&& (forall|peer: Seq<u8>| #[trigger] bucket.contains_key(peer) ==> peer == id)
                ==> found[0] == table[id]
        }),
{
    let chosen = differing_bits(local, id);
    let a = affinity_of(local, id);
    let bucket = bucket_of(table, local, a);
    lemma_equal_bits_agree(local, id, 0);
    assert(chosen(a));
    let list = listings[a];
    assert(enumerates(list, bucket));
    assert(bucket.contains_key(id));
    let at = choose|i: int| #[trigger] listed_at(list, id, i);
    assert(listed_at(list, id, at));
    let upto = listings.take(a);
    lemma_gather_none(upto, chosen);
    let through = listings.take(a + 1);
    assert(through.drop_last() =~= upto);
    assert(through.last() == list);
    assert(gather(through, chosen) =~= records(list));
    lemma_gather_prefix(listings, chosen, a + 1);
    let all = gather(listings, chosen);
    assert(all[0] == records(list)[0]);
    let found = first_of(all, 1);
    assert(found[0] == list[0].1);
    assert(bucket.contains_key(list[0].0));
    assert(table[list[0].0] == list[0].1);
}

/// Whether `x` is closer to `target` than `y` by XOR distance: at the first
/// bit at which `x` and `y` differ, `x` carries the bit of `target`.
pub open spec fn closer(target: Seq<u8>, x: Seq<u8>, y: Seq<u8>) -> bool {
    exists|bit: int|
        0 <= bit < 256 && #[trigger] id_bit(x, bit) != id_bit(y, bit) && id_bit(x, bit) == id_bit(
            target,
            bit,
        ) && forall|i: int| 0 <= i < bit ==> id_bit(x, i) == id_bit(y, i)
}

/// A search for the records closest to `target` visits the buckets from the
/// closest to the farthest: of two buckets that it visits, every peer of
/// the one that it visits first is closer to `target` than every peer of
/// the other.
pub proof fn lemma_visited_buckets_go_by_distance(
    local: Seq<u8>,
    target: Seq<u8>,
    first: int,
    second: int,
    x: Seq<u8>,
    y: Seq<u8>,
)
    requires
        0 <= first < second < 256,
        differing_bits(local, target)(first),
        differing_bits(local, target)(second),
        affinity_of(local, x) == first,
        affinity_of(local, y) == second,
    ensures
        closer(target, x, y),
{
    lemma_equal_bits_agree(local, x, 0);
    lemma_equal_bits_agree(local, y, 0);
    assert(id_bit(x, first) != id_bit(y, first));
    assert forall|i: int| 0 <= i < first implies id_bit(x, i) == id_bit(y, i) by {}
}

/// The routing table of a node.
pub struct RoutingTable {
    local: KeyId,
    buckets: Vec<BucketMap>,
}

impl View for RoutingTable {
    type V = Map<Seq<u8>, NodeView>;

    /// The record of each peer of the table.
    closed spec fn view(&self) -> Map<Seq<u8>, NodeView> {
        Map::new(
            |peer: Seq<u8>| self.slot(affinity_of(self.local@, peer)).contains_key(peer),
            |peer: Seq<u8>| self.slot(affinity_of(self.local@, peer))[peer],
        )
    }
}

/// The view of a copy of a record, as the buckets hold it.
pub open spec fn record_view() -> spec_fn(Node) -> NodeView {
    |node: Node| node@
}

impl RoutingTable {
    /// The identifier of the node that owns the table.
    pub closed spec fn local_id(&self) -> Seq<u8> {
        self.local@
    }

    /// The records that the map of bucket `i` holds.
    closed spec fn slot(&self, i: int) -> Map<Seq<u8>, NodeView> {
        bucket_entries(self.buckets@[i]).map_values(record_view())
    }

    /// The records of bucket `i`: those of the peers whose affinity to the
    /// local identifier is `i`.
    pub open spec fn bucket(&self, i: int) -> Map<Seq<u8>, NodeView> {
        bucket_of(self@, self.local_id(), i)
    }

    /// Validity: 256 buckets with finitely many entries each, and every peer
    /// in the bucket of its affinity to the local identifier.
    pub closed spec fn wf(&self) -> bool {
        &&& self.buckets.len() == BUCKETS
        &&& forall|i: int| 0 <= i < BUCKETS ==> (#[trigger] self.slot(i)).dom().finite()
        &&& forall|i: int, peer: Seq<u8>|
            0 <= i < BUCKETS && #[trigger] self.slot(i).contains_key(peer) ==> affinity_of(
                self.local@,
                peer,
            ) == i
    }

    /// Whether `listings` holds a listing of each bucket.
    pub open spec fn listed_by(&self, listings: Seq<Listing>) -> bool {
        listed(self@, self.local_id(), listings)
    }

    /// In a valid table, bucket `i` is what the map of bucket `i` holds.
    proof fn lemma_slot_is_bucket(&self, i: int)
        requires
            self.wf(),
            0 <= i < BUCKETS,
        ensures
            self.slot(i) == self.bucket(i),
            self.bucket(i).dom().finite(),
    {
        assert(self.slot(i) =~= self.bucket(i));
    }

    /// Listings of the first `n` buckets can be completed to listings of all.
    proof fn lemma_complete(&self, seen: Seq<Listing>)
        requires
            self.wf(),
            seen.len() <= BUCKETS,
            forall|i: int| 0 <= i < seen.len() ==> enumerates(#[trigger] seen[i], self.bucket(i)),
        ensures
            exists|listings: Seq<Listing>|
                self.listed_by(listings) && #[trigger] listings.take(seen.len() as int) == seen,
        decreases BUCKETS - seen.len(),
    {
        if seen.len() == BUCKETS {
            assert(seen.take(seen.len() as int) =~= seen);
            assert(self.listed_by(seen));
        } else {
            self.lemma_slot_is_bucket(seen.len() as int);
            lemma_listing_exists(self.bucket(seen.len() as int));
            let next = choose|list: Listing| enumerates(list, self.bucket(seen.len() as int));
            let longer = seen.push(next);
            self.lemma_complete(longer);
            let listings = choose|listings: Seq<Listing>|
                self.listed_by(listings) && #[trigger] listings.take(longer.len() as int) == longer;
            assert(listings.take(seen.len() as int) =~= longer.take(seen.len() as int));
            assert(longer.take(seen.len() as int) =~= seen);
        }
    }

    /// Creates the empty table of the node `local`.
    pub fn new(local: KeyId) -> (table: RoutingTable)
        ensures
            table.wf(),
            table.local_id() == local@,
            table@ == Map::<Seq<u8>, NodeView>::empty(),
    {
        let mut buckets: Vec<BucketMap> = Vec::new();
        while buckets.len() < BUCKETS
            invariant
                buckets.len() <= BUCKETS,
                forall|i: int|
                    0 <= i < buckets.len() ==> #[trigger] bucket_entries(buckets@[i])
                        == Map::<Seq<u8>, Node>::empty(),
            decreases BUCKETS - buckets.len(),
        {
            let bucket = bucket_new();
            assert(bucket_entries(bucket) =~= Map::<Seq<u8>, Node>::empty());
            buckets.push(bucket);
        }
        let table = RoutingTable { local, buckets };
        proof {
            assert forall|i: int| 0 <= i < BUCKETS implies (#[trigger] table.slot(i)).dom()
                =~= Set::<Seq<u8>>::empty() by {
                assert(bucket_entries(table.buckets@[i]) == Map::<Seq<u8>, Node>::empty());
            }
            assert(table@ =~= Map::<Seq<u8>, NodeView>::empty());
        }
        table
    }

    /// Returns the local identifier.
    pub fn local(&self) -> (local: KeyId)
        ensures
            local@ == self.local_id(),
    {
        self.local
    }

    /// Returns a copy of the record of `id`, if the table holds one.
    pub fn get(&self, id: &KeyId) -> (node: Option<Node>)
        requires
            self.wf(),
        ensures
            node is Some == self@.contains_key(id@),
            node is Some ==> node->0@ == self@[id@],
    {
        let affinity = get_affinity(&self.local, id) as usize;
        bucket_get(&self.buckets[affinity], id)
    }

    /// Files `node` under `id`, unless the table holds a record of `id` whose
    /// version is not older, and tells whether it did.
    pub fn put(&mut self, id: KeyId, node: &Node) -> (stored: bool)
        requires
            old(self).wf(),
        ensures
            final(self).wf(),
            final(self).local_id() == old(self).local_id(),
            stored == !(old(self)@.contains_key(id@) && old(self)@[id@].version >= node.version),
            final(self)@ == (if stored {
                old(self)@.insert(id@, node@)
            } else {
                old(self)@
            }),
    {
        let affinity = get_affinity(&self.local, &id) as usize;
        match bucket_get(&self.buckets[affinity], &id) {
            Some(known) => {
                if known.version >= node.version {
                    return false;
                }
            },
            None => {},
        }
        let copy = node.duplicate();
        bucket_insert(&mut self.buckets[affinity], id, copy);
        proof {
            let a = affinity as int;
            assert(self.slot(a) =~= old(self).slot(a).insert(id@, node@));
            assert forall|i: int| 0 <= i < BUCKETS && i != a implies self.slot(i) == old(
                self,
            ).slot(i) by {}
            assert(self@ =~= old(self)@.insert(id@, node@));
        }
        true
    }

    /// Appends copies of the records of bucket `p` to `out`, in the order of
    /// some listing of the bucket, until `out` holds `limit` records.
    fn append_bucket(&self, p: usize, out: &mut Vec<Node>, limit: usize) -> (list: Ghost<Listing>)
        requires
            self.wf(),
            p < BUCKETS,
            old(out).len() < limit,
        ensures
            final(out).len() <= limit,
            enumerates(list@, self.bucket(p as int)),
            nodes_view(final(out)@) == first_of(
                nodes_view(old(out)@) + records(list@),
                limit as int,
            ),
    {
        let entries = bucket_list(&self.buckets[p]);
        let ghost list: Listing = entries@.map_values(|entry: (KeyId, Node)| (entry.0@, entry.1@));
        proof {
            self.lemma_slot_is_bucket(p as int);
            let raw = bucket_entries(self.buckets@[p as int]);
            assert forall|peer: Seq<u8>| self.bucket(p as int).contains_key(peer) implies exists|
                i: int,
            | #[trigger] listed_at(list, peer, i) by {
                assert(raw.contains_key(peer));
                let i = choose|i: int| #[trigger] named_at(entries@, peer, i);
                assert(listed_at(list, peer, i));
            }
            assert forall|i: int| 0 <= i < list.len() implies self.bucket(p as int).contains_key(
                #[trigger] list[i].0,
            ) && self.bucket(p as int)[list[i].0] == list[i].1 by {
                assert(raw.contains_key(entries@[i].0@));
            }
            assert(enumerates(list, self.bucket(p as int)));
        }
        let mut j: usize = 0;
        while j < entries.len() && out.len() < limit
            invariant
                j <= entries.len(),
                out.len() <= limit,
                list == entries@.map_values(|entry: (KeyId, Node)| (entry.0@, entry.1@)),
                nodes_view(out@) == nodes_view(old(out)@) + records(list).take(j as int),
            decreases entries.len() - j,
        {
            let ghost before = out@;
            out.push(entries[j].1.duplicate());
            j += 1;
            proof {
                let shorter = records(list).take(j - 1);
                let longer = records(list).take(j as int);
                assert(longer =~= shorter.push(list[j - 1].1));
                assert(nodes_view(out@) =~= nodes_view(before).push(list[j - 1].1));
                assert(nodes_view(out@) =~= nodes_view(old(out)@) + longer);
            }
        }
        proof {
            let whole = nodes_view(old(out)@) + records(list);
            if j == entries.len() {
                assert(records(list).take(j as int) =~= records(list));
            } else {
                assert(nodes_view(out@) =~= whole.take(limit as int));
            }
        }
        Ghost(list)
    }

    /// Collects up to `limit` records from the buckets whose bit is set in
    /// `mask`, bucket after bucket.
    fn collect(&self, mask: &KeyId, limit: usize) -> (nodes: Vec<Node>)
        requires
            self.wf(),
        ensures
            exists|listings: Seq<Listing>|
                #[trigger] self.listed_by(listings) && nodes_view(nodes@) == first_of(
                    gather(listings, set_bits(mask@)),
                    limit as int,
                ),
    {
        let ghost chosen = set_bits(mask@);
        let mut out: Vec<Node> = Vec::new();
        let ghost mut seen: Seq<Listing> = Seq::empty();
        let mut p: usize = 0;
        assert(nodes_view(out@) =~= gather(seen, chosen));
        while p < BUCKETS && out.len() < limit
            invariant
                self.wf(),
                p <= BUCKETS,
                out.len() <= limit,
                seen.len() == p,
                chosen == set_bits(mask@),
                forall|i: int| 0 <= i < p ==> enumerates(#[trigger] seen[i], self.bucket(i)),
                nodes_view(out@) == first_of(gather(seen, chosen), limit as int),
            decreases BUCKETS - p,
        {
            let byte = mask[p / 8];
            let shift = (7 - p % 8) as u8;
            if (byte >> shift) & 1 == 1 {
                assert(chosen(p as int));
                let list = self.append_bucket(p, &mut out, limit);
                proof {
                    let longer = seen.push(list@);
                    assert(longer.drop_last() =~= seen);
                    seen = longer;
                }
            } else {
                assert(!chosen(p as int));
                proof {
                    self.lemma_slot_is_bucket(p as int);
                    lemma_listing_exists(self.bucket(p as int));
                    let list = choose|list: Listing| enumerates(list, self.bucket(p as int));
                    let longer = seen.push(list);
                    assert(longer.drop_last() =~= seen);
                    seen = longer;
                }
            }
            p += 1;
        }
        proof {
            if p == BUCKETS {
                assert(self.listed_by(seen));
            } else {
                self.lemma_complete(seen);
                let listings = choose|listings: Seq<Listing>|
                    self.listed_by(listings) && #[trigger] listings.take(seen.len() as int)
                        == seen;
                lemma_gather_prefix(listings, chosen, p as int);
                lemma_first_of_prefix(gather(seen, chosen), gather(listings, chosen), limit as int);
            }
        }
        out
    }

    /// Walks the buckets from 0 to 255 and returns copies of the first
    /// `limit` records, or of all if the table holds no more.
    pub fn iter_all(&self, limit: usize) -> (nodes: Vec<Node>)
        requires
            self.wf(),
        ensures
            exists|listings: Seq<Listing>|
                #[trigger] self.listed_by(listings) && nodes_view(nodes@) == first_of(
                    gather(listings, every_bucket()),
                    limit as int,
                ),
    {
        let mask: KeyId = [0xFFu8; 32];
        let nodes = self.collect(&mask, limit);
        proof {
            let listings = choose|listings: Seq<Listing>|
                #[trigger] self.listed_by(listings) && nodes_view(nodes@) == first_of(
                    gather(listings, set_bits(mask@)),
                    limit as int,
                );
            assert forall|p: int| 0 <= p < 256 implies id_bit(mask@, p) by {
                let s = (7 - p % 8) as u8;
                assert(s < 8 ==> (0xFFu8 >> s) & 1u8 == 1u8) by (bit_vector);
            }
            lemma_gather_same_choice(listings, set_bits(mask@), every_bucket());
        }
        nodes
    }

    /// Returns copies of up to `k` records that are closest to `target`: it
    /// visits the buckets at whose position the local identifier and `target`
    /// differ, from the first such position on, which is from the closest
    /// records to the farthest.
    pub fn closest_to(&self, target: &KeyId, k: usize) -> (nodes: Vec<Node>)
        requires
            self.wf(),
        ensures
            exists|listings: Seq<Listing>|
                #[trigger] self.listed_by(listings) && nodes_view(nodes@) == first_of(
                    gather(listings, differing_bits(self.local_id(), target@)),
                    k as int,
                ),
    {
        let mut mask: KeyId = [0u8; 32];
        let mut i: usize = 0;
        while i < 32
            invariant
                i <= 32,
                forall|j: int| 0 <= j < i ==> mask@[j] == self.local@[j] ^ target@[j],
            decreases 32 - i,
        {
            mask[i] = self.local[i] ^ target[i];
            i += 1;
        }
        let nodes = self.collect(&mask, k);
        proof {
            let listings = choose|listings: Seq<Listing>|
                #[trigger] self.listed_by(listings) && nodes_view(nodes@) == first_of(
                    gather(listings, set_bits(mask@)),
                    k as int,
                );
            assert forall|p: int| 0 <= p < 256 implies id_bit(mask@, p) == differing_bits(
                self.local_id(),
                target@,
            )(p) by {
                lemma_xor_bits(self.local@[p / 8], target@[p / 8]);
            }
            lemma_gather_same_choice(
                listings,
                set_bits(mask@),
                differing_bits(self.local_id(), target@),
            );
        }
        nodes
    }
}

} // verus!

//! The lookup iterator: the frontier of peers that a search for one key
//! queries next, ordered by effective affinity to the key.

use vstd::prelude::*;
use crate::affinity::{affinity_of, get_affinity, KeyId};
use crate::node::{cursor_position, lemma_next_healthy, next_healthy, walk_end, DhtNode};
use crate::peers::PeerCursor;
use crate::scores::{healthy_in, score_in};
use crate::types::same_id;
use crate::MAX_TASKS;

verus! {

/// An entry of a frontier: effective affinity and peer.
pub type Entry = (u8, Seq<u8>);

/// The entries of a frontier as mathematical values.
pub open spec fn entries_view(order: Seq<(u8, KeyId)>) -> Seq<Entry> {
    order.map_values(|entry: (u8, KeyId)| (entry.0, entry.1@))
}

/// The affinity of `peer` to `target`, less the score of `peer`, and not
/// below zero.
pub open spec fn effective_affinity(scores: Map<Seq<u8>, u8>, target: Seq<u8>, peer: Seq<u8>) -> u8 {
    let affinity = affinity_of(peer, target);
    let score = score_in(scores, peer);
    if affinity >= score {
        (affinity - score) as u8
    } else {
        0
    }
}

/// The entries of the peers in the slots `from..to` of `ids` that `scores`
/// admits to lookups, in slot order.
pub open spec fn candidates(
    ids: Seq<Seq<u8>>,
    scores: Map<Seq<u8>, u8>,
    target: Seq<u8>,
    from: int,
    to: int,
) -> Seq<Entry>
    decreases to - from,
{
    if to <= from || to > ids.len() || from < 0 {
        Seq::empty()
    } else if healthy_in(scores, ids[to - 1]) {
        candidates(ids, scores, target, from, to - 1).push(
            (effective_affinity(scores, target, ids[to - 1]), ids[to - 1]),
        )
    } else {
        candidates(ids, scores, target, from, to - 1)
    }
}

/// The entries of `order` whose affinity is `affinity`, in their order.
pub open spec fn pick(order: Seq<Entry>, affinity: int) -> Seq<Entry>
    decreases order.len(),
{
    if order.len() == 0 {
        Seq::empty()
    } else if order.last().0 == affinity {
        pick(order.drop_last(), affinity).push(order.last())
    } else {
        pick(order.drop_last(), affinity)
    }
}

/// The entries of `order` whose affinity is below `bound`, by ascending
/// affinity, those of one affinity in their order.
pub open spec fn sorted_below(order: Seq<Entry>, bound: int) -> Seq<Entry>
    decreases bound,
{
    if bound <= 0 {
        Seq::empty()
    } else {
        sorted_below(order, bound - 1) + pick(order, bound - 1)
    }
}

/// `order` sorted by ascending affinity, with entries of one affinity left
/// in their order.
pub open spec fn sorted(order: Seq<Entry>) -> Seq<Entry> {
    sorted_below(order, 256)
}

/// A sorted frontier cut down: entries leave from the front while more than
/// `MAX_TASKS` are left and the first has a smaller affinity than the last.
pub open spec fn trimmed(order: Seq<Entry>) -> Seq<Entry>
    decreases order.len(),
{
    if order.len() > MAX_TASKS && order.first().0 < order.last().0 {
        trimmed(order.drop_first())
    } else {
        order
    }
}

/// The frontier after the entries `fresh` have joined the frontier `order`.
pub open spec fn frontier_after(order: Seq<Entry>, fresh: Seq<Entry>) -> Seq<Entry> {
    trimmed(sorted(order + fresh))
}

/// The frontier of a search for one key.
pub struct DhtIterator {
    iter: PeerCursor,
    key_id: KeyId,
    order: Vec<(u8, KeyId)>,
}

/// Mathematical value of a [`DhtIterator`].
pub struct Frontier {
    /// The key hash that the frontier serves.
    pub target: Seq<u8>,
    /// The slot of the known peers from which on no peer was looked at yet.
    pub position: nat,
    /// The entries, by ascending effective affinity.
    pub order: Seq<Entry>,
}

impl View for DhtIterator {
    type V = Frontier;

    closed spec fn view(&self) -> Frontier {
        Frontier {
            target: self.key_id@,
            position: self.iter.position(),
            order: entries_view(self.order@),
        }
    }
}

/// The frontier after it took in the peers that it had not looked at yet, of
/// the known peers `ids` with the scores `scores`.
pub open spec fn after_update(frontier: Frontier, ids: Seq<Seq<u8>>, scores: Map<Seq<u8>, u8>) -> Frontier {
    let end = walk_end(frontier.position as int, ids.len() as int);
    Frontier {
        target: frontier.target,
        position: end as nat,
        order: frontier_after(
            frontier.order,
            candidates(ids, scores, frontier.target, frontier.position as int, end),
        ),
    }
}

/// The frontier of a new search for `target` among the known peers `ids`
/// with the scores `scores`.
pub open spec fn new_frontier(target: Seq<u8>, ids: Seq<Seq<u8>>, scores: Map<Seq<u8>, u8>) -> Frontier {
    after_update(Frontier { target, position: 0, order: Seq::empty() }, ids, scores)
}

/// Sorts a frontier by ascending affinity, leaving entries of one affinity
/// in their order.
pub fn sort_by_affinity(order: &Vec<(u8, KeyId)>) -> (out: Vec<(u8, KeyId)>)
    ensures
        entries_view(out@) == sorted(entries_view(order@)),
{
    let ghost all = entries_view(order@);
    let mut out: Vec<(u8, KeyId)> = Vec::new();
    let mut affinity: usize = 0;
    assert(entries_view(out@) =~= sorted_below(all, 0));
    while affinity < 256
        invariant
            affinity <= 256,
            all == entries_view(order@),
            entries_view(out@) == sorted_below(all, affinity as int),
        decreases 256 - affinity,
    {
        let mut j: usize = 0;
        assert(all.take(0) =~= Seq::<Entry>::empty());
        assert(entries_view(out@) =~= sorted_below(all, affinity as int) + pick(
            all.take(0),
            affinity as int,
        ));
        while j < order.len()
            invariant
                j <= order.len(),
                affinity < 256,
                all == entries_view(order@),
                entries_view(out@) == sorted_below(all, affinity as int) + pick(
                    all.take(j as int),
                    affinity as int,
                ),
            decreases order.len() - j,
        {
            let entry = order[j];
            let ghost before = entries_view(out@);
            proof {
                let longer = all.take(j + 1);
                assert(longer.drop_last() =~= all.take(j as int));
                assert(longer.last() == all[j as int]);
            }
            if entry.0 as usize == affinity {
                out.push(entry);
                assert(entries_view(out@) =~= before.push(all[j as int]));
                assert(entries_view(out@) =~= sorted_below(all, affinity as int) + pick(
                    all.take(j + 1),
                    affinity as int,
                ));
            }
            j += 1;
        }
        assert(all.take(order.len() as int) =~= all);
        affinity += 1;
    }
    out
}

/// Cuts a sorted frontier down.
pub fn trim(order: Vec<(u8, KeyId)>) -> (out: Vec<(u8, KeyId)>)
    ensures
        entries_view(out@) == trimmed(entries_view(order@)),
{
    let ghost all = entries_view(order@);
    if order.len() == 0 {
        return order;
    }
    let top = order[order.len() - 1].0;
    let mut drop_to: usize = 0;
    assert(all.skip(0) =~= all);
    while order.len() - drop_to > MAX_TASKS as usize && order[drop_to].0 < top
        invariant
            drop_to < order.len(),
            all == entries_view(order@),
            top == all.last().0,
            trimmed(all) == trimmed(all.skip(drop_to as int)),
        decreases order.len() - drop_to,
    {
        proof {
            let rest = all.skip(drop_to as int);
            assert(rest.first() == all[drop_to as int]);
            assert(rest.last() == all.last());
            assert(rest.drop_first() =~= all.skip(drop_to + 1));
        }
        drop_to += 1;
    }
    proof {
        let rest = all.skip(drop_to as int);
        assert(rest.first() == all[drop_to as int]);
        assert(rest.last() == all.last());
        assert(trimmed(rest) == rest);
    }
    let mut order = order;
    let out = order.split_off(drop_to);
    assert(entries_view(out@) =~= all.skip(drop_to as int));
    out
}

/// Slots whose peers are not admitted to lookups add no candidates.
pub proof fn lemma_candidates_skip(
    ids: Seq<Seq<u8>>,
    scores: Map<Seq<u8>, u8>,
    target: Seq<u8>,
    from: int,
    a: int,
    b: int,
)
    requires
        0 <= from <= a <= b <= ids.len(),
        forall|j: int| a <= j < b ==> !healthy_in(scores, #[trigger] ids[j]),
    ensures
        candidates(ids, scores, target, from, b) == candidates(ids, scores, target, from, a),
    decreases b - a,
{
    if a < b {
        lemma_candidates_skip(ids, scores, target, from, a, b - 1);
    }
}

impl DhtIterator {
    /// Creates the frontier of a search for `key_id` from the peers that
    /// `dht` knows.
    pub fn with_key_id(dht: &DhtNode, key_id: KeyId) -> (ret: DhtIterator)
        requires
            dht.wf(),
        ensures
            ret@ == new_frontier(key_id@, dht@.peers, dht@.scores),
    {
        let mut ret = DhtIterator { iter: PeerCursor::start(), key_id, order: Vec::new() };
        assert(ret@.order =~= Seq::<Entry>::empty());
        ret.update(dht);
        ret
    }

    /// Takes the peers that the frontier has not looked at yet into it, each
    /// that is admitted to lookups with its effective affinity, sorts the
    /// frontier and cuts it down.
    pub fn update(&mut self, dht: &DhtNode)
        requires
            dht.wf(),
        ensures
            final(self)@ == after_update(old(self)@, dht@.peers, dht@.scores),
    {
        let ghost ids = dht@.peers;
        let ghost scores = dht@.scores;
        let ghost target = self.key_id@;
        let ghost start = self.iter.position() as int;
        let mut fresh: Vec<(u8, KeyId)> = Vec::new();
        let mut cursor = Some(self.iter);
        assert(entries_view(fresh@) =~= candidates(ids, scores, target, start, start));
        loop
            invariant
                dht.wf(),
                ids == dht@.peers,
                scores == dht@.scores,
                target == self.key_id@,
                cursor is Some,
                0 <= start,
                start <= cursor_position(cursor),
                cursor_position(cursor) <= ids.len() || cursor_position(cursor) == start,
                entries_view(fresh@) == candidates(
                    ids,
                    scores,
                    target,
                    start,
                    cursor_position(cursor),
                ),
            ensures
                cursor is Some,
                cursor_position(cursor) == walk_end(start, ids.len() as int),
                entries_view(fresh@) == candidates(
                    ids,
                    scores,
                    target,
                    start,
                    cursor_position(cursor),
                ),
            decreases ids.len() - cursor_position(cursor),
        {
            let ghost at = cursor_position(cursor);
            proof {
                if at <= ids.len() {
                    lemma_next_healthy(ids, scores, at);
                }
            }
            match dht.get_known_peer(&mut cursor) {
                Some(peer) => {
                    let affinity = get_affinity(&peer, &self.key_id);
                    let score = dht.peer_score(&peer);
                    let ghost before = entries_view(fresh@);
                    fresh.push((affinity.saturating_sub(score), peer));
                    proof {
                        let found = next_healthy(ids, scores, at);
                        lemma_candidates_skip(ids, scores, target, start, at, found);
                        assert(entries_view(fresh@) =~= before.push(
                            (effective_affinity(scores, target, ids[found]), ids[found]),
                        ));
                    }
                },
                None => {
                    proof {
                        if at <= ids.len() {
                            lemma_candidates_skip(ids, scores, target, start, at, ids.len() as int);
                        }
                    }
                    break ;
                },
            }
        }
        match cursor {
            Some(cursor) => {
                self.iter = cursor;
            },
            None => {},
        }
        let ghost joined = entries_view(self.order@) + entries_view(fresh@);
        self.order.append(&mut fresh);
        assert(entries_view(self.order@) =~= joined);
        let sorted = sort_by_affinity(&self.order);
        self.order = trim(sorted);
    }

    /// Returns the key hash that the frontier serves.
    pub fn key_id(&self) -> (key_id: KeyId)
        ensures
            key_id@ == self@.target,
    {
        self.key_id
    }

    /// Tells whether the frontier serves the key hash `key_id`.
    pub fn serves(&self, key_id: &KeyId) -> (serves: bool)
        ensures
            serves == (self@.target == key_id@),
    {
        same_id(&self.key_id, key_id)
    }

    /// Returns the number of entries of the frontier.
    pub fn len(&self) -> (len: usize)
        ensures
            len == self@.order.len(),
    {
        self.order.len()
    }

    /// Tells whether the frontier holds no entry.
    pub fn is_empty(&self) -> (empty: bool)
        ensures
            empty == (self@.order.len() == 0),
    {
        self.order.len() == 0
    }

    /// Tells whether the frontier is exhausted: it holds no entry, and it has
    /// looked at every peer that `dht` knows.
    pub fn is_exhausted(&self, dht: &DhtNode) -> (exhausted: bool)
        requires
            dht.wf(),
        ensures
            exhausted == (self@.order.len() == 0 && self@.position >= dht@.peers.len()),
    {
        self.order.len() == 0 && self.iter.index() >= dht.known_peers_count()
    }

    /// Returns entry `i` of the frontier.
    pub fn entry(&self, i: usize) -> (entry: (u8, KeyId))
        requires
            i < self@.order.len(),
        ensures
            (entry.0, entry.1@) == self@.order[i as int],
    {
        self.order[i]
    }

    /// Takes the last entry, the one of the largest effective affinity, off
    /// the frontier.
    pub fn pop(&mut self) -> (entry: Option<(u8, KeyId)>)
        ensures
            match entry {
                Some(last) => old(self)@.order.len() > 0 && (last.0, last.1@) == old(self)@.order.last() && final(self)@ == (Frontier {
                    order: old(self)@.order.drop_last(),
                    ..old(self)@
                }),
                None => old(self)@.order.len() == 0 && final(self)@ == old(self)@,
            },
    {
        let entry = self.order.pop();
        proof {
            if old(self)@.order.len() > 0 {
                assert(self@.order =~= old(self)@.order.drop_last());
            }
        }
        entry
    }
}

/// The number of entries of `order` whose affinity is `affinity`.
pub open spec fn count_at(order: Seq<Entry>, affinity: int) -> nat
    decreases order.len(),
{
    if order.len() == 0 {
        0
    } else if order.last().0 == affinity {
        count_at(order.drop_last(), affinity) + 1
    } else {
        count_at(order.drop_last(), affinity)
    }
}

/// The number of entries of `order` whose affinity is below `bound`.
pub open spec fn count_below(order: Seq<Entry>, bound: int) -> nat
    decreases order.len(),
{
    if order.len() == 0 {
        0
    } else if order.last().0 < bound {
        count_below(order.drop_last(), bound) + 1
    } else {
        count_below(order.drop_last(), bound)
    }
}

/// The entries picked for an affinity are the entries of that affinity.
pub proof fn lemma_pick(order: Seq<Entry>, affinity: int)
    ensures
        pick(order, affinity).len() == count_at(order, affinity),
        forall|i: int|
            0 <= i < pick(order, affinity).len() ==> (#[trigger] pick(order, affinity)[i]).0
                == affinity && order.contains(pick(order, affinity)[i]),
        forall|i: int|
            0 <= i < order.len() && (#[trigger] order[i]).0 == affinity ==> pick(
                order,
                affinity,
            ).contains(order[i]),
    decreases order.len(),
{
    if order.len() > 0 {
        let shorter = order.drop_last();
        lemma_pick(shorter, affinity);
        let picked = pick(order, affinity);
        assert forall|i: int| 0 <= i < picked.len() implies (#[trigger] picked[i]).0 == affinity
            && order.contains(picked[i]) by {
            if i < pick(shorter, affinity).len() {
                let e = pick(shorter, affinity)[i];
                assert(shorter.contains(e));
                let j = choose|j: int| 0 <= j < shorter.len() && shorter[j] == e;
                assert(order[j] == e);
            } else {
                assert(order[order.len() - 1] == picked[i]);
            }
        }
        assert forall|i: int| 0 <= i < order.len() && (#[trigger] order[i]).0
            == affinity implies picked.contains(order[i]) by {
            if i < shorter.len() {
                assert(shorter[i] == order[i]);
                let e = order[i];
                assert(pick(shorter, affinity).contains(e));
                let j = choose|j: int|
                    0 <= j < pick(shorter, affinity).len() && pick(shorter, affinity)[j] == e;
                assert(picked[j] == e);
            } else {
                assert(picked[picked.len() - 1] == order[i]);
            }
        }
    }
}

/// The counts of the affinities below a bound add up.
pub proof fn lemma_count_below(order: Seq<Entry>, bound: int)
    ensures
        count_below(order, bound + 1) == count_below(order, bound) + count_at(order, bound),
        bound <= 0 ==> count_below(order, bound) == 0,
        bound >= 256 ==> count_below(order, bound) == order.len(),
    decreases order.len(),
{
    if order.len() > 0 {
        lemma_count_below(order.drop_last(), bound);
    }
}

/// The entries sorted below a bound are the entries with an affinity below
/// the bound, by ascending affinity.
pub proof fn lemma_sorted_below(order: Seq<Entry>, bound: int)
    requires
        bound <= 256,
    ensures
        sorted_below(order, bound).len() == count_below(order, bound),
        forall|i: int|
            0 <= i < sorted_below(order, bound).len() ==> (#[trigger] sorted_below(
                order,
                bound,
            )[i]).0 < bound && order.contains(sorted_below(order, bound)[i]),
        forall|i: int, j: int|
            0 <= i < j < sorted_below(order, bound).len() ==> (#[trigger] sorted_below(
                order,
                bound,
            )[i]).0 <= (#[trigger] sorted_below(order, bound)[j]).0,
        forall|i: int|
            0 <= i < order.len() && (#[trigger] order[i]).0 < bound ==> sorted_below(
                order,
                bound,
            ).contains(order[i]),
    decreases bound,
{
    if bound <= 0 {
        lemma_count_below(order, bound);
    } else {
        let lower = sorted_below(order, bound - 1);
        let here = pick(order, bound - 1);
        let whole = sorted_below(order, bound);
        lemma_sorted_below(order, bound - 1);
        lemma_pick(order, bound - 1);
        lemma_count_below(order, bound - 1);
        assert forall|i: int| 0 <= i < whole.len() implies (#[trigger] whole[i]).0 < bound
            && order.contains(whole[i]) by {
            if i < lower.len() {
                assert(whole[i] == lower[i]);
            } else {
                assert(whole[i] == here[i - lower.len()]);
            }
        }
        assert forall|i: int, j: int| 0 <= i < j < whole.len() implies (#[trigger] whole[i]).0 <= (
        #[trigger] whole[j]).0 by {
            if i < lower.len() {
                assert(whole[i] == lower[i]);
            } else {
                assert(whole[i] == here[i - lower.len()]);
            }
            if j < lower.len() {
                assert(whole[j] == lower[j]);
            } else {
                assert(whole[j] == here[j - lower.len()]);
            }
        }
        assert forall|i: int| 0 <= i < order.len() && (#[trigger] order[i]).0
            < bound implies whole.contains(order[i]) by {
            let e = order[i];
            if e.0 < bound - 1 {
                assert(lower.contains(e));
                let j = choose|j: int| 0 <= j < lower.len() && lower[j] == e;
                assert(whole[j] == e);
            } else {
                assert(here.contains(e));
                let j = choose|j: int| 0 <= j < here.len() && here[j] == e;
                assert(whole[lower.len() + j] == e);
            }
        }
    }
}

/// A sorted frontier holds the entries that went into it, as many as went
/// in, by ascending affinity.
pub proof fn lemma_sorted(order: Seq<Entry>)
    ensures
        sorted(order).len() == order.len(),
        forall|i: int|
            0 <= i < sorted(order).len() ==> order.contains(#[trigger] sorted(order)[i]),
        forall|i: int, j: int|
            0 <= i < j < sorted(order).len() ==> (#[trigger] sorted(order)[i]).0 <= (
            #[trigger] sorted(order)[j]).0,
        forall|i: int| 0 <= i < order.len() ==> sorted(order).contains(#[trigger] order[i]),
{
    lemma_sorted_below(order, 256);
    lemma_count_below(order, 256);
}

/// Cutting a frontier down takes entries off its front, and none unless
/// `MAX_TASKS` are left.
pub proof fn lemma_trimmed(order: Seq<Entry>)
    ensures
        trimmed(order).len() <= order.len(),
        trimmed(order) == order.skip(order.len() - trimmed(order).len()),
        trimmed(order).len() >= MAX_TASKS || trimmed(order).len() == order.len(),
        trimmed(order).len() > MAX_TASKS ==> trimmed(order).first().0 >= trimmed(order).last().0,
    decreases order.len(),
{
    if order.len() > MAX_TASKS && order.first().0 < order.last().0 {
        let rest = order.drop_first();
        lemma_trimmed(rest);
        assert(rest.skip(rest.len() - trimmed(rest).len()) =~= order.skip(
            order.len() - trimmed(rest).len(),
        ));
    } else {
        assert(order.skip(0) =~= order);
    }
}

/// After an update a frontier holds `MAX_TASKS` entries or all that it had
/// and that came in, each of its entries is one of those, and each of those
/// that it does not hold has an effective affinity that is not larger than
/// that of any entry that it holds.
pub proof fn lemma_frontier_keeps_best(order: Seq<Entry>, fresh: Seq<Entry>)
    ensures
        frontier_after(order, fresh).len() >= MAX_TASKS || frontier_after(order, fresh).len()
            == order.len() + fresh.len(),
        forall|j: int|
            0 <= j < frontier_after(order, fresh).len() ==> (order + fresh).contains(
                #[trigger] frontier_after(order, fresh)[j],
            ),
        forall|i: int, j: int|
            0 <= i < (order + fresh).len() && 0 <= j < frontier_after(order, fresh).len()
                ==> frontier_after(order, fresh).contains(#[trigger] (order + fresh)[i]) || (order
                + fresh)[i].0 <= (#[trigger] frontier_after(order, fresh)[j]).0,
        forall|i: int, j: int|
            0 <= i < j < frontier_after(order, fresh).len() ==> (#[trigger] frontier_after(
                order,
                fresh,
            )[i]).0 <= (#[trigger] frontier_after(order, fresh)[j]).0,
{
    let all = order + fresh;
    let lined = sorted(all);
    let kept = trimmed(lined);
    lemma_sorted(all);
    lemma_trimmed(lined);
    let dropped = lined.len() - kept.len();
    assert forall|j: int| 0 <= j < kept.len() implies all.contains(#[trigger] kept[j]) by {
        assert(kept[j] == lined[dropped + j]);
    }
    assert forall|i: int, j: int| 0 <= i < all.len() && 0 <= j < kept.len() implies kept.contains(
        #[trigger] all[i],
    ) || all[i].0 <= (#[trigger] kept[j]).0 by {
        assert(lined.contains(all[i]));
        let at = choose|at: int| 0 <= at < lined.len() && lined[at] == all[i];
        assert(kept[j] == lined[dropped + j]);
        if at >= dropped {
            assert(kept[at - dropped] == all[i]);
        } else {
            assert(lined[at].0 <= lined[dropped + j].0);
        }
    }
    assert forall|i: int, j: int| 0 <= i < j < kept.len() implies (#[trigger] kept[i]).0 <= (
    #[trigger] kept[j]).0 by {
        assert(kept[i] == lined[dropped + i]);
        assert(kept[j] == lined[dropped + j]);
    }
}

/// The counts of two orders add up in the order that joins them.
pub proof fn lemma_count_joined(first: Seq<Entry>, second: Seq<Entry>, bound: int)
    ensures
        count_below(first + second, bound) == count_below(first, bound) + count_below(
            second,
            bound,
        ),
    decreases second.len(),
{
    if second.len() == 0 {
        assert(first + second =~= first);
    } else {
        lemma_count_joined(first, second.drop_last(), bound);
        assert((first + second).drop_last() =~= first + second.drop_last());
        assert((first + second).last() == second.last());
    }
}

/// Of entries that all have one affinity, all or none are below a bound.
pub proof fn lemma_count_uniform(order: Seq<Entry>, affinity: int, bound: int)
    requires
        forall|i: int| 0 <= i < order.len() ==> (#[trigger] order[i]).0 == affinity,
    ensures
        count_below(order, bound) == (if affinity < bound {
            order.len()
        } else {
            0
        }),
    decreases order.len(),
{
    if order.len() > 0 {
        assert(order.last() == order[order.len() - 1]);
        assert forall|i: int| 0 <= i < order.drop_last().len() implies (
        #[trigger] order.drop_last()[i]).0 == affinity by {
            assert(order.drop_last()[i] == order[i]);
        }
        lemma_count_uniform(order.drop_last(), affinity, bound);
    }
}

/// Sorting below a bound keeps the number of entries below any smaller
/// bound.
pub proof fn lemma_sorted_below_counts(order: Seq<Entry>, upto: int, bound: int)
    requires
        upto <= 256,
    ensures
        count_below(sorted_below(order, upto), bound) == count_below(
            order,
            if bound <= upto {
                bound
            } else {
                upto
            },
        ),
    decreases upto,
{
    if upto <= 0 {
        lemma_count_below(order, upto);
        lemma_count_below(order, bound);
    } else {
        let lower = sorted_below(order, upto - 1);
        let here = pick(order, upto - 1);
        lemma_sorted_below_counts(order, upto - 1, bound);
        lemma_count_joined(lower, here, bound);
        lemma_pick(order, upto - 1);
        lemma_count_uniform(here, upto - 1, bound);
        lemma_count_below(order, upto - 1);
    }
}

/// In an ascending order the entries below a bound come first.
pub proof fn lemma_ascending_prefix(order: Seq<Entry>, bound: int, at: int)
    requires
        forall|i: int, j: int|
            0 <= i < j < order.len() ==> (#[trigger] order[i]).0 <= (#[trigger] order[j]).0,
        0 <= at < order.len(),
    ensures
        count_below(order, bound) <= order.len(),
        order[at].0 < bound <==> at < count_below(order, bound),
    decreases order.len(),
{
    let shorter = order.drop_last();
    assert forall|i: int, j: int| 0 <= i < j < shorter.len() implies (#[trigger] shorter[i]).0 <= (
    #[trigger] shorter[j]).0 by {
        assert(shorter[i] == order[i]);
        assert(shorter[j] == order[j]);
    }
    if order.last().0 < bound {
        lemma_count_uniform_below(order, bound);
    } else if at < shorter.len() {
        lemma_ascending_prefix(shorter, bound, at);
        assert(shorter[at] == order[at]);
    } else {
        lemma_count_bounded(shorter, bound);
    }
}

/// An order whose last entry is below a bound and that is ascending lies
/// below the bound as a whole.
pub proof fn lemma_count_uniform_below(order: Seq<Entry>, bound: int)
    requires
        forall|i: int, j: int|
            0 <= i < j < order.len() ==> (#[trigger] order[i]).0 <= (#[trigger] order[j]).0,
        order.len() > 0,
        order.last().0 < bound,
    ensures
        count_below(order, bound) == order.len(),
    decreases order.len(),
{
    let shorter = order.drop_last();
    if shorter.len() > 0 {
        assert forall|i: int, j: int| 0 <= i < j < shorter.len() implies (#[trigger] shorter[i]).0
            <= (#[trigger] shorter[j]).0 by {
            assert(shorter[i] == order[i]);
            assert(shorter[j] == order[j]);
        }
        assert(shorter.last() == order[order.len() - 2]);
        assert(order.last() == order[order.len() - 1]);
        assert(order[order.len() - 2].0 <= order[order.len() - 1].0);
        lemma_count_uniform_below(shorter, bound);
    } else {
        assert(count_below(shorter, bound) == 0);
    }
}

/// No more entries are below a bound than there are entries.
pub proof fn lemma_count_bounded(order: Seq<Entry>, bound: int)
    ensures
        count_below(order, bound) <= order.len(),
    decreases order.len(),
{
    if order.len() > 0 {
        lemma_count_bounded(order.drop_last(), bound);
    }
}

/// An order none of whose entries is below a bound counts none below it.
pub proof fn lemma_count_none(order: Seq<Entry>, bound: int)
    requires
        forall|i: int| 0 <= i < order.len() ==> (#[trigger] order[i]).0 >= bound,
    ensures
        count_below(order, bound) == 0,
    decreases order.len(),
{
    if order.len() > 0 {
        assert(order.last() == order[order.len() - 1]);
        assert forall|i: int| 0 <= i < order.drop_last().len() implies (
        #[trigger] order.drop_last()[i]).0 >= bound by {
            assert(order.drop_last()[i] == order[i]);
        }
        lemma_count_none(order.drop_last(), bound);
    }
}

/// The frontier that results from an empty one when the batches of entries
/// come in one after the other, each in an update of its own.
pub open spec fn frontier_of(batches: Seq<Seq<Entry>>) -> Seq<Entry>
    decreases batches.len(),
{
    if batches.len() == 0 {
        Seq::empty()
    } else {
        frontier_after(frontier_of(batches.drop_last()), batches.last())
    }
}

/// The number of entries of all batches.
pub open spec fn seen(batches: Seq<Seq<Entry>>) -> nat
    decreases batches.len(),
{
    if batches.len() == 0 {
        0
    } else {
        seen(batches.drop_last()) + batches.last().len()
    }
}

/// Whether `frontier` holds the best of the entries of `batches`: each of
/// them is in it or has an effective affinity that is not larger than that
/// of any entry in it.
pub open spec fn holds_best(frontier: Seq<Entry>, batches: Seq<Seq<Entry>>) -> bool {
    forall|b: int, i: int, j: int|
        0 <= b < batches.len() && 0 <= i < batches[b].len() && 0 <= j < frontier.len()
            ==> frontier.contains(#[trigger] batches[b][i]) || batches[b][i].0 <= (
        #[trigger] frontier[j]).0
}

/// Whether `frontier` holds every entry of `batches`.
pub open spec fn holds_all(frontier: Seq<Entry>, batches: Seq<Seq<Entry>>) -> bool {
    forall|b: int, i: int|
        0 <= b < batches.len() && 0 <= i < batches[b].len() ==> frontier.contains(
            #[trigger] batches[b][i],
        )
}

/// After any sequence of updates of a frontier that began empty, the
/// frontier holds `MAX_TASKS` entries or all that were seen, and each entry
/// that it does not hold has an effective affinity that is not larger than
/// that of any entry that it holds.
pub proof fn lemma_frontier_after_updates(batches: Seq<Seq<Entry>>)
    ensures
        frontier_of(batches).len() <= seen(batches),
        frontier_of(batches).len() >= MAX_TASKS || frontier_of(batches).len() == seen(batches),
        frontier_of(batches).len() == seen(batches) ==> holds_all(frontier_of(batches), batches),
        holds_best(frontier_of(batches), batches),
        forall|i: int, j: int|
            0 <= i < j < frontier_of(batches).len() ==> (#[trigger] frontier_of(batches)[i]).0 <= (
            #[trigger] frontier_of(batches)[j]).0,
    decreases batches.len(),
{
    if batches.len() > 0 {
        let earlier = batches.drop_last();
        let fresh = batches.last();
        let before = frontier_of(earlier);
        let after = frontier_of(batches);
        let all = before + fresh;
        let lined = sorted(all);
        lemma_frontier_after_updates(earlier);
        lemma_frontier_keeps_best(before, fresh);
        lemma_sorted(all);
        lemma_trimmed(lined);
        let dropped = lined.len() - after.len();
        assert(after == lined.skip(dropped));
        assert forall|b: int, i: int|
            0 <= b < batches.len() && 0 <= i < batches[b].len() && after.len() == seen(
                batches,
            ) implies after.contains(#[trigger] batches[b][i]) by {
            assert(lined.skip(0) =~= lined);
            if b < earlier.len() {
                assert(earlier[b] == batches[b]);
                assert(before.contains(batches[b][i]));
                let at = choose|at: int| 0 <= at < before.len() && before[at] == batches[b][i];
                assert(all[at] == batches[b][i]);
            } else {
                assert(all[before.len() + i] == batches[b][i]);
            }
        }
        assert forall|b: int, i: int, j: int|
            0 <= b < batches.len() && 0 <= i < batches[b].len() && 0 <= j
                < after.len() implies after.contains(#[trigger] batches[b][i]) || batches[b][i].0
            <= (#[trigger] after[j]).0 by {
            let e = batches[b][i];
            if b == earlier.len() {
                assert(all[before.len() + i] == e);
            } else {
                assert(earlier[b] == batches[b]);
                if before.contains(e) {
                    let at = choose|at: int| 0 <= at < before.len() && before[at] == e;
                    assert(all[at] == e);
                } else if e.0 > after[j].0 {
                    assert(before.len() >= MAX_TASKS);
                    assert forall|k: int| 0 <= k < before.len() implies (#[trigger] before[k]).0
                        >= e.0 by {}
                    lemma_count_none(before, e.0 as int);
                    lemma_count_joined(before, fresh, e.0 as int);
                    lemma_count_bounded(fresh, e.0 as int);
                    lemma_sorted_below_counts(all, 256, e.0 as int);
                    let below = count_below(lined, e.0 as int);
                    assert(below <= fresh.len());
                    assert(after[j] == lined[dropped + j]);
                    lemma_ascending_prefix(lined, e.0 as int, dropped + j);
                    assert(dropped + j < below);
                    assert(after.len() > MAX_TASKS);
                    assert(after.first() == lined[dropped]);
                    assert(after.last() == lined[lined.len() - 1]);
                    lemma_ascending_prefix(lined, e.0 as int, lined.len() - 1);
                    assert(lined[dropped].0 <= lined[dropped + j].0);
                    assert(false);
                }
            }
        }
    }
}

} // verus!

//! The peer scorer: a failure counter for each peer, kept in a lock-free map.

use vstd::prelude::*;
use crate::affinity::KeyId;
use crate::MAX_FAIL_COUNT;
use std::collections::hash_map::RandomState;

verus! {

/// A lock-free map from peer identifiers to failure counters.
pub type ScoreMap = lockfree::map::Map<KeyId, u8, RandomState>;

/// The failure counters that a score map holds, by peer identifier.
pub uninterp spec fn score_entries(m: ScoreMap) -> Map<Seq<u8>, u8>;

/// `lockfree::map::Map::new`: the new map holds no entry.
#[verifier::external_body]
fn scores_new() -> (m: ScoreMap)
    ensures
        forall|peer: Seq<u8>| !score_entries(m).contains_key(peer),
{
    lockfree::map::Map::new()
}

/// `lockfree::map::Map::get`: the counter stored under `peer`, if there is
/// one.
#[verifier::external_body]
fn scores_get(m: &ScoreMap, peer: &KeyId) -> (count: Option<u8>)
    ensures
        count == (if score_entries(*m).contains_key(peer@) {
            Some(score_entries(*m)[peer@])
        } else {
            None
        }),
{
    m.get(peer).map(|guard| *guard.val())
}

/// `lockfree::map::Map::insert`: afterwards the map holds `count` under
/// `peer` and is otherwise unchanged.
#[verifier::external_body]
fn scores_insert(m: &mut ScoreMap, peer: KeyId, count: u8)
    ensures
        score_entries(*final(m)) == score_entries(*old(m)).insert(peer@, count),
{
    m.insert(peer, count);
}

/// The score that `scores` gives to `peer`: its counter, or 0 without one.
pub open spec fn score_in(scores: Map<Seq<u8>, u8>, peer: Seq<u8>) -> u8 {
    if scores.contains_key(peer) {
        scores[peer]
    } else {
        0
    }
}

/// Whether `scores` admits `peer` to lookups.
pub open spec fn healthy_in(scores: Map<Seq<u8>, u8>, peer: Seq<u8>) -> bool {
    score_in(scores, peer) < MAX_FAIL_COUNT
}

/// The counters after `peer` has answered a query: a counter at or above the
/// threshold goes down by one.
pub open spec fn after_success(scores: Map<Seq<u8>, u8>, peer: Seq<u8>) -> Map<Seq<u8>, u8> {
    if scores.contains_key(peer) && scores[peer] >= MAX_FAIL_COUNT {
        scores.insert(peer, (scores[peer] - 1) as u8)
    } else {
        scores
    }
}

/// The counters after `peer` has failed to answer a query: a counter is
/// made for a peer without one, and one at or below the threshold goes up by
/// two.
pub open spec fn after_failure(scores: Map<Seq<u8>, u8>, peer: Seq<u8>) -> Map<Seq<u8>, u8> {
    if !scores.contains_key(peer) {
        scores.insert(peer, 2)
    } else if scores[peer] <= MAX_FAIL_COUNT {
        scores.insert(peer, (scores[peer] + 2) as u8)
    } else {
        scores
    }
}

/// The counters after `n` failures of `peer` in a row.
pub open spec fn after_failures(scores: Map<Seq<u8>, u8>, peer: Seq<u8>, n: nat) -> Map<Seq<u8>, u8>
    decreases n,
{
    if n == 0 {
        scores
    } else {
        after_failure(after_failures(scores, peer, (n - 1) as nat), peer)
    }
}

/// The failure counters of the peers of a node.
pub struct PeerScores {
    counts: ScoreMap,
}

impl View for PeerScores {
    type V = Map<Seq<u8>, u8>;

    closed spec fn view(&self) -> Map<Seq<u8>, u8> {
        score_entries(self.counts)
    }
}

impl PeerScores {
    /// Creates a scorer without counters.
    pub fn new() -> (scores: PeerScores)
        ensures
            scores@ == Map::<Seq<u8>, u8>::empty(),
    {
        let scores = PeerScores { counts: scores_new() };
        assert(scores@ =~= Map::<Seq<u8>, u8>::empty());
        scores
    }

    /// Returns the score of `peer`.
    pub fn score(&self, peer: &KeyId) -> (score: u8)
        ensures
            score == score_in(self@, peer@),
    {
        match scores_get(&self.counts, peer) {
            Some(count) => count,
            None => 0,
        }
    }

    /// Tells whether `peer` takes part in lookups.
    pub fn healthy(&self, peer: &KeyId) -> (healthy: bool)
        ensures
            healthy == healthy_in(self@, peer@),
    {
        self.score(peer) < MAX_FAIL_COUNT
    }

    /// Records that `peer` has answered a query.
    pub fn set_good(&mut self, peer: &KeyId)
        ensures
            final(self)@ == after_success(old(self)@, peer@),
    {
        match scores_get(&self.counts, peer) {
            Some(count) => {
                if count >= MAX_FAIL_COUNT {
                    scores_insert(&mut self.counts, *peer, count - 1);
                }
            },
            None => {},
        }
    }

    /// Records that `peer` has failed to answer a query.
    pub fn set_bad(&mut self, peer: &KeyId)
        ensures
            final(self)@ == after_failure(old(self)@, peer@),
    {
        match scores_get(&self.counts, peer) {
            Some(count) => {
                if count <= MAX_FAIL_COUNT {
                    scores_insert(&mut self.counts, *peer, count + 2);
                }
            },
            None => {
                scores_insert(&mut self.counts, *peer, 2);
            },
        }
    }
}

/// One failure never lowers a score, and leaves a score that is above the
/// threshold as it is.
pub proof fn lemma_failure_raises(scores: Map<Seq<u8>, u8>, peer: Seq<u8>)
    ensures
        score_in(after_failure(scores, peer), peer) >= score_in(scores, peer),
        score_in(scores, peer) <= MAX_FAIL_COUNT ==> score_in(after_failure(scores, peer), peer)
            == score_in(scores, peer) + 2,
        score_in(scores, peer) > MAX_FAIL_COUNT ==> score_in(after_failure(scores, peer), peer)
            == score_in(scores, peer),
{
}

/// After `n` failures in a row the score is at least the smaller of `2 * n`
/// and the threshold plus one.
pub proof fn lemma_failures_accumulate(scores: Map<Seq<u8>, u8>, peer: Seq<u8>, n: nat)
    ensures
        score_in(after_failures(scores, peer, n), peer) >= score_in(scores, peer),
        2 * n <= MAX_FAIL_COUNT ==> score_in(after_failures(scores, peer, n), peer) >= 2 * n,
        2 * n > MAX_FAIL_COUNT ==> score_in(after_failures(scores, peer, n), peer)
            > MAX_FAIL_COUNT,
    decreases n,
{
    if n > 0 {
        lemma_failures_accumulate(scores, peer, (n - 1) as nat);
        lemma_failure_raises(after_failures(scores, peer, (n - 1) as nat), peer);
    }
}

/// After as many failures in a row as the threshold counts, whatever its
/// score was before, a peer is left out of lookups.
pub proof fn lemma_failed_peer_is_excluded(scores: Map<Seq<u8>, u8>, peer: Seq<u8>)
    ensures
        !healthy_in(after_failures(scores, peer, MAX_FAIL_COUNT as nat), peer),
{
    lemma_failures_accumulate(scores, peer, MAX_FAIL_COUNT as nat);
}

/// A success takes one off a score at or above the threshold, so a peer
/// whose score stands at the threshold is admitted again after one success.
pub proof fn lemma_success_readmits(scores: Map<Seq<u8>, u8>, peer: Seq<u8>)
    ensures
        score_in(scores, peer) >= MAX_FAIL_COUNT ==> score_in(after_success(scores, peer), peer)
            == score_in(scores, peer) - 1,
        score_in(scores, peer) < MAX_FAIL_COUNT ==> after_success(scores, peer) == scores,
        score_in(scores, peer) == MAX_FAIL_COUNT ==> healthy_in(after_success(scores, peer), peer),
{
}

} // verus!

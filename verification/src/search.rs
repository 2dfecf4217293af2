//! The find-value engine: the decisions of an iterative search for one key.
//! The caller sends the queries that the engine names and hands back what
//! came of them.

use vstd::prelude::*;
use crate::affinity::KeyId;
use crate::iterator::{after_update, new_frontier, DhtIterator, Entry, Frontier};
use crate::node::{after_add_peer, after_query_result, id_view, DhtNode, NodeState};
use crate::policy::DhtSearchPolicy;
use crate::query::FindValue;
use crate::types::{
    DhtError, DhtValue, KeyDescription, KeyDescriptionView, Node, Payload, PayloadKind,
    PayloadView,
};
use crate::FIND_VALUE_COUNT;

verus! {

/// A value that a search has found: the description of its key and its
/// payload.
#[derive(Clone, Debug, PartialEq, Eq)]
pub struct FoundValue {
    pub key: KeyDescription,
    pub value: Payload,
}

/// Mathematical value of a [`FoundValue`].
pub struct FoundValueView {
    pub key: KeyDescriptionView,
    pub value: PayloadView,
}

impl View for FoundValue {
    type V = FoundValueView;

    open spec fn view(&self) -> FoundValueView {
        FoundValueView { key: self.key@, value: self.value@ }
    }
}

/// The views of found values, in order.
pub open spec fn found_view(found: Seq<FoundValue>) -> Seq<FoundValueView> {
    found.map_values(|value: FoundValue| value@)
}

/// A node record that a peer suggests, with what the link layer made of it:
/// the identifier under which it registered the node, or nothing.
#[derive(Clone, Debug, PartialEq, Eq)]
pub struct Suggested {
    pub node: Node,
    pub registered: Option<KeyId>,
}

/// The reply of a peer to a search for a value, as far as it could be read.
#[derive(Clone, Debug, PartialEq, Eq)]
pub enum ValueReply {
    /// The peer holds the value.
    Found(DhtValue),
    /// The peer does not hold the value and suggests other nodes.
    NotFound(Vec<Suggested>),
    /// The reply is no answer to the search.
    Unreadable,
}

/// The node after it took note of the first `n` of the suggested nodes, one
/// after the other.
pub open spec fn after_suggestions(state: NodeState, nodes: Seq<Suggested>, n: int) -> NodeState
    decreases n,
{
    if n <= 0 || n > nodes.len() {
        state
    } else {
        after_add_peer(
            after_suggestions(state, nodes, n - 1),
            nodes[n - 1].node@,
            id_view(nodes[n - 1].registered),
        )
    }
}

/// The node after a peer's reply to a search for a value was dealt with: the
/// peer is scored, and suggested nodes are taken note of.
pub open spec fn after_value_reply(state: NodeState, peer: Seq<u8>, reply: Option<ValueReply>) -> NodeState {
    let scored = after_query_result(state, reply is Some, peer);
    match reply {
        Some(ValueReply::NotFound(nodes)) => after_suggestions(scored, nodes@, nodes@.len() as int),
        _ => scored,
    }
}

/// What a peer's reply contributes to a search that accepts payloads of the
/// kind `accept`: the value, if the peer holds one of that kind.
pub open spec fn value_of_reply(reply: Option<ValueReply>, accept: PayloadKind) -> Option<
    FoundValueView,
> {
    match reply {
        Some(ValueReply::Found(value)) => if accepted(value@.value, accept) {
            Some(FoundValueView { key: value@.key, value: value@.value })
        } else {
            None
        },
        _ => None,
    }
}

/// Whether a payload is of the kind `accept`.
pub open spec fn accepted(payload: PayloadView, accept: PayloadKind) -> bool {
    match accept {
        PayloadKind::AddressList => payload is AddressList,
        PayloadKind::OverlayNodes => payload is OverlayNodes,
    }
}

/// The view of what a reply contributes.
pub open spec fn option_view(found: Option<FoundValue>) -> Option<FoundValueView> {
    match found {
        Some(found) => Some(found@),
        None => None,
    }
}

impl DhtNode {
    /// Takes note of the nodes that a peer suggests, one after the other.
    pub fn add_suggested(&mut self, nodes: &Vec<Suggested>)
        requires
            old(self).wf(),
        ensures
            final(self).wf(),
            final(self)@ == after_suggestions(old(self)@, nodes@, nodes@.len() as int),
    {
        let mut i: usize = 0;
        while i < nodes.len()
            invariant
                i <= nodes.len(),
                self.wf(),
                self@ == after_suggestions(old(self)@, nodes@, i as int),
            decreases nodes.len() - i,
        {
            self.add_peer(&nodes[i].node, nodes[i].registered);
            i += 1;
        }
    }

    /// Deals with the reply of `peer` to a search for a value that accepts
    /// payloads of the kind `accept`. `reply` is nothing if no reply came.
    /// The peer is scored by whether it replied. A value of the kind asked
    /// for is handed on; nodes that the peer suggests are taken note of.
    pub fn value_query(&mut self, peer: &KeyId, reply: Option<ValueReply>, accept: PayloadKind) -> (found:
        Option<FoundValue>)
        requires
            old(self).wf(),
        ensures
            final(self).wf(),
            final(self)@ == after_value_reply(old(self)@, peer@, reply),
            option_view(found) == value_of_reply(reply, accept),
    {
        self.set_query_result(reply.is_some(), peer);
        match reply {
            Some(ValueReply::Found(value)) => {
                if value.value.is_kind(accept) {
                    Some(FoundValue { key: value.key, value: value.value })
                } else {
                    None
                }
            },
            Some(ValueReply::NotFound(nodes)) => {
                self.add_suggested(&nodes);
                None
            },
            Some(ValueReply::Unreadable) => None,
            None => None,
        }
    }
}

/// What a search does next.
#[derive(Clone, Copy, Debug, PartialEq, Eq, Structural)]
pub enum SearchStep {
    /// Wait for the next query to complete and hand it in.
    Harvest,
    /// Fill the window with new queries, then wait.
    Refill,
    /// The search is over.
    Stop,
}

/// The state of one search for a value.
pub struct ValueSearch {
    iter: DhtIterator,
    accept: PayloadKind,
    limit: usize,
    fast: bool,
    all: bool,
    in_flight: usize,
    known_peers: u32,
    finished: bool,
    found: Vec<FoundValue>,
}

/// Mathematical value of a [`ValueSearch`].
pub struct SearchState {
    /// The frontier of the search.
    pub frontier: Frontier,
    /// The kind of payload that the search accepts.
    pub accept: PayloadKind,
    /// The number of queries that may be in flight at once.
    pub limit: nat,
    /// Whether the search reports back after one completed query.
    pub fast: bool,
    /// Whether the search collects many values.
    pub all: bool,
    /// The number of queries in flight.
    pub in_flight: nat,
    /// The number of known peers when the frontier last looked.
    pub known_peers: nat,
    /// Whether the search has decided to end.
    pub finished: bool,
    /// The values found so far, in the order of their arrival.
    pub found: Seq<FoundValueView>,
}

impl View for ValueSearch {
    type V = SearchState;

    closed spec fn view(&self) -> SearchState {
        SearchState {
            frontier: self.iter@,
            accept: self.accept,
            limit: self.limit as nat,
            fast: self.fast,
            all: self.all,
            in_flight: self.in_flight as nat,
            known_peers: self.known_peers as nat,
            finished: self.finished,
            found: found_view(self.found@),
        }
    }
}

/// The state in which a search begins.
pub open spec fn search_start(
    frontier: Frontier,
    accept: PayloadKind,
    policy: DhtSearchPolicy,
    all: bool,
    known_peers: nat,
) -> SearchState {
    SearchState {
        frontier,
        accept,
        limit: policy.level() as nat,
        fast: policy.is_fast(),
        all,
        in_flight: 0,
        known_peers,
        finished: false,
        found: Seq::empty(),
    }
}

/// The peers that a search with `in_flight` queries in flight and the
/// window `limit` queries next: it takes entries off the end of the
/// frontier, the largest effective affinity first, until the window is full
/// or the frontier is empty, and one in any case, as long as the queries in
/// flight can be counted.
pub open spec fn window(order: Seq<Entry>, in_flight: nat, limit: nat) -> Seq<Seq<u8>>
    decreases order.len(),
{
    if order.len() == 0 || in_flight >= usize::MAX {
        Seq::empty()
    } else if in_flight + 1 >= limit {
        seq![order.last().1]
    } else {
        seq![order.last().1] + window(order.drop_last(), in_flight + 1, limit)
    }
}

/// The search after it has filled its window.
pub open spec fn after_fill(state: SearchState) -> SearchState {
    let peers = window(state.frontier.order, state.in_flight, state.limit);
    SearchState {
        frontier: Frontier {
            order: state.frontier.order.take(state.frontier.order.len() - peers.len()),
            ..state.frontier
        },
        in_flight: state.in_flight + peers.len(),
        finished: state.fast,
        ..state
    }
}

/// The search after one completion was handed in: `completion` is what the
/// query contributed, or nothing at all when no query was in flight any
/// more. `ids` and `scores` are the known peers and their scores.
pub open spec fn after_harvest(
    state: SearchState,
    ids: Seq<Seq<u8>>,
    scores: Map<Seq<u8>, u8>,
    completion: Option<Option<FoundValueView>>,
) -> SearchState {
    let found = match completion {
        Some(Some(value)) => state.found.push(value),
        _ => state.found,
    };
    let in_flight = if completion is Some && state.in_flight > 0 {
        (state.in_flight - 1) as nat
    } else {
        state.in_flight
    };
    let finished = state.finished || completion is None;
    let look = (state.all || found.len() == 0 || finished) && ids.len() != state.known_peers;
    SearchState {
        frontier: if look {
            after_update(state.frontier, ids, scores)
        } else {
            state.frontier
        },
        known_peers: if look {
            ids.len()
        } else {
            state.known_peers
        },
        found,
        in_flight,
        finished,
        ..state
    }
}

/// What a search in the state `state`, reached by a harvest, does next.
pub open spec fn next_step(state: SearchState) -> SearchStep {
    if state.all && state.found.len() >= state.limit && !state.finished {
        SearchStep::Harvest
    } else if (state.all && state.found.len() >= state.limit) || (!state.all && state.found.len()
        > 0) || state.finished {
        SearchStep::Stop
    } else {
        SearchStep::Refill
    }
}

/// The view of a completion.
pub open spec fn completion_view(completion: Option<Option<FoundValue>>) -> Option<
    Option<FoundValueView>,
> {
    match completion {
        Some(found) => Some(option_view(found)),
        None => None,
    }
}

/// The view of a frontier that a caller keeps between searches.
pub open spec fn kept_view(iter: Option<DhtIterator>) -> Option<Frontier> {
    match iter {
        Some(iter) => Some(iter@),
        None => None,
    }
}

impl DhtNode {
    /// Begins a search for the value under the key hash `key_id` that
    /// accepts payloads of the kind `accept`. The search takes the frontier
    /// that the caller has kept from an earlier search for the same key, or
    /// makes a new one. A frontier kept for another key is an error, and
    /// stays with the caller.
    pub fn find_value(
        &self,
        key_id: &KeyId,
        accept: PayloadKind,
        policy: &DhtSearchPolicy,
        all: bool,
        iter_opt: &mut Option<DhtIterator>,
    ) -> (search: Result<ValueSearch, DhtError>)
        requires
            self.wf(),
        ensures
            match search {
                Ok(search) => *final(iter_opt) is None && search@ == search_start(
                    match *old(iter_opt) {
                        Some(iter) => iter@,
                        None => new_frontier(key_id@, self@.peers, self@.scores),
                    },
                    accept,
                    *policy,
                    all,
                    self@.peers.len(),
                ) && search@.frontier.target == key_id@,
                Err(error) => error == DhtError::InternalInvariant && *old(iter_opt) is Some
                    && old(iter_opt)->0@.target != key_id@ && *final(iter_opt) == *old(iter_opt),
            },
    {
        let iter = match iter_opt.take() {
            Some(iter) => {
                if !iter.serves(key_id) {
                    *iter_opt = Some(iter);
                    return Err(DhtError::InternalInvariant);
                }
                iter
            },
            None => DhtIterator::with_key_id(self, *key_id),
        };
        Ok(self.begin_search(iter, accept, policy, all))
    }

    /// Begins a search with the frontier `iter`.
    pub(crate) fn begin_search(
        &self,
        iter: DhtIterator,
        accept: PayloadKind,
        policy: &DhtSearchPolicy,
        all: bool,
    ) -> (search: ValueSearch)
        requires
            self.wf(),
        ensures
            search@ == search_start(iter@, accept, *policy, all, self@.peers.len()),
    {
        let search = ValueSearch {
            iter,
            accept,
            limit: policy.limit() as usize,
            fast: match policy {
                DhtSearchPolicy::FastSearch(_) => true,
                DhtSearchPolicy::FullSearch(_) => false,
            },
            all,
            in_flight: 0,
            known_peers: self.known_peers_count(),
            finished: false,
            found: Vec::new(),
        };
        assert(search@.found =~= Seq::<FoundValueView>::empty());
        search
    }
}

impl ValueSearch {
    /// Returns the key hash that the search is for.
    pub fn key_id(&self) -> (key_id: KeyId)
        ensures
            key_id@ == self@.frontier.target,
    {
        self.iter.key_id()
    }

    /// Makes the query that the search sends to a peer: for the value under
    /// its key hash, or else for `FIND_VALUE_COUNT` nodes to ask instead.
    pub fn query(&self) -> (query: FindValue)
        ensures
            query.key@ == self@.frontier.target,
            query.k == FIND_VALUE_COUNT,
    {
        FindValue { key: self.iter.key_id(), k: FIND_VALUE_COUNT }
    }

    /// Returns the kind of payload that the search accepts.
    pub fn accept(&self) -> (accept: PayloadKind)
        ensures
            accept == self@.accept,
    {
        self.accept
    }

    /// Tells whether a query is in flight, so that a completion is to be
    /// waited for.
    pub fn awaits(&self) -> (awaits: bool)
        ensures
            awaits == (self@.in_flight > 0),
    {
        self.in_flight > 0
    }

    /// Fills the window: names the peers to query now and counts their
    /// queries as in flight.
    pub fn fill_window(&mut self) -> (peers: Vec<KeyId>)
        ensures
            final(self)@ == after_fill(old(self)@),
            peers@.map_values(|peer: KeyId| peer@) == window(
                old(self)@.frontier.order,
                old(self)@.in_flight,
                old(self)@.limit,
            ),
    {
        let ghost order = self@.frontier.order;
        let ghost wanted = window(order, self@.in_flight, self@.limit);
        let mut peers: Vec<KeyId> = Vec::new();
        assert(order.take(order.len() as int) =~= order);
        loop
            invariant_except_break
                wanted == peers@.map_values(|peer: KeyId| peer@) + window(
                    self@.frontier.order,
                    self@.in_flight,
                    self@.limit,
                ),
            invariant
                self@ == (SearchState {
                    frontier: Frontier {
                        order: order.take(order.len() - peers.len()),
                        ..old(self)@.frontier
                    },
                    in_flight: old(self)@.in_flight + peers@.len(),
                    ..old(self)@
                }),
                peers.len() <= order.len(),
                order == old(self)@.frontier.order,
                wanted == window(order, old(self)@.in_flight, old(self)@.limit),
            ensures
                self@ == (SearchState {
                    frontier: Frontier {
                        order: order.take(order.len() - peers.len()),
                        ..old(self)@.frontier
                    },
                    in_flight: old(self)@.in_flight + peers@.len(),
                    ..old(self)@
                }),
                peers.len() <= order.len(),
                wanted == peers@.map_values(|peer: KeyId| peer@),
            decreases self@.frontier.order.len(),
        {
            let ghost before = self@;
            let ghost named = peers@.map_values(|peer: KeyId| peer@);
            if self.in_flight == usize::MAX {
                assert(named + Seq::<Seq<u8>>::empty() =~= named);
                break ;
            }
            match self.iter.pop() {
                Some(entry) => {
                    self.in_flight = self.in_flight + 1;
                    peers.push(entry.1);
                    proof {
                        assert(peers@.map_values(|peer: KeyId| peer@) =~= named.push(entry.1@));
                        assert(before.frontier.order.drop_last() =~= order.take(
                            order.len() - peers.len(),
                        ));
                        assert(named + (seq![entry.1@] + window(
                            self@.frontier.order,
                            self@.in_flight,
                            self@.limit,
                        )) =~= named.push(entry.1@) + window(
                            self@.frontier.order,
                            self@.in_flight,
                            self@.limit,
                        ));
                        assert(named + seq![entry.1@] =~= named.push(entry.1@));
                    }
                    if self.in_flight >= self.limit {
                        break ;
                    }
                },
                None => {
                    assert(named + Seq::<Seq<u8>>::empty() =~= named);
                    break ;
                },
            }
        }
        self.finished = self.fast;
        peers
    }

    /// Takes in one completion and decides what the search does next.
    /// `completion` is what a query that has completed contributed, or
    /// nothing at all when no query is in flight. The frontier looks at the
    /// peers that `dht` has come to know since it last looked, unless the
    /// search is for one value and has it.
    pub fn harvest(&mut self, dht: &DhtNode, completion: Option<Option<FoundValue>>) -> (step:
        SearchStep)
        requires
            dht.wf(),
        ensures
            final(self)@ == after_harvest(
                old(self)@,
                dht@.peers,
                dht@.scores,
                completion_view(completion),
            ),
            step == next_step(final(self)@),
    {
        match completion {
            Some(found) => {
                if self.in_flight > 0 {
                    self.in_flight = self.in_flight - 1;
                }
                match found {
                    Some(value) => {
                        let ghost before = found_view(self.found@);
                        self.found.push(value);
                        assert(found_view(self.found@) =~= before.push(value@));
                    },
                    None => {},
                }
            },
            None => {
                self.finished = true;
            },
        }
        if self.all || self.found.len() == 0 || self.finished {
            let count = dht.known_peers_count();
            if count != self.known_peers {
                self.iter.update(dht);
                self.known_peers = count;
            }
        }
        if self.all && self.found.len() >= self.limit && !self.finished {
            SearchStep::Harvest
        } else if (self.all && self.found.len() >= self.limit) || (!self.all && self.found.len()
            > 0) || self.finished {
            SearchStep::Stop
        } else {
            SearchStep::Refill
        }
    }

    /// Ends the search: hands out what was found, in the order of arrival,
    /// and gives the frontier back to the caller unless it is empty.
    pub fn finish(self, iter_opt: &mut Option<DhtIterator>) -> (found: Vec<FoundValue>)
        ensures
            found_view(found@) == self@.found,
            kept_view(*final(iter_opt)) == (if self@.frontier.order.len() == 0 {
                None
            } else {
                Some(self@.frontier)
            }),
    {
        if self.iter.is_empty() {
            *iter_opt = None;
        } else {
            *iter_opt = Some(self.iter);
        }
        self.found
    }
}

} // verus!

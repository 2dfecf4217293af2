//! The queries that a node sends on its own account, and what it makes of
//! their answers.

use vstd::prelude::*;
use crate::address::address_view;
use crate::affinity::KeyId;
use crate::node::{after_add_peer, after_query_result, id_view, DhtNode, NodeState};
use crate::query::{DhtPing, DhtPong, FindNode};
use crate::search::{after_suggestions, Suggested};
use crate::storage::{live, stored_at};
use crate::types::{
    DhtError, KeyDescription, Node, NodeView, Payload, PayloadView, PublicKey, PublicKeyView,
};
use crate::FIND_NODE_COUNT;

verus! {

/// `rand::Rng::gen` on `rand::thread_rng()`: a random number, of which
/// nothing is said.
#[verifier::external_body]
fn random_id() -> (id: i64) {
    rand::Rng::gen::<i64>(&mut rand::thread_rng())
}

/// Makes a ping with a random number.
pub fn new_ping() -> (query: DhtPing) {
    DhtPing { random_id: random_id() }
}

/// Tells whether `answer` answers the ping `query`: it does if a reply came
/// and carries the number of the ping.
pub fn ping_answered(query: &DhtPing, answer: Option<DhtPong>) -> (answered: bool)
    ensures
        answered == (answer is Some && answer->0.random_id == query.random_id),
{
    match answer {
        Some(pong) => pong.random_id == query.random_id,
        None => false,
    }
}

/// The node after it dealt with the answer of `dst` to a search for nodes.
pub open spec fn after_found_nodes(state: NodeState, dst: Seq<u8>, answer: Option<Vec<Suggested>>) -> NodeState {
    let scored = after_query_result(state, answer is Some, dst);
    match answer {
        Some(nodes) => after_suggestions(scored, nodes@, nodes@.len() as int),
        None => scored,
    }
}

/// The node after it dealt with the answer of `dst` to a request for its
/// signed record.
pub open spec fn after_signed_address_list(state: NodeState, dst: Seq<u8>, answer: Option<Suggested>) -> NodeState {
    let scored = after_query_result(state, answer is Some, dst);
    match answer {
        Some(peer) => after_add_peer(scored, peer.node@, id_view(peer.registered)),
        None => scored,
    }
}

/// The record of the node with the public key `id` and the encoded address
/// list `addr_list`, with the time `now` as its version and not yet signed.
pub open spec fn local_node_of(id: PublicKeyView, addr_list: Seq<u8>, now: i32) -> NodeView {
    NodeView { id, addr_list, signature: Seq::empty(), version: now }
}

/// Builds the record of the node with the public key `id` and the encoded
/// address list `addr_list` at the time `now`, for the node to sign.
pub fn sign_local_node(id: &PublicKey, addr_list: Vec<u8>, now: i32) -> (node: Node)
    ensures
        node@ == local_node_of(id@, addr_list@, now),
{
    Node { id: id.duplicate(), addr_list, signature: Vec::new(), version: now }
}

impl DhtNode {
    /// Deals with the answer of `dst` to the ping `query`: scores `dst` by
    /// whether it answered, and tells whether the answer carries the number
    /// of the ping.
    pub fn ping(&mut self, dst: &KeyId, query: &DhtPing, answer: Option<DhtPong>) -> (answered: bool)
        requires
            old(self).wf(),
        ensures
            final(self).wf(),
            final(self)@ == after_query_result(old(self)@, answer is Some, dst@),
            answered == (answer is Some && answer->0.random_id == query.random_id),
    {
        self.set_query_result(answer.is_some(), dst);
        ping_answered(query, answer)
    }

    /// Makes the search for nodes by which the node looks for its own
    /// neighbours: for the `FIND_NODE_COUNT` nodes closest to itself.
    pub fn find_dht_nodes_query(&self) -> (query: FindNode)
        ensures
            query.key@ == self@.local,
            query.k == FIND_NODE_COUNT,
    {
        FindNode { key: self.key(), k: FIND_NODE_COUNT }
    }

    /// Deals with the answer of `dst` to a search for nodes: scores `dst` by
    /// whether it answered, takes note of the nodes that it names, and tells
    /// whether it answered.
    pub fn find_dht_nodes(&mut self, dst: &KeyId, answer: Option<Vec<Suggested>>) -> (answered: bool)
        requires
            old(self).wf(),
        ensures
            final(self).wf(),
            answered == answer is Some,
            final(self)@ == after_found_nodes(old(self)@, dst@, answer),
    {
        self.set_query_result(answer.is_some(), dst);
        match answer {
            Some(nodes) => {
                self.add_suggested(&nodes);
                true
            },
            None => false,
        }
    }

    /// Deals with the answer of `dst` to a request for its signed record:
    /// scores `dst` by whether it answered, takes note of the record, and
    /// tells whether it answered.
    pub fn get_signed_address_list(&mut self, dst: &KeyId, answer: Option<Suggested>) -> (answered: bool)
        requires
            old(self).wf(),
        ensures
            final(self).wf(),
            answered == answer is Some,
            final(self)@ == after_signed_address_list(old(self)@, dst@, answer),
    {
        self.set_query_result(answer.is_some(), dst);
        match answer {
            Some(peer) => {
                self.add_peer(&peer.node, peer.registered);
                true
            },
            None => false,
        }
    }

    /// Looks in the node's own store for the address filed under the key
    /// hash `key_id` at the time `now`: nothing if no live value is there,
    /// the description of the key and the encoded address list if the value
    /// holds one, and an error if it holds something else.
    pub fn fetch_address(&self, key_id: &KeyId, now: i32) -> (address: Result<
        Option<(KeyDescription, Vec<u8>)>,
        DhtError,
    >)
        ensures
            address_view(address) == (if !live(stored_at(self@.values, key_id@), now) {
                Ok(None)
            } else {
                match self@.values[key_id@].value {
                    PayloadView::AddressList(bytes) => Ok(Some((self@.values[key_id@].key, bytes))),
                    _ => Err(DhtError::WrongTypeInResult),
                }
            }),
    {
        match self.search_dht_key(key_id, now) {
            Some(value) => {
                match value.value {
                    Payload::AddressList(bytes) => Ok(Some((value.key, bytes))),
                    _ => Err(DhtError::WrongTypeInResult),
                }
            },
            None => Ok(None),
        }
    }
}

} // verus!

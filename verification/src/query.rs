//! The queries that a node serves, their replies, and the dispatch of an
//! inbound query.

use vstd::prelude::*;
use crate::affinity::KeyId;
use crate::node::{after_add_peer, count_of, id_view, DhtNode, NodeState};
use crate::routing::{differing_bits, every_bucket, first_of, gather, listed, Listing};
use crate::storage::{after_store, live, store_error, stored_at, StoreChecks};
use crate::types::{nodes_view, DhtError, DhtValue, DhtValueView, Node, NodeView};

verus! {

/// A ping: the peer is to send the number back.
#[derive(Clone, Copy, Debug, PartialEq, Eq, Structural)]
pub struct DhtPing {
    pub random_id: i64,
}

/// The reply to a ping.
#[derive(Clone, Copy, Debug, PartialEq, Eq, Structural)]
pub struct DhtPong {
    pub random_id: i64,
}

/// A search for the nodes closest to `key`.
#[derive(Clone, Copy, Debug, PartialEq, Eq)]
pub struct FindNode {
    pub key: KeyId,
    pub k: i32,
}

/// A search for the value under the key hash `key`.
#[derive(Clone, Copy, Debug, PartialEq, Eq)]
pub struct FindValue {
    pub key: KeyId,
    pub k: i32,
}

/// A request to store a value, with what the receiver has found out about
/// the value.
#[derive(Clone, Debug, PartialEq, Eq)]
pub struct Store {
    pub value: DhtValue,
    pub checks: StoreChecks,
}

impl Store {
    /// The error, if any, for which the request is refused at the time
    /// `now`.
    pub open spec fn error(&self, now: i32) -> Option<DhtError> {
        store_error(
            self.value@,
            self.checks.signatures_ok,
            self.checks.owner_hash@,
            self.checks.node_ok@,
            now,
        )
    }

    /// The stored values after the request was served at the time `now`.
    pub open spec fn apply(&self, values: Map<Seq<u8>, DhtValueView>, now: i32) -> Map<
        Seq<u8>,
        DhtValueView,
    > {
        after_store(
            values,
            self.checks.key_hash@,
            self.value@,
            self.checks.signatures_ok,
            self.checks.owner_hash@,
            self.checks.node_ok@,
            now,
        )
    }
}

/// A list of node records.
#[derive(Clone, Debug, PartialEq, Eq)]
pub struct Nodes {
    pub nodes: Vec<Node>,
}

/// The reply to a request to store a value.
#[derive(Clone, Copy, Debug, PartialEq, Eq, Structural)]
pub enum Stored {
    Stored,
}

/// The reply to a search for a value.
#[derive(Clone, Debug, PartialEq, Eq)]
pub enum ValueResult {
    /// The value.
    ValueFound(DhtValue),
    /// Nodes to ask instead.
    ValueNotFound(Nodes),
}

/// The envelope that a peer sends ahead of a query to make itself known.
#[derive(Clone, Debug, PartialEq, Eq)]
pub struct DhtQuery {
    pub node: Node,
}

/// An object that arrives as a query.
#[derive(Clone, Debug, PartialEq, Eq)]
pub enum DhtObject {
    Ping(DhtPing),
    FindNode(FindNode),
    FindValue(FindValue),
    GetSignedAddressList,
    Store(Store),
    Query(DhtQuery),
    /// An object of no kind that the node serves, as it came.
    Other(Vec<u8>),
}

/// The answer to a query.
#[derive(Clone, Debug, PartialEq, Eq)]
pub enum Answer {
    Pong(DhtPong),
    Nodes(Nodes),
    Value(ValueResult),
    Node(Node),
    Stored(Stored),
}

/// What became of an inbound query.
#[derive(Clone, Debug, PartialEq, Eq)]
pub enum QueryResult {
    /// The node has served the query.
    Consumed(Answer),
    /// The object is no query of the node; it goes back as it came.
    Rejected(DhtObject),
    /// The bundle is none of the node; it goes back as it came.
    RejectedBundle(Vec<DhtObject>),
}

/// Whether the node serves the query `object`.
pub open spec fn served(object: DhtObject) -> bool {
    object is Ping || object is FindNode || object is FindValue || object is GetSignedAddressList
        || object is Store
}

/// Whether `answer` is what a search for nodes finds in the node `state`.
pub open spec fn found_nodes(state: NodeState, query: FindNode, answer: Seq<NodeView>) -> bool {
    exists|listings: Seq<Listing>|
        #[trigger] listed(state.table, state.local, listings) && answer == first_of(
            gather(listings, differing_bits(state.local, query.key@)),
            count_of(query.k),
        )
}

/// Whether `answer` lists records of the node `state` bucket after bucket.
pub open spec fn known_nodes(state: NodeState, k: i32, answer: Seq<NodeView>) -> bool {
    exists|listings: Seq<Listing>|
        #[trigger] listed(state.table, state.local, listings) && answer == first_of(
            gather(listings, every_bucket()),
            count_of(k),
        )
}

/// Whether `result` is what a search for a value finds in the node `state`
/// at the time `now`.
pub open spec fn found_value(state: NodeState, query: FindValue, now: i32, result: ValueResult) -> bool {
    match result {
        ValueResult::ValueFound(value) => live(stored_at(state.values, query.key@), now) && value@
            == state.values[query.key@],
        ValueResult::ValueNotFound(found) => !live(stored_at(state.values, query.key@), now)
            && known_nodes(state, query.k, nodes_view(found.nodes@)),
    }
}

/// Whether a node that serves the query `object` in the state `before` at
/// the time `now`, with `signed_self` as its own signed record, may end in
/// the state `after` with the result `result`.
pub open spec fn serves(
    before: NodeState,
    after: NodeState,
    object: DhtObject,
    signed_self: NodeView,
    now: i32,
    result: Result<QueryResult, DhtError>,
) -> bool {
    match object {
        DhtObject::Ping(query) => after == before && (result matches Ok(
            QueryResult::Consumed(Answer::Pong(pong)),
        ) && pong.random_id == query.random_id),
        DhtObject::FindNode(query) => after == before && (result matches Ok(
            QueryResult::Consumed(Answer::Nodes(found)),
        ) && found_nodes(before, query, nodes_view(found.nodes@))),
        DhtObject::FindValue(query) => after == before && (result matches Ok(
            QueryResult::Consumed(Answer::Value(value)),
        ) && found_value(before, query, now, value)),
        DhtObject::GetSignedAddressList => after == before && (result matches Ok(
            QueryResult::Consumed(Answer::Node(node)),
        ) && node@ == signed_self),
        DhtObject::Store(query) => after == (NodeState {
            values: query.apply(before.values, now),
            ..before
        }) && (match query.error(now) {
            Some(error) => result == Err::<QueryResult, DhtError>(error),
            None => result matches Ok(QueryResult::Consumed(Answer::Stored(_))),
        }),
        _ => after == before && result == Ok::<QueryResult, DhtError>(
            QueryResult::Rejected(object),
        ),
    }
}

/// Whether a bundle has the shape that the node serves: the envelope of the
/// sender and one more object.
pub open spec fn bundle_shape(objects: Seq<DhtObject>) -> bool {
    objects.len() == 2 && objects[0] is Query
}

impl DhtNode {
    /// Serves the inbound query `object` at the time `now`. `signed_self` is
    /// the signed record of this node, which answers a request for it. An
    /// object that is none of the five queries goes back as it came.
    pub fn try_consume_query(&mut self, object: DhtObject, signed_self: &Node, now: i32) -> (result:
        Result<QueryResult, DhtError>)
        requires
            old(self).wf(),
        ensures
            final(self).wf(),
            serves(old(self)@, final(self)@, object, signed_self@, now, result),
    {
        match object {
            DhtObject::Ping(query) => Ok(
                QueryResult::Consumed(Answer::Pong(self.process_ping(&query))),
            ),
            DhtObject::FindNode(query) => Ok(
                QueryResult::Consumed(Answer::Nodes(self.process_find_node(&query))),
            ),
            DhtObject::FindValue(query) => Ok(
                QueryResult::Consumed(Answer::Value(self.process_find_value(&query, now))),
            ),
            DhtObject::GetSignedAddressList => Ok(
                QueryResult::Consumed(Answer::Node(signed_self.duplicate())),
            ),
            DhtObject::Store(query) => {
                match self.process_store(&query, now) {
                    Ok(stored) => Ok(QueryResult::Consumed(Answer::Stored(stored))),
                    Err(error) => Err(error),
                }
            },
            other => Ok(QueryResult::Rejected(other)),
        }
    }

    /// Returns a copy of the record of the sender of a bundle, if the bundle
    /// has the shape that the node serves.
    pub fn bundle_sender(objects: &Vec<DhtObject>) -> (sender: Option<Node>)
        ensures
            sender is Some == bundle_shape(objects@),
            sender is Some ==> sender->0@ == objects@[0]->Query_0.node@,
    {
        if objects.len() != 2 {
            return None;
        }
        match &objects[0] {
            DhtObject::Query(query) => Some(query.node.duplicate()),
            _ => None,
        }
    }

    /// Serves an inbound bundle at the time `now`: the envelope of the
    /// sender and a query. The sender is taken note of first, with
    /// `registered` as what the link layer made of its record, then the
    /// query is served. A bundle of another shape goes back as it came, and
    /// a second object that is no query of the node is an error.
    pub fn try_consume_query_bundle(
        &mut self,
        objects: Vec<DhtObject>,
        registered: Option<KeyId>,
        signed_self: &Node,
        now: i32,
    ) -> (result: Result<QueryResult, DhtError>)
        requires
            old(self).wf(),
        ensures
            final(self).wf(),
            !bundle_shape(objects@) ==> final(self)@ == old(self)@ && result == Ok::<
                QueryResult,
                DhtError,
            >(QueryResult::RejectedBundle(objects)),
            bundle_shape(objects@) && served(objects@[1]) ==> serves(
                after_add_peer(old(self)@, objects@[0]->Query_0.node@, id_view(registered)),
                final(self)@,
                objects@[1],
                signed_self@,
                now,
                result,
            ),
            bundle_shape(objects@) && !served(objects@[1]) ==> final(self)@ == after_add_peer(
                old(self)@,
                objects@[0]->Query_0.node@,
                id_view(registered),
            ) && result == Err::<QueryResult, DhtError>(DhtError::MalformedWire),
    {
        if objects.len() != 2 {
            return Ok(QueryResult::RejectedBundle(objects));
        }
        let is_query = match &objects[0] {
            DhtObject::Query(_) => true,
            _ => false,
        };
        if !is_query {
            return Ok(QueryResult::RejectedBundle(objects));
        }
        let mut objects = objects;
        let first = objects.remove(0);
        let second = objects.remove(0);
        match first {
            DhtObject::Query(query) => {
                self.add_peer(&query.node, registered);
            },
            _ => {},
        }
        match self.try_consume_query(second, signed_self, now) {
            Ok(QueryResult::Rejected(_)) => Err(DhtError::MalformedWire),
            other => other,
        }
    }
}

} // verus!

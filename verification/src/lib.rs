//! Core of a Kademlia-style distributed hash table node.
//!
//! The library holds the routing table, the peer scorer, the value store, the
//! lookup frontier and the decision logic of the lookup, publish and overlay
//! resolution engines. Transport, cryptography, wire encoding and the clock
//! stay with the caller, which hands their results in as plain values.

use vstd::prelude::*;

pub mod address;
pub mod affinity;
pub mod client;
pub mod iterator;
pub mod node;
pub mod overlay;
pub mod peers;
pub mod policy;
pub mod publish;
pub mod query;
pub mod routing;
pub mod scores;
pub mod search;
pub mod storage;
pub mod types;

verus! {

/// The lock-free map of the `lockfree` crate, carried as an opaque value. The
/// routing table, the peer scores and the value store each keep their
/// entries in such a map, and say what it holds through the operations that
/// they call on it.
#[verifier::external_type_specification]
#[verifier::external_body]
#[verifier::reject_recursive_types(K)]
#[verifier::reject_recursive_types(V)]
#[verifier::reject_recursive_types(H)]
pub struct ExLockfreeMap<K, V, H>(lockfree::map::Map<K, V, H>);

/// Largest number of queries that an engine keeps in flight by default.
pub const MAX_TASKS: u8 = 5;

/// Largest number of peers that a node knows at a time.
pub const MAX_PEERS: u32 = 65536;

/// Score from which on a peer is left out of lookups.
pub const MAX_FAIL_COUNT: u8 = 5;

/// Seconds that a published value lives.
pub const TIMEOUT_VALUE: i32 = 3600;

/// Number of nodes asked for when looking for nodes.
pub const FIND_NODE_COUNT: i32 = 10;

/// Number of nodes asked for in place of a value that is not found.
pub const FIND_VALUE_COUNT: i32 = 6;

} // verus!

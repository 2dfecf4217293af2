//! Search policies of the lookup engines.

use vstd::prelude::*;

verus! {

/// How a search spends its queries. The parameter is the number of queries
/// that may be in flight at once.
#[derive(Clone, Copy, Debug, PartialEq, Eq, Structural)]
pub enum DhtSearchPolicy {
    /// Report back as soon as one query has completed.
    FastSearch(u8),
    /// Keep the window of queries full until a result is in or no peer is left.
    FullSearch(u8),
}

impl DhtSearchPolicy {
    /// The concurrency level of the policy.
    pub open spec fn level(self) -> u8 {
        match self {
            DhtSearchPolicy::FastSearch(limit) => limit,
            DhtSearchPolicy::FullSearch(limit) => limit,
        }
    }

    /// Whether the policy is `FastSearch`.
    pub open spec fn is_fast(self) -> bool {
        self is FastSearch
    }

    /// Returns the concurrency level of the policy.
    pub fn limit(&self) -> (limit: u8)
        ensures
            limit == self.level(),
    {
        match self {
            DhtSearchPolicy::FastSearch(limit) => *limit,
            DhtSearchPolicy::FullSearch(limit) => *limit,
        }
    }
}

} // verus!

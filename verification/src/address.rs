//! The search for the address of a node: the context that a caller keeps
//! between attempts, and what is made of the values found.

use vstd::prelude::*;
use crate::affinity::KeyId;
use crate::iterator::{new_frontier, DhtIterator, Frontier};
use crate::node::DhtNode;
use crate::policy::DhtSearchPolicy;
use crate::search::{found_view, kept_view, search_start, FoundValueView, ValueSearch};
use crate::types::{DhtError, KeyDescription, KeyDescriptionView, Payload, PayloadKind, PayloadView};
use crate::MAX_TASKS;

verus! {

/// What a caller keeps of a search for the address of one node.
pub struct AddressSearchContext {
    iter: Option<DhtIterator>,
    key_id: KeyId,
}

impl AddressSearchContext {
    /// The hash of the key under which the address is filed.
    pub closed spec fn target(&self) -> Seq<u8> {
        self.key_id@
    }

    /// The frontier kept from the last attempt, if one was kept.
    pub closed spec fn frontier(&self) -> Option<Frontier> {
        kept_view(self.iter)
    }

    /// Creates the context of a search for the address filed under the key
    /// hash `key_id`.
    pub fn new(key_id: KeyId) -> (ctx: AddressSearchContext)
        ensures
            ctx.target() == key_id@,
            ctx.frontier() is None,
    {
        AddressSearchContext { iter: None, key_id }
    }
}

/// What the last value found says of an address: nothing if no value was
/// found, the description of its key and its encoded address list if it
/// holds one, and an error if it holds something else.
pub open spec fn address_of(found: Seq<FoundValueView>) -> Result<
    Option<(KeyDescriptionView, Seq<u8>)>,
    DhtError,
> {
    if found.len() == 0 {
        Ok(None)
    } else {
        match found.last().value {
            PayloadView::AddressList(bytes) => Ok(Some((found.last().key, bytes))),
            _ => Err(DhtError::WrongTypeInResult),
        }
    }
}

/// The view of an address that was found.
pub open spec fn address_view(address: Result<Option<(KeyDescription, Vec<u8>)>, DhtError>) -> Result<
    Option<(KeyDescriptionView, Seq<u8>)>,
    DhtError,
> {
    match address {
        Ok(Some(found)) => Ok(Some((found.0@, found.1@))),
        Ok(None) => Ok(None),
        Err(error) => Err(error),
    }
}

impl DhtNode {
    /// Begins an attempt to find the address filed under the key hash
    /// `key_id`, or under the key hash of the context that the caller has
    /// kept. The context is made if there is none. The search is for one
    /// value that holds an address list.
    pub fn find_address_with_context(
        &self,
        key_id: KeyId,
        ctx_opt: &mut Option<AddressSearchContext>,
        policy: &DhtSearchPolicy,
    ) -> (search: Result<ValueSearch, DhtError>)
        requires
            self.wf(),
        ensures
            *final(ctx_opt) is Some,
            final(ctx_opt)->0.target() == (match *old(ctx_opt) {
                Some(ctx) => ctx.target(),
                None => key_id@,
            }),
            match search {
                Ok(search) => final(ctx_opt)->0.frontier() is None && search@ == search_start(
                    match *old(ctx_opt) {
                        Some(ctx) => match ctx.frontier() {
                            Some(frontier) => frontier,
                            None => new_frontier(ctx.target(), self@.peers, self@.scores),
                        },
                        None => new_frontier(key_id@, self@.peers, self@.scores),
                    },
                    PayloadKind::AddressList,
                    *policy,
                    false,
                    self@.peers.len(),
                ),
                Err(error) => error == DhtError::InternalInvariant && *old(ctx_opt) is Some && old(ctx_opt)->0.frontier() is Some && old(ctx_opt)->0.frontier()->0.target != old(ctx_opt)->0.target() && final(ctx_opt)->0.frontier() == old(ctx_opt)->0.frontier(),
            },
    {
        let mut ctx = match ctx_opt.take() {
            Some(ctx) => ctx,
            None => AddressSearchContext::new(key_id),
        };
        let search = self.find_value(
            &ctx.key_id,
            PayloadKind::AddressList,
            policy,
            false,
            &mut ctx.iter,
        );
        *ctx_opt = Some(ctx);
        search
    }
}

impl DhtNode {
    /// Begins a search for the address filed under the key hash `key_id`,
    /// with a new context and the policy `FullSearch(MAX_TASKS)`.
    pub fn find_address(&self, key_id: KeyId) -> (begun: (AddressSearchContext, ValueSearch))
        requires
            self.wf(),
        ensures
            begun.0.target() == key_id@,
            begun.0.frontier() is None,
            begun.1@ == search_start(
                new_frontier(key_id@, self@.peers, self@.scores),
                PayloadKind::AddressList,
                DhtSearchPolicy::FullSearch(MAX_TASKS),
                false,
                self@.peers.len(),
            ),
    {
        let iter = DhtIterator::with_key_id(self, key_id);
        let policy = DhtSearchPolicy::FullSearch(MAX_TASKS);
        let search = self.begin_search(iter, PayloadKind::AddressList, &policy, false);
        (AddressSearchContext::new(key_id), search)
    }
}

impl AddressSearchContext {
    /// Ends an attempt: keeps the frontier of the search unless it is empty,
    /// and makes an address of the last value found.
    pub fn resolve(&mut self, search: ValueSearch) -> (address: Result<
        Option<(KeyDescription, Vec<u8>)>,
        DhtError,
    >)
        ensures
            final(self).target() == old(self).target(),
            final(self).frontier() == (if search@.frontier.order.len() == 0 {
                None
            } else {
                Some(search@.frontier)
            }),
            address_view(address) == address_of(search@.found),
    {
        let mut found = search.finish(&mut self.iter);
        let ghost all = found_view(found@);
        match found.pop() {
            Some(last) => {
                assert(last@ == all.last());
                match last.value {
                    Payload::AddressList(bytes) => Ok(Some((last.key, bytes))),
                    _ => Err(DhtError::WrongTypeInResult),
                }
            },
            None => Ok(None),
        }
    }
}

} // verus!

//! The overlay resolver: it queues the members of the rosters of an overlay
//! and resolves their addresses, window by window.

use std::collections::VecDeque;
use vstd::prelude::*;
use crate::address::AddressSearchContext;
use crate::affinity::KeyId;
use crate::node::DhtNode;
use crate::peers::{holds_id, KnownPeers};
use crate::policy::DhtSearchPolicy;
use crate::search::FoundValue;
use crate::types::{DhtError, IpAddress, OverlayNode, Payload};
use crate::{MAX_PEERS, MAX_TASKS};

verus! {

/// A member of an overlay whose address is to be found: its record, its
/// identifier, and what is kept of the search for its address.
pub struct OverlayNodeResolveContext {
    pub node: OverlayNode,
    pub key: KeyId,
    pub search: Option<AddressSearchContext>,
}

/// What a caller keeps of the resolution of one overlay: the members that
/// are still to be resolved, and the identifiers of those that were handed
/// out.
pub struct OverlayNodesSearchContext {
    key_id: KeyId,
    search: VecDeque<OverlayNodeResolveContext>,
    stored: KnownPeers,
}

/// The state of one run of the resolution.
pub struct OverlayResolve {
    postponed: VecDeque<OverlayNodeResolveContext>,
    ret: Vec<(IpAddress, OverlayNode)>,
    limit: usize,
    full: bool,
}

/// The contexts of the members of a roster, in its order, with `keys` as
/// their identifiers.
pub open spec fn roster_contexts(nodes: Seq<OverlayNode>, keys: Seq<KeyId>) -> Seq<
    OverlayNodeResolveContext,
> {
    Seq::new(
        nodes.len(),
        |j: int| OverlayNodeResolveContext { node: nodes[j], key: keys[j], search: None },
    )
}

/// The roster that a value found holds, or none if it holds something else.
pub open spec fn roster_in(found: FoundValue) -> Seq<OverlayNode> {
    match found.value {
        Payload::OverlayNodes(nodes) => nodes@,
        _ => Seq::empty(),
    }
}

/// Whether each value found holds a roster and `keys` names an identifier
/// for each member of each.
pub open spec fn rosters_match(found: Seq<FoundValue>, keys: Seq<Vec<KeyId>>) -> bool {
    &&& keys.len() == found.len()
    &&& forall|i: int|
        0 <= i < found.len() ==> (#[trigger] found[i]).value is OverlayNodes && roster_in(
            found[i],
        ).len() == keys[i]@.len()
}

/// The contexts of the members of the rosters found, the last roster first.
pub open spec fn queued(found: Seq<FoundValue>, keys: Seq<Vec<KeyId>>) -> Seq<
    OverlayNodeResolveContext,
>
    decreases found.len(),
{
    if found.len() == 0 || keys.len() != found.len() {
        Seq::empty()
    } else {
        roster_contexts(roster_in(found.last()), keys.last()@) + queued(
            found.drop_last(),
            keys.drop_last(),
        )
    }
}

/// The members that a window takes from the queue `queue`: the first ones
/// that were not handed out yet, until `count` and they make `limit`, and
/// one in any case.
pub open spec fn picked(
    queue: Seq<OverlayNodeResolveContext>,
    stored: Seq<Seq<u8>>,
    count: nat,
    limit: nat,
) -> Seq<OverlayNodeResolveContext>
    decreases queue.len(),
{
    if queue.len() == 0 {
        Seq::empty()
    } else if holds_id(stored, queue.first().key@) {
        picked(queue.drop_first(), stored, count, limit)
    } else if count + 1 >= limit {
        seq![queue.first()]
    } else {
        seq![queue.first()] + picked(queue.drop_first(), stored, count + 1, limit)
    }
}

/// The queue that such a window leaves behind.
pub open spec fn left(
    queue: Seq<OverlayNodeResolveContext>,
    stored: Seq<Seq<u8>>,
    count: nat,
    limit: nat,
) -> Seq<OverlayNodeResolveContext>
    decreases queue.len(),
{
    if queue.len() == 0 {
        Seq::empty()
    } else if holds_id(stored, queue.first().key@) {
        left(queue.drop_first(), stored, count, limit)
    } else if count + 1 >= limit {
        queue.drop_first()
    } else {
        left(queue.drop_first(), stored, count + 1, limit)
    }
}

/// The number of addresses that a run resolves at once: one under
/// `FastSearch`, the level of the policy under `FullSearch`.
pub open spec fn resolve_limit(policy: DhtSearchPolicy) -> nat {
    match policy {
        DhtSearchPolicy::FastSearch(_) => 1,
        DhtSearchPolicy::FullSearch(limit) => limit as nat,
    }
}

impl OverlayNodesSearchContext {
    /// The hash of the key under which the roster of the overlay is filed.
    pub closed spec fn target(&self) -> Seq<u8> {
        self.key_id@
    }

    /// The members that are still to be resolved, in their order.
    pub closed spec fn queue(&self) -> Seq<OverlayNodeResolveContext> {
        self.search@
    }

    /// The identifiers of the members that were handed out.
    pub closed spec fn handed_out(&self) -> Seq<Seq<u8>> {
        self.stored.ids()
    }

    /// The slot of the registry of the members handed out that is taken over
    /// next.
    pub closed spec fn oldest_slot(&self) -> nat {
        self.stored.oldest()
    }

    /// Validity: that of the registry of the members handed out.
    pub closed spec fn wf(&self) -> bool {
        self.stored.wf() && self.stored.capacity() == MAX_PEERS
    }

    /// Creates the context of the resolution of the overlay whose roster is
    /// filed under the key hash `key_id`.
    pub fn new(key_id: KeyId) -> (ctx: OverlayNodesSearchContext)
        ensures
            ctx.wf(),
            ctx.target() == key_id@,
            ctx.queue() == Seq::<OverlayNodeResolveContext>::empty(),
            ctx.handed_out() == Seq::<Seq<u8>>::empty(),
            ctx.oldest_slot() == 0,
    {
        OverlayNodesSearchContext {
            key_id,
            search: VecDeque::new(),
            stored: KnownPeers::with_limit(MAX_PEERS),
        }
    }

    /// Returns the hash of the key under which the roster is filed.
    pub fn key_id(&self) -> (key_id: KeyId)
        ensures
            key_id@ == self.target(),
    {
        self.key_id
    }
}

impl OverlayResolve {
    /// The members whose address was not found in this run and that are
    /// tried again later.
    pub closed spec fn postponed(&self) -> Seq<OverlayNodeResolveContext> {
        self.postponed@
    }

    /// The members resolved in this run, with their addresses.
    pub closed spec fn resolved(&self) -> Seq<(IpAddress, OverlayNode)> {
        self.ret@
    }

    /// The number of addresses that the run resolves at once.
    pub closed spec fn limit(&self) -> nat {
        self.limit as nat
    }

    /// Whether the run keeps the members whose address was not found.
    pub closed spec fn full(&self) -> bool {
        self.full
    }

    /// Begins a run under the policy `policy`.
    pub fn begin(policy: &DhtSearchPolicy) -> (run: OverlayResolve)
        ensures
            run.postponed() == Seq::<OverlayNodeResolveContext>::empty(),
            run.resolved() == Seq::<(IpAddress, OverlayNode)>::empty(),
            run.limit() == resolve_limit(*policy),
            run.full() == !policy.is_fast(),
    {
        let (limit, full) = match policy {
            DhtSearchPolicy::FastSearch(_) => (1usize, false),
            DhtSearchPolicy::FullSearch(limit) => (*limit as usize, true),
        };
        OverlayResolve { postponed: VecDeque::new(), ret: Vec::new(), limit, full }
    }

    /// Tells whether the queue is empty, so that the rosters of the overlay
    /// are to be searched for.
    pub fn needs_rosters(&self, ctx: &OverlayNodesSearchContext) -> (needs: bool)
        ensures
            needs == (ctx.queue().len() == 0),
    {
        ctx.search.len() == 0
    }

    /// Takes in the values that a search for rosters has found. `keys`
    /// names, for each value, the identifiers of the members of its roster.
    /// Without a value the run is over, and the answer is `false`. Else the
    /// members of all rosters join the queue, the last roster first, and
    /// behind them the members that this run has postponed. A value that
    /// holds no roster, or identifiers that do not match the rosters, are an
    /// error and change nothing.
    pub fn take_rosters(
        &mut self,
        ctx: &mut OverlayNodesSearchContext,
        found: Vec<FoundValue>,
        keys: &Vec<Vec<KeyId>>,
    ) -> (more: Result<bool, DhtError>)
        ensures
            final(ctx).target() == old(ctx).target(),
            final(ctx).handed_out() == old(ctx).handed_out(),
            final(ctx).oldest_slot() == old(ctx).oldest_slot(),
            final(ctx).wf() == old(ctx).wf(),
            final(self).resolved() == old(self).resolved(),
            final(self).limit() == old(self).limit(),
            final(self).full() == old(self).full(),
            found@.len() == 0 ==> more == Ok::<bool, DhtError>(false) && final(ctx).queue() == old(ctx).queue() && final(self).postponed() == old(self).postponed(),
            found@.len() > 0 && !rosters_match(found@, keys@) ==> more is Err && final(ctx).queue()
                == old(ctx).queue() && final(self).postponed() == old(self).postponed(),
            found@.len() > 0 && !rosters_match(found@, keys@) ==> more->Err_0 == (if exists|
                i: int,
            |
                0 <= i < found@.len() && !((#[trigger] found@[i]).value is OverlayNodes) {
                DhtError::WrongTypeInResult
            } else {
                DhtError::InternalInvariant
            }),
            found@.len() > 0 && rosters_match(found@, keys@) ==> more == Ok::<bool, DhtError>(true)
                && final(ctx).queue() == old(ctx).queue() + queued(found@, keys@) + old(self).postponed() && final(self).postponed() == Seq::<OverlayNodeResolveContext>::empty(),
    {
        if found.len() == 0 {
            return Ok(false);
        }
        let mut i: usize = 0;
        while i < found.len()
            invariant
                i <= found.len(),
                forall|j: int| 0 <= j < i ==> (#[trigger] found@[j]).value is OverlayNodes,
            decreases found.len() - i,
        {
            match &found[i].value {
                Payload::OverlayNodes(_) => {},
                _ => {
                    return Err(DhtError::WrongTypeInResult);
                },
            }
            i += 1;
        }
        if keys.len() != found.len() {
            return Err(DhtError::InternalInvariant);
        }
        i = 0;
        while i < found.len()
            invariant
                i <= found.len(),
                keys.len() == found.len(),
                forall|j: int| 0 <= j < found.len() ==> (#[trigger] found@[j]).value is OverlayNodes,
                forall|j: int|
                    0 <= j < i ==> roster_in(#[trigger] found@[j]).len() == keys@[j]@.len(),
            decreases found.len() - i,
        {
            let matches = match &found[i].value {
                Payload::OverlayNodes(nodes) => nodes.len() == keys[i].len(),
                _ => false,
            };
            if !matches {
                assert(roster_in(found@[i as int]).len() != keys@[i as int]@.len());
                return Err(DhtError::InternalInvariant);
            }
            i += 1;
        }
        assert(rosters_match(found@, keys@));
        let ghost all = found@;
        let mut found = found;
        let mut n: usize = found.len();
        assert(all.take(n as int) =~= all);
        assert(keys@.take(n as int) =~= keys@);
        assert(old(ctx).queue() + Seq::<OverlayNodeResolveContext>::empty() =~= old(ctx).queue());
        while n > 0
            invariant
                n == found.len(),
                n <= all.len(),
                keys.len() == all.len(),
                found@ == all.take(n as int),
                rosters_match(all, keys@),
                ctx.target() == old(ctx).target(),
                ctx.handed_out() == old(ctx).handed_out(),
                ctx.oldest_slot() == old(ctx).oldest_slot(),
                ctx.wf() == old(ctx).wf(),
                *self == *old(self),
                queued(all, keys@) == (ctx.queue().skip(old(ctx).queue().len() as int)) + queued(
                    all.take(n as int),
                    keys@.take(n as int),
                ),
                ctx.queue().len() >= old(ctx).queue().len(),
                ctx.queue().take(old(ctx).queue().len() as int) == old(ctx).queue(),
            decreases n,
        {
            let ghost before = ctx.queue();
            let ghost base = old(ctx).queue().len() as int;
            let last = found.pop().unwrap();
            n -= 1;
            let ghost shorter = all.take(n as int);
            let ghost shorter_keys = keys@.take(n as int);
            proof {
                let longer = all.take(n + 1);
                let longer_keys = keys@.take(n + 1);
                assert(longer.drop_last() =~= shorter);
                assert(longer_keys.drop_last() =~= shorter_keys);
                assert(longer.last() == all[n as int]);
                assert(longer_keys.last() == keys@[n as int]);
                assert(last == all[n as int]);
            }
            match last.value {
                Payload::OverlayNodes(nodes) => {
                    let ghost roster = nodes@;
                    let ghost wanted = roster_contexts(roster, keys@[n as int]@);
                    let mut nodes = nodes;
                    let mut j: usize = 0;
                    let total = nodes.len();
                    assert(before + wanted.take(0) =~= before);
                    while j < total
                        invariant
                            j <= total,
                            total == roster.len(),
                            n < keys.len(),
                            total == keys@[n as int]@.len(),
                            nodes@ == roster.skip(j as int),
                            wanted == roster_contexts(roster, keys@[n as int]@),
                            ctx.queue() == before + wanted.take(j as int),
                            ctx.target() == old(ctx).target(),
                            ctx.handed_out() == old(ctx).handed_out(),
                            ctx.oldest_slot() == old(ctx).oldest_slot(),
                            ctx.wf() == old(ctx).wf(),
                        decreases total - j,
                    {
                        let node = nodes.remove(0);
                        let key = keys[n][j];
                        ctx.search.push_back(OverlayNodeResolveContext { node, key, search: None });
                        j += 1;
                        proof {
                            assert(nodes@ =~= roster.skip(j as int));
                            assert(wanted.take(j as int) =~= wanted.take(j - 1).push(wanted[j - 1]));
                            assert(ctx.queue() =~= before + wanted.take(j as int));
                        }
                    }
                    proof {
                        assert(wanted.take(total as int) =~= wanted);
                        assert(ctx.queue().skip(base) =~= before.skip(base) + wanted);
                        assert(ctx.queue().take(base) =~= before.take(base));
                        assert((before.skip(base) + wanted) + queued(shorter, shorter_keys)
                            =~= before.skip(base) + (wanted + queued(shorter, shorter_keys)));
                    }
                },
                _ => {},
            }
        }
        proof {
            let base = old(ctx).queue().len() as int;
            assert(queued(all.take(0), keys@.take(0)) =~= Seq::<OverlayNodeResolveContext>::empty());
            assert(ctx.queue().skip(base) + Seq::<OverlayNodeResolveContext>::empty()
                =~= ctx.queue().skip(base));
            assert(ctx.queue() =~= ctx.queue().take(base) + ctx.queue().skip(base));
        }
        let ghost filled = ctx.queue();
        ctx.search.append(&mut self.postponed);
        assert(ctx.queue() =~= old(ctx).queue() + queued(all, keys@) + old(self).postponed());
        Ok(true)
    }

    /// Names the members whose address is to be found now: it takes them
    /// off the front of the queue, leaves out those that were handed out
    /// already, and stops when the window is full.
    pub fn next_window(&mut self, ctx: &mut OverlayNodesSearchContext) -> (window: Vec<
        OverlayNodeResolveContext,
    >)
        ensures
            *final(self) == *old(self),
            final(ctx).target() == old(ctx).target(),
            final(ctx).handed_out() == old(ctx).handed_out(),
            final(ctx).oldest_slot() == old(ctx).oldest_slot(),
            final(ctx).wf() == old(ctx).wf(),
            window@ == picked(old(ctx).queue(), old(ctx).handed_out(), 0, old(self).limit()),
            final(ctx).queue() == left(old(ctx).queue(), old(ctx).handed_out(), 0, old(self).limit()),
    {
        let ghost stored = ctx.handed_out();
        let ghost limit = self.limit();
        let ghost wanted = picked(ctx.queue(), stored, 0, limit);
        let ghost rest = left(ctx.queue(), stored, 0, limit);
        let mut window: Vec<OverlayNodeResolveContext> = Vec::new();
        assert(window@ + wanted =~= wanted);
        loop
            invariant_except_break
                wanted == window@ + picked(ctx.queue(), stored, window@.len(), limit),
                rest == left(ctx.queue(), stored, window@.len(), limit),
            invariant
                *self == *old(self),
                limit == self.limit(),
                stored == ctx.handed_out(),
                ctx.target() == old(ctx).target(),
                ctx.handed_out() == old(ctx).handed_out(),
                ctx.oldest_slot() == old(ctx).oldest_slot(),
                ctx.wf() == old(ctx).wf(),
                window.len() <= old(ctx).queue().len() - ctx.queue().len(),
            ensures
                wanted == window@,
                rest == ctx.queue(),
            decreases ctx.queue().len(),
        {
            let ghost queue = ctx.queue();
            let ghost taken = window@;
            match ctx.search.pop_front() {
                Some(member) => {
                    assert(ctx.queue() =~= queue.drop_first());
                    if !ctx.stored.contains(&member.key) {
                        window.push(member);
                        proof {
                            assert(taken + (seq![member] + picked(
                                ctx.queue(),
                                stored,
                                window@.len(),
                                limit,
                            )) =~= window@ + picked(ctx.queue(), stored, window@.len(), limit));
                            assert(taken + seq![member] =~= window@);
                        }
                        if window.len() >= self.limit {
                            break ;
                        }
                    }
                },
                None => {
                    assert(taken + Seq::<OverlayNodeResolveContext>::empty() =~= taken);
                    break ;
                },
            }
        }
        window
    }

    /// Takes in the outcome of the search for the address of `member`. With
    /// an address, the member is handed out unless it was handed out before.
    /// Without one, a run under `FullSearch` postpones the member, and one
    /// under `FastSearch` lets it go.
    pub fn resolved_member(
        &mut self,
        ctx: &mut OverlayNodesSearchContext,
        address: Option<IpAddress>,
        member: OverlayNodeResolveContext,
    )
        requires
            old(ctx).wf(),
        ensures
            final(ctx).wf(),
            final(ctx).target() == old(ctx).target(),
            final(ctx).queue() == old(ctx).queue(),
            final(self).limit() == old(self).limit(),
            final(self).full() == old(self).full(),
            match address {
                Some(ip) => final(self).postponed() == old(self).postponed() && final(ctx).handed_out() == KnownPeers::ids_after_put(
                    old(ctx).handed_out(),
                    MAX_PEERS as nat,
                    old(ctx).oldest_slot(),
                    member.key@,
                ) && final(ctx).oldest_slot() == KnownPeers::oldest_after_put(
                    old(ctx).handed_out(),
                    MAX_PEERS as nat,
                    old(ctx).oldest_slot(),
                    member.key@,
                ) && final(self).resolved() == (if holds_id(old(ctx).handed_out(), member.key@) {
                    old(self).resolved()
                } else {
                    old(self).resolved().push((ip, member.node))
                }),
                None => final(ctx).handed_out() == old(ctx).handed_out() && final(ctx).oldest_slot() == old(ctx).oldest_slot() && final(self).resolved() == old(self).resolved() && final(self).postponed() == (if old(self).full() {
                    old(self).postponed().push(member)
                } else {
                    old(self).postponed()
                }),
            },
    {
        match address {
            Some(ip) => {
                if ctx.stored.put(member.key) {
                    self.ret.push((ip, member.node));
                }
            },
            None => {
                if self.full {
                    self.postponed.push_back(member);
                }
            },
        }
    }

    /// Tells whether the run is over once the queries of a window have all
    /// completed: it is when an address was resolved, or when the search
    /// for rosters has no frontier left, which `frontier_left` tells.
    pub fn is_over(&self, frontier_left: bool) -> (over: bool)
        ensures
            over == (self.resolved().len() > 0 || !frontier_left),
    {
        self.ret.len() > 0 || !frontier_left
    }

    /// Ends the run: the members that it has postponed go back to the end of
    /// the queue, and the members that it has resolved are handed out with
    /// their addresses.
    pub fn finish(self, ctx: &mut OverlayNodesSearchContext) -> (resolved: Vec<
        (IpAddress, OverlayNode),
    >)
        ensures
            resolved@ == self.resolved(),
            final(ctx).queue() == old(ctx).queue() + self.postponed(),
            final(ctx).target() == old(ctx).target(),
            final(ctx).handed_out() == old(ctx).handed_out(),
            final(ctx).oldest_slot() == old(ctx).oldest_slot(),
            final(ctx).wf() == old(ctx).wf(),
    {
        let mut postponed = self.postponed;
        ctx.search.append(&mut postponed);
        self.ret
    }
}

impl DhtNode {
    /// Begins a run of the resolution of the overlay whose roster is filed
    /// under the key hash `key_id`, or of the overlay of the context that
    /// the caller has kept. The context is made if there is none.
    pub fn find_overlay_nodes_with_context(
        key_id: KeyId,
        ctx_search_opt: &mut Option<OverlayNodesSearchContext>,
        policy: &DhtSearchPolicy,
    ) -> (run: OverlayResolve)
        ensures
            run.postponed() == Seq::<OverlayNodeResolveContext>::empty(),
            run.resolved() == Seq::<(IpAddress, OverlayNode)>::empty(),
            run.limit() == resolve_limit(*policy),
            run.full() == !policy.is_fast(),
            match *old(ctx_search_opt) {
                Some(ctx) => *final(ctx_search_opt) == Some(ctx),
                None => *final(ctx_search_opt) is Some && final(ctx_search_opt)->0.wf() && final(ctx_search_opt)->0.target() == key_id@ && final(ctx_search_opt)->0.queue() == Seq::<
                    OverlayNodeResolveContext,
                >::empty() && final(ctx_search_opt)->0.handed_out() == Seq::<Seq<u8>>::empty()
                    && final(ctx_search_opt)->0.oldest_slot() == 0,
            },
    {
        if ctx_search_opt.is_none() {
            *ctx_search_opt = Some(OverlayNodesSearchContext::new(key_id));
        }
        OverlayResolve::begin(policy)
    }

    /// Begins a run of the resolution of the overlay whose roster is filed
    /// under the key hash `key_id`, with a new context and the policy
    /// `FullSearch(MAX_TASKS)`.
    pub fn find_overlay_nodes(key_id: KeyId) -> (begun: (OverlayNodesSearchContext, OverlayResolve))
        ensures
            begun.0.wf(),
            begun.0.target() == key_id@,
            begun.0.queue() == Seq::<OverlayNodeResolveContext>::empty(),
            begun.0.handed_out() == Seq::<Seq<u8>>::empty(),
            begun.0.oldest_slot() == 0,
            begun.1.postponed() == Seq::<OverlayNodeResolveContext>::empty(),
            begun.1.resolved() == Seq::<(IpAddress, OverlayNode)>::empty(),
            begun.1.limit() == MAX_TASKS,
            begun.1.full(),
    {
        let policy = DhtSearchPolicy::FullSearch(MAX_TASKS);
        (OverlayNodesSearchContext::new(key_id), OverlayResolve::begin(&policy))
    }
}

} // verus!

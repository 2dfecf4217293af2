//! The registry of known peers: a bounded first-in, first-out set of
//! identifiers that cursors walk in slot order.

use vstd::prelude::*;
use crate::affinity::KeyId;
use crate::types::same_id;

verus! {

/// A bounded set of peer identifiers. A full registry makes room for a new
/// identifier by dropping the one that has been in it the longest.
pub struct KnownPeers {
    slots: Vec<KeyId>,
    limit: u32,
    victim: u32,
}

/// A position in the slots of a [`KnownPeers`]: the slot that is handed out
/// next.
#[derive(Clone, Copy, Debug, PartialEq, Eq, Structural)]
pub struct PeerCursor {
    next: u32,
}

impl PeerCursor {
    /// The index of the slot that the cursor hands out next.
    pub closed spec fn position(self) -> nat {
        self.next as nat
    }

    /// A cursor that stands before the first slot.
    pub fn start() -> (cursor: PeerCursor)
        ensures
            cursor.position() == 0,
    {
        PeerCursor { next: 0 }
    }

    /// Returns the index of the slot that the cursor hands out next.
    pub fn index(&self) -> (index: u32)
        ensures
            index == self.position(),
    {
        self.next
    }
}

/// Whether `id` occurs in `ids`.
pub open spec fn holds_id(ids: Seq<Seq<u8>>, id: Seq<u8>) -> bool {
    exists|i: int| 0 <= i < ids.len() && ids[i] == id
}

/// Whether no identifier occurs twice in `ids`.
pub open spec fn distinct_ids(ids: Seq<Seq<u8>>) -> bool {
    forall|i: int, j: int| 0 <= i < j < ids.len() ==> ids[i] != ids[j]
}

impl KnownPeers {
    /// The identifiers in slot order.
    pub closed spec fn ids(&self) -> Seq<Seq<u8>> {
        self.slots@.map_values(|id: KeyId| id@)
    }

    /// The largest number of identifiers that the registry holds.
    pub closed spec fn capacity(&self) -> nat {
        self.limit as nat
    }

    /// The slot that the next identifier put into a full registry takes over:
    /// the slot of the identifier that has been in it the longest.
    pub closed spec fn oldest(&self) -> nat {
        self.victim as nat
    }

    /// Validity: at most `capacity` identifiers, each once, and the slot of
    /// the oldest within the capacity.
    pub closed spec fn wf(&self) -> bool {
        &&& self.limit >= 1
        &&& self.slots.len() <= self.limit
        &&& self.victim < self.limit
        &&& self.slots.len() < self.limit ==> self.victim == 0
        &&& distinct_ids(self.ids())
    }

    /// The registry after `id` was put into one with the identifiers `ids`,
    /// the capacity `capacity` and the oldest slot `oldest`.
    pub open spec fn ids_after_put(ids: Seq<Seq<u8>>, capacity: nat, oldest: nat, id: Seq<u8>) -> Seq<
        Seq<u8>,
    > {
        if holds_id(ids, id) {
            ids
        } else if ids.len() < capacity {
            ids.push(id)
        } else {
            ids.update(oldest as int, id)
        }
    }

    /// The oldest slot after `id` was put.
    pub open spec fn oldest_after_put(ids: Seq<Seq<u8>>, capacity: nat, oldest: nat, id: Seq<u8>) -> nat {
        if holds_id(ids, id) || ids.len() < capacity || capacity == 0 {
            oldest
        } else {
            if oldest + 1 == capacity {
                0
            } else {
                oldest + 1
            }
        }
    }

    /// Creates an empty registry for at most `limit` identifiers.
    pub fn with_limit(limit: u32) -> (peers: KnownPeers)
        requires
            limit >= 1,
        ensures
            peers.wf(),
            peers.ids() == Seq::<Seq<u8>>::empty(),
            peers.capacity() == limit,
            peers.oldest() == 0,
    {
        let peers = KnownPeers { slots: Vec::new(), limit, victim: 0 };
        assert(peers.ids() =~= Seq::<Seq<u8>>::empty());
        peers
    }

    /// Returns the number of identifiers in the registry.
    pub fn count(&self) -> (count: u32)
        requires
            self.wf(),
        ensures
            count == self.ids().len(),
            count <= self.capacity(),
    {
        self.slots.len() as u32
    }

    /// Tells whether `id` is in the registry.
    pub fn contains(&self, id: &KeyId) -> (found: bool)
        ensures
            found == holds_id(self.ids(), id@),
    {
        let mut i: usize = 0;
        while i < self.slots.len()
            invariant
                i <= self.slots.len(),
                forall|j: int| 0 <= j < i ==> self.ids()[j] != id@,
            decreases self.slots.len() - i,
        {
            if same_id(&self.slots[i], id) {
                assert(self.ids()[i as int] == id@);
                return true;
            }
            i += 1;
        }
        false
    }

    /// Puts `id` into the registry unless it is there already, and tells
    /// whether it was put. A full registry drops its oldest identifier for it.
    pub fn put(&mut self, id: KeyId) -> (added: bool)
        requires
            old(self).wf(),
        ensures
            final(self).wf(),
            added == !holds_id(old(self).ids(), id@),
            final(self).capacity() == old(self).capacity(),
            final(self).ids() == Self::ids_after_put(
                old(self).ids(),
                old(self).capacity(),
                old(self).oldest(),
                id@,
            ),
            final(self).oldest() == Self::oldest_after_put(
                old(self).ids(),
                old(self).capacity(),
                old(self).oldest(),
                id@,
            ),
    {
        if self.contains(&id) {
            return false;
        }
        if self.slots.len() < self.limit as usize {
            self.slots.push(id);
            assert(self.ids() =~= old(self).ids().push(id@));
            if self.slots.len() == self.limit as usize {
                self.victim = 0;
            }
        } else {
            let at = self.victim as usize;
            self.slots[at] = id;
            assert(self.ids() =~= old(self).ids().update(at as int, id@));
            self.victim = if self.victim + 1 == self.limit {
                0
            } else {
                self.victim + 1
            };
        }
        true
    }

    /// Hands out the identifier in the slot that `cursor` stands at and moves
    /// the cursor on, or hands out nothing, and leaves the cursor, when the
    /// cursor stands behind the last slot.
    pub fn next(&self, cursor: &mut PeerCursor) -> (id: Option<KeyId>)
        requires
            self.wf(),
        ensures
            old(cursor).position() < self.ids().len() ==> id is Some && id->0@ == self.ids()[old(
                cursor,
            ).position() as int] && final(cursor).position() == old(cursor).position() + 1,
            old(cursor).position() >= self.ids().len() ==> id is None && *final(cursor) == *old(
                cursor,
            ),
    {
        if (cursor.next as usize) < self.slots.len() {
            let id = self.slots[cursor.next as usize];
            cursor.next = cursor.next + 1;
            Some(id)
        } else {
            None
        }
    }
}

/// The identifiers and the oldest slot of a registry of the capacity
/// `capacity` that began empty and into which the identifiers of `puts`
/// were put one after the other.
pub open spec fn registry_after(puts: Seq<Seq<u8>>, capacity: nat) -> (Seq<Seq<u8>>, nat)
    decreases puts.len(),
{
    if puts.len() == 0 {
        (Seq::empty(), 0)
    } else {
        let before = registry_after(puts.drop_last(), capacity);
        (
            KnownPeers::ids_after_put(before.0, capacity, before.1, puts.last()),
            KnownPeers::oldest_after_put(before.0, capacity, before.1, puts.last()),
        )
    }
}

/// The last `count` elements of `s`, or all of `s` if it has no more.
pub open spec fn last_of(s: Seq<Seq<u8>>, count: nat) -> Seq<Seq<u8>> {
    if s.len() <= count {
        s
    } else {
        s.skip(s.len() - count)
    }
}

/// A registry is first in, first out: after identifiers that differ from
/// one another were put into an empty registry, it holds the last ones, as
/// many as its capacity allows, and they stand in the order in which they
/// came when the slots are read from the oldest slot on and around.
pub proof fn lemma_registry_is_fifo(puts: Seq<Seq<u8>>, capacity: nat)
    requires
        capacity >= 1,
        distinct_ids(puts),
    ensures
        ({
            let (ids, oldest) = registry_after(puts, capacity);
            &&& oldest <= ids.len() <= capacity
            &&& ids.len() < capacity ==> oldest == 0
            &&& ids.len() == capacity ==> oldest < capacity
            &&& ids.skip(oldest as int) + ids.take(oldest as int) == last_of(puts, capacity)
        }),
    decreases puts.len(),
{
    if puts.len() == 0 {
        let (ids, oldest) = registry_after(puts, capacity);
        assert(ids.skip(0) + ids.take(0) =~= puts);
    } else {
        let earlier = puts.drop_last();
        let id = puts.last();
        assert forall|i: int, j: int| 0 <= i < j < earlier.len() implies earlier[i]
            != earlier[j] by {
            assert(earlier[i] == puts[i] && earlier[j] == puts[j]);
        }
        lemma_registry_is_fifo(earlier, capacity);
        let (before, oldest) = registry_after(earlier, capacity);
        let (ids, next) = registry_after(puts, capacity);
        let turned = before.skip(oldest as int) + before.take(oldest as int);
        assert(!holds_id(before, id)) by {
            if holds_id(before, id) {
                let i = choose|i: int| 0 <= i < before.len() && before[i] == id;
                let at = if i >= oldest {
                    i - oldest
                } else {
                    before.len() - oldest + i
                };
                assert(turned[at] == before[i]);
                let window = last_of(earlier, capacity);
                assert(window[at] == id);
                let from = earlier.len() - window.len();
                assert(earlier[from + at] == id);
                assert(puts[from + at] == id);
                assert(puts[puts.len() - 1] == id);
            }
        }
        if before.len() < capacity {
            assert(ids == before.push(id));
            assert(turned =~= before);
            assert(before == earlier);
            assert(ids.skip(next as int) + ids.take(next as int) =~= puts);
        } else {
            assert(ids == before.update(oldest as int, id));
            let window = last_of(earlier, capacity);
            assert(last_of(puts, capacity) =~= window.skip(1).push(id));
            if oldest + 1 == capacity {
                assert(ids.skip(0) + ids.take(0) =~= turned.skip(1).push(id));
            } else {
                assert(ids.skip(next as int) + ids.take(next as int) =~= turned.skip(1).push(id));
            }
        }
    }
}

} // verus!

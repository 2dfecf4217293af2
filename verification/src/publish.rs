//! The publish engine: the sweep that sends a value to every known peer,
//! window by window, and the checks that tell whether a published value can
//! be read back.

use vstd::prelude::*;
use crate::affinity::KeyId;
use crate::node::{cursor_position, next_healthy, walk_end, DhtNode};
use crate::peers::PeerCursor;
use crate::search::{found_view, FoundValue, FoundValueView};
use crate::node::NodeState;
use crate::storage::{
    after_roster, after_signed, dht_key_from_key_id, key_of, nodes_key_name, nodes_name,
    survivors,
};
use crate::types::{
    roster_view, DhtError, DhtValue, DhtValueView, IpAddress, KeyDescription, KeyDescriptionView,
    KeyKind, OverlayNode, OverlayNodeView, Payload, PayloadView, PublicKey, PublicKeyView,
    UpdateRule,
};
use crate::{MAX_TASKS, TIMEOUT_VALUE};

verus! {

/// The peers that a sweep which stands at the slot `from` sends to next: the
/// first `room` peers from there on that are admitted to lookups.
pub open spec fn sweep_peers(ids: Seq<Seq<u8>>, scores: Map<Seq<u8>, u8>, from: int, room: nat) -> Seq<
    Seq<u8>,
>
    decreases room,
{
    if room == 0 || next_healthy(ids, scores, from) >= ids.len() {
        Seq::empty()
    } else {
        seq![ids[next_healthy(ids, scores, from)]] + sweep_peers(
            ids,
            scores,
            next_healthy(ids, scores, from) + 1,
            (room - 1) as nat,
        )
    }
}

/// The slot at which the sweep stands after it has named those peers.
pub open spec fn sweep_end(ids: Seq<Seq<u8>>, scores: Map<Seq<u8>, u8>, from: int, room: nat) -> int
    decreases room,
{
    if room == 0 {
        from
    } else if next_healthy(ids, scores, from) >= ids.len() {
        walk_end(from, ids.len() as int)
    } else {
        sweep_end(ids, scores, next_healthy(ids, scores, from) + 1, (room - 1) as nat)
    }
}

/// What a publisher does next.
#[derive(Clone, Debug, PartialEq, Eq)]
pub enum PublishStep {
    /// Send the value to these peers, wait for all of them, then read the
    /// value back and hand in the verdict.
    Send(Vec<KeyId>),
    /// The publication is over; the flag tells whether the value could be
    /// read back.
    Done(bool),
}

/// The state of the publication of one value: the sweep over the known
/// peers.
pub struct StoreSweep {
    cursor: Option<PeerCursor>,
}

impl StoreSweep {
    /// The slot of the known peers at which the sweep stands.
    pub closed spec fn position(&self) -> int {
        cursor_position(self.cursor)
    }

    /// Begins a sweep before the first known peer.
    pub fn new() -> (sweep: StoreSweep)
        ensures
            sweep.position() == 0,
    {
        StoreSweep { cursor: None }
    }
}

impl DhtNode {
    /// Decides how the publication of a value goes on. `verdict` is nothing
    /// when the publication begins, and after each window the answer to
    /// whether the value could be read back. A value that could be read back
    /// ends the publication with success. Else the sweep names the next
    /// known peers that are admitted to lookups, `MAX_TASKS` at most, and
    /// with none left the publication ends without success.
    pub fn store_value(&self, sweep: &mut StoreSweep, verdict: Option<bool>) -> (step: PublishStep)
        requires
            self.wf(),
        ensures
            verdict == Some(true) ==> step == PublishStep::Done(true) && final(sweep).position()
                == old(sweep).position(),
            verdict != Some(true) ==> final(sweep).position() == sweep_end(
                self@.peers,
                self@.scores,
                old(sweep).position(),
                MAX_TASKS as nat,
            ) && (match step {
                PublishStep::Send(peers) => peers@.len() > 0 && peers@.map_values(
                    |peer: KeyId| peer@,
                ) == sweep_peers(
                    self@.peers,
                    self@.scores,
                    old(sweep).position(),
                    MAX_TASKS as nat,
                ),
                PublishStep::Done(verified) => !verified && sweep_peers(
                    self@.peers,
                    self@.scores,
                    old(sweep).position(),
                    MAX_TASKS as nat,
                ).len() == 0,
            }),
    {
        match verdict {
            Some(true) => {
                return PublishStep::Done(true);
            },
            _ => {},
        }
        let ghost ids = self@.peers;
        let ghost scores = self@.scores;
        let ghost start = sweep.position();
        let mut peers: Vec<KeyId> = Vec::new();
        let mut room: u8 = MAX_TASKS;
        assert(peers@.map_values(|peer: KeyId| peer@) + sweep_peers(
            ids,
            scores,
            start,
            room as nat,
        ) =~= sweep_peers(ids, scores, start, MAX_TASKS as nat));
        while room > 0
            invariant
                self.wf(),
                ids == self@.peers,
                scores == self@.scores,
                peers@.map_values(|peer: KeyId| peer@) + sweep_peers(
                    ids,
                    scores,
                    sweep.position(),
                    room as nat,
                ) == sweep_peers(ids, scores, start, MAX_TASKS as nat),
                sweep_end(ids, scores, sweep.position(), room as nat) == sweep_end(
                    ids,
                    scores,
                    start,
                    MAX_TASKS as nat,
                ),
            decreases room,
        {
            let ghost named = peers@.map_values(|peer: KeyId| peer@);
            let ghost at = sweep.position();
            match self.get_known_peer(&mut sweep.cursor) {
                Some(peer) => {
                    peers.push(peer);
                    room = room - 1;
                    proof {
                        assert(peers@.map_values(|peer: KeyId| peer@) =~= named.push(peer@));
                        assert(named.push(peer@) + sweep_peers(
                            ids,
                            scores,
                            sweep.position(),
                            room as nat,
                        ) =~= named + (seq![peer@] + sweep_peers(
                            ids,
                            scores,
                            sweep.position(),
                            room as nat,
                        )));
                    }
                },
                None => {
                    room = 0;
                    assert(named + Seq::<Seq<u8>>::empty() =~= named);
                },
            }
        }
        assert(peers@.map_values(|peer: KeyId| peer@) + Seq::<Seq<u8>>::empty() =~= peers@.map_values(
            |peer: KeyId| peer@,
        ));
        if peers.len() == 0 {
            PublishStep::Done(false)
        } else {
            PublishStep::Send(peers)
        }
    }
}

/// The description of the key of the name `name` of the owner with the
/// public key `owner` and the identifier `owner_id`, under the signature
/// rule and not yet signed.
pub open spec fn key_description_of(owner: PublicKeyView, owner_id: Seq<u8>, name: Seq<
    u8,
>) -> KeyDescriptionView {
    KeyDescriptionView {
        id: owner,
        key: key_of(owner_id, name),
        signature: Seq::empty(),
        update_rule: UpdateRule::Signature,
    }
}

/// Builds the description of the key of the name `name` of an owner, under
/// the signature rule, for the owner to sign.
pub fn sign_key_description(name: Vec<u8>, owner: &PublicKey, owner_id: &KeyId) -> (key:
    KeyDescription)
    ensures
        key@ == key_description_of(owner@, owner_id@, name@),
{
    KeyDescription {
        id: owner.duplicate(),
        key: dht_key_from_key_id(owner_id, name),
        signature: Vec::new(),
        update_rule: UpdateRule::Signature,
    }
}

/// Builds the value with the payload `payload` under the key description
/// `key`, to live `TIMEOUT_VALUE` seconds from the time `now`, for the
/// owner to sign.
pub fn sign_value(key: KeyDescription, payload: Payload, now: i32) -> (value: DhtValue)
    requires
        now + TIMEOUT_VALUE <= i32::MAX,
    ensures
        value@ == (DhtValueView {
            key: key@,
            ttl: (now + TIMEOUT_VALUE) as i32,
            signature: Seq::empty(),
            value: payload@,
        }),
{
    DhtValue { key, ttl: now + TIMEOUT_VALUE, signature: Vec::new(), value: payload }
}

/// The value by which the member `node` is published in the overlay with
/// the public key `overlay` and the identifier `overlay_id` at the time
/// `now`.
pub open spec fn overlay_value_of(
    overlay: PublicKeyView,
    overlay_id: Seq<u8>,
    node: OverlayNodeView,
    now: i32,
) -> DhtValueView {
    DhtValueView {
        key: KeyDescriptionView {
            id: overlay,
            key: key_of(overlay_id, nodes_name()),
            signature: Seq::empty(),
            update_rule: UpdateRule::OverlayNodes,
        },
        ttl: (now + TIMEOUT_VALUE) as i32,
        signature: Seq::empty(),
        value: PayloadView::OverlayNodes(seq![node]),
    }
}

/// Whether one of the rosters among the values found holds `node`, or the
/// error if a value found, looked at from the last one back until `node`
/// shows, holds no roster.
pub open spec fn node_among(found: Seq<FoundValueView>, node: OverlayNodeView) -> Result<
    bool,
    DhtError,
>
    decreases found.len(),
{
    if found.len() == 0 {
        Ok(false)
    } else {
        match found.last().value {
            PayloadView::OverlayNodes(nodes) => if nodes.contains(node) {
                Ok(true)
            } else {
                node_among(found.drop_last(), node)
            },
            _ => Err(DhtError::WrongTypeInResult),
        }
    }
}

/// Whether one of the address lists among the values found names the
/// address `own`, or the error if a value found, looked at from the last one
/// back until `own` shows, holds no address list. `parsed` holds, for each
/// value found, the address that its list names, if it names one.
pub open spec fn address_among(
    found: Seq<FoundValueView>,
    parsed: Seq<Option<IpAddress>>,
    own: IpAddress,
) -> Result<bool, DhtError>
    decreases found.len(),
{
    if found.len() == 0 {
        Ok(false)
    } else if !(found.last().value is AddressList) {
        Err(DhtError::WrongTypeInResult)
    } else if found.len() <= parsed.len() && parsed[found.len() - 1] == Some(own) {
        Ok(true)
    } else {
        address_among(found.drop_last(), parsed, own)
    }
}

/// Tells whether a roster holds `node`.
pub fn roster_holds(nodes: &Vec<OverlayNode>, node: &OverlayNode) -> (holds: bool)
    ensures
        holds == roster_view(nodes@).contains(node@),
{
    let mut i: usize = 0;
    while i < nodes.len()
        invariant
            i <= nodes.len(),
            forall|j: int| 0 <= j < i ==> roster_view(nodes@)[j] != node@,
        decreases nodes.len() - i,
    {
        if nodes[i].same(node) {
            assert(roster_view(nodes@)[i as int] == node@);
            return true;
        }
        i += 1;
    }
    false
}

/// Tells whether the overlay node `node` can be read back: whether one of
/// the rosters among the values found holds it.
pub fn overlay_node_stored(found: &Vec<FoundValue>, node: &OverlayNode) -> (stored: Result<
    bool,
    DhtError,
>)
    ensures
        stored == node_among(found_view(found@), node@),
{
    let ghost all = found_view(found@);
    let mut i: usize = found.len();
    assert(all.take(all.len() as int) =~= all);
    while i > 0
        invariant
            i <= found.len(),
            all == found_view(found@),
            node_among(all, node@) == node_among(all.take(i as int), node@),
        decreases i,
    {
        i -= 1;
        proof {
            let longer = all.take(i + 1);
            assert(longer.drop_last() =~= all.take(i as int));
            assert(longer.last() == all[i as int]);
        }
        match &found[i].value {
            Payload::OverlayNodes(nodes) => {
                if roster_holds(nodes, node) {
                    return Ok(true);
                }
            },
            _ => {
                return Err(DhtError::WrongTypeInResult);
            },
        }
    }
    Ok(false)
}

/// Tells whether the address `own` can be read back: whether one of the
/// address lists among the values found names it.
pub fn address_stored(found: &Vec<FoundValue>, parsed: &Vec<Option<IpAddress>>, own: IpAddress) -> (stored:
    Result<bool, DhtError>)
    ensures
        stored == address_among(found_view(found@), parsed@, own),
{
    let ghost all = found_view(found@);
    let mut i: usize = found.len();
    assert(all.take(all.len() as int) =~= all);
    while i > 0
        invariant
            i <= found.len(),
            all == found_view(found@),
            address_among(all, parsed@, own) == address_among(all.take(i as int), parsed@, own),
        decreases i,
    {
        i -= 1;
        proof {
            let longer = all.take(i + 1);
            assert(longer.drop_last() =~= all.take(i as int));
            assert(longer.last() == all[i as int]);
        }
        match &found[i].value {
            Payload::AddressList(_) => {
                if i < parsed.len() {
                    match parsed[i] {
                        Some(address) => {
                            if address.ip == own.ip && address.port == own.port {
                                return Ok(true);
                            }
                        },
                        None => {},
                    }
                }
            },
            _ => {
                return Err(DhtError::WrongTypeInResult);
            },
        }
    }
    Ok(false)
}

impl DhtNode {
    /// Begins the publication of the node's own address list at the key
    /// hash `key_hash`: `value` is the signed value that holds the list,
    /// `signatures_ok` tells whether its signatures verify, and `own` is the
    /// address that the list names, if it names one. A list that names no
    /// address is an error. Else the node puts the value into its own store
    /// under the signature rule and begins the sweep.
    pub fn store_ip_address(
        &mut self,
        key_hash: KeyId,
        value: &DhtValue,
        signatures_ok: bool,
        own: Option<IpAddress>,
    ) -> (sweep: Result<StoreSweep, DhtError>)
        requires
            old(self).wf(),
        ensures
            final(self).wf(),
            match sweep {
                Ok(sweep) => own is Some && signatures_ok && sweep.position() == 0 && final(self)@
                    == (NodeState {
                    values: after_signed(old(self)@.values, key_hash@, value@),
                    ..old(self)@
                }),
                Err(error) => final(self)@ == old(self)@ && (if own is None {
                    error == DhtError::InternalInvariant
                } else {
                    !signatures_ok && error == DhtError::SignatureInvalid
                }),
            },
    {
        if own.is_none() {
            return Err(DhtError::InternalInvariant);
        }
        match self.process_store_signed_value(key_hash, value, signatures_ok) {
            Ok(_) => Ok(StoreSweep::new()),
            Err(error) => Err(error),
        }
    }

    /// Begins the publication of the member `node` of the overlay with the
    /// public key `overlay` and the identifier `overlay_id`, at the time
    /// `now`. `node_ok` tells whether `node` verifies as a member of the
    /// overlay, and `key_hash` is the hash of the key of the overlay's
    /// roster. The node builds the value, puts it into its own store, and
    /// hands it out for the sweep.
    pub fn store_overlay_node(
        &mut self,
        overlay: &PublicKey,
        overlay_id: &KeyId,
        key_hash: KeyId,
        node: &OverlayNode,
        node_ok: bool,
        now: i32,
    ) -> (value: Result<DhtValue, DhtError>)
        requires
            old(self).wf(),
            now + TIMEOUT_VALUE <= i32::MAX,
        ensures
            final(self).wf(),
            match value {
                Ok(value) => node_ok && overlay@.kind == KeyKind::Overlay && value@
                    == overlay_value_of(overlay@, overlay_id@, node@, now) && final(self)@
                    == (NodeState {
                    values: after_roster(old(self)@.values, key_hash@, value@, seq![node@], now),
                    ..old(self)@
                }),
                Err(error) => final(self)@ == old(self)@ && (if !node_ok {
                    error == DhtError::SignatureInvalid
                } else {
                    overlay@.kind != KeyKind::Overlay && error
                        == DhtError::MalformedWire
                }),
            },
    {
        if !node_ok {
            return Err(DhtError::SignatureInvalid);
        }
        let mut nodes: Vec<OverlayNode> = Vec::new();
        nodes.push(node.duplicate());
        let value = DhtValue {
            key: KeyDescription {
                id: overlay.duplicate(),
                key: dht_key_from_key_id(overlay_id, nodes_key_name()),
                signature: Vec::new(),
                update_rule: UpdateRule::OverlayNodes,
            },
            ttl: now + TIMEOUT_VALUE,
            signature: Vec::new(),
            value: Payload::OverlayNodes(nodes),
        };
        let mut node_ok: Vec<bool> = Vec::new();
        node_ok.push(true);
        proof {
            assert(roster_view(nodes@) =~= seq![node@]);
            assert(value@ == overlay_value_of(overlay@, overlay_id@, node@, now));
            let listed = roster_view(nodes@);
            assert(listed.drop_last() =~= Seq::<OverlayNodeView>::empty());
            assert(survivors(listed.drop_last(), node_ok@) =~= Seq::<
                OverlayNodeView,
            >::empty());
            assert(survivors(listed, node_ok@) =~= seq![node@]);
        }
        match self.process_store_overlay_nodes(key_hash, &value, overlay_id, &node_ok, now) {
            Ok(_) => Ok(value),
            Err(error) => Err(error),
        }
    }
}

} // verus!

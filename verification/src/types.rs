//! The records that the node stores and exchanges, with their mathematical
//! views.

use vstd::prelude::*;
use crate::affinity::KeyId;

verus! {

/// Why an operation of the node failed.
#[derive(Clone, Copy, Debug, PartialEq, Eq, Structural)]
pub enum DhtError {
    /// A record does not have the shape that its kind demands.
    MalformedWire,
    /// A signature is missing, present where none may be, or does not verify.
    SignatureInvalid,
    /// The value's time to live has passed.
    Expired,
    /// The value asks for an update rule that the store does not serve.
    UnsupportedUpdateRule,
    /// No overlay node of a roster passed its check.
    EmptyOverlayList,
    /// A reply holds a payload of another kind than the one asked for.
    WrongTypeInResult,
    /// The caller broke a rule of the interface.
    InternalInvariant,
    /// The link layer could not carry a query.
    TransportFailure,
}

/// The kind of a public key.
#[derive(Clone, Copy, Debug, PartialEq, Eq, Structural)]
pub enum KeyKind {
    Ed25519,
    Aes,
    Overlay,
    Unenc,
}

/// A public key: its kind and its bytes.
#[derive(Clone, Debug, PartialEq, Eq)]
pub struct PublicKey {
    pub kind: KeyKind,
    pub data: Vec<u8>,
}

/// Mathematical value of a [`PublicKey`].
pub struct PublicKeyView {
    pub kind: KeyKind,
    pub data: Seq<u8>,
}

impl View for PublicKey {
    type V = PublicKeyView;

    open spec fn view(&self) -> PublicKeyView {
        PublicKeyView { kind: self.kind, data: self.data@ }
    }
}

/// The signed record of a DHT node.
#[derive(Clone, Debug, PartialEq, Eq)]
pub struct Node {
    pub id: PublicKey,
    /// The encoded address list; the node carries it and never reads it.
    pub addr_list: Vec<u8>,
    pub signature: Vec<u8>,
    pub version: i32,
}

/// Mathematical value of a [`Node`].
pub struct NodeView {
    pub id: PublicKeyView,
    pub addr_list: Seq<u8>,
    pub signature: Seq<u8>,
    pub version: i32,
}

impl View for Node {
    type V = NodeView;

    open spec fn view(&self) -> NodeView {
        NodeView {
            id: self.id@,
            addr_list: self.addr_list@,
            signature: self.signature@,
            version: self.version,
        }
    }
}

/// The signed record of a member of an overlay.
#[derive(Clone, Debug, PartialEq, Eq)]
pub struct OverlayNode {
    pub id: PublicKey,
    pub overlay: KeyId,
    pub version: i32,
    pub signature: Vec<u8>,
}

/// Mathematical value of an [`OverlayNode`].
pub struct OverlayNodeView {
    pub id: PublicKeyView,
    pub overlay: Seq<u8>,
    pub version: i32,
    pub signature: Seq<u8>,
}

impl View for OverlayNode {
    type V = OverlayNodeView;

    open spec fn view(&self) -> OverlayNodeView {
        OverlayNodeView {
            id: self.id@,
            overlay: self.overlay@,
            version: self.version,
            signature: self.signature@,
        }
    }
}

/// The views of the members of a roster, in order.
pub open spec fn roster_view(nodes: Seq<OverlayNode>) -> Seq<OverlayNodeView> {
    nodes.map_values(|n: OverlayNode| n@)
}

/// The views of a list of node records, in order.
pub open spec fn nodes_view(nodes: Seq<Node>) -> Seq<NodeView> {
    nodes.map_values(|n: Node| n@)
}

/// The record that a value is filed under: owner, index and name.
#[derive(Clone, Debug, PartialEq, Eq)]
pub struct DhtKey {
    pub id: KeyId,
    pub idx: i32,
    pub name: Vec<u8>,
}

/// Mathematical value of a [`DhtKey`].
pub struct DhtKeyView {
    pub id: Seq<u8>,
    pub idx: i32,
    pub name: Seq<u8>,
}

impl View for DhtKey {
    type V = DhtKeyView;

    open spec fn view(&self) -> DhtKeyView {
        DhtKeyView { id: self.id@, idx: self.idx, name: self.name@ }
    }
}

/// How a stored value may be replaced.
#[derive(Clone, Copy, Debug, PartialEq, Eq, Structural)]
pub enum UpdateRule {
    /// The owner signs the value; a later expiry replaces an earlier one.
    Signature,
    /// Anybody may write; the store does not serve this rule.
    Anybody,
    /// The value is a roster of self-signed overlay nodes that is merged.
    OverlayNodes,
}

/// The description of a key: its owner, the key, and the update rule.
#[derive(Clone, Debug, PartialEq, Eq)]
pub struct KeyDescription {
    pub id: PublicKey,
    pub key: DhtKey,
    pub signature: Vec<u8>,
    pub update_rule: UpdateRule,
}

/// Mathematical value of a [`KeyDescription`].
pub struct KeyDescriptionView {
    pub id: PublicKeyView,
    pub key: DhtKeyView,
    pub signature: Seq<u8>,
    pub update_rule: UpdateRule,
}

impl View for KeyDescription {
    type V = KeyDescriptionView;

    open spec fn view(&self) -> KeyDescriptionView {
        KeyDescriptionView {
            id: self.id@,
            key: self.key@,
            signature: self.signature@,
            update_rule: self.update_rule,
        }
    }
}

/// The decoded payload of a value.
#[derive(Clone, Debug, PartialEq, Eq)]
pub enum Payload {
    /// An encoded address list.
    AddressList(Vec<u8>),
    /// A roster of overlay nodes.
    OverlayNodes(Vec<OverlayNode>),
    /// Bytes of no kind that the node knows.
    Other(Vec<u8>),
}

/// Mathematical value of a [`Payload`].
pub enum PayloadView {
    AddressList(Seq<u8>),
    OverlayNodes(Seq<OverlayNodeView>),
    Other(Seq<u8>),
}

impl View for Payload {
    type V = PayloadView;

    open spec fn view(&self) -> PayloadView {
        match self {
            Payload::AddressList(bytes) => PayloadView::AddressList(bytes@),
            Payload::OverlayNodes(nodes) => PayloadView::OverlayNodes(roster_view(nodes@)),
            Payload::Other(bytes) => PayloadView::Other(bytes@),
        }
    }
}

/// The kind of payload that a search accepts.
#[derive(Clone, Copy, Debug, PartialEq, Eq, Structural)]
pub enum PayloadKind {
    AddressList,
    OverlayNodes,
}

/// A value of the DHT.
#[derive(Clone, Debug, PartialEq, Eq)]
pub struct DhtValue {
    pub key: KeyDescription,
    /// Absolute expiry, in seconds of the node's clock.
    pub ttl: i32,
    pub signature: Vec<u8>,
    pub value: Payload,
}

/// Mathematical value of a [`DhtValue`].
pub struct DhtValueView {
    pub key: KeyDescriptionView,
    pub ttl: i32,
    pub signature: Seq<u8>,
    pub value: PayloadView,
}

impl View for DhtValue {
    type V = DhtValueView;

    open spec fn view(&self) -> DhtValueView {
        DhtValueView {
            key: self.key@,
            ttl: self.ttl,
            signature: self.signature@,
            value: self.value@,
        }
    }
}

/// An IPv4 address and a port.
#[derive(Clone, Copy, Debug, PartialEq, Eq, Structural)]
pub struct IpAddress {
    pub ip: u32,
    pub port: u16,
}

/// Tells whether two identifiers hold the same bytes.
pub fn same_id(a: &KeyId, b: &KeyId) -> (same: bool)
    ensures
        same == (a@ == b@),
{
    let mut i: usize = 0;
    while i < 32
        invariant
            i <= 32,
            forall|j: int| 0 <= j < i ==> a@[j] == b@[j],
        decreases 32 - i,
    {
        if a[i] != b[i] {
            return false;
        }
        i += 1;
    }
    assert(a@ =~= b@);
    true
}

/// Tells whether two byte strings are equal.
pub fn same_bytes(a: &Vec<u8>, b: &Vec<u8>) -> (same: bool)
    ensures
        same == (a@ == b@),
{
    if a.len() != b.len() {
        return false;
    }
    let mut i: usize = 0;
    while i < a.len()
        invariant
            i <= a.len(),
            a.len() == b.len(),
            forall|j: int| 0 <= j < i ==> a@[j] == b@[j],
        decreases a.len() - i,
    {
        if a[i] != b[i] {
            return false;
        }
        i += 1;
    }
    assert(a@ =~= b@);
    true
}

/// Copies a byte string.
pub fn copy_bytes(a: &Vec<u8>) -> (copy: Vec<u8>)
    ensures
        copy@ == a@,
{
    let mut copy: Vec<u8> = Vec::new();
    let mut i: usize = 0;
    while i < a.len()
        invariant
            i <= a.len(),
            copy@ == a@.subrange(0, i as int),
        decreases a.len() - i,
    {
        copy.push(a[i]);
        i += 1;
        assert(copy@ =~= a@.subrange(0, i as int));
    }
    assert(copy@ =~= a@);
    copy
}

impl PublicKey {
    /// Tells whether two keys have the same kind and bytes.
    pub fn same(&self, other: &PublicKey) -> (same: bool)
        ensures
            same == (self@ == other@),
    {
        let kinds = match (self.kind, other.kind) {
            (KeyKind::Ed25519, KeyKind::Ed25519) => true,
            (KeyKind::Aes, KeyKind::Aes) => true,
            (KeyKind::Overlay, KeyKind::Overlay) => true,
            (KeyKind::Unenc, KeyKind::Unenc) => true,
            _ => false,
        };
        kinds && same_bytes(&self.data, &other.data)
    }

    /// Copies the key.
    pub fn duplicate(&self) -> (copy: PublicKey)
        ensures
            copy@ == self@,
    {
        PublicKey { kind: self.kind, data: copy_bytes(&self.data) }
    }

    /// Tells whether the key names an overlay.
    pub fn is_overlay(&self) -> (overlay: bool)
        ensures
            overlay == (self.kind == KeyKind::Overlay),
    {
        match self.kind {
            KeyKind::Overlay => true,
            _ => false,
        }
    }
}

impl Node {
    /// Copies the record.
    pub fn duplicate(&self) -> (copy: Node)
        ensures
            copy@ == self@,
    {
        Node {
            id: self.id.duplicate(),
            addr_list: copy_bytes(&self.addr_list),
            signature: copy_bytes(&self.signature),
            version: self.version,
        }
    }
}

impl OverlayNode {
    /// Tells whether two records are equal.
    pub fn same(&self, other: &OverlayNode) -> (same: bool)
        ensures
            same == (self@ == other@),
    {
        self.id.same(&other.id) && same_id(&self.overlay, &other.overlay) && self.version
            == other.version && same_bytes(&self.signature, &other.signature)
    }

    /// Copies the record.
    pub fn duplicate(&self) -> (copy: OverlayNode)
        ensures
            copy@ == self@,
    {
        OverlayNode {
            id: self.id.duplicate(),
            overlay: self.overlay,
            version: self.version,
            signature: copy_bytes(&self.signature),
        }
    }
}

impl DhtKey {
    /// Tells whether two keys are equal.
    pub fn same(&self, other: &DhtKey) -> (same: bool)
        ensures
            same == (self@ == other@),
    {
        same_id(&self.id, &other.id) && self.idx == other.idx && same_bytes(
            &self.name,
            &other.name,
        )
    }

    /// Copies the key.
    pub fn duplicate(&self) -> (copy: DhtKey)
        ensures
            copy@ == self@,
    {
        DhtKey { id: self.id, idx: self.idx, name: copy_bytes(&self.name) }
    }
}

impl KeyDescription {
    /// Copies the description.
    pub fn duplicate(&self) -> (copy: KeyDescription)
        ensures
            copy@ == self@,
    {
        KeyDescription {
            id: self.id.duplicate(),
            key: self.key.duplicate(),
            signature: copy_bytes(&self.signature),
            update_rule: self.update_rule,
        }
    }
}

/// Copies a roster.
pub fn copy_roster(nodes: &Vec<OverlayNode>) -> (copy: Vec<OverlayNode>)
    ensures
        roster_view(copy@) == roster_view(nodes@),
{
    let mut copy: Vec<OverlayNode> = Vec::new();
    let mut i: usize = 0;
    while i < nodes.len()
        invariant
            i <= nodes.len(),
            copy.len() == i,
            forall|j: int| 0 <= j < i ==> copy@[j]@ == nodes@[j]@,
        decreases nodes.len() - i,
    {
        copy.push(nodes[i].duplicate());
        i += 1;
    }
    assert(roster_view(copy@) =~= roster_view(nodes@));
    copy
}

impl Payload {
    /// Copies the payload.
    pub fn duplicate(&self) -> (copy: Payload)
        ensures
            copy@ == self@,
    {
        match self {
            Payload::AddressList(bytes) => Payload::AddressList(copy_bytes(bytes)),
            Payload::OverlayNodes(nodes) => Payload::OverlayNodes(copy_roster(nodes)),
            Payload::Other(bytes) => Payload::Other(copy_bytes(bytes)),
        }
    }

    /// Tells whether the payload is of the kind `kind`.
    pub fn is_kind(&self, kind: PayloadKind) -> (is: bool)
        ensures
            is == match kind {
                PayloadKind::AddressList => self@ is AddressList,
                PayloadKind::OverlayNodes => self@ is OverlayNodes,
            },
    {
        match (self, kind) {
            (Payload::AddressList(_), PayloadKind::AddressList) => true,
            (Payload::OverlayNodes(_), PayloadKind::OverlayNodes) => true,
            _ => false,
        }
    }
}

impl DhtValue {
    /// Copies the value.
    pub fn duplicate(&self) -> (copy: DhtValue)
        ensures
            copy@ == self@,
    {
        DhtValue {
            key: self.key.duplicate(),
            ttl: self.ttl,
            signature: copy_bytes(&self.signature),
            value: self.value.duplicate(),
        }
    }
}

} // verus!

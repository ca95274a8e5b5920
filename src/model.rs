//! The element store: an arena of nodes addressed by stable indices.
use vstd::prelude::*;

verus! {

/// Direction of a port at an ECU.
#[derive(Debug, Clone, Copy, PartialEq, Eq, Structural)]
pub enum CommunicationDirection {
    In,
    Out,
}

/// Packing order of the bytes of a signal inside a PDU.
#[derive(Debug, Clone, Copy, PartialEq, Eq, Structural)]
pub enum ByteOrder {
    MostSignificantByteFirst,
    MostSignificantByteLast,
    Opaque,
}

/// Policy that decides when a changed signal value causes a transmission.
#[derive(Debug, Clone, Copy, PartialEq, Eq, Structural)]
pub enum TransferProperty {
    Pending,
    Triggered,
    TriggeredOnChange,
    TriggeredOnChangeWithoutRepetition,
    TriggeredWithoutRepetition,
}

/// The framing discipline of a PDU.
#[derive(Debug, Clone, Copy, PartialEq, Eq, Structural)]
pub enum PduKind {
    ISignalIPdu,
    NmPdu,
    NPdu,
    DcmIPdu,
    GeneralPurposePdu,
    GeneralPurposeIPdu,
    ContainerIPdu,
    SecuredIPdu,
    MultiplexedIPdu,
}

/// What a node is, with the references it holds to other nodes (by index).
#[derive(Debug, Clone, Copy, PartialEq, Eq, Structural)]
pub enum NodeKind {
    Package,
    EcuInstance,
    PhysicalChannel,
    /// The communication connector of `ecu` on the channel that is the node's parent.
    Connector { ecu: usize },
    ISignal { bit_length: u64, system_signal: usize },
    SystemSignal,
    ISignalGroup { system_group: usize },
    SystemSignalGroup,
    /// A reference from the group that is the node's parent to a signal.
    GroupMember { signal: usize },
    Pdu { kind: PduKind, length: u32 },
    /// The placement of a signal in the PDU that is the node's parent.
    Mapping {
        signal: usize,
        start_position: u32,
        byte_order: ByteOrder,
        update_bit: Option<u32>,
        transfer_property: TransferProperty,
    },
    /// A PDU transmitted on the channel that is the node's parent.
    PduTriggering { pdu: usize },
    /// A signal transmitted on the channel that is the node's parent, inside `pdu_triggering`.
    ISignalTriggering { pdu_triggering: usize, signal: usize },
    /// The endpoint of a PDU triggering at an ECU; the parent is the ECU's connector.
    IPduPort { triggering: usize, ecu: usize, direction: CommunicationDirection },
    /// The endpoint of a signal triggering at an ECU; the parent is the ECU's connector.
    ISignalPort { triggering: usize, ecu: usize, direction: CommunicationDirection },
}

/// One node of the store: its kind and the node it is a child of.
#[derive(Debug, Clone, Copy, PartialEq, Eq, Structural)]
pub struct Node {
    pub parent: Option<usize>,
    pub kind: NodeKind,
}

/// A handle to any node of the store.
#[derive(Debug, Clone, Copy, PartialEq, Eq, Structural, Hash)]
pub struct Element {
    pub id: usize,
}

/// Kinds of failure of the store itself.
#[derive(Debug, Clone, Copy, PartialEq, Eq, Structural)]
pub enum ModelError {
    /// A sibling in the same scope already carries the requested name.
    DuplicateItemName,
    /// The node that a handle refers to does not exist.
    ItemDeleted,
}

/// The failures of the operations of this library.
#[derive(Debug, Clone, PartialEq, Eq)]
pub enum AutosarAbstractionError {
    /// A node's kind does not match the type that it was converted to.
    ConversionError { element: Element, dest: String },
    /// An enumerated value does not map to a value of the destination type.
    ValueConversionError { value: String, dest: String },
    /// The store refused the operation.
    ModelError(ModelError),
    /// A reference cannot be resolved, or a precondition on the inputs is unmet.
    InvalidParameter(String),
}

impl AutosarAbstractionError {
    pub open spec fn is_invalid_parameter(&self) -> bool {
        self is InvalidParameter
    }
}

/// Whether nodes of this kind carry a name that is unique among their siblings.
pub open spec fn identifiable(k: NodeKind) -> bool {
    !(k is Connector || k is GroupMember || k is IPduPort || k is ISignalPort)
}

impl NodeKind {
    pub fn is_identifiable(&self) -> (r: bool)
        ensures
            r == identifiable(*self),
    {
        match self {
            NodeKind::Connector { .. } | NodeKind::GroupMember { .. } | NodeKind::IPduPort { .. }
            | NodeKind::ISignalPort { .. } => false,
            _ => true,
        }
    }
}

/// The nodes that a scan of the store collects.
#[derive(Debug, Clone, Copy, PartialEq, Eq, Structural)]
pub enum Selection {
    /// The ports of a PDU triggering.
    PduPortsOf(usize),
    /// The ports of a signal triggering.
    SignalPortsOf(usize),
    /// The signal triggerings of a PDU triggering.
    SignalTriggeringsOf(usize),
    /// The signal mappings of a PDU.
    MappingsOf(usize),
    /// The triggerings of a PDU.
    TriggeringsOf(usize),
    /// The member references of a signal group.
    MembersOf(usize),
}

/// The store: nodes and their names, side by side.
pub struct CommunicationModel {
    pub(crate) nodes: Vec<Node>,
    pub(crate) names: Vec<String>,
}

impl CommunicationModel {
    pub closed spec fn nodes(&self) -> Seq<Node> {
        self.nodes@
    }

    pub closed spec fn names(&self) -> Seq<Seq<char>> {
        self.names@.map_values(|s: String| s@)
    }

    pub open spec fn valid(&self, i: int) -> bool {
        0 <= i < self.nodes().len()
    }

    pub open spec fn kind(&self, i: int) -> NodeKind {
        self.nodes()[i].kind
    }

    pub open spec fn parent(&self, i: int) -> Option<usize> {
        self.nodes()[i].parent
    }

    pub open spec fn is_package(&self, i: int) -> bool {
        self.valid(i) && self.kind(i) is Package
    }

    pub open spec fn is_ecu(&self, i: int) -> bool {
        self.valid(i) && self.kind(i) is EcuInstance
    }

    pub open spec fn is_channel(&self, i: int) -> bool {
        self.valid(i) && self.kind(i) is PhysicalChannel
    }

    pub open spec fn is_signal(&self, i: int) -> bool {
        self.valid(i) && self.kind(i) is ISignal
    }

    pub open spec fn is_pdu(&self, i: int) -> bool {
        self.valid(i) && self.kind(i) is Pdu
    }

    pub open spec fn is_pdu_of_kind(&self, i: int, k: PduKind) -> bool {
        self.valid(i) && self.kind(i) == (NodeKind::Pdu { kind: k, length: self.kind(i)->Pdu_length })
    }

    pub open spec fn is_pdu_triggering(&self, i: int) -> bool {
        self.valid(i) && self.kind(i) is PduTriggering
    }

    pub open spec fn is_signal_triggering(&self, i: int) -> bool {
        self.valid(i) && self.kind(i) is ISignalTriggering
    }

    /// The channel that a triggering belongs to.
    pub open spec fn channel_of(&self, i: int) -> int {
        self.parent(i).unwrap() as int
    }

    /// `ecu` has a connector on `channel`.
    pub open spec fn connected(&self, channel: int, ecu: int) -> bool {
        exists|c: int| #[trigger] self.is_connector(c, channel, ecu)
    }

    pub open spec fn is_connector(&self, c: int, channel: int, ecu: int) -> bool {
        self.valid(c) && self.kind(c) is Connector && self.kind(c)->Connector_ecu == ecu
            && self.parent(c) == Some(channel as usize)
    }

    /// The PDU triggering `t` has a port at `ecu` in `direction`.
    pub open spec fn has_pdu_port(&self, t: int, ecu: int, direction: CommunicationDirection) -> bool {
        exists|p: int| #[trigger] self.is_pdu_port(p, t, ecu, direction)
    }

    pub open spec fn is_pdu_port(&self, p: int, t: int, ecu: int, direction: CommunicationDirection) -> bool {
        self.valid(p) && self.kind(p) is IPduPort && self.kind(p)->IPduPort_triggering == t
            && self.kind(p)->IPduPort_ecu == ecu && self.kind(p)->IPduPort_direction == direction
    }

    /// The signal triggering `t` has a port at `ecu` in `direction`.
    pub open spec fn has_signal_port(&self, t: int, ecu: int, direction: CommunicationDirection) -> bool {
        exists|p: int| #[trigger] self.is_signal_port(p, t, ecu, direction)
    }

    pub open spec fn is_signal_port(&self, p: int, t: int, ecu: int, direction: CommunicationDirection) -> bool {
        self.valid(p) && self.kind(p) is ISignalPort && self.kind(p)->ISignalPort_triggering == t
            && self.kind(p)->ISignalPort_ecu == ecu && self.kind(p)->ISignalPort_direction == direction
    }

    /// Node `p` is a port of the PDU triggering `t`.
    pub open spec fn is_pdu_port_of(&self, p: int, t: int) -> bool {
        self.valid(p) && self.kind(p) is IPduPort && self.kind(p)->IPduPort_triggering == t
    }

    /// Node `i` is a signal mapping of the PDU `pdu`.
    pub open spec fn is_mapping_of(&self, i: int, pdu: int) -> bool {
        self.valid(i) && self.kind(i) is Mapping && self.parent(i) == Some(pdu as usize)
    }

    /// Node `i` is a triggering of the PDU `pdu`.
    pub open spec fn is_triggering_of_pdu(&self, i: int, pdu: int) -> bool {
        self.is_pdu_triggering(i) && self.kind(i)->PduTriggering_pdu == pdu
    }

    /// Node `i` is a member reference of the signal group `g`.
    pub open spec fn is_member_of(&self, i: int, g: int) -> bool {
        self.valid(i) && self.kind(i) is GroupMember && self.parent(i) == Some(g as usize)
    }

    /// Node `i` is one that `sel` collects.
    pub open spec fn selects(&self, sel: Selection, i: int) -> bool {
        match sel {
            Selection::PduPortsOf(t) => self.is_pdu_port_of(i, t as int),
            Selection::SignalPortsOf(t) => self.valid(i) && self.kind(i) is ISignalPort
                && self.kind(i)->ISignalPort_triggering == t,
            Selection::SignalTriggeringsOf(t) => self.is_child_triggering(i, t as int),
            Selection::MappingsOf(pdu) => self.is_mapping_of(i, pdu as int),
            Selection::TriggeringsOf(pdu) => self.is_triggering_of_pdu(i, pdu as int),
            Selection::MembersOf(g) => self.is_member_of(i, g as int),
        }
    }

    /// The signal triggering `s` was made for the PDU triggering `t`.
    pub open spec fn is_child_triggering(&self, s: int, t: int) -> bool {
        self.is_signal_triggering(s) && self.kind(s)->ISignalTriggering_pdu_triggering == t
    }

    /// Each reference of node `i` leads to an earlier node of the right kind.
    pub open spec fn node_wf(&self, i: int) -> bool {
        let n = self.nodes()[i];
        &&& n.parent is Some ==> n.parent.unwrap() < i
        &&& match n.kind {
            NodeKind::Package => n.parent is None,
            NodeKind::EcuInstance => n.parent is Some && self.is_package(n.parent.unwrap() as int),
            NodeKind::PhysicalChannel => n.parent is Some && self.is_package(n.parent.unwrap() as int),
            NodeKind::Connector { ecu } => n.parent is Some && self.is_channel(n.parent.unwrap() as int)
                && self.is_ecu(ecu as int),
            NodeKind::ISignal { system_signal, .. } => n.parent is Some
                && self.is_package(n.parent.unwrap() as int) && system_signal < self.nodes().len()
                && self.kind(system_signal as int) is SystemSignal,
            NodeKind::SystemSignal => n.parent is Some && self.is_package(n.parent.unwrap() as int),
            NodeKind::ISignalGroup { system_group } => n.parent is Some
                && self.is_package(n.parent.unwrap() as int) && system_group < self.nodes().len()
                && self.kind(system_group as int) is SystemSignalGroup,
            NodeKind::SystemSignalGroup => n.parent is Some && self.is_package(n.parent.unwrap() as int),
            NodeKind::GroupMember { signal } => n.parent is Some && n.parent.unwrap() < self.nodes().len()
                && self.kind(n.parent.unwrap() as int) is ISignalGroup && self.is_signal(signal as int),
            NodeKind::Pdu { .. } => n.parent is Some && self.is_package(n.parent.unwrap() as int),
            NodeKind::Mapping { signal, .. } => n.parent is Some
                && self.is_pdu_of_kind(n.parent.unwrap() as int, PduKind::ISignalIPdu)
                && self.is_signal(signal as int),
            NodeKind::PduTriggering { pdu } => n.parent is Some && self.is_channel(n.parent.unwrap() as int)
                && self.is_pdu(pdu as int),
            NodeKind::ISignalTriggering { pdu_triggering, signal } => n.parent is Some
                && self.is_pdu_triggering(pdu_triggering as int)
                && self.parent(pdu_triggering as int) == n.parent && self.is_signal(signal as int),
            NodeKind::IPduPort { triggering, ecu, .. } => self.is_pdu_triggering(triggering as int)
                && n.parent is Some
                && self.is_connector(n.parent.unwrap() as int, self.channel_of(triggering as int), ecu as int),
            NodeKind::ISignalPort { triggering, ecu, .. } => self.is_signal_triggering(triggering as int)
                && n.parent is Some
                && self.is_connector(n.parent.unwrap() as int, self.channel_of(triggering as int), ecu as int),
        }
    }

    /// The invariant of the store, but for the wiring of signal triggerings.
    pub open spec fn wf_core(&self) -> bool {
        &&& self.nodes().len() == self.names().len()
        &&& forall|i: int| 0 <= i < self.nodes().len() ==> #[trigger] self.node_wf(i)
        // names are unique among identifiable siblings
        &&& forall|i: int, j: int|
            self.valid(i) && self.valid(j) && i != j && identifiable(self.kind(i)) && identifiable(self.kind(j))
                && self.parent(i) == self.parent(j) ==> #[trigger] self.names()[i] != #[trigger] self.names()[j]
        // at most one port per triggering, ECU and direction
        &&& forall|p: int, q: int, t: int, e: int, d: CommunicationDirection|
            #[trigger] self.is_pdu_port(p, t, e, d) && #[trigger] self.is_pdu_port(q, t, e, d) ==> p == q
        &&& forall|p: int, q: int, t: int, e: int, d: CommunicationDirection|
            #[trigger] self.is_signal_port(p, t, e, d) && #[trigger] self.is_signal_port(q, t, e, d) ==> p == q
    }

    /// A signal triggering is wired to at least the ECUs of its PDU triggering.
    pub open spec fn wired(&self) -> bool {
        forall|s: int, t: int, e: int, d: CommunicationDirection|
            #[trigger] self.is_child_triggering(s, t) && #[trigger] self.has_pdu_port(t, e, d)
                ==> self.has_signal_port(s, e, d)
    }

    /// Every signal triggering but `x` is wired to at least the ECUs of its PDU triggering.
    pub open spec fn wired_except(&self, x: int) -> bool {
        forall|s: int, t: int, e: int, d: CommunicationDirection|
            #[trigger] self.is_child_triggering(s, t) && #[trigger] self.has_pdu_port(t, e, d) && s != x
                ==> self.has_signal_port(s, e, d)
    }

    /// The invariant of the store.
    pub open spec fn wf(&self) -> bool {
        self.wf_core() && self.wired()
    }

    /// The name `name` is free under `parent` for a node of an identifiable kind.
    pub open spec fn name_free(&self, parent: Option<usize>, name: Seq<char>) -> bool {
        forall|j: int|
            self.valid(j) && identifiable(self.kind(j)) && self.parent(j) == parent
                ==> #[trigger] self.names()[j] != name
    }

    /// The names that identifiable children of `parent` carry.
    pub open spec fn taken_names(&self, parent: Option<usize>) -> Set<Seq<char>> {
        Set::new(|n: Seq<char>| !self.name_free(parent, n))
    }

    /// The nodes of `self` are those of `old`, followed by more.
    pub open spec fn extends(&self, old: &Self) -> bool {
        &&& old.nodes().len() <= self.nodes().len()
        &&& forall|i: int| 0 <= i < old.nodes().len() ==> #[trigger] self.nodes()[i] == old.nodes()[i]
        &&& forall|i: int| 0 <= i < old.nodes().len() ==> #[trigger] self.names()[i] == old.names()[i]
    }

    pub proof fn lemma_extends_refl(&self)
        ensures
            self.extends(self),
    {
    }

    pub proof fn lemma_extends_trans(a: &Self, b: &Self, c: &Self)
        requires
            b.extends(a),
            c.extends(b),
        ensures
            c.extends(a),
    {
    }

    /// What a new node must satisfy so that appending it keeps the invariant.
    pub open spec fn can_push(&self, n: Node, name: Seq<char>) -> bool {
        &&& self.links_ok(n)
        &&& identifiable(n.kind) ==> self.name_free(n.parent, name)
    }

    /// The references of a new node lead to nodes of the right kind.
    pub open spec fn links_ok(&self, n: Node) -> bool {
        let m = self.nodes().len() as int;
        &&& n.parent is Some ==> n.parent.unwrap() < m
        &&& match n.kind {
            NodeKind::Package => n.parent is None,
            NodeKind::EcuInstance => n.parent is Some && self.is_package(n.parent.unwrap() as int),
            NodeKind::PhysicalChannel => n.parent is Some && self.is_package(n.parent.unwrap() as int),
            NodeKind::Connector { ecu } => n.parent is Some && self.is_channel(n.parent.unwrap() as int)
                && self.is_ecu(ecu as int),
            NodeKind::ISignal { system_signal, .. } => n.parent is Some
                && self.is_package(n.parent.unwrap() as int) && system_signal < m
                && self.kind(system_signal as int) is SystemSignal,
            NodeKind::SystemSignal => n.parent is Some && self.is_package(n.parent.unwrap() as int),
            NodeKind::ISignalGroup { system_group } => n.parent is Some
                && self.is_package(n.parent.unwrap() as int) && system_group < m
                && self.kind(system_group as int) is SystemSignalGroup,
            NodeKind::SystemSignalGroup => n.parent is Some && self.is_package(n.parent.unwrap() as int),
            NodeKind::GroupMember { signal } => n.parent is Some && n.parent.unwrap() < m
                && self.kind(n.parent.unwrap() as int) is ISignalGroup && self.is_signal(signal as int),
            NodeKind::Pdu { .. } => n.parent is Some && self.is_package(n.parent.unwrap() as int),
            NodeKind::Mapping { signal, .. } => n.parent is Some
                && self.is_pdu_of_kind(n.parent.unwrap() as int, PduKind::ISignalIPdu)
                && self.is_signal(signal as int),
            NodeKind::PduTriggering { pdu } => n.parent is Some && self.is_channel(n.parent.unwrap() as int)
                && self.is_pdu(pdu as int),
            NodeKind::ISignalTriggering { pdu_triggering, signal } => n.parent is Some
                && self.is_pdu_triggering(pdu_triggering as int)
                && self.parent(pdu_triggering as int) == n.parent && self.is_signal(signal as int),
            NodeKind::IPduPort { triggering, ecu, direction } => self.is_pdu_triggering(triggering as int)
                && n.parent is Some
                && self.is_connector(n.parent.unwrap() as int, self.channel_of(triggering as int), ecu as int)
                && !self.has_pdu_port(triggering as int, ecu as int, direction),
            NodeKind::ISignalPort { triggering, ecu, direction } => self.is_signal_triggering(triggering as int)
                && n.parent is Some
                && self.is_connector(n.parent.unwrap() as int, self.channel_of(triggering as int), ecu as int)
                && !self.has_signal_port(triggering as int, ecu as int, direction),
        }
    }

    /// Appends a node and its name.
    pub(crate) fn push_node(&mut self, n: Node, name: String) -> (id: usize)
        requires
            old(self).wf_core(),
            old(self).can_push(n, name@),
        ensures
            id == old(self).nodes().len(),
            final(self).nodes() == old(self).nodes().push(n),
            final(self).names() == old(self).names().push(name@),
            final(self).wf_core(),
            final(self).extends(old(self)),
    {
        let ghost m0 = *self;
        let id = self.nodes.len();
        self.nodes.push(n);
        self.names.push(name);
        proof {
            assert(self.names() =~= m0.names().push(name@));
            let m1 = *self;
            assert forall|i: int| 0 <= i < m1.nodes().len() implies #[trigger] m1.node_wf(i) by {
                if i < id {
                    assert(m0.node_wf(i));
                }
            }
            assert forall|p: int, q: int, t: int, e: int, d: CommunicationDirection|
                #[trigger] m1.is_pdu_port(p, t, e, d) && #[trigger] m1.is_pdu_port(q, t, e, d) implies p == q by {
                if p < id && q < id {
                    assert(m0.is_pdu_port(p, t, e, d) && m0.is_pdu_port(q, t, e, d));
                } else if p < id {
                    assert(m0.is_pdu_port(p, t, e, d));
                    assert(m0.has_pdu_port(t, e, d));
                } else if q < id {
                    assert(m0.is_pdu_port(q, t, e, d));
                    assert(m0.has_pdu_port(t, e, d));
                }
            }
            assert forall|p: int, q: int, t: int, e: int, d: CommunicationDirection|
                #[trigger] m1.is_signal_port(p, t, e, d) && #[trigger] m1.is_signal_port(q, t, e, d) implies p == q by {
                if p < id && q < id {
                    assert(m0.is_signal_port(p, t, e, d) && m0.is_signal_port(q, t, e, d));
                } else if p < id {
                    assert(m0.is_signal_port(p, t, e, d));
                    assert(m0.has_signal_port(t, e, d));
                } else if q < id {
                    assert(m0.is_signal_port(q, t, e, d));
                    assert(m0.has_signal_port(t, e, d));
                }
            }
        }
        id
    }

    /// Appending a node that is neither a signal triggering nor a PDU port keeps the wiring.
    pub proof fn lemma_push_keeps_wired(m0: &Self, m1: &Self, n: Node)
        requires
            m0.wired(),
            m1.nodes() == m0.nodes().push(n),
            !(n.kind is ISignalTriggering),
            !(n.kind is IPduPort),
        ensures
            m1.wired(),
    {
        let len = m0.nodes().len() as int;
        assert forall|s: int, t: int, e: int, d: CommunicationDirection|
            #[trigger] m1.is_child_triggering(s, t) && #[trigger] m1.has_pdu_port(t, e, d)
                implies m1.has_signal_port(s, e, d) by {
            let p = choose|p: int| #[trigger] m1.is_pdu_port(p, t, e, d);
            assert(m0.is_pdu_port(p, t, e, d));
            assert(m0.is_child_triggering(s, t));
            assert(m0.has_pdu_port(t, e, d));
            assert(m0.has_signal_port(s, e, d));
            let q = choose|q: int| #[trigger] m0.is_signal_port(q, s, e, d);
            assert(m1.is_signal_port(q, s, e, d));
        }
    }

    /// Adds a named node, unless its name is taken among its siblings.
    pub(crate) fn create_named(&mut self, parent: Option<usize>, kind: NodeKind, name: &str) -> (r: Result<
        usize,
        AutosarAbstractionError,
    >)
        requires
            old(self).wf(),
            old(self).links_ok(Node { parent, kind }),
            identifiable(kind),
            !(kind is ISignalTriggering),
        ensures
            final(self).wf(),
            final(self).extends(old(self)),
            old(self).name_free(parent, name@) ==> r is Ok && r->Ok_0 as int == old(self).nodes().len()
                && final(self).nodes() == old(self).nodes().push(Node { parent, kind })
                && final(self).names() == old(self).names().push(name@),
            !old(self).name_free(parent, name@) ==> r == Err::<usize, AutosarAbstractionError>(
                AutosarAbstractionError::ModelError(ModelError::DuplicateItemName),
            ) && *final(self) == *old(self),
    {
        let name_s = String::from_str(name);
        if self.name_taken(parent, &name_s) {
            return Err(AutosarAbstractionError::ModelError(ModelError::DuplicateItemName));
        }
        let ghost m0 = *self;
        let id = self.push_node(Node { parent, kind }, name_s);
        proof {
            Self::lemma_push_keeps_wired(&m0, self, Node { parent, kind });
        }
        Ok(id)
    }

    fn node_selected(&self, sel: Selection, i: usize) -> (r: bool)
        requires
            i < self.nodes().len(),
        ensures
            r == self.selects(sel, i as int),
    {
        let n = self.nodes[i];
        match sel {
            Selection::PduPortsOf(t) => match n.kind {
                NodeKind::IPduPort { triggering, .. } => triggering == t,
                _ => false,
            },
            Selection::SignalPortsOf(t) => match n.kind {
                NodeKind::ISignalPort { triggering, .. } => triggering == t,
                _ => false,
            },
            Selection::SignalTriggeringsOf(t) => match n.kind {
                NodeKind::ISignalTriggering { pdu_triggering, .. } => pdu_triggering == t,
                _ => false,
            },
            Selection::MappingsOf(pdu) => match n.kind {
                NodeKind::Mapping { .. } => n.parent == Some(pdu),
                _ => false,
            },
            Selection::TriggeringsOf(p) => match n.kind {
                NodeKind::PduTriggering { pdu } => pdu == p,
                _ => false,
            },
            Selection::MembersOf(g) => match n.kind {
                NodeKind::GroupMember { .. } => n.parent == Some(g),
                _ => false,
            },
        }
    }

    /// The indices of the nodes that `sel` collects, in the order of their creation.
    pub fn select(&self, sel: Selection) -> (r: Vec<usize>)
        ensures
            forall|k: int| 0 <= k < r.len() ==> #[trigger] self.selects(sel, r@[k] as int),
            forall|i: int| #[trigger] self.selects(sel, i) ==> exists|k: int| 0 <= k < r.len() && #[trigger] r@[k] == i,
            forall|k1: int, k2: int| 0 <= k1 < k2 < r.len() ==> #[trigger] r@[k1] < #[trigger] r@[k2],
    {
        let mut r: Vec<usize> = Vec::new();
        let mut i: usize = 0;
        while i < self.nodes.len()
            invariant
                i <= self.nodes().len(),
                forall|k: int| 0 <= k < r.len() ==> #[trigger] self.selects(sel, r@[k] as int),
                forall|k: int| 0 <= k < r.len() ==> #[trigger] r@[k] < i,
                forall|j: int| 0 <= j < i && #[trigger] self.selects(sel, j) ==> exists|k: int| 0 <= k < r.len() && #[trigger] r@[k] == j,
                forall|k1: int, k2: int| 0 <= k1 < k2 < r.len() ==> #[trigger] r@[k1] < #[trigger] r@[k2],
            decreases self.nodes().len() - i,
        {
            if self.node_selected(sel, i) {
                let ghost r0 = r@;
                r.push(i);
                proof {
                    assert forall|j: int| 0 <= j < i + 1 && #[trigger] self.selects(sel, j)
                        implies exists|k: int| 0 <= k < r.len() && #[trigger] r@[k] == j by {
                        if j < i {
                            let k = choose|k: int| 0 <= k < r0.len() && #[trigger] r0[k] == j;
                            assert(r@[k] == r0[k]);
                        } else {
                            assert(r@[r.len() - 1] == j);
                        }
                    }
                }
            }
            i = i + 1;
        }
        r
    }

    /// The kind of node `i`, if there is one.
    pub fn kind_at(&self, i: usize) -> (r: Option<NodeKind>)
        ensures
            r is Some <==> self.valid(i as int),
            r is Some ==> r.unwrap() == self.kind(i as int),
    {
        if i < self.nodes.len() {
            Some(self.nodes[i].kind)
        } else {
            None
        }
    }

    /// The parent of node `i`, if there is such a node.
    pub fn parent_at(&self, i: usize) -> (r: Option<usize>)
        requires
            self.valid(i as int),
        ensures
            r == self.parent(i as int),
    {
        self.nodes[i].parent
    }

    /// The number of nodes.
    pub fn len(&self) -> (r: usize)
        ensures
            r == self.nodes().len(),
    {
        self.nodes.len()
    }

    /// The port of the PDU triggering `t` at `ecu` in `direction`, if there is one.
    pub fn find_pdu_port(&self, t: usize, ecu: usize, direction: CommunicationDirection) -> (r: Option<usize>)
        ensures
            r is None <==> !self.has_pdu_port(t as int, ecu as int, direction),
            r is Some ==> self.is_pdu_port(r->Some_0 as int, t as int, ecu as int, direction),
    {
        let mut i: usize = 0;
        while i < self.nodes.len()
            invariant
                i <= self.nodes().len(),
                forall|p: int| 0 <= p < i ==> !#[trigger] self.is_pdu_port(p, t as int, ecu as int, direction),
            decreases self.nodes().len() - i,
        {
            if let NodeKind::IPduPort { triggering, ecu: e, direction: d } = self.nodes[i].kind {
                if triggering == t && e == ecu && d == direction {
                    proof {
                        assert(self.is_pdu_port(i as int, t as int, ecu as int, direction));
                    }
                    return Some(i);
                }
            }
            i = i + 1;
        }
        None
    }

    /// The port of the signal triggering `t` at `ecu` in `direction`, if there is one.
    pub fn find_signal_port(&self, t: usize, ecu: usize, direction: CommunicationDirection) -> (r: Option<usize>)
        ensures
            r is None <==> !self.has_signal_port(t as int, ecu as int, direction),
            r is Some ==> self.is_signal_port(r->Some_0 as int, t as int, ecu as int, direction),
    {
        let mut i: usize = 0;
        while i < self.nodes.len()
            invariant
                i <= self.nodes().len(),
                forall|p: int| 0 <= p < i ==> !#[trigger] self.is_signal_port(p, t as int, ecu as int, direction),
            decreases self.nodes().len() - i,
        {
            if let NodeKind::ISignalPort { triggering, ecu: e, direction: d } = self.nodes[i].kind {
                if triggering == t && e == ecu && d == direction {
                    proof {
                        assert(self.is_signal_port(i as int, t as int, ecu as int, direction));
                    }
                    return Some(i);
                }
            }
            i = i + 1;
        }
        None
    }

    /// The nodes of `self` past those of `old` are all ports of the signal triggering `s`.
    pub open spec fn grown_by_ports_of(&self, old: &Self, s: int) -> bool {
        &&& self.extends(old)
        &&& forall|i: int|
            old.nodes().len() <= i < self.nodes().len() ==> #[trigger] self.kind(i) is ISignalPort
                && self.kind(i)->ISignalPort_triggering == s
    }

    /// The nodes of `self` past those of `old` are all signal ports.
    pub open spec fn grown_by_signal_ports(&self, old: &Self) -> bool {
        &&& self.extends(old)
        &&& forall|i: int| old.nodes().len() <= i < self.nodes().len() ==> #[trigger] self.kind(i) is ISignalPort
    }

    /// Every signal triggering is wired to at least the ECUs of its PDU triggering, but for the
    /// signal triggerings of `t` and the pair `e`, `d`.
    pub open spec fn wired_but(&self, t: int, e: int, d: CommunicationDirection) -> bool {
        forall|s: int, t2: int, e2: int, d2: CommunicationDirection|
            #[trigger] self.is_child_triggering(s, t2) && #[trigger] self.has_pdu_port(t2, e2, d2)
                && !(t2 == t && e2 == e && d2 == d) ==> self.has_signal_port(s, e2, d2)
    }

    /// Adding signal ports leaves the rest as it was.
    pub proof fn lemma_grown_by_signal_ports(m: &Self, m2: &Self)
        requires
            m2.grown_by_signal_ports(m),
        ensures
            forall|p: int, t: int, e: int, d: CommunicationDirection|
                #[trigger] m2.is_pdu_port(p, t, e, d) == m.is_pdu_port(p, t, e, d),
            forall|t: int, e: int, d: CommunicationDirection|
                #[trigger] m2.has_pdu_port(t, e, d) == m.has_pdu_port(t, e, d),
            forall|x: int, t: int| #[trigger] m2.is_child_triggering(x, t) == m.is_child_triggering(x, t),
            forall|x: int| #[trigger] m2.is_signal_triggering(x) == m.is_signal_triggering(x),
            forall|x: int| #[trigger] m2.is_pdu_triggering(x) == m.is_pdu_triggering(x),
            forall|x: int| m.valid(x) ==> #[trigger] m2.kind(x) == m.kind(x) && m2.parent(x) == m.parent(x),
            forall|x: int, e: int, d: CommunicationDirection|
                #[trigger] m.has_signal_port(x, e, d) ==> m2.has_signal_port(x, e, d),
    {
        assert forall|t: int, e: int, d: CommunicationDirection|
            #[trigger] m2.has_pdu_port(t, e, d) == m.has_pdu_port(t, e, d) by {
            if m2.has_pdu_port(t, e, d) {
                let p = choose|p: int| #[trigger] m2.is_pdu_port(p, t, e, d);
                assert(m.is_pdu_port(p, t, e, d));
            }
            if m.has_pdu_port(t, e, d) {
                let p = choose|p: int| #[trigger] m.is_pdu_port(p, t, e, d);
                assert(m2.is_pdu_port(p, t, e, d));
            }
        }
        assert forall|x: int, e: int, d: CommunicationDirection|
            #[trigger] m.has_signal_port(x, e, d) implies m2.has_signal_port(x, e, d) by {
            let p = choose|p: int| #[trigger] m.is_signal_port(p, x, e, d);
            assert(m2.is_signal_port(p, x, e, d));
        }
    }

    /// Adding ports to one signal triggering leaves everything else as it was.
    pub proof fn lemma_grown_by_ports(m: &Self, m2: &Self, s: int)
        requires
            m2.grown_by_ports_of(m, s),
        ensures
            forall|p: int, t: int, e: int, d: CommunicationDirection|
                #[trigger] m2.is_pdu_port(p, t, e, d) == m.is_pdu_port(p, t, e, d),
            forall|t: int, e: int, d: CommunicationDirection|
                #[trigger] m2.has_pdu_port(t, e, d) == m.has_pdu_port(t, e, d),
            forall|x: int, t: int| #[trigger] m2.is_child_triggering(x, t) == m.is_child_triggering(x, t),
            forall|x: int| #[trigger] m2.is_signal_triggering(x) == m.is_signal_triggering(x),
            forall|x: int| #[trigger] m2.is_pdu_triggering(x) == m.is_pdu_triggering(x),
            forall|x: int| m.valid(x) ==> #[trigger] m2.kind(x) == m.kind(x) && m2.parent(x) == m.parent(x),
            forall|x: int, e: int, d: CommunicationDirection|
                x != s ==> (#[trigger] m2.has_signal_port(x, e, d) == m.has_signal_port(x, e, d)),
            forall|x: int, e: int, d: CommunicationDirection|
                #[trigger] m.has_signal_port(x, e, d) ==> m2.has_signal_port(x, e, d),
    {
        assert forall|t: int, e: int, d: CommunicationDirection|
            #[trigger] m2.has_pdu_port(t, e, d) == m.has_pdu_port(t, e, d) by {
            if m2.has_pdu_port(t, e, d) {
                let p = choose|p: int| #[trigger] m2.is_pdu_port(p, t, e, d);
                assert(m.is_pdu_port(p, t, e, d));
            }
            if m.has_pdu_port(t, e, d) {
                let p = choose|p: int| #[trigger] m.is_pdu_port(p, t, e, d);
                assert(m2.is_pdu_port(p, t, e, d));
            }
        }
        assert forall|x: int, e: int, d: CommunicationDirection|
            x != s implies (#[trigger] m2.has_signal_port(x, e, d) == m.has_signal_port(x, e, d)) by {
            if m2.has_signal_port(x, e, d) {
                let p = choose|p: int| #[trigger] m2.is_signal_port(p, x, e, d);
                assert(m.is_signal_port(p, x, e, d));
            }
            if m.has_signal_port(x, e, d) {
                let p = choose|p: int| #[trigger] m.is_signal_port(p, x, e, d);
                assert(m2.is_signal_port(p, x, e, d));
            }
        }
        assert forall|x: int, e: int, d: CommunicationDirection|
            #[trigger] m.has_signal_port(x, e, d) implies m2.has_signal_port(x, e, d) by {
            let p = choose|p: int| #[trigger] m.is_signal_port(p, x, e, d);
            assert(m2.is_signal_port(p, x, e, d));
        }
    }

    /// The name of a node.
    pub fn name_of(&self, e: Element) -> (r: Option<String>)
        requires
            self.wf_core(),
        ensures
            r is Some <==> self.valid(e.id as int),
            r is Some ==> r.unwrap()@ == self.names()[e.id as int],
    {
        if e.id < self.nodes.len() {
            Some(self.names[e.id].clone())
        } else {
            None
        }
    }

    /// Whether a node of an identifiable kind under `parent` carries `name`.
    pub(crate) fn name_taken(&self, parent: Option<usize>, name: &String) -> (r: bool)
        requires
            self.wf_core(),
        ensures
            r == !self.name_free(parent, name@),
    {
        let mut i: usize = 0;
        while i < self.nodes.len()
            invariant
                self.wf_core(),
                i <= self.nodes().len(),
                forall|j: int|
                    0 <= j < i && identifiable(self.kind(j)) && self.parent(j) == parent
                        ==> #[trigger] self.names()[j] != name@,
            decreases self.nodes().len() - i,
        {
            let n = self.nodes[i];
            if n.kind.is_identifiable() && n.parent == parent && self.names[i] == *name {
                proof {
                    assert(self.names()[i as int] == name@);
                }
                return true;
            }
            i = i + 1;
        }
        false
    }

    /// The names of the identifiable children of `parent`.
    pub(crate) fn child_names(&self, parent: Option<usize>) -> (r: Vec<String>)
        requires
            self.wf_core(),
        ensures
            forall|j: int| self.valid(j) && identifiable(self.kind(j)) && self.parent(j) == parent
                ==> exists|k: int| 0 <= k < r.len() && #[trigger] r@[k]@ == self.names()[j],
            forall|k: int| 0 <= k < r.len() ==> !self.name_free(parent, #[trigger] r@[k]@),
    {
        let mut r: Vec<String> = Vec::new();
        let mut i: usize = 0;
        while i < self.nodes.len()
            invariant
                self.wf_core(),
                i <= self.nodes().len(),
                forall|j: int| 0 <= j < i && identifiable(self.kind(j)) && self.parent(j) == parent
                    ==> exists|k: int| 0 <= k < r.len() && #[trigger] r@[k]@ == self.names()[j],
                forall|k: int| 0 <= k < r.len() ==> !self.name_free(parent, #[trigger] r@[k]@),
            decreases self.nodes().len() - i,
        {
            let n = self.nodes[i];
            if n.kind.is_identifiable() && n.parent == parent {
                let ghost r0 = r@;
                r.push(self.names[i].clone());
                proof {
                    assert(r@[r.len() - 1]@ == self.names()[i as int]);
                    assert forall|k: int| 0 <= k < r.len() implies !self.name_free(parent, #[trigger] r@[k]@) by {
                        if k < r0.len() {
                            assert(r@[k] == r0[k]);
                        } else {
                            assert(r@[k]@ == self.names()[i as int]);
                        }
                    }
                    assert forall|j: int| 0 <= j < i + 1 && identifiable(self.kind(j)) && self.parent(j) == parent
                        implies exists|k: int| 0 <= k < r.len() && #[trigger] r@[k]@ == self.names()[j] by {
                        if j < i {
                            let k = choose|k: int| 0 <= k < r0.len() && #[trigger] r0[k]@ == self.names()[j];
                            assert(r@[k] == r0[k]);
                        } else {
                            assert(r@[r.len() - 1]@ == self.names()[j]);
                        }
                    }
                }
            }
            i = i + 1;
        }
        r
    }

    /// An empty store.
    pub fn new() -> (r: Self)
        ensures
            r.wf(),
            r.nodes().len() == 0,
    {
        let r = CommunicationModel { nodes: Vec::new(), names: Vec::new() };
        proof {
            assert(r.names() =~= Seq::<Seq<char>>::empty());
        }
        r
    }
}

} // verus!

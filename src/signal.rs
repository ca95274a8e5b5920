//! Signals, signal groups, signal triggerings and signal ports.
use vstd::prelude::*;
use crate::model::{
    AutosarAbstractionError, CommunicationDirection, CommunicationModel, Element, ModelError, Node, NodeKind,
    Selection,
};
use crate::topology::{invalid_parameter, ArPackage, EcuInstance, PhysicalChannel};

verus! {

/// A transported signal together with its paired system signal.
#[derive(Debug, Clone, Copy, PartialEq, Eq, Structural, Hash)]
pub struct Signal {
    pub id: usize,
}

/// A group of signals together with its paired system signal group.
#[derive(Debug, Clone, Copy, PartialEq, Eq, Structural, Hash)]
pub struct SignalGroup {
    pub id: usize,
}

/// A signal transmitted on a channel.
#[derive(Debug, Clone, Copy, PartialEq, Eq, Structural, Hash)]
pub struct ISignalTriggering {
    pub id: usize,
}

/// The endpoint of a signal triggering at one ECU.
#[derive(Debug, Clone, Copy, PartialEq, Eq, Structural, Hash)]
pub struct ISignalPort {
    pub id: usize,
}

/// The text that a port name ends with for a direction.
pub open spec fn direction_suffix(d: CommunicationDirection) -> Seq<char> {
    match d {
        CommunicationDirection::In => seq!['_', 'R', 'x'],
        CommunicationDirection::Out => seq!['_', 'T', 'x'],
    }
}

/// The name of a port of triggering `t` in direction `d`.
pub fn port_name(model: &CommunicationModel, t: usize, d: CommunicationDirection) -> (r: String)
    requires
        model.wf_core(),
        model.valid(t as int),
    ensures
        r@ == model.names()[t as int] + direction_suffix(d),
{
    let mut name = model.name_of(Element { id: t }).unwrap();
    match d {
        CommunicationDirection::In => {
            proof { reveal_strlit("_Rx"); }
            name.append("_Rx");
        },
        CommunicationDirection::Out => {
            proof { reveal_strlit("_Tx"); }
            name.append("_Tx");
        },
    }
    proof {
        assert(name@ =~= model.names()[t as int] + direction_suffix(d));
    }
    name
}

/// What connecting the signal triggering `t` to ECU `e` in direction `d` does, from `m0` to `m1`.
pub open spec fn signal_connect_result(
    m0: CommunicationModel,
    m1: CommunicationModel,
    t: int,
    e: int,
    d: CommunicationDirection,
    r: Result<ISignalPort, AutosarAbstractionError>,
) -> bool {
    if !m0.is_signal_triggering(t) {
        invalid_parameter(r) && m1 == m0
    } else if m0.has_signal_port(t, e, d) {
        r is Ok && m0.is_signal_port(r->Ok_0.id as int, t, e, d) && m1 == m0
    } else if !m0.connected(m0.channel_of(t), e) {
        invalid_parameter(r) && m1 == m0
    } else {
        r is Ok && r->Ok_0.id as int == m0.nodes().len() && m1.nodes().len() == m0.nodes().len() + 1
            && m1.is_signal_port(r->Ok_0.id as int, t, e, d)
            && m1.names()[r->Ok_0.id as int] == m0.names()[t] + direction_suffix(d)
    }
}

/// Connecting a signal triggering to an ECU in a direction a second time returns the port of
/// the first time and changes nothing.
pub proof fn lemma_signal_connect_idempotent(
    m0: CommunicationModel,
    m1: CommunicationModel,
    m2: CommunicationModel,
    t: int,
    e: int,
    d: CommunicationDirection,
    r1: Result<ISignalPort, AutosarAbstractionError>,
    r2: Result<ISignalPort, AutosarAbstractionError>,
)
    requires
        m0.wf_core(),
        m1.wf_core(),
        m1.extends(&m0),
        signal_connect_result(m0, m1, t, e, d, r1),
        signal_connect_result(m1, m2, t, e, d, r2),
        r1 is Ok,
    ensures
        r2 == r1,
        m2 == m1,
{
    let p = r1->Ok_0.id as int;
    assert(m1.is_signal_port(p, t, e, d));
    assert(m1.has_signal_port(t, e, d));
    assert(m1.is_signal_port(r2->Ok_0.id as int, t, e, d));
}

/// Node `s` is paired with node `sys`, named `name` in `sys_package`.
pub open spec fn paired(model: CommunicationModel, s: int, sys: int, sys_package: usize, name: Seq<char>) -> bool {
    model.valid(sys) && model.parent(sys) == Some(sys_package) && model.names()[sys] == name && s != sys
}

impl Signal {
    /// Creates a signal named `name` in `sig_package` with its system signal in `sys_package`.
    pub fn new(
        model: &mut CommunicationModel,
        name: &str,
        bit_length: u64,
        sig_package: &ArPackage,
        sys_package: &ArPackage,
    ) -> (r: Result<Signal, AutosarAbstractionError>)
        requires
            old(model).wf(),
        ensures
            final(model).wf(),
            final(model).extends(old(model)),
            sig_package == sys_package ==> invalid_parameter(r) && *final(model) == *old(model),
            sig_package != sys_package && !(old(model).is_package(sig_package.id as int) && old(model).is_package(
                sys_package.id as int,
            )) ==> invalid_parameter(r) && *final(model) == *old(model),
            sig_package != sys_package && old(model).is_package(sig_package.id as int) && old(model).is_package(
                sys_package.id as int,
            ) ==> if old(model).name_free(Some(sig_package.id), name@) && old(model).name_free(
                Some(sys_package.id),
                name@,
            ) {
                r is Ok && final(model).is_signal(r->Ok_0.id as int) && final(model).nodes().len() == old(model).nodes().len() + 2 && final(model).names()[r->Ok_0.id as int]
                    == name@ && final(model).parent(r->Ok_0.id as int) == Some(sig_package.id)
                    && final(model).kind(r->Ok_0.id as int)->ISignal_bit_length == bit_length
                    && paired(*final(model), r->Ok_0.id as int, final(model).kind(r->Ok_0.id as int)->ISignal_system_signal as int, sys_package.id, name@)
            } else {
                r == Err::<Signal, AutosarAbstractionError>(
                    AutosarAbstractionError::ModelError(ModelError::DuplicateItemName),
                ) && *final(model) == *old(model)
            },
    {
        if sig_package == sys_package {
            return Err(
                AutosarAbstractionError::InvalidParameter(
                    String::from_str("you must use different packages for the ISignal and the SystemSignal"),
                ),
            );
        }
        match (model.kind_at(sig_package.id), model.kind_at(sys_package.id)) {
            (Some(NodeKind::Package), Some(NodeKind::Package)) => {},
            _ => {
                return Err(AutosarAbstractionError::InvalidParameter(String::from_str("invalid package")));
            },
        }
        let name_s = String::from_str(name);
        if model.name_taken(Some(sig_package.id), &name_s) || model.name_taken(Some(sys_package.id), &name_s) {
            return Err(AutosarAbstractionError::ModelError(ModelError::DuplicateItemName));
        }
        let ghost m0 = *model;
        let sys = model.create_named(Some(sys_package.id), NodeKind::SystemSignal, name).unwrap();
        let ghost m1 = *model;
        proof {
            assert forall|j: int|
                m1.valid(j) && crate::model::identifiable(m1.kind(j)) && m1.parent(j) == Some(sig_package.id)
                    implies #[trigger] m1.names()[j] != name@ by {
                if j < m0.nodes().len() {
                    assert(m0.names()[j] == m1.names()[j]);
                }
            }
        }
        let kind = NodeKind::ISignal { bit_length, system_signal: sys };
        let id = model.create_named(Some(sig_package.id), kind, name).unwrap();
        proof {
            CommunicationModel::lemma_extends_trans(&m0, &m1, model);
            assert(model.nodes()[sys as int] == m1.nodes()[sys as int]);
            assert(model.names()[sys as int] == m1.names()[sys as int]);
        }
        Ok(Signal { id })
    }

    pub fn element(&self) -> (r: Element)
        ensures
            r.id == self.id,
    {
        Element { id: self.id }
    }
}

/// `signal` is a member of the signal group `g`.
pub open spec fn is_member(model: CommunicationModel, g: int, signal: int) -> bool {
    exists|i: int| #[trigger] model.is_member_of(i, g) && model.kind(i)->GroupMember_signal == signal
}

impl SignalGroup {
    /// Creates a signal group named `name` in `sig_package` with its system signal group in
    /// `sys_package`.
    pub fn new(model: &mut CommunicationModel, name: &str, sig_package: &ArPackage, sys_package: &ArPackage) -> (r:
        Result<SignalGroup, AutosarAbstractionError>)
        requires
            old(model).wf(),
        ensures
            final(model).wf(),
            final(model).extends(old(model)),
            sig_package == sys_package ==> invalid_parameter(r) && *final(model) == *old(model),
            sig_package != sys_package && !(old(model).is_package(sig_package.id as int) && old(model).is_package(
                sys_package.id as int,
            )) ==> invalid_parameter(r) && *final(model) == *old(model),
            sig_package != sys_package && old(model).is_package(sig_package.id as int) && old(model).is_package(
                sys_package.id as int,
            ) ==> if old(model).name_free(Some(sig_package.id), name@) && old(model).name_free(
                Some(sys_package.id),
                name@,
            ) {
                r is Ok && final(model).valid(r->Ok_0.id as int) && final(model).kind(r->Ok_0.id as int) is ISignalGroup && final(model).nodes().len() == old(model).nodes().len() + 2
                    && final(model).names()[r->Ok_0.id as int] == name@
                    && final(model).parent(r->Ok_0.id as int) == Some(sig_package.id)
                    && paired(*final(model), r->Ok_0.id as int, final(model).kind(r->Ok_0.id as int)->ISignalGroup_system_group as int, sys_package.id, name@)
            } else {
                r == Err::<SignalGroup, AutosarAbstractionError>(
                    AutosarAbstractionError::ModelError(ModelError::DuplicateItemName),
                ) && *final(model) == *old(model)
            },
    {
        if sig_package == sys_package {
            return Err(
                AutosarAbstractionError::InvalidParameter(
                    String::from_str("you must use different packages for the ISignalGroup and the SystemSignalGroup"),
                ),
            );
        }
        match (model.kind_at(sig_package.id), model.kind_at(sys_package.id)) {
            (Some(NodeKind::Package), Some(NodeKind::Package)) => {},
            _ => {
                return Err(AutosarAbstractionError::InvalidParameter(String::from_str("invalid package")));
            },
        }
        let name_s = String::from_str(name);
        if model.name_taken(Some(sig_package.id), &name_s) || model.name_taken(Some(sys_package.id), &name_s) {
            return Err(AutosarAbstractionError::ModelError(ModelError::DuplicateItemName));
        }
        let ghost m0 = *model;
        let sys = model.create_named(Some(sys_package.id), NodeKind::SystemSignalGroup, name).unwrap();
        let ghost m1 = *model;
        proof {
            assert forall|j: int|
                m1.valid(j) && crate::model::identifiable(m1.kind(j)) && m1.parent(j) == Some(sig_package.id)
                    implies #[trigger] m1.names()[j] != name@ by {
                if j < m0.nodes().len() {
                    assert(m0.names()[j] == m1.names()[j]);
                }
            }
        }
        let id = model.create_named(Some(sig_package.id), NodeKind::ISignalGroup { system_group: sys }, name).unwrap();
        proof {
            CommunicationModel::lemma_extends_trans(&m0, &m1, model);
            assert(model.nodes()[sys as int] == m1.nodes()[sys as int]);
            assert(model.names()[sys as int] == m1.names()[sys as int]);
        }
        Ok(SignalGroup { id })
    }

    pub fn element(&self) -> (r: Element)
        ensures
            r.id == self.id,
    {
        Element { id: self.id }
    }

    /// Adds `signal` to this group; a signal that is a member already stays a member once.
    pub fn add_signal(&self, model: &mut CommunicationModel, signal: &Signal) -> (r: Result<(), AutosarAbstractionError>)
        requires
            old(model).wf(),
        ensures
            final(model).wf(),
            final(model).extends(old(model)),
            !(old(model).valid(self.id as int) && old(model).kind(self.id as int) is ISignalGroup)
                || !old(model).is_signal(signal.id as int) ==> invalid_parameter(r) && *final(model) == *old(model),
            old(model).valid(self.id as int) && old(model).kind(self.id as int) is ISignalGroup
                && old(model).is_signal(signal.id as int) ==> r is Ok && is_member(*final(model), self.id as int, signal.id as int),
            is_member(*old(model), self.id as int, signal.id as int) ==> *final(model) == *old(model),
    {
        match model.kind_at(self.id) {
            Some(NodeKind::ISignalGroup { .. }) => {},
            _ => {
                return Err(AutosarAbstractionError::InvalidParameter(String::from_str("invalid signal group")));
            },
        }
        match model.kind_at(signal.id) {
            Some(NodeKind::ISignal { .. }) => {},
            _ => {
                return Err(AutosarAbstractionError::InvalidParameter(String::from_str("invalid signal")));
            },
        }
        let members = self.signals(model);
        let mut k: usize = 0;
        while k < members.len()
            invariant
                k <= members.len(),
                forall|j: int| 0 <= j < k ==> #[trigger] members@[j] != *signal,
                model.wf(),
                *model == *old(model),
                model.valid(self.id as int) && model.kind(self.id as int) is ISignalGroup,
                model.is_signal(signal.id as int),
                forall|k2: int| 0 <= k2 < members.len() ==> is_member(*model, self.id as int, #[trigger] members@[k2].id as int),
                forall|i: int| #[trigger] model.is_member_of(i, self.id as int) ==> exists|k2: int|
                    0 <= k2 < members.len() && #[trigger] members@[k2].id == model.kind(i)->GroupMember_signal,
            decreases members.len() - k,
        {
            if members[k] == *signal {
                proof {
                    model.lemma_extends_refl();
                }
                return Ok(());
            }
            k = k + 1;
        }
        proof {
            if is_member(*model, self.id as int, signal.id as int) {
                let i = choose|i: int| #[trigger] model.is_member_of(i, self.id as int) && model.kind(i)->GroupMember_signal == signal.id;
                let j = choose|j: int| 0 <= j < members.len() && #[trigger] members@[j].id == model.kind(i)->GroupMember_signal;
                assert(members@[j] == *signal);
            }
        }
        let ghost m0 = *model;
        let name = model.name_of(signal.element()).unwrap();
        let n = Node { parent: Some(self.id), kind: NodeKind::GroupMember { signal: signal.id } };
        let id = model.push_node(n, name);
        proof {
            CommunicationModel::lemma_push_keeps_wired(&m0, model, n);
            assert(model.nodes()[id as int] == n);
            assert(model.is_member_of(id as int, self.id as int));
        }
        Ok(())
    }

    /// The signals of this group.
    pub fn signals(&self, model: &CommunicationModel) -> (r: Vec<Signal>)
        ensures
            forall|k: int| 0 <= k < r.len() ==> is_member(*model, self.id as int, #[trigger] r@[k].id as int),
            forall|i: int| #[trigger] model.is_member_of(i, self.id as int) ==> exists|k: int|
                0 <= k < r.len() && #[trigger] r@[k].id == model.kind(i)->GroupMember_signal,
    {
        let ids = model.select(Selection::MembersOf(self.id));
        let mut r: Vec<Signal> = Vec::new();
        let mut k: usize = 0;
        while k < ids.len()
            invariant
                k <= ids.len(),
                r.len() == k,
                forall|j: int| 0 <= j < ids.len() ==> #[trigger] model.selects(Selection::MembersOf(self.id), ids@[j] as int),
                forall|j: int| 0 <= j < k ==> #[trigger] r@[j].id == model.kind(ids@[j] as int)->GroupMember_signal,
            decreases ids.len() - k,
        {
            let signal = match model.kind_at(ids[k]) {
                Some(NodeKind::GroupMember { signal }) => signal,
                // never taken: every selected node is a member reference
                _ => {
                    proof {
                        assert(model.selects(Selection::MembersOf(self.id), ids@[k as int] as int));
                    }
                    0
                },
            };
            r.push(Signal { id: signal });
            k = k + 1;
        }
        proof {
            assert forall|j: int| 0 <= j < r.len() implies is_member(*model, self.id as int, #[trigger] r@[j].id as int) by {
                assert(model.selects(Selection::MembersOf(self.id), ids@[j] as int));
                assert(model.is_member_of(ids@[j] as int, self.id as int));
            }
            assert forall|i: int| #[trigger] model.is_member_of(i, self.id as int) implies exists|j: int|
                0 <= j < r.len() && #[trigger] r@[j].id == model.kind(i)->GroupMember_signal by {
                assert(model.selects(Selection::MembersOf(self.id), i));
                let j = choose|j: int| 0 <= j < ids.len() && #[trigger] ids@[j] == i;
                assert(r@[j].id == model.kind(ids@[j] as int)->GroupMember_signal);
            }
        }
        r
    }
}

impl ISignalTriggering {
    pub fn element(&self) -> (r: Element)
        ensures
            r.id == self.id,
    {
        Element { id: self.id }
    }

    /// The channel that this signal triggering belongs to.
    pub fn physical_channel(&self, model: &CommunicationModel) -> (r: Result<
        PhysicalChannel,
        AutosarAbstractionError,
    >)
        requires
            model.wf(),
        ensures
            model.is_signal_triggering(self.id as int) ==> r is Ok && r->Ok_0.id as int == model.channel_of(
                self.id as int,
            ) && model.is_channel(r->Ok_0.id as int),
            !model.is_signal_triggering(self.id as int) ==> r == Err::<PhysicalChannel, AutosarAbstractionError>(
                AutosarAbstractionError::ModelError(ModelError::ItemDeleted),
            ),
    {
        match model.kind_at(self.id) {
            Some(NodeKind::ISignalTriggering { .. }) => {
                proof {
                    assert(model.node_wf(self.id as int));
                    assert(model.node_wf(model.kind(self.id as int)->ISignalTriggering_pdu_triggering as int));
                }
                Ok(PhysicalChannel { id: model.parent_at(self.id).unwrap() })
            },
            _ => Err(AutosarAbstractionError::ModelError(ModelError::ItemDeleted)),
        }
    }

    /// Connects this signal triggering to `ecu` in `direction`: the existing port where there
    /// is one, else a new one at the ECU's connector on the triggering's channel.
    pub fn connect_to_ecu(
        &self,
        model: &mut CommunicationModel,
        ecu: &EcuInstance,
        direction: CommunicationDirection,
    ) -> (r: Result<ISignalPort, AutosarAbstractionError>)
        requires
            old(model).wf_core(),
        ensures
            final(model).wf_core(),
            final(model).grown_by_ports_of(old(model), self.id as int),
            old(model).wired() ==> final(model).wired(),
            signal_connect_result(*old(model), *final(model), self.id as int, ecu.id as int, direction, r),
    {
        match model.kind_at(self.id) {
            Some(NodeKind::ISignalTriggering { .. }) => {},
            _ => {
                return Err(AutosarAbstractionError::InvalidParameter(String::from_str("invalid signal triggering")));
            },
        }
        if let Some(p) = model.find_signal_port(self.id, ecu.id, direction) {
            return Ok(ISignalPort { id: p });
        }
        proof {
            assert(model.node_wf(self.id as int));
        }
        let channel = PhysicalChannel { id: model.parent_at(self.id).unwrap() };
        let connector = match channel.get_ecu_connector_core(model, ecu) {
            Some(c) => c,
            None => {
                return Err(
                    AutosarAbstractionError::InvalidParameter(
                        String::from_str("The ECU is not connected to the channel"),
                    ),
                );
            },
        };
        let name = port_name(model, self.id, direction);
        let ghost m0 = *model;
        let n = Node {
            parent: Some(connector.id),
            kind: NodeKind::ISignalPort { triggering: self.id, ecu: ecu.id, direction },
        };
        let id = model.push_node(n, name);
        proof {
            if m0.wired() {
                CommunicationModel::lemma_push_keeps_wired(&m0, model, n);
            }
        }
        Ok(ISignalPort { id })
    }

    /// The ports of this signal triggering, in the order of their creation.
    pub fn signal_ports(&self, model: &CommunicationModel) -> (r: Vec<ISignalPort>)
        ensures
            forall|k: int| 0 <= k < r.len() ==> #[trigger] model.is_signal_port(
                r@[k].id as int,
                self.id as int,
                model.kind(r@[k].id as int)->ISignalPort_ecu as int,
                model.kind(r@[k].id as int)->ISignalPort_direction,
            ),
            forall|p: int, e: int, d: CommunicationDirection| #[trigger] model.is_signal_port(p, self.id as int, e, d)
                ==> exists|k: int| 0 <= k < r.len() && #[trigger] r@[k].id == p,
    {
        let ids = model.select(Selection::SignalPortsOf(self.id));
        let mut r: Vec<ISignalPort> = Vec::new();
        let mut k: usize = 0;
        while k < ids.len()
            invariant
                k <= ids.len(),
                r.len() == k,
                forall|j: int| 0 <= j < k ==> #[trigger] r@[j].id == ids@[j],
            decreases ids.len() - k,
        {
            r.push(ISignalPort { id: ids[k] });
            k = k + 1;
        }
        proof {
            assert forall|j: int| 0 <= j < r.len() implies #[trigger] model.is_signal_port(
                r@[j].id as int,
                self.id as int,
                model.kind(r@[j].id as int)->ISignalPort_ecu as int,
                model.kind(r@[j].id as int)->ISignalPort_direction,
            ) by {
                assert(r@[j].id == ids@[j]);
                assert(model.selects(Selection::SignalPortsOf(self.id), ids@[j] as int));
            }
            assert forall|p: int, e: int, d: CommunicationDirection| #[trigger] model.is_signal_port(p, self.id as int, e, d)
                implies exists|j: int| 0 <= j < r.len() && #[trigger] r@[j].id == p by {
                assert(model.selects(Selection::SignalPortsOf(self.id), p));
                let j = choose|j: int| 0 <= j < ids.len() && #[trigger] ids@[j] == p;
                assert(r@[j].id == ids@[j]);
            }
        }
        r
    }
}

impl ISignalPort {
    pub fn element(&self) -> (r: Element)
        ensures
            r.id == self.id,
    {
        Element { id: self.id }
    }

    /// The ECU at which this port sits.
    pub fn ecu(&self, model: &CommunicationModel) -> (r: Option<EcuInstance>)
        ensures
            model.valid(self.id as int) && model.kind(self.id as int) is ISignalPort ==> r == Some(
                EcuInstance { id: model.kind(self.id as int)->ISignalPort_ecu },
            ),
            !(model.valid(self.id as int) && model.kind(self.id as int) is ISignalPort) ==> r is None,
    {
        match model.kind_at(self.id) {
            Some(NodeKind::ISignalPort { ecu, .. }) => Some(EcuInstance { id: ecu }),
            _ => None,
        }
    }

    /// The direction of this port.
    pub fn communication_direction(&self, model: &CommunicationModel) -> (r: Option<CommunicationDirection>)
        ensures
            model.valid(self.id as int) && model.kind(self.id as int) is ISignalPort ==> r == Some(
                model.kind(self.id as int)->ISignalPort_direction,
            ),
            !(model.valid(self.id as int) && model.kind(self.id as int) is ISignalPort) ==> r is None,
    {
        match model.kind_at(self.id) {
            Some(NodeKind::ISignalPort { direction, .. }) => Some(direction),
            _ => None,
        }
    }
}

} // verus!

//! PDUs, the mapping of signals into them, PDU triggerings and PDU ports.
use vstd::prelude::*;
use crate::model::{
    AutosarAbstractionError, ByteOrder, CommunicationDirection, CommunicationModel, Element, ModelError, Node,
    NodeKind, PduKind, Selection, TransferProperty,
};
use crate::naming::{first_free, numbered, unique_name};
use crate::signal::{ISignalTriggering, Signal};
use crate::topology::{invalid_parameter, ArPackage, EcuInstance, PhysicalChannel};

verus! {

/// The outcome of creating a PDU of kind `k` named `name` with `length` in `package`.
pub open spec fn pdu_created(
    m0: CommunicationModel,
    m1: CommunicationModel,
    r: Result<usize, AutosarAbstractionError>,
    name: Seq<char>,
    package: ArPackage,
    k: PduKind,
    length: u32,
) -> bool {
    &&& m1.wf()
    &&& m1.extends(&m0)
    &&& !m0.is_package(package.id as int) ==> invalid_parameter(r) && m1 == m0
    &&& m0.is_package(package.id as int) && !m0.name_free(Some(package.id), name) ==> r
        == Err::<usize, AutosarAbstractionError>(AutosarAbstractionError::ModelError(ModelError::DuplicateItemName))
        && m1 == m0
    &&& m0.is_package(package.id as int) && m0.name_free(Some(package.id), name) ==> r is Ok
        && r->Ok_0 as int == m0.nodes().len() && m1.kind(r->Ok_0 as int) == (NodeKind::Pdu { kind: k, length })
        && m1.parent(r->Ok_0 as int) == Some(package.id) && m1.names()[r->Ok_0 as int] == name
        && m1.nodes().len() == m0.nodes().len() + 1
}

fn create_pdu(model: &mut CommunicationModel, name: &str, package: &ArPackage, k: PduKind, length: u32) -> (r:
    Result<usize, AutosarAbstractionError>)
    requires
        old(model).wf(),
    ensures
        pdu_created(*old(model), *final(model), r, name@, *package, k, length),
{
    match model.kind_at(package.id) {
        Some(NodeKind::Package) => {},
        _ => {
            return Err(AutosarAbstractionError::InvalidParameter(String::from_str("invalid package")));
        },
    }
    model.create_named(Some(package.id), NodeKind::Pdu { kind: k, length }, name)
}

/// Represents the IPdus handled by Com.
#[derive(Debug, Clone, Copy, PartialEq, Eq, Structural, Hash)]
pub struct ISignalIPdu {
    pub id: usize,
}

impl ISignalIPdu {
    /// Creates a PDU of this kind named `name` with `length` bytes in `package`.
    pub fn new(model: &mut CommunicationModel, name: &str, package: &ArPackage, length: u32) -> (r: Result<
        ISignalIPdu,
        AutosarAbstractionError,
    >)
        requires
            old(model).wf(),
        ensures
            pdu_created(
                *old(model),
                *final(model),
                match r {
                    Ok(p) => Ok(p.id),
                    Err(e) => Err(e),
                },
                name@,
                *package,
                PduKind::ISignalIPdu,
                length,
            ),
    {
        match create_pdu(model, name, package, PduKind::ISignalIPdu, length) {
            Ok(id) => Ok(ISignalIPdu { id }),
            Err(e) => Err(e),
        }
    }

    pub fn element(&self) -> (r: Element)
        ensures
            r.id == self.id,
    {
        Element { id: self.id }
    }

    /// The node `element` as a PDU of this kind; a conversion error if it is none.
    pub fn try_from_element(model: &CommunicationModel, element: Element) -> (r: Result<
        ISignalIPdu,
        AutosarAbstractionError,
    >)
        ensures
            model.is_pdu_of_kind(element.id as int, PduKind::ISignalIPdu) ==> r == Ok::<ISignalIPdu, AutosarAbstractionError>(
                ISignalIPdu { id: element.id },
            ),
            !model.is_pdu_of_kind(element.id as int, PduKind::ISignalIPdu) ==> r is Err && r->Err_0 is ConversionError
                && r->Err_0->ConversionError_element == element && r->Err_0->ConversionError_dest@ == "ISignalIPdu"@,
    {
        match model.kind_at(element.id) {
            Some(NodeKind::Pdu { kind: PduKind::ISignalIPdu, .. }) => Ok(ISignalIPdu { id: element.id }),
            _ => Err(AutosarAbstractionError::ConversionError { element, dest: String::from_str("ISignalIPdu") }),
        }
    }
}

/// The placement of a signal in an ISignalIPdu.
#[derive(Debug, Clone, Copy, PartialEq, Eq, Structural, Hash)]
pub struct ISignalToIPduMapping {
    pub id: usize,
}

/// `s` is a signal triggering of `t` that `m1` has and `m0` had not.
pub open spec fn new_child(m0: CommunicationModel, m1: CommunicationModel, s: int, t: int) -> bool {
    s >= m0.nodes().len() && m1.is_child_triggering(s, t)
}

/// `s` is a new signal triggering of `signal` in the PDU triggering `t`, wired to exactly the
/// ECUs and directions that `t` had ports for in `m0`.
pub open spec fn new_triggering_for(m0: CommunicationModel, m1: CommunicationModel, s: int, t: int, signal: int) -> bool {
    &&& new_child(m0, m1, s, t)
    &&& m1.kind(s)->ISignalTriggering_signal == signal
    &&& forall|e: int, d: CommunicationDirection| #[trigger] m1.has_signal_port(s, e, d) == m0.has_pdu_port(t, e, d)
}

/// From `m0` to `m1`, mapping into `pdu` added the mapping `mp` last, and before it only signal
/// triggerings in triggerings of `pdu` and ports of those new signal triggerings: the PDU ports
/// and the ports of the signal triggerings that were there stay as they were.
pub open spec fn map_signal_added(m0: CommunicationModel, m1: CommunicationModel, pdu: int, mp: int) -> bool {
    &&& mp == m1.nodes().len() - 1
    &&& mp >= m0.nodes().len()
    &&& forall|i: int| m0.nodes().len() <= i < mp ==> #[trigger] added_for_mapping(m0, m1, pdu, i)
    &&& forall|t: int, e: int, d: CommunicationDirection| #[trigger] m1.has_pdu_port(t, e, d) == m0.has_pdu_port(t, e, d)
    &&& forall|x: int, e: int, d: CommunicationDirection|
        0 <= x < m0.nodes().len() ==> (#[trigger] m1.has_signal_port(x, e, d) == m0.has_signal_port(x, e, d))
}

/// Node `i` of `m1` is a signal triggering in a triggering of `pdu`, or a port of a signal
/// triggering that `m0` did not have.
pub open spec fn added_for_mapping(m0: CommunicationModel, m1: CommunicationModel, pdu: int, i: int) -> bool {
    ||| m1.kind(i) is ISignalTriggering && m0.is_triggering_of_pdu(m1.kind(i)->ISignalTriggering_pdu_triggering as int, pdu)
    ||| m1.kind(i) is ISignalPort && m1.kind(i)->ISignalPort_triggering >= m0.nodes().len()
}

/// From `m0` to `m1`, each triggering of `pdu` got exactly one new signal triggering of
/// `signal`, wired as the PDU triggering was, and no other PDU triggering got any.
pub open spec fn fanned_out(m0: CommunicationModel, m1: CommunicationModel, pdu: int, signal: int) -> bool {
    &&& forall|t: int| #[trigger] m0.is_triggering_of_pdu(t, pdu) ==> exists|s: int| #[trigger] new_triggering_for(m0, m1, s, t, signal)
    &&& forall|s: int, t: int| #[trigger] new_child(m0, m1, s, t) ==> m0.is_triggering_of_pdu(t, pdu)
    &&& forall|s1: int, s2: int, t: int| #[trigger] new_child(m0, m1, s1, t) && #[trigger] new_child(m0, m1, s2, t) ==> s1 == s2
    &&& forall|s: int, t: int| #[trigger] new_child(m0, m1, s, t) ==> triggering_named(m0, m1, s, t, signal, pdu)
}

/// No other triggering of `pdu` is on the channel of its triggering `t`.
pub open spec fn sole_on_channel(m0: CommunicationModel, t: int, pdu: int) -> bool {
    forall|t2: int| #[trigger] m0.is_triggering_of_pdu(t2, pdu) && t2 != t ==> m0.parent(t2) != m0.parent(t)
}

/// The new signal triggering `s` of `signal` in `t` is named `ST_` and the signal's name, with
/// a number added where needed; the name was free on the channel, and it is the plain one where
/// that was free and `t` is the only triggering of `pdu` on the channel.
pub open spec fn triggering_named(m0: CommunicationModel, m1: CommunicationModel, s: int, t: int, signal: int, pdu: int) -> bool {
    let base = triggering_name(signal_triggering_prefix(), m0.names()[signal]);
    &&& m1.names()[s] == base || exists|k: nat| k >= 1 && m1.names()[s] == numbered(base, k)
    &&& m0.name_free(m0.parent(t), m1.names()[s])
    &&& m0.name_free(m0.parent(t), base) && sole_on_channel(m0, t, pdu) ==> m1.names()[s] == base
}

impl ISignalIPdu {
    /// The signal mappings of this PDU, in the order of their creation.
    pub fn mapped_signals(&self, model: &CommunicationModel) -> (r: Vec<ISignalToIPduMapping>)
        ensures
            forall|k: int| 0 <= k < r.len() ==> #[trigger] model.is_mapping_of(r@[k].id as int, self.id as int),
            forall|i: int| #[trigger] model.is_mapping_of(i, self.id as int) ==> exists|k: int| 0 <= k < r.len() && #[trigger] r@[k].id == i,
            forall|k1: int, k2: int| 0 <= k1 < k2 < r.len() ==> #[trigger] r@[k1].id < #[trigger] r@[k2].id,
    {
        let ids = model.select(Selection::MappingsOf(self.id));
        let mut r: Vec<ISignalToIPduMapping> = Vec::new();
        let mut k: usize = 0;
        while k < ids.len()
            invariant
                k <= ids.len(),
                r.len() == k,
                forall|j: int| 0 <= j < k ==> #[trigger] r@[j].id == ids@[j],
            decreases ids.len() - k,
        {
            r.push(ISignalToIPduMapping { id: ids[k] });
            k = k + 1;
        }
        proof {
            assert forall|j: int| 0 <= j < r.len() implies #[trigger] model.is_mapping_of(r@[j].id as int, self.id as int) by {
                assert(r@[j].id == ids@[j]);
                assert(model.selects(Selection::MappingsOf(self.id), ids@[j] as int));
            }
            assert forall|i: int| #[trigger] model.is_mapping_of(i, self.id as int) implies exists|j: int| 0 <= j < r.len() && #[trigger] r@[j].id == i by {
                assert(model.selects(Selection::MappingsOf(self.id), i));
                let j = choose|j: int| 0 <= j < ids.len() && #[trigger] ids@[j] == i;
                assert(r@[j].id == ids@[j]);
            }
            assert forall|k1: int, k2: int| 0 <= k1 < k2 < r.len() implies #[trigger] r@[k1].id < #[trigger] r@[k2].id by {
                assert(r@[k1].id == ids@[k1] && r@[k2].id == ids@[k2]);
            }
        }
        r
    }

    /// Maps `signal` into this PDU at bit `start_position`. Every triggering of this PDU gets a
    /// signal triggering of `signal`, connected to the ECUs that the PDU triggering is connected
    /// to, in the same directions. The mapping is named after the signal, with a number added
    /// where that name is taken in this PDU. Overlap with other mappings is not checked.
    pub fn map_signal(
        &self,
        model: &mut CommunicationModel,
        signal: &Signal,
        start_position: u32,
        byte_order: ByteOrder,
        update_bit: Option<u32>,
        transfer_property: TransferProperty,
    ) -> (r: Result<ISignalToIPduMapping, AutosarAbstractionError>)
        requires
            old(model).wf(),
        ensures
            final(model).wf(),
            final(model).extends(old(model)),
            ({
                let m0 = *old(model);
                let m1 = *final(model);
                let pdu = self.id as int;
                if !m0.is_pdu_of_kind(pdu, PduKind::ISignalIPdu) || !m0.is_signal(signal.id as int) {
                    invalid_parameter(r) && m1 == m0
                } else {
                    let mp = r->Ok_0.id as int;
                    &&& r is Ok
                    &&& m1.is_mapping_of(mp, pdu)
                    &&& m1.kind(mp) == (NodeKind::Mapping {
                        signal: signal.id,
                        start_position,
                        byte_order,
                        update_bit,
                        transfer_property,
                    })
                    &&& first_free(m0.taken_names(Some(self.id)), m0.names()[signal.id as int], m1.names()[mp])
                    &&& map_signal_added(m0, m1, pdu, mp)
                    &&& fanned_out(m0, m1, pdu, signal.id as int)
                }
            }),
    {
        match model.kind_at(self.id) {
            Some(NodeKind::Pdu { kind: PduKind::ISignalIPdu, .. }) => {},
            _ => {
                return Err(AutosarAbstractionError::InvalidParameter(String::from_str("invalid pdu")));
            },
        }
        match model.kind_at(signal.id) {
            Some(NodeKind::ISignal { .. }) => {},
            _ => {
                return Err(AutosarAbstractionError::InvalidParameter(String::from_str("invalid signal")));
            },
        }
        let pts = self.pdu_triggerings(model);
        let ghost m0 = *model;
        let ghost pdu = self.id as int;
        let ghost sig = signal.id as int;
        let mut k: usize = 0;
        let ghost mut sts: Seq<int> = Seq::empty();
        proof {
            m0.lemma_extends_refl();
        }
        while k < pts.len()
            invariant
                model.wf(),
                model.extends(&m0),
                m0.wf(),
                m0.is_pdu_of_kind(pdu, PduKind::ISignalIPdu),
                m0.is_signal(sig),
                pdu == self.id,
                sig == signal.id,
                k <= pts.len(),
                forall|k2: int| 0 <= k2 < pts.len() ==> #[trigger] m0.is_triggering_of_pdu(pts@[k2].id as int, pdu),
                forall|i: int| #[trigger] m0.is_triggering_of_pdu(i, pdu) ==> exists|k2: int| 0 <= k2 < pts.len() && #[trigger] pts@[k2].id == i,
                forall|k1: int, k2: int| 0 <= k1 < k2 < pts.len() ==> #[trigger] pts@[k1].id < #[trigger] pts@[k2].id,
                forall|i: int| m0.nodes().len() <= i < model.nodes().len() ==> #[trigger] added_for_mapping(m0, *model, pdu, i),
                forall|x: int, e: int, d: CommunicationDirection|
                    0 <= x < m0.nodes().len() ==> (#[trigger] model.has_signal_port(x, e, d) == m0.has_signal_port(x, e, d)),
                sts.len() == k,
                forall|j: int| 0 <= j < k ==> #[trigger] triggering_named(m0, *model, sts[j], pts@[j].id as int, sig, pdu),
                forall|j: int| 0 <= j < k ==> #[trigger] new_triggering_for(m0, *model, sts[j], pts@[j].id as int, sig),
                forall|s: int, t: int| #[trigger] new_child(m0, *model, s, t) ==> exists|j: int| 0 <= j < k && #[trigger] pts@[j].id == t,
                forall|s1: int, s2: int, t: int| #[trigger] new_child(m0, *model, s1, t) && #[trigger] new_child(m0, *model, s2, t) ==> s1 == s2,
                forall|t: int, e: int, d: CommunicationDirection| #[trigger] model.has_pdu_port(t, e, d) == m0.has_pdu_port(t, e, d),
            decreases pts.len() - k,
        {
            let pt = pts[k];
            let ghost mb = *model;
            proof {
                assert(m0.is_triggering_of_pdu(pt.id as int, pdu));
                assert(mb.kind(pt.id as int) == m0.kind(pt.id as int));
                assert(mb.kind(sig) == m0.kind(sig));
                assert(mb.is_pdu_triggering(pt.id as int));
                assert(mb.is_signal(sig));
            }
            // Cannot fail: the PDU triggering and the signal both exist.
            let res = pt.add_signal_triggering(model, signal);
            proof {
                let ma = *model;
                let st = res->Ok_0.id as int;
                CommunicationModel::lemma_extends_trans(&m0, &mb, &ma);
                assert(ma.kind(st) is ISignalTriggering);
                assert forall|i: int| m0.nodes().len() <= i < ma.nodes().len() implies #[trigger] added_for_mapping(m0, ma, pdu, i) by {
                    if i < mb.nodes().len() {
                        assert(ma.nodes()[i] == mb.nodes()[i]);
                        assert(added_for_mapping(m0, mb, pdu, i));
                    } else if i > st {
                        assert(ma.kind(i) is ISignalPort);
                    } else {
                        assert(ma.is_child_triggering(st, pt.id as int));
                    }
                }
                // signal ports and PDU ports of nodes other than st are as they were
                assert forall|x: int, e: int, d: CommunicationDirection| x != st implies
                    #[trigger] ma.has_signal_port(x, e, d) == mb.has_signal_port(x, e, d) by {
                    if ma.has_signal_port(x, e, d) {
                        let q = choose|q: int| #[trigger] ma.is_signal_port(q, x, e, d);
                        if q >= mb.nodes().len() {
                            assert(q != st);
                            assert(ma.kind(q)->ISignalPort_triggering == st);
                        }
                        assert(ma.nodes()[q] == mb.nodes()[q]);
                        assert(mb.is_signal_port(q, x, e, d));
                    }
                    if mb.has_signal_port(x, e, d) {
                        let q = choose|q: int| #[trigger] mb.is_signal_port(q, x, e, d);
                        assert(ma.nodes()[q] == mb.nodes()[q]);
                        assert(ma.is_signal_port(q, x, e, d));
                    }
                }
                assert forall|x: int, e: int, d: CommunicationDirection|
                    0 <= x < m0.nodes().len() implies (#[trigger] ma.has_signal_port(x, e, d) == m0.has_signal_port(x, e, d)) by {
                    assert(x != st);
                    assert(ma.has_signal_port(x, e, d) == mb.has_signal_port(x, e, d));
                    assert(mb.has_signal_port(x, e, d) == m0.has_signal_port(x, e, d));
                }
                assert forall|t: int, e: int, d: CommunicationDirection| #[trigger] ma.has_pdu_port(t, e, d) == m0.has_pdu_port(t, e, d) by {
                    if ma.has_pdu_port(t, e, d) {
                        let q = choose|q: int| #[trigger] ma.is_pdu_port(q, t, e, d);
                        if q >= mb.nodes().len() {
                            if q > st {
                                assert(ma.kind(q) is ISignalPort);
                            }
                        }
                        assert(ma.nodes()[q] == mb.nodes()[q]);
                        assert(mb.is_pdu_port(q, t, e, d));
                        assert(mb.has_pdu_port(t, e, d));
                    }
                    if m0.has_pdu_port(t, e, d) {
                        assert(mb.has_pdu_port(t, e, d));
                        let q = choose|q: int| #[trigger] mb.is_pdu_port(q, t, e, d);
                        assert(ma.nodes()[q] == mb.nodes()[q]);
                        assert(ma.is_pdu_port(q, t, e, d));
                    }
                }
                // which signal triggerings are new, and of which PDU triggering
                assert forall|s: int, t: int| #[trigger] new_child(m0, ma, s, t) implies
                    (s == st && t == pt.id) || new_child(m0, mb, s, t) by {
                    if s != st {
                        if s >= mb.nodes().len() {
                            assert(ma.kind(s) is ISignalPort);
                        }
                        assert(ma.nodes()[s] == mb.nodes()[s]);
                    }
                }
                let sts2 = sts.push(st);
                {
                    let t = pt.id as int;
                    let base = triggering_name(signal_triggering_prefix(), m0.names()[sig]);
                    assert(mb.names()[sig] == m0.names()[sig]);
                    assert(mb.parent(t) == m0.parent(t));
                    let nm = ma.names()[st];
                    assert forall|j: int| m0.valid(j) && crate::model::identifiable(m0.kind(j)) && m0.parent(j) == m0.parent(t)
                        implies #[trigger] m0.names()[j] != nm by {
                        assert(mb.names()[j] == m0.names()[j]);
                        assert(mb.nodes()[j] == m0.nodes()[j]);
                        assert(!mb.taken_names(mb.parent(t)).contains(nm));
                    }
                    if m0.name_free(m0.parent(t), base) && sole_on_channel(m0, t, pdu) {
                        assert forall|j: int| mb.valid(j) && crate::model::identifiable(mb.kind(j)) && mb.parent(j) == mb.parent(t)
                            implies #[trigger] mb.names()[j] != base by {
                            if j < m0.nodes().len() {
                                assert(mb.names()[j] == m0.names()[j]);
                                assert(mb.nodes()[j] == m0.nodes()[j]);
                            } else {
                                assert(added_for_mapping(m0, mb, pdu, j));
                                if mb.kind(j) is ISignalTriggering {
                                    let tp = mb.kind(j)->ISignalTriggering_pdu_triggering as int;
                                    assert(mb.node_wf(j));
                                    assert(new_child(m0, mb, j, tp));
                                    let j2 = choose|j2: int| 0 <= j2 < k && #[trigger] pts@[j2].id == tp;
                                    assert(pts@[j2].id < pts@[k as int].id);
                                    assert(m0.is_triggering_of_pdu(tp, pdu));
                                    assert(mb.parent(tp) == m0.parent(tp));
                                }
                            }
                        }
                        assert(!mb.taken_names(mb.parent(t)).contains(base));
                    }
                    assert(triggering_named(m0, ma, st, t, sig, pdu));
                }
                assert forall|j: int| 0 <= j < k + 1 implies #[trigger] triggering_named(m0, ma, sts2[j], pts@[j].id as int, sig, pdu) by {
                    if j < k {
                        assert(sts2[j] == sts[j]);
                        assert(triggering_named(m0, mb, sts[j], pts@[j].id as int, sig, pdu));
                        assert(new_triggering_for(m0, mb, sts[j], pts@[j].id as int, sig));
                        assert(ma.names()[sts[j]] == mb.names()[sts[j]]);
                    } else {
                        assert(sts2[j] == st);
                    }
                }
                assert forall|j: int| 0 <= j < k + 1 implies #[trigger] new_triggering_for(m0, ma, sts2[j], pts@[j].id as int, sig) by {
                    if j < k {
                        let s = sts[j];
                        assert(sts2[j] == s);
                        assert(new_triggering_for(m0, mb, s, pts@[j].id as int, sig));
                        assert(s != st);
                        assert(ma.nodes()[s] == mb.nodes()[s]);
                        assert(new_triggering_for(m0, ma, s, pts@[j].id as int, sig));
                    } else {
                        assert(sts2[j] == st);
                        assert(new_triggering_for(m0, ma, st, pts@[j].id as int, sig));
                    }
                }
                assert forall|s: int, t: int| #[trigger] new_child(m0, ma, s, t) implies exists|j: int| 0 <= j < k + 1 && #[trigger] pts@[j].id == t by {
                    if s == st && t == pt.id {
                        assert(pts@[k as int].id == t);
                    } else {
                        assert(new_child(m0, mb, s, t));
                        let j = choose|j: int| 0 <= j < k && #[trigger] pts@[j].id == t;
                    }
                }
                assert forall|s1: int, s2: int, t: int| #[trigger] new_child(m0, ma, s1, t) && #[trigger] new_child(m0, ma, s2, t) implies s1 == s2 by {
                    if s1 != s2 {
                        if s1 == st {
                            assert(new_child(m0, mb, s2, t));
                            let j = choose|j: int| 0 <= j < k && #[trigger] pts@[j].id == t;
                            assert(pts@[j].id < pts@[k as int].id);
                        } else if s2 == st {
                            assert(new_child(m0, mb, s1, t));
                            let j = choose|j: int| 0 <= j < k && #[trigger] pts@[j].id == t;
                            assert(pts@[j].id < pts@[k as int].id);
                        } else {
                            assert(new_child(m0, mb, s1, t));
                            assert(new_child(m0, mb, s2, t));
                        }
                    }
                }
            }
            proof {
                sts = sts.push(res->Ok_0.id as int);
            }
            k = k + 1;
        }
        let ghost m2 = *model;
        let names = model.child_names(Some(self.id));
        let signal_name = model.name_of(signal.element()).unwrap();
        let name = unique_name(&names, signal_name.as_str());
        proof {
            assert forall|j: int|
                m2.valid(j) && crate::model::identifiable(m2.kind(j)) && m2.parent(j) == Some(self.id)
                    implies #[trigger] m2.names()[j] != name@ by {
                let k = choose|k: int| 0 <= k < names.len() && #[trigger] names@[k]@ == m2.names()[j];
                assert(names@.map_values(|s: String| s@)[k] == m2.names()[j]);
            }
            if m0.name_free(Some(self.id), m0.names()[sig]) {
                assert(m2.names()[sig] == m0.names()[sig]);
                assert forall|j: int|
                    m2.valid(j) && crate::model::identifiable(m2.kind(j)) && m2.parent(j) == Some(self.id)
                        implies #[trigger] m2.names()[j] != signal_name@ by {
                    if j >= m0.nodes().len() {
                        assert(added_for_mapping(m0, m2, pdu, j));
                        assert(m2.node_wf(j));
                        if m2.kind(j) is ISignalTriggering {
                            let t = m2.kind(j)->ISignalTriggering_pdu_triggering as int;
                            assert(m2.node_wf(t));
                            assert(m2.is_channel(m2.parent(t).unwrap() as int));
                        }
                    } else {
                        assert(m2.names()[j] == m0.names()[j]);
                    }
                }
                if crate::naming::name_set(names@).contains(signal_name@) {
                    let ms = names@.map_values(|s: String| s@);
                    let k = choose|k: int| 0 <= k < ms.len() && #[trigger] ms[k] == signal_name@;
                    assert(names@[k]@ == signal_name@);
                }
            }
        }
        let ghost kind = NodeKind::Mapping { signal: signal.id, start_position, byte_order, update_bit, transfer_property };
        let ghost n = Node { parent: Some(self.id), kind };
        let mapping = ISignalToIPduMapping::new(
            model,
            name,
            self,
            signal,
            start_position,
            byte_order,
            update_bit,
            transfer_property,
        );
        let id = mapping.id;
        proof {
            let mf = *model;
            CommunicationModel::lemma_extends_trans(&m0, &m2, &mf);
            assert(mf.nodes()[id as int] == n);
            assert forall|s: int, t: int| #[trigger] new_child(m0, mf, s, t) == new_child(m0, m2, s, t) by {
                if 0 <= s < m2.nodes().len() {
                    assert(mf.nodes()[s] == m2.nodes()[s]);
                }
            }
            assert forall|x: int, e: int, d: CommunicationDirection| #[trigger] mf.has_signal_port(x, e, d) == m2.has_signal_port(x, e, d) by {
                if mf.has_signal_port(x, e, d) {
                    let q = choose|q: int| #[trigger] mf.is_signal_port(q, x, e, d);
                    assert(mf.nodes()[q] == m2.nodes()[q]);
                    assert(m2.is_signal_port(q, x, e, d));
                }
                if m2.has_signal_port(x, e, d) {
                    let q = choose|q: int| #[trigger] m2.is_signal_port(q, x, e, d);
                    assert(mf.nodes()[q] == m2.nodes()[q]);
                    assert(mf.is_signal_port(q, x, e, d));
                }
            }
            assert forall|t: int| #[trigger] m0.is_triggering_of_pdu(t, pdu) implies exists|s: int| #[trigger] new_triggering_for(m0, mf, s, t, sig) by {
                let k2 = choose|k2: int| 0 <= k2 < pts.len() && #[trigger] pts@[k2].id == t;
                let s = sts[k2];
                assert(new_triggering_for(m0, m2, s, pts@[k2].id as int, sig));
                assert(m2.valid(s));
                assert(mf.nodes()[s] == m2.nodes()[s]);
                assert(new_triggering_for(m0, mf, s, t, sig));
            }
            assert forall|s: int, t: int| #[trigger] new_child(m0, mf, s, t) implies m0.is_triggering_of_pdu(t, pdu) by {
                assert(new_child(m0, m2, s, t));
                let j = choose|j: int| 0 <= j < pts.len() && #[trigger] pts@[j].id == t;
            }
            assert forall|s: int, t: int| #[trigger] new_child(m0, mf, s, t) implies triggering_named(m0, mf, s, t, sig, pdu) by {
                assert(new_child(m0, m2, s, t));
                let j = choose|j: int| 0 <= j < pts.len() && #[trigger] pts@[j].id == t;
                assert(new_triggering_for(m0, m2, sts[j], pts@[j].id as int, sig));
                assert(new_child(m0, m2, sts[j], t));
                assert(s == sts[j]);
                assert(triggering_named(m0, m2, sts[j], pts@[j].id as int, sig, pdu));
                assert(mf.names()[s] == m2.names()[s]);
            }
            assert(fanned_out(m0, mf, pdu, sig));
            assert forall|i: int| m0.nodes().len() <= i < id implies #[trigger] added_for_mapping(m0, mf, pdu, i) by {
                assert(added_for_mapping(m0, m2, pdu, i));
                assert(mf.nodes()[i] == m2.nodes()[i]);
            }
            assert forall|t: int, e: int, d: CommunicationDirection| #[trigger] mf.has_pdu_port(t, e, d) == m0.has_pdu_port(t, e, d) by {
                if mf.has_pdu_port(t, e, d) {
                    let q = choose|q: int| #[trigger] mf.is_pdu_port(q, t, e, d);
                    assert(mf.nodes()[q] == m2.nodes()[q]);
                    assert(m2.is_pdu_port(q, t, e, d));
                }
                if m2.has_pdu_port(t, e, d) {
                    let q = choose|q: int| #[trigger] m2.is_pdu_port(q, t, e, d);
                    assert(mf.nodes()[q] == m2.nodes()[q]);
                    assert(mf.is_pdu_port(q, t, e, d));
                }
                assert(m2.has_pdu_port(t, e, d) == m0.has_pdu_port(t, e, d));
            }
            assert forall|x: int, e: int, d: CommunicationDirection|
                0 <= x < m0.nodes().len() implies (#[trigger] mf.has_signal_port(x, e, d) == m0.has_signal_port(x, e, d)) by {
                assert(mf.has_signal_port(x, e, d) == m2.has_signal_port(x, e, d));
                assert(m2.has_signal_port(x, e, d) == m0.has_signal_port(x, e, d));
            }
            assert(map_signal_added(m0, mf, pdu, id as int));
            lemma_sibling_names(m2, Some(self.id), names@);
            assert forall|nm: Seq<char>| #[trigger] m2.taken_names(Some(self.id)).contains(nm) == m0.taken_names(Some(self.id)).contains(nm) by {
                if m2.taken_names(Some(self.id)).contains(nm) {
                    let j = choose|j: int| m2.valid(j) && crate::model::identifiable(m2.kind(j)) && m2.parent(j) == Some(self.id)
                        && #[trigger] m2.names()[j] == nm;
                    if j >= m0.nodes().len() {
                        assert(added_for_mapping(m0, m2, pdu, j));
                        assert(m2.node_wf(j));
                        if m2.kind(j) is ISignalTriggering {
                            let t = m2.kind(j)->ISignalTriggering_pdu_triggering as int;
                            assert(m2.node_wf(t));
                        }
                    } else {
                        assert(m2.names()[j] == m0.names()[j]);
                        assert(m2.nodes()[j] == m0.nodes()[j]);
                    }
                }
                if m0.taken_names(Some(self.id)).contains(nm) {
                    let j = choose|j: int| m0.valid(j) && crate::model::identifiable(m0.kind(j)) && m0.parent(j) == Some(self.id)
                        && #[trigger] m0.names()[j] == nm;
                    assert(m2.names()[j] == m0.names()[j]);
                    assert(m2.nodes()[j] == m0.nodes()[j]);
                }
            }
            assert(m2.taken_names(Some(self.id)) =~= m0.taken_names(Some(self.id)));
            assert(m2.names()[sig] == m0.names()[sig]);
            assert(mf.names()[id as int] == name@);
        }
        Ok(mapping)
    }

    /// The triggerings of this PDU on all channels, in the order of their creation.
    pub fn pdu_triggerings(&self, model: &CommunicationModel) -> (r: Vec<PduTriggering>)
        ensures
            forall|k: int| 0 <= k < r.len() ==> #[trigger] model.is_triggering_of_pdu(r@[k].id as int, self.id as int),
            forall|i: int| #[trigger] model.is_triggering_of_pdu(i, self.id as int) ==> exists|k: int| 0 <= k < r.len() && #[trigger] r@[k].id == i,
            forall|k1: int, k2: int| 0 <= k1 < k2 < r.len() ==> #[trigger] r@[k1].id < #[trigger] r@[k2].id,
    {
        let ids = model.select(Selection::TriggeringsOf(self.id));
        let mut r: Vec<PduTriggering> = Vec::new();
        let mut k: usize = 0;
        while k < ids.len()
            invariant
                k <= ids.len(),
                r.len() == k,
                forall|j: int| 0 <= j < k ==> #[trigger] r@[j].id == ids@[j],
            decreases ids.len() - k,
        {
            r.push(PduTriggering { id: ids[k] });
            k = k + 1;
        }
        proof {
            assert forall|j: int| 0 <= j < r.len() implies #[trigger] model.is_triggering_of_pdu(r@[j].id as int, self.id as int) by {
                assert(r@[j].id == ids@[j]);
                assert(model.selects(Selection::TriggeringsOf(self.id), ids@[j] as int));
            }
            assert forall|i: int| #[trigger] model.is_triggering_of_pdu(i, self.id as int) implies exists|j: int| 0 <= j < r.len() && #[trigger] r@[j].id == i by {
                assert(model.selects(Selection::TriggeringsOf(self.id), i));
                let j = choose|j: int| 0 <= j < ids.len() && #[trigger] ids@[j] == i;
                assert(r@[j].id == ids@[j]);
            }
            assert forall|k1: int, k2: int| 0 <= k1 < k2 < r.len() implies #[trigger] r@[k1].id < #[trigger] r@[k2].id by {
                assert(r@[k1].id == ids@[k1] && r@[k2].id == ids@[k2]);
            }
        }
        r
    }
}

impl From<ISignalIPdu> for Pdu {
    fn from(value: ISignalIPdu) -> (r: Pdu) {
        Pdu::ISignalIPdu(value)
    }
}

impl vstd::std_specs::convert::FromSpecImpl<ISignalIPdu> for Pdu {
    open spec fn obeys_from_spec() -> bool {
        true
    }

    open spec fn from_spec(v: ISignalIPdu) -> Pdu {
        Pdu::ISignalIPdu(v)
    }
}

/// Network Management Pdu.
#[derive(Debug, Clone, Copy, PartialEq, Eq, Structural, Hash)]
pub struct NmPdu {
    pub id: usize,
}

impl NmPdu {
    /// Creates a PDU of this kind named `name` with `length` bytes in `package`.
    pub fn new(model: &mut CommunicationModel, name: &str, package: &ArPackage, length: u32) -> (r: Result<
        NmPdu,
        AutosarAbstractionError,
    >)
        requires
            old(model).wf(),
        ensures
            pdu_created(
                *old(model),
                *final(model),
                match r {
                    Ok(p) => Ok(p.id),
                    Err(e) => Err(e),
                },
                name@,
                *package,
                PduKind::NmPdu,
                length,
            ),
    {
        match create_pdu(model, name, package, PduKind::NmPdu, length) {
            Ok(id) => Ok(NmPdu { id }),
            Err(e) => Err(e),
        }
    }

    pub fn element(&self) -> (r: Element)
        ensures
            r.id == self.id,
    {
        Element { id: self.id }
    }

    /// The node `element` as a PDU of this kind; a conversion error if it is none.
    pub fn try_from_element(model: &CommunicationModel, element: Element) -> (r: Result<
        NmPdu,
        AutosarAbstractionError,
    >)
        ensures
            model.is_pdu_of_kind(element.id as int, PduKind::NmPdu) ==> r == Ok::<NmPdu, AutosarAbstractionError>(
                NmPdu { id: element.id },
            ),
            !model.is_pdu_of_kind(element.id as int, PduKind::NmPdu) ==> r is Err && r->Err_0 is ConversionError
                && r->Err_0->ConversionError_element == element && r->Err_0->ConversionError_dest@ == "NmPdu"@,
    {
        match model.kind_at(element.id) {
            Some(NodeKind::Pdu { kind: PduKind::NmPdu, .. }) => Ok(NmPdu { id: element.id }),
            _ => Err(AutosarAbstractionError::ConversionError { element, dest: String::from_str("NmPdu") }),
        }
    }
}

impl From<NmPdu> for Pdu {
    fn from(value: NmPdu) -> (r: Pdu) {
        Pdu::NmPdu(value)
    }
}

impl vstd::std_specs::convert::FromSpecImpl<NmPdu> for Pdu {
    open spec fn obeys_from_spec() -> bool {
        true
    }

    open spec fn from_spec(v: NmPdu) -> Pdu {
        Pdu::NmPdu(v)
    }
}

/// A Pdu of the transport layer, which segments and reassembles IPdus.
#[derive(Debug, Clone, Copy, PartialEq, Eq, Structural, Hash)]
pub struct NPdu {
    pub id: usize,
}

impl NPdu {
    /// Creates a PDU of this kind named `name` with `length` bytes in `package`.
    pub fn new(model: &mut CommunicationModel, name: &str, package: &ArPackage, length: u32) -> (r: Result<
        NPdu,
        AutosarAbstractionError,
    >)
        requires
            old(model).wf(),
        ensures
            pdu_created(
                *old(model),
                *final(model),
                match r {
                    Ok(p) => Ok(p.id),
                    Err(e) => Err(e),
                },
                name@,
                *package,
                PduKind::NPdu,
                length,
            ),
    {
        match create_pdu(model, name, package, PduKind::NPdu, length) {
            Ok(id) => Ok(NPdu { id }),
            Err(e) => Err(e),
        }
    }

    pub fn element(&self) -> (r: Element)
        ensures
            r.id == self.id,
    {
        Element { id: self.id }
    }

    /// The node `element` as a PDU of this kind; a conversion error if it is none.
    pub fn try_from_element(model: &CommunicationModel, element: Element) -> (r: Result<
        NPdu,
        AutosarAbstractionError,
    >)
        ensures
            model.is_pdu_of_kind(element.id as int, PduKind::NPdu) ==> r == Ok::<NPdu, AutosarAbstractionError>(
                NPdu { id: element.id },
            ),
            !model.is_pdu_of_kind(element.id as int, PduKind::NPdu) ==> r is Err && r->Err_0 is ConversionError
                && r->Err_0->ConversionError_element == element && r->Err_0->ConversionError_dest@ == "NPdu"@,
    {
        match model.kind_at(element.id) {
            Some(NodeKind::Pdu { kind: PduKind::NPdu, .. }) => Ok(NPdu { id: element.id }),
            _ => Err(AutosarAbstractionError::ConversionError { element, dest: String::from_str("NPdu") }),
        }
    }
}

impl From<NPdu> for Pdu {
    fn from(value: NPdu) -> (r: Pdu) {
        Pdu::NPdu(value)
    }
}

impl vstd::std_specs::convert::FromSpecImpl<NPdu> for Pdu {
    open spec fn obeys_from_spec() -> bool {
        true
    }

    open spec fn from_spec(v: NPdu) -> Pdu {
        Pdu::NPdu(v)
    }
}

/// Represents the IPdus handled by Dcm.
#[derive(Debug, Clone, Copy, PartialEq, Eq, Structural, Hash)]
pub struct DcmIPdu {
    pub id: usize,
}

impl DcmIPdu {
    /// Creates a PDU of this kind named `name` with `length` bytes in `package`.
    pub fn new(model: &mut CommunicationModel, name: &str, package: &ArPackage, length: u32) -> (r: Result<
        DcmIPdu,
        AutosarAbstractionError,
    >)
        requires
            old(model).wf(),
        ensures
            pdu_created(
                *old(model),
                *final(model),
                match r {
                    Ok(p) => Ok(p.id),
                    Err(e) => Err(e),
                },
                name@,
                *package,
                PduKind::DcmIPdu,
                length,
            ),
    {
        match create_pdu(model, name, package, PduKind::DcmIPdu, length) {
            Ok(id) => Ok(DcmIPdu { id }),
            Err(e) => Err(e),
        }
    }

    pub fn element(&self) -> (r: Element)
        ensures
            r.id == self.id,
    {
        Element { id: self.id }
    }

    /// The node `element` as a PDU of this kind; a conversion error if it is none.
    pub fn try_from_element(model: &CommunicationModel, element: Element) -> (r: Result<
        DcmIPdu,
        AutosarAbstractionError,
    >)
        ensures
            model.is_pdu_of_kind(element.id as int, PduKind::DcmIPdu) ==> r == Ok::<DcmIPdu, AutosarAbstractionError>(
                DcmIPdu { id: element.id },
            ),
            !model.is_pdu_of_kind(element.id as int, PduKind::DcmIPdu) ==> r is Err && r->Err_0 is ConversionError
                && r->Err_0->ConversionError_element == element && r->Err_0->ConversionError_dest@ == "DcmIPdu"@,
    {
        match model.kind_at(element.id) {
            Some(NodeKind::Pdu { kind: PduKind::DcmIPdu, .. }) => Ok(DcmIPdu { id: element.id }),
            _ => Err(AutosarAbstractionError::ConversionError { element, dest: String::from_str("DcmIPdu") }),
        }
    }
}

impl From<DcmIPdu> for Pdu {
    fn from(value: DcmIPdu) -> (r: Pdu) {
        Pdu::DcmIPdu(value)
    }
}

impl vstd::std_specs::convert::FromSpecImpl<DcmIPdu> for Pdu {
    open spec fn obeys_from_spec() -> bool {
        true
    }

    open spec fn from_spec(v: DcmIPdu) -> Pdu {
        Pdu::DcmIPdu(v)
    }
}

/// A Pdu without additional attributes that is routed by a bus interface.
#[derive(Debug, Clone, Copy, PartialEq, Eq, Structural, Hash)]
pub struct GeneralPurposePdu {
    pub id: usize,
}

impl GeneralPurposePdu {
    /// Creates a PDU of this kind named `name` with `length` bytes in `package`.
    pub fn new(model: &mut CommunicationModel, name: &str, package: &ArPackage, length: u32) -> (r: Result<
        GeneralPurposePdu,
        AutosarAbstractionError,
    >)
        requires
            old(model).wf(),
        ensures
            pdu_created(
                *old(model),
                *final(model),
                match r {
                    Ok(p) => Ok(p.id),
                    Err(e) => Err(e),
                },
                name@,
                *package,
                PduKind::GeneralPurposePdu,
                length,
            ),
    {
        match create_pdu(model, name, package, PduKind::GeneralPurposePdu, length) {
            Ok(id) => Ok(GeneralPurposePdu { id }),
            Err(e) => Err(e),
        }
    }

    pub fn element(&self) -> (r: Element)
        ensures
            r.id == self.id,
    {
        Element { id: self.id }
    }

    /// The node `element` as a PDU of this kind; a conversion error if it is none.
    pub fn try_from_element(model: &CommunicationModel, element: Element) -> (r: Result<
        GeneralPurposePdu,
        AutosarAbstractionError,
    >)
        ensures
            model.is_pdu_of_kind(element.id as int, PduKind::GeneralPurposePdu) ==> r == Ok::<GeneralPurposePdu, AutosarAbstractionError>(
                GeneralPurposePdu { id: element.id },
            ),
            !model.is_pdu_of_kind(element.id as int, PduKind::GeneralPurposePdu) ==> r is Err && r->Err_0 is ConversionError
                && r->Err_0->ConversionError_element == element && r->Err_0->ConversionError_dest@ == "GeneralPurposePdu"@,
    {
        match model.kind_at(element.id) {
            Some(NodeKind::Pdu { kind: PduKind::GeneralPurposePdu, .. }) => Ok(GeneralPurposePdu { id: element.id }),
            _ => Err(AutosarAbstractionError::ConversionError { element, dest: String::from_str("GeneralPurposePdu") }),
        }
    }
}

impl From<GeneralPurposePdu> for Pdu {
    fn from(value: GeneralPurposePdu) -> (r: Pdu) {
        Pdu::GeneralPurposePdu(value)
    }
}

impl vstd::std_specs::convert::FromSpecImpl<GeneralPurposePdu> for Pdu {
    open spec fn obeys_from_spec() -> bool {
        true
    }

    open spec fn from_spec(v: GeneralPurposePdu) -> Pdu {
        Pdu::GeneralPurposePdu(v)
    }
}

/// A Pdu without attributes that is routed by the PduR.
#[derive(Debug, Clone, Copy, PartialEq, Eq, Structural, Hash)]
pub struct GeneralPurposeIPdu {
    pub id: usize,
}

impl GeneralPurposeIPdu {
    /// Creates a PDU of this kind named `name` with `length` bytes in `package`.
    pub fn new(model: &mut CommunicationModel, name: &str, package: &ArPackage, length: u32) -> (r: Result<
        GeneralPurposeIPdu,
        AutosarAbstractionError,
    >)
        requires
            old(model).wf(),
        ensures
            pdu_created(
                *old(model),
                *final(model),
                match r {
                    Ok(p) => Ok(p.id),
                    Err(e) => Err(e),
                },
                name@,
                *package,
                PduKind::GeneralPurposeIPdu,
                length,
            ),
    {
        match create_pdu(model, name, package, PduKind::GeneralPurposeIPdu, length) {
            Ok(id) => Ok(GeneralPurposeIPdu { id }),
            Err(e) => Err(e),
        }
    }

    pub fn element(&self) -> (r: Element)
        ensures
            r.id == self.id,
    {
        Element { id: self.id }
    }

    /// The node `element` as a PDU of this kind; a conversion error if it is none.
    pub fn try_from_element(model: &CommunicationModel, element: Element) -> (r: Result<
        GeneralPurposeIPdu,
        AutosarAbstractionError,
    >)
        ensures
            model.is_pdu_of_kind(element.id as int, PduKind::GeneralPurposeIPdu) ==> r == Ok::<GeneralPurposeIPdu, AutosarAbstractionError>(
                GeneralPurposeIPdu { id: element.id },
            ),
            !model.is_pdu_of_kind(element.id as int, PduKind::GeneralPurposeIPdu) ==> r is Err && r->Err_0 is ConversionError
                && r->Err_0->ConversionError_element == element && r->Err_0->ConversionError_dest@ == "GeneralPurposeIPdu"@,
    {
        match model.kind_at(element.id) {
            Some(NodeKind::Pdu { kind: PduKind::GeneralPurposeIPdu, .. }) => Ok(GeneralPurposeIPdu { id: element.id }),
            _ => Err(AutosarAbstractionError::ConversionError { element, dest: String::from_str("GeneralPurposeIPdu") }),
        }
    }
}

impl From<GeneralPurposeIPdu> for Pdu {
    fn from(value: GeneralPurposeIPdu) -> (r: Pdu) {
        Pdu::GeneralPurposeIPdu(value)
    }
}

impl vstd::std_specs::convert::FromSpecImpl<GeneralPurposeIPdu> for Pdu {
    open spec fn obeys_from_spec() -> bool {
        true
    }

    open spec fn from_spec(v: GeneralPurposeIPdu) -> Pdu {
        Pdu::GeneralPurposeIPdu(v)
    }
}

/// Several IPdus collected in one Pdu.
#[derive(Debug, Clone, Copy, PartialEq, Eq, Structural, Hash)]
pub struct ContainerIPdu {
    pub id: usize,
}

impl ContainerIPdu {
    /// Creates a PDU of this kind named `name` with `length` bytes in `package`.
    pub fn new(model: &mut CommunicationModel, name: &str, package: &ArPackage, length: u32) -> (r: Result<
        ContainerIPdu,
        AutosarAbstractionError,
    >)
        requires
            old(model).wf(),
        ensures
            pdu_created(
                *old(model),
                *final(model),
                match r {
                    Ok(p) => Ok(p.id),
                    Err(e) => Err(e),
                },
                name@,
                *package,
                PduKind::ContainerIPdu,
                length,
            ),
    {
        match create_pdu(model, name, package, PduKind::ContainerIPdu, length) {
            Ok(id) => Ok(ContainerIPdu { id }),
            Err(e) => Err(e),
        }
    }

    pub fn element(&self) -> (r: Element)
        ensures
            r.id == self.id,
    {
        Element { id: self.id }
    }

    /// The node `element` as a PDU of this kind; a conversion error if it is none.
    pub fn try_from_element(model: &CommunicationModel, element: Element) -> (r: Result<
        ContainerIPdu,
        AutosarAbstractionError,
    >)
        ensures
            model.is_pdu_of_kind(element.id as int, PduKind::ContainerIPdu) ==> r == Ok::<ContainerIPdu, AutosarAbstractionError>(
                ContainerIPdu { id: element.id },
            ),
            !model.is_pdu_of_kind(element.id as int, PduKind::ContainerIPdu) ==> r is Err && r->Err_0 is ConversionError
                && r->Err_0->ConversionError_element == element && r->Err_0->ConversionError_dest@ == "ContainerIPdu"@,
    {
        match model.kind_at(element.id) {
            Some(NodeKind::Pdu { kind: PduKind::ContainerIPdu, .. }) => Ok(ContainerIPdu { id: element.id }),
            _ => Err(AutosarAbstractionError::ConversionError { element, dest: String::from_str("ContainerIPdu") }),
        }
    }
}

impl From<ContainerIPdu> for Pdu {
    fn from(value: ContainerIPdu) -> (r: Pdu) {
        Pdu::ContainerIPdu(value)
    }
}

impl vstd::std_specs::convert::FromSpecImpl<ContainerIPdu> for Pdu {
    open spec fn obeys_from_spec() -> bool {
        true
    }

    open spec fn from_spec(v: ContainerIPdu) -> Pdu {
        Pdu::ContainerIPdu(v)
    }
}

/// Wraps an IPdu to protect it from unauthorized manipulation.
#[derive(Debug, Clone, Copy, PartialEq, Eq, Structural, Hash)]
pub struct SecuredIPdu {
    pub id: usize,
}

impl SecuredIPdu {
    /// Creates a PDU of this kind named `name` with `length` bytes in `package`.
    pub fn new(model: &mut CommunicationModel, name: &str, package: &ArPackage, length: u32) -> (r: Result<
        SecuredIPdu,
        AutosarAbstractionError,
    >)
        requires
            old(model).wf(),
        ensures
            pdu_created(
                *old(model),
                *final(model),
                match r {
                    Ok(p) => Ok(p.id),
                    Err(e) => Err(e),
                },
                name@,
                *package,
                PduKind::SecuredIPdu,
                length,
            ),
    {
        match create_pdu(model, name, package, PduKind::SecuredIPdu, length) {
            Ok(id) => Ok(SecuredIPdu { id }),
            Err(e) => Err(e),
        }
    }

    pub fn element(&self) -> (r: Element)
        ensures
            r.id == self.id,
    {
        Element { id: self.id }
    }

    /// The node `element` as a PDU of this kind; a conversion error if it is none.
    pub fn try_from_element(model: &CommunicationModel, element: Element) -> (r: Result<
        SecuredIPdu,
        AutosarAbstractionError,
    >)
        ensures
            model.is_pdu_of_kind(element.id as int, PduKind::SecuredIPdu) ==> r == Ok::<SecuredIPdu, AutosarAbstractionError>(
                SecuredIPdu { id: element.id },
            ),
            !model.is_pdu_of_kind(element.id as int, PduKind::SecuredIPdu) ==> r is Err && r->Err_0 is ConversionError
                && r->Err_0->ConversionError_element == element && r->Err_0->ConversionError_dest@ == "SecuredIPdu"@,
    {
        match model.kind_at(element.id) {
            Some(NodeKind::Pdu { kind: PduKind::SecuredIPdu, .. }) => Ok(SecuredIPdu { id: element.id }),
            _ => Err(AutosarAbstractionError::ConversionError { element, dest: String::from_str("SecuredIPdu") }),
        }
    }
}

impl From<SecuredIPdu> for Pdu {
    fn from(value: SecuredIPdu) -> (r: Pdu) {
        Pdu::SecuredIPdu(value)
    }
}

impl vstd::std_specs::convert::FromSpecImpl<SecuredIPdu> for Pdu {
    open spec fn obeys_from_spec() -> bool {
        true
    }

    open spec fn from_spec(v: SecuredIPdu) -> Pdu {
        Pdu::SecuredIPdu(v)
    }
}

/// A Pdu that contains one of several signal Pdus.
#[derive(Debug, Clone, Copy, PartialEq, Eq, Structural, Hash)]
pub struct MultiplexedIPdu {
    pub id: usize,
}

impl MultiplexedIPdu {
    /// Creates a PDU of this kind named `name` with `length` bytes in `package`.
    pub fn new(model: &mut CommunicationModel, name: &str, package: &ArPackage, length: u32) -> (r: Result<
        MultiplexedIPdu,
        AutosarAbstractionError,
    >)
        requires
            old(model).wf(),
        ensures
            pdu_created(
                *old(model),
                *final(model),
                match r {
                    Ok(p) => Ok(p.id),
                    Err(e) => Err(e),
                },
                name@,
                *package,
                PduKind::MultiplexedIPdu,
                length,
            ),
    {
        match create_pdu(model, name, package, PduKind::MultiplexedIPdu, length) {
            Ok(id) => Ok(MultiplexedIPdu { id }),
            Err(e) => Err(e),
        }
    }

    pub fn element(&self) -> (r: Element)
        ensures
            r.id == self.id,
    {
        Element { id: self.id }
    }

    /// The node `element` as a PDU of this kind; a conversion error if it is none.
    pub fn try_from_element(model: &CommunicationModel, element: Element) -> (r: Result<
        MultiplexedIPdu,
        AutosarAbstractionError,
    >)
        ensures
            model.is_pdu_of_kind(element.id as int, PduKind::MultiplexedIPdu) ==> r == Ok::<MultiplexedIPdu, AutosarAbstractionError>(
                MultiplexedIPdu { id: element.id },
            ),
            !model.is_pdu_of_kind(element.id as int, PduKind::MultiplexedIPdu) ==> r is Err && r->Err_0 is ConversionError
                && r->Err_0->ConversionError_element == element && r->Err_0->ConversionError_dest@ == "MultiplexedIPdu"@,
    {
        match model.kind_at(element.id) {
            Some(NodeKind::Pdu { kind: PduKind::MultiplexedIPdu, .. }) => Ok(MultiplexedIPdu { id: element.id }),
            _ => Err(AutosarAbstractionError::ConversionError { element, dest: String::from_str("MultiplexedIPdu") }),
        }
    }
}

impl From<MultiplexedIPdu> for Pdu {
    fn from(value: MultiplexedIPdu) -> (r: Pdu) {
        Pdu::MultiplexedIPdu(value)
    }
}

impl vstd::std_specs::convert::FromSpecImpl<MultiplexedIPdu> for Pdu {
    open spec fn obeys_from_spec() -> bool {
        true
    }

    open spec fn from_spec(v: MultiplexedIPdu) -> Pdu {
        Pdu::MultiplexedIPdu(v)
    }
}

/// A PDU of any kind.
#[derive(Debug, Clone, Copy, PartialEq, Eq, Structural, Hash)]
pub enum Pdu {
    ISignalIPdu(ISignalIPdu),
    NmPdu(NmPdu),
    NPdu(NPdu),
    DcmIPdu(DcmIPdu),
    GeneralPurposePdu(GeneralPurposePdu),
    GeneralPurposeIPdu(GeneralPurposeIPdu),
    ContainerIPdu(ContainerIPdu),
    SecuredIPdu(SecuredIPdu),
    MultiplexedIPdu(MultiplexedIPdu),
}

impl Pdu {
    /// The index of the node of this PDU.
    pub open spec fn id(self) -> usize {
        match self {
            Pdu::ISignalIPdu(p) => p.id,
            Pdu::NmPdu(p) => p.id,
            Pdu::NPdu(p) => p.id,
            Pdu::DcmIPdu(p) => p.id,
            Pdu::GeneralPurposePdu(p) => p.id,
            Pdu::GeneralPurposeIPdu(p) => p.id,
            Pdu::ContainerIPdu(p) => p.id,
            Pdu::SecuredIPdu(p) => p.id,
            Pdu::MultiplexedIPdu(p) => p.id,
        }
    }

    /// The kind of this PDU.
    pub open spec fn kind(self) -> PduKind {
        match self {
            Pdu::ISignalIPdu(_) => PduKind::ISignalIPdu,
            Pdu::NmPdu(_) => PduKind::NmPdu,
            Pdu::NPdu(_) => PduKind::NPdu,
            Pdu::DcmIPdu(_) => PduKind::DcmIPdu,
            Pdu::GeneralPurposePdu(_) => PduKind::GeneralPurposePdu,
            Pdu::GeneralPurposeIPdu(_) => PduKind::GeneralPurposeIPdu,
            Pdu::ContainerIPdu(_) => PduKind::ContainerIPdu,
            Pdu::SecuredIPdu(_) => PduKind::SecuredIPdu,
            Pdu::MultiplexedIPdu(_) => PduKind::MultiplexedIPdu,
        }
    }

    /// The PDU that node `i` of `model` is, if it is one.
    pub open spec fn at(model: CommunicationModel, i: usize) -> Option<Pdu> {
        if model.is_pdu(i as int) {
            Some(
                match model.kind(i as int)->Pdu_kind {
                    PduKind::ISignalIPdu => Pdu::ISignalIPdu(ISignalIPdu { id: i }),
                    PduKind::NmPdu => Pdu::NmPdu(NmPdu { id: i }),
                    PduKind::NPdu => Pdu::NPdu(NPdu { id: i }),
                    PduKind::DcmIPdu => Pdu::DcmIPdu(DcmIPdu { id: i }),
                    PduKind::GeneralPurposePdu => Pdu::GeneralPurposePdu(GeneralPurposePdu { id: i }),
                    PduKind::GeneralPurposeIPdu => Pdu::GeneralPurposeIPdu(GeneralPurposeIPdu { id: i }),
                    PduKind::ContainerIPdu => Pdu::ContainerIPdu(ContainerIPdu { id: i }),
                    PduKind::SecuredIPdu => Pdu::SecuredIPdu(SecuredIPdu { id: i }),
                    PduKind::MultiplexedIPdu => Pdu::MultiplexedIPdu(MultiplexedIPdu { id: i }),
                },
            )
        } else {
            None
        }
    }

    pub fn element(&self) -> (r: Element)
        ensures
            r.id == self.id(),
    {
        match self {
            Pdu::ISignalIPdu(pdu) => pdu.element(),
            Pdu::NmPdu(pdu) => pdu.element(),
            Pdu::NPdu(pdu) => pdu.element(),
            Pdu::DcmIPdu(pdu) => pdu.element(),
            Pdu::GeneralPurposePdu(pdu) => pdu.element(),
            Pdu::GeneralPurposeIPdu(pdu) => pdu.element(),
            Pdu::ContainerIPdu(pdu) => pdu.element(),
            Pdu::SecuredIPdu(pdu) => pdu.element(),
            Pdu::MultiplexedIPdu(pdu) => pdu.element(),
        }
    }

    /// The node `element` as a PDU; a conversion error if it is none.
    pub fn try_from_element(model: &CommunicationModel, element: Element) -> (r: Result<Pdu, AutosarAbstractionError>)
        ensures
            Pdu::at(*model, element.id) is Some ==> r == Ok::<Pdu, AutosarAbstractionError>(
                Pdu::at(*model, element.id).unwrap(),
            ),
            Pdu::at(*model, element.id) is None ==> r is Err && r->Err_0 is ConversionError
                && r->Err_0->ConversionError_element == element && r->Err_0->ConversionError_dest@ == "Pdu"@,
    {
        match model.kind_at(element.id) {
            Some(NodeKind::Pdu { kind, .. }) => Ok(
                match kind {
                    PduKind::ISignalIPdu => Pdu::ISignalIPdu(ISignalIPdu { id: element.id }),
                    PduKind::NmPdu => Pdu::NmPdu(NmPdu { id: element.id }),
                    PduKind::NPdu => Pdu::NPdu(NPdu { id: element.id }),
                    PduKind::DcmIPdu => Pdu::DcmIPdu(DcmIPdu { id: element.id }),
                    PduKind::GeneralPurposePdu => Pdu::GeneralPurposePdu(GeneralPurposePdu { id: element.id }),
                    PduKind::GeneralPurposeIPdu => Pdu::GeneralPurposeIPdu(GeneralPurposeIPdu { id: element.id }),
                    PduKind::ContainerIPdu => Pdu::ContainerIPdu(ContainerIPdu { id: element.id }),
                    PduKind::SecuredIPdu => Pdu::SecuredIPdu(SecuredIPdu { id: element.id }),
                    PduKind::MultiplexedIPdu => Pdu::MultiplexedIPdu(MultiplexedIPdu { id: element.id }),
                },
            ),
            _ => Err(AutosarAbstractionError::ConversionError { element, dest: String::from_str("Pdu") }),
        }
    }
}

/// A PDU made as a variant, taken into the union and converted back from its node, is the
/// PDU it was; a node that is no PDU converts to none.
pub proof fn lemma_pdu_round_trip(model: CommunicationModel, p: Pdu, other: usize)
    requires
        model.is_pdu_of_kind(p.id() as int, p.kind()),
        !model.is_pdu(other as int),
    ensures
        Pdu::at(model, p.id()) == Some(p),
        Pdu::at(model, other) is None,
{
}

/// A PDU transmitted on a channel.
#[derive(Debug, Clone, Copy, PartialEq, Eq, Structural, Hash)]
pub struct PduTriggering {
    pub id: usize,
}

/// The endpoint of a PDU triggering at one ECU.
#[derive(Debug, Clone, Copy, PartialEq, Eq, Structural, Hash)]
pub struct IPduPort {
    pub id: usize,
}

/// The names collected from the children of `parent` are the names taken under `parent`.
proof fn lemma_sibling_names(m: CommunicationModel, parent: Option<usize>, siblings: Seq<String>)
    requires
        forall|j: int| m.valid(j) && crate::model::identifiable(m.kind(j)) && m.parent(j) == parent
            ==> exists|k: int| 0 <= k < siblings.len() && #[trigger] siblings[k]@ == m.names()[j],
        forall|k: int| 0 <= k < siblings.len() ==> !m.name_free(parent, #[trigger] siblings[k]@),
    ensures
        crate::naming::name_set(siblings) == m.taken_names(parent),
{
    let ms = siblings.map_values(|s: String| s@);
    assert forall|n: Seq<char>| crate::naming::name_set(siblings).contains(n) <==> #[trigger] m.taken_names(parent).contains(n) by {
        if crate::naming::name_set(siblings).contains(n) {
            let k = choose|k: int| 0 <= k < ms.len() && #[trigger] ms[k] == n;
            assert(siblings[k]@ == n);
        }
        if m.taken_names(parent).contains(n) {
            let j = choose|j: int| m.valid(j) && crate::model::identifiable(m.kind(j)) && m.parent(j) == parent
                && #[trigger] m.names()[j] == n;
            let k = choose|k: int| 0 <= k < siblings.len() && #[trigger] siblings[k]@ == m.names()[j];
            assert(ms[k] == n);
        }
    }
    assert(crate::naming::name_set(siblings) =~= m.taken_names(parent));
}

/// The text that the names of signal triggerings start with.
pub open spec fn signal_triggering_prefix() -> Seq<char> {
    Seq::empty().push('S').push('T').push('_')
}

/// The text that the names of PDU triggerings start with.
pub open spec fn pdu_triggering_prefix() -> Seq<char> {
    Seq::empty().push('P').push('T').push('_')
}

/// The name that a triggering of an element named `name` is given, unless it is taken.
pub open spec fn triggering_name(prefix: Seq<char>, name: Seq<char>) -> Seq<char> {
    prefix + name
}

/// `prefix` followed by the name of node `i`.
fn prefixed_name(model: &CommunicationModel, prefix: &str, i: usize) -> (r: String)
    requires
        model.wf_core(),
        model.valid(i as int),
    ensures
        r@ == prefix@ + model.names()[i as int],
{
    let mut r = String::from_str(prefix);
    let name = model.name_of(Element { id: i }).unwrap();
    r.append(name.as_str());
    r
}

/// What connecting the PDU triggering `t` to ECU `e` in direction `d` does, from `m0` to `m1`.
pub open spec fn pdu_connect_result(
    m0: CommunicationModel,
    m1: CommunicationModel,
    t: int,
    e: int,
    d: CommunicationDirection,
    r: Result<IPduPort, AutosarAbstractionError>,
) -> bool {
    &&& m1.extends(&m0)
    &&& if !m0.is_pdu_triggering(t) {
        invalid_parameter(r) && m1 == m0
    } else if m0.has_pdu_port(t, e, d) {
        r is Ok && m0.is_pdu_port(r->Ok_0.id as int, t, e, d) && m1 == m0
    } else if !m0.connected(m0.channel_of(t), e) {
        invalid_parameter(r) && m1 == m0
    } else {
        &&& r is Ok
        &&& r->Ok_0.id as int == m0.nodes().len()
        &&& m1.is_pdu_port(r->Ok_0.id as int, t, e, d)
        &&& m1.names()[r->Ok_0.id as int] == m0.names()[t] + crate::signal::direction_suffix(d)
        &&& forall|i: int| m0.nodes().len() < i < m1.nodes().len() ==> added_child_port(m1, i, t, e, d)
    }
}

/// Node `i` of `m` is a port at `e` in direction `d` of a signal triggering of `t`.
pub open spec fn added_child_port(m: CommunicationModel, i: int, t: int, e: int, d: CommunicationDirection) -> bool {
    &&& m.valid(i)
    &&& m.kind(i) is ISignalPort
    &&& m.is_signal_port(i, m.kind(i)->ISignalPort_triggering as int, e, d)
    &&& m.is_child_triggering(m.kind(i)->ISignalPort_triggering as int, t)
}

/// Connecting a PDU triggering to an ECU in a direction a second time returns the port of the
/// first time and changes nothing.
pub proof fn lemma_pdu_connect_idempotent(
    m0: CommunicationModel,
    m1: CommunicationModel,
    m2: CommunicationModel,
    t: int,
    e: int,
    d: CommunicationDirection,
    r1: Result<IPduPort, AutosarAbstractionError>,
    r2: Result<IPduPort, AutosarAbstractionError>,
)
    requires
        m0.wf(),
        m1.wf(),
        pdu_connect_result(m0, m1, t, e, d, r1),
        pdu_connect_result(m1, m2, t, e, d, r2),
        r1 is Ok,
    ensures
        r2 == r1,
        m2 == m1,
{
    let p = r1->Ok_0.id as int;
    assert(m1.is_pdu_port(p, t, e, d));
    assert(m1.has_pdu_port(t, e, d));
    assert(m1.is_pdu_port(r2->Ok_0.id as int, t, e, d));
}

/// Two mappings of one PDU never share a name, also where they map signals of the same name:
/// the later one is named with a number added.
pub proof fn lemma_mapping_names_distinct(m: CommunicationModel, pdu: int, a: int, b: int)
    requires
        m.wf(),
        m.is_mapping_of(a, pdu),
        m.is_mapping_of(b, pdu),
        a != b,
    ensures
        m.names()[a] != m.names()[b],
{
}

impl ISignalTriggering {
    /// Creates a signal triggering of `signal` in `pdu_triggering`, on the channel of the PDU
    /// triggering, named after the signal, with a number added where that name is taken on the
    /// channel. It has no ports yet.
    pub(crate) fn new(model: &mut CommunicationModel, signal: &Signal, pdu_triggering: &PduTriggering) -> (res:
        Result<ISignalTriggering, AutosarAbstractionError>)
        requires
            old(model).wf(),
        ensures
            !old(model).is_pdu_triggering(pdu_triggering.id as int) || !old(model).is_signal(signal.id as int)
                ==> invalid_parameter(res) && *final(model) == *old(model),
            old(model).is_pdu_triggering(pdu_triggering.id as int) && old(model).is_signal(signal.id as int) ==> res is Ok,
            res is Ok ==> ({
                let r = res->Ok_0;
            &&& r.id as int == old(model).nodes().len()
            &&& final(model).nodes() == old(model).nodes().push(
                Node {
                    parent: old(model).parent(pdu_triggering.id as int),
                    kind: NodeKind::ISignalTriggering { pdu_triggering: pdu_triggering.id, signal: signal.id },
                },
            )
            &&& final(model).names() == old(model).names().push(final(model).names()[r.id as int])
            &&& final(model).wf_core()
            &&& final(model).wired_except(r.id as int)
            &&& final(model).extends(old(model))
            &&& forall|e: int, d: CommunicationDirection| !#[trigger] final(model).has_signal_port(r.id as int, e, d)
            &&& first_free(
                old(model).taken_names(old(model).parent(pdu_triggering.id as int)),
                triggering_name(signal_triggering_prefix(), old(model).names()[signal.id as int]),
                final(model).names()[r.id as int],
            )
            }),
            res is Err ==> final(model).wf(),
    {
        let t = pdu_triggering.id;
        match model.kind_at(t) {
            Some(NodeKind::PduTriggering { .. }) => {},
            _ => {
                return Err(AutosarAbstractionError::InvalidParameter(String::from_str("invalid pdu triggering")));
            },
        }
        match model.kind_at(signal.id) {
            Some(NodeKind::ISignal { .. }) => {},
            _ => {
                return Err(AutosarAbstractionError::InvalidParameter(String::from_str("invalid signal")));
            },
        }
        let ghost m0 = *model;
        proof {
            reveal_strlit("ST_");
            assert(model.node_wf(t as int));
        }
        let channel = model.parent_at(t).unwrap();
        let base = prefixed_name(model, "ST_", signal.id);
        let siblings = model.child_names(Some(channel));
        let name = unique_name(&siblings, base.as_str());
        proof {
            lemma_sibling_names(m0, Some(channel), siblings@);
            assert forall|j: int|
                m0.valid(j) && crate::model::identifiable(m0.kind(j)) && m0.parent(j) == Some(channel)
                    implies #[trigger] m0.names()[j] != name@ by {
                let k = choose|k: int| 0 <= k < siblings.len() && #[trigger] siblings@[k]@ == m0.names()[j];
                assert(siblings@.map_values(|s: String| s@)[k] == m0.names()[j]);
            }
            if m0.name_free(Some(channel), base@) {
                if crate::naming::name_set(siblings@).contains(base@) {
                    let ms = siblings@.map_values(|s: String| s@);
                    let k = choose|k: int| 0 <= k < ms.len() && #[trigger] ms[k] == base@;
                    assert(siblings@[k]@ == base@);
                }
            }
        }
        let n = Node { parent: Some(channel), kind: NodeKind::ISignalTriggering { pdu_triggering: t, signal: signal.id } };
        let st_id = model.push_node(n, name);
        let ghost m1 = *model;
        proof {
            assert(m1.nodes()[st_id as int] == n);
            assert(m1.names()[st_id as int] == name@);
            assert forall|s: int, t2: int, e: int, d: CommunicationDirection|
                #[trigger] m1.is_child_triggering(s, t2) && #[trigger] m1.has_pdu_port(t2, e, d) && s != st_id
                    implies m1.has_signal_port(s, e, d) by {
                let p = choose|p: int| #[trigger] m1.is_pdu_port(p, t2, e, d);
                assert(m0.is_pdu_port(p, t2, e, d));
                assert(m0.is_child_triggering(s, t2));
                assert(m0.has_pdu_port(t2, e, d));
                let q = choose|q: int| #[trigger] m0.is_signal_port(q, s, e, d);
                assert(m1.is_signal_port(q, s, e, d));
            }
            assert forall|e: int, d: CommunicationDirection| #[trigger] m1.has_signal_port(st_id as int, e, d) implies false by {
                let q = choose|q: int| #[trigger] m1.is_signal_port(q, st_id as int, e, d);
                assert(q != st_id);
                assert(m0.node_wf(q));
            }
            assert(base@ =~= triggering_name(signal_triggering_prefix(), m0.names()[signal.id as int]));
        }
        Ok(ISignalTriggering { id: st_id })
    }
}

/// `ms` lists the signal mappings of `pdu` in `m0` in the order of their creation, and `m1` is
/// `m0` followed by the PDU triggering `t` and, for each of those mappings in turn, one signal
/// triggering of its signal in `t`, and nothing else: no ports in particular.
pub open spec fn backfill_exact(m0: CommunicationModel, m1: CommunicationModel, t: int, pdu: int, ms: Seq<int>) -> bool {
    &&& t == m0.nodes().len()
    &&& forall|j: int| 0 <= j < ms.len() ==> #[trigger] m0.is_mapping_of(ms[j], pdu)
    &&& forall|i: int| #[trigger] m0.is_mapping_of(i, pdu) ==> exists|j: int| 0 <= j < ms.len() && #[trigger] ms[j] == i
    &&& forall|j1: int, j2: int| 0 <= j1 < j2 < ms.len() ==> #[trigger] ms[j1] < #[trigger] ms[j2]
    &&& m1.nodes().len() == t + 1 + ms.len()
    &&& forall|j: int| #![trigger ms[j]] 0 <= j < ms.len() ==> m1.kind(t + 1 + j) == (NodeKind::ISignalTriggering {
        pdu_triggering: t as usize,
        signal: m0.kind(ms[j])->Mapping_signal,
    })
}

/// Every signal mapped into `pdu` in `m0` has a signal triggering in `t` in `m1`.
pub open spec fn backfilled(m0: CommunicationModel, m1: CommunicationModel, t: int, pdu: int) -> bool {
    forall|i: int| #[trigger] m0.is_mapping_of(i, pdu) ==> exists|s: int|
        #[trigger] m1.is_child_triggering(s, t) && m1.kind(s)->ISignalTriggering_signal == m0.kind(i)->Mapping_signal
}

impl PduTriggering {
    /// Triggers `pdu` on `channel`: a PDU triggering named after the PDU, with a number added
    /// where that name is taken on the channel. Where the PDU is an ISignalIPdu, every signal
    /// mapped into it gets a signal triggering in the new PDU triggering.
    pub fn new(model: &mut CommunicationModel, pdu: &Pdu, channel: &PhysicalChannel) -> (r: Result<
        PduTriggering,
        AutosarAbstractionError,
    >)
        requires
            old(model).wf(),
        ensures
            final(model).wf(),
            final(model).extends(old(model)),
            ({
                let m0 = *old(model);
                let m1 = *final(model);
                if !m0.is_channel(channel.id as int) || Pdu::at(m0, pdu.id()) != Some(*pdu) {
                    invalid_parameter(r) && m1 == m0
                } else {
                    let t = r->Ok_0.id as int;
                    &&& r is Ok
                    &&& t == m0.nodes().len()
                    &&& m1.is_triggering_of_pdu(t, pdu.id() as int)
                    &&& m1.channel_of(t) == channel.id
                    &&& first_free(
                        m0.taken_names(Some(channel.id)),
                        triggering_name(pdu_triggering_prefix(), m0.names()[pdu.id() as int]),
                        m1.names()[t],
                    )
                    &&& forall|e: int, d: CommunicationDirection| !m1.has_pdu_port(t, e, d)
                    &&& backfilled(m0, m1, t, pdu.id() as int)
                    &&& exists|ms: Seq<int>| #[trigger] backfill_exact(m0, m1, t, pdu.id() as int, ms)
                    &&& forall|x: int| #[trigger] m1.is_child_triggering(x, t) ==> t < x
                }
            }),
    {
        match model.kind_at(channel.id) {
            Some(NodeKind::PhysicalChannel) => {},
            _ => {
                return Err(AutosarAbstractionError::InvalidParameter(String::from_str("invalid channel")));
            },
        }
        let pdu_id = pdu.element().id;
        match Pdu::try_from_element(model, Element { id: pdu_id }) {
            Ok(p) => {
                if p != *pdu {
                    return Err(AutosarAbstractionError::InvalidParameter(String::from_str("invalid pdu")));
                }
            },
            Err(_) => {
                return Err(AutosarAbstractionError::InvalidParameter(String::from_str("invalid pdu")));
            },
        }
        proof {
            reveal_strlit("PT_");
        }
        let base = prefixed_name(model, "PT_", pdu_id);
        let siblings = model.child_names(Some(channel.id));
        let name = unique_name(&siblings, base.as_str());
        let ghost m0 = *model;
        proof {
            lemma_sibling_names(m0, Some(channel.id), siblings@);
            assert forall|j: int|
                m0.valid(j) && crate::model::identifiable(m0.kind(j)) && m0.parent(j) == Some(channel.id)
                    implies #[trigger] m0.names()[j] != name@ by {
                let k = choose|k: int| 0 <= k < siblings.len() && #[trigger] siblings@[k]@ == m0.names()[j];
                assert(siblings@.map_values(|s: String| s@)[k] == m0.names()[j]);
            }
            if m0.name_free(Some(channel.id), base@) {
                if crate::naming::name_set(siblings@).contains(base@) {
                    let ms = siblings@.map_values(|s: String| s@);
                    let k = choose|k: int| 0 <= k < ms.len() && #[trigger] ms[k] == base@;
                    assert(siblings@[k]@ == base@);
                }
            }
            assert(base@ =~= triggering_name(pdu_triggering_prefix(), m0.names()[pdu_id as int]));
        }
        let n = Node { parent: Some(channel.id), kind: NodeKind::PduTriggering { pdu: pdu_id } };
        let t = model.push_node(n, name);
        let pt = PduTriggering { id: t };
        let ghost m1 = *model;
        proof {
            CommunicationModel::lemma_push_keeps_wired(&m0, &m1, n);
            assert(m1.nodes()[t as int] == n);
            assert forall|e: int, d: CommunicationDirection| !m1.has_pdu_port(t as int, e, d) by {
                if m1.has_pdu_port(t as int, e, d) {
                    let p = choose|p: int| #[trigger] m1.is_pdu_port(p, t as int, e, d);
                    assert(p != t);
                    assert(m0.node_wf(p));
                }
            }
        }
        if let Pdu::ISignalIPdu(ipdu) = pdu {
            let mappings = ipdu.mapped_signals(model);
            let mut k: usize = 0;
            proof {
                m1.lemma_extends_refl();
            }
            while k < mappings.len()
                invariant
                    model.wf(),
                    model.extends(&m1),
                    m1.extends(&m0),
                    m1.wf(),
                    m1.nodes()[t as int] == n,
                    m1.is_triggering_of_pdu(t as int, pdu_id as int),
                    m1.channel_of(t as int) == channel.id,
                    m1.names()[t as int] == name@,
                    ipdu.id == pdu_id,
                    pt.id == t,
                    m0.nodes().len() == t,
                    k <= mappings.len(),
                    forall|j: int| 0 <= j < mappings.len() ==> #[trigger] m1.is_mapping_of(mappings@[j].id as int, pdu_id as int),
                    forall|i: int| #[trigger] m1.is_mapping_of(i, pdu_id as int) ==> exists|j: int| 0 <= j < mappings.len() && #[trigger] mappings@[j].id == i,
                    forall|j: int| #![trigger mappings@[j]] 0 <= j < k ==> exists|s: int| #[trigger] model.is_child_triggering(s, t as int)
                        && model.kind(s)->ISignalTriggering_signal == m1.kind(mappings@[j].id as int)->Mapping_signal,
                    forall|e: int, d: CommunicationDirection| !#[trigger] model.has_pdu_port(t as int, e, d),
                    forall|k1: int, k2: int| 0 <= k1 < k2 < mappings.len() ==> #[trigger] mappings@[k1].id < #[trigger] mappings@[k2].id,
                    model.nodes().len() == m1.nodes().len() + k,
                    forall|j: int| #![trigger mappings@[j]] 0 <= j < k ==> model.kind(m1.nodes().len() + j) == (NodeKind::ISignalTriggering {
                        pdu_triggering: t,
                        signal: m1.kind(mappings@[j].id as int)->Mapping_signal,
                    }),
                decreases mappings.len() - k,
            {
                let mp = mappings[k];
                let ghost mb = *model;
                proof {
                    assert(m1.is_mapping_of(mp.id as int, pdu_id as int));
                    assert(m1.node_wf(mp.id as int));
                    assert(mb.kind(mp.id as int) == m1.kind(mp.id as int));
                    assert(mb.kind(t as int) == m1.kind(t as int));
                    assert(mb.valid(mp.id as int) && mb.kind(mp.id as int) is Mapping);
                }
                if let Some(signal) = mp.signal(model) {
                    let ghost sig = signal.id as int;
                    proof {
                        assert(mb.is_signal(sig));
                        assert(mb.is_pdu_triggering(t as int));
                    }
                    // Cannot fail: the PDU triggering and the signal both exist.
                    let res = pt.add_signal_triggering(model, &signal);
                    proof {
                        let ma = *model;
                        let st = res->Ok_0.id as int;
                        assert(mb.is_pdu_triggering(pt.id as int));
                        assert(mb.is_signal(signal.id as int));
                        assert(res is Ok);
                        assert(ma.is_child_triggering(st, t as int));
                        assert forall|j: int| #![trigger mappings@[j]] 0 <= j < k + 1 implies exists|s: int| #[trigger] ma.is_child_triggering(s, t as int)
                            && ma.kind(s)->ISignalTriggering_signal == m1.kind(mappings@[j].id as int)->Mapping_signal by {
                            if j < k {
                                let s = choose|s: int| #[trigger] mb.is_child_triggering(s, t as int)
                                    && mb.kind(s)->ISignalTriggering_signal == m1.kind(mappings@[j].id as int)->Mapping_signal;
                                assert(ma.nodes()[s] == mb.nodes()[s]);
                                assert(ma.is_child_triggering(s, t as int));
                            } else {
                                assert(ma.is_child_triggering(st, t as int));
                            }
                        }
                        assert forall|e: int, d: CommunicationDirection| !#[trigger] ma.has_pdu_port(t as int, e, d) by {
                            if ma.has_pdu_port(t as int, e, d) {
                                let p = choose|p: int| #[trigger] ma.is_pdu_port(p, t as int, e, d);
                                if p < mb.nodes().len() {
                                    assert(ma.nodes()[p] == mb.nodes()[p]);
                                    assert(mb.is_pdu_port(p, t as int, e, d));
                                } else if p > st {
                                    assert(ma.kind(p) is ISignalPort);
                                }
                            }
                        }
                        CommunicationModel::lemma_extends_trans(&m1, &mb, &ma);
                        if ma.nodes().len() > mb.nodes().len() + 1 {
                            let q = mb.nodes().len() as int + 1;
                            assert(ma.kind(q) is ISignalPort && ma.kind(q)->ISignalPort_triggering == st);
                            assert(ma.is_signal_port(q, st, ma.kind(q)->ISignalPort_ecu as int, ma.kind(q)->ISignalPort_direction));
                            assert(ma.has_signal_port(st, ma.kind(q)->ISignalPort_ecu as int, ma.kind(q)->ISignalPort_direction));
                            assert(mb.has_pdu_port(t as int, ma.kind(q)->ISignalPort_ecu as int, ma.kind(q)->ISignalPort_direction));
                        }
                        assert(ma.kind(st) == (NodeKind::ISignalTriggering {
                            pdu_triggering: t,
                            signal: m1.kind(mappings@[k as int].id as int)->Mapping_signal,
                        }));
                        assert forall|j: int| #![trigger mappings@[j]] 0 <= j < k ==> ma.kind(m1.nodes().len() + j) == (NodeKind::ISignalTriggering {
                            pdu_triggering: t,
                            signal: m1.kind(mappings@[j].id as int)->Mapping_signal,
                        }) by {
                            if 0 <= j < k {
                                assert(ma.nodes()[m1.nodes().len() + j] == mb.nodes()[m1.nodes().len() + j]);
                            }
                        }
                    }
                }
                k = k + 1;
            }
            proof {
                let mf = *model;
                assert forall|i: int| #[trigger] m0.is_mapping_of(i, pdu_id as int) implies exists|s: int|
                    #[trigger] mf.is_child_triggering(s, t as int) && mf.kind(s)->ISignalTriggering_signal
                        == m0.kind(i)->Mapping_signal by {
                    assert(m1.nodes()[i] == m0.nodes()[i]);
                    assert(m1.is_mapping_of(i, pdu_id as int));
                    let j = choose|j: int| 0 <= j < mappings.len() && #[trigger] mappings@[j].id == i;
                    assert(mappings@[j].id == i);
                }
                CommunicationModel::lemma_extends_trans(&m0, &m1, &mf);
                assert(mf.nodes()[t as int] == n);
                let ms = mappings@.map_values(|m: ISignalToIPduMapping| m.id as int);
                assert forall|j: int| 0 <= j < ms.len() implies #[trigger] m0.is_mapping_of(ms[j], pdu_id as int) by {
                    assert(m1.is_mapping_of(mappings@[j].id as int, pdu_id as int));
                    assert(ms[j] != t);
                    assert(m1.nodes()[ms[j]] == m0.nodes()[ms[j]]);
                }
                assert forall|i: int| #[trigger] m0.is_mapping_of(i, pdu_id as int) implies exists|j: int| 0 <= j < ms.len() && #[trigger] ms[j] == i by {
                    assert(m1.nodes()[i] == m0.nodes()[i]);
                    assert(m1.is_mapping_of(i, pdu_id as int));
                    let j = choose|j: int| 0 <= j < mappings.len() && #[trigger] mappings@[j].id == i;
                    assert(ms[j] == i);
                }
                assert forall|j1: int, j2: int| 0 <= j1 < j2 < ms.len() implies #[trigger] ms[j1] < #[trigger] ms[j2] by {
                    assert(mappings@[j1].id < mappings@[j2].id);
                }
                assert forall|j: int| #![trigger ms[j]] 0 <= j < ms.len() implies mf.kind(t + 1 + j) == (NodeKind::ISignalTriggering {
                    pdu_triggering: t,
                    signal: m0.kind(ms[j])->Mapping_signal,
                }) by {
                    assert(mappings@[j].id as int == ms[j]);
                    assert(m1.is_mapping_of(ms[j], pdu_id as int));
                    assert(ms[j] != t);
                    assert(m1.nodes()[ms[j]] == m0.nodes()[ms[j]]);
                }
                assert(backfill_exact(m0, mf, t as int, pdu_id as int, ms));
            }
        } else {
            proof {
                assert forall|i: int| #[trigger] m0.is_mapping_of(i, pdu_id as int) implies false by {
                    assert(m0.node_wf(i));
                }
                assert(backfill_exact(m0, m1, t as int, pdu_id as int, Seq::empty()));
            }
        }
        proof {
            let mf = *model;
            assert(pdu_id == pdu.id());
            assert(backfilled(m0, mf, t as int, pdu.id() as int));
            assert forall|x: int| #[trigger] mf.is_child_triggering(x, t as int) implies t < x by {
                if x < t {
                    assert(mf.nodes()[x] == m0.nodes()[x]);
                    assert(m0.node_wf(x));
                }
            }
        }
        Ok(pt)
    }

    pub fn element(&self) -> (r: Element)
        ensures
            r.id == self.id,
    {
        Element { id: self.id }
    }

    /// Adds a signal triggering of `signal` to this PDU triggering, on its channel, and
    /// connects it to every ECU and direction that this PDU triggering has a port for.
    pub fn add_signal_triggering(&self, model: &mut CommunicationModel, signal: &Signal) -> (r: Result<
        ISignalTriggering,
        AutosarAbstractionError,
    >)
        requires
            old(model).wf(),
        ensures
            final(model).wf(),
            final(model).extends(old(model)),
            ({
                let m0 = *old(model);
                let m1 = *final(model);
                let t = self.id as int;
                if !m0.is_pdu_triggering(t) || !m0.is_signal(signal.id as int) {
                    invalid_parameter(r) && m1 == m0
                } else {
                    let st = r->Ok_0.id as int;
                    &&& r is Ok
                    &&& st == m0.nodes().len()
                    &&& m1.is_child_triggering(st, t)
                    &&& m1.kind(st)->ISignalTriggering_signal == signal.id
                    &&& m1.parent(st) == m0.parent(t)
                    &&& forall|e: int, d: CommunicationDirection|
                        #[trigger] m1.has_signal_port(st, e, d) == m0.has_pdu_port(t, e, d)
                    &&& forall|i: int| m0.nodes().len() < i < m1.nodes().len() ==> #[trigger] m1.kind(i) is ISignalPort
                        && m1.kind(i)->ISignalPort_triggering == st
                }
            }),
            r is Ok ==> first_free(
                old(model).taken_names(old(model).parent(self.id as int)),
                triggering_name(signal_triggering_prefix(), old(model).names()[signal.id as int]),
                final(model).names()[r->Ok_0.id as int],
            ),
    {
        let t = self.id;
        let channel = match model.kind_at(t) {
            Some(NodeKind::PduTriggering { .. }) => {
                proof {
                    assert(model.node_wf(t as int));
                }
                model.parent_at(t).unwrap()
            },
            _ => {
                return Err(AutosarAbstractionError::InvalidParameter(String::from_str("invalid pdu triggering")));
            },
        };
        let ghost m0 = *model;
        proof {
            assert(model.node_wf(t as int));
        }
        let st = match ISignalTriggering::new(model, signal, self) {
            Ok(st) => st,
            Err(e) => {
                return Err(e);
            },
        };
        let st_id = st.id;
        let ghost m1 = *model;
        let ghost n = Node { parent: Some(channel), kind: NodeKind::ISignalTriggering { pdu_triggering: t, signal: signal.id } };
        proof {
            m1.lemma_extends_refl();
        }
        let mut i: usize = 0;
        while i < st_id
            invariant
                model.wf_core(),
                model.wired_except(st_id as int),
                model.grown_by_ports_of(&m1, st_id as int),
                m1.nodes() == m0.nodes().push(n),
                m1.is_child_triggering(st_id as int, t as int),
                m1.kind(st_id as int)->ISignalTriggering_signal == signal.id,
                m1.parent(st_id as int) == Some(channel),
                m1.wf_core(),
                m0.wf(),
                st_id == m0.nodes().len(),
                st.id == st_id,
                i <= st_id,
                t == self.id,
                m0.is_pdu_triggering(t as int),
                m0.parent(t as int) == Some(channel),
                forall|e: int, d: CommunicationDirection|
                    #[trigger] model.has_signal_port(st_id as int, e, d) ==> m0.has_pdu_port(t as int, e, d),
                forall|p: int, e: int, d: CommunicationDirection|
                    0 <= p < i && #[trigger] m0.is_pdu_port(p, t as int, e, d) ==> model.has_signal_port(st_id as int, e, d),
            decreases st_id - i,
        {
            if let Some(NodeKind::IPduPort { triggering, ecu, direction }) = model.kind_at(i) {
                if triggering == t {
                    let ghost mb = *model;
                    proof {
                        CommunicationModel::lemma_grown_by_ports(&m1, &mb, st_id as int);
                        assert(m0.node_wf(i as int));
                        let c = m0.parent(i as int).unwrap() as int;
                        assert(mb.kind(st_id as int) == m1.kind(st_id as int));
                        assert(m1.kind(c) == m0.kind(c) && m1.parent(c) == m0.parent(c));
                        assert(mb.kind(c) == m1.kind(c));
                        assert(mb.is_signal_triggering(st_id as int));
                        assert(mb.is_connector(c, mb.channel_of(st_id as int), ecu as int));
                    }
                    // Cannot fail: the ECU has a port of this PDU triggering, so it is connected
                    // to the channel that both triggerings belong to.
                    let res = st.connect_to_ecu(model, &EcuInstance { id: ecu }, direction);
                    proof {
                        let ma = *model;
                        assert forall|e: int, d: CommunicationDirection|
                            #[trigger] ma.has_signal_port(st_id as int, e, d) implies m0.has_pdu_port(t as int, e, d) by {
                            let q = choose|q: int| #[trigger] ma.is_signal_port(q, st_id as int, e, d);
                            if q < mb.nodes().len() {
                                assert(mb.is_signal_port(q, st_id as int, e, d));
                                assert(mb.has_signal_port(st_id as int, e, d));
                            } else {
                                assert(q == res->Ok_0.id);
                                assert(e == ecu && d == direction);
                                assert(m0.is_pdu_port(i as int, t as int, ecu as int, direction));
                            }
                        }
                        CommunicationModel::lemma_grown_by_ports(&mb, &ma, st_id as int);
                        CommunicationModel::lemma_grown_by_ports(&m1, &ma, st_id as int);
                        assert(ma.has_signal_port(st_id as int, ecu as int, direction));
                        assert(m0.is_pdu_port(i as int, t as int, ecu as int, direction));
                        assert(m0.has_pdu_port(t as int, ecu as int, direction));
                    }
                }
            }
            i = i + 1;
        }
        proof {
            let mf = *model;
            CommunicationModel::lemma_grown_by_ports(&m1, &mf, st_id as int);
            assert forall|e: int, d: CommunicationDirection| #[trigger] m0.has_pdu_port(t as int, e, d)
                implies mf.has_signal_port(st_id as int, e, d) by {
                let p = choose|p: int| #[trigger] m0.is_pdu_port(p, t as int, e, d);
            }
            assert forall|s: int, t2: int, e: int, d: CommunicationDirection|
                #[trigger] mf.is_child_triggering(s, t2) && #[trigger] mf.has_pdu_port(t2, e, d)
                    implies mf.has_signal_port(s, e, d) by {
                if s == st_id {
                    assert(m1.has_pdu_port(t2, e, d));
                    let p = choose|p: int| #[trigger] m1.is_pdu_port(p, t2, e, d);
                    assert(m0.is_pdu_port(p, t2, e, d));
                    assert(m0.has_pdu_port(t2, e, d));
                }
            }
            CommunicationModel::lemma_extends_trans(&m0, &m1, &mf);
            assert(mf.names()[st_id as int] == m1.names()[st_id as int]);
            assert(mf.kind(st_id as int) == m1.kind(st_id as int));
            assert(mf.is_child_triggering(st_id as int, t as int));
            assert(mf.wired());
            assert(mf.parent(st_id as int) == m0.parent(t as int));
            assert(forall|e: int, d: CommunicationDirection|
                #[trigger] mf.has_signal_port(st_id as int, e, d) == m0.has_pdu_port(t as int, e, d));
        }
        Ok(st)
    }
}

impl PduTriggering {
    /// The ports of this PDU triggering, in the order of their creation.
    pub fn pdu_ports(&self, model: &CommunicationModel) -> (r: Vec<IPduPort>)
        ensures
            forall|k: int| 0 <= k < r.len() ==> #[trigger] model.is_pdu_port_of(r@[k].id as int, self.id as int),
            forall|i: int| #[trigger] model.is_pdu_port_of(i, self.id as int) ==> exists|k: int| 0 <= k < r.len() && #[trigger] r@[k].id == i,
            forall|k1: int, k2: int| 0 <= k1 < k2 < r.len() ==> #[trigger] r@[k1].id < #[trigger] r@[k2].id,
    {
        let ids = model.select(Selection::PduPortsOf(self.id));
        let mut r: Vec<IPduPort> = Vec::new();
        let mut k: usize = 0;
        while k < ids.len()
            invariant
                k <= ids.len(),
                r.len() == k,
                forall|j: int| 0 <= j < k ==> #[trigger] r@[j].id == ids@[j],
            decreases ids.len() - k,
        {
            r.push(IPduPort { id: ids[k] });
            k = k + 1;
        }
        proof {
            assert forall|j: int| 0 <= j < r.len() implies #[trigger] model.is_pdu_port_of(r@[j].id as int, self.id as int) by {
                assert(r@[j].id == ids@[j]);
                assert(model.selects(Selection::PduPortsOf(self.id), ids@[j] as int));
            }
            assert forall|i: int| #[trigger] model.is_pdu_port_of(i, self.id as int) implies exists|j: int| 0 <= j < r.len() && #[trigger] r@[j].id == i by {
                assert(model.selects(Selection::PduPortsOf(self.id), i));
                let j = choose|j: int| 0 <= j < ids.len() && #[trigger] ids@[j] == i;
                assert(r@[j].id == ids@[j]);
            }
            assert forall|k1: int, k2: int| 0 <= k1 < k2 < r.len() implies #[trigger] r@[k1].id < #[trigger] r@[k2].id by {
                assert(r@[k1].id == ids@[k1] && r@[k2].id == ids@[k2]);
            }
        }
        r
    }

    /// The signal triggerings of this PDU triggering, in the order of their creation.
    pub fn signal_triggerings(&self, model: &CommunicationModel) -> (r: Vec<ISignalTriggering>)
        ensures
            forall|k: int| 0 <= k < r.len() ==> #[trigger] model.is_child_triggering(r@[k].id as int, self.id as int),
            forall|i: int| #[trigger] model.is_child_triggering(i, self.id as int) ==> exists|k: int| 0 <= k < r.len() && #[trigger] r@[k].id == i,
            forall|k1: int, k2: int| 0 <= k1 < k2 < r.len() ==> #[trigger] r@[k1].id < #[trigger] r@[k2].id,
    {
        let ids = model.select(Selection::SignalTriggeringsOf(self.id));
        let mut r: Vec<ISignalTriggering> = Vec::new();
        let mut k: usize = 0;
        while k < ids.len()
            invariant
                k <= ids.len(),
                r.len() == k,
                forall|j: int| 0 <= j < k ==> #[trigger] r@[j].id == ids@[j],
            decreases ids.len() - k,
        {
            r.push(ISignalTriggering { id: ids[k] });
            k = k + 1;
        }
        proof {
            assert forall|j: int| 0 <= j < r.len() implies #[trigger] model.is_child_triggering(r@[j].id as int, self.id as int) by {
                assert(r@[j].id == ids@[j]);
                assert(model.selects(Selection::SignalTriggeringsOf(self.id), ids@[j] as int));
            }
            assert forall|i: int| #[trigger] model.is_child_triggering(i, self.id as int) implies exists|j: int| 0 <= j < r.len() && #[trigger] r@[j].id == i by {
                assert(model.selects(Selection::SignalTriggeringsOf(self.id), i));
                let j = choose|j: int| 0 <= j < ids.len() && #[trigger] ids@[j] == i;
                assert(r@[j].id == ids@[j]);
            }
            assert forall|k1: int, k2: int| 0 <= k1 < k2 < r.len() implies #[trigger] r@[k1].id < #[trigger] r@[k2].id by {
                assert(r@[k1].id == ids@[k1] && r@[k2].id == ids@[k2]);
            }
        }
        r
    }

    /// The channel that this PDU triggering belongs to.
    pub fn physical_channel(&self, model: &CommunicationModel) -> (r: Result<PhysicalChannel, AutosarAbstractionError>)
        requires
            model.wf(),
        ensures
            model.is_pdu_triggering(self.id as int) ==> r is Ok && r->Ok_0.id as int == model.channel_of(
                self.id as int,
            ) && model.is_channel(r->Ok_0.id as int),
            !model.is_pdu_triggering(self.id as int) ==> r == Err::<PhysicalChannel, AutosarAbstractionError>(
                AutosarAbstractionError::ModelError(ModelError::ItemDeleted),
            ),
    {
        match model.kind_at(self.id) {
            Some(NodeKind::PduTriggering { .. }) => {
                proof {
                    assert(model.node_wf(self.id as int));
                }
                Ok(PhysicalChannel { id: model.parent_at(self.id).unwrap() })
            },
            _ => Err(AutosarAbstractionError::ModelError(ModelError::ItemDeleted)),
        }
    }

    /// Connects this PDU triggering to `ecu` in `direction`: the existing port where there is
    /// one, else a new one at the ECU's connector on the triggering's channel. Every signal
    /// triggering of this PDU triggering is connected to the ECU in the same direction.
    pub fn connect_to_ecu(
        &self,
        model: &mut CommunicationModel,
        ecu: &EcuInstance,
        direction: CommunicationDirection,
    ) -> (r: Result<IPduPort, AutosarAbstractionError>)
        requires
            old(model).wf(),
        ensures
            final(model).wf(),
            final(model).extends(old(model)),
            pdu_connect_result(*old(model), *final(model), self.id as int, ecu.id as int, direction, r),
            r is Ok ==> final(model).has_pdu_port(self.id as int, ecu.id as int, direction),
            r is Ok ==> forall|s: int| #[trigger] final(model).is_child_triggering(s, self.id as int)
                ==> final(model).has_signal_port(s, ecu.id as int, direction),
    {
        let t = self.id;
        match model.kind_at(t) {
            Some(NodeKind::PduTriggering { .. }) => {},
            _ => {
                return Err(AutosarAbstractionError::InvalidParameter(String::from_str("invalid pdu triggering")));
            },
        }
        if let Some(p) = model.find_pdu_port(t, ecu.id, direction) {
            proof {
                assert(model.has_pdu_port(t as int, ecu.id as int, direction));
            }
            return Ok(IPduPort { id: p });
        }
        proof {
            assert(model.node_wf(t as int));
        }
        let channel = PhysicalChannel { id: model.parent_at(t).unwrap() };
        let connector = match channel.get_ecu_connector_core(model, ecu) {
            Some(c) => c,
            None => {
                return Err(
                    AutosarAbstractionError::InvalidParameter(
                        String::from_str("The ECU is not connected to the channel"),
                    ),
                );
            },
        };
        let name = crate::signal::port_name(model, t, direction);
        let ghost m0 = *model;
        let n = Node { parent: Some(connector.id), kind: NodeKind::IPduPort { triggering: t, ecu: ecu.id, direction } };
        let port_id = model.push_node(n, name);
        let ghost m1 = *model;
        proof {
            assert(m1.nodes()[port_id as int] == n);
            assert(m1.is_pdu_port(port_id as int, t as int, ecu.id as int, direction));
            assert forall|s: int, t2: int, e2: int, d2: CommunicationDirection|
                #[trigger] m1.is_child_triggering(s, t2) && #[trigger] m1.has_pdu_port(t2, e2, d2)
                    && !(t2 == t && e2 == ecu.id && d2 == direction) implies m1.has_signal_port(s, e2, d2) by {
                let p = choose|p: int| #[trigger] m1.is_pdu_port(p, t2, e2, d2);
                assert(m0.is_pdu_port(p, t2, e2, d2));
                assert(m0.is_child_triggering(s, t2));
                assert(m0.has_pdu_port(t2, e2, d2));
                let q = choose|q: int| #[trigger] m0.is_signal_port(q, s, e2, d2);
                assert(m1.is_signal_port(q, s, e2, d2));
            }
            m1.lemma_extends_refl();
        }
        let mut i: usize = 0;
        while i < port_id
            invariant
                model.wf_core(),
                model.wired_but(t as int, ecu.id as int, direction),
                model.grown_by_signal_ports(&m1),
                m1.wf_core(),
                m1.nodes() == m0.nodes().push(n),
                m0.wf(),
                m1.is_pdu_port(port_id as int, t as int, ecu.id as int, direction),
                port_id == m0.nodes().len(),
                i <= port_id,
                t == self.id,
                m0.is_pdu_triggering(t as int),
                m0.parent(t as int) == Some(channel.id),
                m0.is_connector(connector.id as int, channel.id as int, ecu.id as int),
                forall|s: int| 0 <= s < i && #[trigger] model.is_child_triggering(s, t as int)
                    ==> model.has_signal_port(s, ecu.id as int, direction),
                forall|j: int| m1.nodes().len() <= j < model.nodes().len() ==> #[trigger] added_child_port(*model, j, t as int, ecu.id as int, direction),
            decreases port_id - i,
        {
            if let Some(NodeKind::ISignalTriggering { pdu_triggering, .. }) = model.kind_at(i) {
                if pdu_triggering == t {
                    let ghost mb = *model;
                    proof {
                        CommunicationModel::lemma_grown_by_signal_ports(&m1, &mb);
                        assert(mb.kind(i as int) == m1.kind(i as int));
                        assert(m1.kind(i as int) == m0.kind(i as int));
                        assert(m0.node_wf(i as int));
                        assert(mb.parent(i as int) == m0.parent(i as int));
                        assert(mb.kind(connector.id as int) == m0.kind(connector.id as int));
                        assert(mb.parent(connector.id as int) == m0.parent(connector.id as int));
                        assert(mb.is_connector(connector.id as int, mb.channel_of(i as int), ecu.id as int));
                        assert(mb.is_signal_triggering(i as int));
                    }
                    // Cannot fail: the signal triggering belongs to the channel of this PDU
                    // triggering, to which the ECU is connected.
                    let _ = ISignalTriggering { id: i }.connect_to_ecu(model, ecu, direction);
                    proof {
                        let ma = *model;
                        CommunicationModel::lemma_grown_by_ports(&mb, &ma, i as int);
                        assert(ma.grown_by_signal_ports(&m1));
                        CommunicationModel::lemma_grown_by_signal_ports(&m1, &ma);
                        assert(ma.has_signal_port(i as int, ecu.id as int, direction));
                        assert forall|j: int| m1.nodes().len() <= j < ma.nodes().len() implies #[trigger] added_child_port(ma, j, t as int, ecu.id as int, direction) by {
                            if j < mb.nodes().len() {
                                assert(added_child_port(mb, j, t as int, ecu.id as int, direction));
                                assert(ma.nodes()[j] == mb.nodes()[j]);
                                let x = mb.kind(j)->ISignalPort_triggering as int;
                                assert(mb.is_child_triggering(x, t as int));
                                assert(ma.kind(x) == mb.kind(x));
                            }
                        }
                        assert forall|s: int| 0 <= s < i + 1 && #[trigger] ma.is_child_triggering(s, t as int)
                            implies ma.has_signal_port(s, ecu.id as int, direction) by {
                            if s < i {
                                assert(mb.is_child_triggering(s, t as int));
                                assert(mb.has_signal_port(s, ecu.id as int, direction));
                            }
                        }
                        assert forall|s: int, t2: int, e2: int, d2: CommunicationDirection|
                            #[trigger] ma.is_child_triggering(s, t2) && #[trigger] ma.has_pdu_port(t2, e2, d2)
                                && !(t2 == t && e2 == ecu.id && d2 == direction) implies ma.has_signal_port(s, e2, d2) by {
                            assert(mb.is_child_triggering(s, t2));
                            assert(mb.has_pdu_port(t2, e2, d2));
                            assert(mb.has_signal_port(s, e2, d2));
                        }
                    }
                }
            }
            i = i + 1;
        }
        proof {
            let mf = *model;
            CommunicationModel::lemma_grown_by_signal_ports(&m1, &mf);
            assert forall|s: int| #[trigger] mf.is_child_triggering(s, t as int)
                implies mf.has_signal_port(s, ecu.id as int, direction) by {
                assert(m1.is_child_triggering(s, t as int));
                assert(s != port_id);
                assert(s < port_id);
            }
            assert forall|s: int, t2: int, e2: int, d2: CommunicationDirection|
                #[trigger] mf.is_child_triggering(s, t2) && #[trigger] mf.has_pdu_port(t2, e2, d2)
                    implies mf.has_signal_port(s, e2, d2) by {
                if t2 == t && e2 == ecu.id && d2 == direction {
                    assert(mf.is_child_triggering(s, t as int));
                }
            }
            assert(mf.is_pdu_port(port_id as int, t as int, ecu.id as int, direction));
            assert(mf.names()[port_id as int] == m1.names()[port_id as int]);
            CommunicationModel::lemma_extends_trans(&m0, &m1, &mf);
        }
        Ok(IPduPort { id: port_id })
    }
}

impl IPduPort {
    pub fn element(&self) -> (r: Element)
        ensures
            r.id == self.id,
    {
        Element { id: self.id }
    }

    /// The ECU at which this port sits.
    pub fn ecu(&self, model: &CommunicationModel) -> (r: Option<EcuInstance>)
        ensures
            model.valid(self.id as int) && model.kind(self.id as int) is IPduPort ==> r == Some(
                EcuInstance { id: model.kind(self.id as int)->IPduPort_ecu },
            ),
            !(model.valid(self.id as int) && model.kind(self.id as int) is IPduPort) ==> r is None,
    {
        match model.kind_at(self.id) {
            Some(NodeKind::IPduPort { ecu, .. }) => Some(EcuInstance { id: ecu }),
            _ => None,
        }
    }

    /// The direction of this port.
    pub fn communication_direction(&self, model: &CommunicationModel) -> (r: Option<CommunicationDirection>)
        ensures
            model.valid(self.id as int) && model.kind(self.id as int) is IPduPort ==> r == Some(
                model.kind(self.id as int)->IPduPort_direction,
            ),
            !(model.valid(self.id as int) && model.kind(self.id as int) is IPduPort) ==> r is None,
    {
        match model.kind_at(self.id) {
            Some(NodeKind::IPduPort { direction, .. }) => Some(direction),
            _ => None,
        }
    }
}

impl ISignalToIPduMapping {
    /// Records the placement of `signal` in `pdu` under the name `name`, which must be free
    /// in the PDU.
    pub(crate) fn new(
        model: &mut CommunicationModel,
        name: String,
        pdu: &ISignalIPdu,
        signal: &Signal,
        start_position: u32,
        byte_order: ByteOrder,
        update_bit: Option<u32>,
        transfer_property: TransferProperty,
    ) -> (r: ISignalToIPduMapping)
        requires
            old(model).wf(),
            old(model).is_pdu_of_kind(pdu.id as int, PduKind::ISignalIPdu),
            old(model).is_signal(signal.id as int),
            old(model).name_free(Some(pdu.id), name@),
        ensures
            r.id as int == old(model).nodes().len(),
            final(model).nodes() == old(model).nodes().push(
                Node {
                    parent: Some(pdu.id),
                    kind: NodeKind::Mapping { signal: signal.id, start_position, byte_order, update_bit, transfer_property },
                },
            ),
            final(model).names() == old(model).names().push(name@),
            final(model).wf(),
            final(model).extends(old(model)),
    {
        let ghost m0 = *model;
        let kind = NodeKind::Mapping { signal: signal.id, start_position, byte_order, update_bit, transfer_property };
        let n = Node { parent: Some(pdu.id), kind };
        let id = model.push_node(n, name);
        proof {
            CommunicationModel::lemma_push_keeps_wired(&m0, model, n);
        }
        ISignalToIPduMapping { id }
    }

    pub fn element(&self) -> (r: Element)
        ensures
            r.id == self.id,
    {
        Element { id: self.id }
    }

    /// The mapping's fields, if this handle refers to a mapping.
    pub open spec fn fields(self, model: CommunicationModel) -> Option<NodeKind> {
        if model.valid(self.id as int) && model.kind(self.id as int) is Mapping {
            Some(model.kind(self.id as int))
        } else {
            None
        }
    }

    /// The signal that is mapped into the PDU.
    pub fn signal(&self, model: &CommunicationModel) -> (r: Option<Signal>)
        requires
            model.wf(),
        ensures
            self.fields(*model) is Some ==> r == Some(Signal { id: self.fields(*model)->Some_0->Mapping_signal })
                && model.is_signal(r->Some_0.id as int),
            self.fields(*model) is None ==> r is None,
    {
        match model.kind_at(self.id) {
            Some(NodeKind::Mapping { signal, .. }) => {
                proof {
                    assert(model.node_wf(self.id as int));
                }
                Some(Signal { id: signal })
            },
            _ => None,
        }
    }

    /// The byte order of the signal's data.
    pub fn byte_order(&self, model: &CommunicationModel) -> (r: Option<ByteOrder>)
        ensures
            self.fields(*model) is Some ==> r == Some(self.fields(*model)->Some_0->Mapping_byte_order),
            self.fields(*model) is None ==> r is None,
    {
        match model.kind_at(self.id) {
            Some(NodeKind::Mapping { byte_order, .. }) => Some(byte_order),
            _ => None,
        }
    }

    /// The bit position at which the signal starts within the PDU.
    pub fn start_position(&self, model: &CommunicationModel) -> (r: Option<u32>)
        ensures
            self.fields(*model) is Some ==> r == Some(self.fields(*model)->Some_0->Mapping_start_position),
            self.fields(*model) is None ==> r is None,
    {
        match model.kind_at(self.id) {
            Some(NodeKind::Mapping { start_position, .. }) => Some(start_position),
            _ => None,
        }
    }

    /// The bit position of the signal's update bit; not every signal has one.
    pub fn update_bit(&self, model: &CommunicationModel) -> (r: Option<u32>)
        ensures
            self.fields(*model) is Some ==> r == self.fields(*model)->Some_0->Mapping_update_bit,
            self.fields(*model) is None ==> r is None,
    {
        match model.kind_at(self.id) {
            Some(NodeKind::Mapping { update_bit, .. }) => update_bit,
            _ => None,
        }
    }

    /// The transfer property of the signal.
    pub fn transfer_property(&self, model: &CommunicationModel) -> (r: Option<TransferProperty>)
        ensures
            self.fields(*model) is Some ==> r == Some(self.fields(*model)->Some_0->Mapping_transfer_property),
            self.fields(*model) is None ==> r is None,
    {
        match model.kind_at(self.id) {
            Some(NodeKind::Mapping { transfer_property, .. }) => Some(transfer_property),
            _ => None,
        }
    }
}

/// Whether a PDU is collected into a container PDU.
#[derive(Debug, Clone, Copy, PartialEq, Eq, Structural)]
pub enum PduCollectionTrigger {
    Always,
    Never,
}

} // verus!

//! Packages, ECUs, channels and the connectors between ECUs and channels.
use vstd::prelude::*;
use crate::model::{AutosarAbstractionError, CommunicationModel, Element, NodeKind};

verus! {

/// A package: a named scope that holds elements.
#[derive(Debug, Clone, Copy, PartialEq, Eq, Structural, Hash)]
pub struct ArPackage {
    pub id: usize,
}

/// An electronic control unit.
#[derive(Debug, Clone, Copy, PartialEq, Eq, Structural, Hash)]
pub struct EcuInstance {
    pub id: usize,
}

/// A communication medium that connects ECUs.
#[derive(Debug, Clone, Copy, PartialEq, Eq, Structural, Hash)]
pub struct PhysicalChannel {
    pub id: usize,
}

pub open spec fn invalid_parameter<T>(r: Result<T, AutosarAbstractionError>) -> bool {
    r is Err && r->Err_0.is_invalid_parameter()
}

impl ArPackage {
    /// Creates a top-level package.
    pub fn new(model: &mut CommunicationModel, name: &str) -> (r: Result<ArPackage, AutosarAbstractionError>)
        requires
            old(model).wf(),
        ensures
            final(model).wf(),
            final(model).extends(old(model)),
            old(model).name_free(None, name@) ==> r is Ok && final(model).is_package(r->Ok_0.id as int)
                && r->Ok_0.id as int == old(model).nodes().len() && final(model).nodes().len() == old(model).nodes().len() + 1
                && final(model).names()[r->Ok_0.id as int] == name@,
            !old(model).name_free(None, name@) ==> r is Err && *final(model) == *old(model),
    {
        match model.create_named(None, NodeKind::Package, name) {
            Ok(id) => Ok(ArPackage { id }),
            Err(e) => Err(e),
        }
    }

    pub fn element(&self) -> (r: Element)
        ensures
            r.id == self.id,
    {
        Element { id: self.id }
    }
}

impl EcuInstance {
    /// Creates an ECU in `package`.
    pub fn new(model: &mut CommunicationModel, name: &str, package: &ArPackage) -> (r: Result<
        EcuInstance,
        AutosarAbstractionError,
    >)
        requires
            old(model).wf(),
        ensures
            final(model).wf(),
            final(model).extends(old(model)),
            !old(model).is_package(package.id as int) ==> invalid_parameter(r) && *final(model) == *old(model),
            old(model).is_package(package.id as int) && old(model).name_free(Some(package.id), name@)
                ==> r is Ok && final(model).is_ecu(r->Ok_0.id as int) && r->Ok_0.id as int == old(model).nodes().len()
                && final(model).nodes().len() == old(model).nodes().len() + 1 && final(model).names()[r->Ok_0.id as int]
                == name@ && final(model).parent(r->Ok_0.id as int) == Some(package.id),
            old(model).is_package(package.id as int) && !old(model).name_free(Some(package.id), name@)
                ==> r is Err && *final(model) == *old(model),
    {
        match model.kind_at(package.id) {
            Some(NodeKind::Package) => {},
            _ => {
                return Err(AutosarAbstractionError::InvalidParameter(String::from_str("invalid package")));
            },
        }
        match model.create_named(Some(package.id), NodeKind::EcuInstance, name) {
            Ok(id) => Ok(EcuInstance { id }),
            Err(e) => Err(e),
        }
    }
}

impl PhysicalChannel {
    /// Creates a channel in `package`.
    pub fn new(model: &mut CommunicationModel, name: &str, package: &ArPackage) -> (r: Result<
        PhysicalChannel,
        AutosarAbstractionError,
    >)
        requires
            old(model).wf(),
        ensures
            final(model).wf(),
            final(model).extends(old(model)),
            !old(model).is_package(package.id as int) ==> invalid_parameter(r) && *final(model) == *old(model),
            old(model).is_package(package.id as int) && old(model).name_free(Some(package.id), name@)
                ==> r is Ok && final(model).is_channel(r->Ok_0.id as int) && r->Ok_0.id as int == old(model).nodes().len()
                && final(model).nodes().len() == old(model).nodes().len() + 1 && final(model).names()[r->Ok_0.id as int]
                == name@ && final(model).parent(r->Ok_0.id as int) == Some(package.id),
            old(model).is_package(package.id as int) && !old(model).name_free(Some(package.id), name@)
                ==> r is Err && *final(model) == *old(model),
    {
        match model.kind_at(package.id) {
            Some(NodeKind::Package) => {},
            _ => {
                return Err(AutosarAbstractionError::InvalidParameter(String::from_str("invalid package")));
            },
        }
        match model.create_named(Some(package.id), NodeKind::PhysicalChannel, name) {
            Ok(id) => Ok(PhysicalChannel { id }),
            Err(e) => Err(e),
        }
    }

    /// The connector of `ecu` on this channel, if the ECU is connected to it.
    pub fn get_ecu_connector(&self, model: &CommunicationModel, ecu: &EcuInstance) -> (r: Option<Element>)
        requires
            model.wf(),
        ensures
            r is Some <==> model.connected(self.id as int, ecu.id as int),
            r is Some ==> model.is_connector(r->Some_0.id as int, self.id as int, ecu.id as int),
    {
        self.get_ecu_connector_core(model, ecu)
    }

    pub(crate) fn get_ecu_connector_core(&self, model: &CommunicationModel, ecu: &EcuInstance) -> (r: Option<Element>)
        ensures
            r is Some <==> model.connected(self.id as int, ecu.id as int),
            r is Some ==> model.is_connector(r->Some_0.id as int, self.id as int, ecu.id as int),
    {
        let mut i: usize = 0;
        while i < model.len()
            invariant
                i <= model.nodes().len(),
                forall|c: int| 0 <= c < i ==> !#[trigger] model.is_connector(c, self.id as int, ecu.id as int),
            decreases model.nodes().len() - i,
        {
            if let Some(NodeKind::Connector { ecu: e }) = model.kind_at(i) {
                if e == ecu.id && model.parent_at(i) == Some(self.id) {
                    proof {
                        assert(model.is_connector(i as int, self.id as int, ecu.id as int));
                    }
                    return Some(Element { id: i });
                }
            }
            i = i + 1;
        }
        None
    }

    /// Connects `ecu` to this channel; an ECU that is connected already keeps its connector.
    pub fn connect_ecu(&self, model: &mut CommunicationModel, ecu: &EcuInstance) -> (r: Result<
        Element,
        AutosarAbstractionError,
    >)
        requires
            old(model).wf(),
        ensures
            final(model).wf(),
            final(model).extends(old(model)),
            !old(model).is_channel(self.id as int) || !old(model).is_ecu(ecu.id as int) ==> invalid_parameter(r)
                && *final(model) == *old(model),
            old(model).is_channel(self.id as int) && old(model).is_ecu(ecu.id as int) ==> r is Ok
                && final(model).is_connector(r->Ok_0.id as int, self.id as int, ecu.id as int),
            old(model).connected(self.id as int, ecu.id as int) ==> *final(model) == *old(model),
            old(model).is_channel(self.id as int) && old(model).is_ecu(ecu.id as int) && !old(model).connected(
                self.id as int,
                ecu.id as int,
            ) ==> final(model).nodes().len() == old(model).nodes().len() + 1,
    {
        match model.kind_at(self.id) {
            Some(NodeKind::PhysicalChannel) => {},
            _ => {
                return Err(AutosarAbstractionError::InvalidParameter(String::from_str("invalid channel")));
            },
        }
        match model.kind_at(ecu.id) {
            Some(NodeKind::EcuInstance) => {},
            _ => {
                return Err(AutosarAbstractionError::InvalidParameter(String::from_str("invalid ecu")));
            },
        }
        if let Some(c) = self.get_ecu_connector(model, ecu) {
            return Ok(c);
        }
        let ghost m0 = *model;
        let name = model.name_of(Element { id: ecu.id }).unwrap();
        let kind = NodeKind::Connector { ecu: ecu.id };
        let id = model.push_node(crate::model::Node { parent: Some(self.id), kind }, name);
        proof {
            CommunicationModel::lemma_push_keeps_wired(&m0, model, crate::model::Node { parent: Some(self.id), kind });
        }
        Ok(Element { id })
    }
}

} // verus!

//! A verified model of signals, PDUs, triggerings and ports of an automotive
//! communication system, with the propagation rules that keep the ECU wiring of a
//! PDU and of the signals it carries consistent.
//!
//! All elements live in one [`CommunicationModel`]; the handle types ([`Signal`],
//! [`PduTriggering`], ...) are indices into it.
use vstd::prelude::*;

pub mod model;
pub mod naming;
pub mod pdu;
pub mod signal;
pub mod topology;

pub use model::{
    AutosarAbstractionError, ByteOrder, CommunicationDirection, CommunicationModel, Element, ModelError, NodeKind,
    PduKind, TransferProperty,
};
pub use pdu::{
    ContainerIPdu, DcmIPdu, GeneralPurposeIPdu, GeneralPurposePdu, IPduPort, ISignalIPdu, ISignalToIPduMapping,
    MultiplexedIPdu, NPdu, NmPdu, Pdu, PduCollectionTrigger, PduTriggering, SecuredIPdu,
};
pub use signal::{ISignalPort, ISignalTriggering, Signal, SignalGroup};
pub use topology::{ArPackage, EcuInstance, PhysicalChannel};

verus! {

} // verus!

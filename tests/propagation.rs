use autosar_data_abstraction::naming::{decimal_string, unique_name};
use autosar_data_abstraction::{
    ArPackage, AutosarAbstractionError, ByteOrder, CommunicationDirection, CommunicationModel, ContainerIPdu,
    DcmIPdu, EcuInstance, Element, GeneralPurposeIPdu, GeneralPurposePdu, ISignalIPdu, ModelError, MultiplexedIPdu,
    NPdu, NmPdu, Pdu, PduTriggering, PhysicalChannel, SecuredIPdu, Signal, SignalGroup, TransferProperty,
};

struct Setup {
    model: CommunicationModel,
    sig_pkg: ArPackage,
    sys_pkg: ArPackage,
    ecu_a: EcuInstance,
    ecu_b: EcuInstance,
    channel: PhysicalChannel,
}

fn setup() -> Setup {
    let mut model = CommunicationModel::new();
    let sig_pkg = ArPackage::new(&mut model, "Signals").unwrap();
    let sys_pkg = ArPackage::new(&mut model, "SystemSignals").unwrap();
    let ecu_a = EcuInstance::new(&mut model, "A", &sys_pkg).unwrap();
    let ecu_b = EcuInstance::new(&mut model, "B", &sys_pkg).unwrap();
    let channel = PhysicalChannel::new(&mut model, "C", &sys_pkg).unwrap();
    channel.connect_ecu(&mut model, &ecu_a).unwrap();
    channel.connect_ecu(&mut model, &ecu_b).unwrap();
    Setup { model, sig_pkg, sys_pkg, ecu_a, ecu_b, channel }
}

fn name(model: &CommunicationModel, e: Element) -> String {
    model.name_of(e).unwrap()
}

fn port_pairs(model: &CommunicationModel, st: &autosar_data_abstraction::ISignalTriggering) -> Vec<(usize, CommunicationDirection)> {
    let mut pairs: Vec<(usize, CommunicationDirection)> = st
        .signal_ports(model)
        .iter()
        .map(|p| (p.ecu(model).unwrap().id, p.communication_direction(model).unwrap()))
        .collect();
    pairs.sort_by_key(|(e, d)| (*e, *d == CommunicationDirection::Out));
    pairs
}

#[test]
fn signal_with_equal_packages_is_rejected() {
    let mut s = setup();
    let before = s.model.len();
    let pkg = s.sig_pkg;
    let r = Signal::new(&mut s.model, "S", 8, &pkg, &pkg);
    assert!(matches!(r, Err(AutosarAbstractionError::InvalidParameter(_))));
    assert_eq!(s.model.len(), before);
    let r = SignalGroup::new(&mut s.model, "G", &pkg, &pkg);
    assert!(matches!(r, Err(AutosarAbstractionError::InvalidParameter(_))));
}

#[test]
fn signal_with_taken_name_is_rejected() {
    let mut s = setup();
    let (a, b) = (s.sig_pkg, s.sys_pkg);
    Signal::new(&mut s.model, "S", 8, &a, &b).unwrap();
    let r = Signal::new(&mut s.model, "S", 8, &a, &b);
    assert_eq!(r, Err(AutosarAbstractionError::ModelError(ModelError::DuplicateItemName)));
}

#[test]
fn scenario_signal_inherits_pdu_wiring() {
    let mut s = setup();
    let (a, b) = (s.sig_pkg, s.sys_pkg);
    let pdu = ISignalIPdu::new(&mut s.model, "P", &a, 8).unwrap();
    let pt = PduTriggering::new(&mut s.model, &Pdu::from(pdu), &s.channel).unwrap();
    assert_eq!(name(&s.model, pt.element()), "PT_P");
    assert!(pt.signal_triggerings(&s.model).is_empty());
    let port_a = pt.connect_to_ecu(&mut s.model, &s.ecu_a, CommunicationDirection::In).unwrap();
    let port_b = pt.connect_to_ecu(&mut s.model, &s.ecu_b, CommunicationDirection::Out).unwrap();
    assert_eq!(name(&s.model, port_a.element()), "PT_P_Rx");
    assert_eq!(name(&s.model, port_b.element()), "PT_P_Tx");
    assert_eq!(pt.pdu_ports(&s.model).len(), 2);

    let signal = Signal::new(&mut s.model, "S", 8, &a, &b).unwrap();
    let mapping = pdu
        .map_signal(&mut s.model, &signal, 0, ByteOrder::MostSignificantByteLast, None, TransferProperty::Triggered)
        .unwrap();
    let sts = pt.signal_triggerings(&s.model);
    assert_eq!(sts.len(), 1);
    assert_eq!(name(&s.model, sts[0].element()), "ST_S");
    assert_eq!(
        port_pairs(&s.model, &sts[0]),
        vec![(s.ecu_a.id, CommunicationDirection::In), (s.ecu_b.id, CommunicationDirection::Out)]
    );
    assert_eq!(mapping.start_position(&s.model), Some(0));
    assert_eq!(mapping.signal(&s.model), Some(signal));
    assert_eq!(pdu.mapped_signals(&s.model), vec![mapping]);
    assert_eq!(name(&s.model, mapping.element()), "S");
}

#[test]
fn map_signal_fans_out_to_every_triggering() {
    let mut s = setup();
    let (a, b) = (s.sig_pkg, s.sys_pkg);
    let channel2 = PhysicalChannel::new(&mut s.model, "C2", &b).unwrap();
    channel2.connect_ecu(&mut s.model, &s.ecu_a).unwrap();
    let pdu = ISignalIPdu::new(&mut s.model, "P", &a, 8).unwrap();
    let pt1 = PduTriggering::new(&mut s.model, &Pdu::from(pdu), &s.channel).unwrap();
    let pt2 = PduTriggering::new(&mut s.model, &Pdu::from(pdu), &channel2).unwrap();
    pt1.connect_to_ecu(&mut s.model, &s.ecu_b, CommunicationDirection::Out).unwrap();
    pt2.connect_to_ecu(&mut s.model, &s.ecu_a, CommunicationDirection::In).unwrap();
    assert_eq!(pdu.pdu_triggerings(&s.model), vec![pt1, pt2]);

    let signal = Signal::new(&mut s.model, "S", 4, &a, &b).unwrap();
    pdu.map_signal(&mut s.model, &signal, 3, ByteOrder::MostSignificantByteFirst, Some(7), TransferProperty::Pending)
        .unwrap();
    let sts1 = pt1.signal_triggerings(&s.model);
    let sts2 = pt2.signal_triggerings(&s.model);
    assert_eq!(sts1.len(), 1);
    assert_eq!(sts2.len(), 1);
    assert_eq!(port_pairs(&s.model, &sts1[0]), vec![(s.ecu_b.id, CommunicationDirection::Out)]);
    assert_eq!(port_pairs(&s.model, &sts2[0]), vec![(s.ecu_a.id, CommunicationDirection::In)]);
    assert_eq!(sts1[0].physical_channel(&s.model).unwrap(), s.channel);
    assert_eq!(sts2[0].physical_channel(&s.model).unwrap(), channel2);
}

#[test]
fn map_signal_into_untriggered_pdu_creates_no_triggering() {
    let mut s = setup();
    let (a, b) = (s.sig_pkg, s.sys_pkg);
    let pdu = ISignalIPdu::new(&mut s.model, "P", &a, 8).unwrap();
    let signal = Signal::new(&mut s.model, "S", 4, &a, &b).unwrap();
    let before = s.model.len();
    let m = pdu
        .map_signal(&mut s.model, &signal, 0, ByteOrder::Opaque, None, TransferProperty::TriggeredOnChange)
        .unwrap();
    assert_eq!(s.model.len(), before + 1);
    assert_eq!(m.transfer_property(&s.model), Some(TransferProperty::TriggeredOnChange));
    assert_eq!(m.byte_order(&s.model), Some(ByteOrder::Opaque));
    assert_eq!(m.update_bit(&s.model), None);
}

#[test]
fn map_signal_with_unresolved_signal_fails() {
    let mut s = setup();
    let a = s.sig_pkg;
    let pdu = ISignalIPdu::new(&mut s.model, "P", &a, 8).unwrap();
    let r = pdu.map_signal(&mut s.model, &Signal { id: 999 }, 0, ByteOrder::Opaque, None, TransferProperty::Pending);
    assert!(matches!(r, Err(AutosarAbstractionError::InvalidParameter(_))));
    let r = pdu.map_signal(&mut s.model, &Signal { id: pdu.id }, 0, ByteOrder::Opaque, None, TransferProperty::Pending);
    assert!(matches!(r, Err(AutosarAbstractionError::InvalidParameter(_))));
}

#[test]
fn connect_to_ecu_is_idempotent() {
    let mut s = setup();
    let (a, b) = (s.sig_pkg, s.sys_pkg);
    let pdu = ISignalIPdu::new(&mut s.model, "P", &a, 8).unwrap();
    let signal = Signal::new(&mut s.model, "S", 8, &a, &b).unwrap();
    pdu.map_signal(&mut s.model, &signal, 0, ByteOrder::Opaque, None, TransferProperty::Pending).unwrap();
    let pt = PduTriggering::new(&mut s.model, &Pdu::from(pdu), &s.channel).unwrap();
    let first = pt.connect_to_ecu(&mut s.model, &s.ecu_a, CommunicationDirection::In).unwrap();
    let len = s.model.len();
    let again = pt.connect_to_ecu(&mut s.model, &s.ecu_a, CommunicationDirection::In).unwrap();
    assert_eq!(first, again);
    assert_eq!(s.model.len(), len);
    assert_eq!(pt.pdu_ports(&s.model).len(), 1);

    let st = pt.signal_triggerings(&s.model)[0];
    let sig_first = st.connect_to_ecu(&mut s.model, &s.ecu_b, CommunicationDirection::Out).unwrap();
    let sig_again = st.connect_to_ecu(&mut s.model, &s.ecu_b, CommunicationDirection::Out).unwrap();
    assert_eq!(sig_first, sig_again);
    assert_eq!(st.signal_ports(&s.model).len(), 2);
}

#[test]
fn connecting_a_pdu_triggering_wires_its_signals() {
    let mut s = setup();
    let (a, b) = (s.sig_pkg, s.sys_pkg);
    let pdu = ISignalIPdu::new(&mut s.model, "P", &a, 8).unwrap();
    let s1 = Signal::new(&mut s.model, "S1", 8, &a, &b).unwrap();
    let s2 = Signal::new(&mut s.model, "S2", 8, &a, &b).unwrap();
    pdu.map_signal(&mut s.model, &s1, 0, ByteOrder::Opaque, None, TransferProperty::Pending).unwrap();
    pdu.map_signal(&mut s.model, &s2, 8, ByteOrder::Opaque, None, TransferProperty::Pending).unwrap();
    let pt = PduTriggering::new(&mut s.model, &Pdu::from(pdu), &s.channel).unwrap();
    let sts = pt.signal_triggerings(&s.model);
    assert_eq!(sts.len(), 2);
    assert!(sts.iter().all(|st| st.signal_ports(&s.model).is_empty()));
    pt.connect_to_ecu(&mut s.model, &s.ecu_b, CommunicationDirection::Out).unwrap();
    for st in &sts {
        assert_eq!(port_pairs(&s.model, st), vec![(s.ecu_b.id, CommunicationDirection::Out)]);
    }
    let st_name = name(&s.model, sts[0].element());
    let port_name = name(&s.model, sts[0].signal_ports(&s.model)[0].element());
    assert_eq!(port_name, format!("{st_name}_Tx"));
}

#[test]
fn connect_to_unconnected_ecu_fails() {
    let mut s = setup();
    let (a, b) = (s.sig_pkg, s.sys_pkg);
    let lonely = EcuInstance::new(&mut s.model, "Lonely", &b).unwrap();
    let pdu = NmPdu::new(&mut s.model, "Nm", &a, 8).unwrap();
    let pt = PduTriggering::new(&mut s.model, &Pdu::from(pdu), &s.channel).unwrap();
    let before = s.model.len();
    let r = pt.connect_to_ecu(&mut s.model, &lonely, CommunicationDirection::In);
    assert!(matches!(r, Err(AutosarAbstractionError::InvalidParameter(_))));
    assert_eq!(s.model.len(), before);
    assert!(s.channel.get_ecu_connector(&s.model, &lonely).is_none());
    assert!(s.channel.get_ecu_connector(&s.model, &s.ecu_a).is_some());
}

#[test]
fn pdu_variants_round_trip() {
    let mut s = setup();
    let a = s.sig_pkg;
    let m = &mut s.model;
    let pdus: Vec<Pdu> = vec![
        Pdu::from(ISignalIPdu::new(m, "Frame1", &a, 1).unwrap()),
        Pdu::from(NmPdu::new(m, "Frame2", &a, 2).unwrap()),
        Pdu::from(NPdu::new(m, "Frame3", &a, 3).unwrap()),
        Pdu::from(DcmIPdu::new(m, "Frame4", &a, 4).unwrap()),
        Pdu::from(GeneralPurposePdu::new(m, "Frame5", &a, 5).unwrap()),
        Pdu::from(GeneralPurposeIPdu::new(m, "Frame6", &a, 6).unwrap()),
        Pdu::from(ContainerIPdu::new(m, "Frame7", &a, 7).unwrap()),
        Pdu::from(SecuredIPdu::new(m, "Frame8", &a, 8).unwrap()),
        Pdu::from(MultiplexedIPdu::new(m, "Frame9", &a, 9).unwrap()),
    ];
    for p in &pdus {
        assert_eq!(Pdu::try_from_element(m, p.element()), Ok(*p));
    }
    let nm = NmPdu::new(m, "Nm", &a, 8).unwrap();
    assert_eq!(NmPdu::try_from_element(m, Pdu::from(nm).element()), Ok(nm));
    let r = ISignalIPdu::try_from_element(m, nm.element());
    assert!(matches!(r, Err(AutosarAbstractionError::ConversionError { element, .. }) if element == nm.element()));
    let r = Pdu::try_from_element(m, Element { id: s.channel.id });
    assert!(matches!(r, Err(AutosarAbstractionError::ConversionError { element, .. }) if element == Element { id: s.channel.id }));
}

#[test]
fn mapping_names_of_equal_signal_names_differ() {
    let mut s = setup();
    let (a, b) = (s.sig_pkg, s.sys_pkg);
    let other = ArPackage::new(&mut s.model, "Other").unwrap();
    let other_sys = ArPackage::new(&mut s.model, "OtherSystem").unwrap();
    let pdu = ISignalIPdu::new(&mut s.model, "P", &a, 8).unwrap();
    let s1 = Signal::new(&mut s.model, "S", 8, &a, &b).unwrap();
    let s2 = Signal::new(&mut s.model, "S", 8, &other, &other_sys).unwrap();
    let m1 = pdu.map_signal(&mut s.model, &s1, 0, ByteOrder::Opaque, None, TransferProperty::Pending).unwrap();
    let m2 = pdu.map_signal(&mut s.model, &s2, 8, ByteOrder::Opaque, None, TransferProperty::Pending).unwrap();
    assert_eq!(name(&s.model, m1.element()), "S");
    assert_eq!(name(&s.model, m2.element()), "S_1");
}

#[test]
fn triggering_names_are_made_unique() {
    let mut s = setup();
    let a = s.sig_pkg;
    let pdu = DcmIPdu::new(&mut s.model, "P", &a, 8).unwrap();
    let pt1 = PduTriggering::new(&mut s.model, &Pdu::from(pdu), &s.channel).unwrap();
    let pt2 = PduTriggering::new(&mut s.model, &Pdu::from(pdu), &s.channel).unwrap();
    assert_eq!(name(&s.model, pt1.element()), "PT_P");
    assert_eq!(name(&s.model, pt2.element()), "PT_P_1");
    assert_eq!(pt1.physical_channel(&s.model), Ok(s.channel));
}

#[test]
fn unique_name_appends_numbers() {
    let names = vec!["X".to_string(), "X_1".to_string(), "Y".to_string()];
    assert_eq!(unique_name(&names, "Z"), "Z");
    assert_eq!(unique_name(&names, "X"), "X_2");
    assert_eq!(unique_name(&Vec::new(), "X"), "X");
    assert_eq!(decimal_string(0), "0");
    assert_eq!(decimal_string(907), "907");
}

#[test]
fn signal_group_members() {
    let mut s = setup();
    let (a, b) = (s.sig_pkg, s.sys_pkg);
    let g = SignalGroup::new(&mut s.model, "G", &a, &b).unwrap();
    let s1 = Signal::new(&mut s.model, "S1", 8, &a, &b).unwrap();
    assert!(g.signals(&s.model).is_empty());
    g.add_signal(&mut s.model, &s1).unwrap();
    g.add_signal(&mut s.model, &s1).unwrap();
    assert_eq!(g.signals(&s.model), vec![s1]);
    let r = g.add_signal(&mut s.model, &Signal { id: g.id });
    assert!(matches!(r, Err(AutosarAbstractionError::InvalidParameter(_))));
}

#[test]
fn ports_report_ecu_and_direction() {
    let mut s = setup();
    let a = s.sig_pkg;
    let pdu = SecuredIPdu::new(&mut s.model, "Sec", &a, 16).unwrap();
    let pt = PduTriggering::new(&mut s.model, &Pdu::from(pdu), &s.channel).unwrap();
    let p = pt.connect_to_ecu(&mut s.model, &s.ecu_b, CommunicationDirection::In).unwrap();
    assert_eq!(p.ecu(&s.model), Some(s.ecu_b));
    assert_eq!(p.communication_direction(&s.model), Some(CommunicationDirection::In));
    assert_eq!(pt.pdu_ports(&s.model), vec![p]);
}

#[test]
fn signal_triggerings_on_one_channel_get_numbered_names() {
    let mut s = setup();
    let (a, b) = (s.sig_pkg, s.sys_pkg);
    let pdu = ISignalIPdu::new(&mut s.model, "P", &a, 8).unwrap();
    let pt1 = PduTriggering::new(&mut s.model, &Pdu::from(pdu), &s.channel).unwrap();
    let pt2 = PduTriggering::new(&mut s.model, &Pdu::from(pdu), &s.channel).unwrap();
    let signal = Signal::new(&mut s.model, "S", 8, &a, &b).unwrap();
    let before = s.model.len();
    pdu.map_signal(&mut s.model, &signal, 0, ByteOrder::Opaque, None, TransferProperty::Pending).unwrap();
    assert_eq!(s.model.len(), before + 3);
    assert_eq!(name(&s.model, pt1.signal_triggerings(&s.model)[0].element()), "ST_S");
    assert_eq!(name(&s.model, pt2.signal_triggerings(&s.model)[0].element()), "ST_S_1");
}

#[test]
fn conversion_errors_name_the_requested_type() {
    let mut s = setup();
    let a = s.sig_pkg;
    let nm = NmPdu::new(&mut s.model, "Nm", &a, 8).unwrap();
    let r = NPdu::try_from_element(&s.model, nm.element());
    assert!(matches!(r, Err(AutosarAbstractionError::ConversionError { dest, .. }) if dest == "NPdu"));
    let r = Pdu::try_from_element(&s.model, Element { id: s.channel.id });
    assert!(matches!(r, Err(AutosarAbstractionError::ConversionError { dest, .. }) if dest == "Pdu"));
}

#[test]
fn back_fill_creates_one_portless_triggering_per_mapping() {
    let mut s = setup();
    let (a, b) = (s.sig_pkg, s.sys_pkg);
    let pdu = ISignalIPdu::new(&mut s.model, "P", &a, 8).unwrap();
    let s1 = Signal::new(&mut s.model, "S1", 8, &a, &b).unwrap();
    let s2 = Signal::new(&mut s.model, "S2", 8, &a, &b).unwrap();
    pdu.map_signal(&mut s.model, &s1, 0, ByteOrder::Opaque, None, TransferProperty::Pending).unwrap();
    pdu.map_signal(&mut s.model, &s2, 8, ByteOrder::Opaque, None, TransferProperty::Pending).unwrap();
    let before = s.model.len();
    let pt = PduTriggering::new(&mut s.model, &Pdu::from(pdu), &s.channel).unwrap();
    assert_eq!(s.model.len(), before + 3);
    let sts = pt.signal_triggerings(&s.model);
    assert_eq!(sts.len(), 2);
    assert!(sts.iter().all(|st| st.signal_ports(&s.model).is_empty()));
    let other = NPdu::new(&mut s.model, "N", &a, 8).unwrap();
    let pt_n = PduTriggering::new(&mut s.model, &Pdu::from(other), &s.channel).unwrap();
    assert!(pt_n.signal_triggerings(&s.model).is_empty());
}

use nr_dataplane::pdu_helper::pdu_modify::{
    parse_extended_pco, tlv_decode_nr_network_if_mgm, IpAddress, OctetString, PDUAddress,
    PduAddressType, PduSessioModifyMsg, QOSFlowDescriptions, PDU_MODIFY_IEI, TLV, TLV_E, TV_1,
    TV_2,
};
use nr_dataplane::pdu_helper::qos_rules::RuleOperationCode;
use nr_dataplane::pdu_helper::session_header::SessionMessageType;

fn vonr_mt_modify() -> Vec<u8> {
    vec![
        0x2e, 0x01, 0x00, 0xcb, 0x7a, 0x00, 0x7c, 0x02, 0x00, 0x3b, 0x22, 0x20, 0x1a, 0x21, 0x24,
        0x0e, 0x00, 0x66, 0x10, 0x00, 0x00, 0x00, 0x00, 0x00, 0x00, 0x00, 0x00, 0x00, 0x04, 0x25,
        0x80, 0x30, 0x11, 0x40, 0x0f, 0xa1, 0x50, 0x91, 0xf9, 0x11, 0x1a, 0x21, 0x24, 0x0e, 0x00,
        0x66, 0x10, 0x00, 0x00, 0x00, 0x00, 0x00, 0x00, 0x00, 0x00, 0x00, 0x04, 0x25, 0x80, 0x30,
        0x11, 0x40, 0x0f, 0xa1, 0x50, 0x91, 0xf9, 0xbe, 0x02, 0x03, 0x00, 0x3b, 0x22, 0x22, 0x1a,
        0x21, 0x24, 0x0e, 0x00, 0x66, 0x10, 0x00, 0x00, 0x00, 0x00, 0x00, 0x00, 0x00, 0x00, 0x00,
        0x04, 0x25, 0x80, 0x30, 0x11, 0x40, 0x0f, 0xa0, 0x50, 0x91, 0xf8, 0x13, 0x1a, 0x21, 0x24,
        0x0e, 0x00, 0x66, 0x10, 0x00, 0x00, 0x00, 0x00, 0x00, 0x00, 0x00, 0x00, 0x00, 0x04, 0x25,
        0x80, 0x30, 0x11, 0x40, 0x0f, 0xa0, 0x50, 0x91, 0xf8, 0xbd, 0x02, 0x79, 0x00, 0x1a, 0x02,
        0x20, 0x45, 0x01, 0x01, 0x01, 0x02, 0x03, 0x01, 0x00, 0x2c, 0x03, 0x03, 0x01, 0x00, 0x2c,
        0x04, 0x03, 0x01, 0x00, 0x2c, 0x05, 0x03, 0x01, 0x00, 0x2c,
    ]
}

fn vonr_mt_release_modify() -> Vec<u8> {
    vec![
        0x2e, 0x01, 0x00, 0xcb, 0x7a, 0x00, 0x08, 0x02, 0x00, 0x01, 0x40, 0x03, 0x00, 0x01, 0x40,
        0x79, 0x00, 0x03, 0x02, 0x40, 0x00,
    ]
}

#[test]
fn main_test_vonr_mt_modify() {
    let pdu_session_modify_msg = PduSessioModifyMsg::tlv_decode_pdu_session_modify_msg(vec![
        0x2e, 0x01, 0x00, 0xcb, 0x7a, 0x00, 0x7c, 0x02, 0x00, 0x3b, 0x22, 0x20, 0x1a, 0x21, 0x24,
        0x0e, 0x00, 0x66, 0x10, 0x00, 0x00, 0x00, 0x00, 0x00, 0x00, 0x00, 0x00, 0x00, 0x04, 0x25,
        0x80, 0x30, 0x11, 0x40, 0x0f, 0xa1, 0x50, 0x91, 0xf9, 0x11, 0x1a, 0x21, 0x24, 0x0e, 0x00,
        0x66, 0x10, 0x00, 0x00, 0x00, 0x00, 0x00, 0x00, 0x00, 0x00, 0x00, 0x04, 0x25, 0x80, 0x30,
        0x11, 0x40, 0x0f, 0xa1, 0x50, 0x91, 0xf9, 0xbe, 0x02, 0x03, 0x00, 0x3b, 0x22, 0x22, 0x1a,
        0x21, 0x24, 0x0e, 0x00, 0x66, 0x10, 0x00, 0x00, 0x00, 0x00, 0x00, 0x00, 0x00, 0x00, 0x00,
        0x04, 0x25, 0x80, 0x30, 0x11, 0x40, 0x0f, 0xa0, 0x50, 0x91, 0xf8, 0x13, 0x1a, 0x21, 0x24,
        0x0e, 0x00, 0x66, 0x10, 0x00, 0x00, 0x00, 0x00, 0x00, 0x00, 0x00, 0x00, 0x00, 0x04, 0x25,
        0x80, 0x30, 0x11, 0x40, 0x0f, 0xa0, 0x50, 0x91, 0xf8, 0xbd, 0x02, 0x79, 0x00, 0x1a, 0x02,
        0x20, 0x45, 0x01, 0x01, 0x01, 0x02, 0x03, 0x01, 0x00, 0x2c, 0x03, 0x03, 0x01, 0x00, 0x2c,
        0x04, 0x03, 0x01, 0x00, 0x2c, 0x05, 0x03, 0x01, 0x00, 0x2c,
    ]);

    println!("{:#?}", pdu_session_modify_msg);
}

#[test]
fn main_test_vonr_mt_release_modify() {
    let pdu_session_modify_msg = PduSessioModifyMsg::tlv_decode_pdu_session_modify_msg(vec![
        0x2e, 0x01, 0x00, 0xcb, 0x7a, 0x00, 0x08, 0x02, 0x00, 0x01, 0x40, 0x03, 0x00, 0x01, 0x40,
        0x79, 0x00, 0x03, 0x02, 0x40, 0x00,
    ]);

    println!("{:#?}", pdu_session_modify_msg);
}

#[test]
fn modify_command_header_and_rules() {
    let msg = PduSessioModifyMsg::tlv_decode_pdu_session_modify_msg(vonr_mt_modify()).unwrap();
    assert_eq!(msg.extendedprotocoldiscriminator, 0x2e);
    assert_eq!(msg.pdusessionidentity, 0x01);
    assert_eq!(msg.proceduretransactionidentity, 0x00);
    assert_eq!(msg.messagetype, SessionMessageType::ModificationCommand);
    assert_eq!(msg.qosrules.lengthofqosrulesie, 0x7c);
    assert_eq!(msg.qosrules.qosrulesie.len(), 2);
    let rule2 = &msg.qosrules.qosrulesie[&2];
    assert_eq!(rule2.qosruleidentifer, 2);
    assert_eq!(rule2.lengthof_qo_srule, 0x3b);
    assert_eq!(rule2.numberofpacketfilters, 2);
    assert_eq!(rule2.dqrbit, 0);
    assert_eq!(rule2.ruleoperationcode, RuleOperationCode::CreateNewQosRule);
    assert_eq!(rule2.packetfilterlist.len(), 2);
    assert_eq!(rule2.qosruleprecedence, 0xbe);
    assert_eq!(rule2.qosflowidentifer, 2);
    let rule3 = &msg.qosrules.qosrulesie[&3];
    assert_eq!(rule3.qosruleprecedence, 0xbd);
    assert_eq!(rule3.qosflowidentifer, 2);
    // elements that decoding does not set keep their initial values
    assert_eq!(msg.dnn.length, 0);
    assert!(msg.dnn.value.is_empty());
    assert_eq!(msg.qosflowdescriptions.qosflowdescriptionsnumber, 0);
    assert_eq!(msg.pduaddress.pdu_session_type_value, PduAddressType::IPV4);
}

#[test]
fn modify_command_deleting_rules() {
    let msg =
        PduSessioModifyMsg::tlv_decode_pdu_session_modify_msg(vonr_mt_release_modify()).unwrap();
    assert_eq!(msg.qosrules.lengthofqosrulesie, 8);
    assert_eq!(msg.qosrules.qosrulesie.len(), 2);
    for id in [2u8, 3u8] {
        let rule = &msg.qosrules.qosrulesie[&id];
        assert_eq!(rule.ruleoperationcode, RuleOperationCode::DeleteExistingQosRule);
        assert_eq!(rule.numberofpacketfilters, 0);
        assert_eq!(rule.qosflowidentifer, 0);
    }
}

#[test]
fn modify_command_without_elements() {
    let msg = PduSessioModifyMsg::try_decode_pdu_session_modify_msg(&[0x2e, 0x05, 0x07]).unwrap();
    assert_eq!(msg.pdusessionidentity, 5);
    assert_eq!(msg.proceduretransactionidentity, 7);
    assert!(msg.qosrules.qosrulesie.is_empty());
    assert_eq!(msg.qosrules.lengthofqosrulesie, 0);
}

#[test]
fn modify_command_skips_tv_and_tlv_elements() {
    // always-on indication (TV-1), 5GSM cause (TV-2), session AMBR (TLV, 2 octets),
    // an unknown identifier read as TLV (1 octet)
    let data = [0x2e, 0x01, 0x00, 0xcb, 0x08, 0x59, 0x1a, 0x2a, 0x02, 0xaa, 0xbb, 0x33, 0x01, 0xcc];
    let msg = PduSessioModifyMsg::try_decode_pdu_session_modify_msg(&data).unwrap();
    assert!(msg.qosrules.qosrulesie.is_empty());
}

#[test]
fn modify_command_too_short() {
    assert!(PduSessioModifyMsg::try_decode_pdu_session_modify_msg(&[0x2e, 0x01]).is_none());
    assert!(PduSessioModifyMsg::try_decode_pdu_session_modify_msg(&[]).is_none());
}

#[test]
fn modify_command_truncated_elements() {
    // a TLV element whose length octet is missing
    assert!(PduSessioModifyMsg::try_decode_pdu_session_modify_msg(&[0x2e, 0x01, 0x00, 0xcb, 0x2a])
        .is_none());
    // a TLV-E element whose second length octet is missing
    assert!(
        PduSessioModifyMsg::try_decode_pdu_session_modify_msg(&[0x2e, 0x01, 0x00, 0xcb, 0x79, 0x00])
            .is_none()
    );
    // authorized QoS rules reaching past the end
    assert!(PduSessioModifyMsg::try_decode_pdu_session_modify_msg(&[
        0x2e, 0x01, 0x00, 0xcb, 0x7a, 0x00, 0x05, 0x01
    ])
    .is_none());
    // other TLV-E elements may announce more octets than remain
    assert!(PduSessioModifyMsg::try_decode_pdu_session_modify_msg(&[
        0x2e, 0x01, 0x00, 0xcb, 0x79, 0x00, 0x05, 0x01
    ])
    .is_some());
}

#[test]
fn last_authorized_rules_win() {
    let data = [
        0x2e, 0x01, 0x00, 0xcb, 0x7a, 0x00, 0x04, 0x02, 0x00, 0x01, 0x40, 0x7a, 0x00, 0x04, 0x05,
        0x00, 0x01, 0x40,
    ];
    let msg = PduSessioModifyMsg::try_decode_pdu_session_modify_msg(&data).unwrap();
    assert_eq!(msg.qosrules.qosrulesie.len(), 1);
    assert!(msg.qosrules.qosrulesie.contains_key(&5));
}

#[test]
fn new_message_is_initial() {
    let msg = PduSessioModifyMsg::new();
    assert_eq!(msg.extendedprotocoldiscriminator, 0);
    assert_eq!(msg.messagetype, SessionMessageType::Unknown);
    assert_eq!(msg.pdusessiontype.pdu_session_type_value, PduAddressType::IPV4);
    assert_eq!(msg.sscmode.sscModeValue, 0);
    assert!(msg.qosrules.qosrulesie.is_empty());
    assert!(msg.qosflowdescriptions.qosflowdescriptionscontents.is_empty());
}

#[test]
fn pdu_address_type_codes() {
    assert_eq!(PduAddressType::from_u8(1), PduAddressType::IPV4);
    assert_eq!(PduAddressType::from_u8(2), PduAddressType::IPV6);
    assert_eq!(PduAddressType::from_u8(3), PduAddressType::IPV4V6);
    assert_eq!(PduAddressType::from_u8(0), PduAddressType::Unknown);
    assert_eq!(PduAddressType::from_u8(9), PduAddressType::Unknown);
}

#[test]
fn iei_classification() {
    assert!(matches!(PDU_MODIFY_IEI::from_u8(0x08), PDU_MODIFY_IEI::TV_1(_)));
    assert!(matches!(PDU_MODIFY_IEI::from_u8(0x56), PDU_MODIFY_IEI::TV_2(TV_2::PDU_SESSION_MODIFY_RQ_TIMER_IEI)));
    assert!(matches!(PDU_MODIFY_IEI::from_u8(0x59), PDU_MODIFY_IEI::TV_2(TV_2::PDU_SESSION_MODIFY_5_GSM_CAUSE_IEI)));
    assert!(matches!(PDU_MODIFY_IEI::from_u8(0x2a), PDU_MODIFY_IEI::TLV(TLV::PDU_SESSION_MODIFY_SESS_AMBR)));
    assert!(matches!(PDU_MODIFY_IEI::from_u8(0x7a), PDU_MODIFY_IEI::TLV_E(TLV_E::PDU_SESSION_MODIFY_AUTH_QOS)));
    assert!(matches!(PDU_MODIFY_IEI::from_u8(0x7B), PDU_MODIFY_IEI::TLV_E(TLV_E::PDU_SESSION_MODIFY_EPCO_IEI)));
    assert!(matches!(PDU_MODIFY_IEI::from_u8(0x33), PDU_MODIFY_IEI::TLV(TLV::ANY)));
    assert!(TV_1::from_u8(0x09).is_none());
    assert!(TLV::from_u8(0x1e).is_some());
    assert!(TLV_E::from_u8(0x74).is_some());
}

#[test]
fn network_interface_frames() {
    // a skipped record, then a create record
    let data = [0x22, 0x01, 0x09, 0x00, 0x03, 0x0a, 0x0b, 0x0c, 0x99];
    assert_eq!(tlv_decode_nr_network_if_mgm(&data), Some((0x00, vec![0x0a, 0x0b, 0x0c])));
    let data = [0x01, 0x02, 0x05, 0x06];
    assert_eq!(tlv_decode_nr_network_if_mgm(&data), Some((0x01, vec![0x05, 0x06])));
    let data = [0x11, 0x00, 0xff, 0x07];
    assert_eq!(tlv_decode_nr_network_if_mgm(&data), Some((0xff, vec![])));
    let data = [0x11, 0x01, 0x00];
    assert_eq!(tlv_decode_nr_network_if_mgm(&data), None);
    assert_eq!(tlv_decode_nr_network_if_mgm(&[]), None);
}

fn pco_bytes() -> Vec<u8> {
    let mut d = vec![0x7b, 0x00, 0x27, 0x80];
    // P-CSCF IPv6 address container
    d.extend_from_slice(&[0x00, 0x01, 0x10]);
    d.extend_from_slice(&[0x24, 0x0e, 0x00, 0x66, 0x10, 0, 0, 0, 0, 0, 0, 0, 0, 0, 0, 0x04]);
    // DNS server IPv6 address container
    d.extend_from_slice(&[0x00, 0x03, 0x10]);
    d.extend_from_slice(&[0x24, 0x0e, 0x00, 0x66, 0x10, 0, 0, 0, 0, 0, 0, 0, 0, 0, 0, 0x18]);
    d
}

#[test]
fn pco_pcscf_address() {
    let mut opts = parse_extended_pco(&pco_bytes()).unwrap();
    let addr = opts.get_pcscf_v6_addr().unwrap();
    assert_eq!(addr, [0x24, 0x0e, 0x00, 0x66, 0x10, 0, 0, 0, 0, 0, 0, 0, 0, 0, 0, 0x04]);
    let dns = opts.get_dns_v6_addr().unwrap();
    assert_eq!(dns, [0x24, 0x0e, 0x00, 0x66, 0x10, 0, 0, 0, 0, 0, 0, 0, 0, 0, 0, 0x18]);
}

#[test]
fn pco_without_pcscf() {
    let mut opts = parse_extended_pco(&[0x7b, 0x00, 0x04, 0x80, 0x00, 0x03, 0x01, 0x07]).unwrap();
    assert_eq!(opts.get_pcscf_v6_addr(), None);
    let mut msg = PduSessioModifyMsg::new();
    msg.extendedprotocolconfigurationoptions = opts;
    let mut localhost = [0u8; 16];
    localhost[15] = 1;
    assert_eq!(msg.get_pcscf_v6_address(), localhost);
    // the DNS container holds 1 octet, not an IPv6 address
    assert_eq!(msg.get_dns_v6_address(), None);
}

#[test]
fn message_pcscf_and_dns_addresses() {
    let mut msg = PduSessioModifyMsg::new();
    msg.extendedprotocolconfigurationoptions = parse_extended_pco(&pco_bytes()).unwrap();
    let pcscf = [0x24, 0x0e, 0x00, 0x66, 0x10, 0, 0, 0, 0, 0, 0, 0, 0, 0, 0, 0x04];
    let dns = [0x24, 0x0e, 0x00, 0x66, 0x10, 0, 0, 0, 0, 0, 0, 0, 0, 0, 0, 0x18];
    assert_eq!(msg.get_pcscf_v6_address(), pcscf);
    assert_eq!(msg.get_dns_v6_address(), Some(dns));
}

#[test]
fn octet_string_set_value_and_text() {
    let mut s = OctetString { length: 0, value: vec![] };
    s.set_value(b"xxims-apn", 2, 3);
    assert_eq!(s.length, 3);
    assert_eq!(s.value, b"ims".to_vec());
    assert_eq!(s.to_string(), "ims");
    s.set_value(b"internet", 0, 8);
    assert_eq!(s.length, 8);
    assert_eq!(s.value, b"internet".to_vec());
    s.set_value(b"", 0, 0);
    assert_eq!(s.length, 0);
    assert!(s.value.is_empty());
    let bad = OctetString { length: 2, value: vec![0xff, 0xfe] };
    assert_eq!(bad.to_string(), "None");
    let mut t = OctetString { length: 3, value: vec![1, 2, 3] };
    assert_eq!(t.to_bytes_u8(), &[1u8, 2, 3]);
}

#[test]
fn dnn_names() {
    let mut s = OctetString { length: 8, value: vec![0x03, b'i', b'm', b's', 0x02, b'a', b'b'] };
    assert_eq!(s.dnn_to_string(), "ims");
    let mut s = OctetString { length: 6, value: vec![0x01, 0xff, 0x03, b'i', b'o', b't'] };
    assert_eq!(s.dnn_to_string(), "iot");
    let mut s = OctetString { length: 2, value: vec![0x01, 0xff] };
    assert_eq!(s.dnn_to_string(), "None");
    let mut msg = PduSessioModifyMsg::new();
    assert_eq!(msg.get_dnn_name(), "");
    msg.dnn = OctetString { length: 4, value: vec![0x03, b'i', b'm', b's'] };
    assert_eq!(msg.get_dnn_name(), "ims");
}

#[test]
fn pdu_address_ipv4_and_ipv6() {
    let mut msg = PduSessioModifyMsg::new();
    msg.pduaddress.pdu_address_information.value = vec![10, 45, 0, 7];
    assert_eq!(msg.get_ipv4(), Ok(IpAddress::V4([10, 45, 0, 7])));
    assert!(msg._get_ipv6().is_err());

    msg.pduaddress.pdu_address_information.value = vec![1, 2, 3, 4, 5, 6, 7, 8];
    assert!(msg.get_ipv4().is_err());
    assert_eq!(
        msg._get_ipv6(),
        Ok(IpAddress::V6([0, 0, 0, 0, 0, 0, 0, 0, 1, 2, 3, 4, 5, 6, 7, 8]))
    );

    msg.pduaddress.pdu_address_information.value = vec![1, 2, 3, 4, 5, 6, 7, 8, 10, 0, 0, 9];
    assert_eq!(msg.get_ipv4(), Ok(IpAddress::V4([10, 0, 0, 9])));
    assert_eq!(
        msg._get_ipv6(),
        Ok(IpAddress::V6([0, 0, 0, 0, 0, 0, 0, 0, 1, 2, 3, 4, 5, 6, 7, 8]))
    );

    msg.pduaddress.pdu_address_information.value = vec![1, 2, 3];
    assert!(msg.get_ipv4().is_err());
    assert!(msg._get_ipv6().is_err());
}

#[test]
fn defaults_of_elements() {
    let a = PDUAddress::default();
    assert_eq!(a.pdu_session_type_value, PduAddressType::IPV4);
    assert_eq!(a.pdu_address_information.length, 0);
    let q = QOSFlowDescriptions::default();
    assert_eq!(q.qosflowdescriptionsnumber, 0);
    assert!(q.qosflowdescriptionscontents.is_empty());
}

#[test]
fn session_message_types() {
    assert_eq!(SessionMessageType::of_message(&vonr_mt_modify()), SessionMessageType::ModificationCommand);
    assert_eq!(SessionMessageType::of_message(&[0x2e, 0x01, 0x01, 0xc2]), SessionMessageType::EstablishmentAccept);
    assert_eq!(SessionMessageType::of_message(&[0x2e, 0x01, 0x01]), SessionMessageType::Unknown);
    assert_eq!(SessionMessageType::from_u8(0xd3), SessionMessageType::ReleaseCommand);
    assert_eq!(SessionMessageType::from_u8(0xc4), SessionMessageType::Unknown);
    assert_eq!(SessionMessageType::default(), SessionMessageType::Unknown);
}

#[test]
fn unknown_element_is_skipped() {
    let d = vonr_mt_release_modify();
    // insert an element with the unknown identifier 0x33 and 3 octets at octet 4
    let mut d2 = d[..4].to_vec();
    d2.extend_from_slice(&[0x33, 0x03, 0x7a, 0x00, 0x04]);
    d2.extend_from_slice(&d[4..]);
    let a = PduSessioModifyMsg::try_decode_pdu_session_modify_msg(&d).unwrap();
    let b = PduSessioModifyMsg::try_decode_pdu_session_modify_msg(&d2).unwrap();
    assert_eq!(a.pdusessionidentity, b.pdusessionidentity);
    assert_eq!(a.qosrules.lengthofqosrulesie, b.qosrules.lengthofqosrulesie);
    assert_eq!(a.qosrules.qosrulesie.len(), b.qosrules.qosrulesie.len());
    for id in [2u8, 3u8] {
        assert_eq!(format!("{:?}", a.qosrules.qosrulesie[&id]), format!("{:?}", b.qosrules.qosrulesie[&id]));
    }
}

use nr_dataplane::pdu_helper::qos_rules::{
    pkt_direction, PacketFilterComponentType, PacketFilterListEnum, QOSRules, RuleOperationCode,
};

const DEST: [u8; 16] = [0x24, 0x0e, 0x00, 0x66, 0x10, 0, 0, 0, 0, 0, 0, 0, 0, 0, 0x04, 0x25];

/// A rules element with one rule (identifier `id`): create, the given DQR bit, one uplink
/// filter whose only component is the IPv6 remote address `addr`/64, precedence 0x10, QFI `qfi`.
fn one_rule(id: u8, dqr: bool, addr: [u8; 16], qfi: u8) -> Vec<u8> {
    let op = if dqr { 0x31 } else { 0x21 };
    let mut d = vec![0x00, 26, id, 0x00, 23, op, 0x20, 18, 0x21];
    d.extend_from_slice(&addr);
    d.push(64);
    d.push(0x10);
    d.push(qfi);
    d
}

fn ipv6_packet(version_byte: u8, dest: [u8; 16]) -> Vec<u8> {
    let mut p = vec![0u8; 40];
    p[0] = version_byte;
    p[24..40].copy_from_slice(&dest);
    p.extend_from_slice(&[1, 2, 3, 4]);
    p
}

#[test]
fn decodes_one_rule() {
    let rules = QOSRules::try_decode(&one_rule(1, false, DEST, 5)).unwrap();
    assert_eq!(rules.lengthofqosrulesie, 26);
    assert_eq!(rules.qosrulesie.len(), 1);
    let rule = &rules.qosrulesie[&1];
    assert_eq!(rule.lengthof_qo_srule, 23);
    assert_eq!(rule.numberofpacketfilters, 1);
    assert_eq!(rule.dqrbit, 0);
    assert_eq!(rule.ruleoperationcode, RuleOperationCode::CreateNewQosRule);
    assert_eq!(rule.qosruleprecedence, 0x10);
    assert_eq!(rule.qosflowidentifer, 5);
    assert_eq!(rule.segregation, 0);
    match &rule.packetfilterlist[0] {
        PacketFilterListEnum::PacketFilterListUpdatePFList(f) => {
            assert_eq!(f.packet_filter_direction, pkt_direction::UPLINK_ONLY);
            assert_eq!(f.packet_filter_id, 0);
            assert_eq!(f.length_packet_filter_contents, 18);
            assert_eq!(f.packet_filter_content_list.len(), 1);
            assert_eq!(
                f.packet_filter_content_list[0].packet_filter_content_type,
                PacketFilterComponentType::IPv6RemoteAddressPrefixLength
            );
        }
        other => panic!("unexpected filter {:?}", other),
    }
}

#[test]
fn decode_takes_owned_bytes() {
    let rules = QOSRules::decode(one_rule(9, true, DEST, 7));
    assert_eq!(rules.qosrulesie[&9].dqrbit, 1);
    assert_eq!(rules.qosrulesie[&9].qosflowidentifer, 7);
}

#[test]
fn short_length_has_no_rules() {
    let rules = QOSRules::try_decode(&[0x00, 0x02, 0xff]).unwrap();
    assert!(rules.qosrulesie.is_empty());
    assert_eq!(rules.lengthofqosrulesie, 2);
}

#[test]
fn truncated_rules_do_not_decode() {
    assert!(QOSRules::try_decode(&[0x00]).is_none());
    let mut d = one_rule(1, false, DEST, 5);
    d.truncate(20);
    assert!(QOSRules::try_decode(&d).is_none());
}

#[test]
fn delete_filters_rule() {
    // modify and delete packet filters (101) with a filter count of 2: one list of the
    // identifiers 1 and 2
    let d = [0x00, 0x06, 0x04, 0x00, 0x03, 0xa2, 0x01, 0x02];
    let rules = QOSRules::try_decode(&d).unwrap();
    assert_eq!(rules.lengthofqosrulesie, 6);
    assert_eq!(rules.qosrulesie.len(), 1);
    let rule = &rules.qosrulesie[&4];
    assert_eq!(rule.ruleoperationcode, RuleOperationCode::ModifyExistingQosRuleAndDeletePackerFilters);
    assert_eq!(rule.numberofpacketfilters, 2);
    assert_eq!(rule.packetfilterlist.len(), 1);
    match &rule.packetfilterlist[0] {
        PacketFilterListEnum::PacketFilterListDeletePFList(ids) => {
            assert_eq!(ids.packet_fliter_id, vec![0x01, 0x02]);
        }
        other => panic!("unexpected filter {:?}", other),
    }
    assert_eq!(rule.qosflowidentifer, 0);
}

#[test]
fn ipv4_remote_address_component() {
    // create rule 1: one uplink filter, id 1, IPv4 remote address 10.0.0.1 mask
    // 255.255.255.0; precedence 1, QFI 1
    let d = vec![
        0x00, 0x11, 0x01, 0x00, 0x0e, 0x21, 0x21, 0x09, 0x10, 0x0a, 0x00, 0x00, 0x01, 0xff, 0xff,
        0xff, 0x00, 0x01, 0x01,
    ];
    let rules = QOSRules::decode(d);
    let rule = &rules.qosrulesie[&1];
    assert_eq!(rule.qosruleprecedence, 1);
    assert_eq!(rule.qosflowidentifer, 1);
    match &rule.packetfilterlist[0] {
        PacketFilterListEnum::PacketFilterListUpdatePFList(f) => {
            assert_eq!(f.packet_filter_direction, pkt_direction::UPLINK_ONLY);
            assert_eq!(f.packet_filter_id, 1);
            assert_eq!(f.length_packet_filter_contents, 9);
            assert_eq!(f.packet_filter_content_list.len(), 1);
            let text = format!("{:?}", f.packet_filter_content_list[0].packet_filter_content_value);
            assert_eq!(
                text,
                "IPv4RemoteAddress(IPv4FilterAddress { ipv4_address: [10, 0, 0, 1], ipv4_address_mask: [255, 255, 255, 0] })"
            );
        }
        other => panic!("unexpected filter {:?}", other),
    }
}

#[test]
fn local_port_range_component() {
    // create rule 2: one bidirectional filter with a local port range 5060..5070
    let d = vec![0x00, 0x0d, 0x02, 0x00, 0x0a, 0x21, 0x30, 0x05, 0x41, 0x13, 0xc4, 0x13, 0xce, 0x05, 0x03];
    let rules = QOSRules::decode(d);
    let rule = &rules.qosrulesie[&2];
    assert_eq!(rule.qosruleprecedence, 5);
    assert_eq!(rule.qosflowidentifer, 3);
    match &rule.packetfilterlist[0] {
        PacketFilterListEnum::PacketFilterListUpdatePFList(f) => {
            assert_eq!(f.packet_filter_direction, pkt_direction::DUAL_DIRECTION);
            assert_eq!(
                f.packet_filter_content_list[0].packet_filter_content_type,
                PacketFilterComponentType::LocalPortRange
            );
            let text = format!("{:?}", f.packet_filter_content_list[0].packet_filter_content_value);
            assert_eq!(text, "LocalPortRange(PortRange { low: 5060, high: 5070 })");
        }
        other => panic!("unexpected filter {:?}", other),
    }
}

#[test]
fn reflect_matching_destination() {
    let rules = QOSRules::try_decode(&one_rule(1, false, DEST, 5)).unwrap();
    assert_eq!(rules.reflect_pkt_to_qfi(ipv6_packet(0x60, DEST)), 5);
}

#[test]
fn reflect_other_destination_gets_default() {
    let rules = QOSRules::try_decode(&one_rule(1, false, DEST, 5)).unwrap();
    let mut other = DEST;
    other[15] = 0x26;
    assert_eq!(rules.reflect_pkt_to_qfi(ipv6_packet(0x60, other)), 1);
}

#[test]
fn reflect_default_from_dqr_rule() {
    let rules = QOSRules::try_decode(&one_rule(1, true, DEST, 7)).unwrap();
    let mut other = DEST;
    other[0] = 0x20;
    assert_eq!(rules.reflect_pkt_to_qfi(ipv6_packet(0x60, other)), 7);
    assert_eq!(rules.reflect_pkt_to_qfi(ipv6_packet(0x60, DEST)), 7);
}

#[test]
fn reflect_non_ipv6_packets() {
    let rules = QOSRules::try_decode(&one_rule(1, true, DEST, 7)).unwrap();
    assert_eq!(rules.reflect_pkt_to_qfi(ipv6_packet(0x45, DEST)), 1);
    assert_eq!(rules.reflect_pkt_to_qfi(vec![0x60; 39]), 1);
    assert_eq!(rules.reflect_pkt_to_qfi(vec![]), 1);
}

#[test]
fn reflect_with_vonr_rules() {
    let rules = QOSRules::try_decode(&[
        0x00, 0x7c, 0x02, 0x00, 0x3b, 0x22, 0x20, 0x1a, 0x21, 0x24, 0x0e, 0x00, 0x66, 0x10, 0x00,
        0x00, 0x00, 0x00, 0x00, 0x00, 0x00, 0x00, 0x00, 0x04, 0x25, 0x80, 0x30, 0x11, 0x40, 0x0f,
        0xa1, 0x50, 0x91, 0xf9, 0x11, 0x1a, 0x21, 0x24, 0x0e, 0x00, 0x66, 0x10, 0x00, 0x00, 0x00,
        0x00, 0x00, 0x00, 0x00, 0x00, 0x00, 0x04, 0x25, 0x80, 0x30, 0x11, 0x40, 0x0f, 0xa1, 0x50,
        0x91, 0xf9, 0xbe, 0x02, 0x03, 0x00, 0x3b, 0x22, 0x22, 0x1a, 0x21, 0x24, 0x0e, 0x00, 0x66,
        0x10, 0x00, 0x00, 0x00, 0x00, 0x00, 0x00, 0x00, 0x00, 0x00, 0x04, 0x25, 0x80, 0x30, 0x11,
        0x40, 0x0f, 0xa0, 0x50, 0x91, 0xf8, 0x13, 0x1a, 0x21, 0x24, 0x0e, 0x00, 0x66, 0x10, 0x00,
        0x00, 0x00, 0x00, 0x00, 0x00, 0x00, 0x00, 0x00, 0x04, 0x25, 0x80, 0x30, 0x11, 0x40, 0x0f,
        0xa0, 0x50, 0x91, 0xf8, 0xbd, 0x02,
    ])
    .unwrap();
    assert_eq!(rules.qosrulesie.len(), 2);
    assert_eq!(rules.reflect_pkt_to_qfi(ipv6_packet(0x60, DEST)), 2);
}

#[test]
fn reflect_with_no_rules() {
    let rules = QOSRules::try_decode(&[0x00, 0x00]).unwrap();
    assert_eq!(rules.reflect_pkt_to_qfi(ipv6_packet(0x60, DEST)), 1);
}

#[test]
fn operation_direction_and_component_codes() {
    assert_eq!(RuleOperationCode::from_u8(0), RuleOperationCode::Reserved);
    assert_eq!(RuleOperationCode::from_u8(1), RuleOperationCode::CreateNewQosRule);
    assert_eq!(RuleOperationCode::from_u8(6), RuleOperationCode::ModifyExistingQosRuleWithoutModifyPackerFilters);
    assert_eq!(RuleOperationCode::from_u8(7), RuleOperationCode::Reserved);
    assert_eq!(pkt_direction::from_u8(0), pkt_direction::RESERVED);
    assert_eq!(pkt_direction::from_u8(1), pkt_direction::DOWNLINK_ONLY);
    assert_eq!(pkt_direction::from_u8(2), pkt_direction::UPLINK_ONLY);
    assert_eq!(pkt_direction::from_u8(3), pkt_direction::DUAL_DIRECTION);
    assert_eq!(PacketFilterComponentType::from_u8(0x21), PacketFilterComponentType::IPv6RemoteAddressPrefixLength);
    assert_eq!(PacketFilterComponentType::from_u8(0x40), PacketFilterComponentType::SingleLocalPort);
    assert_eq!(PacketFilterComponentType::from_u8(0x41), PacketFilterComponentType::LocalPortRange);
    assert_eq!(PacketFilterComponentType::from_u8(0x01), PacketFilterComponentType::MatchAll);
    assert_eq!(PacketFilterComponentType::from_u8(0x99), PacketFilterComponentType::Ethertype);
}

#[test]
fn trailing_bytes_are_ignored() {
    let d = one_rule(1, false, DEST, 5);
    let mut longer = d.clone();
    longer.extend_from_slice(&[0xde, 0xad, 0xbe, 0xef]);
    let a = QOSRules::try_decode(&d).unwrap();
    let b = QOSRules::try_decode(&longer).unwrap();
    assert_eq!(a.lengthofqosrulesie, b.lengthofqosrulesie);
    assert_eq!(format!("{:?}", a.qosrulesie[&1]), format!("{:?}", b.qosrulesie[&1]));
    assert_eq!(a.qosrulesie.len(), b.qosrulesie.len());
}

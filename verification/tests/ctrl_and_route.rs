use nr_dataplane::ctrl_helper::{CtrlAction, CtrlMsg, MSG_TYPE, TLV_DATA};
use nr_dataplane::msg::{IttiTrxTag, NasDecoerSdu};
use nr_dataplane::route_helper::{RouteCmd, RouteCmdKind};

#[test]
fn encode_connecting_frame() {
    let msg = CtrlMsg { msg_type: MSG_TYPE::ARM_CONNECTING_MSG, tlv_data: TLV_DATA { data: vec![] } };
    assert_eq!(msg.encode_to_vec(), vec![0x01, 0x00, 0x00]);
}

#[test]
fn encode_release_frame() {
    let msg = CtrlMsg { msg_type: MSG_TYPE::ARM_RELEASE_MSG, tlv_data: TLV_DATA { data: vec![] } };
    assert_eq!(msg.encode_to_vec(), vec![0xff, 0x00, 0x00]);
}

#[test]
fn encode_modify_frame() {
    let payload = vec![
        0x2e, 0x01, 0x00, 0xcb, 0x7a, 0x00, 0x08, 0x02, 0x00, 0x01, 0x40, 0x03, 0x00, 0x01, 0x40,
        0x79, 0x00, 0x03, 0x02, 0x40, 0x00,
    ];
    let msg = CtrlMsg {
        msg_type: MSG_TYPE::PDU_SESSION_MODIFY_MSG,
        tlv_data: TLV_DATA { data: payload.clone() },
    };
    let bytes = msg.encode_to_vec();
    assert_eq!(&bytes[..3], &[0x03, 0x00, 21]);
    assert_eq!(&bytes[3..], &payload[..]);
}

#[test]
fn encode_long_payload_length() {
    let msg = CtrlMsg {
        msg_type: MSG_TYPE::PDU_SESSION_ESTABLISHMENT_MSG,
        tlv_data: TLV_DATA { data: vec![7; 0x1234] },
    };
    let bytes = msg.encode_to_vec();
    assert_eq!(&bytes[..3], &[0x02, 0x12, 0x34]);
    assert_eq!(bytes.len(), 3 + 0x1234);
}

#[test]
fn encode_oversized_payload_length_wraps() {
    let msg = CtrlMsg { msg_type: MSG_TYPE::UNKNOW, tlv_data: TLV_DATA { data: vec![0; 0x10001] } };
    let bytes = msg.encode_to_vec();
    assert_eq!(&bytes[..3], &[0x06, 0x00, 0x01]);
    assert_eq!(bytes.len(), 3 + 0x10001);
}

#[test]
fn decode_frame_ignores_trailing_bytes() {
    let msg = CtrlMsg::decode_from_udp_pkt(vec![0x05, 0x00, 0x02, 0xaa, 0xbb, 0xcc]);
    assert!(matches!(msg.msg_type, MSG_TYPE::PCSCF_DNS_ASK_MSG));
    assert_eq!(msg.tlv_data.data, vec![0xaa, 0xbb]);
}

#[test]
fn frame_roundtrip() {
    let payload: Vec<u8> = (0..=255u8).collect();
    let msg = CtrlMsg { msg_type: MSG_TYPE::PDU_SESSION_RELEASE_MSG, tlv_data: TLV_DATA { data: payload.clone() } };
    let back = CtrlMsg::decode_from_udp_pkt(msg.encode_to_vec());
    assert!(matches!(back.msg_type, MSG_TYPE::PDU_SESSION_RELEASE_MSG));
    assert_eq!(back.tlv_data.data, payload);
}

#[test]
fn message_type_codes() {
    assert!(matches!(MSG_TYPE::from_u8(0x01), MSG_TYPE::ARM_CONNECTING_MSG));
    assert!(matches!(MSG_TYPE::from_u8(0x02), MSG_TYPE::PDU_SESSION_ESTABLISHMENT_MSG));
    assert!(matches!(MSG_TYPE::from_u8(0x03), MSG_TYPE::PDU_SESSION_MODIFY_MSG));
    assert!(matches!(MSG_TYPE::from_u8(0x04), MSG_TYPE::PDU_SESSION_RELEASE_MSG));
    assert!(matches!(MSG_TYPE::from_u8(0x05), MSG_TYPE::PCSCF_DNS_ASK_MSG));
    assert!(matches!(MSG_TYPE::from_u8(0xff), MSG_TYPE::ARM_RELEASE_MSG));
    assert!(matches!(MSG_TYPE::from_u8(0x06), MSG_TYPE::UNKNOW));
    assert!(matches!(MSG_TYPE::from_u8(0x42), MSG_TYPE::UNKNOW));
}

#[test]
fn route_commands() {
    let a = RouteCmd::add("ip -6 route add 240e::/16 dev tun0".to_string());
    assert_eq!(a.kind, RouteCmdKind::Add);
    assert_eq!(a.cmd, "ip -6 route add 240e::/16 dev tun0");
    let s = RouteCmd::set("ip route replace default dev tun0".to_string());
    assert_eq!(s.kind, RouteCmdKind::Replace);
    let d = RouteCmd::delete("ip route del default".to_string());
    assert_eq!(d.kind, RouteCmdKind::Delete);
    assert_eq!(d.cmd, "ip route del default");
}

#[test]
fn itti_tags_and_sdus() {
    assert_ne!(IttiTrxTag::GtpUdp, IttiTrxTag::Listener);
    let sdu = NasDecoerSdu { sdu: vec![1, 2, 3] };
    assert_eq!(sdu.clone().sdu, vec![1, 2, 3]);
}

#[test]
fn controller_actions() {
    let frame = |t: MSG_TYPE, data: Vec<u8>| CtrlMsg { msg_type: t, tlv_data: TLV_DATA { data } };
    match frame(MSG_TYPE::PDU_SESSION_MODIFY_MSG, vec![0x2e, 0x01, 0x00, 0xcb]).controller_action() {
        CtrlAction::DecodeNas(sdu) => assert_eq!(sdu.sdu, vec![0x2e, 0x01, 0x00, 0xcb]),
        other => panic!("unexpected action {:?}", other),
    }
    match frame(MSG_TYPE::PDU_SESSION_ESTABLISHMENT_MSG, vec![0x2e, 0x01, 0x01, 0xc2]).controller_action() {
        CtrlAction::DecodeNas(sdu) => assert_eq!(sdu.sdu, vec![0x2e, 0x01, 0x01, 0xc2]),
        other => panic!("unexpected action {:?}", other),
    }
    assert!(matches!(
        frame(MSG_TYPE::PDU_SESSION_RELEASE_MSG, vec![9]).controller_action(),
        CtrlAction::DecodeNas(_)
    ));
    assert!(matches!(
        frame(MSG_TYPE::ARM_RELEASE_MSG, vec![]).controller_action(),
        CtrlAction::DeleteAllPduSessions
    ));
    assert!(matches!(frame(MSG_TYPE::ARM_CONNECTING_MSG, vec![]).controller_action(), CtrlAction::Ignore));
    assert!(matches!(frame(MSG_TYPE::PCSCF_DNS_ASK_MSG, vec![]).controller_action(), CtrlAction::Ignore));
    assert!(matches!(frame(MSG_TYPE::UNKNOW, vec![1]).controller_action(), CtrlAction::Ignore));
}

#[test]
fn frame_readability() {
    assert!(CtrlMsg::is_readable(&[0x01, 0x00, 0x00]));
    assert!(CtrlMsg::is_readable(&[0x03, 0x00, 0x02, 0xaa, 0xbb]));
    assert!(CtrlMsg::is_readable(&[0x03, 0x00, 0x01, 0xaa, 0xbb]));
    assert!(!CtrlMsg::is_readable(&[0x03, 0x00, 0x03, 0xaa, 0xbb]));
    assert!(!CtrlMsg::is_readable(&[0x03, 0x01]));
    assert!(!CtrlMsg::is_readable(&[]));
}

#[test]
fn frame_rewrite_gives_same_bytes() {
    let bytes = vec![0x03, 0x00, 0x04, 0x2e, 0x01, 0x00, 0xcb];
    let msg = CtrlMsg::decode_from_udp_pkt(bytes.clone());
    assert_eq!(msg.encode_to_vec(), bytes);
}

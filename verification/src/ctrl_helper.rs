use crate::msg::NasDecoerSdu;
use vstd::prelude::*;

verus! {

/// Kind of a control frame exchanged with the controlling PC.
#[allow(non_camel_case_types)]
#[derive(Debug, Clone, Copy, PartialEq, Eq, Structural)]
pub enum MSG_TYPE {
    ARM_CONNECTING_MSG,
    PDU_SESSION_ESTABLISHMENT_MSG,
    PDU_SESSION_MODIFY_MSG,
    PDU_SESSION_RELEASE_MSG,
    PCSCF_DNS_ASK_MSG,
    ARM_RELEASE_MSG,
    UNKNOW,
}

/// The tag byte that identifies each kind of control frame on the wire.
pub open spec fn msg_type_code(t: MSG_TYPE) -> u8 {
    match t {
        MSG_TYPE::ARM_CONNECTING_MSG => 0x01,
        MSG_TYPE::PDU_SESSION_ESTABLISHMENT_MSG => 0x02,
        MSG_TYPE::PDU_SESSION_MODIFY_MSG => 0x03,
        MSG_TYPE::PDU_SESSION_RELEASE_MSG => 0x04,
        MSG_TYPE::PCSCF_DNS_ASK_MSG => 0x05,
        MSG_TYPE::ARM_RELEASE_MSG => 0xff,
        MSG_TYPE::UNKNOW => 0x06,
    }
}

/// The kind of control frame a tag byte denotes; every unlisted byte is `UNKNOW`.
pub open spec fn msg_type_of(ie: u8) -> MSG_TYPE {
    if ie == 0x01 {
        MSG_TYPE::ARM_CONNECTING_MSG
    } else if ie == 0x02 {
        MSG_TYPE::PDU_SESSION_ESTABLISHMENT_MSG
    } else if ie == 0x03 {
        MSG_TYPE::PDU_SESSION_MODIFY_MSG
    } else if ie == 0x04 {
        MSG_TYPE::PDU_SESSION_RELEASE_MSG
    } else if ie == 0x05 {
        MSG_TYPE::PCSCF_DNS_ASK_MSG
    } else if ie == 0xff {
        MSG_TYPE::ARM_RELEASE_MSG
    } else {
        MSG_TYPE::UNKNOW
    }
}

impl MSG_TYPE {
    /// Classifies a tag byte.
    pub fn from_u8(ie: u8) -> (r: MSG_TYPE)
        ensures
            r == msg_type_of(ie),
    {
        match ie {
            0x01 => MSG_TYPE::ARM_CONNECTING_MSG,
            0x02 => MSG_TYPE::PDU_SESSION_ESTABLISHMENT_MSG,
            0x03 => MSG_TYPE::PDU_SESSION_MODIFY_MSG,
            0x04 => MSG_TYPE::PDU_SESSION_RELEASE_MSG,
            0x05 => MSG_TYPE::PCSCF_DNS_ASK_MSG,
            0xff => MSG_TYPE::ARM_RELEASE_MSG,
            _ => MSG_TYPE::UNKNOW,
        }
    }
}

/// The payload carried by a control frame.
#[allow(non_camel_case_types)]
#[derive(Debug, Clone)]
pub struct TLV_DATA {
    pub data: Vec<u8>,
}

/// A control frame: its kind and its payload.
#[derive(Debug, Clone)]
pub struct CtrlMsg {
    pub msg_type: MSG_TYPE,
    pub tlv_data: TLV_DATA,
}

/// The big-endian 16-bit payload length that a frame header announces.
pub open spec fn frame_payload_len(data: Seq<u8>) -> int {
    data[1] as int * 256 + data[2] as int
}

/// A frame can be read when it holds its 3-byte header and the payload the header announces.
pub open spec fn frame_readable(data: Seq<u8>) -> bool {
    &&& data.len() >= 3
    &&& 3 + frame_payload_len(data) <= data.len()
}

/// The payload of a readable frame; bytes after it are ignored.
pub open spec fn frame_payload(data: Seq<u8>) -> Seq<u8> {
    data.subrange(3, 3 + frame_payload_len(data))
}

/// The bytes of a frame of kind `t` carrying `payload`: tag byte, the payload length
/// reduced modulo 2^16 in big-endian order, then the payload.
pub open spec fn frame_bytes(t: MSG_TYPE, payload: Seq<u8>) -> Seq<u8> {
    let n = payload.len() % 0x10000;
    seq![msg_type_code(t), (n / 256) as u8, (n % 256) as u8] + payload
}

impl CtrlMsg {
    /// Whether `data` holds a whole control frame header and the payload it announces.
    pub fn is_readable(data: &[u8]) -> (r: bool)
        ensures
            r == frame_readable(data@),
    {
        if data.len() < 3 {
            return false;
        }
        let length: usize = data[1] as usize * 256 + data[2] as usize;
        length <= data.len() - 3
    }

    /// Reads a control frame: one tag byte, a big-endian 16-bit length, then that many payload bytes.
    pub fn decode_from_udp_pkt(data: Vec<u8>) -> (r: CtrlMsg)
        requires
            frame_readable(data@),
        ensures
            r.msg_type == msg_type_of(data@[0]),
            r.tlv_data.data@ == frame_payload(data@),
    {
        let mut index: usize = 0;
        let msg_type = MSG_TYPE::from_u8(data[index]);
        index += 1;
        let hi: u8 = data[index];
        let lo: u8 = data[index + 1];
        let length: u16 = (hi as u16) << 8 | lo as u16;
        assert(length == hi as int * 256 + lo as int) by (bit_vector)
            requires
                length == (hi as u16) << 8 | lo as u16,
        ;
        index += 2;
        let end: usize = index + length as usize;
        let mut payload: Vec<u8> = Vec::new();
        let mut k: usize = index;
        while k < end
            invariant
                3 <= k <= end,
                end == 3 + frame_payload_len(data@),
                end <= data@.len(),
                payload@ == data@.subrange(3, k as int),
            decreases end - k,
        {
            payload.push(data[k]);
            k += 1;
            assert(payload@ =~= data@.subrange(3, k as int));
        }
        CtrlMsg { msg_type, tlv_data: TLV_DATA { data: payload } }
    }

    /// Writes a control frame: tag byte, big-endian 16-bit payload length, payload.
    /// A payload longer than 65535 bytes has its length written modulo 2^16.
    pub fn encode_to_vec(self) -> (r: Vec<u8>)
        ensures
            r@ == frame_bytes(self.msg_type, self.tlv_data.data@),
            r@.len() == 3 + self.tlv_data.data@.len(),
    {
        let msg_tag: u8 = match self.msg_type {
            MSG_TYPE::ARM_CONNECTING_MSG => 0x01,
            MSG_TYPE::PDU_SESSION_ESTABLISHMENT_MSG => 0x02,
            MSG_TYPE::PDU_SESSION_MODIFY_MSG => 0x03,
            MSG_TYPE::PDU_SESSION_RELEASE_MSG => 0x04,
            MSG_TYPE::PCSCF_DNS_ASK_MSG => 0x05,
            MSG_TYPE::ARM_RELEASE_MSG => 0xff,
            MSG_TYPE::UNKNOW => 0x06,
        };
        let length: usize = self.tlv_data.data.len();
        let len16: u16 = length as u16;
        let len_high: u8 = (len16 >> 8) as u8;
        let len_low: u8 = (len16 & 0xff) as u8;
        assert(len_high == (len16 as int) / 256 && len_low == (len16 as int) % 256) by (bit_vector)
            requires
                len_high == (len16 >> 8) as u8,
                len_low == (len16 & 0xff) as u8,
        ;
        assert(len16 as int == length as int % 0x10000) by (bit_vector)
            requires
                len16 == length as u16,
        ;
        let mut hdr: Vec<u8> = Vec::new();
        hdr.push(msg_tag);
        hdr.push(len_high);
        hdr.push(len_low);
        let mut k: usize = 0;
        while k < length
            invariant
                length == self.tlv_data.data@.len(),
                k <= length,
                hdr@ == seq![msg_tag, len_high, len_low] + self.tlv_data.data@.subrange(0, k as int),
            decreases length - k,
        {
            hdr.push(self.tlv_data.data[k]);
            k += 1;
            assert(hdr@ =~= seq![msg_tag, len_high, len_low] + self.tlv_data.data@.subrange(0, k as int));
        }
        assert(self.tlv_data.data@.subrange(0, length as int) =~= self.tlv_data.data@);
        hdr
    }
}

/// The tag octets of the control frames: 0x01 terminal connecting, 0x02 PDU session
/// establishment, 0x03 PDU session modification, 0x04 PDU session release, 0x05 P-CSCF / DNS
/// request, 0xFF terminal release; every other octet is read as an unknown frame, which is
/// written with tag 0x06.
pub proof fn lemma_frame_tag_octets(b: u8)
    ensures
        msg_type_of(b) == MSG_TYPE::ARM_CONNECTING_MSG <==> b == 0x01,
        msg_type_of(b) == MSG_TYPE::PDU_SESSION_ESTABLISHMENT_MSG <==> b == 0x02,
        msg_type_of(b) == MSG_TYPE::PDU_SESSION_MODIFY_MSG <==> b == 0x03,
        msg_type_of(b) == MSG_TYPE::PDU_SESSION_RELEASE_MSG <==> b == 0x04,
        msg_type_of(b) == MSG_TYPE::PCSCF_DNS_ASK_MSG <==> b == 0x05,
        msg_type_of(b) == MSG_TYPE::ARM_RELEASE_MSG <==> b == 0xff,
        msg_type_of(b) == MSG_TYPE::UNKNOW <==> (b == 0 || (0x06 <= b && b < 0xff)),
        frame_bytes(MSG_TYPE::UNKNOW, Seq::empty())[0] == 0x06,
{
}

/// Every kind of control frame is read back from its own tag byte.
pub proof fn lemma_msg_type_code_roundtrip(t: MSG_TYPE)
    ensures
        msg_type_of(msg_type_code(t)) == t,
{
}

/// A frame written for a payload of at most 65535 bytes can be read, and reading it
/// gives back the kind and the payload that were written.
pub proof fn lemma_frame_roundtrip(t: MSG_TYPE, payload: Seq<u8>)
    requires
        payload.len() <= 0xffff,
    ensures
        frame_readable(frame_bytes(t, payload)),
        msg_type_of(frame_bytes(t, payload)[0]) == t,
        frame_payload(frame_bytes(t, payload)) == payload,
{
    let b = frame_bytes(t, payload);
    assert(frame_payload_len(b) == payload.len());
    assert(frame_payload(b) =~= payload);
}

/// Reading a frame that holds exactly its announced payload and whose tag byte is the
/// canonical tag of its kind, then writing it again, gives back the same bytes.
pub proof fn lemma_frame_rewrite(data: Seq<u8>)
    requires
        frame_readable(data),
        data.len() == 3 + frame_payload_len(data),
        msg_type_code(msg_type_of(data[0])) == data[0],
    ensures
        frame_bytes(msg_type_of(data[0]), frame_payload(data)) == data,
{
    let p = frame_payload(data);
    assert(p.len() == frame_payload_len(data));
    assert(frame_bytes(msg_type_of(data[0]), p) =~= data);
}

/// What the controller does with a control frame it received.
#[derive(Debug, Clone)]
pub enum CtrlAction {
    /// Nothing (connection announcements, DNS requests, unknown frames).
    Ignore,
    /// Hand the NAS session-management PDU the frame carries to the NAS decoder.
    DecodeNas(NasDecoerSdu),
    /// Tear down every PDU session.
    DeleteAllPduSessions,
}

impl CtrlMsg {
    /// The controller's decision for a received frame: establishment, modification and
    /// release frames hand their payload to the NAS decoder, a terminal release frame tears
    /// down every PDU session, and every other frame is ignored.
    pub fn controller_action(self) -> (r: CtrlAction)
        ensures
            match self.msg_type {
                MSG_TYPE::PDU_SESSION_ESTABLISHMENT_MSG | MSG_TYPE::PDU_SESSION_MODIFY_MSG
                | MSG_TYPE::PDU_SESSION_RELEASE_MSG => r matches CtrlAction::DecodeNas(sdu) && sdu.sdu@
                    == self.tlv_data.data@,
                MSG_TYPE::ARM_RELEASE_MSG => r is DeleteAllPduSessions,
                _ => r is Ignore,
            },
    {
        match self.msg_type {
            MSG_TYPE::ARM_CONNECTING_MSG => CtrlAction::Ignore,
            MSG_TYPE::PDU_SESSION_ESTABLISHMENT_MSG => CtrlAction::DecodeNas(NasDecoerSdu { sdu: self.tlv_data.data }),
            MSG_TYPE::PDU_SESSION_MODIFY_MSG => CtrlAction::DecodeNas(NasDecoerSdu { sdu: self.tlv_data.data }),
            MSG_TYPE::PDU_SESSION_RELEASE_MSG => CtrlAction::DecodeNas(NasDecoerSdu { sdu: self.tlv_data.data }),
            MSG_TYPE::ARM_RELEASE_MSG => CtrlAction::DeleteAllPduSessions,
            MSG_TYPE::UNKNOW => CtrlAction::Ignore,
            MSG_TYPE::PCSCF_DNS_ASK_MSG => CtrlAction::Ignore,
        }
    }
}

} // verus!

use pnet::packet::ipv6::Ipv6Packet;
use std::collections::HashMap;
use vstd::prelude::*;
use vstd::slice::slice_subrange;
use vstd::slice::slice_to_vec;
use vstd::std_specs::hash::spec_hash_map_iter;
use vstd::std_specs::iter::IteratorSpec;

verus! {

broadcast use {vstd::std_specs::hash::group_hash_axioms, vstd::array::group_array_axioms};

/// The authorized QoS rules of a PDU session (3GPP TS 24.501, 9.11.4.13):
/// the announced length of the rule list and the rules, keyed by rule identifier.
#[derive(Debug, Clone)]
pub struct QOSRules {
    pub lengthofqosrulesie: u16,
    pub qosrulesie: HashMap<u8, QOSRulesIE>,
}

/// One QoS rule.
#[derive(Debug, Clone)]
pub struct QOSRulesIE {
    pub qosruleidentifer: u8,
    pub lengthof_qo_srule: u16,
    pub numberofpacketfilters: u8,
    pub dqrbit: u8,
    /// Rule operation code (bits 8 to 6 of octet 7):
    /// 001 create, 010 delete, 011 modify and add packet filters,
    /// 100 modify and replace all packet filters, 101 modify and delete packet filters,
    /// 110 modify without modifying packet filters, 000 and 111 reserved.
    pub ruleoperationcode: RuleOperationCode,
    pub packetfilterlist: Vec<PacketFilterListEnum>,
    pub qosruleprecedence: u8,
    pub qosflowidentifer: u8,
    pub segregation: u8,
    pub spare: u8,
}

/// The operation a QoS rule asks for.
#[derive(Debug, Clone, Copy, PartialEq, Eq, Structural)]
pub enum RuleOperationCode {
    Reserved,
    CreateNewQosRule,
    DeleteExistingQosRule,
    ModifyExistingQosRuleAndAddPackerFilters,
    ModifyExistingQosRuleAndReplacePackerFilters,
    ModifyExistingQosRuleAndDeletePackerFilters,
    ModifyExistingQosRuleWithoutModifyPackerFilters,
}

/// The operation that a 3-bit operation code denotes.
pub open spec fn rule_op_of(data: u8) -> RuleOperationCode {
    if data == 1 {
        RuleOperationCode::CreateNewQosRule
    } else if data == 2 {
        RuleOperationCode::DeleteExistingQosRule
    } else if data == 3 {
        RuleOperationCode::ModifyExistingQosRuleAndAddPackerFilters
    } else if data == 4 {
        RuleOperationCode::ModifyExistingQosRuleAndReplacePackerFilters
    } else if data == 5 {
        RuleOperationCode::ModifyExistingQosRuleAndDeletePackerFilters
    } else if data == 6 {
        RuleOperationCode::ModifyExistingQosRuleWithoutModifyPackerFilters
    } else {
        RuleOperationCode::Reserved
    }
}

/// Operations whose rule carries a list of full packet filters, a precedence and a QFI.
pub open spec fn op_carries_filters(op: RuleOperationCode) -> bool {
    ||| op == RuleOperationCode::CreateNewQosRule
    ||| op == RuleOperationCode::ModifyExistingQosRuleAndAddPackerFilters
    ||| op == RuleOperationCode::ModifyExistingQosRuleAndReplacePackerFilters
}

impl RuleOperationCode {
    /// Classifies a 3-bit rule operation code; codes 0 and 7 and all larger values are reserved.
    pub fn from_u8(data: u8) -> (r: RuleOperationCode)
        ensures
            r == rule_op_of(data),
    {
        match data {
            0b00000001 => RuleOperationCode::CreateNewQosRule,
            0b00000010 => RuleOperationCode::DeleteExistingQosRule,
            0b00000011 => RuleOperationCode::ModifyExistingQosRuleAndAddPackerFilters,
            0b00000100 => RuleOperationCode::ModifyExistingQosRuleAndReplacePackerFilters,
            0b00000101 => RuleOperationCode::ModifyExistingQosRuleAndDeletePackerFilters,
            0b00000110 => RuleOperationCode::ModifyExistingQosRuleWithoutModifyPackerFilters,
            _ => RuleOperationCode::Reserved,
        }
    }
}

/// The packet filter list entry of a rule, shaped by the rule's operation.
#[derive(Debug, Clone)]
pub enum PacketFilterListEnum {
    PacketFilterListDeletePFList(PacketFilterListDeletePFList),
    PacketFilterListUpdatePFList(PacketFilterListUpdatePFList),
    PacketFilterListOpOnePF(PacketFilterSingle),
    PacketFilterNone,
}

/// A single packet filter identifier.
#[derive(Debug, Clone)]
pub struct PacketFilterSingle {
    pub packet_fliter_id: u8,
}

/// Identifiers of the packet filters to delete.
#[derive(Debug, Clone)]
pub struct PacketFilterListDeletePFList {
    pub packet_fliter_id: Vec<u8>,
}

/// A packet filter to create, add or replace.
#[derive(Debug, Clone)]
pub struct PacketFilterListUpdatePFList {
    pub packet_filter_direction: pkt_direction,
    pub packet_filter_id: u8,
    pub length_packet_filter_contents: u8,
    pub packet_filter_content_list: Vec<PacketFilterContent>,
}

/// The traffic direction a packet filter applies to (bits 6 and 5:
/// 00 reserved, 01 downlink only, 10 uplink only, 11 bidirectional).
#[allow(non_camel_case_types)]
#[derive(Debug, Clone, Copy, PartialEq, Eq, Structural)]
pub enum pkt_direction {
    DOWNLINK_ONLY,
    UPLINK_ONLY,
    DUAL_DIRECTION,
    RESERVED,
}

/// The direction that a 2-bit direction code denotes.
pub open spec fn direction_of(ie: u8) -> pkt_direction {
    if ie == 1 {
        pkt_direction::DOWNLINK_ONLY
    } else if ie == 2 {
        pkt_direction::UPLINK_ONLY
    } else if ie == 3 {
        pkt_direction::DUAL_DIRECTION
    } else {
        pkt_direction::RESERVED
    }
}

impl pkt_direction {
    /// Classifies a 2-bit direction code; 0 and all values above 3 are reserved.
    pub fn from_u8(ie: u8) -> (r: pkt_direction)
        ensures
            r == direction_of(ie),
    {
        match ie {
            0b00000001 => pkt_direction::DOWNLINK_ONLY,
            0b00000010 => pkt_direction::UPLINK_ONLY,
            0b00000011 => pkt_direction::DUAL_DIRECTION,
            _ => pkt_direction::RESERVED,
        }
    }
}

/// One component of a packet filter: its type and its value.
#[derive(Debug, Clone)]
pub struct PacketFilterContent {
    pub packet_filter_content_type: PacketFilterComponentType,
    pub packet_filter_content_value: PacketFilterComponentValue,
}

/// Packet filter component types (3GPP TS 24.501, table 9.11.4.13.1).
#[derive(Debug, Clone, Copy, PartialEq, Eq, Structural)]
pub enum PacketFilterComponentType {
    MatchAll,
    IPv4RemoteAddress,
    IPv4LocalAddress,
    IPv6RemoteAddressPrefixLength,
    IPv6LocalAddressPrefixLength,
    ProtocolIdentifierNextHeader,
    SingleLocalPort,
    LocalPortRange,
    SingleRemotePort,
    RemotePortRange,
    SecurityParameterIndex,
    TypeOfServiceTrafficClass,
    FlowLabel,
    DestinationMACAddress,
    SourceMACAddress,
    VlanCtagVid,
    VlanStagVid,
    VlanCtagPcpdei,
    VlanStagPcpdei,
    Ethertype,
}

/// The component type a type octet names (3GPP TS 24.501, table 9.11.4.13.1); every unlisted
/// octet is read as an ethertype.
pub open spec fn component_type_of(data: u8) -> PacketFilterComponentType {
    if data == 0x01 {
        PacketFilterComponentType::MatchAll
    } else if data == 0x10 {
        PacketFilterComponentType::IPv4RemoteAddress
    } else if data == 0x11 {
        PacketFilterComponentType::IPv4LocalAddress
    } else if data == 0x21 {
        PacketFilterComponentType::IPv6RemoteAddressPrefixLength
    } else if data == 0x23 {
        PacketFilterComponentType::IPv6LocalAddressPrefixLength
    } else if data == 0x30 {
        PacketFilterComponentType::ProtocolIdentifierNextHeader
    } else if data == 0x40 {
        PacketFilterComponentType::SingleLocalPort
    } else if data == 0x41 {
        PacketFilterComponentType::LocalPortRange
    } else if data == 0x50 {
        PacketFilterComponentType::SingleRemotePort
    } else if data == 0x51 {
        PacketFilterComponentType::RemotePortRange
    } else if data == 0x60 {
        PacketFilterComponentType::SecurityParameterIndex
    } else if data == 0x70 {
        PacketFilterComponentType::TypeOfServiceTrafficClass
    } else if data == 0x80 {
        PacketFilterComponentType::FlowLabel
    } else if data == 0x81 {
        PacketFilterComponentType::DestinationMACAddress
    } else if data == 0x82 {
        PacketFilterComponentType::SourceMACAddress
    } else if data == 0x83 {
        PacketFilterComponentType::VlanCtagVid
    } else if data == 0x84 {
        PacketFilterComponentType::VlanStagVid
    } else if data == 0x85 {
        PacketFilterComponentType::VlanCtagPcpdei
    } else if data == 0x86 {
        PacketFilterComponentType::VlanStagPcpdei
    } else {
        PacketFilterComponentType::Ethertype
    }
}

impl PacketFilterComponentType {
    /// Classifies a packet filter component type octet.
    pub fn from_u8(data: u8) -> (r: PacketFilterComponentType)
        ensures
            r == component_type_of(data),
    {
        match data {
            0b00000001 => PacketFilterComponentType::MatchAll,
            0b00010000 => PacketFilterComponentType::IPv4RemoteAddress,
            0b00010001 => PacketFilterComponentType::IPv4LocalAddress,
            0b00100001 => PacketFilterComponentType::IPv6RemoteAddressPrefixLength,
            0b00100011 => PacketFilterComponentType::IPv6LocalAddressPrefixLength,
            0b00110000 => PacketFilterComponentType::ProtocolIdentifierNextHeader,
            0b01000000 => PacketFilterComponentType::SingleLocalPort,
            0b01000001 => PacketFilterComponentType::LocalPortRange,
            0b01010000 => PacketFilterComponentType::SingleRemotePort,
            0b01010001 => PacketFilterComponentType::RemotePortRange,
            0b01100000 => PacketFilterComponentType::SecurityParameterIndex,
            0b01110000 => PacketFilterComponentType::TypeOfServiceTrafficClass,
            0b10000000 => PacketFilterComponentType::FlowLabel,
            0b10000001 => PacketFilterComponentType::DestinationMACAddress,
            0b10000010 => PacketFilterComponentType::SourceMACAddress,
            0b10000011 => PacketFilterComponentType::VlanCtagVid,
            0b10000100 => PacketFilterComponentType::VlanStagVid,
            0b10000101 => PacketFilterComponentType::VlanCtagPcpdei,
            0b10000110 => PacketFilterComponentType::VlanStagPcpdei,
            0b10000111 => PacketFilterComponentType::Ethertype,
            _ => PacketFilterComponentType::Ethertype,
        }
    }
}

/// The value of a packet filter component.
#[derive(Debug, Clone)]
pub enum PacketFilterComponentValue {
    /// A match-all component carries no value.
    MatchAll,
    IPv4RemoteAddress(IPv4FilterAddress),
    IPv4LocalAddress(IPv4FilterAddress),
    IPv6RemoteAddressPrefixLength(IPv6FilterAddress),
    IPv6LocalAddressPrefixLength(IPv6FilterAddress),
    ProtocolIdentifierNextHeader(ProtocolIdentifierNextHeader),
    SingleLocalPort(Port),
    LocalPortRange(PortRange),
    SingleRemotePort(Port),
    RemotePortRange(PortRange),
    SecurityParameterIndex(SecurityParameterIndex),
    TypeOfServiceTrafficClass(TypeOfServiceTrafficClass),
    FlowLabel(FlowLabel),
    DestinationMACAddress(MACAddress),
    SourceMACAddress(MACAddress),
    VlanCtagVid(VlanCtagVid),
    VlanStagVid(VlanStagVid),
    VlanCtagPcpdei(VlanCtagPcpdei),
    VlanStagPcpdei(VlanStagPcpdei),
    Ethertype(Ethertype),
    DestinationMACAddressRange(DestinationMACAddressRange),
    SourceMACAddressRange(SourceMACAddressRange),
}

/// An IPv4 address field and an address mask field.
#[derive(Debug, Clone)]
pub struct IPv4FilterAddress {
    ipv4_address: Vec<u8>,
    ipv4_address_mask: Vec<u8>,
}

/// An IPv6 address field and a prefix length.
#[derive(Debug, Clone)]
pub struct IPv6FilterAddress {
    ipv6_address: Vec<u8>,
    prefix_length: u8,
}

/// An IPv4 protocol identifier or IPv6 next header.
#[derive(Debug, Clone)]
pub struct ProtocolIdentifierNextHeader {
    value: u8,
}

/// A port number.
#[derive(Debug, Clone)]
pub struct Port {
    value: u16,
}

/// A port range: low limit, then high limit.
#[derive(Debug, Clone)]
pub struct PortRange {
    low: u16,
    high: u16,
}

/// An IPSec security parameter index.
#[derive(Debug, Clone)]
pub struct SecurityParameterIndex {
    value: u32,
}

/// A type-of-service / traffic class field and its mask.
#[derive(Debug, Clone)]
pub struct TypeOfServiceTrafficClass {
    value: u8,
    mask: u8,
}

/// An IPv6 flow label.
#[derive(Debug, Clone)]
pub struct FlowLabel {
    value: u32,
}

/// A MAC address.
#[derive(Debug, Clone)]
pub struct MACAddress {
    value: Vec<u8>,
}

/// An 802.1Q C-TAG VID.
#[derive(Debug, Clone)]
pub struct VlanCtagVid {}

/// An 802.1Q S-TAG VID.
#[derive(Debug, Clone)]
pub struct VlanStagVid {}

/// An 802.1Q C-TAG PCP/DEI.
#[derive(Debug, Clone)]
pub struct VlanCtagPcpdei {}

/// An 802.1Q S-TAG PCP/DEI.
#[derive(Debug, Clone)]
pub struct VlanStagPcpdei {}

/// An ethertype.
#[derive(Debug, Clone)]
pub struct Ethertype {}

/// A destination MAC address range.
#[derive(Debug, Clone)]
pub struct DestinationMACAddressRange {}

/// A source MAC address range.
#[derive(Debug, Clone)]
pub struct SourceMACAddressRange {}

// ---------------------------------------------------------------------------
// Mathematical model of decoded rules
// ---------------------------------------------------------------------------

/// Model of an IPv4 filter address.
pub struct IPv4FilterAddressView {
    pub ipv4_address: Seq<u8>,
    pub ipv4_address_mask: Seq<u8>,
}

/// Model of an IPv6 filter address.
pub struct IPv6FilterAddressView {
    pub ipv6_address: Seq<u8>,
    pub prefix_length: u8,
}

/// Model of a packet filter component value.
pub enum PacketFilterComponentValueView {
    MatchAll,
    IPv4RemoteAddress(IPv4FilterAddressView),
    IPv4LocalAddress(IPv4FilterAddressView),
    IPv6RemoteAddressPrefixLength(IPv6FilterAddressView),
    IPv6LocalAddressPrefixLength(IPv6FilterAddressView),
    ProtocolIdentifierNextHeader(u8),
    SingleLocalPort(u16),
    LocalPortRange(u16, u16),
    SingleRemotePort(u16),
    RemotePortRange(u16, u16),
    SecurityParameterIndex(u32),
    TypeOfServiceTrafficClass(u8, u8),
    FlowLabel(u32),
    DestinationMACAddress(Seq<u8>),
    SourceMACAddress(Seq<u8>),
    VlanCtagVid,
    VlanStagVid,
    VlanCtagPcpdei,
    VlanStagPcpdei,
    Ethertype,
    DestinationMACAddressRange,
    SourceMACAddressRange,
}

/// Model of a packet filter component.
pub struct PacketFilterContentView {
    pub packet_filter_content_type: PacketFilterComponentType,
    pub packet_filter_content_value: PacketFilterComponentValueView,
}

/// Model of a create/add/replace packet filter.
pub struct PacketFilterListUpdatePFListView {
    pub packet_filter_direction: pkt_direction,
    pub packet_filter_id: u8,
    pub length_packet_filter_contents: u8,
    pub packet_filter_content_list: Seq<PacketFilterContentView>,
}

/// Model of a packet filter list entry.
pub enum PacketFilterListEnumView {
    PacketFilterListDeletePFList(Seq<u8>),
    PacketFilterListUpdatePFList(PacketFilterListUpdatePFListView),
    PacketFilterListOpOnePF(u8),
    PacketFilterNone,
}

/// Model of a QoS rule.
pub struct QOSRulesIEView {
    pub qosruleidentifer: u8,
    pub lengthof_qo_srule: u16,
    pub numberofpacketfilters: u8,
    pub dqrbit: u8,
    pub ruleoperationcode: RuleOperationCode,
    pub packetfilterlist: Seq<PacketFilterListEnumView>,
    pub qosruleprecedence: u8,
    pub qosflowidentifer: u8,
    pub segregation: u8,
    pub spare: u8,
}

/// Model of the QoS rules of a session.
pub struct QOSRulesView {
    pub lengthofqosrulesie: u16,
    pub qosrulesie: Map<u8, QOSRulesIEView>,
}

impl View for IPv4FilterAddress {
    type V = IPv4FilterAddressView;

    closed spec fn view(&self) -> IPv4FilterAddressView {
        IPv4FilterAddressView {
            ipv4_address: self.ipv4_address@,
            ipv4_address_mask: self.ipv4_address_mask@,
        }
    }
}

impl View for IPv6FilterAddress {
    type V = IPv6FilterAddressView;

    closed spec fn view(&self) -> IPv6FilterAddressView {
        IPv6FilterAddressView { ipv6_address: self.ipv6_address@, prefix_length: self.prefix_length }
    }
}

impl View for PacketFilterComponentValue {
    type V = PacketFilterComponentValueView;

    closed spec fn view(&self) -> PacketFilterComponentValueView {
        match self {
            PacketFilterComponentValue::MatchAll => PacketFilterComponentValueView::MatchAll,
            PacketFilterComponentValue::IPv4RemoteAddress(a) => PacketFilterComponentValueView::IPv4RemoteAddress(a@),
            PacketFilterComponentValue::IPv4LocalAddress(a) => PacketFilterComponentValueView::IPv4LocalAddress(a@),
            PacketFilterComponentValue::IPv6RemoteAddressPrefixLength(a) => PacketFilterComponentValueView::IPv6RemoteAddressPrefixLength(a@),
            PacketFilterComponentValue::IPv6LocalAddressPrefixLength(a) => PacketFilterComponentValueView::IPv6LocalAddressPrefixLength(a@),
            PacketFilterComponentValue::ProtocolIdentifierNextHeader(p) => PacketFilterComponentValueView::ProtocolIdentifierNextHeader(p.value),
            PacketFilterComponentValue::SingleLocalPort(p) => PacketFilterComponentValueView::SingleLocalPort(p.value),
            PacketFilterComponentValue::LocalPortRange(p) => PacketFilterComponentValueView::LocalPortRange(p.low, p.high),
            PacketFilterComponentValue::SingleRemotePort(p) => PacketFilterComponentValueView::SingleRemotePort(p.value),
            PacketFilterComponentValue::RemotePortRange(p) => PacketFilterComponentValueView::RemotePortRange(p.low, p.high),
            PacketFilterComponentValue::SecurityParameterIndex(p) => PacketFilterComponentValueView::SecurityParameterIndex(p.value),
            PacketFilterComponentValue::TypeOfServiceTrafficClass(p) => PacketFilterComponentValueView::TypeOfServiceTrafficClass(p.value, p.mask),
            PacketFilterComponentValue::FlowLabel(p) => PacketFilterComponentValueView::FlowLabel(p.value),
            PacketFilterComponentValue::DestinationMACAddress(m) => PacketFilterComponentValueView::DestinationMACAddress(m.value@),
            PacketFilterComponentValue::SourceMACAddress(m) => PacketFilterComponentValueView::SourceMACAddress(m.value@),
            PacketFilterComponentValue::VlanCtagVid(_) => PacketFilterComponentValueView::VlanCtagVid,
            PacketFilterComponentValue::VlanStagVid(_) => PacketFilterComponentValueView::VlanStagVid,
            PacketFilterComponentValue::VlanCtagPcpdei(_) => PacketFilterComponentValueView::VlanCtagPcpdei,
            PacketFilterComponentValue::VlanStagPcpdei(_) => PacketFilterComponentValueView::VlanStagPcpdei,
            PacketFilterComponentValue::Ethertype(_) => PacketFilterComponentValueView::Ethertype,
            PacketFilterComponentValue::DestinationMACAddressRange(_) => PacketFilterComponentValueView::DestinationMACAddressRange,
            PacketFilterComponentValue::SourceMACAddressRange(_) => PacketFilterComponentValueView::SourceMACAddressRange,
        }
    }
}

impl View for PacketFilterContent {
    type V = PacketFilterContentView;

    closed spec fn view(&self) -> PacketFilterContentView {
        PacketFilterContentView {
            packet_filter_content_type: self.packet_filter_content_type,
            packet_filter_content_value: self.packet_filter_content_value@,
        }
    }
}

/// Model of a sequence of packet filter components.
pub open spec fn contents_view(s: Seq<PacketFilterContent>) -> Seq<PacketFilterContentView> {
    s.map_values(|c: PacketFilterContent| c@)
}

impl View for PacketFilterListEnum {
    type V = PacketFilterListEnumView;

    closed spec fn view(&self) -> PacketFilterListEnumView {
        match self {
            PacketFilterListEnum::PacketFilterListDeletePFList(d) => PacketFilterListEnumView::PacketFilterListDeletePFList(d.packet_fliter_id@),
            PacketFilterListEnum::PacketFilterListUpdatePFList(u) => PacketFilterListEnumView::PacketFilterListUpdatePFList(
                PacketFilterListUpdatePFListView {
                    packet_filter_direction: u.packet_filter_direction,
                    packet_filter_id: u.packet_filter_id,
                    length_packet_filter_contents: u.length_packet_filter_contents,
                    packet_filter_content_list: contents_view(u.packet_filter_content_list@),
                },
            ),
            PacketFilterListEnum::PacketFilterListOpOnePF(s) => PacketFilterListEnumView::PacketFilterListOpOnePF(s.packet_fliter_id),
            PacketFilterListEnum::PacketFilterNone => PacketFilterListEnumView::PacketFilterNone,
        }
    }
}

/// Model of a sequence of packet filter list entries.
pub open spec fn filters_view(s: Seq<PacketFilterListEnum>) -> Seq<PacketFilterListEnumView> {
    s.map_values(|f: PacketFilterListEnum| f@)
}

impl View for QOSRulesIE {
    type V = QOSRulesIEView;

    open spec fn view(&self) -> QOSRulesIEView {
        QOSRulesIEView {
            qosruleidentifer: self.qosruleidentifer,
            lengthof_qo_srule: self.lengthof_qo_srule,
            numberofpacketfilters: self.numberofpacketfilters,
            dqrbit: self.dqrbit,
            ruleoperationcode: self.ruleoperationcode,
            packetfilterlist: filters_view(self.packetfilterlist@),
            qosruleprecedence: self.qosruleprecedence,
            qosflowidentifer: self.qosflowidentifer,
            segregation: self.segregation,
            spare: self.spare,
        }
    }
}

/// Model of a map of rules.
pub open spec fn rules_map_view(m: Map<u8, QOSRulesIE>) -> Map<u8, QOSRulesIEView> {
    m.map_values(|ie: QOSRulesIE| ie@)
}

impl View for QOSRules {
    type V = QOSRulesView;

    open spec fn view(&self) -> QOSRulesView {
        QOSRulesView {
            lengthofqosrulesie: self.lengthofqosrulesie,
            qosrulesie: rules_map_view(self.qosrulesie@),
        }
    }
}

// ---------------------------------------------------------------------------
// The wire format of the QoS rules information element
// ---------------------------------------------------------------------------
//
// Each parsing function below returns `None` exactly on the inputs on which the
// decoder would read past the end of its input.

/// A big-endian 16-bit field.
pub open spec fn be16(hi: u8, lo: u8) -> u16 {
    (hi as u16) << 8 | lo as u16
}

/// How many octets the value of a component of type `t` occupies.
pub open spec fn component_width(t: PacketFilterComponentType) -> int {
    match t {
        PacketFilterComponentType::MatchAll => 0,
        PacketFilterComponentType::IPv4RemoteAddress => 8,
        PacketFilterComponentType::IPv4LocalAddress => 8,
        PacketFilterComponentType::IPv6RemoteAddressPrefixLength => 17,
        PacketFilterComponentType::IPv6LocalAddressPrefixLength => 17,
        PacketFilterComponentType::ProtocolIdentifierNextHeader => 1,
        PacketFilterComponentType::SingleLocalPort => 2,
        PacketFilterComponentType::LocalPortRange => 4,
        PacketFilterComponentType::SingleRemotePort => 2,
        PacketFilterComponentType::RemotePortRange => 4,
        PacketFilterComponentType::SecurityParameterIndex => 4,
        PacketFilterComponentType::TypeOfServiceTrafficClass => 2,
        PacketFilterComponentType::FlowLabel => 3,
        PacketFilterComponentType::DestinationMACAddress => 6,
        PacketFilterComponentType::SourceMACAddress => 6,
        PacketFilterComponentType::VlanCtagVid => 2,
        PacketFilterComponentType::VlanStagVid => 2,
        PacketFilterComponentType::VlanCtagPcpdei => 1,
        PacketFilterComponentType::VlanStagPcpdei => 1,
        PacketFilterComponentType::Ethertype => 2,
    }
}

/// A component value occupies between 0 and 17 octets.
pub proof fn lemma_component_width_bounds(t: PacketFilterComponentType)
    ensures
        0 <= component_width(t) <= 17,
        0 <= component_reads(t) <= component_width(t),
{
}

/// How many octets past the type octet are read for a component of type `t`.
/// The types whose value is not decoded read none.
pub open spec fn component_reads(t: PacketFilterComponentType) -> int {
    match t {
        PacketFilterComponentType::IPv4RemoteAddress => 8,
        PacketFilterComponentType::IPv4LocalAddress => 8,
        PacketFilterComponentType::IPv6RemoteAddressPrefixLength => 17,
        PacketFilterComponentType::IPv6LocalAddressPrefixLength => 17,
        PacketFilterComponentType::ProtocolIdentifierNextHeader => 1,
        PacketFilterComponentType::SingleLocalPort => 2,
        PacketFilterComponentType::LocalPortRange => 4,
        PacketFilterComponentType::SingleRemotePort => 2,
        PacketFilterComponentType::RemotePortRange => 4,
        _ => 0,
    }
}

/// The value of a component of type `t` whose value octets start at `j`.
/// An IPv4 address and its mask take four octets each; the values of the
/// security parameter index, traffic class, flow label and MAC address types
/// are not decoded and are zero.
pub open spec fn component_value(d: Seq<u8>, j: int, t: PacketFilterComponentType) -> PacketFilterComponentValueView {
    match t {
        PacketFilterComponentType::MatchAll => PacketFilterComponentValueView::MatchAll,
        PacketFilterComponentType::IPv4RemoteAddress => PacketFilterComponentValueView::IPv4RemoteAddress(
            IPv4FilterAddressView { ipv4_address: d.subrange(j, j + 4), ipv4_address_mask: d.subrange(j + 4, j + 8) },
        ),
        PacketFilterComponentType::IPv4LocalAddress => PacketFilterComponentValueView::IPv4LocalAddress(
            IPv4FilterAddressView { ipv4_address: d.subrange(j, j + 4), ipv4_address_mask: d.subrange(j + 4, j + 8) },
        ),
        PacketFilterComponentType::IPv6RemoteAddressPrefixLength => PacketFilterComponentValueView::IPv6RemoteAddressPrefixLength(
            IPv6FilterAddressView { ipv6_address: d.subrange(j, j + 16), prefix_length: d[j + 16] },
        ),
        PacketFilterComponentType::IPv6LocalAddressPrefixLength => PacketFilterComponentValueView::IPv6LocalAddressPrefixLength(
            IPv6FilterAddressView { ipv6_address: d.subrange(j, j + 16), prefix_length: d[j + 16] },
        ),
        PacketFilterComponentType::ProtocolIdentifierNextHeader => PacketFilterComponentValueView::ProtocolIdentifierNextHeader(d[j]),
        PacketFilterComponentType::SingleLocalPort => PacketFilterComponentValueView::SingleLocalPort(be16(d[j], d[j + 1])),
        PacketFilterComponentType::LocalPortRange => PacketFilterComponentValueView::LocalPortRange(
            be16(d[j], d[j + 1]),
            be16(d[j + 2], d[j + 3]),
        ),
        PacketFilterComponentType::SingleRemotePort => PacketFilterComponentValueView::SingleRemotePort(be16(d[j], d[j + 1])),
        PacketFilterComponentType::RemotePortRange => PacketFilterComponentValueView::RemotePortRange(
            be16(d[j], d[j + 1]),
            be16(d[j + 2], d[j + 3]),
        ),
        PacketFilterComponentType::SecurityParameterIndex => PacketFilterComponentValueView::SecurityParameterIndex(0),
        PacketFilterComponentType::TypeOfServiceTrafficClass => PacketFilterComponentValueView::TypeOfServiceTrafficClass(0, 0),
        PacketFilterComponentType::FlowLabel => PacketFilterComponentValueView::FlowLabel(0),
        PacketFilterComponentType::DestinationMACAddress => PacketFilterComponentValueView::DestinationMACAddress(seq![0u8, 0, 0, 0, 0, 0]),
        PacketFilterComponentType::SourceMACAddress => PacketFilterComponentValueView::SourceMACAddress(seq![0u8, 0, 0, 0, 0, 0]),
        PacketFilterComponentType::VlanCtagVid => PacketFilterComponentValueView::VlanCtagVid,
        PacketFilterComponentType::VlanStagVid => PacketFilterComponentValueView::VlanStagVid,
        PacketFilterComponentType::VlanCtagPcpdei => PacketFilterComponentValueView::VlanCtagPcpdei,
        PacketFilterComponentType::VlanStagPcpdei => PacketFilterComponentValueView::VlanStagPcpdei,
        PacketFilterComponentType::Ethertype => PacketFilterComponentValueView::Ethertype,
    }
}

/// The packet filter components found from octet `i` while `i` is before the bound `b`,
/// appended to `acc`, and the octet after the last one.
pub open spec fn parse_contents(d: Seq<u8>, i: int, b: int, acc: Seq<PacketFilterContentView>) -> Option<(Seq<PacketFilterContentView>, int)>
    decreases if i < b { b - i } else { 0 },
{
    if i >= b {
        Some((acc, i))
    } else if 0 <= i < d.len() && i + 1 + component_reads(component_type_of(d[i])) <= d.len() {
        let t = component_type_of(d[i]);
        let c = PacketFilterContentView {
            packet_filter_content_type: t,
            packet_filter_content_value: component_value(d, i + 1, t),
        };
        proof {
            lemma_component_width_bounds(t);
        }
        parse_contents(d, i + 1 + component_width(t), b, acc.push(c))
    } else {
        None
    }
}

/// One packet filter list entry of a rule with operation `op` and `n` packet filters, at octet `i`.
pub open spec fn parse_filter(d: Seq<u8>, op: RuleOperationCode, n: u8, i: int) -> Option<(PacketFilterListEnumView, int)> {
    if op == RuleOperationCode::ModifyExistingQosRuleAndDeletePackerFilters {
        if 0 <= i && i + n <= d.len() {
            Some((PacketFilterListEnumView::PacketFilterListDeletePFList(Seq::new(n as nat, |k: int| d[i + k] & 0x0f)), i + n))
        } else {
            None
        }
    } else if op_carries_filters(op) {
        if 0 <= i && i + 2 <= d.len() {
            let l = d[i + 1];
            match parse_contents(d, i + 2, i + 2 + l, seq![]) {
                Some((cs, k)) => Some((
                    PacketFilterListEnumView::PacketFilterListUpdatePFList(PacketFilterListUpdatePFListView {
                        packet_filter_direction: direction_of((d[i] & 0x30) >> 4),
                        packet_filter_id: d[i] & 0x0f,
                        length_packet_filter_contents: l,
                        packet_filter_content_list: cs,
                    }),
                    k,
                )),
                None => None,
            }
        } else {
            None
        }
    } else {
        Some((PacketFilterListEnumView::PacketFilterNone, i))
    }
}

/// `count` more packet filter list entries from octet `i`, appended to `acc`.
/// How many packet filter list entries a rule with operation `op` and filter count `n`
/// carries: the delete-filters operation carries one list of `n` identifiers (none when `n`
/// is 0), the other operations `n` entries.
pub open spec fn filter_entry_count(op: RuleOperationCode, n: u8) -> nat {
    if op == RuleOperationCode::ModifyExistingQosRuleAndDeletePackerFilters {
        if n == 0 {
            0
        } else {
            1
        }
    } else {
        n as nat
    }
}

pub open spec fn parse_filters(d: Seq<u8>, op: RuleOperationCode, n: u8, count: nat, i: int, acc: Seq<PacketFilterListEnumView>) -> Option<(Seq<PacketFilterListEnumView>, int)>
    decreases count,
{
    if count == 0 {
        Some((acc, i))
    } else {
        match parse_filter(d, op, n, i) {
            Some((f, j)) => parse_filters(d, op, n, (count - 1) as nat, j, acc.push(f)),
            None => None,
        }
    }
}

/// The QoS rule at octet `i`, and the octet after it.
pub open spec fn parse_rule(d: Seq<u8>, i: int) -> Option<(QOSRulesIEView, int)> {
    if 0 <= i && i + 4 <= d.len() {
        let o = d[i + 3];
        let n = o & 0x0f;
        let op = rule_op_of((o & 0xe0) >> 5);
        match parse_filters(d, op, n, filter_entry_count(op, n), i + 4, seq![]) {
            Some((fl, j)) => {
                if op_carries_filters(op) {
                    if j + 2 <= d.len() {
                        Some((
                            QOSRulesIEView {
                                qosruleidentifer: d[i],
                                lengthof_qo_srule: be16(d[i + 1], d[i + 2]),
                                numberofpacketfilters: n,
                                dqrbit: (o & 0x10) >> 4,
                                ruleoperationcode: op,
                                packetfilterlist: fl,
                                qosruleprecedence: d[j],
                                qosflowidentifer: d[j + 1] & 0x3f,
                                segregation: d[j + 1] & 0x40,
                                spare: 0,
                            },
                            j + 2,
                        ))
                    } else {
                        None
                    }
                } else {
                    Some((
                        QOSRulesIEView {
                            qosruleidentifer: d[i],
                            lengthof_qo_srule: be16(d[i + 1], d[i + 2]),
                            numberofpacketfilters: n,
                            dqrbit: (o & 0x10) >> 4,
                            ruleoperationcode: op,
                            packetfilterlist: fl,
                            qosruleprecedence: 0,
                            qosflowidentifer: 0,
                            segregation: 0,
                            spare: 0,
                        },
                        j,
                    ))
                }
            },
            None => None,
        }
    } else {
        None
    }
}

/// The octet after `count` more packet filter list entries is never before `i`.
pub proof fn lemma_parse_filters_advances(d: Seq<u8>, op: RuleOperationCode, n: u8, count: nat, i: int, acc: Seq<PacketFilterListEnumView>)
    ensures
        parse_filters(d, op, n, count, i, acc) matches Some((_, j)) ==> j >= i,
    decreases count,
{
    if count > 0 {
        match parse_filter(d, op, n, i) {
            Some((f, j)) => {
                if op_carries_filters(op) && op != RuleOperationCode::ModifyExistingQosRuleAndDeletePackerFilters {
                    lemma_parse_contents_advances(d, i + 2, i + 2 + d[i + 1], seq![]);
                }
                lemma_parse_filters_advances(d, op, n, (count - 1) as nat, j, acc.push(f));
            },
            None => {},
        }
    }
}

/// Components are read forward: the octet after them is never before `i`.
pub proof fn lemma_parse_contents_advances(d: Seq<u8>, i: int, b: int, acc: Seq<PacketFilterContentView>)
    ensures
        parse_contents(d, i, b, acc) matches Some((_, k)) ==> k >= i,
    decreases if i < b { b - i } else { 0 },
{
    if i < b && 0 <= i < d.len() && i + 1 + component_reads(component_type_of(d[i])) <= d.len() {
        let t = component_type_of(d[i]);
        let c = PacketFilterContentView {
            packet_filter_content_type: t,
            packet_filter_content_value: component_value(d, i + 1, t),
        };
        lemma_component_width_bounds(t);
        lemma_parse_contents_advances(d, i + 1 + component_width(t), b, acc.push(c));
    }
}

/// A rule occupies at least its four header octets.
pub proof fn lemma_parse_rule_advances(d: Seq<u8>, i: int)
    ensures
        parse_rule(d, i) matches Some((_, j)) ==> j >= i + 4,
{
    if 0 <= i && i + 4 <= d.len() {
        let o = d[i + 3];
        let n = o & 0x0f;
        let op = rule_op_of((o & 0xe0) >> 5);
        lemma_parse_filters_advances(d, op, n, filter_entry_count(op, n), i + 4, seq![]);
    }
}

/// The rules found from octet `i` while `i` is before the announced length `len`,
/// each stored in `acc` under its identifier; a later rule replaces an earlier one
/// with the same identifier.
pub open spec fn parse_rules(d: Seq<u8>, len: int, i: int, acc: Map<u8, QOSRulesIEView>) -> Option<Map<u8, QOSRulesIEView>>
    decreases if i < len { len - i } else { 0 },
{
    if i >= len {
        Some(acc)
    } else {
        match parse_rule(d, i) {
            Some((ie, j)) => {
                proof {
                    lemma_parse_rule_advances(d, i);
                    assert(j >= i + 4);
                }
                parse_rules(d, len, j, acc.insert(ie.qosruleidentifer, ie))
            },
            None => None,
        }
    }
}

/// The QoS rules encoded in `d`: a big-endian 16-bit length, then rules read from
/// octet 2 while the read position is before that length.
/// `None` exactly when decoding would read past the end of `d`.
pub open spec fn spec_decode_qos_rules(d: Seq<u8>) -> Option<QOSRulesView> {
    if d.len() >= 2 {
        let len = be16(d[0], d[1]);
        match parse_rules(d, len as int, 2, Map::empty()) {
            Some(m) => Some(QOSRulesView { lengthofqosrulesie: len, qosrulesie: m }),
            None => None,
        }
    } else {
        None
    }
}


// ---------------------------------------------------------------------------
// Properties of decoded rules
// ---------------------------------------------------------------------------

/// A packet filter list entry has the shape that the rule operation `op` calls for:
/// identifiers to delete (each below 16, as many as the rule has packet filters),
/// a full packet filter with an identifier below 16, or no filter.
pub open spec fn filter_entry_fits(op: RuleOperationCode, n: u8, f: PacketFilterListEnumView) -> bool {
    if op == RuleOperationCode::ModifyExistingQosRuleAndDeletePackerFilters {
        f matches PacketFilterListEnumView::PacketFilterListDeletePFList(ids) && ids.len() == n && forall|k: int|
            0 <= k < ids.len() ==> #[trigger] ids[k] < 16
    } else if op_carries_filters(op) {
        f matches PacketFilterListEnumView::PacketFilterListUpdatePFList(u) && u.packet_filter_id < 16
    } else {
        f is PacketFilterNone
    }
}

/// What holds of every decoded QoS rule: a filter count of at most 15; as many packet filter
/// list entries as the count announces (one list of that many identifiers for the
/// delete-filters operation), each shaped by the rule's operation; a DQR bit of 0 or 1; a QFI
/// below 64; a segregation value of 0 or 0x40; and no precedence, QFI or segregation for
/// operations that carry no filters.
pub open spec fn rule_well_formed(ie: QOSRulesIEView) -> bool {
    &&& ie.numberofpacketfilters < 16
    &&& ie.packetfilterlist.len() == filter_entry_count(ie.ruleoperationcode, ie.numberofpacketfilters)
    &&& forall|k: int|
        0 <= k < ie.packetfilterlist.len() ==> filter_entry_fits(ie.ruleoperationcode, ie.numberofpacketfilters, #[trigger] ie.packetfilterlist[k])
    &&& ie.dqrbit <= 1
    &&& ie.qosflowidentifer < 64
    &&& (ie.segregation == 0 || ie.segregation == 0x40)
    &&& ie.spare == 0
    &&& !op_carries_filters(ie.ruleoperationcode) ==> ie.qosruleprecedence == 0 && ie.qosflowidentifer == 0 && ie.segregation == 0
}

/// Every rule in `m` is stored under its own identifier and is well formed.
pub open spec fn rules_map_well_formed(m: Map<u8, QOSRulesIEView>) -> bool {
    forall|k: u8| #[trigger] m.contains_key(k) ==> m[k].qosruleidentifer == k && rule_well_formed(m[k])
}

proof fn lemma_parse_filter_fits(d: Seq<u8>, op: RuleOperationCode, n: u8, i: int)
    ensures
        parse_filter(d, op, n, i) matches Some((f, _)) ==> filter_entry_fits(op, n, f),
{
    if op == RuleOperationCode::ModifyExistingQosRuleAndDeletePackerFilters {
        if 0 <= i && i + n <= d.len() {
            let ids = Seq::new(n as nat, |k: int| d[i + k] & 0x0f);
            assert forall|k: int| 0 <= k < ids.len() implies #[trigger] ids[k] < 16 by {
                let b = d[i + k];
                assert(b & 0x0f < 16) by (bit_vector);
            }
        }
    } else if op_carries_filters(op) {
        if 0 <= i && i + 2 <= d.len() {
            let b = d[i];
            assert(b & 0x0f < 16) by (bit_vector);
        }
    }
}

proof fn lemma_parse_filters_fit(d: Seq<u8>, op: RuleOperationCode, n: u8, count: nat, i: int, acc: Seq<PacketFilterListEnumView>)
    requires
        forall|k: int| 0 <= k < acc.len() ==> filter_entry_fits(op, n, #[trigger] acc[k]),
    ensures
        parse_filters(d, op, n, count, i, acc) matches Some((fl, _)) ==> {
            &&& fl.len() == acc.len() + count
            &&& forall|k: int| 0 <= k < fl.len() ==> filter_entry_fits(op, n, #[trigger] fl[k])
        },
    decreases count,
{
    if count > 0 {
        match parse_filter(d, op, n, i) {
            Some((f, j)) => {
                lemma_parse_filter_fits(d, op, n, i);
                let acc2 = acc.push(f);
                assert forall|k: int| 0 <= k < acc2.len() implies filter_entry_fits(op, n, #[trigger] acc2[k]) by {
                    if k < acc.len() {
                        assert(acc2[k] == acc[k]);
                    }
                }
                lemma_parse_filters_fit(d, op, n, (count - 1) as nat, j, acc2);
            },
            None => {},
        }
    }
}

proof fn lemma_parse_rule_well_formed(d: Seq<u8>, i: int)
    ensures
        parse_rule(d, i) matches Some((ie, _)) ==> ie.qosruleidentifer == d[i] && rule_well_formed(ie),
{
    if 0 <= i && i + 4 <= d.len() {
        let o = d[i + 3];
        let n = o & 0x0f;
        let op = rule_op_of((o & 0xe0) >> 5);
        assert(o & 0x0f < 16) by (bit_vector);
        assert((o & 0x10) >> 4 <= 1) by (bit_vector);
        lemma_parse_filters_fit(d, op, n, filter_entry_count(op, n), i + 4, seq![]);
        match parse_filters(d, op, n, filter_entry_count(op, n), i + 4, seq![]) {
            Some((fl, j)) => {
                if op_carries_filters(op) && j + 2 <= d.len() {
                    let q = d[j + 1];
                    assert(q & 0x3f < 64) by (bit_vector);
                    assert(q & 0x40 == 0 || q & 0x40 == 0x40) by (bit_vector);
                }
            },
            None => {},
        }
    }
}

proof fn lemma_parse_rules_well_formed(d: Seq<u8>, len: int, i: int, acc: Map<u8, QOSRulesIEView>)
    requires
        rules_map_well_formed(acc),
    ensures
        parse_rules(d, len, i, acc) matches Some(m) ==> rules_map_well_formed(m),
    decreases if i < len { len - i } else { 0 },
{
    if i < len {
        match parse_rule(d, i) {
            Some((ie, j)) => {
                lemma_parse_rule_advances(d, i);
                lemma_parse_rule_well_formed(d, i);
                let acc2 = acc.insert(ie.qosruleidentifer, ie);
                assert forall|k: u8| #[trigger] acc2.contains_key(k) implies acc2[k].qosruleidentifer == k && rule_well_formed(acc2[k]) by {
                    if k != ie.qosruleidentifer {
                        assert(acc.contains_key(k));
                    }
                }
                lemma_parse_rules_well_formed(d, len, j, acc2);
            },
            None => {},
        }
    }
}

/// Every decoded QoS rule is stored under its own rule identifier and is well formed
/// (see `rule_well_formed`).
pub proof fn lemma_decoded_rules_well_formed(d: Seq<u8>)
    ensures
        spec_decode_qos_rules(d) matches Some(q) ==> rules_map_well_formed(q.qosrulesie),
{
    if d.len() >= 2 {
        let len = be16(d[0], d[1]);
        lemma_parse_rules_well_formed(d, len as int, 2, Map::empty());
    }
}

/// Decoding reads rules only while the read position is before the announced length:
/// an element whose announced length is at most 2 decodes to no rules at all.
pub proof fn lemma_short_length_has_no_rules(d: Seq<u8>)
    requires
        d.len() >= 2,
        be16(d[0], d[1]) <= 2,
    ensures
        spec_decode_qos_rules(d) == Some(QOSRulesView { lengthofqosrulesie: be16(d[0], d[1]), qosrulesie: Map::empty() }),
{
}

// ---------------------------------------------------------------------------
// Decoding
// ---------------------------------------------------------------------------

proof fn lemma_component_value_ignores_trailing(d: Seq<u8>, e: Seq<u8>, j: int, t: PacketFilterComponentType)
    requires
        0 <= j,
        j + component_reads(t) <= d.len(),
    ensures
        component_value(d + e, j, t) == component_value(d, j, t),
{
    let de = d + e;
    assert forall|k: int| 0 <= k < component_reads(t) implies #[trigger] de[j + k] == d[j + k] by {}
    match t {
        PacketFilterComponentType::IPv4RemoteAddress | PacketFilterComponentType::IPv4LocalAddress => {
            assert(de.subrange(j, j + 4) =~= d.subrange(j, j + 4));
            assert(de.subrange(j + 4, j + 8) =~= d.subrange(j + 4, j + 8));
        },
        PacketFilterComponentType::IPv6RemoteAddressPrefixLength
        | PacketFilterComponentType::IPv6LocalAddressPrefixLength => {
            assert(de.subrange(j, j + 16) =~= d.subrange(j, j + 16));
            assert(de[j + 16] == d[j + 16]);
        },
        PacketFilterComponentType::ProtocolIdentifierNextHeader => {
            assert(de[j] == d[j]);
        },
        PacketFilterComponentType::SingleLocalPort | PacketFilterComponentType::SingleRemotePort => {
            assert(de[j] == d[j] && de[j + 1] == d[j + 1]);
        },
        PacketFilterComponentType::LocalPortRange | PacketFilterComponentType::RemotePortRange => {
            assert(de[j] == d[j] && de[j + 1] == d[j + 1] && de[j + 2] == d[j + 2] && de[j + 3] == d[j + 3]);
        },
        _ => {},
    }
}

proof fn lemma_parse_contents_ignores_trailing(
    d: Seq<u8>,
    e: Seq<u8>,
    i: int,
    b: int,
    acc: Seq<PacketFilterContentView>,
)
    requires
        parse_contents(d, i, b, acc) is Some,
    ensures
        parse_contents(d + e, i, b, acc) == parse_contents(d, i, b, acc),
    decreases if i < b { b - i } else { 0 },
{
    if i < b {
        let de = d + e;
        let t = component_type_of(d[i]);
        assert(de[i] == d[i]);
        lemma_component_width_bounds(t);
        lemma_component_value_ignores_trailing(d, e, i + 1, t);
        let c = PacketFilterContentView {
            packet_filter_content_type: t,
            packet_filter_content_value: component_value(d, i + 1, t),
        };
        lemma_parse_contents_ignores_trailing(d, e, i + 1 + component_width(t), b, acc.push(c));
    }
}

proof fn lemma_parse_filter_ignores_trailing(d: Seq<u8>, e: Seq<u8>, op: RuleOperationCode, n: u8, i: int)
    requires
        parse_filter(d, op, n, i) is Some,
    ensures
        parse_filter(d + e, op, n, i) == parse_filter(d, op, n, i),
{
    let de = d + e;
    if op == RuleOperationCode::ModifyExistingQosRuleAndDeletePackerFilters {
        assert(Seq::new(n as nat, |k: int| de[i + k] & 0x0f) =~= Seq::new(n as nat, |k: int| d[i + k] & 0x0f));
    } else if op_carries_filters(op) {
        assert(de[i] == d[i] && de[i + 1] == d[i + 1]);
        lemma_parse_contents_ignores_trailing(d, e, i + 2, i + 2 + d[i + 1], seq![]);
    }
}

proof fn lemma_parse_filters_ignores_trailing(
    d: Seq<u8>,
    e: Seq<u8>,
    op: RuleOperationCode,
    n: u8,
    count: nat,
    i: int,
    acc: Seq<PacketFilterListEnumView>,
)
    requires
        parse_filters(d, op, n, count, i, acc) is Some,
    ensures
        parse_filters(d + e, op, n, count, i, acc) == parse_filters(d, op, n, count, i, acc),
    decreases count,
{
    if count > 0 {
        lemma_parse_filter_ignores_trailing(d, e, op, n, i);
        let (f, j) = parse_filter(d, op, n, i)->0;
        lemma_parse_filters_ignores_trailing(d, e, op, n, (count - 1) as nat, j, acc.push(f));
    }
}

proof fn lemma_parse_rule_ignores_trailing(d: Seq<u8>, e: Seq<u8>, i: int)
    requires
        parse_rule(d, i) is Some,
    ensures
        parse_rule(d + e, i) == parse_rule(d, i),
{
    let de = d + e;
    assert(de[i] == d[i] && de[i + 1] == d[i + 1] && de[i + 2] == d[i + 2] && de[i + 3] == d[i + 3]);
    let o = d[i + 3];
    let n = o & 0x0f;
    let op = rule_op_of((o & 0xe0) >> 5);
    lemma_parse_filters_ignores_trailing(d, e, op, n, filter_entry_count(op, n), i + 4, seq![]);
    lemma_parse_filters_advances(d, op, n, filter_entry_count(op, n), i + 4, seq![]);
    let (fl, j) = parse_filters(d, op, n, filter_entry_count(op, n), i + 4, seq![])->0;
    if op_carries_filters(op) && j + 2 <= d.len() {
        assert(de[j] == d[j] && de[j + 1] == d[j + 1]);
    }
}

proof fn lemma_parse_rules_ignores_trailing(d: Seq<u8>, e: Seq<u8>, len: int, i: int, acc: Map<u8, QOSRulesIEView>)
    requires
        parse_rules(d, len, i, acc) is Some,
    ensures
        parse_rules(d + e, len, i, acc) == parse_rules(d, len, i, acc),
    decreases if i < len { len - i } else { 0 },
{
    if i < len {
        lemma_parse_rule_ignores_trailing(d, e, i);
        lemma_parse_rule_advances(d, i);
        let (ie, j) = parse_rule(d, i)->0;
        lemma_parse_rules_ignores_trailing(d, e, len, j, acc.insert(ie.qosruleidentifer, ie));
    }
}

/// Decoding reads no octet past the rules: octets appended to an element that decodes leave
/// the decoded rules unchanged.
pub proof fn lemma_decode_ignores_trailing_bytes(d: Seq<u8>, e: Seq<u8>)
    requires
        spec_decode_qos_rules(d) is Some,
    ensures
        spec_decode_qos_rules(d + e) == spec_decode_qos_rules(d),
{
    let de = d + e;
    assert(de[0] == d[0] && de[1] == d[1]);
    let len = be16(d[0], d[1]);
    lemma_parse_rules_ignores_trailing(d, e, len as int, 2, Map::empty());
}

/// A big-endian 16-bit field is its high octet times 256 plus its low octet.
pub proof fn lemma_be16_value(hi: u8, lo: u8)
    ensures
        be16(hi, lo) as int == hi as int * 256 + lo as int,
{
    assert(((hi as u16) << 8 | lo as u16) as int == hi as int * 256 + lo as int) by (bit_vector);
}

proof fn lemma_parse_contents_extends(d: Seq<u8>, i: int, b: int, acc: Seq<PacketFilterContentView>)
    ensures
        parse_contents(d, i, b, acc) matches Some((cs, _)) ==> {
            &&& cs.len() >= acc.len()
            &&& forall|k: int| 0 <= k < acc.len() ==> #[trigger] cs[k] == acc[k]
        },
    decreases if i < b { b - i } else { 0 },
{
    if i < b && 0 <= i < d.len() && i + 1 + component_reads(component_type_of(d[i])) <= d.len() {
        let t = component_type_of(d[i]);
        let c = PacketFilterContentView {
            packet_filter_content_type: t,
            packet_filter_content_value: component_value(d, i + 1, t),
        };
        lemma_component_width_bounds(t);
        lemma_parse_contents_extends(d, i + 1 + component_width(t), b, acc.push(c));
        if let Some((cs, _)) = parse_contents(d, i, b, acc) {
            assert forall|k: int| 0 <= k < acc.len() implies #[trigger] cs[k] == acc[k] by {
                assert(acc.push(c)[k] == acc[k]);
            }
        }
    }
}

/// How a packet filter component is read from the octets at `i` (a type octet, then its
/// value octets, ports and port limits big-endian), and where the next component starts:
/// 0x01 match-all (no value octets); 0x10 / 0x11 IPv4 remote / local address (4 address and
/// 4 mask octets); 0x21 / 0x23 IPv6 remote / local address (16 address octets and a prefix
/// length); 0x30 protocol identifier (1 octet); 0x40 / 0x50 single local / remote port
/// (2 octets); 0x41 / 0x51 local / remote port range (low limit, then high limit).
pub proof fn lemma_component_octets(d: Seq<u8>, i: int, b: int, acc: Seq<PacketFilterContentView>)
    requires
        i < b,
        parse_contents(d, i, b, acc) is Some,
    ensures
        ({
            let cs = (parse_contents(d, i, b, acc)->0).0;
            let c = cs[acc.len() as int];
            let port = |k: int| (d[k] as int * 256 + d[k + 1] as int) as u16;
            &&& cs.len() > acc.len()
            &&& d[i] == 0x01 ==> c == PacketFilterContentView {
                packet_filter_content_type: PacketFilterComponentType::MatchAll,
                packet_filter_content_value: PacketFilterComponentValueView::MatchAll,
            } && parse_contents(d, i, b, acc) == parse_contents(d, i + 1, b, acc.push(c))
            &&& d[i] == 0x10 ==> c == PacketFilterContentView {
                packet_filter_content_type: PacketFilterComponentType::IPv4RemoteAddress,
                packet_filter_content_value: PacketFilterComponentValueView::IPv4RemoteAddress(
                    IPv4FilterAddressView { ipv4_address: d.subrange(i + 1, i + 5), ipv4_address_mask: d.subrange(i + 5, i + 9) },
                ),
            } && parse_contents(d, i, b, acc) == parse_contents(d, i + 9, b, acc.push(c))
            &&& d[i] == 0x11 ==> c == PacketFilterContentView {
                packet_filter_content_type: PacketFilterComponentType::IPv4LocalAddress,
                packet_filter_content_value: PacketFilterComponentValueView::IPv4LocalAddress(
                    IPv4FilterAddressView { ipv4_address: d.subrange(i + 1, i + 5), ipv4_address_mask: d.subrange(i + 5, i + 9) },
                ),
            } && parse_contents(d, i, b, acc) == parse_contents(d, i + 9, b, acc.push(c))
            &&& d[i] == 0x21 ==> c == PacketFilterContentView {
                packet_filter_content_type: PacketFilterComponentType::IPv6RemoteAddressPrefixLength,
                packet_filter_content_value: PacketFilterComponentValueView::IPv6RemoteAddressPrefixLength(
                    IPv6FilterAddressView { ipv6_address: d.subrange(i + 1, i + 17), prefix_length: d[i + 17] },
                ),
            } && parse_contents(d, i, b, acc) == parse_contents(d, i + 18, b, acc.push(c))
            &&& d[i] == 0x23 ==> c == PacketFilterContentView {
                packet_filter_content_type: PacketFilterComponentType::IPv6LocalAddressPrefixLength,
                packet_filter_content_value: PacketFilterComponentValueView::IPv6LocalAddressPrefixLength(
                    IPv6FilterAddressView { ipv6_address: d.subrange(i + 1, i + 17), prefix_length: d[i + 17] },
                ),
            } && parse_contents(d, i, b, acc) == parse_contents(d, i + 18, b, acc.push(c))
            &&& d[i] == 0x30 ==> c == PacketFilterContentView {
                packet_filter_content_type: PacketFilterComponentType::ProtocolIdentifierNextHeader,
                packet_filter_content_value: PacketFilterComponentValueView::ProtocolIdentifierNextHeader(d[i + 1]),
            } && parse_contents(d, i, b, acc) == parse_contents(d, i + 2, b, acc.push(c))
            &&& d[i] == 0x40 ==> c == PacketFilterContentView {
                packet_filter_content_type: PacketFilterComponentType::SingleLocalPort,
                packet_filter_content_value: PacketFilterComponentValueView::SingleLocalPort(port(i + 1)),
            } && parse_contents(d, i, b, acc) == parse_contents(d, i + 3, b, acc.push(c))
            &&& d[i] == 0x41 ==> c == PacketFilterContentView {
                packet_filter_content_type: PacketFilterComponentType::LocalPortRange,
                packet_filter_content_value: PacketFilterComponentValueView::LocalPortRange(port(i + 1), port(i + 3)),
            } && parse_contents(d, i, b, acc) == parse_contents(d, i + 5, b, acc.push(c))
            &&& d[i] == 0x50 ==> c == PacketFilterContentView {
                packet_filter_content_type: PacketFilterComponentType::SingleRemotePort,
                packet_filter_content_value: PacketFilterComponentValueView::SingleRemotePort(port(i + 1)),
            } && parse_contents(d, i, b, acc) == parse_contents(d, i + 3, b, acc.push(c))
            &&& d[i] == 0x51 ==> c == PacketFilterContentView {
                packet_filter_content_type: PacketFilterComponentType::RemotePortRange,
                packet_filter_content_value: PacketFilterComponentValueView::RemotePortRange(port(i + 1), port(i + 3)),
            } && parse_contents(d, i, b, acc) == parse_contents(d, i + 5, b, acc.push(c))
        }),
{
    let t = component_type_of(d[i]);
    let c = PacketFilterContentView {
        packet_filter_content_type: t,
        packet_filter_content_value: component_value(d, i + 1, t),
    };
    lemma_component_width_bounds(t);
    lemma_parse_contents_extends(d, i + 1 + component_width(t), b, acc.push(c));
    let cs = (parse_contents(d, i, b, acc)->0).0;
    assert(cs[acc.len() as int] == acc.push(c)[acc.len() as int]);
    if i + 3 <= d.len() {
        lemma_be16_value(d[i + 1], d[i + 2]);
    }
    if i + 5 <= d.len() {
        lemma_be16_value(d[i + 3], d[i + 4]);
    }
}

/// How a rule's header is read from the octets at `i`: the rule identifier, the big-endian
/// rule length, then octet `i + 3` holding the operation code (its top three bits: 1 create,
/// 2 delete, 3 modify and add packet filters, 4 modify and replace all packet filters,
/// 5 modify and delete packet filters, 6 modify without modifying packet filters, 0 and 7
/// reserved), the DQR bit (bit 5) and the number of packet filters (low four bits). A rule
/// that carries filters ends with its precedence octet and an octet holding the
/// segregation bit (bit 7) and the QFI (low six bits).
pub proof fn lemma_rule_header_octets(d: Seq<u8>, i: int)
    requires
        parse_rule(d, i) is Some,
    ensures
        ({
            let (ie, j) = parse_rule(d, i)->0;
            let o = d[i + 3] as int;
            &&& ie.qosruleidentifer == d[i]
            &&& ie.lengthof_qo_srule as int == d[i + 1] as int * 256 + d[i + 2] as int
            &&& ie.numberofpacketfilters as int == o % 16
            &&& ie.dqrbit as int == (o / 16) % 2
            &&& o / 32 == 0 ==> ie.ruleoperationcode == RuleOperationCode::Reserved
            &&& o / 32 == 1 ==> ie.ruleoperationcode == RuleOperationCode::CreateNewQosRule
            &&& o / 32 == 2 ==> ie.ruleoperationcode == RuleOperationCode::DeleteExistingQosRule
            &&& o / 32 == 3 ==> ie.ruleoperationcode == RuleOperationCode::ModifyExistingQosRuleAndAddPackerFilters
            &&& o / 32 == 4 ==> ie.ruleoperationcode == RuleOperationCode::ModifyExistingQosRuleAndReplacePackerFilters
            &&& o / 32 == 5 ==> ie.ruleoperationcode == RuleOperationCode::ModifyExistingQosRuleAndDeletePackerFilters
            &&& o / 32 == 6 ==> ie.ruleoperationcode == RuleOperationCode::ModifyExistingQosRuleWithoutModifyPackerFilters
            &&& o / 32 == 7 ==> ie.ruleoperationcode == RuleOperationCode::Reserved
            &&& (o / 32 == 1 || o / 32 == 3 || o / 32 == 4) ==> {
                &&& i + 4 <= j - 2
                &&& ie.qosruleprecedence == d[j - 2]
                &&& ie.qosflowidentifer as int == d[j - 1] as int % 64
                &&& ie.segregation as int == ((d[j - 1] as int / 64) % 2) * 64
            }
        }),
{
    let o = d[i + 3];
    assert((o & 0x0f) as int == o as int % 16) by (bit_vector);
    assert(((o & 0x10) >> 4) as int == (o as int / 16) % 2) by (bit_vector);
    assert(((o & 0xe0) >> 5) as int == o as int / 32) by (bit_vector);
    lemma_be16_value(d[i + 1], d[i + 2]);
    let n = o & 0x0f;
    let op = rule_op_of((o & 0xe0) >> 5);
    lemma_parse_filters_advances(d, op, n, filter_entry_count(op, n), i + 4, seq![]);
    let (fl, k) = parse_filters(d, op, n, filter_entry_count(op, n), i + 4, seq![])->0;
    if op_carries_filters(op) {
        let q = d[k + 1];
        assert((q & 0x3f) as int == q as int % 64) by (bit_vector);
        assert((q & 0x40) as int == ((q as int / 64) % 2) * 64) by (bit_vector);
    }
}

/// How a packet filter list entry is read from the octets at `i`. For the create, add and
/// replace operations: octet `i` holds the direction (bits 6 and 5: 1 downlink only, 2 uplink
/// only, 3 bidirectional, 0 reserved) and the filter identifier (low four bits), octet `i + 1`
/// the length of the filter contents. For the delete-filters operation: `n` octets whose low
/// four bits are the identifiers of the filters to delete.
pub proof fn lemma_filter_octets(d: Seq<u8>, op: RuleOperationCode, n: u8, i: int)
    requires
        parse_filter(d, op, n, i) is Some,
    ensures
        ({
            let (f, k) = parse_filter(d, op, n, i)->0;
            let o = d[i] as int;
            &&& (op == RuleOperationCode::CreateNewQosRule || op == RuleOperationCode::ModifyExistingQosRuleAndAddPackerFilters
                || op == RuleOperationCode::ModifyExistingQosRuleAndReplacePackerFilters) ==> {
                &&& f is PacketFilterListUpdatePFList
                &&& f->PacketFilterListUpdatePFList_0.packet_filter_id as int == o % 16
                &&& f->PacketFilterListUpdatePFList_0.length_packet_filter_contents == d[i + 1]
                &&& (o / 16) % 4 == 0 ==> f->PacketFilterListUpdatePFList_0.packet_filter_direction == pkt_direction::RESERVED
                &&& (o / 16) % 4 == 1 ==> f->PacketFilterListUpdatePFList_0.packet_filter_direction == pkt_direction::DOWNLINK_ONLY
                &&& (o / 16) % 4 == 2 ==> f->PacketFilterListUpdatePFList_0.packet_filter_direction == pkt_direction::UPLINK_ONLY
                &&& (o / 16) % 4 == 3 ==> f->PacketFilterListUpdatePFList_0.packet_filter_direction == pkt_direction::DUAL_DIRECTION
            }
            &&& op == RuleOperationCode::ModifyExistingQosRuleAndDeletePackerFilters ==> {
                &&& k == i + n
                &&& f is PacketFilterListDeletePFList
                &&& f->PacketFilterListDeletePFList_0.len() == n
                &&& forall|m: int| 0 <= m < n ==> (#[trigger] f->PacketFilterListDeletePFList_0[m]) as int == d[i + m] as int % 16
            }
        }),
{
    if op == RuleOperationCode::ModifyExistingQosRuleAndDeletePackerFilters {
        let (f, k) = parse_filter(d, op, n, i)->0;
        assert forall|m: int| 0 <= m < n implies (#[trigger] f->PacketFilterListDeletePFList_0[m]) as int == d[i + m] as int % 16 by {
            let b = d[i + m];
            assert((b & 0x0f) as int == b as int % 16) by (bit_vector);
        }
    } else if op_carries_filters(op) {
        let b = d[i];
        assert((b & 0x0f) as int == b as int % 16) by (bit_vector);
        assert(((b & 0x30) >> 4) as int == (b as int / 16) % 4) by (bit_vector);
    }
}

pub(crate) fn be16_exec(hi: u8, lo: u8) -> (r: u16)
    ensures
        r == be16(hi, lo),
{
    (hi as u16) << 8 | lo as u16
}

/// Whether the component whose type octet is at `i` can be read from `d`.
pub open spec fn component_readable(d: Seq<u8>, i: int) -> bool {
    0 <= i < d.len() && i + 1 + component_reads(component_type_of(d[i])) <= d.len()
}

/// The component whose type octet is at `i`.
pub open spec fn component_at(d: Seq<u8>, i: int) -> PacketFilterContentView {
    let t = component_type_of(d[i]);
    PacketFilterContentView { packet_filter_content_type: t, packet_filter_content_value: component_value(d, i + 1, t) }
}

fn decode_component(data: &[u8], index: usize) -> (r: Option<(PacketFilterContent, usize)>)
    requires
        index < 0x20000,
    ensures
        r is Some <==> component_readable(data@, index as int),
        r matches Some((c, j)) ==> {
            &&& c@ == component_at(data@, index as int)
            &&& j == index + 1 + component_width(component_type_of(data@[index as int]))
        },
{
    let len = data.len();
    if index >= len {
        return None;
    }
    let t = PacketFilterComponentType::from_u8(data[index]);
    let index = index + 1;
    proof {
        lemma_component_width_bounds(t);
    }
    let value: PacketFilterComponentValue = match t {
        PacketFilterComponentType::MatchAll => PacketFilterComponentValue::MatchAll,
        PacketFilterComponentType::IPv4RemoteAddress => {
            if index + 8 > len {
                return None;
            }
            let a = IPv4FilterAddress {
                ipv4_address: slice_to_vec(slice_subrange(data, index, index + 4)),
                ipv4_address_mask: slice_to_vec(slice_subrange(data, index + 4, index + 8)),
            };
            PacketFilterComponentValue::IPv4RemoteAddress(a)
        },
        PacketFilterComponentType::IPv4LocalAddress => {
            if index + 8 > len {
                return None;
            }
            let a = IPv4FilterAddress {
                ipv4_address: slice_to_vec(slice_subrange(data, index, index + 4)),
                ipv4_address_mask: slice_to_vec(slice_subrange(data, index + 4, index + 8)),
            };
            PacketFilterComponentValue::IPv4LocalAddress(a)
        },
        PacketFilterComponentType::IPv6RemoteAddressPrefixLength => {
            if index + 17 > len {
                return None;
            }
            let a = IPv6FilterAddress {
                ipv6_address: slice_to_vec(slice_subrange(data, index, index + 16)),
                prefix_length: data[index + 16],
            };
            PacketFilterComponentValue::IPv6RemoteAddressPrefixLength(a)
        },
        PacketFilterComponentType::IPv6LocalAddressPrefixLength => {
            if index + 17 > len {
                return None;
            }
            let a = IPv6FilterAddress {
                ipv6_address: slice_to_vec(slice_subrange(data, index, index + 16)),
                prefix_length: data[index + 16],
            };
            PacketFilterComponentValue::IPv6LocalAddressPrefixLength(a)
        },
        PacketFilterComponentType::ProtocolIdentifierNextHeader => {
            if index + 1 > len {
                return None;
            }
            PacketFilterComponentValue::ProtocolIdentifierNextHeader(ProtocolIdentifierNextHeader { value: data[index] })
        },
        PacketFilterComponentType::SingleLocalPort => {
            if index + 2 > len {
                return None;
            }
            PacketFilterComponentValue::SingleLocalPort(Port { value: be16_exec(data[index], data[index + 1]) })
        },
        PacketFilterComponentType::LocalPortRange => {
            if index + 4 > len {
                return None;
            }
            PacketFilterComponentValue::LocalPortRange(PortRange {
                low: be16_exec(data[index], data[index + 1]),
                high: be16_exec(data[index + 2], data[index + 3]),
            })
        },
        PacketFilterComponentType::SingleRemotePort => {
            if index + 2 > len {
                return None;
            }
            PacketFilterComponentValue::SingleRemotePort(Port { value: be16_exec(data[index], data[index + 1]) })
        },
        PacketFilterComponentType::RemotePortRange => {
            if index + 4 > len {
                return None;
            }
            PacketFilterComponentValue::RemotePortRange(PortRange {
                low: be16_exec(data[index], data[index + 1]),
                high: be16_exec(data[index + 2], data[index + 3]),
            })
        },
        PacketFilterComponentType::SecurityParameterIndex => {
            PacketFilterComponentValue::SecurityParameterIndex(SecurityParameterIndex { value: 0 })
        },
        PacketFilterComponentType::TypeOfServiceTrafficClass => {
            PacketFilterComponentValue::TypeOfServiceTrafficClass(TypeOfServiceTrafficClass { value: 0, mask: 0 })
        },
        PacketFilterComponentType::FlowLabel => PacketFilterComponentValue::FlowLabel(FlowLabel { value: 0 }),
        PacketFilterComponentType::DestinationMACAddress => {
            PacketFilterComponentValue::DestinationMACAddress(MACAddress { value: vec![0u8, 0, 0, 0, 0, 0] })
        },
        PacketFilterComponentType::SourceMACAddress => {
            PacketFilterComponentValue::SourceMACAddress(MACAddress { value: vec![0u8, 0, 0, 0, 0, 0] })
        },
        PacketFilterComponentType::VlanCtagVid => PacketFilterComponentValue::VlanCtagVid(VlanCtagVid {}),
        PacketFilterComponentType::VlanStagVid => PacketFilterComponentValue::VlanStagVid(VlanStagVid {}),
        PacketFilterComponentType::VlanCtagPcpdei => PacketFilterComponentValue::VlanCtagPcpdei(VlanCtagPcpdei {}),
        PacketFilterComponentType::VlanStagPcpdei => PacketFilterComponentValue::VlanStagPcpdei(VlanStagPcpdei {}),
        PacketFilterComponentType::Ethertype => PacketFilterComponentValue::Ethertype(Ethertype {}),
    };
    let width: usize = match t {
        PacketFilterComponentType::MatchAll => 0,
        PacketFilterComponentType::IPv4RemoteAddress => 8,
        PacketFilterComponentType::IPv4LocalAddress => 8,
        PacketFilterComponentType::IPv6RemoteAddressPrefixLength => 17,
        PacketFilterComponentType::IPv6LocalAddressPrefixLength => 17,
        PacketFilterComponentType::ProtocolIdentifierNextHeader => 1,
        PacketFilterComponentType::SingleLocalPort => 2,
        PacketFilterComponentType::LocalPortRange => 4,
        PacketFilterComponentType::SingleRemotePort => 2,
        PacketFilterComponentType::RemotePortRange => 4,
        PacketFilterComponentType::SecurityParameterIndex => 4,
        PacketFilterComponentType::TypeOfServiceTrafficClass => 2,
        PacketFilterComponentType::FlowLabel => 3,
        PacketFilterComponentType::DestinationMACAddress => 6,
        PacketFilterComponentType::SourceMACAddress => 6,
        PacketFilterComponentType::VlanCtagVid => 2,
        PacketFilterComponentType::VlanStagVid => 2,
        PacketFilterComponentType::VlanCtagPcpdei => 1,
        PacketFilterComponentType::VlanStagPcpdei => 1,
        PacketFilterComponentType::Ethertype => 2,
    };
    let c = PacketFilterContent { packet_filter_content_type: t, packet_filter_content_value: value };
    assert(c@ == component_at(data@, index - 1));
    Some((c, index + width))
}

fn decode_contents(data: &[u8], start: usize, b: usize) -> (r: Option<(Vec<PacketFilterContent>, usize)>)
    requires
        start <= b < 0x20000,
    ensures
        match r {
            Some((cs, j)) => parse_contents(data@, start as int, b as int, seq![]) == Some((contents_view(cs@), j as int)) && j <= b + 17,
            None => parse_contents(data@, start as int, b as int, seq![]) is None,
        },
{
    let mut packet_filter_content_list: Vec<PacketFilterContent> = Vec::new();
    let mut index: usize = start;
    assert(contents_view(packet_filter_content_list@) =~= seq![]);
    while index < b
        invariant
            start <= index <= b + 17,
            b < 0x20000,
            parse_contents(data@, start as int, b as int, seq![]) == parse_contents(
                data@,
                index as int,
                b as int,
                contents_view(packet_filter_content_list@),
            ),
        decreases if index < b { b - index } else { 0 },
    {
        match decode_component(data, index) {
            Some((c, j)) => {
                proof {
                    lemma_component_width_bounds(component_type_of(data@[index as int]));
                    assert(contents_view(packet_filter_content_list@.push(c)) =~= contents_view(
                        packet_filter_content_list@,
                    ).push(c@));
                }
                packet_filter_content_list.push(c);
                index = j;
            },
            None => {
                return None;
            },
        }
    }
    Some((packet_filter_content_list, index))
}

fn decode_filter(data: &[u8], op: RuleOperationCode, n: u8, index: usize) -> (r: Option<(PacketFilterListEnum, usize)>)
    requires
        index < 0x18000,
        n < 16,
    ensures
        match r {
            Some((f, j)) => parse_filter(data@, op, n, index as int) == Some((f@, j as int)) && j <= index + 274,
            None => parse_filter(data@, op, n, index as int) is None,
        },
{
    let len = data.len();
    match op {
        RuleOperationCode::ModifyExistingQosRuleAndDeletePackerFilters => {
            if index + n as usize > len {
                return None;
            }
            let mut ids: Vec<u8> = Vec::new();
            let mut k: usize = 0;
            while k < n as usize
                invariant
                    k <= n,
                    index < 0x18000,
                    n < 16,
                    index + n <= data@.len(),
                    ids@ =~= Seq::new(k as nat, |q: int| data@[index + q] & 0x0f),
                decreases n - k,
            {
                ids.push(data[index + k] & 0b00001111);
                k += 1;
                assert(ids@ =~= Seq::new(k as nat, |q: int| data@[index + q] & 0x0f));
            }
            let f = PacketFilterListEnum::PacketFilterListDeletePFList(PacketFilterListDeletePFList { packet_fliter_id: ids });
            Some((f, index + n as usize))
        },
        RuleOperationCode::CreateNewQosRule
        | RuleOperationCode::ModifyExistingQosRuleAndAddPackerFilters
        | RuleOperationCode::ModifyExistingQosRuleAndReplacePackerFilters => {
            if index + 2 > len {
                return None;
            }
            let packet_filter_direction = pkt_direction::from_u8((data[index] & 0b00110000) >> 4);
            let packet_filter_id = data[index] & 0b00001111;
            let length_packet_filter_contents = data[index + 1];
            let start = index + 2;
            let b = start + length_packet_filter_contents as usize;
            match decode_contents(data, start, b) {
                Some((packet_filter_content_list, j)) => {
                    let f = PacketFilterListEnum::PacketFilterListUpdatePFList(PacketFilterListUpdatePFList {
                        packet_filter_direction,
                        packet_filter_id,
                        length_packet_filter_contents,
                        packet_filter_content_list,
                    });
                    Some((f, j))
                },
                None => None,
            }
        },
        _ => Some((PacketFilterListEnum::PacketFilterNone, index)),
    }
}

fn decode_rule(data: &[u8], index: usize) -> (r: Option<(QOSRulesIE, usize)>)
    requires
        index < 0x10000,
    ensures
        match r {
            Some((ie, j)) => parse_rule(data@, index as int) == Some((ie@, j as int)) && j <= index + 4 + 15 * 274 + 2,
            None => parse_rule(data@, index as int) is None,
        },
{
    let len = data.len();
    if index + 4 > len {
        return None;
    }
    let qosruleidentifer: u8 = data[index];
    let lengthof_qo_srule: u16 = be16_exec(data[index + 1], data[index + 2]);
    let octet: u8 = data[index + 3];
    let numberofpacketfilters: u8 = octet & 0b00001111;
    let dqrbit: u8 = (octet & 0b00010000) >> 4;
    let ruleoperationcode = RuleOperationCode::from_u8((octet & 0b11100000) >> 5);
    assert(numberofpacketfilters < 16) by (bit_vector)
        requires
            numberofpacketfilters == octet & 0b00001111,
    ;
    let entry_count: u8 = match ruleoperationcode {
        RuleOperationCode::ModifyExistingQosRuleAndDeletePackerFilters => if numberofpacketfilters == 0 {
            0
        } else {
            1
        },
        _ => numberofpacketfilters,
    };
    let start: usize = index + 4;
    let mut cursor: usize = start;
    let mut packetfilterlist: Vec<PacketFilterListEnum> = Vec::new();
    let mut f: u8 = 0;
    assert(filters_view(packetfilterlist@) =~= seq![]);
    while f < entry_count
        invariant
            numberofpacketfilters < 16,
            f <= entry_count,
            entry_count as nat == filter_entry_count(ruleoperationcode, numberofpacketfilters),
            start == index + 4,
            index + 4 <= data@.len(),
            numberofpacketfilters == data@[index + 3] & 0x0f,
            ruleoperationcode == rule_op_of((data@[index + 3] & 0xe0) >> 5),
            index < 0x10000,
            start <= cursor <= start + f * 274,
            parse_filters(data@, ruleoperationcode, numberofpacketfilters, entry_count as nat, start as int, seq![])
                == parse_filters(
                data@,
                ruleoperationcode,
                numberofpacketfilters,
                (entry_count - f) as nat,
                cursor as int,
                filters_view(packetfilterlist@),
            ),
        decreases entry_count - f,
    {
        match decode_filter(data, ruleoperationcode, numberofpacketfilters, cursor) {
            Some((filter, j)) => {
                proof {
                    assert(filters_view(packetfilterlist@.push(filter)) =~= filters_view(packetfilterlist@).push(filter@));
                    if ruleoperationcode == RuleOperationCode::ModifyExistingQosRuleAndDeletePackerFilters {
                    } else if op_carries_filters(ruleoperationcode) {
                        lemma_parse_contents_advances(data@, cursor + 2, cursor + 2 + data@[cursor + 1], seq![]);
                    }
                }
                packetfilterlist.push(filter);
                cursor = j;
                f = f + 1;
            },
            None => {
                assert(parse_filters(
                    data@,
                    ruleoperationcode,
                    numberofpacketfilters,
                    (entry_count - f) as nat,
                    cursor as int,
                    filters_view(packetfilterlist@),
                ) is None);
                return None;
            },
        }
    }
    let mut qosruleprecedence: u8 = 0;
    let mut qosflowidentifer: u8 = 0;
    let mut segregation: u8 = 0;
    let spare: u8 = 0;
    match ruleoperationcode {
        RuleOperationCode::CreateNewQosRule
        | RuleOperationCode::ModifyExistingQosRuleAndAddPackerFilters
        | RuleOperationCode::ModifyExistingQosRuleAndReplacePackerFilters => {
            if cursor + 2 > len {
                assert(parse_filters(data@, ruleoperationcode, numberofpacketfilters, 0, cursor as int, filters_view(packetfilterlist@))
                    == Some((filters_view(packetfilterlist@), cursor as int)));
                return None;
            }
            qosruleprecedence = data[cursor];
            cursor += 1;
            qosflowidentifer = data[cursor] & 0b00111111;
            segregation = data[cursor] & 0b01000000;
            cursor += 1;
        },
        _ => {},
    }
    let ie = QOSRulesIE {
        qosruleidentifer,
        lengthof_qo_srule,
        numberofpacketfilters,
        dqrbit,
        ruleoperationcode,
        packetfilterlist,
        qosruleprecedence,
        qosflowidentifer,
        segregation,
        spare,
    };
    Some((ie, cursor))
}

impl QOSRules {
    /// Decodes the QoS rules information element `data`: a big-endian 16-bit length,
    /// then rules read from octet 2 while the read position is before that length.
    /// Returns `None` exactly on the inputs on which decoding would read past the end of `data`.
    pub fn try_decode(data: &[u8]) -> (r: Option<QOSRules>)
        ensures
            match r {
                Some(q) => spec_decode_qos_rules(data@) == Some(q@),
                None => spec_decode_qos_rules(data@) is None,
            },
    {
        if data.len() < 2 {
            return None;
        }
        let length: u16 = be16_exec(data[0], data[1]);
        let mut qos_rules_ie_list = HashMap::<u8, QOSRulesIE>::new();
        let mut index: usize = 2;
        assert(rules_map_view(qos_rules_ie_list@) =~= Map::<u8, QOSRulesIEView>::empty());
        while index < length as usize
            invariant
                2 <= index < 0x20000,
                length == be16(data@[0], data@[1]),
                parse_rules(data@, length as int, 2, Map::empty()) == parse_rules(
                    data@,
                    length as int,
                    index as int,
                    rules_map_view(qos_rules_ie_list@),
                ),
            decreases if index < length as usize { length - index } else { 0 },
        {
            match decode_rule(data, index) {
                Some((ie, j)) => {
                    proof {
                        lemma_parse_rule_advances(data@, index as int);
                        assert(rules_map_view(qos_rules_ie_list@.insert(ie.qosruleidentifer, ie)) =~= rules_map_view(
                            qos_rules_ie_list@,
                        ).insert(ie.qosruleidentifer, ie@));
                    }
                    let id = ie.qosruleidentifer;
                    qos_rules_ie_list.insert(id, ie);
                    index = j;
                },
                None => {
                    return None;
                },
            }
        }
        Some(QOSRules { lengthofqosrulesie: length, qosrulesie: qos_rules_ie_list })
    }

    /// Decodes the QoS rules information element `data` (see `try_decode`), on inputs
    /// that decode without reading past their end.
    pub fn decode(data: Vec<u8>) -> (r: QOSRules)
        requires
            spec_decode_qos_rules(data@) is Some,
        ensures
            r@ == spec_decode_qos_rules(data@).unwrap(),
    {
        QOSRules::try_decode(data.as_slice()).unwrap()
    }
}

// ---------------------------------------------------------------------------
// Reflective QoS: mapping an uplink packet to a QoS flow
// ---------------------------------------------------------------------------

#[verifier::external_type_specification]
#[verifier::external_body]
pub struct ExIpv6Packet<'p>(Ipv6Packet<'p>);

/// The bytes that a pnet IPv6 packet view reads its header fields from.
pub uninterp spec fn ipv6_packet_bytes(p: Ipv6Packet) -> Seq<u8>;

/// pnet's `Ipv6Packet::new`: a view of `buf` as an IPv6 packet, given exactly when `buf`
/// holds at least the 40 octets of the fixed IPv6 header; the view reads `buf` itself.
#[verifier::external_body]
fn ipv6_packet_new<'p>(buf: &'p [u8]) -> (r: Option<Ipv6Packet<'p>>)
    ensures
        r is Some <==> buf@.len() >= 40,
        r is Some ==> ipv6_packet_bytes(r->0) == buf@,
{
    Ipv6Packet::new(buf)
}

/// pnet's `Ipv6Packet::get_version`: the high nibble of the first octet.
#[verifier::external_body]
fn ipv6_packet_version(p: &Ipv6Packet) -> (r: u8)
    requires
        ipv6_packet_bytes(*p).len() >= 40,
    ensures
        r == ipv6_packet_bytes(*p)[0] >> 4,
{
    p.get_version()
}

/// pnet's `Ipv6Packet::get_destination`, taken as its sixteen octets: octets 24 to 39
/// of the packet, in order.
#[verifier::external_body]
fn ipv6_packet_destination(p: &Ipv6Packet) -> (r: [u8; 16])
    requires
        ipv6_packet_bytes(*p).len() >= 40,
    ensures
        r@ == ipv6_packet_bytes(*p).subrange(24, 40),
{
    p.get_destination().octets()
}

/// A packet filter component that names `dest` as the IPv6 remote address.
pub open spec fn content_matches_dest(c: PacketFilterContentView, dest: Seq<u8>) -> bool {
    match c.packet_filter_content_value {
        PacketFilterComponentValueView::IPv6RemoteAddressPrefixLength(a) => a.ipv6_address == dest,
        _ => false,
    }
}

/// Some component of `cs` names `dest` as the IPv6 remote address.
pub open spec fn contents_match_dest(cs: Seq<PacketFilterContentView>, dest: Seq<u8>) -> bool {
    exists|j: int| 0 <= j < cs.len() && #[trigger] content_matches_dest(cs[j], dest)
}

/// An uplink-only packet filter with a component that names `dest` as the IPv6 remote address.
pub open spec fn filter_matches_dest(f: PacketFilterListEnumView, dest: Seq<u8>) -> bool {
    match f {
        PacketFilterListEnumView::PacketFilterListUpdatePFList(u) => {
            &&& u.packet_filter_direction == pkt_direction::UPLINK_ONLY
            &&& contents_match_dest(u.packet_filter_content_list, dest)
        },
        _ => false,
    }
}

/// A rule with a packet filter that matches packets sent to `dest`.
pub open spec fn rule_matches_dest(r: QOSRulesIEView, dest: Seq<u8>) -> bool {
    exists|i: int| 0 <= i < r.packetfilterlist.len() && #[trigger] filter_matches_dest(r.packetfilterlist[i], dest)
}

/// The walk over `rules` in order for a packet sent to `dest`: the default QFI (1 at the
/// start, then that of each rule visited with its DQR bit set), the QFI of the first
/// matching rule (0 before one is met), and whether one was met, after which the walk stops.
pub open spec fn qfi_walk(rules: Seq<QOSRulesIEView>, dest: Seq<u8>) -> (u8, u8, bool)
    decreases rules.len(),
{
    if rules.len() == 0 {
        (1u8, 0u8, false)
    } else {
        let w = qfi_walk(rules.drop_last(), dest);
        let r = rules.last();
        if w.2 {
            w
        } else {
            let d = if r.dqrbit == 1 { r.qosflowidentifer } else { w.0 };
            if rule_matches_dest(r, dest) {
                (d, r.qosflowidentifer, true)
            } else {
                (d, 0u8, false)
            }
        }
    }
}

/// The QFI a walk ends in: the matching rule's QFI when it is not 0, else the default QFI.
pub open spec fn qfi_of_walk(w: (u8, u8, bool)) -> u8 {
    if w.1 > 0 {
        w.1
    } else {
        w.0
    }
}

/// `order` lists each key of `m` exactly once.
pub open spec fn is_enumeration(order: Seq<u8>, m: Map<u8, QOSRulesIEView>) -> bool {
    &&& order.no_duplicates()
    &&& forall|i: int| 0 <= i < order.len() ==> m.contains_key(#[trigger] order[i])
    &&& forall|k: u8| #[trigger] m.contains_key(k) ==> order.contains(k)
}

/// The rules of `m` in the order `order` gives their keys.
pub open spec fn rules_in_order(m: Map<u8, QOSRulesIEView>, order: Seq<u8>) -> Seq<QOSRulesIEView> {
    order.map_values(|k: u8| m[k])
}

/// The QFI that the uplink packet `pkt` is mapped to when the rules of `m` are visited in
/// `order`: for an IPv6 packet (at least 40 octets, version 6), the QFI the walk ends in
/// for its destination address (octets 24 to 39); for any other packet, QFI 1.
pub open spec fn spec_reflect_qfi(pkt: Seq<u8>, m: Map<u8, QOSRulesIEView>, order: Seq<u8>) -> u8 {
    if pkt.len() >= 40 && pkt[0] >> 4 == 6 {
        qfi_of_walk(qfi_walk(rules_in_order(m, order), pkt.subrange(24, 40)))
    } else {
        1
    }
}

proof fn lemma_qfi_walk_from_rules(rules: Seq<QOSRulesIEView>, dest: Seq<u8>)
    ensures
        qfi_walk(rules, dest).0 == 1 || exists|i: int|
            0 <= i < rules.len() && #[trigger] rules[i].qosflowidentifer == qfi_walk(rules, dest).0,
        qfi_walk(rules, dest).1 == 0 || exists|i: int|
            0 <= i < rules.len() && #[trigger] rules[i].qosflowidentifer == qfi_walk(rules, dest).1,
    decreases rules.len(),
{
    if rules.len() > 0 {
        let prev = rules.drop_last();
        lemma_qfi_walk_from_rules(prev, dest);
        assert forall|i: int| 0 <= i < prev.len() implies #[trigger] prev[i] == rules[i] by {}
        assert(rules.last() == rules[rules.len() - 1]);
    }
}

/// Reflective QoS never invents a flow: a packet is mapped to QFI 1 or to the QFI of one of
/// the rules.
pub proof fn lemma_reflect_qfi_is_default_or_rule_qfi(pkt: Seq<u8>, m: Map<u8, QOSRulesIEView>, order: Seq<u8>)
    requires
        is_enumeration(order, m),
    ensures
        spec_reflect_qfi(pkt, m, order) == 1 || exists|k: u8|
            m.contains_key(k) && #[trigger] m[k].qosflowidentifer == spec_reflect_qfi(pkt, m, order),
{
    if pkt.len() >= 40 && pkt[0] >> 4 == 6 {
        let rules = rules_in_order(m, order);
        lemma_qfi_walk_from_rules(rules, pkt.subrange(24, 40));
        let r = spec_reflect_qfi(pkt, m, order);
        if r != 1 {
            let i = choose|i: int| 0 <= i < rules.len() && #[trigger] rules[i].qosflowidentifer == r;
            assert(m.contains_key(order[i]));
            assert(m[order[i]].qosflowidentifer == r);
        }
    }
}

/// A rule has an uplink-only packet filter with a component naming `dest` as the IPv6 remote
/// address, at filter `fi` and component `ci`.
pub open spec fn uplink_filter_names(r: QOSRulesIEView, fi: int, ci: int, dest: Seq<u8>) -> bool {
    &&& 0 <= fi < r.packetfilterlist.len()
    &&& r.packetfilterlist[fi] is PacketFilterListUpdatePFList
    &&& r.packetfilterlist[fi]->PacketFilterListUpdatePFList_0.packet_filter_direction == pkt_direction::UPLINK_ONLY
    &&& 0 <= ci < r.packetfilterlist[fi]->PacketFilterListUpdatePFList_0.packet_filter_content_list.len()
    &&& r.packetfilterlist[fi]->PacketFilterListUpdatePFList_0.packet_filter_content_list[ci].packet_filter_content_value
        is IPv6RemoteAddressPrefixLength
    &&& r.packetfilterlist[fi]->PacketFilterListUpdatePFList_0.packet_filter_content_list[ci].packet_filter_content_value->IPv6RemoteAddressPrefixLength_0.ipv6_address
        == dest
}

proof fn lemma_rule_matches_iff_names(r: QOSRulesIEView, dest: Seq<u8>)
    ensures
        rule_matches_dest(r, dest) <==> exists|fi: int, ci: int| #[trigger] uplink_filter_names(r, fi, ci, dest),
{
    if rule_matches_dest(r, dest) {
        let fi = choose|fi: int| 0 <= fi < r.packetfilterlist.len() && #[trigger] filter_matches_dest(r.packetfilterlist[fi], dest);
        let u = r.packetfilterlist[fi]->PacketFilterListUpdatePFList_0;
        let ci = choose|ci: int| 0 <= ci < u.packet_filter_content_list.len() && #[trigger] content_matches_dest(u.packet_filter_content_list[ci], dest);
        assert(uplink_filter_names(r, fi, ci, dest));
    }
    if exists|fi: int, ci: int| #[trigger] uplink_filter_names(r, fi, ci, dest) {
        let (fi, ci) = choose|fi: int, ci: int| #[trigger] uplink_filter_names(r, fi, ci, dest);
        let u = r.packetfilterlist[fi]->PacketFilterListUpdatePFList_0;
        assert(content_matches_dest(u.packet_filter_content_list[ci], dest));
        assert(contents_match_dest(u.packet_filter_content_list, dest));
        assert(filter_matches_dest(r.packetfilterlist[fi], dest));
    }
}

proof fn lemma_qfi_walk_without_uplink(rules: Seq<QOSRulesIEView>, dest: Seq<u8>)
    requires
        forall|k: int| 0 <= k < rules.len() ==> (#[trigger] rules[k]).dqrbit != 1 && !rule_matches_dest(rules[k], dest),
    ensures
        qfi_walk(rules, dest) == (1u8, 0u8, false),
    decreases rules.len(),
{
    if rules.len() > 0 {
        let prev = rules.drop_last();
        assert forall|k: int| 0 <= k < prev.len() implies (#[trigger] prev[k]).dqrbit != 1 && !rule_matches_dest(prev[k], dest) by {
            assert(prev[k] == rules[k]);
        }
        lemma_qfi_walk_without_uplink(prev, dest);
        assert(rules.last() == rules[rules.len() - 1]);
    }
}

/// Only uplink-only packet filters select a flow: when no rule has the DQR bit set and no
/// rule has an uplink-only packet filter, every packet is mapped to QFI 1.
pub proof fn lemma_reflect_without_uplink_filters_is_default(pkt: Seq<u8>, m: Map<u8, QOSRulesIEView>, order: Seq<u8>)
    requires
        is_enumeration(order, m),
        forall|k: u8| #[trigger] m.contains_key(k) ==> m[k].dqrbit != 1 && forall|fi: int|
            0 <= fi < m[k].packetfilterlist.len() ==> !(#[trigger] m[k].packetfilterlist[fi] matches PacketFilterListEnumView::PacketFilterListUpdatePFList(u)
                && u.packet_filter_direction == pkt_direction::UPLINK_ONLY),
    ensures
        spec_reflect_qfi(pkt, m, order) == 1,
{
    if pkt.len() >= 40 && pkt[0] >> 4 == 6 {
        let rules = rules_in_order(m, order);
        let dest = pkt.subrange(24, 40);
        assert forall|k: int| 0 <= k < rules.len() implies (#[trigger] rules[k]).dqrbit != 1 && !rule_matches_dest(rules[k], dest) by {
            let key = order[k];
            assert(m.contains_key(key));
            lemma_rule_matches_iff_names(rules[k], dest);
            if exists|fi: int, ci: int| #[trigger] uplink_filter_names(rules[k], fi, ci, dest) {
                let (fi, ci) = choose|fi: int, ci: int| #[trigger] uplink_filter_names(rules[k], fi, ci, dest);
                assert(m[key].packetfilterlist[fi] == rules[k].packetfilterlist[fi]);
            }
        }
        lemma_qfi_walk_without_uplink(rules, dest);
    }
}

proof fn lemma_qfi_walk_single_match(rules: Seq<QOSRulesIEView>, dest: Seq<u8>, q: u8)
    requires
        forall|k: int| 0 <= k < rules.len() && rule_matches_dest(#[trigger] rules[k], dest) ==> rules[k].qosflowidentifer == q,
    ensures
        qfi_walk(rules, dest).2 ==> qfi_walk(rules, dest).1 == q,
        (exists|k: int| 0 <= k < rules.len() && rule_matches_dest(#[trigger] rules[k], dest)) ==> qfi_walk(rules, dest).2,
    decreases rules.len(),
{
    if rules.len() > 0 {
        let prev = rules.drop_last();
        assert forall|k: int| 0 <= k < prev.len() && rule_matches_dest(#[trigger] prev[k], dest) implies prev[k].qosflowidentifer == q by {
            assert(prev[k] == rules[k]);
        }
        lemma_qfi_walk_single_match(prev, dest, q);
        let last = rules[rules.len() - 1];
        assert(rules.last() == last);
        if exists|k: int| 0 <= k < rules.len() && rule_matches_dest(#[trigger] rules[k], dest) {
            let k = choose|k: int| 0 <= k < rules.len() && rule_matches_dest(#[trigger] rules[k], dest);
            if k < rules.len() - 1 {
                assert(prev[k] == rules[k]);
            }
        }
    }
}

/// A packet sent to an address that an uplink-only filter names as its IPv6 remote address is
/// mapped to the flow of the rules holding such a filter: when at least one rule holds one and
/// all that do carry the same QFI `q` (not 0), an IPv6 packet to that address (version 6 in
/// the high nibble of octet 0, destination in octets 24 to 39) gets QFI `q`, in whatever
/// order the rules are visited.
pub proof fn lemma_reflect_to_named_destination(pkt: Seq<u8>, m: Map<u8, QOSRulesIEView>, order: Seq<u8>, q: u8)
    requires
        is_enumeration(order, m),
        pkt.len() >= 40,
        pkt[0] / 16 == 6,
        q > 0,
        exists|k: u8, fi: int, ci: int| m.contains_key(k) && #[trigger] uplink_filter_names(m[k], fi, ci, pkt.subrange(24, 40)),
        forall|k: u8, fi: int, ci: int|
            m.contains_key(k) && #[trigger] uplink_filter_names(m[k], fi, ci, pkt.subrange(24, 40)) ==> m[k].qosflowidentifer == q,
    ensures
        spec_reflect_qfi(pkt, m, order) == q,
{
    let b = pkt[0];
    assert(b >> 4 == b / 16) by (bit_vector);
    let rules = rules_in_order(m, order);
    let dest = pkt.subrange(24, 40);
    assert forall|k: int| 0 <= k < rules.len() && rule_matches_dest(#[trigger] rules[k], dest) implies rules[k].qosflowidentifer == q by {
        lemma_rule_matches_iff_names(rules[k], dest);
        let (fi, ci) = choose|fi: int, ci: int| #[trigger] uplink_filter_names(rules[k], fi, ci, dest);
        assert(m.contains_key(order[k]));
        assert(uplink_filter_names(m[order[k]], fi, ci, dest));
    }
    let (k0, fi0, ci0) = choose|k: u8, fi: int, ci: int| m.contains_key(k) && #[trigger] uplink_filter_names(m[k], fi, ci, dest);
    assert(order.contains(k0));
    let i0 = choose|i: int| 0 <= i < order.len() && order[i] == k0;
    assert(rules[i0] == m[k0]);
    lemma_rule_matches_iff_names(rules[i0], dest);
    assert(uplink_filter_names(rules[i0], fi0, ci0, dest));
    lemma_qfi_walk_single_match(rules, dest, q);
}

/// The keys of `m` below `n`, in ascending order.
pub open spec fn keys_below(m: Map<u8, QOSRulesIEView>, n: nat) -> Seq<u8>
    decreases n,
{
    if n == 0 {
        Seq::empty()
    } else {
        let prev = keys_below(m, (n - 1) as nat);
        if m.contains_key((n - 1) as u8) {
            prev.push((n - 1) as u8)
        } else {
            prev
        }
    }
}

proof fn lemma_keys_below(m: Map<u8, QOSRulesIEView>, n: nat)
    requires
        n <= 256,
    ensures
        keys_below(m, n).no_duplicates(),
        forall|i: int|
            0 <= i < keys_below(m, n).len() ==> #[trigger] keys_below(m, n)[i] < n && m.contains_key(
                keys_below(m, n)[i],
            ),
        forall|k: u8| k < n && m.contains_key(k) ==> #[trigger] keys_below(m, n).contains(k),
    decreases n,
{
    if n > 0 {
        lemma_keys_below(m, (n - 1) as nat);
        let prev = keys_below(m, (n - 1) as nat);
        assert forall|k: u8| k < n && m.contains_key(k) implies #[trigger] keys_below(m, n).contains(k) by {
            if k < n - 1 {
                assert(prev.contains(k));
                let i = choose|i: int| 0 <= i < prev.len() && prev[i] == k;
                assert(keys_below(m, n)[i] == k);
            } else {
                assert(keys_below(m, n)[prev.len() as int] == k);
            }
        }
    }
}

fn bytes_equal(a: &[u8], b: &[u8]) -> (r: bool)
    ensures
        r == (a@ == b@),
{
    if a.len() != b.len() {
        return false;
    }
    let mut i: usize = 0;
    while i < a.len()
        invariant
            a.len() == b.len(),
            i <= a.len(),
            forall|j: int| 0 <= j < i ==> a@[j] == b@[j],
        decreases a.len() - i,
    {
        if a[i] != b[i] {
            return false;
        }
        i = i + 1;
    }
    assert(a@ =~= b@);
    true
}

fn filter_matches(f: &PacketFilterListEnum, dest: &[u8]) -> (r: bool)
    ensures
        r == filter_matches_dest(f@, dest@),
{
    match f {
        PacketFilterListEnum::PacketFilterListUpdatePFList(u) => {
            match u.packet_filter_direction {
                pkt_direction::UPLINK_ONLY => {},
                _ => {
                    return false;
                },
            }
            let ghost cs = contents_view(u.packet_filter_content_list@);
            let ghost fv = PacketFilterListEnumView::PacketFilterListUpdatePFList(
                PacketFilterListUpdatePFListView {
                    packet_filter_direction: pkt_direction::UPLINK_ONLY,
                    packet_filter_id: u.packet_filter_id,
                    length_packet_filter_contents: u.length_packet_filter_contents,
                    packet_filter_content_list: cs,
                },
            );
            assert(f@ == fv);
            let mut j: usize = 0;
            while j < u.packet_filter_content_list.len()
                invariant
                    j <= u.packet_filter_content_list.len(),
                    cs == contents_view(u.packet_filter_content_list@),
                    f@ == fv,
                    fv == PacketFilterListEnumView::PacketFilterListUpdatePFList(
                        PacketFilterListUpdatePFListView {
                            packet_filter_direction: pkt_direction::UPLINK_ONLY,
                            packet_filter_id: u.packet_filter_id,
                            length_packet_filter_contents: u.length_packet_filter_contents,
                            packet_filter_content_list: cs,
                        },
                    ),
                    forall|k: int| 0 <= k < j ==> !content_matches_dest(#[trigger] cs[k], dest@),
                decreases u.packet_filter_content_list.len() - j,
            {
                let c = &u.packet_filter_content_list[j];
                match &c.packet_filter_content_value {
                    PacketFilterComponentValue::IPv6RemoteAddressPrefixLength(a) => {
                        if bytes_equal(a.ipv6_address.as_slice(), dest) {
                            assert(content_matches_dest(cs[j as int], dest@));
                            assert(contents_match_dest(cs, dest@));
                            return true;
                        }
                    },
                    _ => {},
                }
                assert(!content_matches_dest(cs[j as int], dest@));
                j = j + 1;
            }
            false
        },
        _ => false,
    }
}

fn rule_matches(rule: &QOSRulesIE, dest: &[u8]) -> (r: bool)
    ensures
        r == rule_matches_dest(rule@, dest@),
{
    let ghost fs = filters_view(rule.packetfilterlist@);
    let mut i: usize = 0;
    while i < rule.packetfilterlist.len()
        invariant
            i <= rule.packetfilterlist.len(),
            fs == filters_view(rule.packetfilterlist@),
            forall|k: int| 0 <= k < i ==> !filter_matches_dest(#[trigger] fs[k], dest@),
        decreases rule.packetfilterlist.len() - i,
    {
        let matched = filter_matches(&rule.packetfilterlist[i], dest);
        assert(fs[i as int] == rule.packetfilterlist@[i as int]@);
        if matched {
            assert(rule@.packetfilterlist == fs);
            assert(filter_matches_dest(rule@.packetfilterlist[i as int], dest@));
            return true;
        }
        i = i + 1;
    }
    false
}

impl QOSRules {
    /// Maps an uplink packet to the QoS flow that reflective QoS sends it on. Each rule is
    /// visited once, in the map's own (unspecified) order: a rule with its DQR bit set makes its
    /// QFI the default, and the first rule holding an uplink-only filter whose IPv6 remote
    /// address equals the packet's destination ends the walk with its QFI. A packet that is not
    /// IPv6 gets QFI 1.
    pub fn reflect_pkt_to_qfi(&self, pkt_buffer: Vec<u8>) -> (r: u8)
        ensures
            exists|order: Seq<u8>|
                is_enumeration(order, self@.qosrulesie) && r == spec_reflect_qfi(
                    pkt_buffer@,
                    self@.qosrulesie,
                    order,
                ),
    {
        let mut default_qfi: u8 = 1;
        let mut choice_qfi: u8 = 0;
        let ghost mut witness: Seq<u8> = keys_below(self@.qosrulesie, 256);
        proof {
            lemma_keys_below(self@.qosrulesie, 256);
        }
        let header = ipv6_packet_new(pkt_buffer.as_slice());
        match header {
            Some(hdr_v6) => {
                if ipv6_packet_version(&hdr_v6) == 6 {
                    let dest_octets = ipv6_packet_destination(&hdr_v6);
                    let dest = dest_octets.as_slice();
                    let mut found = false;
                    let ghost m = self.qosrulesie@;
                    let ghost mut order: Seq<u8> = Seq::empty();
                    let ghost pairs = spec_hash_map_iter(&self.qosrulesie).remaining();
                    for entry in it: self.qosrulesie.iter()
                        invariant
                            m == self.qosrulesie@,
                            dest@ == pkt_buffer@.subrange(24, 40),
                            it.seq() == pairs,
                            pairs.len() == m.dom().len(),
                            pairs.no_duplicates(),
                            forall|i: int|
                                #![trigger pairs[i]]
                                0 <= i < pairs.len() ==> m.contains_key(*pairs[i].0) && m[*pairs[i].0]
                                    == *pairs[i].1,
                            forall|k: u8| #[trigger] m.contains_key(k) ==> pairs.contains((&k, &m[k])),
                            order.len() == it.index(),
                            forall|i: int| 0 <= i < it.index() ==> order[i] == *pairs[i].0,
                            (default_qfi, choice_qfi, found) == qfi_walk(
                                rules_in_order(self@.qosrulesie, order),
                                dest@,
                            ),
                    {
                        let ghost prev = order;
                        proof {
                            order = order.push(*entry.0);
                            assert(rules_in_order(self@.qosrulesie, order).drop_last() =~= rules_in_order(
                                self@.qosrulesie,
                                prev,
                            ));
                            assert(rules_in_order(self@.qosrulesie, order).last() == (*entry.1)@);
                        }
                        if !found {
                            let rule = entry.1;
                            if rule.dqrbit == 1 {
                                default_qfi = rule.qosflowidentifer;
                            }
                            if rule_matches(rule, dest) {
                                choice_qfi = rule.qosflowidentifer;
                                found = true;
                            }
                        }
                    }
                    proof {
                        assert(order.len() == pairs.len());
                        assert(is_enumeration(order, self@.qosrulesie)) by {
                            assert forall|i: int, j: int|
                                0 <= i < order.len() && 0 <= j < order.len() && i != j implies order[i]
                                != order[j] by {
                                assert(pairs[i] != pairs[j]);
                            }
                            assert forall|k: u8| #[trigger] self@.qosrulesie.contains_key(k) implies order.contains(
                                k,
                            ) by {
                                let i = choose|i: int| 0 <= i < pairs.len() && pairs[i] == (&k, &m[k]);
                                assert(order[i] == k);
                            }
                        }
                        witness = order;
                    }
                }
            },
            None => {},
        }
        let r = if choice_qfi > 0 {
            choice_qfi
        } else {
            default_qfi
        };
        assert(is_enumeration(witness, self@.qosrulesie) && r == spec_reflect_qfi(
            pkt_buffer@,
            self@.qosrulesie,
            witness,
        ));
        r
    }
}

} // verus!

use crate::pdu_helper::qos_rules::{
    be16, be16_exec, lemma_be16_value, spec_decode_qos_rules, QOSRules, QOSRulesIE, QOSRulesIEView, QOSRulesView,
};
use crate::pdu_helper::session_header::{
    ExtendedProtocolDiscriminator, PDUSessionIdentity, ProcedureTransactionIdentity, SessionMessageType,
};
use std::collections::HashMap;
use vstd::prelude::*;
use vstd::string::StringExecFns;
use vstd::utf8::{decode_utf8, valid_utf8};
use vstd::slice::slice_subrange;
use vstd::slice::slice_to_vec;

verus! {

// ---------------------------------------------------------------------------
// Extended protocol configuration options (3GPP TS 24.501, 9.11.4.6)
// ---------------------------------------------------------------------------

/// One parameter container: a 16-bit container identifier, a one-octet length
/// and that many octets of content.
#[derive(Debug)]
struct ParamContainer {
    _container_id: u16,
    _container_len: u8,
    _container_content: Vec<u8>,
}

/// The extended protocol configuration options of a session: the announced
/// length and the parameter containers in the order they were received.
#[derive(Debug, Clone)]
pub struct ExtProtoCfgOpts {
    _length: u16,
    _pco_units: Vec<ParamContainer>,
}

/// Model of a parameter container: identifier, announced length, content.
pub struct ParamContainerView {
    pub id: u16,
    pub len: u8,
    pub content: Seq<u8>,
}

/// Model of the extended protocol configuration options.
pub struct ExtProtoCfgOptsView {
    pub length: u16,
    pub units: Seq<ParamContainerView>,
}

impl View for ParamContainer {
    type V = ParamContainerView;

    closed spec fn view(&self) -> ParamContainerView {
        ParamContainerView {
            id: self._container_id,
            len: self._container_len,
            content: self._container_content@,
        }
    }
}

/// Model of a sequence of parameter containers.
pub open spec fn units_view(s: Seq<ParamContainer>) -> Seq<ParamContainerView> {
    s.map_values(|c: ParamContainer| c@)
}

impl View for ExtProtoCfgOpts {
    type V = ExtProtoCfgOptsView;

    closed spec fn view(&self) -> ExtProtoCfgOptsView {
        ExtProtoCfgOptsView { length: self._length, units: units_view(self._pco_units@) }
    }
}

impl ParamContainer {
    /// The content holds exactly the announced number of octets.
    #[verifier::type_invariant]
    spec fn content_matches_len(self) -> bool {
        self._container_content@.len() == self._container_len
    }
}

impl Clone for ParamContainer {
    fn clone(&self) -> (r: Self)
        ensures
            r@ == self@,
    {
        proof {
            use_type_invariant(self);
        }
        ParamContainer {
            _container_id: self._container_id,
            _container_len: self._container_len,
            _container_content: self._container_content.clone(),
        }
    }
}

impl Default for ParamContainer {
    fn default() -> (r: Self)
        ensures
            r@ == (ParamContainerView { id: 0, len: 0, content: Seq::empty() }),
    {
        ParamContainer { _container_id: 0, _container_len: 0, _container_content: Vec::new() }
    }
}

impl Default for ExtProtoCfgOpts {
    fn default() -> (r: Self)
        ensures
            r@ == (ExtProtoCfgOptsView { length: 0, units: Seq::empty() }),
    {
        let r = ExtProtoCfgOpts { _length: 0, _pco_units: Vec::new() };
        assert(units_view(r._pco_units@) =~= Seq::empty());
        r
    }
}

impl ParamContainer {
    /// Reads the container as an IPv6 address: its sixteen content octets when its length
    /// is 16, and `None` for any other length.
    pub fn to_ipv6_addr(&mut self) -> (r: Option<[u8; 16]>)
        ensures
            old(self)@.len == 16 ==> (r matches Some(a) && a@ == old(self)@.content),
            old(self)@.len != 16 ==> r is None,
            *final(self) == *old(self),
    {
        proof {
            use_type_invariant(&*self);
        }
        if self._container_len == 16 {
            return Some(octets16(self._container_content.as_slice()));
        }
        None
    }
}

/// The sixteen octets of a 16-octet slice, as an array.
fn octets16(c: &[u8]) -> (r: [u8; 16])
    requires
        c@.len() == 16,
    ensures
        r@ == c@,
{
    let r = [
        c[0],
        c[1],
        c[2],
        c[3],
        c[4],
        c[5],
        c[6],
        c[7],
        c[8],
        c[9],
        c[10],
        c[11],
        c[12],
        c[13],
        c[14],
        c[15],
    ];
    assert(r@ =~= c@);
    r
}

/// The position of the first container with identifier `id`, if any.
pub open spec fn first_unit_with_id(units: Seq<ParamContainerView>, id: u16) -> Option<int>
    decreases units.len(),
{
    if units.len() == 0 {
        None
    } else {
        match first_unit_with_id(units.drop_last(), id) {
            Some(i) => Some(i),
            None => if units.last().id == id {
                Some(units.len() - 1)
            } else {
                None
            },
        }
    }
}

proof fn lemma_first_unit_with_id(units: Seq<ParamContainerView>, id: u16)
    ensures
        match first_unit_with_id(units, id) {
            Some(i) => 0 <= i < units.len() && units[i].id == id && forall|j: int|
                0 <= j < i ==> #[trigger] units[j].id != id,
            None => forall|j: int| 0 <= j < units.len() ==> #[trigger] units[j].id != id,
        },
    decreases units.len(),
{
    if units.len() > 0 {
        lemma_first_unit_with_id(units.drop_last(), id);
        assert forall|j: int| 0 <= j < units.len() - 1 implies #[trigger] units[j] == units.drop_last()[j] by {}
    }
}

/// The P-CSCF IPv6 address container (identifier 0x0001) of `opts`, when its
/// first such container holds exactly 16 octets.
pub open spec fn pcscf_readable(opts: ExtProtoCfgOptsView) -> bool {
    match first_unit_with_id(opts.units, 0x0001) {
        Some(i) => opts.units[i].content.len() == 16,
        None => true,
    }
}

/// The content of the first P-CSCF IPv6 address container (identifier 0x0001).
pub open spec fn spec_pcscf_v6(opts: ExtProtoCfgOptsView) -> Option<Seq<u8>> {
    match first_unit_with_id(opts.units, 0x0001) {
        Some(i) => Some(opts.units[i].content),
        None => None,
    }
}

/// The DNS server IPv6 address of `opts`: the content of its first container with identifier
/// 0x0003 when that container holds 16 octets.
pub open spec fn spec_dns_v6(opts: ExtProtoCfgOptsView) -> Option<Seq<u8>> {
    match first_unit_with_id(opts.units, 0x0003) {
        Some(i) => if opts.units[i].len == 16 {
            Some(opts.units[i].content)
        } else {
            None
        },
        None => None,
    }
}

/// The P-CSCF address is the content of the first container with identifier 0x0001, whatever
/// containers precede it, and there is none when no container has that identifier. The DNS
/// server address is likewise the content of the first container with identifier 0x0003 when
/// that container holds 16 octets.
pub proof fn lemma_addresses_from_first_containers(opts: ExtProtoCfgOptsView)
    ensures
        forall|i: int|
            0 <= i < opts.units.len() && (#[trigger] opts.units[i]).id == 0x0001 && (forall|j: int|
                0 <= j < i ==> opts.units[j].id != 0x0001) ==> spec_pcscf_v6(opts) == Some(opts.units[i].content),
        (forall|j: int| 0 <= j < opts.units.len() ==> opts.units[j].id != 0x0001) ==> spec_pcscf_v6(opts) is None,
        forall|i: int|
            0 <= i < opts.units.len() && (#[trigger] opts.units[i]).id == 0x0003 && (forall|j: int|
                0 <= j < i ==> opts.units[j].id != 0x0003) ==> spec_dns_v6(opts) == if opts.units[i].len == 16 {
                Some(opts.units[i].content)
            } else {
                None
            },
        (forall|j: int| 0 <= j < opts.units.len() ==> opts.units[j].id != 0x0003) ==> spec_dns_v6(opts) is None,
{
    lemma_first_unit_with_id(opts.units, 0x0001);
    lemma_first_unit_with_id(opts.units, 0x0003);
    assert forall|i: int|
        0 <= i < opts.units.len() && (#[trigger] opts.units[i]).id == 0x0001 && (forall|j: int|
            0 <= j < i ==> opts.units[j].id != 0x0001) implies spec_pcscf_v6(opts) == Some(opts.units[i].content) by {
        let k = first_unit_with_id(opts.units, 0x0001)->0;
        if k < i {
            assert(opts.units[k].id != 0x0001);
        }
        if i < k {
            assert(opts.units[i].id != 0x0001);
        }
    }
    assert forall|i: int|
        0 <= i < opts.units.len() && (#[trigger] opts.units[i]).id == 0x0003 && (forall|j: int|
            0 <= j < i ==> opts.units[j].id != 0x0003) implies spec_dns_v6(opts) == if opts.units[i].len == 16 {
            Some(opts.units[i].content)
        } else {
            None
        } by {
        let k = first_unit_with_id(opts.units, 0x0003)->0;
        if k < i {
            assert(opts.units[k].id != 0x0003);
        }
        if i < k {
            assert(opts.units[i].id != 0x0003);
        }
    }
}

impl ExtProtoCfgOpts {
    /// The first P-CSCF IPv6 address container (identifier 0x0001), as an address.
    pub fn get_pcscf_v6_addr(&mut self) -> (r: Option<[u8; 16]>)
        requires
            pcscf_readable(old(self)@),
        ensures
            *final(self) == *old(self),
            match r {
                Some(a) => spec_pcscf_v6(old(self)@) == Some(a@),
                None => spec_pcscf_v6(old(self)@) is None,
            },
    {
        proof {
            lemma_first_unit_with_id(self@.units, 0x0001);
        }
        let ghost units = self@.units;
        let mut i: usize = 0;
        while i < self._pco_units.len()
            invariant
                i <= self._pco_units.len(),
                units == units_view(self._pco_units@),
                pcscf_readable(self@),
                self@.units == units,
                forall|j: int| 0 <= j < i ==> #[trigger] units[j].id != 0x0001,
                match first_unit_with_id(units, 0x0001) {
                    Some(k) => 0 <= k < units.len() && units[k].id == 0x0001 && forall|j: int|
                        0 <= j < k ==> #[trigger] units[j].id != 0x0001,
                    None => forall|j: int| 0 <= j < units.len() ==> #[trigger] units[j].id != 0x0001,
                },
            decreases self._pco_units.len() - i,
        {
            let param_container = &self._pco_units[i];
            assert(units[i as int] == param_container@);
            if param_container._container_id == 0x0001 {
                proof {
                    use_type_invariant(param_container);
                    assert(units[i as int].id == 0x0001);
                    assert(first_unit_with_id(units, 0x0001) is Some);
                    let k = first_unit_with_id(units, 0x0001)->0;
                    if k < i {
                        assert(units[k].id != 0x0001);
                    }
                    if (i as int) < k {
                        assert(units[i as int].id != 0x0001);
                    }
                    assert(k == i);
                }
                return Some(octets16(param_container._container_content.as_slice()));
            }
            i = i + 1;
        }
        None
    }

    /// The DNS server IPv6 address: the first container with identifier 0x0003, read with
    /// `ParamContainer::to_ipv6_addr` (its content when it holds 16 octets, else `None`);
    /// `None` when there is no such container.
    pub fn get_dns_v6_addr(&mut self) -> (r: Option<[u8; 16]>)
        ensures
            *final(self) == *old(self),
            match r {
                Some(a) => spec_dns_v6(old(self)@) == Some(a@),
                None => spec_dns_v6(old(self)@) is None,
            },
    {
        proof {
            lemma_first_unit_with_id(self@.units, 0x0003);
        }
        let ghost units = self@.units;
        let mut i: usize = 0;
        while i < self._pco_units.len()
            invariant
                i <= self._pco_units.len(),
                units == units_view(self._pco_units@),
                self@.units == units,
                forall|j: int| 0 <= j < i ==> #[trigger] units[j].id != 0x0003,
                match first_unit_with_id(units, 0x0003) {
                    Some(k) => 0 <= k < units.len() && units[k].id == 0x0003 && forall|j: int|
                        0 <= j < k ==> #[trigger] units[j].id != 0x0003,
                    None => forall|j: int| 0 <= j < units.len() ==> #[trigger] units[j].id != 0x0003,
                },
            decreases self._pco_units.len() - i,
        {
            assert(units[i as int] == self._pco_units@[i as int]@);
            if self._pco_units[i]._container_id == 0x0003 {
                proof {
                    assert(units[i as int].id == 0x0003);
                    assert(first_unit_with_id(units, 0x0003) is Some);
                    let k = first_unit_with_id(units, 0x0003)->0;
                    if k < i {
                        assert(units[k].id != 0x0003);
                    }
                    if (i as int) < k {
                        assert(units[i as int].id != 0x0003);
                    }
                    assert(k == i);
                }
                let mut param_container = self._pco_units[i].clone();
                return param_container.to_ipv6_addr();
            }
            i = i + 1;
        }
        None
    }
}

/// Whether the parameter containers from octet `i` on can all be read: each needs its
/// identifier and length octets, then as many content octets as its length says.
pub open spec fn pco_units_readable(d: Seq<u8>, i: int) -> bool
    decreases d.len() - i,
{
    if i >= d.len() {
        true
    } else if i + 3 > d.len() {
        false
    } else {
        let next = i + 3 + d[i + 2];
        next <= d.len() && pco_units_readable(d, next)
    }
}

/// The parameter containers read from octet `i` on.
pub open spec fn pco_units(d: Seq<u8>, i: int) -> Seq<ParamContainerView>
    decreases d.len() - i,
{
    if i >= d.len() || i + 3 > d.len() {
        Seq::empty()
    } else {
        let next = i + 3 + d[i + 2];
        if next > d.len() {
            Seq::empty()
        } else {
            seq![
                ParamContainerView {
                    id: be16(d[i], d[i + 1]),
                    len: d[i + 2],
                    content: d.subrange(i + 3, next),
                },
            ] + pco_units(d, next)
        }
    }
}

/// Whether `parse_extended_pco` reads only octets that `d` has: the three header
/// octets, then every container from octet 4 on (octet 3 is skipped).
pub open spec fn pco_readable(d: Seq<u8>) -> bool {
    d.len() >= 3 && pco_units_readable(d, 4)
}

/// The extended protocol configuration options that `d` encodes: the big-endian
/// length in octets 1 and 2, and the containers from octet 4 on.
pub open spec fn spec_parse_pco(d: Seq<u8>) -> ExtProtoCfgOptsView {
    ExtProtoCfgOptsView { length: be16(d[1], d[2]), units: pco_units(d, 4) }
}

/// Every parameter container read from an element holds exactly as many content octets as
/// its length octet announces.
pub proof fn lemma_pco_units_hold_announced_length(d: Seq<u8>, i: int)
    requires
        0 <= i,
        pco_units_readable(d, i),
    ensures
        forall|k: int|
            0 <= k < pco_units(d, i).len() ==> (#[trigger] pco_units(d, i)[k]).content.len()
                == pco_units(d, i)[k].len,
    decreases d.len() - i,
{
    if i < d.len() {
        let next = i + 3 + d[i + 2];
        lemma_pco_units_hold_announced_length(d, next);
        let u = pco_units(d, i);
        assert forall|k: int| 0 <= k < u.len() implies (#[trigger] u[k]).content.len() == u[k].len by {
            if k > 0 {
                assert(u[k] == pco_units(d, next)[k - 1]);
            }
        }
    }
}

/// How a parameter container is read from the octets at `i`: a big-endian 16-bit identifier,
/// a length octet and that many content octets, after which the next container starts; and the
/// element's length is the big-endian value of octets 1 and 2.
pub proof fn lemma_pco_container_octets(d: Seq<u8>, i: int)
    requires
        0 <= i < d.len(),
        pco_units_readable(d, i),
        d.len() >= 3,
    ensures
        ({
            let l = d[i + 2] as int;
            &&& pco_units(d, i) == seq![
                ParamContainerView {
                    id: (d[i] as int * 256 + d[i + 1] as int) as u16,
                    len: d[i + 2],
                    content: d.subrange(i + 3, i + 3 + l),
                },
            ] + pco_units(d, i + 3 + l)
            &&& spec_parse_pco(d).length as int == d[1] as int * 256 + d[2] as int
        }),
{
    lemma_be16_value(d[i], d[i + 1]);
    lemma_be16_value(d[1], d[2]);
}

/// Parses an extended protocol configuration options element: octets 1 and 2 hold the
/// big-endian length, and parameter containers (two identifier octets, one length octet,
/// content) follow from octet 4 to the end of `data`.
pub fn parse_extended_pco(data: &[u8]) -> (r: Option<ExtProtoCfgOpts>)
    requires
        pco_readable(data@),
    ensures
        r matches Some(opts) && opts@ == spec_parse_pco(data@),
{
    let mut params: Vec<ParamContainer> = Vec::new();
    let length = be16_exec(data[1], data[2]);
    let mut i: usize = 4;
    assert(units_view(params@) + pco_units(data@, 4) =~= pco_units(data@, 4));
    while i < data.len()
        invariant
            4 <= i,
            pco_units_readable(data@, i as int),
            units_view(params@) + pco_units(data@, i as int) == pco_units(data@, 4),
        decreases data.len() - i,
    {
        let container_id = be16_exec(data[i], data[i + 1]);
        let container_len = data[i + 2];
        let next = i + 3 + container_len as usize;
        let container_content = slice_to_vec(slice_subrange(data, i + 3, next));
        let container = ParamContainer {
            _container_id: container_id,
            _container_len: container_len,
            _container_content: container_content,
        };
        proof {
            let u = container@;
            assert(pco_units(data@, i as int) == seq![u] + pco_units(data@, next as int));
            assert(units_view(params@.push(container)) =~= units_view(params@).push(u));
            assert(units_view(params@).push(u) + pco_units(data@, next as int) =~= units_view(params@)
                + pco_units(data@, i as int));
        }
        params.push(container);
        i = next;
    }
    proof {
        assert(pco_units(data@, i as int) =~= Seq::empty());
        assert(units_view(params@) =~= pco_units(data@, 4));
    }
    let ext = ExtProtoCfgOpts { _length: length, _pco_units: params };
    Some(ext)
}

// ---------------------------------------------------------------------------
// PDU address, session type and octet strings
// ---------------------------------------------------------------------------

/// The PDU session type / PDU address type (bits 3 to 1: 001 IPv4, 010 IPv6, 011 IPv4v6).
#[derive(Debug, Clone, Copy, PartialEq, Eq, Structural)]
pub enum PduAddressType {
    IPV4,
    IPV6,
    IPV4V6,
    Unknown,
}

/// The address type that a type value denotes.
pub open spec fn pdu_address_type_of(val: u8) -> PduAddressType {
    if val == 1 {
        PduAddressType::IPV4
    } else if val == 2 {
        PduAddressType::IPV6
    } else if val == 3 {
        PduAddressType::IPV4V6
    } else {
        PduAddressType::Unknown
    }
}

/// The PDU session type values: 1 IPv4, 2 IPv6, 3 IPv4v6; every other value is unknown.
pub proof fn lemma_pdu_address_type_values(val: u8)
    ensures
        pdu_address_type_of(val) == PduAddressType::IPV4 <==> val == 1,
        pdu_address_type_of(val) == PduAddressType::IPV6 <==> val == 2,
        pdu_address_type_of(val) == PduAddressType::IPV4V6 <==> val == 3,
{
}

impl PduAddressType {
    /// Classifies a PDU session type value; every value other than 1, 2 and 3 is unknown.
    pub fn from_u8(val: u8) -> (r: PduAddressType)
        ensures
            r == pdu_address_type_of(val),
    {
        match val {
            0b00000001 => PduAddressType::IPV4,
            0b00000010 => PduAddressType::IPV6,
            0b00000011 => PduAddressType::IPV4V6,
            _ => PduAddressType::Unknown,
        }
    }
}

/// The PDU session type information element.
#[derive(Debug, Clone, Copy, PartialEq, Eq, Structural)]
pub struct PDUSessionType {
    pub pdu_session_type_value: PduAddressType,
    pub spare: u8,
}

impl PDUSessionType {
    /// An IPv4 session type with a zero spare field.
    fn default() -> (r: Self)
        ensures
            r == (PDUSessionType { pdu_session_type_value: PduAddressType::IPV4, spare: 0 }),
    {
        PDUSessionType { pdu_session_type_value: PduAddressType::IPV4, spare: 0 }
    }
}

/// The SSC mode information element.
#[allow(non_snake_case)]
#[derive(Debug, Clone, Copy, PartialEq, Eq, Structural)]
pub struct SSCMode {
    pub sscModeValue: u8,
    pub spare: u8,
}

/// A length and a string of octets.
#[derive(Debug, Clone)]
pub struct OctetString {
    pub length: u32,
    pub value: Vec<u8>,
}

/// The data network name of a session, as an octet string of length-prefixed labels.
pub type DNN = OctetString;

/// The PDU address information element: the address type and the address octets.
#[derive(Debug, Clone)]
pub struct PDUAddress {
    pub pdu_session_type_value: PduAddressType,
    pub pdu_address_information: OctetString,
}

impl PDUAddress {
    /// An IPv4 address type with no address octets.
    pub fn default() -> (r: Self)
        ensures
            r.pdu_session_type_value == PduAddressType::IPV4,
            r.pdu_address_information.length == 0,
            r.pdu_address_information.value@ == Seq::<u8>::empty(),
    {
        PDUAddress { pdu_session_type_value: PduAddressType::IPV4, pdu_address_information: OctetString::default() }
    }
}

/// `String::from_utf8` of std: the string that the octets encode, when they are valid
/// UTF-8; `None` exactly when they are not.
#[verifier::external_body]
fn string_from_utf8(bytes: Vec<u8>) -> (r: Option<String>)
    ensures
        r is Some <==> valid_utf8(bytes@),
        r matches Some(s) ==> s@ == decode_utf8(bytes@),
{
    match String::from_utf8(bytes) {
        Ok(s) => Some(s),
        Err(_) => None,
    }
}

/// The text that a string with no readable value is shown as.
pub open spec fn none_text() -> Seq<char> {
    seq!['N', 'o', 'n', 'e']
}

fn none_string() -> (r: String)
    ensures
        r@ == none_text(),
{
    let r = String::from_str("None");
    proof {
        reveal_strlit("None");
    }
    assert(r@ =~= none_text());
    r
}

/// Whether the length-prefixed labels from octet `i` on can all be read: each label's
/// length octet is followed by at least that many octets.
pub open spec fn dnn_labels_readable(d: Seq<u8>, i: int) -> bool
    decreases d.len() - i,
{
    if i >= d.len() {
        true
    } else {
        let next = i + 1 + d[i];
        next <= d.len() && dnn_labels_readable(d, next)
    }
}

/// The first label from octet `i` on whose octets are valid UTF-8.
pub open spec fn first_utf8_label(d: Seq<u8>, i: int) -> Option<Seq<u8>>
    decreases d.len() - i,
{
    if i >= d.len() {
        None
    } else {
        let next = i + 1 + d[i];
        if next > d.len() {
            None
        } else if valid_utf8(d.subrange(i + 1, next)) {
            Some(d.subrange(i + 1, next))
        } else {
            first_utf8_label(d, next)
        }
    }
}

/// The name a DNN shows: its first label that is valid UTF-8, or "None" if none is.
pub open spec fn spec_dnn_name(d: Seq<u8>) -> Seq<char> {
    match first_utf8_label(d, 0) {
        Some(l) => decode_utf8(l),
        None => none_text(),
    }
}

fn decode_dnn(input: &Vec<u8>) -> (r: String)
    requires
        dnn_labels_readable(input@, 0),
    ensures
        r@ == spec_dnn_name(input@),
{
    let mut index: usize = 0;
    let len = input.len();
    let mut first: Option<String> = None;
    while index < len
        invariant
            len == input@.len(),
            dnn_labels_readable(input@, index as int),
            match first {
                Some(s) => first_utf8_label(input@, 0) matches Some(l) && s@ == decode_utf8(l),
                None => first_utf8_label(input@, 0) == first_utf8_label(input@, index as int),
            },
        decreases len - index,
    {
        let length = input[index] as usize;
        index = index + 1;
        let label = slice_to_vec(slice_subrange(input.as_slice(), index, index + length));
        let dnn = string_from_utf8(label);
        match dnn {
            Some(dnn) => {
                if first.is_none() {
                    first = Some(dnn);
                }
            },
            None => {},
        }
        index = index + length;
    }
    match first {
        Some(dnn) => dnn,
        None => none_string(),
    }
}

impl OctetString {
    /// An empty octet string.
    fn default() -> (r: Self)
        ensures
            r.length == 0,
            r.value@ == Seq::<u8>::empty(),
    {
        OctetString { length: 0, value: Vec::new() }
    }

    /// Sets the length to `length` (taken modulo 2^32) and replaces the value with octets
    /// `start_index .. start_index + length` of `data` (no octets when `length` is 0).
    pub fn set_value(&mut self, data: &[u8], start_index: usize, length: usize)
        requires
            length > 0 ==> start_index + length <= data.len(),
        ensures
            final(self).length == #[verifier::truncate] (length as u32),
            final(self).value@ == if length > 0 {
                data@.subrange(start_index as int, start_index + length)
            } else {
                Seq::<u8>::empty()
            },
    {
        self.length = #[verifier::truncate] (length as u32);
        self.value = Vec::new();
        if length > 0 {
            let part = slice_subrange(data, start_index, start_index + length);
            self.value.extend_from_slice(part);
            assert(self.value@ =~= data@.subrange(start_index as int, start_index + length));
        }
    }

    /// The value read as UTF-8 text, or "None" when it is not valid UTF-8.
    pub fn to_string(&self) -> (r: String)
        ensures
            r@ == if valid_utf8(self.value@) {
                decode_utf8(self.value@)
            } else {
                none_text()
            },
    {
        let string = string_from_utf8(self.value.clone());
        match string {
            Some(s) => s,
            None => none_string(),
        }
    }

    /// The value read as a DNN: its first label that is valid UTF-8, or "None".
    pub fn dnn_to_string(&mut self) -> (r: String)
        requires
            dnn_labels_readable(old(self).value@, 0),
        ensures
            r@ == spec_dnn_name(old(self).value@),
            *final(self) == *old(self),
    {
        decode_dnn(&self.value)
    }

    /// The octets of the value.
    pub fn to_bytes_u8(&mut self) -> (r: &[u8])
        ensures
            r@ == old(self).value@,
            *final(self) == *old(self),
    {
        self.value.as_slice()
    }
}

// ---------------------------------------------------------------------------
// QoS flow descriptions
// ---------------------------------------------------------------------------

/// One QoS flow description.
#[derive(Debug, Clone)]
pub struct QOSFlowDescriptionsContents {
    pub qfi: u8,
    pub operationcode: u8,
    pub numberofparameters: u8,
    pub e: u8,
    pub parameterslist: Vec<Parameter>,
}

/// One parameter of a QoS flow description.
#[derive(Debug, Clone, Copy, PartialEq, Eq, Structural)]
pub struct Parameter {
    pub parameter_id: u8,
    pub length_param_content: u8,
}

/// The QoS flow descriptions information element.
#[derive(Debug, Clone)]
pub struct QOSFlowDescriptions {
    pub qosflowdescriptionsnumber: u16,
    pub qosflowdescriptionscontents: Vec<QOSFlowDescriptionsContents>,
}

impl QOSFlowDescriptions {
    /// No QoS flow descriptions.
    pub fn default() -> (r: QOSFlowDescriptions)
        ensures
            r.qosflowdescriptionsnumber == 0,
            r.qosflowdescriptionscontents@.len() == 0,
    {
        QOSFlowDescriptions { qosflowdescriptionsnumber: 0, qosflowdescriptionscontents: Vec::new() }
    }
}

// ---------------------------------------------------------------------------
// The PDU session modification command
// ---------------------------------------------------------------------------

/// An IP address: four octets for IPv4, sixteen for IPv6, in network order.
#[derive(Debug, Clone, Copy, PartialEq, Eq)]
pub enum IpAddress {
    V4([u8; 4]),
    V6([u8; 16]),
}

/// The IPv6 loopback address `::1`.
pub open spec fn ipv6_localhost() -> Seq<u8> {
    seq![0u8, 0, 0, 0, 0, 0, 0, 0, 0, 0, 0, 0, 0, 0, 0, 1]
}

/// An IPv6 address whose interface identifier is `iid` (8 octets) and whose prefix is zero.
pub open spec fn ipv6_from_iid(iid: Seq<u8>) -> Seq<u8> {
    seq![0u8, 0, 0, 0, 0, 0, 0, 0] + iid
}

/// A PDU session modification command (3GPP TS 24.501, 8.3.9).
#[derive(Debug, Clone)]
pub struct PduSessioModifyMsg {
    pub extendedprotocoldiscriminator: ExtendedProtocolDiscriminator,
    pub pdusessionidentity: PDUSessionIdentity,
    pub proceduretransactionidentity: ProcedureTransactionIdentity,
    pub messagetype: SessionMessageType,
    pub pdusessiontype: PDUSessionType,
    pub sscmode: SSCMode,
    pub qosrules: QOSRules,
    pub pduaddress: PDUAddress,
    pub qosflowdescriptions: QOSFlowDescriptions,
    pub extendedprotocolconfigurationoptions: ExtProtoCfgOpts,
    pub dnn: DNN,
}

/// The information elements of `m` that decoding never sets hold their initial values:
/// an IPv4 session type, SSC mode 0, an IPv4 PDU address with no octets, no QoS flow
/// descriptions, no protocol configuration options and an empty DNN.
pub open spec fn initial_elements(m: PduSessioModifyMsg) -> bool {
    &&& m.pdusessiontype == (PDUSessionType { pdu_session_type_value: PduAddressType::IPV4, spare: 0 })
    &&& m.sscmode == (SSCMode { sscModeValue: 0, spare: 0 })
    &&& m.pduaddress.pdu_session_type_value == PduAddressType::IPV4
    &&& m.pduaddress.pdu_address_information.length == 0
    &&& m.pduaddress.pdu_address_information.value@.len() == 0
    &&& m.qosflowdescriptions.qosflowdescriptionsnumber == 0
    &&& m.qosflowdescriptions.qosflowdescriptionscontents@.len() == 0
    &&& m.extendedprotocolconfigurationoptions@ == (ExtProtoCfgOptsView { length: 0, units: Seq::empty() })
    &&& m.dnn.length == 0
    &&& m.dnn.value@.len() == 0
}

/// The QoS rules of a message that carries none.
pub open spec fn no_qos_rules() -> QOSRulesView {
    QOSRulesView { lengthofqosrulesie: 0, qosrulesie: Map::empty() }
}

impl PduSessioModifyMsg {
    /// A message with every field at its initial value: zero header octets, an unknown
    /// message type, no QoS rules and the initial elements of `initial_elements`.
    pub fn new() -> (r: Self)
        ensures
            r.extendedprotocoldiscriminator == 0,
            r.pdusessionidentity == 0,
            r.proceduretransactionidentity == 0,
            r.messagetype == SessionMessageType::Unknown,
            r.qosrules@ == no_qos_rules(),
            initial_elements(r),
    {
        let qosrules = QOSRules { lengthofqosrulesie: 0, qosrulesie: HashMap::<u8, QOSRulesIE>::new() };
        assert(qosrules@.qosrulesie =~= Map::<u8, QOSRulesIEView>::empty());
        PduSessioModifyMsg {
            extendedprotocoldiscriminator: 0,
            pdusessionidentity: 0,
            proceduretransactionidentity: 0,
            messagetype: SessionMessageType::default(),
            pdusessiontype: PDUSessionType::default(),
            pduaddress: PDUAddress::default(),
            qosflowdescriptions: QOSFlowDescriptions::default(),
            extendedprotocolconfigurationoptions: ExtProtoCfgOpts::default(),
            dnn: DNN::default(),
            sscmode: SSCMode { sscModeValue: 0u8, spare: 0u8 },
            qosrules,
        }
    }

    /// The DNN's name (see `OctetString::dnn_to_string`) when its length is not 0, else "".
    pub fn get_dnn_name(&mut self) -> (r: String)
        requires
            old(self).dnn.length > 0 ==> dnn_labels_readable(old(self).dnn.value@, 0),
        ensures
            r@ == if old(self).dnn.length > 0 {
                spec_dnn_name(old(self).dnn.value@)
            } else {
                Seq::<char>::empty()
            },
            *final(self) == *old(self),
    {
        if self.dnn.length > 0 {
            return self.dnn.dnn_to_string();
        } else {
            return String::new();
        }
    }

    /// The IPv4 address of the PDU address: its 4 octets, or the last 4 of 12 (an IPv4v6
    /// address); other lengths have none.
    pub fn get_ipv4(&mut self) -> (r: Result<IpAddress, &'static str>)
        ensures
            ({
                let a = old(self).pduaddress.pdu_address_information.value@;
                if a.len() == 4 {
                    r matches Ok(IpAddress::V4(v)) && v@ == a
                } else if a.len() == 12 {
                    r matches Ok(IpAddress::V4(v)) && v@ == a.subrange(8, 12)
                } else {
                    r is Err
                }
            }),
            *final(self) == *old(self),
    {
        let arr = self.pduaddress.pdu_address_information.to_bytes_u8();
        if arr.len() == 4 {
            let ipv4_bytes: [u8; 4] = [arr[0], arr[1], arr[2], arr[3]];
            assert(ipv4_bytes@ =~= arr@);
            Ok(IpAddress::V4(ipv4_bytes))
        } else if arr.len() == 8 {
            Err("")
        } else if arr.len() == 12 {
            let ipv4_bytes: [u8; 4] = [arr[8], arr[9], arr[10], arr[11]];
            assert(ipv4_bytes@ =~= arr@.subrange(8, 12));
            Ok(IpAddress::V4(ipv4_bytes))
        } else {
            Err("")
        }
    }

    /// The IPv6 address of the PDU address: the interface identifier in its first 8 octets
    /// (of 8, or of 12 for an IPv4v6 address) under a zero prefix; other lengths have none.
    pub fn _get_ipv6(&mut self) -> (r: Result<IpAddress, &'static str>)
        ensures
            ({
                let a = old(self).pduaddress.pdu_address_information.value@;
                if a.len() == 8 || a.len() == 12 {
                    r matches Ok(IpAddress::V6(v)) && v@ == ipv6_from_iid(a.subrange(0, 8))
                } else {
                    r is Err
                }
            }),
            *final(self) == *old(self),
    {
        let arr = self.pduaddress.pdu_address_information.to_bytes_u8();
        if arr.len() == 4 {
            Err("")
        } else if arr.len() == 8 || arr.len() == 12 {
            let ipv6_bytes: [u8; 16] = [
                0,
                0,
                0,
                0,
                0,
                0,
                0,
                0,
                arr[0],
                arr[1],
                arr[2],
                arr[3],
                arr[4],
                arr[5],
                arr[6],
                arr[7],
            ];
            assert(ipv6_bytes@ =~= ipv6_from_iid(arr@.subrange(0, 8)));
            Ok(IpAddress::V6(ipv6_bytes))
        } else {
            Err("")
        }
    }

    /// The P-CSCF IPv6 address of the protocol configuration options, or `::1` when
    /// they carry none.
    pub fn get_pcscf_v6_address(&mut self) -> (r: [u8; 16])
        requires
            pcscf_readable(old(self).extendedprotocolconfigurationoptions@),
        ensures
            r@ == match spec_pcscf_v6(old(self).extendedprotocolconfigurationoptions@) {
                Some(a) => a,
                None => ipv6_localhost(),
            },
            *final(self) == *old(self),
    {
        match self.extendedprotocolconfigurationoptions.get_pcscf_v6_addr() {
            Some(a) => a,
            None => {
                let localhost: [u8; 16] = [0, 0, 0, 0, 0, 0, 0, 0, 0, 0, 0, 0, 0, 0, 0, 1];
                assert(localhost@ =~= ipv6_localhost());
                localhost
            },
        }
    }

    /// The DNS server IPv6 address of the protocol configuration options, as
    /// `ExtProtoCfgOpts::get_dns_v6_addr` gives it.
    pub fn get_dns_v6_address(&mut self) -> (r: Option<[u8; 16]>)
        ensures
            match r {
                Some(a) => spec_dns_v6(old(self).extendedprotocolconfigurationoptions@) == Some(a@),
                None => spec_dns_v6(old(self).extendedprotocolconfigurationoptions@) is None,
            },
            *final(self) == *old(self),
    {
        return self.extendedprotocolconfigurationoptions.get_dns_v6_addr();
    }
}

// ---------------------------------------------------------------------------
// Information element identifiers of the modification command
// ---------------------------------------------------------------------------

/// Identifiers of the TLV-E elements (16-bit length): authorized QoS rules (0x7A), mapped
/// EPS bearer contexts (0x75), QoS flow descriptions (0x79), extended protocol configuration
/// options (0x7B), ATSSS container (0x77), port management information (0x74).
#[allow(non_camel_case_types)]
#[derive(Debug, Clone, Copy, PartialEq, Eq, Structural)]
pub enum TLV_E {
    PDU_SESSION_MODIFY_AUTH_QOS,
    PDU_SESSION_MODIFY_MAPPED_EPS_BEARER_CONTEXTS_IEI,
    PDU_SESSION_MODIFY_QOS_FLOW_DESCRIPTIONS_IEI,
    PDU_SESSION_MODIFY_EPCO_IEI,
    PDU_SESSION_MODIFY_ATSSS_IEI,
    PDU_SESSION_MODIFY_PORT_MGMT_IEI,
}

/// The TLV-E element an identifier names.
pub open spec fn tlv_e_of(iei: u8) -> Option<TLV_E> {
    if iei == 0x7a {
        Some(TLV_E::PDU_SESSION_MODIFY_AUTH_QOS)
    } else if iei == 0x75 {
        Some(TLV_E::PDU_SESSION_MODIFY_MAPPED_EPS_BEARER_CONTEXTS_IEI)
    } else if iei == 0x79 {
        Some(TLV_E::PDU_SESSION_MODIFY_QOS_FLOW_DESCRIPTIONS_IEI)
    } else if iei == 0x7b {
        Some(TLV_E::PDU_SESSION_MODIFY_EPCO_IEI)
    } else if iei == 0x77 {
        Some(TLV_E::PDU_SESSION_MODIFY_ATSSS_IEI)
    } else if iei == 0x74 {
        Some(TLV_E::PDU_SESSION_MODIFY_PORT_MGMT_IEI)
    } else {
        None
    }
}

impl TLV_E {
    /// The TLV-E element an identifier names, if any.
    pub fn from_u8(iei: u8) -> (r: Option<TLV_E>)
        ensures
            r == tlv_e_of(iei),
    {
        match iei {
            0x7a => Some(TLV_E::PDU_SESSION_MODIFY_AUTH_QOS),
            0x75 => Some(TLV_E::PDU_SESSION_MODIFY_MAPPED_EPS_BEARER_CONTEXTS_IEI),
            0x79 => Some(TLV_E::PDU_SESSION_MODIFY_QOS_FLOW_DESCRIPTIONS_IEI),
            0x7B => Some(TLV_E::PDU_SESSION_MODIFY_EPCO_IEI),
            0x77 => Some(TLV_E::PDU_SESSION_MODIFY_ATSSS_IEI),
            0x74 => Some(TLV_E::PDU_SESSION_MODIFY_PORT_MGMT_IEI),
            _ => None,
        }
    }
}

/// Identifiers of the TLV elements (8-bit length): IP header compression configuration
/// (0x66), serving PLMN rate control (0x1E), Ethernet header compression configuration
/// (0x1F), session AMBR (0x2A); `ANY` stands for an identifier this decoder does not know.
#[allow(non_camel_case_types)]
#[derive(Debug, Clone, Copy, PartialEq, Eq, Structural)]
pub enum TLV {
    PDU_SESSION_MODIFY_IP_HDR_CMP,
    PDU_SESSION_MODIFY_SER_PLMN,
    PDU_SESSION_MODIFY_ETH_HDR,
    PDU_SESSION_MODIFY_SESS_AMBR,
    ANY,
}

/// The TLV element an identifier names.
pub open spec fn tlv_of(iei: u8) -> Option<TLV> {
    if iei == 0x66 {
        Some(TLV::PDU_SESSION_MODIFY_IP_HDR_CMP)
    } else if iei == 0x1e {
        Some(TLV::PDU_SESSION_MODIFY_SER_PLMN)
    } else if iei == 0x1f {
        Some(TLV::PDU_SESSION_MODIFY_ETH_HDR)
    } else if iei == 0x2a {
        Some(TLV::PDU_SESSION_MODIFY_SESS_AMBR)
    } else {
        None
    }
}

impl TLV {
    /// The TLV element an identifier names, if any.
    pub fn from_u8(iei: u8) -> (r: Option<TLV>)
        ensures
            r == tlv_of(iei),
    {
        match iei {
            0x66 => Some(TLV::PDU_SESSION_MODIFY_IP_HDR_CMP),
            0x1e => Some(TLV::PDU_SESSION_MODIFY_SER_PLMN),
            0x1f => Some(TLV::PDU_SESSION_MODIFY_ETH_HDR),
            0x2a => Some(TLV::PDU_SESSION_MODIFY_SESS_AMBR),
            _ => None,
        }
    }
}

/// Identifiers of the two-octet TV elements: RQ timer value (0x56), 5GSM cause (0x59).
#[allow(non_camel_case_types)]
#[derive(Debug, Clone, Copy, PartialEq, Eq, Structural)]
pub enum TV_2 {
    PDU_SESSION_MODIFY_RQ_TIMER_IEI,
    PDU_SESSION_MODIFY_5_GSM_CAUSE_IEI,
}

/// The two-octet TV element an identifier names.
pub open spec fn tv_2_of(iei: u8) -> Option<TV_2> {
    if iei == 0x56 {
        Some(TV_2::PDU_SESSION_MODIFY_RQ_TIMER_IEI)
    } else if iei == 0x59 {
        Some(TV_2::PDU_SESSION_MODIFY_5_GSM_CAUSE_IEI)
    } else {
        None
    }
}

impl TV_2 {
    /// The two-octet TV element an identifier names, if any.
    pub fn from_u8(iei: u8) -> (r: Option<TV_2>)
        ensures
            r == tv_2_of(iei),
    {
        match iei {
            0x56 => Some(TV_2::PDU_SESSION_MODIFY_RQ_TIMER_IEI),
            0x59 => Some(TV_2::PDU_SESSION_MODIFY_5_GSM_CAUSE_IEI),
            _ => None,
        }
    }
}

/// Identifier of the one-octet TV element: always-on PDU session indication (0x08).
#[allow(non_camel_case_types)]
#[derive(Debug, Clone, Copy, PartialEq, Eq, Structural)]
pub enum TV_1 {
    PDU_SESSION_MODIFY_ALWAYSON_PDU_SESSION_INDICATION_PRESENCE,
}

/// The one-octet TV element an identifier names.
pub open spec fn tv_1_of(iei: u8) -> Option<TV_1> {
    if iei == 0x08 {
        Some(TV_1::PDU_SESSION_MODIFY_ALWAYSON_PDU_SESSION_INDICATION_PRESENCE)
    } else {
        None
    }
}

impl TV_1 {
    /// The one-octet TV element an identifier names, if any.
    pub fn from_u8(iei: u8) -> (r: Option<TV_1>)
        ensures
            r == tv_1_of(iei),
    {
        match iei {
            0x08 => Some(TV_1::PDU_SESSION_MODIFY_ALWAYSON_PDU_SESSION_INDICATION_PRESENCE),
            _ => None,
        }
    }
}

/// An element identifier together with the format of its element.
#[allow(non_camel_case_types)]
#[derive(Debug, Clone, Copy, PartialEq, Eq, Structural)]
pub enum PDU_MODIFY_IEI {
    TV_1(TV_1),
    TV_2(TV_2),
    TLV(TLV),
    TLV_E(TLV_E),
}

/// The format an identifier is read with: a known one-octet TV, two-octet TV, TLV or
/// TLV-E identifier in that order of preference, and TLV for every other identifier.
pub open spec fn iei_of(iei: u8) -> PDU_MODIFY_IEI {
    if let Some(t) = tv_1_of(iei) {
        PDU_MODIFY_IEI::TV_1(t)
    } else if let Some(t) = tv_2_of(iei) {
        PDU_MODIFY_IEI::TV_2(t)
    } else if let Some(t) = tlv_of(iei) {
        PDU_MODIFY_IEI::TLV(t)
    } else if let Some(t) = tlv_e_of(iei) {
        PDU_MODIFY_IEI::TLV_E(t)
    } else {
        PDU_MODIFY_IEI::TLV(TLV::ANY)
    }
}

impl PDU_MODIFY_IEI {
    /// Classifies an element identifier (see `iei_of`).
    pub fn from_u8(iei: u8) -> (r: PDU_MODIFY_IEI)
        ensures
            r == iei_of(iei),
    {
        if let Some(tv1) = TV_1::from_u8(iei) {
            PDU_MODIFY_IEI::TV_1(tv1)
        } else if let Some(tv2) = TV_2::from_u8(iei) {
            PDU_MODIFY_IEI::TV_2(tv2)
        } else if let Some(tlv) = TLV::from_u8(iei) {
            PDU_MODIFY_IEI::TLV(tlv)
        } else if let Some(tlv_e) = TLV_E::from_u8(iei) {
            PDU_MODIFY_IEI::TLV_E(tlv_e)
        } else {
            PDU_MODIFY_IEI::TLV(TLV::ANY)
        }
    }
}

// ---------------------------------------------------------------------------
// Network interface management frames
// ---------------------------------------------------------------------------

pub const _NR_NETWORK_IF_MGMT_CREATE: u8 = 0x00;

pub const _NR_NETWORK_IF_MGMT_UPDATE: u8 = 0x01;

pub const _NR_NETWORK_IF_MGMT_DELETE: u8 = 0x11;

pub const _NR_NETWORK_IF_MGMT_DESTORY: u8 = 0xff;

/// The walk over the tag-length-value records from octet `i` on: the first create (0x00)
/// or update (0x01) record with its value, or the first destroy (0xFF) record with an empty
/// value, ends it; other records are skipped. `Some(None)` when the records end first, and
/// `None` when a record's length octet or a create or update value lies past the end.
pub open spec fn nr_if_mgm_walk(d: Seq<u8>, i: int) -> Option<Option<(u8, Seq<u8>)>>
    decreases if i < d.len() { d.len() - i } else { 0 },
{
    if i >= d.len() {
        Some(None)
    } else if i + 1 >= d.len() {
        None
    } else {
        let tag = d[i];
        let next = i + 2 + d[i + 1];
        if tag == _NR_NETWORK_IF_MGMT_CREATE || tag == _NR_NETWORK_IF_MGMT_UPDATE {
            if next > d.len() {
                None
            } else {
                Some(Some((tag, d.subrange(i + 2, next))))
            }
        } else if tag == _NR_NETWORK_IF_MGMT_DESTORY {
            Some(Some((tag, Seq::empty())))
        } else {
            nr_if_mgm_walk(d, next)
        }
    }
}

/// How the interface management walk treats the record at octet `i` (a tag octet, a length
/// octet, then the value): a create (0x00) or update (0x01) record ends the walk with its tag
/// and value, a destroy (0xFF) record ends it with an empty value, and a record with any other
/// tag (delete 0x11 among them) is skipped by its length.
pub proof fn lemma_nr_if_mgm_records(d: Seq<u8>, i: int)
    requires
        0 <= i,
        i + 1 < d.len(),
    ensures
        (d[i] == 0x00 || d[i] == 0x01) && i + 2 + d[i + 1] <= d.len() ==> nr_if_mgm_walk(d, i) == Some(
            Some((d[i], d.subrange(i + 2, i + 2 + d[i + 1]))),
        ),
        d[i] == 0xff ==> nr_if_mgm_walk(d, i) == Some(Some((0xffu8, Seq::<u8>::empty()))),
        d[i] != 0x00 && d[i] != 0x01 && d[i] != 0xff ==> nr_if_mgm_walk(d, i) == nr_if_mgm_walk(d, i + 2 + d[i + 1]),
{
}

/// Finds the first create, update or destroy record in a frame of tag, length, value
/// records and returns its tag and value (empty for destroy).
pub fn tlv_decode_nr_network_if_mgm(data: &[u8]) -> (r: Option<(u8, Vec<u8>)>)
    requires
        nr_if_mgm_walk(data@, 0) is Some,
    ensures
        match r {
            Some((tag, value)) => nr_if_mgm_walk(data@, 0) == Some(Some((tag, value@))),
            None => nr_if_mgm_walk(data@, 0) == Some(None::<(u8, Seq<u8>)>),
        },
{
    let mut index: usize = 0;
    while index < data.len()
        invariant
            nr_if_mgm_walk(data@, 0) == nr_if_mgm_walk(data@, index as int),
            nr_if_mgm_walk(data@, index as int) is Some,
        decreases data.len() - index,
    {
        let current_tag = data[index];
        let length = data[index + 1] as usize;
        if current_tag == _NR_NETWORK_IF_MGMT_CREATE {
            let value = slice_to_vec(slice_subrange(data, index + 2, index + 2 + length));
            return Some((current_tag, value));
        }
        if current_tag == _NR_NETWORK_IF_MGMT_UPDATE {
            let value = slice_to_vec(slice_subrange(data, index + 2, index + 2 + length));
            return Some((current_tag, value));
        }
        if current_tag == _NR_NETWORK_IF_MGMT_DESTORY {
            let value = Vec::new();
            return Some((current_tag, value));
        }
        assert(nr_if_mgm_walk(data@, index as int) == nr_if_mgm_walk(data@, index + 2 + length));
        if data.len() - index <= 2 + length {
            index = data.len();
        } else {
            index = index + 2 + length;
        }
    }
    None
}

// ---------------------------------------------------------------------------
// Decoding the modification command
// ---------------------------------------------------------------------------

/// The walk over the information elements from octet `i` on, carrying the QoS rules decoded
/// so far: a one-octet TV element takes 1 octet, a two-octet TV element 2, a TLV element
/// 2 plus its length octet, a TLV-E element 3 plus its big-endian 16-bit length. Authorized
/// QoS rules (a TLV-E element) replace the rules carried, decoded from the element's length
/// octets and contents. `None` when a length is read past the end of `d`, when authorized QoS
/// rules reach past it, or when they do not decode.
pub open spec fn modify_rules_walk(d: Seq<u8>, i: int, acc: QOSRulesView) -> Option<QOSRulesView>
    decreases if i < d.len() { d.len() - i } else { 0 },
{
    if i >= d.len() || i < 0 {
        Some(acc)
    } else {
        match iei_of(d[i]) {
            PDU_MODIFY_IEI::TV_1(_) => modify_rules_walk(d, i + 1, acc),
            PDU_MODIFY_IEI::TV_2(_) => modify_rules_walk(d, i + 2, acc),
            PDU_MODIFY_IEI::TLV(_) => if i + 1 >= d.len() {
                None
            } else {
                modify_rules_walk(d, i + 2 + d[i + 1], acc)
            },
            PDU_MODIFY_IEI::TLV_E(t) => if i + 2 >= d.len() {
                None
            } else {
                let next = i + 3 + be16(d[i + 1], d[i + 2]);
                if t == TLV_E::PDU_SESSION_MODIFY_AUTH_QOS {
                    if next > d.len() {
                        None
                    } else {
                        match spec_decode_qos_rules(d.subrange(i + 1, next)) {
                            Some(q) => modify_rules_walk(d, next, q),
                            None => None,
                        }
                    }
                } else {
                    modify_rules_walk(d, next, acc)
                }
            },
        }
    }
}

/// The QoS rules that a PDU session modification command carries: those of its last
/// authorized QoS rules element, or none. The three header octets come first, the message
/// type octet is skipped and the elements start at octet 4. `None` on the inputs on which
/// decoding would read past the end of `d` or meet QoS rules that do not decode.
pub open spec fn spec_modify_qos_rules(d: Seq<u8>) -> Option<QOSRulesView> {
    if d.len() < 3 {
        None
    } else {
        modify_rules_walk(d, 4, no_qos_rules())
    }
}

/// The walk over the information elements from octet `i` on reads only octets of `d` and
/// ends exactly at its end.
pub open spec fn modify_walk_lands(d: Seq<u8>, i: int) -> bool
    decreases if i < d.len() { d.len() - i } else { 0 },
{
    if i >= d.len() || i < 0 {
        i == d.len()
    } else {
        match iei_of(d[i]) {
            PDU_MODIFY_IEI::TV_1(_) => modify_walk_lands(d, i + 1),
            PDU_MODIFY_IEI::TV_2(_) => i + 2 <= d.len() && modify_walk_lands(d, i + 2),
            PDU_MODIFY_IEI::TLV(_) => {
                &&& i + 1 < d.len()
                &&& i + 2 + d[i + 1] <= d.len()
                &&& modify_walk_lands(d, i + 2 + d[i + 1])
            },
            PDU_MODIFY_IEI::TLV_E(_) => {
                &&& i + 2 < d.len()
                &&& i + 3 + be16(d[i + 1], d[i + 2]) <= d.len()
                &&& modify_walk_lands(d, i + 3 + be16(d[i + 1], d[i + 2]))
            },
        }
    }
}

proof fn lemma_modify_walk_append(d: Seq<u8>, e: Seq<u8>, i: int, acc: QOSRulesView)
    requires
        0 <= i,
        modify_walk_lands(d, i),
        modify_rules_walk(d, i, acc) is Some,
    ensures
        modify_rules_walk(d + e, i, acc) == modify_rules_walk(d + e, d.len() as int, modify_rules_walk(d, i, acc)->0),
    decreases d.len() - i,
{
    let de = d + e;
    if i < d.len() {
        assert(de[i] == d[i]);
        match iei_of(d[i]) {
            PDU_MODIFY_IEI::TV_1(_) => {
                lemma_modify_walk_append(d, e, i + 1, acc);
            },
            PDU_MODIFY_IEI::TV_2(_) => {
                lemma_modify_walk_append(d, e, i + 2, acc);
            },
            PDU_MODIFY_IEI::TLV(_) => {
                assert(de[i + 1] == d[i + 1]);
                lemma_modify_walk_append(d, e, i + 2 + d[i + 1], acc);
            },
            PDU_MODIFY_IEI::TLV_E(t) => {
                assert(de[i + 1] == d[i + 1]);
                assert(de[i + 2] == d[i + 2]);
                let next = i + 3 + be16(d[i + 1], d[i + 2]);
                if t == TLV_E::PDU_SESSION_MODIFY_AUTH_QOS {
                    assert(de.subrange(i + 1, next) =~= d.subrange(i + 1, next));
                    let q = spec_decode_qos_rules(d.subrange(i + 1, next))->0;
                    lemma_modify_walk_append(d, e, next, q);
                } else {
                    lemma_modify_walk_append(d, e, next, acc);
                }
            },
        }
    }
}

/// Only the last authorized QoS rules element of a modification command counts: appending
/// one whose rules decode to a command that decodes and whose elements end exactly at its
/// end gives a command that carries exactly the appended element's rules.
pub proof fn lemma_last_authorized_rules_win(d: Seq<u8>, v: Seq<u8>)
    requires
        modify_walk_lands(d, 4),
        spec_modify_qos_rules(d) is Some,
        v.len() >= 2,
        be16(v[0], v[1]) == v.len() - 2,
        spec_decode_qos_rules(v) is Some,
    ensures
        spec_modify_qos_rules(d + (seq![0x7au8] + v)) == spec_decode_qos_rules(v),
{
    let e = seq![0x7au8] + v;
    let de = d + e;
    let r = modify_rules_walk(d, 4, no_qos_rules())->0;
    lemma_modify_walk_append(d, e, 4, no_qos_rules());
    let i = d.len() as int;
    assert(de[i] == 0x7a);
    assert(de[i + 1] == v[0]);
    assert(de[i + 2] == v[1]);
    assert(de.subrange(i + 1, de.len() as int) =~= v);
    assert(iei_of(0x7a) == PDU_MODIFY_IEI::TLV_E(TLV_E::PDU_SESSION_MODIFY_AUTH_QOS));
    let q = spec_decode_qos_rules(v)->0;
    assert(modify_rules_walk(de, de.len() as int, q) == Some(q));
    assert(modify_rules_walk(de, i, r) == Some(q));
}

/// The QoS rules carried when the walk over the elements from octet `p` lands exactly on
/// octet `i`; `None` when it does not land on `i` or fails on the way.
pub open spec fn modify_walk_to(d: Seq<u8>, p: int, i: int, acc: QOSRulesView) -> Option<QOSRulesView>
    decreases if p < i { i - p } else { 0 },
{
    if p == i {
        Some(acc)
    } else if p > i || p < 0 || p >= d.len() {
        None
    } else {
        match iei_of(d[p]) {
            PDU_MODIFY_IEI::TV_1(_) => modify_walk_to(d, p + 1, i, acc),
            PDU_MODIFY_IEI::TV_2(_) => modify_walk_to(d, p + 2, i, acc),
            PDU_MODIFY_IEI::TLV(_) => if p + 1 >= d.len() {
                None
            } else {
                modify_walk_to(d, p + 2 + d[p + 1], i, acc)
            },
            PDU_MODIFY_IEI::TLV_E(t) => if p + 2 >= d.len() {
                None
            } else {
                let next = p + 3 + be16(d[p + 1], d[p + 2]);
                if t == TLV_E::PDU_SESSION_MODIFY_AUTH_QOS {
                    if next > d.len() {
                        None
                    } else {
                        match spec_decode_qos_rules(d.subrange(p + 1, next)) {
                            Some(q) => modify_walk_to(d, next, i, q),
                            None => None,
                        }
                    }
                } else {
                    modify_walk_to(d, next, i, acc)
                }
            },
        }
    }
}

proof fn lemma_modify_walk_to(d: Seq<u8>, p: int, i: int, acc: QOSRulesView)
    requires
        i <= d.len(),
        modify_walk_to(d, p, i, acc) is Some,
    ensures
        modify_rules_walk(d, p, acc) == modify_rules_walk(d, i, modify_walk_to(d, p, i, acc)->0),
    decreases if p < i { i - p } else { 0 },
{
    if p != i {
        match iei_of(d[p]) {
            PDU_MODIFY_IEI::TV_1(_) => lemma_modify_walk_to(d, p + 1, i, acc),
            PDU_MODIFY_IEI::TV_2(_) => lemma_modify_walk_to(d, p + 2, i, acc),
            PDU_MODIFY_IEI::TLV(_) => lemma_modify_walk_to(d, p + 2 + d[p + 1], i, acc),
            PDU_MODIFY_IEI::TLV_E(t) => {
                let next = p + 3 + be16(d[p + 1], d[p + 2]);
                if t == TLV_E::PDU_SESSION_MODIFY_AUTH_QOS {
                    let q = spec_decode_qos_rules(d.subrange(p + 1, next))->0;
                    lemma_modify_walk_to(d, next, i, q);
                } else {
                    lemma_modify_walk_to(d, next, i, acc);
                }
            },
        }
    }
}

proof fn lemma_modify_walk_to_le(d: Seq<u8>, p: int, i: int, acc: QOSRulesView)
    requires
        modify_walk_to(d, p, i, acc) is Some,
    ensures
        p <= i,
{
}

proof fn lemma_modify_walk_to_prefix(d: Seq<u8>, d2: Seq<u8>, p: int, i: int, acc: QOSRulesView)
    requires
        i <= d.len(),
        i <= d2.len(),
        forall|k: int| 0 <= k < i ==> #[trigger] d2[k] == d[k],
        modify_walk_to(d, p, i, acc) is Some,
    ensures
        modify_walk_to(d2, p, i, acc) == modify_walk_to(d, p, i, acc),
    decreases if p < i { i - p } else { 0 },
{
    if p != i {
        assert(d2[p] == d[p]);
        match iei_of(d[p]) {
            PDU_MODIFY_IEI::TV_1(_) => lemma_modify_walk_to_prefix(d, d2, p + 1, i, acc),
            PDU_MODIFY_IEI::TV_2(_) => lemma_modify_walk_to_prefix(d, d2, p + 2, i, acc),
            PDU_MODIFY_IEI::TLV(_) => {
                lemma_modify_walk_to_le(d, p + 2 + d[p + 1], i, acc);
                assert(d2[p + 1] == d[p + 1]);
                lemma_modify_walk_to_prefix(d, d2, p + 2 + d[p + 1], i, acc);
            },
            PDU_MODIFY_IEI::TLV_E(t) => {
                let next = p + 3 + be16(d[p + 1], d[p + 2]);
                if t == TLV_E::PDU_SESSION_MODIFY_AUTH_QOS {
                    let q = spec_decode_qos_rules(d.subrange(p + 1, next))->0;
                    lemma_modify_walk_to_le(d, next, i, q);
                    assert(d2[p + 1] == d[p + 1]);
                    assert(d2[p + 2] == d[p + 2]);
                    assert(d2.subrange(p + 1, next) =~= d.subrange(p + 1, next));
                    lemma_modify_walk_to_prefix(d, d2, next, i, q);
                } else {
                    lemma_modify_walk_to_le(d, next, i, acc);
                    assert(d2[p + 1] == d[p + 1]);
                    assert(d2[p + 2] == d[p + 2]);
                    lemma_modify_walk_to_prefix(d, d2, next, i, acc);
                }
            },
        }
    }
}

/// Both walks continue from positions `na` and `nb` with the same octets left.
proof fn lemma_modify_walk_suffix_step(a: Seq<u8>, x: int, b: Seq<u8>, y: int, step: int, acc: QOSRulesView)
    requires
        0 <= x < a.len(),
        0 <= y <= b.len(),
        step > 0,
        a.subrange(x, a.len() as int) == b.subrange(y, b.len() as int),
    ensures
        modify_rules_walk(a, x + step, acc) == modify_rules_walk(b, y + step, acc),
    decreases a.len() - x, 0int,
{
    let s = a.subrange(x, a.len() as int);
    assert(s.len() == b.subrange(y, b.len() as int).len());
    if x + step < a.len() {
        assert(a.subrange(x + step, a.len() as int) =~= s.subrange(step, s.len() as int));
        assert(b.subrange(y + step, b.len() as int) =~= s.subrange(step, s.len() as int));
        lemma_modify_walk_suffix(a, x + step, b, y + step, acc);
    } else {
        assert(modify_rules_walk(a, x + step, acc) == Some(acc));
        assert(modify_rules_walk(b, y + step, acc) == Some(acc));
    }
}

proof fn lemma_modify_walk_suffix(a: Seq<u8>, x: int, b: Seq<u8>, y: int, acc: QOSRulesView)
    requires
        0 <= x <= a.len(),
        0 <= y <= b.len(),
        a.subrange(x, a.len() as int) == b.subrange(y, b.len() as int),
    ensures
        modify_rules_walk(a, x, acc) == modify_rules_walk(b, y, acc),
    decreases a.len() - x, 1int,
{
    let s = a.subrange(x, a.len() as int);
    assert(s == b.subrange(y, b.len() as int));
    assert(s.len() == b.len() - y);
    if x < a.len() {
        assert(a[x] == s[0] && b[y] == s[0]);
        if x + 1 < a.len() {
            assert(a[x + 1] == s[1] && b[y + 1] == s[1]);
        }
        if x + 2 < a.len() {
            assert(a[x + 2] == s[2] && b[y + 2] == s[2]);
        }
        match iei_of(a[x]) {
            PDU_MODIFY_IEI::TV_1(_) => lemma_modify_walk_suffix_step(a, x, b, y, 1, acc),
            PDU_MODIFY_IEI::TV_2(_) => lemma_modify_walk_suffix_step(a, x, b, y, 2, acc),
            PDU_MODIFY_IEI::TLV(_) => {
                if x + 1 < a.len() {
                    lemma_modify_walk_suffix_step(a, x, b, y, 2 + a[x + 1], acc);
                }
            },
            PDU_MODIFY_IEI::TLV_E(t) => {
                if x + 2 < a.len() {
                    let step = 3 + be16(a[x + 1], a[x + 2]);
                    if t == TLV_E::PDU_SESSION_MODIFY_AUTH_QOS {
                        if x + step <= a.len() {
                            assert(a.subrange(x + 1, x + step) =~= s.subrange(1, step));
                            assert(b.subrange(y + 1, y + step) =~= s.subrange(1, step));
                            if let Some(q) = spec_decode_qos_rules(a.subrange(x + 1, x + step)) {
                                lemma_modify_walk_suffix_step(a, x, b, y, step, q);
                            }
                        }
                    } else {
                        lemma_modify_walk_suffix_step(a, x, b, y, step, acc);
                    }
                }
            },
        }
    }
}

/// The octets `e` of one information element that a modification command may carry besides
/// its authorized QoS rules (identifier 0x7A), in the format its identifier `e[0]` calls for:
/// the always-on PDU session indication 0x08 is one octet; the RQ timer 0x56 and the 5GSM cause
/// 0x59 are two; the mapped EPS bearer contexts 0x75, QoS flow descriptions 0x79, extended
/// protocol configuration options 0x7B, ATSSS container 0x77 and port management information
/// 0x74 have a big-endian 16-bit length; every other identifier has a one-octet length.
pub open spec fn other_element(e: Seq<u8>) -> bool {
    &&& e.len() >= 1
    &&& e[0] != 0x7a
    &&& if e[0] == 0x08 {
        e.len() == 1
    } else if e[0] == 0x56 || e[0] == 0x59 {
        e.len() == 2
    } else if e[0] == 0x75 || e[0] == 0x79 || e[0] == 0x7b || e[0] == 0x77 || e[0] == 0x74 {
        e.len() >= 3 && e.len() == 3 + e[1] as int * 256 + e[2] as int
    } else {
        e.len() >= 2 && e.len() == 2 + e[1] as int
    }
}

/// Elements other than the authorized QoS rules are skipped by their own format: inserting
/// one (see `other_element`) at a position that the walk over the elements of `d` reaches
/// exactly (or at its end) leaves the header octets and the decoded QoS rules unchanged.
pub proof fn lemma_other_element_is_skipped(d: Seq<u8>, i: int, e: Seq<u8>)
    requires
        4 <= i <= d.len(),
        modify_walk_to(d, 4, i, no_qos_rules()) is Some,
        other_element(e),
    ensures
        ({
            let d2 = d.subrange(0, i) + e + d.subrange(i, d.len() as int);
            &&& d2.subrange(0, 3) == d.subrange(0, 3)
            &&& spec_modify_qos_rules(d2) == spec_modify_qos_rules(d)
        }),
{
    let d2 = d.subrange(0, i) + e + d.subrange(i, d.len() as int);
    assert(d2.len() == d.len() + e.len());
    assert forall|j: int| 0 <= j < i implies #[trigger] d2[j] == d[j] by {}
    assert forall|k: int| 0 <= k < e.len() implies #[trigger] d2[i + k] == e[k] by {}
    assert(d2.subrange(0, 3) =~= d.subrange(0, 3));
    let a = modify_walk_to(d, 4, i, no_qos_rules())->0;
    lemma_modify_walk_to(d, 4, i, no_qos_rules());
    lemma_modify_walk_to_prefix(d, d2, 4, i, no_qos_rules());
    lemma_modify_walk_to(d2, 4, i, no_qos_rules());
    assert(d2[i] == e[0]);
    let t = e[0];
    if t == 0x75 || t == 0x79 || t == 0x7b || t == 0x77 || t == 0x74 {
        assert(d2[i + 1] == e[1] && d2[i + 2] == e[2]);
        lemma_be16_value(e[1], e[2]);
        assert(iei_of(t) is TLV_E);
        assert(iei_of(t) != PDU_MODIFY_IEI::TLV_E(TLV_E::PDU_SESSION_MODIFY_AUTH_QOS));
    } else if t != 0x08 && t != 0x56 && t != 0x59 {
        assert(d2[i + 1] == e[1]);
        assert(iei_of(t) is TLV);
    }
    assert(modify_rules_walk(d2, i, a) == modify_rules_walk(d2, i + e.len(), a));
    assert(d2.subrange(i + e.len(), d2.len() as int) =~= d.subrange(i, d.len() as int));
    lemma_modify_walk_suffix(d2, i + e.len(), d, i, a);
}

/// An information element whose identifier this decoder does not know is skipped as a TLV
/// element by its length octet: inserting one at a position that the walk over the elements
/// of `d` reaches (or at its end) leaves the header octets and the decoded QoS rules unchanged.
pub proof fn lemma_unknown_element_is_skipped(d: Seq<u8>, i: int, t: u8, body: Seq<u8>)
    requires
        4 <= i <= d.len(),
        modify_walk_to(d, 4, i, no_qos_rules()) is Some,
        iei_of(t) == PDU_MODIFY_IEI::TLV(TLV::ANY),
        body.len() <= 255,
    ensures
        ({
            let d2 = d.subrange(0, i) + seq![t, body.len() as u8] + body + d.subrange(i, d.len() as int);
            &&& d2.subrange(0, 3) == d.subrange(0, 3)
            &&& spec_modify_qos_rules(d2) == spec_modify_qos_rules(d)
        }),
{
    let d2 = d.subrange(0, i) + seq![t, body.len() as u8] + body + d.subrange(i, d.len() as int);
    let k = 2 + body.len();
    assert(d2.len() == d.len() + k);
    assert forall|j: int| 0 <= j < i implies #[trigger] d2[j] == d[j] by {}
    assert(d2.subrange(0, 3) =~= d.subrange(0, 3));
    let a = modify_walk_to(d, 4, i, no_qos_rules())->0;
    lemma_modify_walk_to(d, 4, i, no_qos_rules());
    lemma_modify_walk_to_prefix(d, d2, 4, i, no_qos_rules());
    lemma_modify_walk_to(d2, 4, i, no_qos_rules());
    assert(d2[i] == t);
    assert(d2[i + 1] == body.len() as u8);
    assert((body.len() as u8) as int == body.len());
    assert(modify_rules_walk(d2, i, a) == modify_rules_walk(d2, i + k, a));
    assert(d2.subrange(i + k, d2.len() as int) =~= d.subrange(i, d.len() as int));
    lemma_modify_walk_suffix(d2, i + k, d, i, a);
}

/// `m` is the modification command decoded from `d` with QoS rules `q`.
pub open spec fn decoded_modify_msg(d: Seq<u8>, m: PduSessioModifyMsg, q: QOSRulesView) -> bool {
    &&& m.extendedprotocoldiscriminator == d[0]
    &&& m.pdusessionidentity == d[1]
    &&& m.proceduretransactionidentity == d[2]
    &&& m.messagetype == SessionMessageType::ModificationCommand
    &&& m.qosrules@ == q
    &&& initial_elements(m)
}

impl PduSessioModifyMsg {
    /// Decodes a PDU session modification command (3GPP TS 24.501, 8.3.9.1); returns `None`
    /// exactly on the inputs on which decoding would read past the end of `data` or meet
    /// authorized QoS rules that do not decode.
    pub fn try_decode_pdu_session_modify_msg(data: &[u8]) -> (r: Option<PduSessioModifyMsg>)
        ensures
            match r {
                Some(m) => spec_modify_qos_rules(data@) matches Some(q) && decoded_modify_msg(data@, m, q),
                None => spec_modify_qos_rules(data@) is None,
            },
    {
        if data.len() < 3 {
            return None;
        }
        let mut res: PduSessioModifyMsg = PduSessioModifyMsg::new();
        res.extendedprotocoldiscriminator = data[0];
        res.pdusessionidentity = data[1];
        res.proceduretransactionidentity = data[2];
        res.messagetype = SessionMessageType::ModificationCommand;
        let mut index: usize = 4;
        while index < data.len()
            invariant
                4 <= index,
                decoded_modify_msg(data@, res, res.qosrules@),
                spec_modify_qos_rules(data@) == modify_rules_walk(data@, index as int, res.qosrules@),
            decreases data.len() - index,
        {
            let current_tag = data[index];
            let rest = data.len() - index;
            let ghost here = index as int;
            let ghost q0 = res.qosrules@;
            let ghost d = data@;
            match PDU_MODIFY_IEI::from_u8(current_tag) {
                PDU_MODIFY_IEI::TV_1(_) => {
                    assert(modify_rules_walk(d, here, q0) == modify_rules_walk(d, here + 1, q0));
                    index = index + 1;
                },
                PDU_MODIFY_IEI::TV_2(_) => {
                    assert(modify_rules_walk(d, here, q0) == modify_rules_walk(d, here + 2, q0));
                    if rest <= 2 {
                        assert(modify_rules_walk(d, here + 2, q0) == Some(q0));
                        index = data.len();
                    } else {
                        index = index + 2;
                    }
                },
                PDU_MODIFY_IEI::TLV(_) => {
                    if rest < 2 {
                        return None;
                    }
                    let length = data[index + 1] as usize;
                    let ghost next = here + 2 + length;
                    assert(modify_rules_walk(d, here, q0) == modify_rules_walk(d, next, q0));
                    if rest <= 2 + length {
                        assert(modify_rules_walk(d, next, q0) == Some(q0));
                        index = data.len();
                    } else {
                        index = index + 2 + length;
                    }
                },
                PDU_MODIFY_IEI::TLV_E(tlv_e) => {
                    if rest < 3 {
                        return None;
                    }
                    let length = be16_exec(data[index + 1], data[index + 2]) as usize;
                    let ghost next = here + 3 + length;
                    match tlv_e {
                        TLV_E::PDU_SESSION_MODIFY_AUTH_QOS => {
                            if rest < 3 + length {
                                return None;
                            }
                            let value = slice_subrange(data, index + 1, index + 3 + length);
                            match QOSRules::try_decode(value) {
                                Some(q) => {
                                    res.qosrules = q;
                                },
                                None => {
                                    return None;
                                },
                            }
                        },
                        _ => {},
                    }
                    assert(modify_rules_walk(d, here, q0) == modify_rules_walk(d, next, res.qosrules@));
                    if rest <= 3 + length {
                        assert(modify_rules_walk(d, next, res.qosrules@) == Some(res.qosrules@));
                        index = data.len();
                    } else {
                        index = index + 3 + length;
                    }
                },
            }
        }
        Some(res)
    }

    /// Decodes a PDU session modification command (3GPP TS 24.501, 8.3.9.1) on the inputs
    /// that decode without reading past their end (see `try_decode_pdu_session_modify_msg`).
    pub fn tlv_decode_pdu_session_modify_msg(data: Vec<u8>) -> (r: Result<PduSessioModifyMsg, ()>)
        requires
            spec_modify_qos_rules(data@) is Some,
        ensures
            r matches Ok(m) && decoded_modify_msg(data@, m, spec_modify_qos_rules(data@).unwrap()),
    {
        match PduSessioModifyMsg::try_decode_pdu_session_modify_msg(data.as_slice()) {
            Some(m) => Ok(m),
            None => Err(()),
        }
    }
}

} // verus!

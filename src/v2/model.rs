//! The structured binary header and the bytes that stand for it.
use vstd::prelude::*;
use crate::ip::{IPv4, IPv6, Ipv6Segments};
use crate::v2::error::ParseError;

verus! {

/// Length of the binary signature.
pub const SIGNATURE_LENGTH: usize = 12;

/// Length of the fixed part: signature, version/command, family/protocol, length.
pub const MINIMUM_LENGTH: usize = 16;

/// Length of a TLV record's type and length fields.
pub const MINIMUM_TLV_LENGTH: usize = 3;

/// Length of one Unix socket path in the address block.
pub const UNIX_PATH_LENGTH: usize = 108;

/// The signature `\r\n\r\n\0\r\nQUIT\n` that starts every binary header.
pub open spec fn signature() -> Seq<u8> {
    seq![13u8, 10, 13, 10, 0, 13, 10, 81, 85, 73, 84, 10]
}

/// The command of a binary header.
#[derive(Copy, Clone, Debug, PartialEq, Eq)]
pub enum Command {
    Local,
    Proxy,
}

/// The transport protocol of a binary header.
#[derive(Copy, Clone, Debug, PartialEq, Eq)]
pub enum Protocol {
    Unspecified,
    Stream,
    Datagram,
}

/// The shape of the address block of a binary header.
#[derive(Copy, Clone, Debug, PartialEq, Eq)]
pub enum AddressFamily {
    Unspecified,
    IPv4,
    IPv6,
    Unix,
}

/// A pair of Unix socket paths, each a NUL-padded block of 108 bytes.
#[derive(Clone, Debug, PartialEq, Eq)]
pub struct Unix {
    pub source: Vec<u8>,
    pub destination: Vec<u8>,
}

/// The address block of a binary header.
#[derive(Clone, Debug, PartialEq, Eq)]
pub enum Addresses {
    Unspecified,
    IPv4(IPv4),
    IPv6(IPv6),
    Unix(Unix),
}

/// A type-length-value extension record.
#[derive(Clone, Debug, PartialEq, Eq)]
pub struct TypeLengthValue {
    pub kind: u8,
    pub value: Vec<u8>,
}

/// A binary PROXY protocol header (version 2).
#[derive(Clone, Debug, PartialEq, Eq)]
pub struct Header {
    pub command: Command,
    pub protocol: Protocol,
    pub addresses: Addresses,
    pub tlvs: Vec<TypeLengthValue>,
}

impl Header {
    /// The version of the binary form, always 2.
    pub fn version(&self) -> (r: u8)
        ensures
            r == 2,
    {
        2
    }

    /// The address family, which the shape of the address block gives.
    pub fn address_family(&self) -> (r: AddressFamily)
        ensures
            r == family_of(self@.addresses),
    {
        match self.addresses {
            Addresses::Unspecified => AddressFamily::Unspecified,
            Addresses::IPv4(_) => AddressFamily::IPv4,
            Addresses::IPv6(_) => AddressFamily::IPv6,
            Addresses::Unix(_) => AddressFamily::Unix,
        }
    }
}

/// The mathematical value of an address block.
pub enum AddressesView {
    Unspecified,
    IPv4(IPv4),
    IPv6(IPv6),
    Unix(Seq<u8>, Seq<u8>),
}

/// The mathematical value of a binary header.
pub struct HeaderView {
    pub command: Command,
    pub protocol: Protocol,
    pub addresses: AddressesView,
    pub tlvs: Seq<(u8, Seq<u8>)>,
}

impl View for Addresses {
    type V = AddressesView;

    open spec fn view(&self) -> AddressesView {
        match self {
            Addresses::Unspecified => AddressesView::Unspecified,
            Addresses::IPv4(a) => AddressesView::IPv4(*a),
            Addresses::IPv6(a) => AddressesView::IPv6(*a),
            Addresses::Unix(u) => AddressesView::Unix(u.source@, u.destination@),
        }
    }
}

impl View for TypeLengthValue {
    type V = (u8, Seq<u8>);

    open spec fn view(&self) -> (u8, Seq<u8>) {
        (self.kind, self.value@)
    }
}

impl View for Header {
    type V = HeaderView;

    open spec fn view(&self) -> HeaderView {
        HeaderView {
            command: self.command,
            protocol: self.protocol,
            addresses: self.addresses@,
            tlvs: tlv_views(self.tlvs@),
        }
    }
}

/// The values of a sequence of TLV records.
pub open spec fn tlv_views(tlvs: Seq<TypeLengthValue>) -> Seq<(u8, Seq<u8>)> {
    tlvs.map_values(|t: TypeLengthValue| t@)
}

/// The command's nibble.
pub open spec fn command_nibble(c: Command) -> u8 {
    match c {
        Command::Local => 0,
        Command::Proxy => 1,
    }
}

/// The protocol's nibble.
pub open spec fn protocol_nibble(p: Protocol) -> u8 {
    match p {
        Protocol::Unspecified => 0,
        Protocol::Stream => 1,
        Protocol::Datagram => 2,
    }
}

/// The address family's nibble.
pub open spec fn family_nibble(f: AddressFamily) -> u8 {
    match f {
        AddressFamily::Unspecified => 0,
        AddressFamily::IPv4 => 1,
        AddressFamily::IPv6 => 2,
        AddressFamily::Unix => 3,
    }
}

/// Size of the address block of a family given by its nibble (0 for an unknown one).
pub open spec fn family_block_length(nibble: u8) -> nat {
    if nibble == 1 {
        12
    } else if nibble == 2 {
        36
    } else if nibble == 3 {
        216
    } else {
        0
    }
}

/// The address family that an address block has.
pub open spec fn family_of(a: AddressesView) -> AddressFamily {
    match a {
        AddressesView::Unspecified => AddressFamily::Unspecified,
        AddressesView::IPv4(_) => AddressFamily::IPv4,
        AddressesView::IPv6(_) => AddressFamily::IPv6,
        AddressesView::Unix(_, _) => AddressFamily::Unix,
    }
}

/// A 16-bit integer in network order.
pub open spec fn be16(v: int) -> Seq<u8> {
    seq![(v / 256) as u8, (v % 256) as u8]
}

/// The 16 bytes of an IPv6 address, each segment in network order.
pub open spec fn segment_bytes(a: Ipv6Segments) -> Seq<u8> {
    Seq::new(16, |i: int| if i % 2 == 0 { (a[i / 2] / 256) as u8 } else { (a[i / 2] % 256) as u8 })
}

/// The bytes of an address block.
pub open spec fn address_bytes(a: AddressesView) -> Seq<u8> {
    match a {
        AddressesView::Unspecified => seq![],
        AddressesView::IPv4(p) => p.source_address@ + p.destination_address@ + be16(
            p.source_port as int,
        ) + be16(p.destination_port as int),
        AddressesView::IPv6(p) => segment_bytes(p.source_address) + segment_bytes(
            p.destination_address,
        ) + be16(p.source_port as int) + be16(p.destination_port as int),
        AddressesView::Unix(s, d) => s + d,
    }
}

/// The bytes of a sequence of TLV records, in order.
pub open spec fn tlv_bytes(tlvs: Seq<(u8, Seq<u8>)>) -> Seq<u8>
    decreases tlvs.len(),
{
    if tlvs.len() == 0 {
        seq![]
    } else {
        seq![tlvs[0].0] + be16(tlvs[0].1.len() as int) + tlvs[0].1 + tlv_bytes(tlvs.drop_first())
    }
}

/// The length that the header declares: the address block plus the TLV records.
pub open spec fn declared_length(h: HeaderView) -> nat {
    address_bytes(h.addresses).len() + tlv_bytes(h.tlvs).len()
}

/// The bytes of a binary header.
pub open spec fn header_bytes(h: HeaderView) -> Seq<u8> {
    signature() + seq![
        (0x20 + command_nibble(h.command)) as u8,
        (16 * family_nibble(family_of(h.addresses)) + protocol_nibble(h.protocol)) as u8,
    ] + be16(declared_length(h) as int) + address_bytes(h.addresses) + tlv_bytes(h.tlvs)
}

/// A header that can be written: Unix paths of the fixed width, each TLV value
/// and the declared length within 16 bits.
pub open spec fn header_wf(h: HeaderView) -> bool {
    &&& (h.addresses matches AddressesView::Unix(s, d) ==> s.len() == UNIX_PATH_LENGTH
        && d.len() == UNIX_PATH_LENGTH)
    &&& forall|i: int| 0 <= i < h.tlvs.len() ==> #[trigger] h.tlvs[i].1.len() <= 0xffff
    &&& declared_length(h) <= 0xffff
}

/// Walks the TLV region: the records it holds, or the first framing error.
pub open spec fn parse_tlvs(r: Seq<u8>) -> Result<Seq<(u8, Seq<u8>)>, ParseError>
    decreases r.len(),
{
    if r.len() == 0 {
        Ok(seq![])
    } else if r.len() < 3 {
        Err(ParseError::Leftovers(r.len() as usize))
    } else {
        let len = r[1] as int * 256 + r[2] as int;
        if r.len() < 3 + len {
            Err(ParseError::InvalidTLV(r[0], len as u16))
        } else {
            match parse_tlvs(r.subrange(3 + len, r.len() as int)) {
                Ok(rest) => Ok(seq![(r[0], r.subrange(3, 3 + len))] + rest),
                Err(e) => Err(e),
            }
        }
    }
}

/// The records that `parse_tlvs` finds are written back as the very bytes
/// they were read from, and each value fits a 16-bit length.
pub proof fn lemma_parse_tlvs_bytes(r: Seq<u8>)
    ensures
        parse_tlvs(r) matches Ok(t) ==> tlv_bytes(t) == r && (forall|i: int|
            0 <= i < t.len() ==> #[trigger] t[i].1.len() <= 0xffff),
    decreases r.len(),
{
    if r.len() == 0 {
        assert(tlv_bytes(seq![]) =~= r);
    } else if r.len() >= 3 {
        let len = r[1] as int * 256 + r[2] as int;
        if r.len() >= 3 + len {
            let tail = r.subrange(3 + len, r.len() as int);
            lemma_parse_tlvs_bytes(tail);
            if let Ok(rest) = parse_tlvs(tail) {
                let t = seq![(r[0], r.subrange(3, 3 + len))] + rest;
                assert(t.drop_first() =~= rest);
                assert(be16(len) =~= r.subrange(1, 3));
                assert(tlv_bytes(t) =~= r);
                assert forall|i: int| 0 <= i < t.len() implies #[trigger] t[i].1.len() <= 0xffff by {
                    if i > 0 {
                        assert(t[i] == rest[i - 1]);
                    }
                }
            }
        }
    }
}

/// Records whose values fit a 16-bit length are read back by `parse_tlvs`
/// from their bytes.
pub proof fn lemma_tlv_bytes_parse(t: Seq<(u8, Seq<u8>)>)
    requires
        forall|i: int| 0 <= i < t.len() ==> #[trigger] t[i].1.len() <= 0xffff,
    ensures
        parse_tlvs(tlv_bytes(t)) == Ok::<Seq<(u8, Seq<u8>)>, ParseError>(t),
    decreases t.len(),
{
    if t.len() == 0 {
        assert(tlv_bytes(t) =~= seq![]);
        assert(t =~= seq![]);
    } else {
        let b = tlv_bytes(t);
        let v = t[0].1;
        let vl = v.len() as int;
        let tail = t.drop_first();
        assert forall|i: int| 0 <= i < tail.len() implies #[trigger] tail[i].1.len() <= 0xffff by {
            assert(tail[i] == t[i + 1]);
        }
        lemma_tlv_bytes_parse(tail);
        assert(v.len() <= 0xffff);
        assert(b[0] == t[0].0);
        assert(b[1] as int * 256 + b[2] as int == v.len());
        assert(b.subrange(3, 3 + vl) =~= v);
        assert(b.subrange(3 + vl, b.len() as int) =~= tlv_bytes(tail));
        assert(t[0] == (t[0].0, t[0].1));
        assert(seq![(t[0].0, v)] + tail =~= t);
    }
}

/// Appending one record appends its bytes.
pub proof fn lemma_tlv_bytes_push(t: Seq<(u8, Seq<u8>)>, x: (u8, Seq<u8>))
    ensures
        tlv_bytes(t.push(x)) == tlv_bytes(t) + (seq![x.0] + be16(x.1.len() as int) + x.1),
    decreases t.len(),
{
    if t.len() == 0 {
        assert(t.push(x).drop_first() =~= seq![]);
        assert(tlv_bytes(t) =~= seq![]);
        assert(tlv_bytes(t.push(x).drop_first()) =~= seq![]);
        assert(tlv_bytes(t.push(x)) =~= tlv_bytes(t) + (seq![x.0] + be16(x.1.len() as int) + x.1));
    } else {
        assert(t.push(x).drop_first() =~= t.drop_first().push(x));
        lemma_tlv_bytes_push(t.drop_first(), x);
        assert(tlv_bytes(t.push(x)) =~= tlv_bytes(t) + (seq![x.0] + be16(x.1.len() as int) + x.1));
    }
}

/// The length declared in bytes 14 and 15 of a header.
pub open spec fn declared_in(s: Seq<u8>) -> int {
    s[14] as int * 256 + s[15] as int
}

/// The first error that decoding finds in `s`, if any.
pub open spec fn decode_error(s: Seq<u8>) -> Option<ParseError> {
    if s.len() < 16 {
        Some(ParseError::Incomplete(s.len() as usize))
    } else if s.subrange(0, 12) != signature() {
        Some(ParseError::Prefix)
    } else if s[12] / 16 != 2 {
        Some(ParseError::Version(s[12] / 16))
    } else if s[12] % 16 > 1 {
        Some(ParseError::Command(s[12] % 16))
    } else if s[13] / 16 > 3 {
        Some(ParseError::AddressFamily(s[13] / 16))
    } else if s[13] % 16 > 2 {
        Some(ParseError::Protocol(s[13] % 16))
    } else if s.len() - 16 < declared_in(s) {
        Some(ParseError::Partial((s.len() - 16) as usize, declared_in(s) as usize))
    } else if declared_in(s) < family_block_length(s[13] / 16) {
        Some(
            ParseError::InvalidAddresses(
                declared_in(s) as usize,
                family_block_length(s[13] / 16) as usize,
            ),
        )
    } else {
        match parse_tlvs(s.subrange(16 + family_block_length(s[13] / 16) as int, 16 + declared_in(s))) {
            Ok(_) => None,
            Err(e) => Some(e),
        }
    }
}

} // verus!

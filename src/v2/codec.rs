//! Decoding bytes into a binary header, and encoding a header into bytes.
use vstd::prelude::*;
use crate::ip::{IPv4, IPv6, Ipv4Octets, Ipv6Segments};
use crate::v2::error::ParseError;
use crate::v2::model::{
    address_bytes, be16, command_nibble, declared_in, declared_length, decode_error,
    family_block_length, family_nibble, family_of, header_bytes, header_wf, lemma_parse_tlvs_bytes,
    lemma_tlv_bytes_parse, lemma_tlv_bytes_push, parse_tlvs, protocol_nibble, segment_bytes,
    signature, tlv_bytes, tlv_views, Addresses, AddressesView, Command, Header,
    HeaderView, MINIMUM_LENGTH, MINIMUM_TLV_LENGTH, Protocol, SIGNATURE_LENGTH, TypeLengthValue,
    UNIX_PATH_LENGTH, Unix,
};

verus! {

/// Reads a 16-bit integer in network order at `i`.
fn read_u16(s: &[u8], i: usize) -> (r: u16)
    requires
        i + 1 < s@.len(),
    ensures
        r as int == s@[i as int] as int * 256 + s@[i as int + 1] as int,
        be16(r as int) == s@.subrange(i as int, i + 2),
{
    let r = s[i] as u16 * 256 + s[i + 1] as u16;
    assert(be16(r as int) =~= s@.subrange(i as int, i + 2));
    r
}

/// Copies the bytes of `s` between `from` and `to`.
fn copy_range(s: &[u8], from: usize, to: usize) -> (r: Vec<u8>)
    requires
        from <= to <= s@.len(),
    ensures
        r@ == s@.subrange(from as int, to as int),
{
    let mut r: Vec<u8> = Vec::with_capacity(to - from);
    let mut i: usize = from;
    while i < to
        invariant
            from <= i <= to <= s@.len(),
            r@ == s@.subrange(from as int, i as int),
        decreases to - i,
    {
        r.push(s[i]);
        i = i + 1;
        assert(r@ =~= s@.subrange(from as int, i as int));
    }
    r
}

/// Reads the four octets of an IPv4 address at `i`.
fn read_octets(s: &[u8], i: usize) -> (r: Ipv4Octets)
    requires
        i + 4 <= s@.len(),
    ensures
        r@ == s@.subrange(i as int, i + 4),
{
    let r: [u8; 4] = [s[i], s[i + 1], s[i + 2], s[i + 3]];
    assert(r@ =~= s@.subrange(i as int, i + 4));
    r
}

/// Reads the eight segments of an IPv6 address at `i`.
fn read_segments(s: &[u8], i: usize) -> (r: Ipv6Segments)
    requires
        i + 16 <= s@.len(),
    ensures
        segment_bytes(r) == s@.subrange(i as int, i + 16),
{
    let len = s.len();
    assert(i + 16 <= len);
    let r: [u16; 8] = [
        read_u16(s, i),
        read_u16(s, i + 2),
        read_u16(s, i + 4),
        read_u16(s, i + 6),
        read_u16(s, i + 8),
        read_u16(s, i + 10),
        read_u16(s, i + 12),
        read_u16(s, i + 14),
    ];
    assert(segment_bytes(r) =~= s@.subrange(i as int, i + 16));
    r
}

/// Reads the version/command byte. Every one of its 256 values either is
/// version 2 with a known command, or gives the error for the first nibble
/// that is wrong.
pub fn parse_version_command(byte: u8) -> (r: Result<Command, ParseError>)
    ensures
        r is Ok <==> byte / 16 == 2 && byte % 16 <= 1,
        r matches Ok(c) ==> byte == 0x20 + command_nibble(c),
        r matches Err(e) ==> e == if byte / 16 != 2 {
            ParseError::Version(byte / 16)
        } else {
            ParseError::Command(byte % 16)
        },
{
    if byte / 16 != 2 {
        return Err(ParseError::Version(byte / 16));
    }
    match byte % 16 {
        0 => Ok(Command::Local),
        1 => Ok(Command::Proxy),
        c => Err(ParseError::Command(c)),
    }
}

/// Walks the TLV records between `start` and `end`.
fn decode_tlvs(input: &[u8], start: usize, end: usize) -> (r: Result<Vec<TypeLengthValue>, ParseError>)
    requires
        start <= end <= input@.len(),
    ensures
        match r {
            Ok(t) => parse_tlvs(input@.subrange(start as int, end as int)) == Ok::<
                Seq<(u8, Seq<u8>)>,
                ParseError,
            >(tlv_views(t@)),
            Err(e) => parse_tlvs(input@.subrange(start as int, end as int)) == Err::<
                Seq<(u8, Seq<u8>)>,
                ParseError,
            >(e),
        },
{
    let len = input.len();
    let ghost region = input@.subrange(start as int, end as int);
    let mut tlvs: Vec<TypeLengthValue> = Vec::new();
    let mut off: usize = start;
    while off < end
        invariant
            start <= off <= end <= len == input@.len(),
            region == input@.subrange(start as int, end as int),
            parse_tlvs(region) == match parse_tlvs(input@.subrange(off as int, end as int)) {
                Ok(rest) => Ok(tlv_views(tlvs@) + rest),
                Err(e) => Err::<Seq<(u8, Seq<u8>)>, ParseError>(e),
            },
        decreases end - off,
    {
        let ghost rem = input@.subrange(off as int, end as int);
        let remaining = end - off;
        if remaining < MINIMUM_TLV_LENGTH {
            return Err(ParseError::Leftovers(remaining));
        }
        let kind = input[off];
        let length = read_u16(input, off + 1);
        assert(rem[0] == kind && rem[1] == input@[off + 1] && rem[2] == input@[off + 2]);
        if remaining - MINIMUM_TLV_LENGTH < length as usize {
            return Err(ParseError::InvalidTLV(kind, length));
        }
        let next = off + MINIMUM_TLV_LENGTH + length as usize;
        let value = copy_range(input, off + MINIMUM_TLV_LENGTH, next);
        assert(rem.subrange(3 + length, rem.len() as int) =~= input@.subrange(
            next as int,
            end as int,
        ));
        assert(rem.subrange(3, 3 + length) =~= value@);
        let ghost before = tlvs@;
        let item = TypeLengthValue { kind, value };
        tlvs.push(item);
        assert(tlv_views(tlvs@) =~= tlv_views(before).push(item@));
        assert(parse_tlvs(input@.subrange(next as int, end as int)) matches Ok(rest) ==> tlv_views(
            tlvs@,
        ) + rest =~= tlv_views(before) + (seq![item@] + rest));
        off = next;
    }
    assert(input@.subrange(off as int, end as int) =~= seq![]);
    assert(tlv_views(tlvs@) + seq![] =~= tlv_views(tlvs@));
    Ok(tlvs)
}

/// Reads the address block of the family whose nibble is `family`.
fn decode_addresses(input: &[u8], family: u8) -> (r: Addresses)
    requires
        family <= 3,
        MINIMUM_LENGTH + family_block_length(family) <= input@.len(),
    ensures
        address_bytes(r@) == input@.subrange(16, 16 + family_block_length(family) as int),
        family_nibble(family_of(r@)) == family,
        r@ matches AddressesView::Unix(s, d) ==> s.len() == UNIX_PATH_LENGTH && d.len()
            == UNIX_PATH_LENGTH,
{
    let addresses = if family == 1 {
        Addresses::IPv4(
            IPv4 {
                source_address: read_octets(input, 16),
                destination_address: read_octets(input, 20),
                source_port: read_u16(input, 24),
                destination_port: read_u16(input, 26),
            },
        )
    } else if family == 2 {
        Addresses::IPv6(
            IPv6 {
                source_address: read_segments(input, 16),
                destination_address: read_segments(input, 32),
                source_port: read_u16(input, 48),
                destination_port: read_u16(input, 50),
            },
        )
    } else if family == 3 {
        Addresses::Unix(
            Unix {
                source: copy_range(input, 16, 16 + UNIX_PATH_LENGTH),
                destination: copy_range(input, 16 + UNIX_PATH_LENGTH, 16 + 2 * UNIX_PATH_LENGTH),
            },
        )
    } else {
        Addresses::Unspecified
    };
    assert(address_bytes(addresses@) =~= input@.subrange(16, 16 + family_block_length(family) as int));
    addresses
}

/// The bytes of a header, assembled from the parts that decoding checks.
proof fn lemma_header_bytes(h: HeaderView, s: Seq<u8>)
    requires
        s.len() >= MINIMUM_LENGTH + declared_length(h),
        s.subrange(0, 12) == signature(),
        s[12] == 0x20 + command_nibble(h.command),
        s[13] == 16 * family_nibble(family_of(h.addresses)) + protocol_nibble(h.protocol),
        declared_in(s) == declared_length(h),
        address_bytes(h.addresses) == s.subrange(16, 16 + address_bytes(h.addresses).len() as int),
        tlv_bytes(h.tlvs) == s.subrange(
            16 + address_bytes(h.addresses).len() as int,
            16 + declared_length(h) as int,
        ),
    ensures
        header_bytes(h) == s.subrange(0, MINIMUM_LENGTH + declared_length(h) as int),
{
    assert(be16(declared_length(h) as int) =~= s.subrange(14, 16));
    assert(header_bytes(h) =~= s.subrange(0, MINIMUM_LENGTH + declared_length(h) as int));
}

/// Decodes one binary header at the start of `input`.
///
/// On success returns the header and the number of bytes it takes up: the
/// 16 fixed bytes plus the declared length. Bytes after that are left alone.
/// The header returned is the one whose bytes are exactly that prefix.
pub fn decode(input: &[u8]) -> (r: Result<(Header, usize), ParseError>)
    ensures
        match r {
            Ok((h, n)) => {
                &&& decode_error(input@) is None
                &&& n == MINIMUM_LENGTH + declared_in(input@)
                &&& header_bytes(h@) == input@.subrange(0, n as int)
                &&& header_wf(h@)
            },
            Err(e) => decode_error(input@) == Some(e),
        },
{
    let len = input.len();
    if len < MINIMUM_LENGTH {
        return Err(ParseError::Incomplete(len));
    }
    let sig: [u8; 12] = [13, 10, 13, 10, 0, 13, 10, 81, 85, 73, 84, 10];
    assert(sig@ =~= signature());
    let mut i: usize = 0;
    while i < SIGNATURE_LENGTH
        invariant
            i <= SIGNATURE_LENGTH,
            len == input@.len(),
            len >= MINIMUM_LENGTH,
            sig@ == signature(),
            forall|j: int| 0 <= j < i ==> input@[j] == signature()[j],
        decreases SIGNATURE_LENGTH - i,
    {
        if input[i] != sig[i] {
            assert(input@.subrange(0, 12)[i as int] != signature()[i as int]);
            return Err(ParseError::Prefix);
        }
        i = i + 1;
    }
    assert(input@.subrange(0, 12) =~= signature());
    let version_command = input[12];
    let command = match parse_version_command(version_command) {
        Ok(c) => c,
        Err(e) => {
            return Err(e);
        },
    };
    let family_protocol = input[13];
    let family = family_protocol / 16;
    if family > 3 {
        return Err(ParseError::AddressFamily(family));
    }
    let protocol = match family_protocol % 16 {
        0 => Protocol::Unspecified,
        1 => Protocol::Stream,
        2 => Protocol::Datagram,
        p => {
            return Err(ParseError::Protocol(p));
        },
    };
    let declared = read_u16(input, 14) as usize;
    if len - MINIMUM_LENGTH < declared {
        return Err(ParseError::Partial(len - MINIMUM_LENGTH, declared));
    }
    let block: usize = if family == 1 {
        12
    } else if family == 2 {
        36
    } else if family == 3 {
        216
    } else {
        0
    };
    if declared < block {
        return Err(ParseError::InvalidAddresses(declared, block));
    }
    let end = MINIMUM_LENGTH + declared;
    let addresses = decode_addresses(input, family);
    let start = MINIMUM_LENGTH + block;
    let ghost region = input@.subrange(start as int, end as int);
    assert(decode_error(input@) == match parse_tlvs(region) {
        Ok(_) => None,
        Err(e) => Some(e),
    });
    let tlvs = match decode_tlvs(input, start, end) {
        Ok(t) => t,
        Err(e) => {
            return Err(e);
        },
    };
    proof {
        lemma_parse_tlvs_bytes(region);
    }
    let h = Header { command, protocol, addresses, tlvs };
    assert forall|i: int| 0 <= i < h@.tlvs.len() implies #[trigger] h@.tlvs[i].1.len() <= 0xffff by {}
    assert(declared_length(h@) == declared);
    assert(family_protocol == 16 * family + protocol_nibble(protocol));
    proof {
        lemma_header_bytes(h@, input@);
    }
    Ok((h, end))
}

/// Appends the bytes of `b` to `out`.
fn push_bytes(out: &mut Vec<u8>, b: &[u8])
    ensures
        final(out)@ == old(out)@ + b@,
{
    let mut i: usize = 0;
    while i < b.len()
        invariant
            i <= b@.len(),
            out@ == old(out)@ + b@.subrange(0, i as int),
        decreases b@.len() - i,
    {
        out.push(b[i]);
        i = i + 1;
        assert(out@ =~= old(out)@ + b@.subrange(0, i as int));
    }
    assert(b@.subrange(0, i as int) =~= b@);
}

/// Appends a 16-bit integer in network order to `out`.
fn push_u16(out: &mut Vec<u8>, v: u16)
    ensures
        final(out)@ == old(out)@ + be16(v as int),
{
    out.push((v / 256) as u8);
    out.push((v % 256) as u8);
    assert(out@ =~= old(out)@ + be16(v as int));
}

/// Appends the bytes of an IPv6 address to `out`.
fn push_segments(out: &mut Vec<u8>, a: &Ipv6Segments)
    ensures
        final(out)@ == old(out)@ + segment_bytes(*a),
{
    let mut k: usize = 0;
    while k < 8
        invariant
            k <= 8,
            out@ == old(out)@ + segment_bytes(*a).subrange(0, 2 * k as int),
        decreases 8 - k,
    {
        push_u16(out, a[k]);
        k = k + 1;
        assert(out@ =~= old(out)@ + segment_bytes(*a).subrange(0, 2 * k as int));
    }
    assert(segment_bytes(*a).subrange(0, 16) =~= segment_bytes(*a));
}

/// Appends the bytes of an address block to `out`.
fn push_addresses(out: &mut Vec<u8>, a: &Addresses)
    ensures
        final(out)@ == old(out)@ + address_bytes(a@),
{
    match a {
        Addresses::Unspecified => {
            assert(out@ =~= old(out)@ + address_bytes(a@));
        },
        Addresses::IPv4(p) => {
            push_bytes(out, p.source_address.as_slice());
            push_bytes(out, p.destination_address.as_slice());
            push_u16(out, p.source_port);
            push_u16(out, p.destination_port);
            assert(out@ =~= old(out)@ + address_bytes(a@));
        },
        Addresses::IPv6(p) => {
            push_segments(out, &p.source_address);
            push_segments(out, &p.destination_address);
            push_u16(out, p.source_port);
            push_u16(out, p.destination_port);
            assert(out@ =~= old(out)@ + address_bytes(a@));
        },
        Addresses::Unix(u) => {
            push_bytes(out, u.source.as_slice());
            push_bytes(out, u.destination.as_slice());
            assert(out@ =~= old(out)@ + address_bytes(a@));
        },
    }
}

/// Encodes a binary header: the signature, the version and command, the
/// family and protocol, the declared length, the address block and then
/// each TLV record in order.
pub fn encode(h: &Header) -> (r: Vec<u8>)
    requires
        header_wf(h@),
    ensures
        r@ == header_bytes(h@),
        r@.len() == MINIMUM_LENGTH + declared_length(h@),
{
    let mut body: Vec<u8> = Vec::new();
    push_addresses(&mut body, &h.addresses);
    let mut i: usize = 0;
    while i < h.tlvs.len()
        invariant
            i <= h.tlvs@.len(),
            header_wf(h@),
            body@ == address_bytes(h@.addresses) + tlv_bytes(
                tlv_views(h.tlvs@.subrange(0, i as int)),
            ),
        decreases h.tlvs@.len() - i,
    {
        let t = &h.tlvs[i];
        assert(h@.tlvs[i as int] == t@);
        let ghost before = body@;
        body.push(t.kind);
        push_u16(&mut body, t.value.len() as u16);
        push_bytes(&mut body, t.value.as_slice());
        proof {
            let done = tlv_views(h.tlvs@.subrange(0, i as int));
            lemma_tlv_bytes_push(done, t@);
            assert(tlv_views(h.tlvs@.subrange(0, i + 1)) =~= done.push(t@));
        }
        i = i + 1;
        assert(body@ =~= address_bytes(h@.addresses) + tlv_bytes(
            tlv_views(h.tlvs@.subrange(0, i as int)),
        ));
    }
    assert(h.tlvs@.subrange(0, i as int) =~= h.tlvs@);
    let sig: [u8; 12] = [13, 10, 13, 10, 0, 13, 10, 81, 85, 73, 84, 10];
    assert(sig@ =~= signature());
    let command: u8 = match h.command {
        Command::Local => 0,
        Command::Proxy => 1,
    };
    let family: u8 = match h.addresses {
        Addresses::Unspecified => 0,
        Addresses::IPv4(_) => 1,
        Addresses::IPv6(_) => 2,
        Addresses::Unix(_) => 3,
    };
    let protocol: u8 = match h.protocol {
        Protocol::Unspecified => 0,
        Protocol::Stream => 1,
        Protocol::Datagram => 2,
    };
    let mut out: Vec<u8> = Vec::with_capacity(MINIMUM_LENGTH + body.len());
    push_bytes(&mut out, sig.as_slice());
    out.push(0x20 + command);
    out.push(16 * family + protocol);
    push_u16(&mut out, body.len() as u16);
    push_bytes(&mut out, body.as_slice());
    assert(out@ =~= header_bytes(h@));
    out
}

/// Two well-formed headers with the same bytes are the same header.
pub proof fn lemma_header_bytes_injective(h1: HeaderView, h2: HeaderView)
    requires
        header_wf(h1),
        header_wf(h2),
        header_bytes(h1) == header_bytes(h2),
    ensures
        h1 == h2,
{
    let b = header_bytes(h1);
    assert(b[12] == header_bytes(h2)[12]);
    assert(b[13] == header_bytes(h2)[13]);
    assert(b[14] == header_bytes(h2)[14]);
    assert(b[15] == header_bytes(h2)[15]);
    assert(h1.command == h2.command);
    assert(h1.protocol == h2.protocol);
    assert(family_of(h1.addresses) == family_of(h2.addresses));
    assert(declared_length(h1) == declared_length(h2));
    let a1 = address_bytes(h1.addresses);
    let a2 = address_bytes(h2.addresses);
    assert(a1.len() == a2.len());
    assert(a1 =~= b.subrange(16, 16 + a1.len() as int));
    assert(a2 =~= header_bytes(h2).subrange(16, 16 + a2.len() as int));
    assert(a1 == a2);
    match (h1.addresses, h2.addresses) {
        (AddressesView::IPv4(p1), AddressesView::IPv4(p2)) => {
            assert(p1.source_address@ =~= a1.subrange(0, 4));
            assert(p2.source_address@ =~= a2.subrange(0, 4));
            assert(p1.destination_address@ =~= a1.subrange(4, 8));
            assert(p2.destination_address@ =~= a2.subrange(4, 8));
            assert(p1.source_address == p2.source_address);
            assert(p1.destination_address == p2.destination_address);
            assert(a1[8] == a2[8] && a1[9] == a2[9] && a1[10] == a2[10] && a1[11] == a2[11]);
            assert(p1 == p2);
        },
        (AddressesView::IPv6(p1), AddressesView::IPv6(p2)) => {
            assert(segment_bytes(p1.source_address) =~= a1.subrange(0, 16));
            assert(segment_bytes(p2.source_address) =~= a2.subrange(0, 16));
            assert(segment_bytes(p1.destination_address) =~= a1.subrange(16, 32));
            assert(segment_bytes(p2.destination_address) =~= a2.subrange(16, 32));
            assert forall|k: int| 0 <= k < 8 implies p1.source_address[k] == p2.source_address[k]
                && p1.destination_address[k] == p2.destination_address[k] by {
                assert(segment_bytes(p1.source_address)[2 * k] == segment_bytes(
                    p2.source_address,
                )[2 * k]);
                assert(segment_bytes(p1.source_address)[2 * k + 1] == segment_bytes(
                    p2.source_address,
                )[2 * k + 1]);
                assert(segment_bytes(p1.destination_address)[2 * k] == segment_bytes(
                    p2.destination_address,
                )[2 * k]);
                assert(segment_bytes(p1.destination_address)[2 * k + 1] == segment_bytes(
                    p2.destination_address,
                )[2 * k + 1]);
            }
            assert(p1.source_address@ =~= p2.source_address@);
            assert(p1.destination_address@ =~= p2.destination_address@);
            assert(p1.source_address == p2.source_address);
            assert(p1.destination_address == p2.destination_address);
            assert(a1[32] == a2[32] && a1[33] == a2[33] && a1[34] == a2[34] && a1[35] == a2[35]);
            assert(p1 == p2);
        },
        (AddressesView::Unix(s1, d1), AddressesView::Unix(s2, d2)) => {
            assert(s1 =~= a1.subrange(0, 108));
            assert(s2 =~= a2.subrange(0, 108));
            assert(d1 =~= a1.subrange(108, 216));
            assert(d2 =~= a2.subrange(108, 216));
        },
        _ => {},
    }
    assert(h1.addresses == h2.addresses);
    let start = 16 + a1.len() as int;
    let end = 16 + declared_length(h1) as int;
    assert(tlv_bytes(h1.tlvs) =~= b.subrange(start, end));
    assert(tlv_bytes(h2.tlvs) =~= header_bytes(h2).subrange(start, end));
    lemma_tlv_bytes_parse(h1.tlvs);
    lemma_tlv_bytes_parse(h2.tlvs);
}

/// Decoding what `encode` writes gives back the header, whatever follows it:
/// the bytes of a well-formed header hold no error, declare exactly the
/// header's own length, and are the bytes of no other well-formed header.
pub proof fn lemma_decode_encode(h: HeaderView, rest: Seq<u8>)
    requires
        header_wf(h),
    ensures
        decode_error(header_bytes(h) + rest) is None,
        MINIMUM_LENGTH + declared_in(header_bytes(h) + rest) == header_bytes(h).len(),
        forall|h2: HeaderView|
            header_wf(h2) && #[trigger] header_bytes(h2) == header_bytes(h) ==> h2 == h,
{
    let b = header_bytes(h);
    let s = b + rest;
    let a = address_bytes(h.addresses);
    assert(s.subrange(0, 12) =~= signature());
    assert(s[12] == 0x20 + command_nibble(h.command));
    assert(s[13] == 16 * family_nibble(family_of(h.addresses)) + protocol_nibble(h.protocol));
    assert(declared_in(s) == declared_length(h));
    assert(a.len() == family_block_length(s[13] / 16));
    assert(s.subrange(16 + a.len() as int, 16 + declared_in(s)) =~= tlv_bytes(h.tlvs));
    lemma_tlv_bytes_parse(h.tlvs);
    assert forall|h2: HeaderView|
        header_wf(h2) && #[trigger] header_bytes(h2) == header_bytes(h) implies h2 == h by {
        lemma_header_bytes_injective(h2, h);
    }
}

/// A slice shorter than the fixed 16 bytes is always incomplete.
pub proof fn lemma_short_input_incomplete(s: Seq<u8>)
    requires
        s.len() < MINIMUM_LENGTH,
    ensures
        decode_error(s) == Some(ParseError::Incomplete(s.len() as usize)),
{
}

/// A slice whose 16 fixed bytes are valid but which holds fewer bytes than
/// they declare is always partial.
pub proof fn lemma_short_body_partial(s: Seq<u8>)
    requires
        s.len() >= MINIMUM_LENGTH,
        s.subrange(0, 12) == signature(),
        s[12] / 16 == 2 && s[12] % 16 <= 1,
        s[13] / 16 <= 3 && s[13] % 16 <= 2,
        s.len() - MINIMUM_LENGTH < declared_in(s),
    ensures
        decode_error(s) == Some(
            ParseError::Partial((s.len() - MINIMUM_LENGTH) as usize, declared_in(s) as usize),
        ),
{
}

} // verus!

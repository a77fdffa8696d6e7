use ppp::ip::{IPv4, IPv6};
use ppp::v2::{
    decode, encode, parse_version_command, Addresses, Command, Header, ParseError, Protocol,
    TypeLengthValue, Unix,
};

const SIGNATURE: [u8; 12] = [13, 10, 13, 10, 0, 13, 10, 81, 85, 73, 84, 10];

fn fixed(version_command: u8, family_protocol: u8, length: u16) -> Vec<u8> {
    let mut v = SIGNATURE.to_vec();
    v.push(version_command);
    v.push(family_protocol);
    v.extend_from_slice(&length.to_be_bytes());
    v
}

#[test]
fn short_input_is_incomplete() {
    for n in 0..16 {
        let input = fixed(0x21, 0x11, 0);
        assert_eq!(decode(&input[..n]), Err(ParseError::Incomplete(n)));
    }
}

#[test]
fn bad_signature() {
    let mut input = fixed(0x21, 0x11, 0);
    input[3] = 0;
    assert_eq!(decode(&input), Err(ParseError::Prefix));
}

#[test]
fn partial_ipv4_block() {
    let mut input = fixed(0x21, 0x11, 12);
    input.extend_from_slice(&[127, 0, 0, 1, 1]);
    assert_eq!(decode(&input), Err(ParseError::Partial(5, 12)));
}

#[test]
fn tlv_longer_than_region() {
    let mut input = fixed(0x21, 0x11, 17);
    input.extend_from_slice(&[127, 0, 0, 1, 127, 0, 0, 2, 0, 80, 1, 187]);
    input.extend_from_slice(&[1, 0, 10, 42, 43]);
    assert_eq!(decode(&input), Err(ParseError::InvalidTLV(1, 10)));
}

#[test]
fn leftover_bytes() {
    let mut input = fixed(0x21, 0x11, 14);
    input.extend_from_slice(&[127, 0, 0, 1, 127, 0, 0, 2, 0, 80, 1, 187]);
    input.extend_from_slice(&[1, 0]);
    assert_eq!(decode(&input), Err(ParseError::Leftovers(2)));
}

#[test]
fn version_and_command_errors() {
    assert_eq!(decode(&fixed(0x11, 0x11, 0)), Err(ParseError::Version(1)));
    assert_eq!(decode(&fixed(0x22, 0x11, 0)), Err(ParseError::Command(2)));
}

#[test]
fn family_and_protocol_errors() {
    assert_eq!(decode(&fixed(0x21, 0x41, 0)), Err(ParseError::AddressFamily(4)));
    assert_eq!(decode(&fixed(0x21, 0x13, 0)), Err(ParseError::Protocol(3)));
}

#[test]
fn declared_too_small_for_addresses() {
    let mut input = fixed(0x21, 0x21, 12);
    input.extend_from_slice(&[0; 12]);
    assert_eq!(decode(&input), Err(ParseError::InvalidAddresses(12, 36)));
}

#[test]
fn every_version_command_byte() {
    for b in 0..=255u8 {
        let r = parse_version_command(b);
        match (b >> 4, b & 0x0f) {
            (2, 0) => assert_eq!(r, Ok(Command::Local)),
            (2, 1) => assert_eq!(r, Ok(Command::Proxy)),
            (2, c) => assert_eq!(r, Err(ParseError::Command(c))),
            (v, _) => assert_eq!(r, Err(ParseError::Version(v))),
        }
    }
}

#[test]
fn local_unspecified() {
    let input = fixed(0x20, 0x00, 0);
    let (header, n) = decode(&input).unwrap();
    assert_eq!(n, 16);
    assert_eq!(header.command, Command::Local);
    assert_eq!(header.protocol, Protocol::Unspecified);
    assert_eq!(header.addresses, Addresses::Unspecified);
    assert!(header.tlvs.is_empty());
}

#[test]
fn ipv4_with_tlvs_and_payload() {
    let mut input = fixed(0x21, 0x12, 12 + 3 + 2 + 3);
    input.extend_from_slice(&[127, 0, 0, 1, 192, 168, 1, 1, 0x1f, 0x90, 0x01, 0xbb]);
    input.extend_from_slice(&[4, 0, 2, 0xaa, 0xbb, 5, 0, 0]);
    input.extend_from_slice(b"GET /");
    let (header, n) = decode(&input).unwrap();
    assert_eq!(n, 36);
    assert_eq!(header.command, Command::Proxy);
    assert_eq!(header.protocol, Protocol::Datagram);
    assert_eq!(
        header.addresses,
        Addresses::IPv4(IPv4::new([127, 0, 0, 1], [192, 168, 1, 1], 8080, 443))
    );
    assert_eq!(
        header.tlvs,
        vec![
            TypeLengthValue { kind: 4, value: vec![0xaa, 0xbb] },
            TypeLengthValue { kind: 5, value: vec![] },
        ]
    );
    assert_eq!(encode(&header), input[..n].to_vec());
}

#[test]
fn ipv6_header() {
    let mut input = fixed(0x21, 0x21, 36);
    for i in 0..16u8 {
        input.push(i);
    }
    for i in 0..16u8 {
        input.push(0xf0 + i);
    }
    input.extend_from_slice(&[0, 1, 0xff, 0xff]);
    let (header, n) = decode(&input).unwrap();
    assert_eq!(n, 52);
    assert_eq!(
        header.addresses,
        Addresses::IPv6(IPv6::new(
            [0x0001, 0x0203, 0x0405, 0x0607, 0x0809, 0x0a0b, 0x0c0d, 0x0e0f],
            [0xf0f1, 0xf2f3, 0xf4f5, 0xf6f7, 0xf8f9, 0xfafb, 0xfcfd, 0xfeff],
            1,
            65535
        ))
    );
}

#[test]
fn binary_round_trip() {
    let mut source = vec![0u8; 108];
    source[0] = b'/';
    let headers = vec![
        Header {
            command: Command::Local,
            protocol: Protocol::Unspecified,
            addresses: Addresses::Unspecified,
            tlvs: vec![],
        },
        Header {
            command: Command::Proxy,
            protocol: Protocol::Stream,
            addresses: Addresses::IPv4(IPv4::new([1, 2, 3, 4], [5, 6, 7, 8], 1000, 2000)),
            tlvs: vec![TypeLengthValue { kind: 0xee, value: vec![1; 300] }],
        },
        Header {
            command: Command::Proxy,
            protocol: Protocol::Datagram,
            addresses: Addresses::IPv6(IPv6::new([1; 8], [0xffff; 8], 0, 65535)),
            tlvs: vec![],
        },
        Header {
            command: Command::Proxy,
            protocol: Protocol::Stream,
            addresses: Addresses::Unix(Unix { source, destination: vec![0u8; 108] }),
            tlvs: vec![
                TypeLengthValue { kind: 1, value: vec![] },
                TypeLengthValue { kind: 2, value: vec![9, 8, 7] },
            ],
        },
    ];
    for h in headers {
        let mut bytes = encode(&h);
        let len = bytes.len();
        assert_eq!(len, 16 + u16::from_be_bytes([bytes[14], bytes[15]]) as usize);
        bytes.extend_from_slice(b"rest");
        let (decoded, n) = decode(&bytes).unwrap();
        assert_eq!(n, len);
        assert_eq!(decoded, h);
    }
}

#[test]
fn encoded_bytes_exact() {
    let h = Header {
        command: Command::Proxy,
        protocol: Protocol::Stream,
        addresses: Addresses::IPv4(IPv4::new([127, 0, 0, 1], [127, 0, 0, 2], 80, 443)),
        tlvs: vec![TypeLengthValue { kind: 3, value: vec![7] }],
    };
    let mut expected = fixed(0x21, 0x11, 16);
    expected.extend_from_slice(&[127, 0, 0, 1, 127, 0, 0, 2, 0, 80, 1, 187, 3, 0, 1, 7]);
    assert_eq!(encode(&h), expected);
}

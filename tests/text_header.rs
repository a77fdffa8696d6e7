use ppp::v1::{encode, parse, Addresses, Header, ParseError};

#[test]
fn unknown_header() {
    let input = "PROXY UNKNOWN\r\n";
    let header = parse(input).unwrap();
    assert_eq!(header, Header::new(input, Addresses::Unknown));
    assert_eq!(header.protocol(), "UNKNOWN");
    assert_eq!(header.addresses(), "");
}

#[test]
fn unknown_header_leaves_following_bytes() {
    let header = parse("PROXY UNKNOWN\r\nhello").unwrap();
    assert_eq!(header, Header::new("PROXY UNKNOWN\r\n", Addresses::Unknown));
    assert_eq!(header.header.len(), 15);
}

#[test]
fn unknown_header_ignores_trailing_text() {
    let input = "PROXY UNKNOWN ffff::1 ffff::2 8000 443\r\n";
    let header = parse(input).unwrap();
    assert_eq!(header.addresses, Addresses::Unknown);
    assert_eq!(header.addresses(), "ffff::1 ffff::2 8000 443");
}

#[test]
fn tcp4_header() {
    let input = "PROXY TCP4 127.0.1.2 192.168.1.101 80 443\r\n";
    let header = parse(input).unwrap();
    assert_eq!(
        header,
        Header::new(input, Addresses::new_tcp4([127, 0, 1, 2], [192, 168, 1, 101], 80, 443))
    );
    assert_eq!(header.protocol(), "TCP4");
    assert_eq!(header.addresses(), "127.0.1.2 192.168.1.101 80 443");
}

#[test]
fn tcp6_header() {
    let input = "PROXY TCP6 1234:5678:90ab:cdef:fedc:ba09:8765:4321 4321:8765:ba09:fedc:cdef:90ab:5678:1234 443 65535\r\n";
    let header = parse(input).unwrap();
    assert_eq!(
        header,
        Header::new(
            input,
            Addresses::new_tcp6(
                [0x1234, 0x5678, 0x90AB, 0xCDEF, 0xFEDC, 0xBA09, 0x8765, 0x4321],
                [0x4321, 0x8765, 0xBA09, 0xFEDC, 0xCDEF, 0x90AB, 0x5678, 0x1234],
                443,
                65535
            )
        )
    );
    assert_eq!(header.protocol(), "TCP6");
    assert_eq!(
        header.addresses(),
        "1234:5678:90ab:cdef:fedc:ba09:8765:4321 4321:8765:ba09:fedc:cdef:90ab:5678:1234 443 65535"
    );
}

#[test]
fn accessors_agree_in_any_order() {
    let input = "PROXY TCP4 10.0.0.1 10.0.0.2 1 2\r\n";
    let header = parse(input).unwrap();
    let a1 = header.addresses();
    let p1 = header.protocol();
    let p2 = header.protocol();
    let a2 = header.addresses();
    assert_eq!(a1, a2);
    assert_eq!(p1, p2);
    assert_eq!(&input[6..10], p1);
}

#[test]
fn lowercase_protocol_is_invalid() {
    assert_eq!(parse("PROXY tcp4\r\n"), Err(ParseError::InvalidProtocol));
    assert_eq!(
        parse("PROXY tcp4 127.0.1.2 192.168.1.101 80 443\r\n"),
        Err(ParseError::InvalidProtocol)
    );
    assert_eq!(parse("PROXY unknown\r\n"), Err(ParseError::InvalidProtocol));
}

#[test]
fn invalid_prefix() {
    assert_eq!(parse("PROX"), Err(ParseError::InvalidPrefix));
    assert_eq!(parse("proxy UNKNOWN\r\n"), Err(ParseError::InvalidPrefix));
}

#[test]
fn missing_terminator() {
    assert_eq!(parse("PROXY UNKNOWN"), Err(ParseError::MissingTerminator));
    assert_eq!(parse("PROXY TCP4 1.2.3.4 5.6.7.8 80 443\n"), Err(ParseError::MissingTerminator));
}

#[test]
fn missing_separator() {
    assert_eq!(parse("PROXYUNKNOWN\r\n"), Err(ParseError::MissingSeparator));
    assert_eq!(parse("PROXY TCP4\r\n"), Err(ParseError::MissingSeparator));
    assert_eq!(parse("PROXY TCP4 1.2.3.4 5.6.7.8 80\r\n"), Err(ParseError::MissingSeparator));
}

#[test]
fn invalid_address() {
    assert_eq!(parse("PROXY TCP4 1.2.3 5.6.7.8 80 443\r\n"), Err(ParseError::InvalidAddress));
    assert_eq!(parse("PROXY TCP4 1.2.3.256 5.6.7.8 80 443\r\n"), Err(ParseError::InvalidAddress));
    assert_eq!(parse("PROXY TCP4 1.2.3.04 5.6.7.8 80 443\r\n"), Err(ParseError::InvalidAddress));
    assert_eq!(
        parse("PROXY TCP6 1.2.3.4 5.6.7.8 80 443\r\n"),
        Err(ParseError::InvalidAddress)
    );
    assert_eq!(
        parse("PROXY TCP4 1:2:3:4:5:6:7:8 1:2:3:4:5:6:7:8 80 443\r\n"),
        Err(ParseError::InvalidAddress)
    );
}

#[test]
fn invalid_port() {
    assert_eq!(parse("PROXY TCP4 1.2.3.4 5.6.7.8 65536 443\r\n"), Err(ParseError::InvalidPort));
    assert_eq!(parse("PROXY TCP4 1.2.3.4 5.6.7.8 080 443\r\n"), Err(ParseError::InvalidPort));
    assert_eq!(parse("PROXY TCP4 1.2.3.4 5.6.7.8 80 443 x\r\n"), Err(ParseError::InvalidPort));
    assert_eq!(parse("PROXY TCP4 1.2.3.4 5.6.7.8 80 \r\n"), Err(ParseError::InvalidPort));
}

#[test]
fn zero_port_and_extremes() {
    let header = parse("PROXY TCP4 0.0.0.0 255.255.255.255 0 65535\r\n").unwrap();
    assert_eq!(
        header.addresses,
        Addresses::new_tcp4([0, 0, 0, 0], [255, 255, 255, 255], 0, 65535)
    );
}

#[test]
fn uppercase_hex_groups() {
    let header = parse("PROXY TCP6 ABCD:0:0:0:0:0:0:1 0:0:0:0:0:0:0:0 1 2\r\n").unwrap();
    assert_eq!(
        header.addresses,
        Addresses::new_tcp6([0xabcd, 0, 0, 0, 0, 0, 0, 1], [0; 8], 1, 2)
    );
}

#[test]
fn encode_unknown() {
    assert_eq!(encode(&Addresses::Unknown), b"PROXY UNKNOWN\r\n".to_vec());
}

#[test]
fn encode_tcp4() {
    let a = Addresses::new_tcp4([127, 0, 1, 2], [192, 168, 1, 101], 80, 443);
    assert_eq!(encode(&a), b"PROXY TCP4 127.0.1.2 192.168.1.101 80 443\r\n".to_vec());
}

#[test]
fn encode_tcp6() {
    let a = Addresses::new_tcp6([0xabcd, 0, 0, 0, 0, 0, 0, 1], [0x1234, 0x5678, 0, 0, 0, 0, 0, 0xff], 0, 65535);
    assert_eq!(
        encode(&a),
        b"PROXY TCP6 abcd:0:0:0:0:0:0:1 1234:5678:0:0:0:0:0:ff 0 65535\r\n".to_vec()
    );
}

#[test]
fn text_round_trip() {
    let cases = vec![
        Addresses::Unknown,
        Addresses::new_tcp4([1, 20, 255, 0], [10, 0, 0, 9], 0, 65535),
        Addresses::new_tcp6([0, 1, 0x10, 0x100, 0x1000, 0xffff, 0xa, 0xb], [7; 8], 8080, 1),
    ];
    for a in cases {
        let bytes = encode(&a);
        let text = String::from_utf8(bytes).unwrap();
        let header = parse(&text).unwrap();
        assert_eq!(header.addresses, a);
        assert_eq!(header.header, text.as_str());
    }
}

#[test]
fn default_addresses_are_unknown() {
    assert_eq!(Addresses::default(), Addresses::Unknown);
}

#[test]
fn compressed_ipv6_addresses() {
    let header = parse("PROXY TCP6 ::1 ::ffff 80 443\r\n").unwrap();
    assert_eq!(
        header.addresses,
        Addresses::new_tcp6([0, 0, 0, 0, 0, 0, 0, 1], [0, 0, 0, 0, 0, 0, 0, 0xffff], 80, 443)
    );
    let header = parse("PROXY TCP6 :: 1::2:3 1 2\r\n").unwrap();
    assert_eq!(
        header.addresses,
        Addresses::new_tcp6([0; 8], [1, 0, 0, 0, 0, 0, 2, 3], 1, 2)
    );
    let header = parse("PROXY TCP6 1:2:3:4:5:6:7:: fe80::1 1 2\r\n").unwrap();
    assert_eq!(
        header.addresses,
        Addresses::new_tcp6([1, 2, 3, 4, 5, 6, 7, 0], [0xfe80, 0, 0, 0, 0, 0, 0, 1], 1, 2)
    );
}

#[test]
fn malformed_compressed_ipv6_addresses() {
    for bad in ["1::2::3", "1:2:3:4:5:6:7:8::", ":::", "1:2:3:4:5:6:7::8", "12345::", "1:2:3"] {
        let input = format!("PROXY TCP6 {} ::1 80 443\r\n", bad);
        assert_eq!(parse(&input), Err(ParseError::InvalidAddress), "{}", bad);
    }
}

use tapctl::mac::format_mac;
use tapctl::mac::generate_random_mac;
use tapctl::mac::parse_mac_address;
use tapctl::mac::HexPartFault;
use tapctl::mac::MacParseError;

#[test]
fn parses_colon_separated() {
    let r = parse_mac_address("0a:0b:0c:0d:0e:0f");
    assert_eq!(r, Ok([0x0a, 0x0b, 0x0c, 0x0d, 0x0e, 0x0f]));
}

#[test]
fn parses_hyphen_separated() {
    let r = parse_mac_address("0a-0b-0c-0d-0e-0f");
    assert_eq!(r, Ok([0x0a, 0x0b, 0x0c, 0x0d, 0x0e, 0x0f]));
}

#[test]
fn parses_mixed_separators() {
    let r = parse_mac_address("0a:0b-0c:0d-0e:0f");
    assert_eq!(r, Ok([0x0a, 0x0b, 0x0c, 0x0d, 0x0e, 0x0f]));
}

#[test]
fn parses_uppercase_digits() {
    let r = parse_mac_address("AA:BB:CC:DD:EE:FF");
    assert_eq!(r, Ok([0xaa, 0xbb, 0xcc, 0xdd, 0xee, 0xff]));
}

#[test]
fn parses_single_digit_groups() {
    let r = parse_mac_address("a:b:c:d:e:f");
    assert_eq!(r, Ok([0x0a, 0x0b, 0x0c, 0x0d, 0x0e, 0x0f]));
}

#[test]
fn parses_groups_with_leading_zeros() {
    let r = parse_mac_address("0ff:00:01:02:03:04");
    assert_eq!(r, Ok([0xff, 0x00, 0x01, 0x02, 0x03, 0x04]));
}

#[test]
fn rejects_too_few_groups() {
    let r = parse_mac_address("0a:0b:0c:0d:0e");
    assert_eq!(r, Err(MacParseError::InvalidFormat { group_count: 5 }));
}

#[test]
fn rejects_too_many_groups() {
    let r = parse_mac_address("0a:0b:0c:0d:0e:0f:00");
    assert_eq!(r, Err(MacParseError::InvalidFormat { group_count: 7 }));
}

#[test]
fn rejects_empty_string() {
    let r = parse_mac_address("");
    assert_eq!(r, Err(MacParseError::InvalidFormat { group_count: 1 }));
}

#[test]
fn rejects_trailing_separator() {
    let r = parse_mac_address("0a:0b:0c:0d:0e:0f:");
    assert_eq!(r, Err(MacParseError::InvalidFormat { group_count: 7 }));
}

#[test]
fn rejects_non_hex_group_naming_it() {
    let r = parse_mac_address("0a:0b:zz:0d:0e:0f");
    assert_eq!(
        r,
        Err(MacParseError::InvalidHexPart {
            index: 2,
            part: String::from("zz"),
            fault: HexPartFault::NotHexDigit,
        })
    );
}

#[test]
fn rejects_first_offending_group() {
    let r = parse_mac_address("xx:yy:0c:0d:0e:0f");
    assert_eq!(
        r,
        Err(MacParseError::InvalidHexPart {
            index: 0,
            part: String::from("xx"),
            fault: HexPartFault::NotHexDigit,
        })
    );
}

#[test]
fn rejects_empty_group() {
    let r = parse_mac_address("0a::0c:0d:0e:0f");
    assert_eq!(
        r,
        Err(MacParseError::InvalidHexPart {
            index: 1,
            part: String::from(""),
            fault: HexPartFault::EmptyPart,
        })
    );
}

#[test]
fn rejects_overlarge_group() {
    let r = parse_mac_address("100:0b:0c:0d:0e:0f");
    assert_eq!(
        r,
        Err(MacParseError::InvalidHexPart {
            index: 0,
            part: String::from("100"),
            fault: HexPartFault::ValueTooLarge,
        })
    );
}

#[test]
fn rejects_digit_fault_before_overflow() {
    let r = parse_mac_address("ffg:0b:0c:0d:0e:0f");
    assert_eq!(
        r,
        Err(MacParseError::InvalidHexPart {
            index: 0,
            part: String::from("ffg"),
            fault: HexPartFault::NotHexDigit,
        })
    );
}

#[test]
fn rejects_sign_characters() {
    let r = parse_mac_address("+a:0b:0c:0d:0e:0f");
    assert_eq!(
        r,
        Err(MacParseError::InvalidHexPart {
            index: 0,
            part: String::from("+a"),
            fault: HexPartFault::NotHexDigit,
        })
    );
}

#[test]
fn rejects_non_ascii_group_naming_it() {
    let r = parse_mac_address("åå:0b:0c:0d:0e:0f");
    assert_eq!(
        r,
        Err(MacParseError::InvalidHexPart {
            index: 0,
            part: String::from("åå"),
            fault: HexPartFault::NotHexDigit,
        })
    );
}

#[test]
fn formats_lowercase_colon_joined() {
    let s = format_mac(&[0x0a, 0x1b, 0x2c, 0x3d, 0x4e, 0x5f]);
    assert_eq!(s, "0a:1b:2c:3d:4e:5f");
}

#[test]
fn formats_zero_bytes_with_two_digits() {
    let s = format_mac(&[0, 0, 0, 0, 0, 0]);
    assert_eq!(s, "00:00:00:00:00:00");
}

#[test]
fn formats_extreme_bytes() {
    let s = format_mac(&[0xff, 0x00, 0x7f, 0x80, 0x01, 0xfe]);
    assert_eq!(s, "ff:00:7f:80:01:fe");
}

#[test]
fn round_trips_format_then_parse() {
    let cases: [[u8; 6]; 4] = [
        [0x0a, 0x0b, 0x0c, 0x0d, 0x0e, 0x0f],
        [0x00, 0x00, 0x00, 0x00, 0x00, 0x00],
        [0xff, 0xff, 0xff, 0xff, 0xff, 0xff],
        [0x12, 0x34, 0x56, 0x78, 0x9a, 0xbc],
    ];
    for mac in cases.iter() {
        let s = format_mac(mac);
        assert_eq!(parse_mac_address(&s), Ok(*mac));
    }
}

#[test]
fn random_macs_are_locally_administered_unicast() {
    for _ in 0..1000 {
        let mac = generate_random_mac();
        assert_eq!(mac[0] & 0x02, 0x02);
        assert_eq!(mac[0] & 0x01, 0x00);
    }
}

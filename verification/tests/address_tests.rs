use rpsl_ingest::addr::{
    parse_address, parse_range, read_hex_group, read_small_number, AddressRange, Family, RangeError,
};
use rpsl_ingest::number::{parse_decimal, parse_hex};

fn bounds(f: Family, text: &str) -> Result<(u128, u128), RangeError> {
    parse_range(f, text.as_bytes()).map(|r| (r.range_from(), r.range_to()))
}

#[test]
fn decimal_numbers() {
    assert_eq!(parse_decimal(b"0"), Some(0));
    assert_eq!(parse_decimal(b"007"), Some(7));
    assert_eq!(parse_decimal(b"999999999"), Some(999_999_999));
    assert_eq!(parse_decimal(b"1234567890"), None);
    assert_eq!(parse_decimal(b""), None);
    assert_eq!(parse_decimal(b"12a"), None);
    assert_eq!(parse_decimal(b"-1"), None);
    assert_eq!(parse_decimal(b" 1"), None);
}

#[test]
fn hexadecimal_numbers() {
    assert_eq!(parse_hex(b"0"), Some(0));
    assert_eq!(parse_hex(b"ff"), Some(255));
    assert_eq!(parse_hex(b"FfFf"), Some(65535));
    assert_eq!(parse_hex(b"fffffff"), Some(0x0fff_ffff));
    assert_eq!(parse_hex(b"10000000"), None);
    assert_eq!(parse_hex(b""), None);
    assert_eq!(parse_hex(b"g"), None);
    assert_eq!(read_hex_group(b"db8"), Some(0xdb8));
    assert_eq!(read_hex_group(b"0db8"), Some(0xdb8));
    assert_eq!(read_hex_group(b"00db8"), None);
}

#[test]
fn small_numbers_have_no_leading_zero() {
    assert_eq!(read_small_number(b"0", 255), Some(0));
    assert_eq!(read_small_number(b"255", 255), Some(255));
    assert_eq!(read_small_number(b"256", 255), None);
    assert_eq!(read_small_number(b"01", 255), None);
    assert_eq!(read_small_number(b"00", 255), None);
    assert_eq!(read_small_number(b"", 255), None);
    assert_eq!(read_small_number(b"1000", 4000), None);
    assert_eq!(read_small_number(b"128", 128), Some(128));
    assert_eq!(read_small_number(b"129", 128), None);
}

#[test]
fn ipv4_addresses() {
    assert_eq!(parse_address(Family::V4, b"10.0.0.0"), Some(167772160));
    assert_eq!(parse_address(Family::V4, b"192.168.1.77"), Some(3232235853));
    assert_eq!(parse_address(Family::V4, b"255.255.255.255"), Some(4294967295));
    assert_eq!(parse_address(Family::V4, b"0.0.0.0"), Some(0));
    assert_eq!(parse_address(Family::V4, b"256.0.0.0"), None);
    assert_eq!(parse_address(Family::V4, b"10.0.0"), None);
    assert_eq!(parse_address(Family::V4, b"10.0.0.0.0"), None);
    assert_eq!(parse_address(Family::V4, b"10.0.0."), None);
    assert_eq!(parse_address(Family::V4, b"10.00.0.1"), None);
    assert_eq!(parse_address(Family::V4, b"10.0.0.0 "), None);
    assert_eq!(parse_address(Family::V4, b""), None);
    assert_eq!(parse_address(Family::V4, b"::1"), None);
}

#[test]
fn ipv6_addresses() {
    assert_eq!(parse_address(Family::V6, b"::"), Some(0));
    assert_eq!(parse_address(Family::V6, b"::1"), Some(1));
    assert_eq!(parse_address(Family::V6, b"2001:db8::"), Some(42540766411282592856903984951653826560));
    assert_eq!(parse_address(Family::V6, b"2001:db8::1"), Some(42540766411282592856903984951653826561));
    assert_eq!(parse_address(Family::V6, b"1:2:3:4:5:6:7:8"), Some(5192455318486707404433266433261576));
    assert_eq!(
        parse_address(Family::V6, b"ffff:ffff:ffff:ffff:ffff:ffff:ffff:ffff"),
        Some(340282366920938463463374607431768211455)
    );
    assert_eq!(
        parse_address(Family::V6, b"2001:DB8:0:0:8:800:200C:417A"),
        Some(42540766411282592856906245548098208122)
    );
    assert_eq!(parse_address(Family::V6, b"1::"), Some(5192296858534827628530496329220096));
    assert_eq!(parse_address(Family::V6, b"1:2:3:4:5:6:7::"), Some(5192455318486707404433266433261568));
    assert_eq!(parse_address(Family::V6, b"fe80::1:2"), Some(338288524927261089654018896841347760130));
}

#[test]
fn malformed_ipv6_addresses() {
    assert_eq!(parse_address(Family::V6, b""), None);
    assert_eq!(parse_address(Family::V6, b":"), None);
    assert_eq!(parse_address(Family::V6, b":::"), None);
    assert_eq!(parse_address(Family::V6, b"1::2::3"), None);
    assert_eq!(parse_address(Family::V6, b"1:2:3:4:5:6:7"), None);
    assert_eq!(parse_address(Family::V6, b"1:2:3:4:5:6:7:8:9"), None);
    assert_eq!(parse_address(Family::V6, b"1:2:3:4:5:6:7:8::"), None);
    assert_eq!(parse_address(Family::V6, b"12345::"), None);
    assert_eq!(parse_address(Family::V6, b"g::"), None);
    assert_eq!(parse_address(Family::V6, b":1:2:3:4:5:6:7"), None);
    assert_eq!(parse_address(Family::V6, b"::ffff:1.2.3.4"), None);
    assert_eq!(parse_address(Family::V6, b"10.0.0.0"), None);
}

#[test]
fn crafted_inetnum_range() {
    assert_eq!(bounds(Family::V4, "10.0.0.0 - 10.0.0.255"), Ok((167772160, 167772415)));
}

#[test]
fn explicit_ranges() {
    assert_eq!(bounds(Family::V4, "10.0.0.0-10.0.0.255"), Ok((167772160, 167772415)));
    assert_eq!(bounds(Family::V4, "  10.0.0.0\t-   10.0.0.255 "), Ok((167772160, 167772415)));
    assert_eq!(bounds(Family::V4, "1.2.3.4 - 1.2.3.4"), Ok((16909060, 16909060)));
    assert_eq!(
        bounds(Family::V6, "2001:db8:: - 2001:db8::1"),
        Ok((42540766411282592856903984951653826560, 42540766411282592856903984951653826561))
    );
}

#[test]
fn inverted_ranges_are_refused() {
    assert_eq!(bounds(Family::V4, "10.0.0.255 - 10.0.0.0"), Err(RangeError::Inverted));
    assert_eq!(bounds(Family::V6, "::1 - ::"), Err(RangeError::Inverted));
}

#[test]
fn malformed_ranges_are_refused() {
    assert_eq!(bounds(Family::V4, ""), Err(RangeError::Malformed));
    assert_eq!(bounds(Family::V4, "10.0.0.0"), Err(RangeError::Malformed));
    assert_eq!(bounds(Family::V4, "10.0.0.0 - "), Err(RangeError::Malformed));
    assert_eq!(bounds(Family::V4, " - 10.0.0.0"), Err(RangeError::Malformed));
    assert_eq!(bounds(Family::V4, "10.0.0.0 - 10.0.0.1 - 10.0.0.2"), Err(RangeError::Malformed));
    assert_eq!(bounds(Family::V4, "10.0.0.0/33"), Err(RangeError::Malformed));
    assert_eq!(bounds(Family::V4, "10.0.0.0/"), Err(RangeError::Malformed));
    assert_eq!(bounds(Family::V4, "10.0.0.0/08"), Err(RangeError::Malformed));
    assert_eq!(bounds(Family::V4, "10.0.0/8"), Err(RangeError::Malformed));
    assert_eq!(bounds(Family::V4, "2001:db8::/32"), Err(RangeError::Malformed));
    assert_eq!(bounds(Family::V6, "2001:db8::/129"), Err(RangeError::Malformed));
    assert_eq!(bounds(Family::V6, "10.0.0.0 - 10.0.0.255"), Err(RangeError::Malformed));
}

#[test]
fn prefixes_cover_all_addresses_with_their_leading_bits() {
    assert_eq!(bounds(Family::V4, "192.168.1.77/24"), Ok((3232235776, 3232236031)));
    assert_eq!(bounds(Family::V4, "10.0.0.0/8"), Ok((167772160, 184549375)));
    assert_eq!(bounds(Family::V4, "0.0.0.0/0"), Ok((0, 4294967295)));
    assert_eq!(bounds(Family::V4, "1.2.3.4/32"), Ok((16909060, 16909060)));
    assert_eq!(bounds(Family::V4, "193.0.0.0 / 21"), Ok((3238002688, 3238004735)));
    assert_eq!(bounds(Family::V4, "10.20.30.40/31"), Ok((169090600, 169090601)));
    assert_eq!(
        bounds(Family::V6, "2001:db8::/32"),
        Ok((42540766411282592856903984951653826560, 42540766490510755371168322545197776895))
    );
    assert_eq!(bounds(Family::V6, "::/0"), Ok((0, 340282366920938463463374607431768211455)));
    assert_eq!(
        bounds(Family::V6, "2001:db8::1/128"),
        Ok((42540766411282592856903984951653826561, 42540766411282592856903984951653826561))
    );
    assert_eq!(
        bounds(Family::V6, "2001:db8:abcd:1234::/48"),
        Ok((42540766464452359329374990684406153216, 42540766464453568255194605313580859391))
    );
    assert_eq!(
        bounds(Family::V6, "2a00::/11"),
        Ok((55827575822966466661959896531774472192, 55993729322439581146072872414309515263))
    );
}

#[test]
fn ranges_are_ordered_and_fit_their_family() {
    assert_eq!(AddressRange::new(Family::V4, 5, 4), None);
    assert_eq!(AddressRange::new(Family::V4, 0, 4294967296), None);
    let r = AddressRange::new(Family::V4, 7, 4294967295).unwrap();
    assert_eq!((r.family(), r.range_from(), r.range_to()), (Family::V4, 7, 4294967295));
    let r = AddressRange::new(Family::V6, 0, u128::MAX).unwrap();
    assert_eq!((r.family(), r.range_from(), r.range_to()), (Family::V6, 0, u128::MAX));
    for text in ["10.0.0.0 - 10.0.0.255", "10.1.2.3/13", "0.0.0.0/0", "255.255.255.255/1"] {
        let r = parse_range(Family::V4, text.as_bytes()).unwrap();
        assert!(r.range_from() <= r.range_to());
        assert!(r.range_to() <= 0xffff_ffff);
    }
}

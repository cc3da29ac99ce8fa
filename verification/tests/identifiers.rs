use std::collections::HashSet;

use toytorrent::ident::{BlockRef, InfoHash, PeerId, PeerKey};
use toytorrent::net::{IpAddr, SocketAddr};
use toytorrent::number::{parse_u16, parse_u64};
use toytorrent::query::{
    decode_qs_any, hex_char, hex_chars, hex_digit_value, parse_qs_to_bytes, push_url_encoded, QsError,
};

#[test]
fn lib_peerid_hash_test() {
    let mut set: HashSet<PeerId> = HashSet::new();

    assert_eq!(true, set.insert([0; 20].into()));
    assert_eq!(false, set.insert([0; 20].into()));
    assert_eq!(1, set.len());
}

#[test]
fn mod_peerid_hash_test() {
    let mut set: HashSet<PeerId> = HashSet::new();

    assert_eq!(true, set.insert([0; 20].into()));
    assert_eq!(false, set.insert([0; 20].into()));
    assert_eq!(1, set.len());
}

#[test]
fn query_components_decode_to_exactly_n_bytes() {
    assert_eq!(Ok([97u8, 98, 99]), parse_qs_to_bytes::<3>("abc"));
    assert_eq!(Ok([0u8, 255, 0x5d]), parse_qs_to_bytes::<3>("%00%fF%5D"));
    assert_eq!(Ok([37u8, 43]), parse_qs_to_bytes::<2>("%25+"));
    assert_eq!(Ok([]), parse_qs_to_bytes::<0>(""));
    assert_eq!(
        Ok([
            0x75, 0x43, 0x9d, 0x5d, 0xe3, 0x43, 0x99, 0x9a, 0xb3, 0x77, 0xc6, 0x17, 0xc2, 0xc6,
            0x47, 0x90, 0x29, 0x56, 0xe2, 0x82
        ]),
        parse_qs_to_bytes::<20>("uC%9D%5D%E3C%99%9A%B3w%C6%17%C2%C6G%90%29V%E2%82")
    );
    assert_eq!(Err(QsError::TooFewCharacters), parse_qs_to_bytes::<3>("ab"));
    assert_eq!(Err(QsError::TooFewCharacters), parse_qs_to_bytes::<1>(""));
    assert_eq!(Err(QsError::TooManyCharacters), parse_qs_to_bytes::<3>("abcd"));
    assert_eq!(Err(QsError::TooManyCharacters), parse_qs_to_bytes::<0>("a"));
    assert_eq!(Err(QsError::BadEscape), parse_qs_to_bytes::<3>("%4"));
    assert_eq!(Err(QsError::BadEscape), parse_qs_to_bytes::<3>("%"));
    assert_eq!(Err(QsError::BadEscape), parse_qs_to_bytes::<3>("a%zzb"));
    assert_eq!(Err(QsError::BadEscape), parse_qs_to_bytes::<3>("%4\u{e9}"));
    assert_eq!(Err(QsError::NonAscii), parse_qs_to_bytes::<3>("a\u{e9}b"));
    assert_eq!(Err(QsError::NonAscii), parse_qs_to_bytes::<1>("\u{e9}"));
    assert_eq!("Too many characters", QsError::TooManyCharacters.message());
    assert_eq!("Too few characters", QsError::TooFewCharacters.message());
    assert_eq!(
        "Expected % to be followed by two hex characters",
        QsError::BadEscape.message()
    );
    assert_eq!("Unexpected non-ASCII character", QsError::NonAscii.message());
}

#[test]
fn bytes_are_percent_encoded_unless_alphanumeric() {
    let mut out = Vec::new();
    push_url_encoded(&mut out, &[b'a', b'Z', b'0', b'-', 0, 255, b' ', b'%', 0x5d]);
    assert_eq!(&b"aZ0%2d%00%ff%20%25%5d"[..], &out[..]);
    assert_eq!(b'a', hex_char(10));
    assert_eq!(b'9', hex_char(9));
    assert_eq!([b'0', b'f'], hex_chars(15));
    assert_eq!([b'f', b'0'], hex_chars(240));
    assert_eq!(Some(11), hex_digit_value(b'B'));
    assert_eq!(Some(11), hex_digit_value(b'b'));
    assert_eq!(None, hex_digit_value(b'g'));

    assert_eq!(Ok(vec![b'a', 0, b' ']), decode_qs_any(b"a%00%20"));
    assert_eq!(Ok(vec![]), decode_qs_any(b""));
    assert_eq!(Err(QsError::BadEscape), decode_qs_any(b"a%0"));
    assert_eq!(Err(QsError::NonAscii), decode_qs_any(&[b'a', 0x80]));
    let all: Vec<u8> = (0..=255u8).collect();
    let mut encoded = Vec::new();
    push_url_encoded(&mut encoded, &all);
    assert_eq!(Ok(all), decode_qs_any(&encoded));

    // Decoding what was encoded gives the bytes again.
    let all: Vec<u8> = (0..=255u8).collect();
    let mut encoded = Vec::new();
    push_url_encoded(&mut encoded, &all[..20]);
    let text = String::from_utf8(encoded).unwrap();
    assert_eq!(Ok(<[u8; 20]>::try_from(&all[..20]).unwrap()), parse_qs_to_bytes::<20>(&text));
}

#[test]
fn identifiers_from_query_strings_and_as_text() {
    let hash: InfoHash = "uC%9D%5D%E3C%99%9A%B3w%C6%17%C2%C6G%90%29V%E2%82".parse().unwrap();
    assert_eq!("75439d5de343999ab377c617c2c647902956e282", hash.to_hex());
    assert_eq!(20, hash.as_slice().len());
    assert_eq!(
        "000a0f10ff0000000000000000000000000000ab",
        InfoHash::from([0, 10, 15, 16, 255, 0, 0, 0, 0, 0, 0, 0, 0, 0, 0, 0, 0, 0, 0, 0xab]).to_hex()
    );
    assert_eq!(Err(QsError::TooFewCharacters), "abc".parse::<InfoHash>());
    assert_eq!(Err(QsError::TooManyCharacters), InfoHash::parse("aaaaaaaaaaaaaaaaaaaaa"));
    assert!(hash.same(&InfoHash::from_slice(hash.as_slice()).unwrap()));
    assert!(!hash.same(&InfoHash::from([0; 20])));
    assert_eq!(None, InfoHash::from_slice(b"short"));

    let id: PeerId = "-TR4050-mtwvc5ch9psu".parse().unwrap();
    assert_eq!(b"-TR4050-mtwvc5ch9psu", id.as_slice());
    assert_eq!("-TR4050-mtwvc5ch9psu", id.to_text());
    assert_eq!(Some(id), PeerId::from_slice(b"-TR4050-mtwvc5ch9psu"));
    assert_eq!(None, PeerId::from_slice(b"-TR4050-mtwvc5ch9ps"));
    assert_eq!(Err(QsError::TooFewCharacters), PeerId::parse("x"));
    assert_eq!("\u{fffd}", &PeerId::from([0xff; 20]).to_text()[..3]);

    let key = PeerKey::from_slice(b"CE09B16B");
    assert_eq!(b"CE09B16B", key.as_slice());
    assert_eq!("CE09B16B", key.to_text());
    assert_eq!(key, key.duplicate());
}

#[test]
fn a_created_peer_id_has_the_client_prefix() {
    let id = PeerId::create("tt", "0000");
    assert_eq!(b"-tt0000-", &id.as_slice()[..8]);
    assert_eq!(20, id.as_slice().len());
    let other = PeerId::create("tt", "0000");
    assert_eq!(b"-tt0000-", &other.as_slice()[..8]);

    let made = PeerId::assemble(b"tt", b"0000", &[1, 2, 3, 4, 5, 6, 7, 8, 9, 10, 11, 12]);
    assert_eq!(
        &[b'-', b't', b't', b'0', b'0', b'0', b'0', b'-', 1, 2, 3, 4, 5, 6, 7, 8, 9, 10, 11, 12][..],
        made.as_slice()
    );
    let long = PeerId::assemble(b"client", b"version-1.2.3.4.5", &[9; 12]);
    assert_eq!(b"-clientversion-1.2.3", long.as_slice());
    let short = PeerId::assemble(b"", b"", &[9; 12]);
    assert_eq!(
        &[b'-', b'-', 9, 9, 9, 9, 9, 9, 9, 9, 9, 9, 9, 9, 0, 0, 0, 0, 0, 0][..],
        short.as_slice()
    );
}

#[test]
fn block_references_are_three_big_endian_numbers() {
    let block = BlockRef::new(1, 0x01020304, 16384);
    assert_eq!([0, 0, 0, 1, 1, 2, 3, 4, 0, 0, 0x40, 0], block.to_be_bytes());
    assert_eq!([0, 0, 0, 1, 1, 2, 3, 4], block.to_be_bytes_without_len());
    assert_eq!(1, block.index());
    assert_eq!(0x01020304, block.begin());
    assert_eq!(16384, block.length());
    assert_eq!(block, BlockRef::from_be_bytes([0, 0, 0, 1, 1, 2, 3, 4, 0, 0, 0x40, 0]));
    assert_eq!(
        block,
        BlockRef::from_be_bytes_with_len([0, 0, 0, 1, 1, 2, 3, 4], 16384)
    );
    let high = BlockRef::new(u32::MAX, u32::MAX - 1, 0xfffefdfc);
    assert_eq!(u32::MAX, high.index());
    assert_eq!(u32::MAX - 1, high.begin());
    assert_eq!(0xfffefdfc, high.length());
    assert!(block.same(&BlockRef::new(1, 0x01020304, 16384)));
    assert!(!block.same(&high));
}

#[test]
fn numbers_in_query_strings() {
    assert_eq!(Some(0), parse_u64(b"0"));
    assert_eq!(Some(51413), parse_u64(b"51413"));
    assert_eq!(Some(7), parse_u64(b"+7"));
    assert_eq!(Some(7), parse_u64(b"007"));
    assert_eq!(Some(u64::MAX), parse_u64(b"18446744073709551615"));
    assert_eq!(None, parse_u64(b"18446744073709551616"));
    assert_eq!(None, parse_u64(b"99999999999999999999999999999999999999999999"));
    assert_eq!(None, parse_u64(b""));
    assert_eq!(None, parse_u64(b"+"));
    assert_eq!(None, parse_u64(b"-1"));
    assert_eq!(None, parse_u64(b"1 "));
    assert_eq!(None, parse_u64(b"1a"));
    assert_eq!(Some(65535), parse_u16(b"65535"));
    assert_eq!(None, parse_u16(b"65536"));
    assert_eq!(None, parse_u16(b""));
}

fn ip_text(ip: IpAddr) -> String {
    let mut out = Vec::new();
    ip.push_text(&mut out);
    String::from_utf8(out).unwrap()
}

#[test]
fn addresses_as_text() {
    assert_eq!(Some(IpAddr::V4(0x7f000001)), IpAddr::parse(b"127.0.0.1"));
    assert_eq!(Some(IpAddr::V4(0xffffffff)), IpAddr::parse(b"255.255.255.255"));
    assert_eq!(Some(IpAddr::V4(0)), IpAddr::parse(b"0.0.0.0"));
    assert_eq!(None, IpAddr::parse(b"256.0.0.1"));
    assert_eq!(None, IpAddr::parse(b"01.0.0.1"));
    assert_eq!(None, IpAddr::parse(b"1.0.0"));
    assert_eq!(None, IpAddr::parse(b"1.0.0.1."));
    assert_eq!(None, IpAddr::parse(b"1.0.0.1.5"));
    assert_eq!(None, IpAddr::parse(b"1..0.1"));
    assert_eq!(None, IpAddr::parse(b"1.0.0.1000"));
    assert_eq!(None, IpAddr::parse(b""));
    assert_eq!(None, IpAddr::parse(b"localhost"));
    assert_eq!("127.0.0.1", ip_text(IpAddr::V4(0x7f000001)));
    assert_eq!("10.200.3.255", ip_text(IpAddr::V4(0x0ac803ff)));

    let v6 = IpAddr::V6(0x20010db8_00000000_00000000_00000001);
    assert_eq!(Some(v6), IpAddr::parse(b"2001:db8:0:0:0:0:0:1"));
    assert_eq!(Some(v6), IpAddr::parse(b"2001:0DB8:0000:0:0:0:0:0001"));
    assert_eq!(Some(v6), IpAddr::parse(b"2001:db8::1"));
    assert_eq!("2001:db8::1", ip_text(v6));
    assert_eq!("2001:db8::1", v6.to_text());
    assert_eq!("1.2.3.4", IpAddr::V4(0x01020304).to_text());
    assert_eq!(
        Some(IpAddr::V6(u128::MAX)),
        IpAddr::parse(b"ffff:ffff:ffff:ffff:ffff:ffff:ffff:ffff")
    );
    assert_eq!(None, IpAddr::parse(b"1:2:3:4:5:6:7"));
    assert_eq!(None, IpAddr::parse(b"1:2:3:4:5:6:7:8:9"));
    assert_eq!(None, IpAddr::parse(b"1:2:3:4:5:6:7:12345"));
    assert_eq!(None, IpAddr::parse(b"1:2:3:4:5:6:7:g"));
    assert_eq!(None, IpAddr::parse(b"1:2:3:4:5:6:7:"));

    let addr = SocketAddr { ip: IpAddr::V4(1), port: 2 };
    assert_eq!(addr, SocketAddr { ip: IpAddr::V4(1), port: 2 });
    assert!(addr != SocketAddr { ip: IpAddr::V4(1), port: 3 });
}

fn v6(groups: [u16; 8]) -> IpAddr {
    let mut value: u128 = 0;
    for group in groups {
        value = (value << 16) | group as u128;
    }
    IpAddr::V6(value)
}

#[test]
fn version_6_addresses_are_read_and_written() {
    let valid: [(&str, [u16; 8], &str); 32] = [
        ("::", [0, 0, 0, 0, 0, 0, 0, 0], "::"),
        ("::1", [0, 0, 0, 0, 0, 0, 0, 1], "::1"),
        ("1::", [1, 0, 0, 0, 0, 0, 0, 0], "1::"),
        ("2001:db8::1", [0x2001, 0xdb8, 0, 0, 0, 0, 0, 1], "2001:db8::1"),
        (
            "2001:DB8:0:0:8:800:200C:417A",
            [0x2001, 0xdb8, 0, 0, 8, 0x800, 0x200c, 0x417a],
            "2001:db8::8:800:200c:417a",
        ),
        ("1:2:3:4:5:6:7:8", [1, 2, 3, 4, 5, 6, 7, 8], "1:2:3:4:5:6:7:8"),
        ("1:2:3:4:5:6:7::", [1, 2, 3, 4, 5, 6, 7, 0], "1:2:3:4:5:6:7:0"),
        ("::1:2:3:4:5:6:7", [0, 1, 2, 3, 4, 5, 6, 7], "0:1:2:3:4:5:6:7"),
        ("1::2:3:4:5:6:7", [1, 0, 2, 3, 4, 5, 6, 7], "1:0:2:3:4:5:6:7"),
        ("::2:3:4:5:6:7:8", [0, 2, 3, 4, 5, 6, 7, 8], "0:2:3:4:5:6:7:8"),
        ("1:2:3:4:5:6::8", [1, 2, 3, 4, 5, 6, 0, 8], "1:2:3:4:5:6:0:8"),
        (
            "1:2:3:4:5:6:1.2.3.4",
            [1, 2, 3, 4, 5, 6, 0x102, 0x304],
            "1:2:3:4:5:6:102:304",
        ),
        ("::ffff:1.2.3.4", [0, 0, 0, 0, 0, 0xffff, 0x102, 0x304], "::ffff:1.2.3.4"),
        (
            "0:0:0:0:0:ffff:102:304",
            [0, 0, 0, 0, 0, 0xffff, 0x102, 0x304],
            "::ffff:1.2.3.4",
        ),
        (
            "::FFFF:255.255.255.255",
            [0, 0, 0, 0, 0, 0xffff, 0xffff, 0xffff],
            "::ffff:255.255.255.255",
        ),
        ("::1.2.3.4", [0, 0, 0, 0, 0, 0, 0x102, 0x304], "::102:304"),
        ("1::1.2.3.4", [1, 0, 0, 0, 0, 0, 0x102, 0x304], "1::102:304"),
        (
            "::ffff:0:1.2.3.4",
            [0, 0, 0, 0, 0xffff, 0, 0x102, 0x304],
            "::ffff:0:102:304",
        ),
        (
            "64:ff9b::192.0.2.33",
            [0x64, 0xff9b, 0, 0, 0, 0, 0xc000, 0x221],
            "64:ff9b::c000:221",
        ),
        ("1:0:0:2:0:0:0:3", [1, 0, 0, 2, 0, 0, 0, 3], "1:0:0:2::3"),
        ("1:0:0:2:0:0:3:4", [1, 0, 0, 2, 0, 0, 3, 4], "1::2:0:0:3:4"),
        ("1:0:2:3:4:5:6:7", [1, 0, 2, 3, 4, 5, 6, 7], "1:0:2:3:4:5:6:7"),
        ("0:0:0:0:0:0:0:0", [0, 0, 0, 0, 0, 0, 0, 0], "::"),
        ("fe80::1", [0xfe80, 0, 0, 0, 0, 0, 0, 1], "fe80::1"),
        ("0:1::", [0, 1, 0, 0, 0, 0, 0, 0], "0:1::"),
        ("::0", [0, 0, 0, 0, 0, 0, 0, 0], "::"),
        ("a:b:c:d:e:f:0:0", [10, 11, 12, 13, 14, 15, 0, 0], "a:b:c:d:e:f::"),
        ("0:0:1:0:0:1:0:0", [0, 0, 1, 0, 0, 1, 0, 0], "::1:0:0:1:0:0"),
        ("ffff::ffff", [0xffff, 0, 0, 0, 0, 0, 0, 0xffff], "ffff::ffff"),
        ("0001:020:3::", [1, 0x20, 3, 0, 0, 0, 0, 0], "1:20:3::"),
        ("0:0:0:1::", [0, 0, 0, 1, 0, 0, 0, 0], "0:0:0:1::"),
        (
            "ffff:ffff:ffff:ffff:ffff:ffff:255.255.255.255",
            [0xffff; 8],
            "ffff:ffff:ffff:ffff:ffff:ffff:ffff:ffff",
        ),
    ];
    for (text, groups, written) in valid {
        assert_eq!(Some(v6(groups)), IpAddr::parse(text.as_bytes()), "reading {:?}", text);
        assert_eq!(written, v6(groups).to_text(), "writing {:?}", text);
        assert_eq!(Some(v6(groups)), IpAddr::parse(written.as_bytes()));
    }
    let invalid = [
        "1:2:3:4:5:6:7:8::",
        ":::",
        "1:::2",
        "1.2.3.4::",
        "1:2.3.4.5::",
        "12345::",
        "::12345",
        "::g",
        "1:2:3:4:5:6:7",
        " ::1",
        "::1 ",
        "1::2::3",
        "::ffff:1.2.3",
        "::1.2.3.4.5",
        "::1.2.3.256",
        "::01.2.3.4",
        "1:2:3:4:5:6:7:1.2.3.4",
        "1:2:3:4:5:1.2.3.4:6",
        ":1",
        "1:",
        ":",
        "",
        "0::0::0",
        "1::2:3:4:5:6:7:8",
        "1:2:3:4:5::6:7:8",
        "::ffff:ffff:ffff:ffff:ffff:ffff:ffff:ffff",
        "::1.2.3.4:5",
        "0x1::",
        "+1::",
        "1::-2",
        "::%eth0",
        "[::1]",
    ];
    for text in invalid {
        assert_eq!(None, IpAddr::parse(text.as_bytes()), "reading {:?}", text);
    }
}

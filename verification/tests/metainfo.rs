use toytorrent::bencode::{BencodeValue, DecodeError, Dict, Timestamp};
use toytorrent::ident::InfoHash;
use toytorrent::metainfo::md5::Md5Error;
use toytorrent::metainfo::torrent::find_info_span;
use toytorrent::metainfo::{File, Info, Md5Value, MetainfoError, MetainfoFile, Piece};

fn hex_bytes(text: &str) -> Vec<u8> {
    text.as_bytes()
        .chunks_exact(2)
        .map(|b| u8::from_str_radix(std::str::from_utf8(b).unwrap(), 16).unwrap())
        .collect()
}

fn info_hash_of(text: &str) -> InfoHash {
    let bytes: [u8; 20] = hex_bytes(text).try_into().unwrap();
    InfoHash::from(bytes)
}

/// A metainfo file of the shape of a release image's torrent: one file,
/// a tracker and tiers of trackers, a comment, a creator and a date.
fn release_torrent() -> Vec<u8> {
    let pieces: Vec<u8> = (0..384360u32).map(|i| ((i * 7 + 3) % 256) as u8).collect();
    let mut bytes = Vec::new();
    bytes.extend_from_slice(
        b"d8:announce35:https://torrent.ubuntu.com/announce13:announce-listll35:https://torrent.ubuntu.com/announceel40:https://ipv6.torrent.ubuntu.com/announceee7:comment29:Ubuntu CD releases.ubuntu.com10:created by13:mktorrent 1.113:creation datei1691692385e4:info",
    );
    bytes.extend_from_slice(
        b"d6:lengthi5037662208e4:name32:ubuntu-22.04.3-desktop-amd64.iso12:piece lengthi262144e6:pieces384360:",
    );
    bytes.extend_from_slice(&pieces);
    bytes.extend_from_slice(b"ee");
    bytes
}

#[test]
fn parse_test() {
    let metainfo_bytes = release_torrent();
    let metainfo = MetainfoFile::from_bytes(&metainfo_bytes[..]).unwrap();

    {
        let Info::SingleFile {
            piece_length,
            pieces,
            name,
            length,
            md5sum,
        } = &metainfo.info
        else {
            panic!("Expected file to parse as single file")
        };

        assert_eq!(256 * 1024, *piece_length);
        assert_eq!(
            (*length as f64 / *piece_length as f64).ceil(),
            pieces.len() as f64,
            "length: {}, piece_length: {}, pieces.len(): {}",
            length,
            piece_length,
            pieces.len(),
        );
        assert_eq!(name, "ubuntu-22.04.3-desktop-amd64.iso");
        assert_eq!(&None, md5sum);
    }

    assert_eq!(
        &info_hash_of("68cd0ec9fb86d0ce59b18e1ef46b3744387d8caf"),
        metainfo.info_hash(),
    );

    assert_eq!(
        Some(vec![
            vec!["https://torrent.ubuntu.com/announce".to_string()],
            vec!["https://ipv6.torrent.ubuntu.com/announce".to_string()],
        ]),
        metainfo.announce_list,
    );
    assert_eq!("https://torrent.ubuntu.com/announce", metainfo.announce);
    assert_eq!(Some(Timestamp { seconds: 1691692385 }), metainfo.creation_date);
    assert_eq!(Some("Ubuntu CD releases.ubuntu.com".to_string()), metainfo.comment);
    assert_eq!(Some("mktorrent 1.1".to_string()), metainfo.created_by);
    assert_eq!(None, metainfo.encoding);
    assert_eq!(5037662208, metainfo.info.length());
    assert!(metainfo.info.pieces_cover_length());

    // Validate that the input file is byte-for-byte the same as the output
    assert_eq!(metainfo_bytes[..], metainfo.to_bytes()[..]);
}

#[test]
fn info_hash_is_taken_of_the_bytes_in_the_file() {
    let mut pieces = Vec::new();
    for i in 0..40u8 {
        pieces.push(i);
    }
    // The keys of `info` are not in order here: writing the value anew
    // would give other bytes, and another digest.
    let mut file = Vec::new();
    file.extend_from_slice(b"d8:announce3:x/y4:infod4:name1:x6:lengthi3e12:piece lengthi2e6:pieces40:");
    file.extend_from_slice(&pieces);
    file.extend_from_slice(b"ee");
    let metainfo = MetainfoFile::from_bytes(&file).unwrap();
    assert_eq!(
        &info_hash_of("842f597d51ae7edd0b1850f68f3f93bfbfd0541f"),
        metainfo.info_hash()
    );
    assert_eq!(
        "842f597d51ae7edd0b1850f68f3f93bfbfd0541f",
        metainfo.info_hash().to_hex()
    );
    assert!(metainfo.info_hash() != &info_hash_of("7f18b223e18afb3af18449786f3a6e086cc0048f"));
    assert_eq!(Some((22, 113)), find_info_span(&file));
    assert_eq!(114, file.len());
    assert!(file[22..113] != metainfo.info.to_bencode().encode()[..]);

    // Reading the same bytes again gives the same info-hash.
    let again = MetainfoFile::from_bytes(&file).unwrap();
    assert_eq!(metainfo.info_hash(), again.info_hash());
    assert_eq!(metainfo, again);
}

#[test]
fn the_last_info_entry_is_the_one_that_counts() {
    let mut file = Vec::new();
    file.extend_from_slice(b"d8:announce1:a4:infoi1e4:infod6:lengthi3e4:name1:x12:piece lengthi2e6:pieces20:");
    file.extend_from_slice(&[7u8; 20]);
    file.extend_from_slice(b"ee");
    let metainfo = MetainfoFile::from_bytes(&file).unwrap();
    let span = find_info_span(&file).unwrap();
    assert_eq!(b'd', file[span.0]);
    assert_eq!(file.len() - 1, span.1);
    assert_eq!(3, metainfo.info.length());
    assert_eq!(None, find_info_span(b"d8:announce1:ae"));
    assert_eq!(None, find_info_span(b"l4:infoi1ee"));
    assert_eq!(None, find_info_span(b""));
}

#[test]
fn multi_file_torrent_round_trips() {
    let mut file = Vec::new();
    file.extend_from_slice(
        b"d8:announce8:http://t7:comment2:hi10:created by2:me13:creation datei-5e8:encoding5:UTF-84:infod5:filesld6:lengthi10e6:md5sum32:000102030405060708090a0b0c0d0e0f4:pathl1:a1:beed6:lengthi20e4:pathl1:ceee4:name3:dir12:piece lengthi16e6:pieces40:",
    );
    file.extend_from_slice(&[9u8; 40]);
    file.extend_from_slice(b"ee");
    let metainfo = MetainfoFile::from_bytes(&file).unwrap();
    let Info::MultiFile { piece_length, pieces, name, files } = &metainfo.info else {
        panic!("Expected several files")
    };
    assert_eq!(16, *piece_length);
    assert_eq!(2, pieces.len());
    assert_eq!(&[9u8; 20][..], pieces[0].as_slice());
    assert_eq!(20, pieces[1].iter().count());
    assert_eq!("dir", name);
    assert_eq!(2, files.len());
    assert_eq!(10, files[0].length);
    assert_eq!(vec!["a".to_string(), "b".to_string()], files[0].path);
    assert_eq!(
        &[0u8, 1, 2, 3, 4, 5, 6, 7, 8, 9, 10, 11, 12, 13, 14, 15][..],
        files[0].md5sum.as_ref().unwrap().as_slice()
    );
    assert_eq!(None, files[1].md5sum);
    assert_eq!(30, metainfo.info.length());
    assert_eq!(Some(Timestamp { seconds: -5 }), metainfo.creation_date);
    assert_eq!(Some("UTF-8".to_string()), metainfo.encoding);
    assert_eq!(file, metainfo.to_bytes());
}

#[test]
fn length_of_files_stops_at_the_largest_number() {
    let info = Info::MultiFile {
        piece_length: 1,
        pieces: vec![Piece::from([0u8; 20])],
        name: "n".to_string(),
        files: vec![
            File { length: u64::MAX - 1, md5sum: None, path: vec![] },
            File { length: 5, md5sum: None, path: vec![] },
            File { length: 5, md5sum: None, path: vec![] },
        ],
    };
    assert_eq!(u64::MAX, info.length());
    let single = Info::SingleFile {
        piece_length: 1,
        pieces: vec![],
        name: "n".to_string(),
        length: 77,
        md5sum: None,
    };
    assert_eq!(77, single.length());
    assert!(!single.pieces_cover_length());
    assert!(!info.pieces_cover_length());
    let exact = |length: u64, piece_length: u64, pieces: usize| Info::SingleFile {
        piece_length,
        pieces: vec![Piece::from([0u8; 20]); pieces],
        name: "n".to_string(),
        length,
        md5sum: None,
    };
    assert!(exact(10, 5, 2).pieces_cover_length());
    assert!(exact(11, 5, 3).pieces_cover_length());
    assert!(!exact(11, 5, 2).pieces_cover_length());
    assert!(!exact(10, 5, 3).pieces_cover_length());
    assert!(exact(0, 5, 0).pieces_cover_length());
    assert!(!exact(0, 5, 1).pieces_cover_length());
    assert!(!exact(10, 0, 2).pieces_cover_length());
    assert!(exact(1, u64::MAX, 1).pieces_cover_length());
}

fn torrent_with_info(info: &[u8]) -> Vec<u8> {
    let mut file = Vec::new();
    file.extend_from_slice(b"d8:announce1:a4:info");
    file.extend_from_slice(info);
    file.extend_from_slice(b"e");
    file
}

fn error_of(file: &[u8]) -> MetainfoError {
    MetainfoFile::from_bytes(file).unwrap_err()
}

#[test]
fn each_metainfo_error_has_its_input() {
    let pieces = "6:pieces20:aaaaaaaaaaaaaaaaaaaa";
    let good = format!("d6:lengthi3e4:name1:x12:piece lengthi2e{}e", pieces);
    assert!(MetainfoFile::from_bytes(&torrent_with_info(good.as_bytes())).is_ok());

    assert_eq!(MetainfoError::Decode(DecodeError::UnexpectedEof), error_of(b"d"));
    assert_eq!(MetainfoError::Decode(DecodeError::TrailingData), error_of(b"dee"));
    assert_eq!(MetainfoError::NotADict, error_of(b"le"));
    assert_eq!(MetainfoError::MissingInfoOrAnnounce, error_of(b"de"));
    assert_eq!(MetainfoError::MissingInfoOrAnnounce, error_of(b"d4:infodee"));
    assert_eq!(MetainfoError::MissingInfoOrAnnounce, error_of(b"d8:announce1:ae"));
    assert_eq!(
        MetainfoError::MissingInfoOrAnnounce,
        error_of(b"d8:announcei1e4:infodee")
    );
    assert_eq!(
        MetainfoError::AnnounceListNotAList,
        error_of(b"d8:announce1:a13:announce-listi1e4:infodee")
    );
    assert_eq!(
        MetainfoError::AnnounceTierNotAList,
        error_of(b"d8:announce1:a13:announce-listl1:ae4:infodee")
    );
    assert_eq!(
        MetainfoError::AnnounceNotAString,
        error_of(b"d8:announce1:a13:announce-listlli1eee4:infodee")
    );
    assert_eq!(
        MetainfoError::BadCreationDate,
        error_of(b"d8:announce1:a13:creation date1:x4:infodee")
    );
    assert_eq!(
        MetainfoError::BadCreationDate,
        error_of(b"d8:announce1:a13:creation datei18446744073709551616e4:infodee")
    );
    assert_eq!(
        MetainfoError::BadComment,
        error_of(b"d8:announce1:a7:commenti1e4:infodee")
    );
    assert_eq!(
        MetainfoError::BadCreatedBy,
        error_of(b"d8:announce1:a10:created byi1e4:infodee")
    );
    assert_eq!(
        MetainfoError::BadEncoding,
        error_of(b"d8:announce1:a8:encodingi1e4:infodee")
    );
    assert_eq!(MetainfoError::InfoNotADict, error_of(&torrent_with_info(b"i1e")));
    assert_eq!(MetainfoError::InfoMissingKeys, error_of(&torrent_with_info(b"de")));
    assert_eq!(
        MetainfoError::InfoMissingKeys,
        error_of(&torrent_with_info(
            format!("d6:lengthi3e4:namei1e12:piece lengthi2e{}e", pieces).as_bytes()
        ))
    );
    assert_eq!(
        MetainfoError::BadPieces,
        error_of(&torrent_with_info(b"d6:lengthi3e4:name1:x12:piece lengthi2e6:pieces0:e"))
    );
    assert_eq!(
        MetainfoError::BadPieces,
        error_of(&torrent_with_info(b"d6:lengthi3e4:name1:x12:piece lengthi2e6:pieces3:abce"))
    );
    assert_eq!(
        MetainfoError::LengthXorFiles,
        error_of(&torrent_with_info(
            format!("d4:name1:x12:piece lengthi2e{}e", pieces).as_bytes()
        ))
    );
    assert_eq!(
        MetainfoError::LengthXorFiles,
        error_of(&torrent_with_info(
            format!("d5:filesle6:lengthi3e4:name1:x12:piece lengthi2e{}e", pieces).as_bytes()
        ))
    );
    assert_eq!(
        MetainfoError::IntegerOutOfRange,
        error_of(&torrent_with_info(
            format!("d6:lengthi-3e4:name1:x12:piece lengthi2e{}e", pieces).as_bytes()
        ))
    );
    assert_eq!(
        MetainfoError::IntegerOutOfRange,
        error_of(&torrent_with_info(
            format!("d5:filesle4:name1:x12:piece lengthi18446744073709551616e{}e", pieces)
                .as_bytes()
        ))
    );
    assert_eq!(
        MetainfoError::FileNotADict,
        error_of(&torrent_with_info(
            format!("d5:filesli1ee4:name1:x12:piece lengthi2e{}e", pieces).as_bytes()
        ))
    );
    assert_eq!(
        MetainfoError::FileMissingKeys,
        error_of(&torrent_with_info(
            format!("d5:filesldee4:name1:x12:piece lengthi2e{}e", pieces).as_bytes()
        ))
    );
    assert_eq!(
        MetainfoError::PathNotStrings,
        error_of(&torrent_with_info(
            format!(
                "d5:filesld6:lengthi1e4:pathli1eeee4:name1:x12:piece lengthi2e{}e",
                pieces
            )
            .as_bytes()
        ))
    );
    assert_eq!(
        MetainfoError::Md5(Md5Error::BadLength),
        error_of(&torrent_with_info(
            format!("d6:lengthi3e6:md5sum2:ab4:name1:x12:piece lengthi2e{}e", pieces).as_bytes()
        ))
    );
    assert_eq!(
        "`md5sum` value must be 32 bytes long",
        MetainfoError::Md5(Md5Error::BadLength).message()
    );
    assert_eq!(
        "Torrent file must contain `info` and `announce` keys",
        MetainfoError::MissingInfoOrAnnounce.message()
    );
}

#[test]
fn md5_sums_are_thirty_two_hex_digits() {
    let value = BencodeValue::from("000102030405060708090A0b0c0d0e0F");
    let sum = Md5Value::from_bencode(&value).unwrap();
    assert_eq!(
        &[0u8, 1, 2, 3, 4, 5, 6, 7, 8, 9, 10, 11, 12, 13, 14, 15][..],
        sum.as_slice()
    );
    assert_eq!(
        BencodeValue::from("000102030405060708090a0b0c0d0e0f"),
        sum.to_bencode()
    );
    assert_eq!("000102030405060708090a0b0c0d0e0f", sum.to_hex());
    assert_eq!(
        Err(Md5Error::NotAString),
        Md5Value::from_bencode(&BencodeValue::Integer(1))
    );
    assert_eq!(
        Err(Md5Error::BadLength),
        Md5Value::from_bencode(&BencodeValue::from("00"))
    );
    assert_eq!(
        Err(Md5Error::BadDigit),
        Md5Value::from_bencode(&BencodeValue::from("000102030405060708090a0b0c0d0e0g"))
    );
    assert_eq!(
        Err(Md5Error::BadDigit),
        Md5Value::from_bencode(&BencodeValue::from("+00102030405060708090a0b0c0d0e0f"))
    );
}

#[test]
fn pieces_and_files_to_and_from_bencode() {
    assert_eq!(None, Piece::from_slice(&[1u8; 19]));
    assert_eq!(Some(Piece::from([1u8; 20])), Piece::from_slice(&[1u8; 20]));
    assert_eq!("0101010101010101010101010101010101010101", Piece::from([1u8; 20]).to_hex());
    let mut digest = [0u8; 20];
    digest[0] = 0xab;
    digest[19] = 0x0f;
    assert_eq!("ab0000000000000000000000000000000000000f", Piece::from(digest).to_hex());

    let mut dict = Dict::new();
    dict.insert(b"length".to_vec(), BencodeValue::Integer(12));
    dict.insert(
        b"path".to_vec(),
        BencodeValue::List(vec![BencodeValue::from("x"), BencodeValue::from("y.z")]),
    );
    let value = BencodeValue::from(dict);
    let file = File::from_bencode(&value).unwrap();
    assert_eq!(
        File { length: 12, md5sum: None, path: vec!["x".to_string(), "y.z".to_string()] },
        file
    );
    assert_eq!(value, file.to_bencode());
    assert_eq!(&b"d6:lengthi12e4:pathl1:x3:y.zee"[..], file.to_bencode().encode());
    assert_eq!(
        Err(MetainfoError::FileNotADict),
        File::from_bencode(&BencodeValue::Integer(1))
    );
    assert_eq!(
        Err(MetainfoError::InfoNotADict),
        Info::from_bencode(&BencodeValue::Integer(1))
    );
}

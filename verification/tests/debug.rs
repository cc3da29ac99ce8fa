use toytorrent::debug::{debug_line, debug_lines, debug_summary, DebugBufReader, DebugWriter};

#[test]
fn a_line_shows_bytes_in_hexadecimal_and_as_text() {
    assert_eq!(
        "10.0.0.1:6881          <- 1342 6974 546f 7272 656e 7420 7072 6f74    .BitTorrent prot",
        debug_line("10.0.0.1:6881", "<-", b"\x13BitTorrent prot")
    );
    assert_eq!(
        "10.0.0.1:6881          -> 0a ff                         ...",
        debug_line("10.0.0.1:6881", "->", b"\x00\x0a\xff")
    );
    assert_eq!(
        "x                      ->                            ",
        debug_line("x", "->", b"")
    );
    assert_eq!(
        "a-very-long-prefix-of-more-than-23-> 6162                         ab",
        debug_line("a-very-long-prefix-of-more-than-23", "->", b"ab")
    );
    assert_eq!(
        "p                      -> 7e7f 1f20                      ~.. ",
        debug_line("p", "->", &[0x7e, 0x7f, 0x1f, 0x20])
    );
    // A prefix is filled up by its bytes, not by its characters.
    assert_eq!(
        "p\u{e9}                    -> 61                            a",
        debug_line("p\u{e9}", "->", b"a")
    );
}

#[test]
fn many_bytes_are_shown_in_part() {
    let data: Vec<u8> = (b'a'..=b'z').collect();
    let lines = debug_lines("peer", "<-", &data);
    assert_eq!(
        vec![
            "peer                   <- 6162 6364 6566 6768 696a 6b6c 6d6e 6f70    abcdefghijklmnop".to_string(),
            "peer                   <- 7172 7374 7576 7778 797a             qrstuvwxyz".to_string(),
        ],
        lines
    );

    let data: Vec<u8> = (0..40u8).collect();
    let lines = debug_lines("peer", "->", &data);
    assert_eq!(3, lines.len());
    assert_eq!(
        "peer                   -> 01 23 45 67 89 ab cd ef    ................",
        lines[0]
    );
    assert_eq!(
        "peer                   -> 1011 1213 1415 1617 1819 1a1b 1c1d 1e1f    ................",
        lines[1]
    );
    assert_eq!("peer                  -> ..... 40 bytes total .....", lines[2]);
    // The summary's prefix is filled up by its characters.
    assert_eq!(
        "p\u{e9}                    -> ..... 33 bytes total .....",
        debug_summary("p\u{e9}", "->", 33)
    );
    assert_eq!(
        "a-prefix-of-more-than-21-characters -> ..... 0 bytes total .....",
        debug_summary("a-prefix-of-more-than-21-characters", "->", 0)
    );

    assert_eq!(1, debug_lines("peer", "->", &[0; 16]).len());
    assert_eq!(2, debug_lines("peer", "->", &[0; 17]).len());
    assert_eq!(2, debug_lines("peer", "->", &[0; 32]).len());
    assert_eq!(3, debug_lines("peer", "->", &[0; 33]).len());
    assert_eq!(
        "peer                   -> 0                            .",
        debug_lines("peer", "->", &[0; 17])[1]
    );
}

#[test]
fn readers_and_writers_show_their_direction() {
    let reader = DebugBufReader::new("r".to_string(), 5u8);
    assert_eq!("r", reader.prefix);
    assert_eq!(5, reader.inner);
    assert_eq!(
        vec!["r                      <- 6869                         hi".to_string()],
        reader.lines(b"hi")
    );
    let writer = DebugWriter::new("w".to_string(), Vec::<u8>::new());
    assert_eq!(
        vec!["w                      -> 6869                         hi".to_string()],
        writer.lines(b"hi")
    );
}

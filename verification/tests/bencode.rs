use toytorrent::bencode::{
    parse_bytes, parse_dict, parse_integer, parse_list, parse_once, BencodeValue, DecodeError,
    Dict, Timestamp,
};

fn dict_of(entries: Vec<(&str, BencodeValue)>) -> Dict {
    let mut dict = Dict::new();
    for (key, value) in entries {
        dict.insert(key.as_bytes().to_vec(), value);
    }
    dict
}

fn dict_value(entries: Vec<(&str, BencodeValue)>) -> BencodeValue {
    BencodeValue::from(dict_of(entries))
}

#[test]
fn parse_bytes_test_success() {
    assert_eq!(Ok((&[][..], &b"spam"[..])), parse_bytes(&b"4:spam"[..]),);

    assert_eq!(Ok((&[][..], &[][..])), parse_bytes(&b"0:"[..]),);

    assert_eq!(Ok((&b"m"[..], &b"spa"[..])), parse_bytes(&b"3:spam"[..]),);
}

#[test]
fn parse_bytes_test_error() {
    assert_eq!(Err(DecodeError::ExpectedDigit), parse_bytes(&b":spam"[..]));

    assert_eq!(Err(DecodeError::ExpectedDigit), parse_bytes(&b"i5e"[..]));

    assert_eq!(Err(DecodeError::ExpectedDigit), parse_bytes(&b"le"[..]));

    assert_eq!(Err(DecodeError::ExpectedDigit), parse_bytes(&b"de"[..]));

    assert_eq!(Err(DecodeError::UnexpectedEof), parse_bytes(&b"5:spam"[..]));

    assert_eq!(Err(DecodeError::BadDelimiter), parse_bytes(&b"5spam"[..]));

    assert_eq!(Err(DecodeError::LeadingZero), parse_bytes(&b"04:spam"[..]));
}

#[test]
fn parse_integer_test_success() {
    assert_eq!(Ok((&[][..], 0)), parse_integer(&b"i0e"[..]));

    assert_eq!(Ok((&[][..], 999)), parse_integer(&b"i999e"[..]));

    assert_eq!(Ok((&[][..], -999)), parse_integer(&b"i-999e"[..]));
}

#[test]
fn parse_integer_test_error() {
    assert_eq!(Err(DecodeError::BadDelimiter), parse_integer(&b"5:spam"[..]));

    assert_eq!(Err(DecodeError::BadDelimiter), parse_integer(&b"le"[..]));

    assert_eq!(Err(DecodeError::BadDelimiter), parse_integer(&b"de"[..]));
}

#[test]
fn parse_integer_test_failure() {
    assert_eq!(Err(DecodeError::NegativeZero), parse_integer(&b"i-0e"[..]));

    assert_eq!(Err(DecodeError::LeadingZero), parse_integer(&b"i00e"[..]));

    assert_eq!(Err(DecodeError::LeadingZero), parse_integer(&b"i01e"[..]));

    assert_eq!(Err(DecodeError::ExpectedDigit), parse_integer(&b"ie"[..]));

    assert_eq!(Err(DecodeError::UnexpectedEof), parse_integer(&b"i999999"[..]));

    assert_eq!(Err(DecodeError::UnexpectedEof), parse_integer(b"i"));
}

#[test]
fn parse_list_test_success() {
    assert_eq!(
        Ok((
            &[][..],
            vec![BencodeValue::from("spam"), BencodeValue::from("eggs")],
        )),
        parse_list(&b"l4:spam4:eggse"[..]),
    );

    assert_eq!(Ok((&[][..], Vec::new())), parse_list(&b"le"[..]));

    assert_eq!(
        Ok((
            &[][..],
            vec![
                BencodeValue::from("str"),
                BencodeValue::from(123u64),
                BencodeValue::from(vec![BencodeValue::from("nested")])
            ],
        )),
        parse_list(&b"l3:stri123el6:nestedee"[..]),
    );

    assert_eq!(Ok((&b"e"[..], Vec::new())), parse_list(&b"lee"[..]),);
}

#[test]
fn parse_list_test_error() {
    assert_eq!(Err(DecodeError::BadDelimiter), parse_list(&b"5:spam"[..]));

    assert_eq!(Err(DecodeError::BadDelimiter), parse_list(&b"i0e"[..]));

    assert_eq!(Err(DecodeError::BadDelimiter), parse_list(&b"de"[..]));
}

#[test]
fn parse_list_test_failure() {
    assert_eq!(Err(DecodeError::UnexpectedEof), parse_list(&b"li5e"[..]));
}

#[test]
fn parse_dict_test_success() {
    {
        let result = dict_of(vec![
            ("cow", BencodeValue::from("moo")),
            ("spam", BencodeValue::from("eggs")),
        ]);

        assert_eq!(
            Ok((&[][..], result)),
            parse_dict(&b"d3:cow3:moo4:spam4:eggse"[..]),
        );
    }

    {
        let result = dict_of(vec![(
            "spam",
            BencodeValue::from(vec![BencodeValue::from("a"), BencodeValue::from("b")]),
        )]);

        assert_eq!(Ok((&[][..], result)), parse_dict(&b"d4:spaml1:a1:bee"[..]),);
    }

    {
        let result = dict_of(vec![
            (
                "start",
                dict_value(vec![
                    ("a", BencodeValue::Integer(1)),
                    ("b", BencodeValue::Integer(2)),
                ]),
            ),
            (
                "end",
                dict_value(vec![
                    ("y", BencodeValue::Integer(25)),
                    ("z", BencodeValue::Integer(26)),
                ]),
            ),
        ]);

        assert_eq!(
            Ok((&[][..], result)),
            parse_dict(&b"d5:startd1:ai1e1:bi2ee3:endd1:yi25e1:zi26eee"[..]),
        );
    }

    assert_eq!(Ok((&[][..], Dict::new())), parse_dict(&b"de"[..]),);

    assert_eq!(Ok((&b"e"[..], Dict::new())), parse_dict(&b"dee"[..]));
}

#[test]
fn parse_dict_test_error() {
    assert_eq!(Err(DecodeError::BadDelimiter), parse_dict(&b"5:spam"[..]));

    assert_eq!(Err(DecodeError::BadDelimiter), parse_dict(&b"i0e"[..]));

    assert_eq!(Err(DecodeError::BadDelimiter), parse_dict(&b"le"[..]));
}

#[test]
fn parse_dict_test_failure() {
    assert_eq!(Err(DecodeError::UnexpectedEof), parse_dict(&b"d3:key3:val"[..]));

    assert_eq!(Err(DecodeError::ExpectedDigit), parse_dict(&b"di1ei2ee"[..]));
}

#[test]
fn decode_test_success() {
    assert_eq!(
        Ok(BencodeValue::Bytes(Vec::new())),
        BencodeValue::decode(&b"0:"[..]),
    );

    assert_eq!(
        Ok(BencodeValue::Integer(0)),
        BencodeValue::decode(&b"i0e"[..]),
    );

    assert_eq!(
        Ok(BencodeValue::List(Vec::new())),
        BencodeValue::decode(&b"le"[..]),
    );

    assert_eq!(
        Ok(BencodeValue::Dict(Dict::new())),
        BencodeValue::decode(&b"de"[..]),
    );
}

#[test]
fn decode_test_failure() {
    assert_eq!(
        Err(DecodeError::TrailingData),
        BencodeValue::decode(&b"0:e"[..]),
    );
}

#[test]
fn encode_test() {
    assert_eq!(&b"i3e"[..], BencodeValue::from(3u64).encode());

    assert_eq!(&b"i-3e"[..], BencodeValue::from(-3i128).encode());

    assert_eq!(&b"4:spam"[..], BencodeValue::from("spam").encode());

    assert_eq!(
        &b"l4:spam4:eggse"[..],
        BencodeValue::from(vec![BencodeValue::from("spam"), BencodeValue::from("eggs")])
            .encode(),
    );

    assert_eq!(
        &b"d3:cow3:moo4:spam4:eggse"[..],
        dict_value(vec![
            ("cow", BencodeValue::from("moo")),
            ("spam", BencodeValue::from("eggs")),
        ])
        .encode(),
    );

    assert_eq!(
        &b"d4:spaml1:a1:bee"[..],
        dict_value(vec![(
            "spam",
            BencodeValue::from(vec![BencodeValue::from("a"), BencodeValue::from("b")]),
        )])
        .encode(),
    );
}

#[test]
fn decode_then_encode_gives_the_same_bytes() {
    let input = b"d3:cow3:moo4:spam4:eggse";
    assert_eq!(24, input.len());
    let value = BencodeValue::decode(input).unwrap();
    assert_eq!(
        dict_value(vec![
            ("cow", BencodeValue::from("moo")),
            ("spam", BencodeValue::from("eggs")),
        ]),
        value,
    );
    assert_eq!(&input[..], value.encode());

    assert_eq!(
        Ok(BencodeValue::List(vec![
            BencodeValue::from("spam"),
            BencodeValue::from("eggs")
        ])),
        BencodeValue::decode(b"l4:spam4:eggse"),
    );
}

#[test]
fn malformed_input_is_rejected() {
    assert_eq!(Err(DecodeError::NegativeZero), BencodeValue::decode(b"i-0e"));
    assert_eq!(Err(DecodeError::LeadingZero), BencodeValue::decode(b"i01e"));
    assert_eq!(Err(DecodeError::LeadingZero), BencodeValue::decode(b"04:spam"));
    assert_eq!(Err(DecodeError::UnexpectedEof), BencodeValue::decode(b"i999999"));
    assert_eq!(Err(DecodeError::UnexpectedEof), BencodeValue::decode(b"d3:key3:val"));
    assert_eq!(Err(DecodeError::UnexpectedEof), BencodeValue::decode(b""));
    assert_eq!(Err(DecodeError::BadDelimiter), BencodeValue::decode(b"x"));
    assert_eq!(Err(DecodeError::BadDelimiter), BencodeValue::decode(b"i12x"));
    assert_eq!(Err(DecodeError::BadDelimiter), BencodeValue::decode(b"3abc"));
    assert_eq!(Err(DecodeError::ExpectedDigit), BencodeValue::decode(b"i-e"));
    assert_eq!(Err(DecodeError::ExpectedDigit), BencodeValue::decode(b"dle"));
    assert_eq!(Err(DecodeError::TrailingData), BencodeValue::decode(b"i1ei2e"));
    assert_eq!(Err(DecodeError::UnexpectedEof), BencodeValue::decode(b"l"));
    assert_eq!(Err(DecodeError::UnexpectedEof), BencodeValue::decode(b"d1:a"));
    assert_eq!(
        Err(DecodeError::UnexpectedEof),
        BencodeValue::decode(b"99999999999999999999999999999999999999999999:a"),
    );
}

#[test]
fn integers_at_the_limits() {
    let max = b"i170141183460469231731687303715884105727e";
    assert_eq!(Ok(BencodeValue::Integer(i128::MAX)), BencodeValue::decode(max));
    assert_eq!(&max[..], BencodeValue::Integer(i128::MAX).encode());

    let low = b"i-170141183460469231731687303715884105727e";
    assert_eq!(Ok(BencodeValue::Integer(-i128::MAX)), BencodeValue::decode(low));
    assert_eq!(&low[..], BencodeValue::Integer(-i128::MAX).encode());

    assert_eq!(
        Err(DecodeError::IntegerOverflow),
        BencodeValue::decode(b"i170141183460469231731687303715884105728e"),
    );
    assert_eq!(
        Err(DecodeError::IntegerOverflow),
        BencodeValue::decode(b"i-170141183460469231731687303715884105728e"),
    );
    assert_eq!(
        Err(DecodeError::IntegerOverflow),
        BencodeValue::decode(b"i999999999999999999999999999999999999999999999999e"),
    );
    assert_eq!(
        &b"i-170141183460469231731687303715884105728e"[..],
        BencodeValue::Integer(i128::MIN).encode(),
    );
}

#[test]
fn repeated_keys_keep_the_last_value() {
    let value = BencodeValue::decode(b"d1:ai1e1:bi2e1:ai3ee").unwrap();
    assert_eq!(
        dict_value(vec![
            ("a", BencodeValue::Integer(3)),
            ("b", BencodeValue::Integer(2)),
        ]),
        value,
    );
    assert_eq!(&b"d1:ai3e1:bi2ee"[..], value.encode());
}

#[test]
fn keys_are_written_in_byte_order() {
    let value = dict_value(vec![
        ("zz", BencodeValue::Integer(1)),
        ("a", BencodeValue::Integer(2)),
        ("ab", BencodeValue::Integer(3)),
        ("Z", BencodeValue::Integer(4)),
        ("", BencodeValue::Integer(5)),
    ]);
    let bytes = value.encode();
    assert_eq!(&b"d0:i5e1:Zi4e1:ai2e2:abi3e2:zzi1ee"[..], bytes);
    assert_eq!(Ok(value), BencodeValue::decode(&bytes));

    let unsorted = BencodeValue::decode(b"d1:bi1e1:ai2ee").unwrap();
    assert_eq!(&b"d1:ai2e1:bi1ee"[..], unsorted.encode());
}

#[test]
fn nested_values_round_trip() {
    let value = dict_value(vec![
        (
            "list",
            BencodeValue::from(vec![
                BencodeValue::Integer(-7),
                BencodeValue::from(""),
                BencodeValue::List(vec![]),
                dict_value(vec![]),
            ]),
        ),
        ("bytes", BencodeValue::from(vec![0u8, 255, 101, 58])),
        ("n", BencodeValue::Integer(0)),
    ]);
    let bytes = value.encode();
    assert_eq!(
        &b"d5:bytes4:\x00\xffe:4:listli-7e0:ledee1:ni0ee"[..],
        bytes
    );
    assert_eq!(Ok(value), BencodeValue::decode(&bytes));
}

#[test]
fn parse_once_leaves_what_follows() {
    assert_eq!(
        Ok((&b"rest"[..], BencodeValue::Integer(42))),
        parse_once(b"i42erest"),
    );
    assert_eq!(Err(DecodeError::UnexpectedEof), parse_once(b""));
}

#[test]
fn dict_insert_get_remove() {
    let mut dict = Dict::new();
    assert!(dict.is_empty());
    dict.insert(b"b".to_vec(), BencodeValue::Integer(1));
    dict.insert(b"a".to_vec(), BencodeValue::Integer(2));
    dict.insert(b"b".to_vec(), BencodeValue::Integer(3));
    assert_eq!(2, dict.len());
    assert_eq!(&b"a".to_vec(), dict.key_at(0));
    assert_eq!(&BencodeValue::Integer(3), dict.value_at(1));
    assert_eq!(Some(&BencodeValue::Integer(3)), dict.get(b"b"));
    assert_eq!(None, dict.get(b"c"));
    assert!(dict.contains_key(b"a"));
    assert_eq!(Some(BencodeValue::Integer(2)), dict.remove(b"a"));
    assert_eq!(None, dict.remove(b"a"));
    assert_eq!(1, dict.len());
}

#[test]
fn accessors_give_what_the_value_holds() {
    assert_eq!(Some(b"ab".to_vec()), BencodeValue::from("ab").to_bytes());
    assert_eq!(None, BencodeValue::Integer(1).to_bytes());
    assert_eq!(Some("ab".to_string()), BencodeValue::from("ab").to_string());
    assert_eq!(
        Some("a\u{fffd}".to_string()),
        BencodeValue::from(vec![97u8, 255]).to_string()
    );
    assert_eq!(None, BencodeValue::Integer(1).to_string());
    assert_eq!(Some(-5), BencodeValue::Integer(-5).to_i128());
    assert_eq!(None, BencodeValue::from("5").to_i128());
    assert_eq!(Some(5), BencodeValue::Integer(5).to_u64());
    assert_eq!(Some(u64::MAX), BencodeValue::from(u64::MAX).to_u64());
    assert_eq!(None, BencodeValue::Integer(-1).to_u64());
    assert_eq!(None, BencodeValue::Integer(u64::MAX as i128 + 1).to_u64());
    assert_eq!(
        Some(vec![BencodeValue::Integer(1)]),
        BencodeValue::from(vec![BencodeValue::Integer(1)]).to_list()
    );
    assert_eq!(None, BencodeValue::Integer(1).to_list());
    assert_eq!(Some(Dict::new()), BencodeValue::from(Dict::new()).to_dict());
    assert_eq!(None, BencodeValue::Integer(1).to_dict());
    assert_eq!(
        Some(Timestamp { seconds: -3 }),
        BencodeValue::Integer(-3).to_time()
    );
    assert_eq!(
        Some(Timestamp { seconds: u64::MAX as i128 }),
        BencodeValue::Integer(u64::MAX as i128).to_time()
    );
    assert_eq!(None, BencodeValue::Integer(u64::MAX as i128 + 1).to_time());
    assert_eq!(None, BencodeValue::Integer(i128::MIN).to_time());
    assert_eq!(None, BencodeValue::from("1").to_time());
    assert_eq!(
        BencodeValue::Integer(77),
        BencodeValue::from(Timestamp { seconds: 77 })
    );
}

#[test]
fn a_copy_holds_what_the_value_holds() {
    let value = dict_value(vec![
        ("l", BencodeValue::List(vec![BencodeValue::Integer(1), BencodeValue::from("x")])),
        ("d", dict_value(vec![("k", BencodeValue::Integer(-2))])),
    ]);
    let copy = value.clone();
    assert_eq!(value, copy);
    assert_eq!(value.encode(), copy.encode());
    let dict = dict_of(vec![("a", BencodeValue::Integer(1))]);
    assert_eq!(dict, dict.clone());
}

//! Where reading ends: every value that is read ends after where it starts
//! and within the input.

use vstd::prelude::*;
use crate::bencode::decimal::lemma_digits_end_bounds;
use crate::bencode::grammar::{
    parse_bytes_at, parse_entries_at, parse_integer_at, parse_items_at, parse_value_at,
};
use crate::bencode::value::{dict_insert, Value};

verus! {

/// A byte string that is read ends after where it starts and within the input.
pub proof fn lemma_parse_bytes_advances(s: Seq<u8>, pos: int)
    requires
        0 <= pos,
    ensures
        parse_bytes_at(s, pos) matches Ok((_, end)) ==> pos < end <= s.len(),
{
    if pos < s.len() {
        lemma_digits_end_bounds(s, pos);
    }
}

/// An integer that is read ends after where it starts and within the input.
pub proof fn lemma_parse_integer_advances(s: Seq<u8>, pos: int)
    requires
        0 <= pos,
    ensures
        parse_integer_at(s, pos) matches Ok((_, end)) ==> pos < end <= s.len(),
{
    let negative = pos + 1 < s.len() && s[pos + 1] == crate::bencode::grammar::BYTE_MINUS;
    let start = if negative {
        pos + 2
    } else {
        pos + 1
    };
    if start < s.len() {
        lemma_digits_end_bounds(s, start);
    }
}

/// A value that is read ends after where it starts and within the input.
pub proof fn lemma_parse_value_advances(s: Seq<u8>, pos: int)
    ensures
        parse_value_at(s, pos) matches Ok((_, end)) ==> pos < end <= s.len(),
    decreases s.len() - pos, 0nat,
{
    if 0 <= pos < s.len() {
        lemma_parse_integer_advances(s, pos);
        lemma_parse_bytes_advances(s, pos);
        lemma_parse_items_advances(s, pos + 1, Seq::empty());
        lemma_parse_entries_advances(s, pos + 1, Seq::empty());
    }
}

/// A list's items end, with their closing `e`, after where they start and
/// within the input.
pub proof fn lemma_parse_items_advances(s: Seq<u8>, pos: int, acc: Seq<Value>)
    ensures
        parse_items_at(s, pos, acc) matches Ok((_, end)) ==> pos < end <= s.len(),
    decreases s.len() - pos, 1nat,
{
    if 0 <= pos < s.len() && s[pos] != crate::bencode::grammar::BYTE_E {
        lemma_parse_value_advances(s, pos);
        match parse_value_at(s, pos) {
            Ok((v, end)) => {
                if pos < end <= s.len() {
                    lemma_parse_items_advances(s, end, acc.push(v));
                }
            },
            Err(_) => {},
        }
    }
}

/// A dictionary's entries end, with their closing `e`, after where they
/// start and within the input.
pub proof fn lemma_parse_entries_advances(s: Seq<u8>, pos: int, acc: Seq<(Seq<u8>, Value)>)
    ensures
        parse_entries_at(s, pos, acc) matches Ok((_, end)) ==> pos < end <= s.len(),
    decreases s.len() - pos, 1nat,
{
    if 0 <= pos < s.len() && s[pos] != crate::bencode::grammar::BYTE_E {
        lemma_parse_bytes_advances(s, pos);
        match parse_bytes_at(s, pos) {
            Ok((key, key_end)) => {
                lemma_parse_value_advances(s, key_end);
                match parse_value_at(s, key_end) {
                    Ok((v, end)) => {
                        if key_end < end <= s.len() {
                            lemma_parse_entries_advances(s, end, dict_insert(acc, key, v));
                        }
                    },
                    Err(_) => {},
                }
            },
            Err(_) => {},
        }
    }
}

} // verus!

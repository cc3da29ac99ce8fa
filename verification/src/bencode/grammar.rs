//! The bencode grammar as mathematics: what a value is written as, and what
//! a byte string is read as.
//!
//! ```text
//! value := bstr | int | list | dict
//! bstr  := nonzero_uint ":" bytes(len)  |  "0:"
//! int   := "i0e"  |  "i" ("-"? [1-9][0-9]*) "e"
//! list  := "l" value* "e"
//! dict  := "d" (bstr value)* "e"
//! ```

use vstd::prelude::*;
use crate::bencode::decimal::{decimal, digits_end, digits_value, is_digit};
use crate::bencode::value::{dict_insert, Value};

verus! {

/// Why a byte string is not a bencode value.
#[derive(Clone, Copy, Debug, PartialEq, Eq, Structural)]
pub enum DecodeError {
    /// Bytes follow the value.
    TrailingData,
    /// The input ends inside a value.
    UnexpectedEof,
    /// A decimal digit was required.
    ExpectedDigit,
    /// A length or an integer starts with a superfluous `0`.
    LeadingZero,
    /// An integer is written `-0`.
    NegativeZero,
    /// A value does not start with a digit, `i`, `l` or `d`; a length is not
    /// followed by `:`; or an integer is not closed by `e`.
    BadDelimiter,
    /// An integer's magnitude exceeds `i128::MAX`.
    IntegerOverflow,
}

/// The byte `:`, which stands between a length and its bytes.
pub const BYTE_COLON: u8 = 58;

/// The byte `-`, the sign of a negative integer.
pub const BYTE_MINUS: u8 = 45;

/// The byte `0`.
pub const BYTE_ZERO: u8 = 48;

/// The byte `d`, which opens a dictionary.
pub const BYTE_D: u8 = 100;

/// The byte `e`, which closes an integer, a list and a dictionary.
pub const BYTE_E: u8 = 101;

/// The byte `i`, which opens an integer.
pub const BYTE_I: u8 = 105;

/// The byte `l`, which opens a list.
pub const BYTE_L: u8 = 108;

/// A byte string as written: its length in decimal, a colon, its bytes.
pub open spec fn encode_bytes(b: Seq<u8>) -> Seq<u8> {
    decimal(b.len()) + seq![BYTE_COLON] + b
}

/// An integer as written: `i`, its minimal decimal form, `e`.
pub open spec fn encode_integer(i: int) -> Seq<u8> {
    if i < 0 {
        seq![BYTE_I, BYTE_MINUS] + decimal((-i) as nat) + seq![BYTE_E]
    } else {
        seq![BYTE_I] + decimal(i as nat) + seq![BYTE_E]
    }
}

/// A value as written. A dictionary's entries are written in the order in
/// which the model lists them, which in a canonical value is key order.
pub open spec fn encode_value(v: Value) -> Seq<u8>
    decreases v,
{
    match v {
        Value::Bytes(b) => encode_bytes(b),
        Value::Integer(i) => encode_integer(i),
        Value::List(l) => seq![BYTE_L] + encode_items(l) + seq![BYTE_E],
        Value::Dict(es) => seq![BYTE_D] + encode_entries(es) + seq![BYTE_E],
    }
}

/// The items of a list as written, one after the other.
pub open spec fn encode_items(l: Seq<Value>) -> Seq<u8>
    decreases l,
{
    if l.len() == 0 {
        Seq::empty()
    } else {
        encode_value(l[0]) + encode_items(l.drop_first())
    }
}

/// The entries of a dictionary as written: each key, then its value.
pub open spec fn encode_entries(es: Seq<(Seq<u8>, Value)>) -> Seq<u8>
    decreases es,
{
    if es.len() == 0 {
        Seq::empty()
    } else {
        encode_bytes(es[0].0) + encode_value(es[0].1) + encode_entries(es.drop_first())
    }
}

/// Reads a byte string at `pos`: the string and the position after it.
pub open spec fn parse_bytes_at(s: Seq<u8>, pos: int) -> Result<(Seq<u8>, int), DecodeError> {
    if pos >= s.len() {
        Err(DecodeError::UnexpectedEof)
    } else if !is_digit(s[pos]) {
        Err(DecodeError::ExpectedDigit)
    } else {
        let end = digits_end(s, pos);
        let len = digits_value(s, pos, end);
        if s[pos] == BYTE_ZERO && end > pos + 1 {
            Err(DecodeError::LeadingZero)
        } else if end >= s.len() {
            Err(DecodeError::UnexpectedEof)
        } else if s[end] != BYTE_COLON {
            Err(DecodeError::BadDelimiter)
        } else if end + 1 + len > s.len() {
            Err(DecodeError::UnexpectedEof)
        } else {
            Ok((s.subrange(end + 1, end + 1 + len), end + 1 + len))
        }
    }
}

/// Reads an integer at `pos`, where an `i` stands: the integer and the
/// position after its `e`.
pub open spec fn parse_integer_at(s: Seq<u8>, pos: int) -> Result<(int, int), DecodeError> {
    let negative = pos + 1 < s.len() && s[pos + 1] == BYTE_MINUS;
    let start = if negative {
        pos + 2
    } else {
        pos + 1
    };
    if start >= s.len() {
        Err(DecodeError::UnexpectedEof)
    } else if !is_digit(s[start]) {
        Err(DecodeError::ExpectedDigit)
    } else {
        let end = digits_end(s, start);
        let magnitude = digits_value(s, start, end);
        if s[start] == BYTE_ZERO && negative {
            Err(DecodeError::NegativeZero)
        } else if s[start] == BYTE_ZERO && end > start + 1 {
            Err(DecodeError::LeadingZero)
        } else if end >= s.len() {
            Err(DecodeError::UnexpectedEof)
        } else if s[end] != BYTE_E {
            Err(DecodeError::BadDelimiter)
        } else if magnitude > i128::MAX {
            Err(DecodeError::IntegerOverflow)
        } else if negative {
            Ok((-(magnitude as int), end + 1))
        } else {
            Ok((magnitude as int, end + 1))
        }
    }
}

/// Reads one value at `pos`: the value and the position after it.
pub open spec fn parse_value_at(s: Seq<u8>, pos: int) -> Result<(Value, int), DecodeError>
    decreases s.len() - pos, 0nat,
{
    if pos < 0 || pos >= s.len() {
        Err(DecodeError::UnexpectedEof)
    } else if s[pos] == BYTE_I {
        match parse_integer_at(s, pos) {
            Ok((i, end)) => Ok((Value::Integer(i), end)),
            Err(e) => Err(e),
        }
    } else if s[pos] == BYTE_L {
        match parse_items_at(s, pos + 1, Seq::empty()) {
            Ok((items, end)) => Ok((Value::List(items), end)),
            Err(e) => Err(e),
        }
    } else if s[pos] == BYTE_D {
        match parse_entries_at(s, pos + 1, Seq::empty()) {
            Ok((entries, end)) => Ok((Value::Dict(entries), end)),
            Err(e) => Err(e),
        }
    } else if is_digit(s[pos]) {
        match parse_bytes_at(s, pos) {
            Ok((b, end)) => Ok((Value::Bytes(b), end)),
            Err(e) => Err(e),
        }
    } else {
        Err(DecodeError::BadDelimiter)
    }
}

/// Reads the items of a list from `pos` up to its closing `e`, after the
/// items `acc` read so far. A value always ends after where it starts and
/// within the input, so the second branch on `end` is never taken.
pub open spec fn parse_items_at(s: Seq<u8>, pos: int, acc: Seq<Value>) -> Result<
    (Seq<Value>, int),
    DecodeError,
>
    decreases s.len() - pos, 1nat,
{
    if pos < 0 || pos >= s.len() {
        Err(DecodeError::UnexpectedEof)
    } else if s[pos] == BYTE_E {
        Ok((acc, pos + 1))
    } else {
        match parse_value_at(s, pos) {
            Ok((v, end)) => if pos < end <= s.len() {
                parse_items_at(s, end, acc.push(v))
            } else {
                Err(DecodeError::UnexpectedEof)
            },
            Err(e) => Err(e),
        }
    }
}

/// Reads the entries of a dictionary from `pos` up to its closing `e`, after
/// the entries `acc` read so far. An entry whose key was read before takes
/// the place of the earlier one. A key and a value always end after where
/// they start and within the input, so the second branches on `key_end` and
/// `end` are never taken.
pub open spec fn parse_entries_at(s: Seq<u8>, pos: int, acc: Seq<(Seq<u8>, Value)>) -> Result<
    (Seq<(Seq<u8>, Value)>, int),
    DecodeError,
>
    decreases s.len() - pos, 1nat,
{
    if pos < 0 || pos >= s.len() {
        Err(DecodeError::UnexpectedEof)
    } else if s[pos] == BYTE_E {
        Ok((acc, pos + 1))
    } else {
        match parse_bytes_at(s, pos) {
            Ok((key, key_end)) => if pos < key_end {
                match parse_value_at(s, key_end) {
                    Ok((v, end)) => if key_end < end <= s.len() {
                        parse_entries_at(s, end, dict_insert(acc, key, v))
                    } else {
                        Err(DecodeError::UnexpectedEof)
                    },
                    Err(e) => Err(e),
                }
            } else {
                Err(DecodeError::UnexpectedEof)
            },
            Err(e) => Err(e),
        }
    }
}

/// What is wrong with an input that has to start with the byte `tag`, if
/// anything.
pub open spec fn expect_tag(s: Seq<u8>, tag: u8) -> Option<DecodeError> {
    if s.len() == 0 {
        Some(DecodeError::UnexpectedEof)
    } else if s[0] != tag {
        Some(DecodeError::BadDelimiter)
    } else {
        None
    }
}

/// Reads a whole byte string as one value.
pub open spec fn decode_value(s: Seq<u8>) -> Result<Value, DecodeError> {
    match parse_value_at(s, 0) {
        Ok((v, end)) => if end == s.len() {
            Ok(v)
        } else {
            Err(DecodeError::TrailingData)
        },
        Err(e) => Err(e),
    }
}

} // verus!

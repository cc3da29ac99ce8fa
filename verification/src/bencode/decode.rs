//! Reading bytes as a value.

use vstd::prelude::*;
use vstd::slice::slice_subrange;
use crate::bencode::bounds::{lemma_parse_bytes_advances, lemma_parse_value_advances};
use crate::bencode::decimal::scan_digits;
use crate::bencode::grammar::{
    decode_value, expect_tag, parse_bytes_at, parse_entries_at, parse_integer_at, parse_items_at,
    parse_value_at, DecodeError, BYTE_COLON, BYTE_D, BYTE_E, BYTE_I, BYTE_L, BYTE_MINUS, BYTE_ZERO,
};
use crate::bencode::value::{canonical, list_view, representable, BencodeValue, Dict, Value};
use crate::util::copy_range;

verus! {

/// Reads a byte string at `pos`: the string and the position after it.
pub fn read_bytes(input: &[u8], pos: usize) -> (r: Result<(Vec<u8>, usize), DecodeError>)
    requires
        pos <= input.len(),
    ensures
        match parse_bytes_at(input@, pos as int) {
            Ok((bytes, end)) => r matches Ok((b, e)) && b@ == bytes && e == end,
            Err(error) => r == Err::<(Vec<u8>, usize), DecodeError>(error),
        },
{
    if pos >= input.len() {
        return Err(DecodeError::UnexpectedEof);
    }
    if input[pos] < 48 || input[pos] > 57 {
        return Err(DecodeError::ExpectedDigit);
    }
    let run = scan_digits(input, pos);
    if input[pos] == BYTE_ZERO && run.end > pos + 1 {
        return Err(DecodeError::LeadingZero);
    }
    if run.end >= input.len() {
        return Err(DecodeError::UnexpectedEof);
    }
    if input[run.end] != BYTE_COLON {
        return Err(DecodeError::BadDelimiter);
    }
    let start: usize = run.end + 1;
    if run.overflow || run.value > (input.len() - start) as u128 {
        return Err(DecodeError::UnexpectedEof);
    }
    let end: usize = start + (run.value as usize);
    Ok((copy_range(input, start, end), end))
}

/// Reads an integer at `pos`, where an `i` stands: the integer and the
/// position after its `e`.
pub fn read_integer(input: &[u8], pos: usize) -> (r: Result<(i128, usize), DecodeError>)
    requires
        pos < input.len(),
    ensures
        match parse_integer_at(input@, pos as int) {
            Ok((i, end)) => r == Ok::<(i128, usize), DecodeError>((i as i128, end as usize)) && i
                == i as i128 && end == end as usize,
            Err(error) => r == Err::<(i128, usize), DecodeError>(error),
        },
{
    let negative: bool = pos + 1 < input.len() && input[pos + 1] == BYTE_MINUS;
    let start: usize = if negative {
        pos + 2
    } else {
        pos + 1
    };
    if start >= input.len() {
        return Err(DecodeError::UnexpectedEof);
    }
    if input[start] < 48 || input[start] > 57 {
        return Err(DecodeError::ExpectedDigit);
    }
    let run = scan_digits(input, start);
    if input[start] == BYTE_ZERO && negative {
        return Err(DecodeError::NegativeZero);
    }
    if input[start] == BYTE_ZERO && run.end > start + 1 {
        return Err(DecodeError::LeadingZero);
    }
    if run.end >= input.len() {
        return Err(DecodeError::UnexpectedEof);
    }
    if input[run.end] != BYTE_E {
        return Err(DecodeError::BadDelimiter);
    }
    if run.overflow || run.value > i128::MAX as u128 {
        return Err(DecodeError::IntegerOverflow);
    }
    if negative {
        Ok((-(run.value as i128), run.end + 1))
    } else {
        Ok((run.value as i128, run.end + 1))
    }
}

/// Reads one value at `pos`: the value and the position after it.
pub fn read_value(input: &[u8], pos: usize) -> (r: Result<(BencodeValue, usize), DecodeError>)
    requires
        pos <= input.len(),
    ensures
        match parse_value_at(input@, pos as int) {
            Ok((value, end)) => r matches Ok((v, e)) && v@ == value && e == end,
            Err(error) => r == Err::<(BencodeValue, usize), DecodeError>(error),
        },
    decreases input.len() - pos, 0nat,
{
    if pos >= input.len() {
        return Err(DecodeError::UnexpectedEof);
    }
    let first: u8 = input[pos];
    if first == BYTE_I {
        match read_integer(input, pos) {
            Ok((i, end)) => Ok((BencodeValue::Integer(i), end)),
            Err(e) => Err(e),
        }
    } else if first == BYTE_L {
        match read_items(input, pos + 1) {
            Ok((items, end)) => Ok((BencodeValue::List(items), end)),
            Err(e) => Err(e),
        }
    } else if first == BYTE_D {
        match read_entries(input, pos + 1) {
            Ok((dict, end)) => Ok((BencodeValue::Dict(dict), end)),
            Err(e) => Err(e),
        }
    } else if first >= 48 && first <= 57 {
        match read_bytes(input, pos) {
            Ok((b, end)) => Ok((BencodeValue::Bytes(b), end)),
            Err(e) => Err(e),
        }
    } else {
        Err(DecodeError::BadDelimiter)
    }
}

/// Reads the items of a list from `pos` up to its closing `e`: the items
/// and the position after the `e`.
pub fn read_items(input: &[u8], pos: usize) -> (r: Result<(Vec<BencodeValue>, usize), DecodeError>)
    requires
        pos <= input.len(),
    ensures
        match parse_items_at(input@, pos as int, Seq::empty()) {
            Ok((items, end)) => r matches Ok((l, e)) && list_view(l@) == items && e == end,
            Err(error) => r == Err::<(Vec<BencodeValue>, usize), DecodeError>(error),
        },
    decreases input.len() - pos, 1nat,
{
    let mut items: Vec<BencodeValue> = Vec::new();
    let mut p: usize = pos;
    assert(list_view(items@) =~= Seq::<Value>::empty());
    loop
        invariant
            pos <= p <= input.len(),
            parse_items_at(input@, p as int, list_view(items@)) == parse_items_at(
                input@,
                pos as int,
                Seq::empty(),
            ),
        decreases input.len() - p,
    {
        if p >= input.len() {
            return Err(DecodeError::UnexpectedEof);
        }
        if input[p] == BYTE_E {
            return Ok((items, p + 1));
        }
        match read_value(input, p) {
            Err(e) => {
                return Err(e);
            },
            Ok((v, end)) => {
                proof {
                    lemma_parse_value_advances(input@, p as int);
                    assert(list_view(items@.push(v)) =~= list_view(items@).push(v@));
                }
                items.push(v);
                p = end;
            },
        }
    }
}

/// Reads the entries of a dictionary from `pos` up to its closing `e`: the
/// dictionary and the position after the `e`. Of two entries with one key
/// the later one stays.
pub fn read_entries(input: &[u8], pos: usize) -> (r: Result<(Dict, usize), DecodeError>)
    requires
        pos <= input.len(),
    ensures
        match parse_entries_at(input@, pos as int, Seq::empty()) {
            Ok((entries, end)) => r matches Ok((d, e)) && d@ == entries && e == end,
            Err(error) => r == Err::<(Dict, usize), DecodeError>(error),
        },
    decreases input.len() - pos, 1nat,
{
    let mut dict: Dict = Dict::new();
    let mut p: usize = pos;
    assert(dict@ =~= Seq::<(Seq<u8>, Value)>::empty());
    loop
        invariant
            pos <= p <= input.len(),
            parse_entries_at(input@, p as int, dict@) == parse_entries_at(
                input@,
                pos as int,
                Seq::empty(),
            ),
        decreases input.len() - p,
    {
        if p >= input.len() {
            return Err(DecodeError::UnexpectedEof);
        }
        if input[p] == BYTE_E {
            return Ok((dict, p + 1));
        }
        match read_bytes(input, p) {
            Err(e) => {
                return Err(e);
            },
            Ok((key, key_end)) => {
                proof {
                    lemma_parse_bytes_advances(input@, p as int);
                }
                match read_value(input, key_end) {
                    Err(e) => {
                        return Err(e);
                    },
                    Ok((v, end)) => {
                        proof {
                            lemma_parse_value_advances(input@, key_end as int);
                        }
                        dict.insert(key, v);
                        p = end;
                    },
                }
            },
        }
    }
}

/// Reads a byte string at the start of the input: what follows it, and the
/// string.
pub fn parse_bytes<'a>(input: &'a [u8]) -> (r: Result<(&'a [u8], &'a [u8]), DecodeError>)
    ensures
        match parse_bytes_at(input@, 0) {
            Ok((bytes, end)) => r matches Ok((rest, b)) && b@ == bytes && rest@ == input@.skip(
                end,
            ),
            Err(error) => r == Err::<(&[u8], &[u8]), DecodeError>(error),
        },
{
    match read_bytes(input, 0) {
        Ok((bytes, end)) => {
            proof {
                lemma_parse_bytes_advances(input@, 0);
            }
            let start: usize = end - bytes.len();
            let value = slice_subrange(input, start, end);
            let rest = slice_subrange(input, end, input.len());
            assert(rest@ =~= input@.skip(end as int));
            assert(value@ =~= bytes@) by {
                let run_end = crate::bencode::decimal::digits_end(input@, 0);
                assert(bytes@ == input@.subrange(run_end + 1, end as int));
            }
            Ok((rest, value))
        },
        Err(e) => Err(e),
    }
}

/// Reads an integer at the start of the input: what follows it, and the
/// integer.
pub fn parse_integer<'a>(input: &'a [u8]) -> (r: Result<(&'a [u8], i128), DecodeError>)
    ensures
        match expect_tag(input@, BYTE_I) {
            Some(error) => r == Err::<(&[u8], i128), DecodeError>(error),
            None => match parse_integer_at(input@, 0) {
                Ok((i, end)) => r matches Ok((rest, out)) && out == i && rest@ == input@.skip(end),
                Err(error) => r == Err::<(&[u8], i128), DecodeError>(error),
            },
        },
{
    if input.len() == 0 {
        return Err(DecodeError::UnexpectedEof);
    }
    if input[0] != BYTE_I {
        return Err(DecodeError::BadDelimiter);
    }
    match read_integer(input, 0) {
        Ok((i, end)) => {
            proof {
                crate::bencode::bounds::lemma_parse_integer_advances(input@, 0);
            }
            let rest = slice_subrange(input, end, input.len());
            assert(rest@ =~= input@.skip(end as int));
            Ok((rest, i))
        },
        Err(e) => Err(e),
    }
}

/// Reads a list at the start of the input: what follows it, and its items.
pub fn parse_list<'a>(input: &'a [u8]) -> (r: Result<(&'a [u8], Vec<BencodeValue>), DecodeError>)
    ensures
        match expect_tag(input@, BYTE_L) {
            Some(error) => r == Err::<(&[u8], Vec<BencodeValue>), DecodeError>(error),
            None => match parse_items_at(input@, 1, Seq::empty()) {
                Ok((items, end)) => r matches Ok((rest, l)) && list_view(l@) == items && rest@
                    == input@.skip(end),
                Err(error) => r == Err::<(&[u8], Vec<BencodeValue>), DecodeError>(error),
            },
        },
{
    if input.len() == 0 {
        return Err(DecodeError::UnexpectedEof);
    }
    if input[0] != BYTE_L {
        return Err(DecodeError::BadDelimiter);
    }
    match read_items(input, 1) {
        Ok((items, end)) => {
            proof {
                crate::bencode::bounds::lemma_parse_items_advances(input@, 1, Seq::empty());
            }
            let rest = slice_subrange(input, end, input.len());
            assert(rest@ =~= input@.skip(end as int));
            Ok((rest, items))
        },
        Err(e) => Err(e),
    }
}

/// Reads a dictionary at the start of the input: what follows it, and the
/// dictionary.
pub fn parse_dict<'a>(input: &'a [u8]) -> (r: Result<(&'a [u8], Dict), DecodeError>)
    ensures
        match expect_tag(input@, BYTE_D) {
            Some(error) => r == Err::<(&[u8], Dict), DecodeError>(error),
            None => match parse_entries_at(input@, 1, Seq::empty()) {
                Ok((entries, end)) => r matches Ok((rest, d)) && d@ == entries && rest@
                    == input@.skip(end),
                Err(error) => r == Err::<(&[u8], Dict), DecodeError>(error),
            },
        },
{
    if input.len() == 0 {
        return Err(DecodeError::UnexpectedEof);
    }
    if input[0] != BYTE_D {
        return Err(DecodeError::BadDelimiter);
    }
    match read_entries(input, 1) {
        Ok((dict, end)) => {
            proof {
                crate::bencode::bounds::lemma_parse_entries_advances(input@, 1, Seq::empty());
            }
            let rest = slice_subrange(input, end, input.len());
            assert(rest@ =~= input@.skip(end as int));
            Ok((rest, dict))
        },
        Err(e) => Err(e),
    }
}

/// Reads one value at the start of the input: what follows it, and the
/// value.
pub fn parse_once<'a>(input: &'a [u8]) -> (r: Result<(&'a [u8], BencodeValue), DecodeError>)
    ensures
        match parse_value_at(input@, 0) {
            Ok((value, end)) => r matches Ok((rest, v)) && v@ == value && rest@ == input@.skip(
                end,
            ),
            Err(error) => r == Err::<(&[u8], BencodeValue), DecodeError>(error),
        },
{
    match read_value(input, 0) {
        Ok((v, end)) => {
            proof {
                lemma_parse_value_advances(input@, 0);
            }
            let rest = slice_subrange(input, end, input.len());
            assert(rest@ =~= input@.skip(end as int));
            Ok((rest, v))
        },
        Err(e) => Err(e),
    }
}

impl BencodeValue {
    /// Reads the whole input as one value; bytes after the value are an
    /// error. A value that is read is canonical and representable: written
    /// again, it is read back as itself.
    pub fn decode(input: &[u8]) -> (r: Result<BencodeValue, DecodeError>)
        ensures
            match decode_value(input@) {
                Ok(value) => r matches Ok(v) && v@ == value && canonical(value) && representable(
                    value,
                ),
                Err(error) => r == Err::<BencodeValue, DecodeError>(error),
            },
    {
        match read_value(input, 0) {
            Ok((v, end)) => {
                proof {
                    lemma_parse_value_advances(input@, 0);
                    crate::bencode::laws::lemma_parsed_value_well_formed(input@, 0);
                }
                if end == input.len() {
                    Ok(v)
                } else {
                    Err(DecodeError::TrailingData)
                }
            },
            Err(e) => Err(e),
        }
    }
}

} // verus!

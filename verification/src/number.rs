//! Unsigned integers as decimal text, as query strings carry them.

use vstd::prelude::*;
use crate::bencode::decimal::{digits_end, digits_value, scan_digits};

verus! {

/// The byte `+`, which may stand before a number.
pub const BYTE_PLUS: u8 = 43;

/// The number that a text stands for: an optional `+`, then decimal digits
/// and nothing else, at least one of them, with a value of at most `max`.
pub open spec fn parse_unsigned(s: Seq<u8>, max: nat) -> Option<nat> {
    let start: int = if s.len() > 0 && s[0] == BYTE_PLUS {
        1
    } else {
        0
    };
    if start < s.len() && digits_end(s, start) == s.len() && digits_value(
        s,
        start,
        s.len() as int,
    ) <= max {
        Some(digits_value(s, start, s.len() as int))
    } else {
        None
    }
}

/// Reads a `u64` from decimal text.
pub fn parse_u64(input: &[u8]) -> (r: Option<u64>)
    ensures
        match parse_unsigned(input@, u64::MAX as nat) {
            Some(n) => r == Some(n as u64),
            None => r is None,
        },
{
    let start: usize = if input.len() > 0 && input[0] == BYTE_PLUS {
        1
    } else {
        0
    };
    if start >= input.len() {
        return None;
    }
    let run = scan_digits(input, start);
    if run.end != input.len() || run.overflow || run.value > u64::MAX as u128 {
        return None;
    }
    Some(run.value as u64)
}

/// Reads a `u16` from decimal text.
pub fn parse_u16(input: &[u8]) -> (r: Option<u16>)
    ensures
        match parse_unsigned(input@, u16::MAX as nat) {
            Some(n) => r == Some(n as u16),
            None => r is None,
        },
{
    let start: usize = if input.len() > 0 && input[0] == BYTE_PLUS {
        1
    } else {
        0
    };
    if start >= input.len() {
        return None;
    }
    let run = scan_digits(input, start);
    if run.end != input.len() || run.overflow || run.value > u16::MAX as u128 {
        return None;
    }
    Some(run.value as u16)
}

} // verus!

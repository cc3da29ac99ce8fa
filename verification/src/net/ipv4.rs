//! Version 4 addresses in dotted decimal.

use vstd::prelude::*;
use crate::bencode::decimal::{
    decimal, digits_end, digits_value, lemma_decimal_shape, push_decimal, scan_digits,
};
use crate::text::{all_ascii, lemma_all_ascii_concat};

verus! {

/// The byte `.`, which stands between the bytes of an address.
pub const BYTE_DOT: u8 = 46;

/// A version 4 address in dotted decimal: its four bytes in decimal,
/// separated by dots.
pub open spec fn ipv4_text(a: u32) -> Seq<u8> {
    decimal((a / 16777216) as nat) + seq![BYTE_DOT] + decimal((a / 65536 % 256) as nat)
        + seq![BYTE_DOT] + decimal((a / 256 % 256) as nat) + seq![BYTE_DOT] + decimal(
        (a % 256) as nat,
    )
}

/// The byte that is written at `pos` in dotted decimal, and the position
/// after it: one to three digits, no leading zero, at most 255.
pub open spec fn parse_octet(s: Seq<u8>, pos: int) -> Option<(int, int)> {
    let end = digits_end(s, pos);
    let value = digits_value(s, pos, end);
    if 0 <= pos < s.len() && pos < end <= pos + 3 && !(s[pos] == 48 && end > pos + 1) && value
        <= 255 {
        Some((value as int, end))
    } else {
        None
    }
}

/// Whether a dot stands at `pos`.
pub open spec fn dot_at(s: Seq<u8>, pos: int) -> bool {
    0 <= pos < s.len() && s[pos] == BYTE_DOT
}

/// The version 4 address that is written at `pos` in dotted decimal, and
/// the position after it: four bytes and three dots.
pub open spec fn parse_ipv4_at(s: Seq<u8>, pos: int) -> Option<(u32, int)> {
    match parse_octet(s, pos) {
        Some((a, e1)) => match parse_octet(s, e1 + 1) {
            Some((b, e2)) => match parse_octet(s, e2 + 1) {
                Some((c, e3)) => match parse_octet(s, e3 + 1) {
                    Some((d, e4)) => if dot_at(s, e1) && dot_at(s, e2) && dot_at(s, e3) {
                        Some(((a * 16777216 + b * 65536 + c * 256 + d) as u32, e4))
                    } else {
                        None
                    },
                    None => None,
                },
                None => None,
            },
            None => None,
        },
        None => None,
    }
}

/// The version 4 address that a text in dotted decimal stands for: four
/// bytes and three dots, and nothing else.
pub open spec fn parse_ipv4(s: Seq<u8>) -> Option<u32> {
    match parse_ipv4_at(s, 0) {
        Some((a, end)) => if end == s.len() {
            Some(a)
        } else {
            None
        },
        None => None,
    }
}

/// Reads one byte of a dotted-decimal address at `pos`.
fn read_octet(input: &[u8], pos: usize) -> (r: Option<(u8, usize)>)
    requires
        pos <= input.len(),
    ensures
        match parse_octet(input@, pos as int) {
            Some((value, end)) => r == Some((value as u8, end as usize)) && pos < end
                <= input.len(),
            None => r is None,
        },
{
    if pos >= input.len() {
        return None;
    }
    let run = scan_digits(input, pos);
    if run.end == pos || run.end - pos > 3 || (input[pos] == 48 && run.end > pos + 1)
        || run.overflow || run.value > 255 {
        return None;
    }
    Some((run.value as u8, run.end))
}

/// Reads a version 4 address in dotted decimal at `pos`.
pub fn read_ipv4_at(input: &[u8], pos: usize) -> (r: Option<(u32, usize)>)
    requires
        pos <= input.len(),
    ensures
        match parse_ipv4_at(input@, pos as int) {
            Some((a, end)) => r == Some((a, end as usize)) && pos < end <= input.len(),
            None => r is None,
        },
{
    let (a, e1) = match read_octet(input, pos) {
        Some(found) => found,
        None => {
            return None;
        },
    };
    if e1 >= input.len() {
        return None;
    }
    let (b, e2) = match read_octet(input, e1 + 1) {
        Some(found) => found,
        None => {
            return None;
        },
    };
    if e2 >= input.len() {
        return None;
    }
    let (c, e3) = match read_octet(input, e2 + 1) {
        Some(found) => found,
        None => {
            return None;
        },
    };
    if e3 >= input.len() {
        return None;
    }
    let (d, e4) = match read_octet(input, e3 + 1) {
        Some(found) => found,
        None => {
            return None;
        },
    };
    if input[e1] != BYTE_DOT || input[e2] != BYTE_DOT || input[e3] != BYTE_DOT {
        return None;
    }
    Some(((a as u32) * 16777216 + (b as u32) * 65536 + (c as u32) * 256 + (d as u32), e4))
}

/// Reads a version 4 address in dotted decimal.
pub fn read_ipv4(input: &[u8]) -> (r: Option<u32>)
    ensures
        r == parse_ipv4(input@),
{
    match read_ipv4_at(input, 0) {
        Some((a, end)) => {
            if end == input.len() {
                Some(a)
            } else {
                None
            }
        },
        None => None,
    }
}

/// Appends a version 4 address in dotted decimal.
pub fn push_ipv4(out: &mut Vec<u8>, a: u32)
    ensures
        final(out)@ == old(out)@ + ipv4_text(a),
{
    push_decimal(out, (a / 16777216) as u128);
    out.push(BYTE_DOT);
    push_decimal(out, (a / 65536 % 256) as u128);
    out.push(BYTE_DOT);
    push_decimal(out, (a / 256 % 256) as u128);
    out.push(BYTE_DOT);
    push_decimal(out, (a % 256) as u128);
    assert(out@ =~= old(out)@ + ipv4_text(a));
}

/// The text of a version 4 address holds ASCII bytes only.
pub proof fn lemma_ipv4_text_ascii(a: u32)
    ensures
        all_ascii(ipv4_text(a)),
{
    let d0 = decimal((a / 16777216) as nat);
    let d1 = decimal((a / 65536 % 256) as nat);
    let d2 = decimal((a / 256 % 256) as nat);
    let d3 = decimal((a % 256) as nat);
    lemma_decimal_shape((a / 16777216) as nat);
    lemma_decimal_shape((a / 65536 % 256) as nat);
    lemma_decimal_shape((a / 256 % 256) as nat);
    lemma_decimal_shape((a % 256) as nat);
    let dot = seq![BYTE_DOT];
    lemma_all_ascii_concat(d0, dot);
    lemma_all_ascii_concat(d0 + dot, d1);
    lemma_all_ascii_concat(d0 + dot + d1, dot);
    lemma_all_ascii_concat(d0 + dot + d1 + dot, d2);
    lemma_all_ascii_concat(d0 + dot + d1 + dot + d2, dot);
    lemma_all_ascii_concat(d0 + dot + d1 + dot + d2 + dot, d3);
}

/// The numeral of a byte has one to three digits.
proof fn lemma_decimal_of_byte(n: nat)
    requires
        n <= 255,
    ensures
        1 <= decimal(n).len() <= 3,
{
    reveal_with_fuel(decimal, 4);
}

/// Where the numeral of a byte stands at `pos` and no digit follows it,
/// the byte is read there.
proof fn lemma_octet_read_back(s: Seq<u8>, pos: int, n: nat)
    requires
        n <= 255,
        0 <= pos,
        pos + decimal(n).len() <= s.len(),
        s.subrange(pos, pos + decimal(n).len()) == decimal(n),
        pos + decimal(n).len() < s.len() ==> !crate::bencode::decimal::is_digit(
            s[pos + decimal(n).len()],
        ),
    ensures
        parse_octet(s, pos) == Some((n as int, pos + decimal(n).len())),
{
    lemma_decimal_of_byte(n);
    lemma_decimal_shape(n);
    crate::bencode::decimal::lemma_decimal_read_back(s, pos, n);
}

/// Where the text of a version 4 address stands at `pos` and no digit
/// follows it, the address is read there.
pub proof fn lemma_ipv4_read_back(s: Seq<u8>, pos: int, a: u32)
    requires
        0 <= pos,
        pos + ipv4_text(a).len() <= s.len(),
        s.subrange(pos, pos + ipv4_text(a).len()) == ipv4_text(a),
        pos + ipv4_text(a).len() < s.len() ==> !crate::bencode::decimal::is_digit(
            s[pos + ipv4_text(a).len()],
        ),
    ensures
        parse_ipv4_at(s, pos) == Some((a, pos + ipv4_text(a).len())),
{
    let n0 = (a / 16777216) as nat;
    let n1 = (a / 65536 % 256) as nat;
    let n2 = (a / 256 % 256) as nat;
    let n3 = (a % 256) as nat;
    let d0 = decimal(n0);
    let d1 = decimal(n1);
    let d2 = decimal(n2);
    let d3 = decimal(n3);
    let t = ipv4_text(a);
    let p1: int = d0.len() as int + 1;
    let p2: int = p1 + d1.len() + 1;
    let p3: int = p2 + d2.len() + 1;
    assert(t.len() == p3 + d3.len());
    assert forall|i: int| 0 <= i < t.len() implies s[pos + i] == #[trigger] t[i] by {
        assert(s.subrange(pos, pos + t.len())[i] == s[pos + i]);
    }
    assert(s.subrange(pos, pos + d0.len()) =~= d0) by {
        assert forall|i: int| 0 <= i < d0.len() implies s[pos + i] == d0[i] by {
            assert(t[i] == d0[i]);
        }
    }
    assert(s[pos + d0.len()] == BYTE_DOT) by {
        assert(t[d0.len() as int] == BYTE_DOT);
    }
    assert(s.subrange(pos + p1, pos + p1 + d1.len()) =~= d1) by {
        assert forall|i: int| 0 <= i < d1.len() implies s[pos + p1 + i] == d1[i] by {
            assert(t[p1 + i] == d1[i]);
        }
    }
    assert(s[pos + p1 + d1.len()] == BYTE_DOT) by {
        assert(t[p1 + d1.len()] == BYTE_DOT);
    }
    assert(s.subrange(pos + p2, pos + p2 + d2.len()) =~= d2) by {
        assert forall|i: int| 0 <= i < d2.len() implies s[pos + p2 + i] == d2[i] by {
            assert(t[p2 + i] == d2[i]);
        }
    }
    assert(s[pos + p2 + d2.len()] == BYTE_DOT) by {
        assert(t[p2 + d2.len()] == BYTE_DOT);
    }
    assert(s.subrange(pos + p3, pos + p3 + d3.len()) =~= d3) by {
        assert forall|i: int| 0 <= i < d3.len() implies s[pos + p3 + i] == d3[i] by {
            assert(t[p3 + i] == d3[i]);
        }
    }
    lemma_octet_read_back(s, pos, n0);
    lemma_octet_read_back(s, pos + p1, n1);
    lemma_octet_read_back(s, pos + p2, n2);
    lemma_octet_read_back(s, pos + p3, n3);
    assert(n0 * 16777216 + n1 * 65536 + n2 * 256 + n3 == a) by {
        let v: int = a as int;
        assert(v == 256 * (v / 256) + n3);
        assert(v / 256 == 256 * (v / 65536) + n2);
        assert(v / 65536 == 256 * n0 + n1);
    }
}

/// A version 4 address that is written is read back.
pub proof fn law_ipv4_text_round_trip(a: u32)
    ensures
        parse_ipv4(ipv4_text(a)) == Some(a),
{
    let t = ipv4_text(a);
    assert(t.subrange(0, t.len() as int) =~= t);
    lemma_ipv4_read_back(t, 0, a);
}

} // verus!

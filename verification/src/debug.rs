//! Lines that show what went over a connection, for a reader at a
//! terminal: the bytes in hexadecimal and as text, under a prefix that
//! names the connection.

use vstd::prelude::*;
use vstd::string::StringSliceAdditionalSpecFns;
use vstd::string::StrSliceExecFns;
use vstd::utf8::{encode_utf8, encode_utf8_valid_utf8, valid_utf8, valid_utf8_concat};
use crate::bencode::decimal::{decimal, lemma_decimal_shape, push_decimal};
use crate::net::{hex_numeral, lemma_hex_numeral_ascii, push_hex_numeral};
use crate::text::{all_ascii, lemma_ascii_is_utf8, read_text};
use crate::util::append_slice;

verus! {

/// Shows what is read from a source, under a prefix.
#[derive(Debug)]
pub struct DebugBufReader<R> {
    pub prefix: String,
    pub inner: R,
}

/// Shows what is written to a sink, under a prefix.
#[derive(Debug)]
pub struct DebugWriter<W> {
    pub prefix: String,
    pub inner: W,
}

/// The byte of a space.
pub const BYTE_SPACE: u8 = 32;

/// The byte `.`, which is shown for a byte that cannot be printed.
pub const BYTE_FULL_STOP: u8 = 46;

/// `n` spaces; none where `n` is negative.
pub open spec fn spaces(n: int) -> Seq<u8> {
    Seq::new(
        if n > 0 {
            n as nat
        } else {
            0
        },
        |i: int| BYTE_SPACE,
    )
}

/// The bytes in hexadecimal, two by two: before each pair a space, each
/// byte without a leading zero; a last byte alone is followed by two
/// spaces.
pub open spec fn hex_pairs(data: Seq<u8>) -> Seq<u8>
    decreases data.len(),
{
    if data.len() == 0 {
        Seq::empty()
    } else if data.len() == 1 {
        seq![BYTE_SPACE] + hex_numeral(data[0] as nat) + seq![BYTE_SPACE, BYTE_SPACE]
    } else {
        seq![BYTE_SPACE] + hex_numeral(data[0] as nat) + hex_numeral(data[1] as nat) + hex_pairs(
            data.skip(2),
        )
    }
}

/// A byte as it is shown in text: itself where it is a printable ASCII
/// byte, else a full stop.
pub open spec fn shown(b: u8) -> u8 {
    if 32 <= b < 127 {
        b
    } else {
        BYTE_FULL_STOP
    }
}

/// The bytes as they are shown in text.
pub open spec fn shown_text(data: Seq<u8>) -> Seq<u8> {
    Seq::new(data.len(), |i: int| shown(data[i]))
}

/// One line for some bytes, at most sixteen as a rule: the prefix, filled up to
/// twenty-three bytes, the symbol, the bytes in hexadecimal, filled up so
/// that the text stands in one column, and the bytes as text.
pub open spec fn line_of(prefix: Seq<u8>, symbol: Seq<u8>, data: Seq<u8>) -> Seq<u8> {
    prefix + spaces(23 - prefix.len()) + symbol + hex_pairs(data) + spaces(
        9 - (data.len() + 1) / 2,
    ) + spaces(17 - data.len()) + spaces(2) + shown_text(data)
}

/// The line that says how many bytes there were in all, where not all of
/// them are shown: the prefix, filled up to twenty-one characters, and the
/// symbol.
pub open spec fn summary_of(prefix: Seq<char>, symbol: Seq<u8>, len: nat) -> Seq<u8> {
    encode_utf8(prefix) + spaces(21 - prefix.len()) + seq![BYTE_SPACE] + symbol
        + " ..... ".spec_bytes() + decimal(len) + " bytes total .....".spec_bytes()
}

/// The lines for some bytes: one line for up to sixteen bytes, two for up
/// to thirty-two, and for more the first thirty-two in two lines and a
/// line that says how many there were.
pub open spec fn lines_of(prefix: Seq<char>, symbol: Seq<u8>, data: Seq<u8>) -> Seq<Seq<u8>> {
    if data.len() <= 16 {
        seq![line_of(encode_utf8(prefix), symbol, data)]
    } else if data.len() <= 32 {
        seq![
            line_of(encode_utf8(prefix), symbol, data.subrange(0, 16)),
            line_of(encode_utf8(prefix), symbol, data.subrange(16, data.len() as int)),
        ]
    } else {
        seq![
            line_of(encode_utf8(prefix), symbol, data.subrange(0, 16)),
            line_of(encode_utf8(prefix), symbol, data.subrange(16, 32)),
            summary_of(prefix, symbol, data.len()),
        ]
    }
}

/// The model of a sequence of lines: the bytes of each.
pub open spec fn lines_view(lines: Seq<String>) -> Seq<Seq<u8>> {
    Seq::new(lines.len(), |i: int| encode_utf8(lines[i]@))
}

proof fn lemma_spaces(n: int)
    ensures
        all_ascii(spaces(n)),
        valid_utf8(spaces(n)),
        spaces(n + 1) == if n >= 0 {
            spaces(n).push(BYTE_SPACE)
        } else {
            spaces(n)
        },
{
    lemma_ascii_is_utf8(spaces(n));
    if n >= 0 {
        assert(spaces(n + 1) =~= spaces(n).push(BYTE_SPACE));
    } else {
        assert(spaces(n + 1) =~= spaces(n));
    }
}

/// Appends `n` spaces.
fn push_spaces(out: &mut Vec<u8>, n: usize)
    ensures
        final(out)@ == old(out)@ + spaces(n as int),
        valid_utf8(old(out)@) ==> valid_utf8(final(out)@),
{
    let mut i: usize = 0;
    assert(out@ =~= old(out)@ + spaces(0));
    while i < n
        invariant
            i <= n,
            out@ == old(out)@ + spaces(i as int),
        decreases n - i,
    {
        proof {
            lemma_spaces(i as int);
        }
        out.push(BYTE_SPACE);
        assert(out@ =~= old(out)@ + spaces(i + 1));
        i += 1;
    }
    proof {
        lemma_spaces(n as int);
        if valid_utf8(old(out)@) {
            valid_utf8_concat(old(out)@, spaces(n as int));
        }
    }
}

proof fn lemma_hex_pairs_ascii(data: Seq<u8>)
    ensures
        all_ascii(hex_pairs(data)),
    decreases data.len(),
{
    if data.len() == 1 {
        lemma_hex_numeral_ascii(data[0] as nat);
        crate::text::lemma_all_ascii_concat(seq![BYTE_SPACE], hex_numeral(data[0] as nat));
        crate::text::lemma_all_ascii_concat(
            seq![BYTE_SPACE] + hex_numeral(data[0] as nat),
            seq![BYTE_SPACE, BYTE_SPACE],
        );
    } else if data.len() >= 2 {
        lemma_hex_pairs_ascii(data.skip(2));
        lemma_hex_numeral_ascii(data[0] as nat);
        lemma_hex_numeral_ascii(data[1] as nat);
        let a = seq![BYTE_SPACE] + hex_numeral(data[0] as nat);
        crate::text::lemma_all_ascii_concat(seq![BYTE_SPACE], hex_numeral(data[0] as nat));
        crate::text::lemma_all_ascii_concat(a, hex_numeral(data[1] as nat));
        crate::text::lemma_all_ascii_concat(
            a + hex_numeral(data[1] as nat),
            hex_pairs(data.skip(2)),
        );
    }
}

/// The pairs of the first `2 * k + 2` bytes are those of the first `2 * k`
/// and the pair that follows.
proof fn lemma_hex_pairs_step(data: Seq<u8>, k: int)
    requires
        0 <= k,
        2 * k + 2 <= data.len(),
    ensures
        hex_pairs(data.take(2 * k + 2)) == hex_pairs(data.take(2 * k)) + (seq![BYTE_SPACE]
            + hex_numeral(data[2 * k] as nat) + hex_numeral(data[2 * k + 1] as nat)),
    decreases k,
{
    let long = data.take(2 * k + 2);
    let short = data.take(2 * k);
    let pair = seq![BYTE_SPACE] + hex_numeral(data[2 * k] as nat) + hex_numeral(
        data[2 * k + 1] as nat,
    );
    if k == 0 {
        assert(long.skip(2) =~= Seq::<u8>::empty());
        assert(short =~= Seq::<u8>::empty());
        assert(hex_pairs(long) =~= hex_pairs(short) + pair);
    } else {
        let tail = data.skip(2);
        assert(long.skip(2) =~= tail.take(2 * (k - 1) + 2));
        assert(short.skip(2) =~= tail.take(2 * (k - 1)));
        lemma_hex_pairs_step(tail, k - 1);
        assert(tail[2 * (k - 1)] == data[2 * k]);
        assert(tail[2 * (k - 1) + 1] == data[2 * k + 1]);
        assert(long[0] == data[0] && long[1] == data[1]);
        assert(short[0] == data[0] && short[1] == data[1]);
        let head = seq![BYTE_SPACE] + hex_numeral(data[0] as nat) + hex_numeral(data[1] as nat);
        assert(hex_pairs(long) == head + hex_pairs(long.skip(2)));
        assert(hex_pairs(short) == head + hex_pairs(short.skip(2)));
        assert(head + (hex_pairs(short.skip(2)) + pair) =~= (head + hex_pairs(short.skip(2)))
            + pair);
    }
}

/// The pairs of an odd number of bytes are those of all but the last, and
/// the last byte alone.
proof fn lemma_hex_pairs_last(data: Seq<u8>, k: int)
    requires
        0 <= k,
        2 * k + 1 == data.len(),
    ensures
        hex_pairs(data) == hex_pairs(data.take(2 * k)) + (seq![BYTE_SPACE] + hex_numeral(
            data[2 * k] as nat,
        ) + seq![BYTE_SPACE, BYTE_SPACE]),
    decreases k,
{
    let short = data.take(2 * k);
    let last = seq![BYTE_SPACE] + hex_numeral(data[2 * k] as nat) + seq![BYTE_SPACE, BYTE_SPACE];
    if k == 0 {
        assert(short =~= Seq::<u8>::empty());
        assert(hex_pairs(data) =~= hex_pairs(short) + last);
    } else {
        let tail = data.skip(2);
        assert(short.skip(2) =~= tail.take(2 * (k - 1)));
        lemma_hex_pairs_last(tail, k - 1);
        assert(tail[2 * (k - 1)] == data[2 * k]);
        assert(short[0] == data[0] && short[1] == data[1]);
        let head = seq![BYTE_SPACE] + hex_numeral(data[0] as nat) + hex_numeral(data[1] as nat);
        assert(hex_pairs(data) == head + hex_pairs(tail));
        assert(hex_pairs(short) == head + hex_pairs(short.skip(2)));
        assert(head + (hex_pairs(short.skip(2)) + last) =~= (head + hex_pairs(short.skip(2)))
            + last);
    }
}

/// Appends the bytes in hexadecimal, two by two.
fn push_hex_pairs(out: &mut Vec<u8>, data: &[u8])
    ensures
        final(out)@ == old(out)@ + hex_pairs(data@),
        valid_utf8(old(out)@) ==> valid_utf8(final(out)@),
{
    let mut k: usize = 0;
    let len: usize = data.len();
    let pairs: usize = len / 2;
    assert(data@.take(0) =~= Seq::<u8>::empty());
    assert(out@ =~= old(out)@ + hex_pairs(data@.take(0)));
    while k < pairs
        invariant
            k <= pairs,
            len == data@.len(),
            pairs == len / 2,
            out@ == old(out)@ + hex_pairs(data@.take(2 * k)),
        decreases pairs - k,
    {
        proof {
            lemma_hex_pairs_step(data@, k as int);
        }
        out.push(BYTE_SPACE);
        push_hex_numeral(out, data[2 * k] as u16);
        push_hex_numeral(out, data[2 * k + 1] as u16);
        assert(out@ =~= old(out)@ + hex_pairs(data@.take(2 * k + 2)));
        k += 1;
    }
    if data.len() % 2 == 1 {
        proof {
            lemma_hex_pairs_last(data@, pairs as int);
        }
        out.push(BYTE_SPACE);
        push_hex_numeral(out, data[2 * pairs] as u16);
        out.push(BYTE_SPACE);
        out.push(BYTE_SPACE);
        assert(out@ =~= old(out)@ + hex_pairs(data@));
    } else {
        assert(data@.take(2 * pairs) =~= data@);
    }
    proof {
        lemma_hex_pairs_ascii(data@);
        lemma_ascii_is_utf8(hex_pairs(data@));
        if valid_utf8(old(out)@) {
            valid_utf8_concat(old(out)@, hex_pairs(data@));
        }
    }
}

/// Appends the bytes as they are shown in text.
fn push_shown_text(out: &mut Vec<u8>, data: &[u8])
    ensures
        final(out)@ == old(out)@ + shown_text(data@),
        valid_utf8(old(out)@) ==> valid_utf8(final(out)@),
{
    let mut i: usize = 0;
    assert(out@ =~= old(out)@ + shown_text(data@.take(0)));
    while i < data.len()
        invariant
            i <= data.len(),
            out@ == old(out)@ + shown_text(data@.take(i as int)),
        decreases data.len() - i,
    {
        let b: u8 = data[i];
        if 32 <= b && b < 127 {
            out.push(b);
        } else {
            out.push(BYTE_FULL_STOP);
        }
        assert(out@ =~= old(out)@ + shown_text(data@.take(i + 1)));
        i += 1;
    }
    assert(data@.take(i as int) =~= data@);
    proof {
        lemma_ascii_is_utf8(shown_text(data@));
        if valid_utf8(old(out)@) {
            valid_utf8_concat(old(out)@, shown_text(data@));
        }
    }
}

/// Appends the bytes of a text.
fn push_str_bytes(out: &mut Vec<u8>, text: &str)
    ensures
        final(out)@ == old(out)@ + text.spec_bytes(),
        valid_utf8(old(out)@) ==> valid_utf8(final(out)@),
{
    append_slice(out, text.as_bytes());
    proof {
        encode_utf8_valid_utf8(text@);
        if valid_utf8(old(out)@) {
            valid_utf8_concat(old(out)@, text.spec_bytes());
        }
    }
}

/// One line for some bytes.
pub fn debug_line(prefix: &str, symbol: &str, data: &[u8]) -> (line: String)
    ensures
        encode_utf8(line@) == line_of(prefix.spec_bytes(), symbol.spec_bytes(), data@),
{
    let mut out: Vec<u8> = Vec::new();
    push_str_bytes(&mut out, prefix);
    let width: usize = prefix.as_bytes().len();
    push_spaces(
        &mut out,
        if width < 23 {
            23 - width
        } else {
            0
        },
    );
    assert(out@ =~= prefix.spec_bytes() + spaces(23 - prefix.spec_bytes().len()));
    push_str_bytes(&mut out, symbol);
    push_hex_pairs(&mut out, data);
    let len: usize = data.len();
    let pairs: usize = len / 2 + len % 2;
    push_spaces(
        &mut out,
        if pairs < 9 {
            9 - pairs
        } else {
            0
        },
    );
    push_spaces(
        &mut out,
        if len < 17 {
            17 - len
        } else {
            0
        },
    );
    push_spaces(&mut out, 2);
    assert(spaces(9 - pairs) =~= spaces(9 - (data@.len() + 1) / 2));
    push_shown_text(&mut out, data);
    read_text(out.as_slice())
}

/// The line that says how many bytes there were in all.
pub fn debug_summary(prefix: &str, symbol: &str, len: usize) -> (line: String)
    ensures
        encode_utf8(line@) == summary_of(prefix@, symbol.spec_bytes(), len as nat),
{
    let mut out: Vec<u8> = Vec::new();
    push_str_bytes(&mut out, prefix);
    let width: usize = prefix.unicode_len();
    push_spaces(
        &mut out,
        if width < 21 {
            21 - width
        } else {
            0
        },
    );
    assert(out@ =~= encode_utf8(prefix@) + spaces(21 - prefix@.len()));
    let ghost padded = out@;
    out.push(BYTE_SPACE);
    proof {
        lemma_ascii_is_utf8(seq![BYTE_SPACE]);
        valid_utf8_concat(padded, seq![BYTE_SPACE]);
        assert(out@ =~= padded + seq![BYTE_SPACE]);
    }
    push_str_bytes(&mut out, symbol);
    push_str_bytes(&mut out, " ..... ");
    let ghost before = out@;
    push_decimal(&mut out, len as u128);
    proof {
        lemma_decimal_shape(len as nat);
        lemma_ascii_is_utf8(decimal(len as nat));
        valid_utf8_concat(before, decimal(len as nat));
    }
    push_str_bytes(&mut out, " bytes total .....");
    read_text(out.as_slice())
}

/// The lines that show some bytes.
pub fn debug_lines(prefix: &str, symbol: &str, data: &[u8]) -> (lines: Vec<String>)
    ensures
        lines_view(lines@) == lines_of(prefix@, symbol.spec_bytes(), data@),
{
    let mut lines: Vec<String> = Vec::new();
    if data.len() <= 16 {
        lines.push(debug_line(prefix, symbol, data));
    } else if data.len() <= 32 {
        lines.push(debug_line(prefix, symbol, vstd::slice::slice_subrange(data, 0, 16)));
        lines.push(debug_line(prefix, symbol, vstd::slice::slice_subrange(data, 16, data.len())));
    } else {
        lines.push(debug_line(prefix, symbol, vstd::slice::slice_subrange(data, 0, 16)));
        lines.push(debug_line(prefix, symbol, vstd::slice::slice_subrange(data, 16, 32)));
        lines.push(debug_summary(prefix, symbol, data.len()));
    }
    assert(lines_view(lines@) =~= lines_of(prefix@, symbol.spec_bytes(), data@));
    lines
}

impl<R> DebugBufReader<R> {
    /// A reader that is shown under a prefix.
    pub fn new(prefix: String, inner: R) -> (reader: DebugBufReader<R>)
        ensures
            reader.prefix == prefix,
            reader.inner == inner,
    {
        DebugBufReader { prefix, inner }
    }

    /// The lines that show bytes that were read.
    pub fn lines(&self, data: &[u8]) -> (lines: Vec<String>)
        ensures
            lines_view(lines@) == lines_of(self.prefix@, "<-".spec_bytes(), data@),
    {
        debug_lines(self.prefix.as_str(), "<-", data)
    }
}

impl<W> DebugWriter<W> {
    /// A writer that is shown under a prefix.
    pub fn new(prefix: String, inner: W) -> (writer: DebugWriter<W>)
        ensures
            writer.prefix == prefix,
            writer.inner == inner,
    {
        DebugWriter { prefix, inner }
    }

    /// The lines that show bytes that were written.
    pub fn lines(&self, data: &[u8]) -> (lines: Vec<String>)
        ensures
            lines_view(lines@) == lines_of(self.prefix@, "->".spec_bytes(), data@),
    {
        debug_lines(self.prefix.as_str(), "->", data)
    }
}

} // verus!

//! The percent-encoding of bytes in a URL query string.

use vstd::prelude::*;
use vstd::string::StringSliceAdditionalSpecFns;

verus! {

/// Why a query-string component is not the encoding of `N` bytes.
#[derive(Clone, Copy, Debug, PartialEq, Eq, Structural)]
pub enum QsError {
    TooManyCharacters,
    TooFewCharacters,
    /// A `%` is not followed by two hexadecimal digits.
    BadEscape,
    NonAscii,
}

impl QsError {
    /// The error in words.
    pub open spec fn spec_message(self) -> Seq<char> {
        match self {
            QsError::TooManyCharacters => "Too many characters"@,
            QsError::TooFewCharacters => "Too few characters"@,
            QsError::BadEscape => "Expected % to be followed by two hex characters"@,
            QsError::NonAscii => "Unexpected non-ASCII character"@,
        }
    }

    /// The error in words.
    pub fn message(&self) -> (text: &'static str)
        ensures
            text@ == self.spec_message(),
    {
        match self {
            QsError::TooManyCharacters => "Too many characters",
            QsError::TooFewCharacters => "Too few characters",
            QsError::BadEscape => "Expected % to be followed by two hex characters",
            QsError::NonAscii => "Unexpected non-ASCII character",
        }
    }
}

/// The byte `%`, which opens an escape.
pub const BYTE_PERCENT: u8 = 37;

/// The value of a hexadecimal digit, in either case.
pub open spec fn hex_value(b: u8) -> Option<u8> {
    if 48 <= b <= 57 {
        Some((b - 48) as u8)
    } else if 97 <= b <= 102 {
        Some((b - 87) as u8)
    } else if 65 <= b <= 70 {
        Some((b - 55) as u8)
    } else {
        None
    }
}

/// The value of the hexadecimal digit at `pos`, if one stands there.
pub open spec fn hex_value_at(s: Seq<u8>, pos: int) -> Option<u8> {
    if 0 <= pos < s.len() {
        hex_value(s[pos])
    } else {
        None
    }
}

/// The lower-case hexadecimal digit of a value below 16.
pub open spec fn hex_digit(d: u8) -> u8 {
    if d < 10 {
        (48 + d) as u8
    } else {
        (87 + d) as u8
    }
}

/// Whether a byte is an ASCII letter or digit.
pub open spec fn is_alphanumeric(b: u8) -> bool {
    (48 <= b <= 57) || (65 <= b <= 90) || (97 <= b <= 122)
}

/// One byte as it stands in a query string: itself if it is an ASCII
/// letter or digit, else `%` and its two hexadecimal digits.
pub open spec fn escaped(b: u8) -> Seq<u8> {
    if is_alphanumeric(b) {
        seq![b]
    } else {
        seq![BYTE_PERCENT, hex_digit(b / 16), hex_digit(b % 16)]
    }
}

/// A byte string as it stands in a query string.
pub open spec fn url_encoded(bytes: Seq<u8>) -> Seq<u8>
    decreases bytes.len(),
{
    if bytes.len() == 0 {
        Seq::empty()
    } else {
        escaped(bytes[0]) + url_encoded(bytes.drop_first())
    }
}

/// Decodes the query-string component `s` from `pos` on into `n` bytes in
/// all, after the bytes `acc` decoded so far: `%HH` gives one byte, any
/// other ASCII byte gives itself.
pub open spec fn qs_decode_from(s: Seq<u8>, pos: int, n: nat, acc: Seq<u8>) -> Result<
    Seq<u8>,
    QsError,
>
    decreases s.len() - pos,
{
    if acc.len() >= n {
        if pos < s.len() {
            Err(QsError::TooManyCharacters)
        } else {
            Ok(acc)
        }
    } else if pos < 0 || pos >= s.len() {
        Err(QsError::TooFewCharacters)
    } else if s[pos] == BYTE_PERCENT {
        match (hex_value_at(s, pos + 1), hex_value_at(s, pos + 2)) {
            (Some(high), Some(low)) => qs_decode_from(
                s,
                pos + 3,
                n,
                acc.push((high * 16 + low) as u8),
            ),
            _ => Err(QsError::BadEscape),
        }
    } else if s[pos] < 128 {
        qs_decode_from(s, pos + 1, n, acc.push(s[pos]))
    } else {
        Err(QsError::NonAscii)
    }
}

/// Decodes a query-string component into exactly `n` bytes.
pub open spec fn qs_decode(s: Seq<u8>, n: nat) -> Result<Seq<u8>, QsError> {
    qs_decode_from(s, 0, n, Seq::empty())
}

/// Decodes the query-string component `s` from `pos` on into however many
/// bytes it gives, after the bytes `acc` decoded so far.
pub open spec fn qs_decode_rest(s: Seq<u8>, pos: int, acc: Seq<u8>) -> Result<Seq<u8>, QsError>
    decreases s.len() - pos,
{
    if pos < 0 || pos >= s.len() {
        Ok(acc)
    } else if s[pos] == BYTE_PERCENT {
        match (hex_value_at(s, pos + 1), hex_value_at(s, pos + 2)) {
            (Some(high), Some(low)) => qs_decode_rest(s, pos + 3, acc.push((high * 16 + low) as u8)),
            _ => Err(QsError::BadEscape),
        }
    } else if s[pos] < 128 {
        qs_decode_rest(s, pos + 1, acc.push(s[pos]))
    } else {
        Err(QsError::NonAscii)
    }
}

/// Decodes a query-string component into the bytes it gives.
pub open spec fn qs_decode_all(s: Seq<u8>) -> Result<Seq<u8>, QsError> {
    qs_decode_rest(s, 0, Seq::empty())
}

/// Encoding one more byte appends what that byte is written as.
pub proof fn lemma_url_encoded_push(bytes: Seq<u8>, b: u8)
    ensures
        url_encoded(bytes.push(b)) == url_encoded(bytes) + escaped(b),
    decreases bytes.len(),
{
    if bytes.len() == 0 {
        assert(bytes.push(b).drop_first() =~= Seq::<u8>::empty());
        assert(url_encoded(bytes.push(b)) =~= escaped(b) + url_encoded(Seq::<u8>::empty()));
        assert(url_encoded(bytes.push(b)) =~= url_encoded(bytes) + escaped(b));
    } else {
        assert(bytes.push(b).drop_first() =~= bytes.drop_first().push(b));
        lemma_url_encoded_push(bytes.drop_first(), b);
        assert(url_encoded(bytes.push(b)) =~= url_encoded(bytes) + escaped(b));
    }
}

/// An encoded byte string holds ASCII bytes only.
pub proof fn lemma_url_encoded_ascii(bytes: Seq<u8>)
    ensures
        forall|i: int| 0 <= i < url_encoded(bytes).len() ==> #[trigger] url_encoded(bytes)[i] < 128,
    decreases bytes.len(),
{
    if bytes.len() > 0 {
        lemma_url_encoded_ascii(bytes.drop_first());
        let head = escaped(bytes[0]);
        let tail = url_encoded(bytes.drop_first());
        assert forall|i: int| 0 <= i < url_encoded(bytes).len() implies #[trigger] url_encoded(
            bytes,
        )[i] < 128 by {
            if i >= head.len() {
                assert(url_encoded(bytes)[i] == tail[i - head.len()]);
            } else {
                assert(url_encoded(bytes)[i] == head[i]);
            }
        }
    }
}

/// Decoding what was encoded gives the bytes that were encoded.
pub proof fn law_qs_decode_encoded(bytes: Seq<u8>)
    ensures
        qs_decode(url_encoded(bytes), bytes.len()) == Ok::<Seq<u8>, QsError>(bytes),
{
    let s = url_encoded(bytes);
    assert(bytes.skip(0) =~= bytes);
    assert(bytes.take(0) =~= Seq::<u8>::empty());
    assert(s.skip(0) =~= s);
    lemma_qs_decode_suffix(s, 0, bytes, 0);
}

/// Decoding what was encoded gives the bytes that were encoded, however
/// many they are.
pub proof fn law_qs_decode_all_encoded(bytes: Seq<u8>)
    ensures
        qs_decode_all(url_encoded(bytes)) == Ok::<Seq<u8>, QsError>(bytes),
{
    let s = url_encoded(bytes);
    assert(bytes.skip(0) =~= bytes);
    assert(bytes.take(0) =~= Seq::<u8>::empty());
    assert(s.skip(0) =~= s);
    lemma_qs_decode_suffix(s, 0, bytes, 0);
}

proof fn lemma_qs_decode_suffix(s: Seq<u8>, pos: int, bytes: Seq<u8>, done: int)
    requires
        0 <= done <= bytes.len(),
        0 <= pos <= s.len(),
        s.skip(pos) == url_encoded(bytes.skip(done)),
    ensures
        qs_decode_from(s, pos, bytes.len(), bytes.take(done)) == Ok::<Seq<u8>, QsError>(bytes),
        qs_decode_rest(s, pos, bytes.take(done)) == Ok::<Seq<u8>, QsError>(bytes),
    decreases bytes.len() - done,
{
    let rest = bytes.skip(done);
    if done == bytes.len() {
        assert(rest.len() == 0);
        assert(s.skip(pos).len() == 0);
        assert(bytes.take(done) =~= bytes);
    } else {
        let b = bytes[done];
        assert(rest[0] == b);
        assert(rest.drop_first() =~= bytes.skip(done + 1));
        let head = escaped(b);
        let tail = url_encoded(bytes.skip(done + 1));
        assert(s.skip(pos) == head + tail);
        assert(s.skip(pos).len() == head.len() + tail.len());
        assert forall|i: int| 0 <= i < head.len() implies s[pos + i] == head[i] by {
            assert(s.skip(pos)[i] == s[pos + i]);
            assert((head + tail)[i] == head[i]);
        }
        assert(s.skip(pos + head.len()) =~= tail) by {
            assert forall|i: int| 0 <= i < tail.len() implies s.skip(pos + head.len())[i]
                == tail[i] by {
                assert(s.skip(pos)[head.len() + i] == s[pos + head.len() + i]);
                assert((head + tail)[head.len() + i] == tail[i]);
            }
        }
        assert(bytes.take(done + 1) =~= bytes.take(done).push(b));
        if is_alphanumeric(b) {
            assert(s[pos] == head[0]);
            lemma_qs_decode_suffix(s, pos + 1, bytes, done + 1);
        } else {
            assert(s[pos] == head[0]);
            assert(s[pos + 1] == head[1]);
            assert(s[pos + 2] == head[2]);
            let high: u8 = b / 16;
            let low: u8 = b % 16;
            assert(hex_value(hex_digit(high)) == Some(high));
            assert(hex_value(hex_digit(low)) == Some(low));
            assert(high * 16 + low == b);
            lemma_qs_decode_suffix(s, pos + 3, bytes, done + 1);
        }
    }
}

/// The value of a hexadecimal digit, in either case.
pub fn hex_digit_value(b: u8) -> (value: Option<u8>)
    ensures
        value == hex_value(b),
{
    if 48 <= b && b <= 57 {
        Some(b - 48)
    } else if 97 <= b && b <= 102 {
        Some(b - 87)
    } else if 65 <= b && b <= 70 {
        Some(b - 55)
    } else {
        None
    }
}

/// The lower-case hexadecimal digit of a value below 16.
pub fn hex_char(value: u8) -> (digit: u8)
    requires
        value < 16,
    ensures
        digit == hex_digit(value),
{
    if value < 10 {
        48 + value
    } else {
        87 + value
    }
}

/// The two lower-case hexadecimal digits of a byte.
pub fn hex_chars(value: u8) -> (digits: [u8; 2])
    ensures
        digits@ == seq![hex_digit(value / 16), hex_digit(value % 16)],
{
    let digits: [u8; 2] = [hex_char(value / 16), hex_char(value % 16)];
    assert(digits@ =~= seq![hex_digit(value / 16), hex_digit(value % 16)]);
    digits
}

/// Appends a byte string as it stands in a query string.
pub fn push_url_encoded(out: &mut Vec<u8>, bytes: &[u8])
    ensures
        final(out)@ == old(out)@ + url_encoded(bytes@),
{
    let mut i: usize = 0;
    assert(bytes@.take(0) =~= Seq::<u8>::empty());
    while i < bytes.len()
        invariant
            i <= bytes.len(),
            out@ == old(out)@ + url_encoded(bytes@.take(i as int)),
        decreases bytes.len() - i,
    {
        let b: u8 = bytes[i];
        proof {
            lemma_url_encoded_push(bytes@.take(i as int), b);
            assert(bytes@.take(i + 1) =~= bytes@.take(i as int).push(b));
        }
        if (48 <= b && b <= 57) || (65 <= b && b <= 90) || (97 <= b && b <= 122) {
            out.push(b);
        } else {
            out.push(BYTE_PERCENT);
            out.push(hex_char(b / 16));
            out.push(hex_char(b % 16));
        }
        assert(out@ =~= old(out)@ + url_encoded(bytes@.take(i + 1)));
        i += 1;
    }
    assert(bytes@.take(i as int) =~= bytes@);
}

/// Decodes a query-string component into exactly `N` bytes.
pub fn parse_qs_to_bytes<const N: usize>(input: &str) -> (r: Result<[u8; N], QsError>)
    ensures
        match qs_decode(input.spec_bytes(), N as nat) {
            Ok(bytes) => r matches Ok(array) && array@ == bytes,
            Err(error) => r == Err::<[u8; N], QsError>(error),
        },
{
    decode_qs_bytes::<N>(input.as_bytes())
}

/// Decodes the bytes of a query-string component into the bytes it gives.
pub fn decode_qs_any(s: &[u8]) -> (r: Result<Vec<u8>, QsError>)
    ensures
        match qs_decode_all(s@) {
            Ok(bytes) => r matches Ok(out) && out@ == bytes,
            Err(error) => r == Err::<Vec<u8>, QsError>(error),
        },
{
    let mut out: Vec<u8> = Vec::new();
    let mut pos: usize = 0;
    while pos < s.len()
        invariant
            pos <= s.len(),
            qs_decode_rest(s@, pos as int, out@) == qs_decode_all(s@),
        decreases s.len() - pos,
    {
        let c: u8 = s[pos];
        if c == BYTE_PERCENT {
            if s.len() - pos < 3 {
                return Err(QsError::BadEscape);
            }
            match (hex_digit_value(s[pos + 1]), hex_digit_value(s[pos + 2])) {
                (Some(high), Some(low)) => {
                    out.push(high * 16 + low);
                    pos += 3;
                },
                _ => {
                    return Err(QsError::BadEscape);
                },
            }
        } else if c < 128 {
            out.push(c);
            pos += 1;
        } else {
            return Err(QsError::NonAscii);
        }
    }
    Ok(out)
}

/// Decodes the bytes of a query-string component into exactly `N` bytes.
pub fn decode_qs_bytes<const N: usize>(s: &[u8]) -> (r: Result<[u8; N], QsError>)
    ensures
        match qs_decode(s@, N as nat) {
            Ok(bytes) => r matches Ok(array) && array@ == bytes,
            Err(error) => r == Err::<[u8; N], QsError>(error),
        },
{
    let mut out: [u8; N] = [0u8;N];
    let mut i: usize = 0;
    let mut pos: usize = 0;
    assert(out@.take(0) =~= Seq::<u8>::empty());
    loop
        invariant
            i <= N,
            pos <= s.len(),
            out@.len() == N,
            qs_decode_from(s@, pos as int, N as nat, out@.take(i as int)) == qs_decode(
                s@,
                N as nat,
            ),
        decreases s.len() - pos, N - i,
    {
        if i >= N {
            if pos < s.len() {
                return Err(QsError::TooManyCharacters);
            } else {
                assert(out@.take(i as int) =~= out@);
                return Ok(out);
            }
        }
        if pos >= s.len() {
            return Err(QsError::TooFewCharacters);
        }
        let c: u8 = s[pos];
        if c == BYTE_PERCENT {
            if s.len() - pos < 3 {
                return Err(QsError::BadEscape);
            }
            match (hex_digit_value(s[pos + 1]), hex_digit_value(s[pos + 2])) {
                (Some(high), Some(low)) => {
                    let byte: u8 = high * 16 + low;
                    let ghost prev = out@;
                    out[i] = byte;
                    assert(out@.take(i + 1) =~= prev.take(i as int).push(byte));
                    pos += 3;
                },
                _ => {
                    return Err(QsError::BadEscape);
                },
            }
        } else if c < 128 {
            let ghost prev = out@;
            out[i] = c;
            assert(out@.take(i + 1) =~= prev.take(i as int).push(c));
            pos += 1;
        } else {
            return Err(QsError::NonAscii);
        }
        i += 1;
    }
}

} // verus!

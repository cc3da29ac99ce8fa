//! The MD5 sum of a file, as metainfo carries it: thirty-two hexadecimal
//! digits.

use vstd::prelude::*;
use vstd::utf8::encode_utf8;
use crate::bencode::value::{BencodeValue, Value};
use crate::ident::{hex_string, hex_text, push_hex};
use crate::query::{hex_digit_value, hex_value};

verus! {

/// An MD5 sum: sixteen bytes.
#[derive(Clone, Copy, Debug, PartialEq, Eq)]
pub struct Md5Value([u8; 16]);

impl View for Md5Value {
    type V = Seq<u8>;

    closed spec fn view(&self) -> Seq<u8> {
        self.0@
    }
}

/// Why a value is no MD5 sum.
#[derive(Clone, Copy, Debug, PartialEq, Eq, Structural)]
pub enum Md5Error {
    NotAString,
    /// The string is not thirty-two bytes long.
    BadLength,
    /// The string holds something else than hexadecimal digits.
    BadDigit,
}

/// The bytes that hexadecimal text stands for, two digits each; nothing
/// where a byte of the text is no hexadecimal digit or the text is of odd
/// length.
pub open spec fn bytes_of_hex(text: Seq<u8>) -> Option<Seq<u8>>
    decreases text.len(),
{
    if text.len() == 0 {
        Some(Seq::empty())
    } else if text.len() == 1 {
        None
    } else {
        match (hex_value(text[0]), hex_value(text[1]), bytes_of_hex(text.skip(2))) {
            (Some(high), Some(low), Some(rest)) => Some(seq![(high * 16 + low) as u8] + rest),
            _ => None,
        }
    }
}

/// The MD5 sum that a bencoded value stands for.
pub open spec fn md5_of(v: Value) -> Result<Seq<u8>, Md5Error> {
    match v {
        Value::Bytes(text) => if text.len() != 32 {
            Err(Md5Error::BadLength)
        } else {
            match bytes_of_hex(text) {
                Some(bytes) => Ok(bytes),
                None => Err(Md5Error::BadDigit),
            }
        },
        _ => Err(Md5Error::NotAString),
    }
}

/// An MD5 sum as a bencoded value: thirty-two lower-case hexadecimal
/// digits.
pub open spec fn md5_value(sum: Seq<u8>) -> Value {
    Value::Bytes(hex_text(sum))
}

proof fn lemma_bytes_of_hex_prefix(text: Seq<u8>, n: int)
    requires
        0 <= n,
        2 * n + 2 <= text.len(),
        bytes_of_hex(text.subrange(0, 2 * n)) is Some,
    ensures
        bytes_of_hex(text.subrange(0, 2 * n + 2)) == match (
            hex_value(text[2 * n]),
            hex_value(text[2 * n + 1]),
        ) {
            (Some(high), Some(low)) => Some(
                bytes_of_hex(text.subrange(0, 2 * n))->0.push((high * 16 + low) as u8),
            ),
            _ => None,
        },
        bytes_of_hex(text.subrange(0, 2 * n))->0.len() == n,
    decreases n,
{
    let short = text.subrange(0, 2 * n);
    let long = text.subrange(0, 2 * n + 2);
    if n == 0 {
        assert(long.skip(2) =~= Seq::<u8>::empty());
        assert(short =~= Seq::<u8>::empty());
        match (hex_value(text[0]), hex_value(text[1])) {
            (Some(high), Some(low)) => {
                assert(seq![(high * 16 + low) as u8] + Seq::<u8>::empty()
                    =~= Seq::<u8>::empty().push((high * 16 + low) as u8));
            },
            _ => {},
        }
    } else {
        let tail = text.skip(2);
        assert(short.skip(2) =~= tail.subrange(0, 2 * (n - 1)));
        assert(long.skip(2) =~= tail.subrange(0, 2 * (n - 1) + 2));
        assert(short[0] == text[0] && short[1] == text[1]);
        assert(long[0] == text[0] && long[1] == text[1]);
        lemma_bytes_of_hex_prefix(tail, n - 1);
        assert(tail[2 * (n - 1)] == text[2 * n]);
        assert(tail[2 * (n - 1) + 1] == text[2 * n + 1]);
        match (hex_value(text[2 * n]), hex_value(text[2 * n + 1])) {
            (Some(high), Some(low)) => {
                let first = seq![(hex_value(text[0])->0 * 16 + hex_value(text[1])->0) as u8];
                let mid = bytes_of_hex(short.skip(2))->0;
                assert(first + mid.push((high * 16 + low) as u8) =~= (first + mid).push(
                    (high * 16 + low) as u8,
                ));
            },
            _ => {},
        }
    }
}

/// If some pair of digits of a text is no pair of hexadecimal digits, the
/// text stands for no bytes.
proof fn lemma_bytes_of_hex_bad_pair(text: Seq<u8>, n: int)
    requires
        0 <= n,
        2 * n + 2 <= text.len(),
        hex_value(text[2 * n]) is None || hex_value(text[2 * n + 1]) is None,
    ensures
        bytes_of_hex(text) is None,
    decreases n,
{
    if n > 0 {
        let tail = text.skip(2);
        assert(tail[2 * (n - 1)] == text[2 * n]);
        assert(tail[2 * (n - 1) + 1] == text[2 * n + 1]);
        lemma_bytes_of_hex_bad_pair(tail, n - 1);
    }
}

impl Md5Value {
    /// A sum is sixteen bytes long.
    pub proof fn lemma_len(self)
        ensures
            self@.len() == 16,
    {
    }

    /// The bytes of the sum; there are always sixteen.
    pub fn as_slice(&self) -> (bytes: &[u8])
        ensures
            bytes@ == self@,
            bytes@.len() == 16,
    {
        self.0.as_slice()
    }

    /// The sum as thirty-two lower-case hexadecimal digits.
    pub fn to_hex(&self) -> (text: String)
        ensures
            encode_utf8(text@) == hex_text(self@),
    {
        hex_string(self.0.as_slice())
    }

    /// The sum that a bencoded value stands for.
    pub fn from_bencode(value: &BencodeValue) -> (r: Result<Md5Value, Md5Error>)
        ensures
            match md5_of(value@) {
                Ok(sum) => r matches Ok(md5) && md5@ == sum,
                Err(e) => r == Err::<Md5Value, Md5Error>(e),
            },
    {
        let text = match value.as_bytes() {
            Some(text) => text,
            None => {
                return Err(Md5Error::NotAString);
            },
        };
        if text.len() != 32 {
            return Err(Md5Error::BadLength);
        }
        let mut bytes: [u8; 16] = [0u8;16];
        let mut i: usize = 0;
        assert(text@.subrange(0, 0) =~= Seq::<u8>::empty());
        while i < 16
            invariant
                i <= 16,
                text@.len() == 32,
                value@ == Value::Bytes(text@),
                bytes_of_hex(text@.subrange(0, 2 * i)) == Some(bytes@.take(i as int)),
            decreases 16 - i,
        {
            proof {
                lemma_bytes_of_hex_prefix(text@, i as int);
            }
            match (hex_digit_value(text[2 * i]), hex_digit_value(text[2 * i + 1])) {
                (Some(high), Some(low)) => {
                    let ghost before = bytes@;
                    bytes[i] = high * 16 + low;
                    assert(bytes@.take(i + 1) =~= before.take(i as int).push(
                        (high * 16 + low) as u8,
                    ));
                },
                _ => {
                    proof {
                        lemma_bytes_of_hex_bad_pair(text@, i as int);
                    }
                    return Err(Md5Error::BadDigit);
                },
            }
            i += 1;
        }
        assert(text@.subrange(0, 32) =~= text@);
        assert(bytes@.take(16) =~= bytes@);
        Ok(Md5Value(bytes))
    }

    /// The sum as a bencoded value.
    pub fn to_bencode(&self) -> (value: BencodeValue)
        ensures
            value@ == md5_value(self@),
    {
        let mut text: Vec<u8> = Vec::new();
        push_hex(&mut text, self.0.as_slice());
        assert(text@ =~= hex_text(self@));
        BencodeValue::Bytes(text)
    }
}

} // verus!

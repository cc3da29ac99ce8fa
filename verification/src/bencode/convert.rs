//! Building values from plain data, and taking plain data out of values.

use vstd::prelude::*;
use vstd::slice::slice_to_vec;
use vstd::std_specs::convert::FromSpecImpl;
use vstd::utf8::encode_utf8;
use crate::bencode::value::{list_view, BencodeValue, Dict, Value};
use crate::text::{read_text, lossy_text};

verus! {

impl From<i128> for BencodeValue {
    fn from(input: i128) -> (value: BencodeValue) {
        BencodeValue::Integer(input)
    }
}

impl FromSpecImpl<i128> for BencodeValue {
    open spec fn obeys_from_spec() -> bool {
        true
    }

    open spec fn from_spec(input: i128) -> BencodeValue {
        BencodeValue::Integer(input)
    }
}

impl From<u64> for BencodeValue {
    fn from(input: u64) -> (value: BencodeValue) {
        BencodeValue::Integer(input as i128)
    }
}

impl FromSpecImpl<u64> for BencodeValue {
    open spec fn obeys_from_spec() -> bool {
        true
    }

    open spec fn from_spec(input: u64) -> BencodeValue {
        BencodeValue::Integer(input as i128)
    }
}

impl From<Vec<u8>> for BencodeValue {
    fn from(input: Vec<u8>) -> (value: BencodeValue) {
        BencodeValue::Bytes(input)
    }
}

impl FromSpecImpl<Vec<u8>> for BencodeValue {
    open spec fn obeys_from_spec() -> bool {
        true
    }

    open spec fn from_spec(input: Vec<u8>) -> BencodeValue {
        BencodeValue::Bytes(input)
    }
}

impl From<Vec<BencodeValue>> for BencodeValue {
    fn from(input: Vec<BencodeValue>) -> (value: BencodeValue) {
        BencodeValue::List(input)
    }
}

impl FromSpecImpl<Vec<BencodeValue>> for BencodeValue {
    open spec fn obeys_from_spec() -> bool {
        true
    }

    open spec fn from_spec(input: Vec<BencodeValue>) -> BencodeValue {
        BencodeValue::List(input)
    }
}

/// A byte string holding a copy of the bytes. No byte vector can be written
/// down in a specification, so the result is stated by the `ensures` of
/// `from`, over the model.
impl<'a> From<&'a [u8]> for BencodeValue {
    fn from(input: &'a [u8]) -> (value: BencodeValue)
        ensures
            value@ == Value::Bytes(input@),
    {
        BencodeValue::Bytes(slice_to_vec(input))
    }
}

impl<'a> FromSpecImpl<&'a [u8]> for BencodeValue {
    open spec fn obeys_from_spec() -> bool {
        false
    }

    open spec fn from_spec(input: &'a [u8]) -> BencodeValue {
        arbitrary()
    }
}

/// A byte string holding the UTF-8 bytes of the text; stated by the
/// `ensures` of `from`, over the model.
impl<'a> From<&'a str> for BencodeValue {
    fn from(input: &'a str) -> (value: BencodeValue)
        ensures
            value@ == Value::Bytes(encode_utf8(input@)),
    {
        BencodeValue::Bytes(slice_to_vec(input.as_bytes()))
    }
}

impl<'a> FromSpecImpl<&'a str> for BencodeValue {
    open spec fn obeys_from_spec() -> bool {
        false
    }

    open spec fn from_spec(input: &'a str) -> BencodeValue {
        arbitrary()
    }
}

impl From<String> for BencodeValue {
    fn from(input: String) -> (value: BencodeValue)
        ensures
            value@ == Value::Bytes(encode_utf8(input@)),
    {
        BencodeValue::Bytes(slice_to_vec(input.as_str().as_bytes()))
    }
}

/// Stated by the `ensures` of `from`, as for `&str`.
impl FromSpecImpl<String> for BencodeValue {
    open spec fn obeys_from_spec() -> bool {
        false
    }

    open spec fn from_spec(input: String) -> BencodeValue {
        arbitrary()
    }
}

impl From<Dict> for BencodeValue {
    fn from(input: Dict) -> (value: BencodeValue) {
        BencodeValue::Dict(input)
    }
}

impl FromSpecImpl<Dict> for BencodeValue {
    open spec fn obeys_from_spec() -> bool {
        true
    }

    open spec fn from_spec(input: Dict) -> BencodeValue {
        BencodeValue::Dict(input)
    }
}

/// A moment in time, in whole seconds after the Unix epoch (before it,
/// where negative).
#[derive(Clone, Copy, Debug, PartialEq, Eq, Structural)]
pub struct Timestamp {
    pub seconds: i128,
}

/// The integer of an integer value in the range of `u64`.
pub open spec fn u64_of(v: Value) -> Option<u64> {
    match v {
        Value::Integer(i) => if 0 <= i <= u64::MAX {
            Some(i as u64)
        } else {
            None
        },
        _ => None,
    }
}

/// A byte string as text; bytes that are not UTF-8 become U+FFFD.
pub open spec fn text_of(v: Value) -> Option<Seq<char>> {
    match v {
        Value::Bytes(b) => Some(lossy_text(b)),
        _ => None,
    }
}

/// The bytes of a byte string.
pub open spec fn bytes_of(v: Value) -> Option<Seq<u8>> {
    match v {
        Value::Bytes(b) => Some(b),
        _ => None,
    }
}

/// The moment that an integer stands for: the integer counts seconds, and
/// its magnitude has to fit 64 bits.
pub open spec fn time_of(v: Value) -> Option<Timestamp> {
    match v {
        Value::Integer(i) => if -(u64::MAX as int) <= i <= u64::MAX as int {
            Some(Timestamp { seconds: i as i128 })
        } else {
            None
        },
        _ => None,
    }
}

impl From<Timestamp> for BencodeValue {
    fn from(input: Timestamp) -> (value: BencodeValue) {
        BencodeValue::Integer(input.seconds)
    }
}

impl FromSpecImpl<Timestamp> for BencodeValue {
    open spec fn obeys_from_spec() -> bool {
        true
    }

    open spec fn from_spec(input: Timestamp) -> BencodeValue {
        BencodeValue::Integer(input.seconds)
    }
}

impl BencodeValue {
    /// The bytes of a byte string, without taking the value apart.
    pub fn as_bytes(&self) -> (bytes: Option<&Vec<u8>>)
        ensures
            match self@ {
                Value::Bytes(b) => bytes matches Some(out) && out@ == b,
                _ => bytes is None,
            },
    {
        match self {
            BencodeValue::Bytes(b) => Some(b),
            _ => None,
        }
    }

    /// The integer of an integer value, without taking the value apart.
    pub fn as_integer(&self) -> (integer: Option<i128>)
        ensures
            match self@ {
                Value::Integer(i) => integer == Some(i as i128),
                _ => integer is None,
            },
    {
        match self {
            BencodeValue::Integer(i) => Some(*i),
            _ => None,
        }
    }

    /// The integer of an integer value in the range of `u64`, without
    /// taking the value apart.
    pub fn as_u64(&self) -> (integer: Option<u64>)
        ensures
            integer == u64_of(self@),
    {
        match self {
            BencodeValue::Integer(i) => {
                if 0 <= *i && *i <= u64::MAX as i128 {
                    Some(*i as u64)
                } else {
                    None
                }
            },
            _ => None,
        }
    }

    /// The items of a list, without taking the value apart.
    pub fn as_list(&self) -> (items: Option<&Vec<BencodeValue>>)
        ensures
            match self@ {
                Value::List(l) => items matches Some(out) && list_view(out@) == l,
                _ => items is None,
            },
    {
        match self {
            BencodeValue::List(l) => Some(l),
            _ => None,
        }
    }

    /// The dictionary of a dictionary value, without taking the value
    /// apart.
    pub fn as_dict(&self) -> (dict: Option<&Dict>)
        ensures
            match self@ {
                Value::Dict(es) => dict matches Some(out) && out@ == es,
                _ => dict is None,
            },
    {
        match self {
            BencodeValue::Dict(d) => Some(d),
            _ => None,
        }
    }

    /// A byte string as text, without taking the value apart.
    pub fn as_text(&self) -> (text: Option<String>)
        ensures
            text_of(self@) == match text {
                Some(out) => Some(out@),
                None => None,
            },
    {
        match self {
            BencodeValue::Bytes(b) => Some(read_text(b.as_slice())),
            _ => None,
        }
    }

    /// The bytes of a byte string.
    pub fn to_bytes(self) -> (bytes: Option<Vec<u8>>)
        ensures
            match self@ {
                Value::Bytes(b) => bytes matches Some(out) && out@ == b,
                _ => bytes is None,
            },
    {
        match self {
            BencodeValue::Bytes(b) => Some(b),
            _ => None,
        }
    }

    /// A byte string as text; bytes that are not UTF-8 become U+FFFD.
    pub fn to_string(self) -> (text: Option<String>)
        ensures
            match self@ {
                Value::Bytes(b) => text matches Some(out) && out@ == lossy_text(b),
                _ => text is None,
            },
    {
        match self {
            BencodeValue::Bytes(b) => Some(read_text(b.as_slice())),
            _ => None,
        }
    }

    /// The integer of an integer value.
    pub fn to_i128(self) -> (integer: Option<i128>)
        ensures
            match self@ {
                Value::Integer(i) => integer == Some(i as i128),
                _ => integer is None,
            },
    {
        match self {
            BencodeValue::Integer(i) => Some(i),
            _ => None,
        }
    }

    /// The integer of an integer value, where it is in the range of `u64`.
    pub fn to_u64(self) -> (integer: Option<u64>)
        ensures
            integer == u64_of(self@),
    {
        match self {
            BencodeValue::Integer(i) => {
                if 0 <= i && i <= u64::MAX as i128 {
                    Some(i as u64)
                } else {
                    None
                }
            },
            _ => None,
        }
    }

    /// The items of a list.
    pub fn to_list(self) -> (items: Option<Vec<BencodeValue>>)
        ensures
            match self@ {
                Value::List(l) => items matches Some(out) && list_view(out@) == l,
                _ => items is None,
            },
    {
        match self {
            BencodeValue::List(l) => Some(l),
            _ => None,
        }
    }

    /// The dictionary of a dictionary value.
    pub fn to_dict(self) -> (dict: Option<Dict>)
        ensures
            match self@ {
                Value::Dict(es) => dict matches Some(out) && out@ == es,
                _ => dict is None,
            },
    {
        match self {
            BencodeValue::Dict(d) => Some(d),
            _ => None,
        }
    }

    /// An integer as a moment in time: seconds after the Unix epoch, or
    /// before it where negative. The magnitude has to fit 64 bits.
    pub fn to_time(self) -> (time: Option<Timestamp>)
        ensures
            time == time_of(self@),
    {
        match self {
            BencodeValue::Integer(i) => {
                if -(u64::MAX as i128) <= i && i <= u64::MAX as i128 {
                    Some(Timestamp { seconds: i })
                } else {
                    None
                }
            },
            _ => None,
        }
    }
}

} // verus!

//! The bencode codec: byte strings, integers, lists and dictionaries.

pub mod bounds;
pub mod convert;
pub mod copy;
pub mod decimal;
pub mod decode;
pub mod encode;
pub mod grammar;
pub mod laws;
pub mod mapping;
pub mod order;
pub mod value;

pub use convert::Timestamp;
pub use decode::{parse_bytes, parse_dict, parse_integer, parse_list, parse_once};
pub use grammar::DecodeError;
pub use value::{BencodeValue, Dict, Value};

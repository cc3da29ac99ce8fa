//! One file of a torrent of several files.

use vstd::prelude::*;
use vstd::string::StringSliceAdditionalSpecFns;
use vstd::utf8::encode_utf8;
use crate::bencode::convert::text_of;
use crate::bencode::value::{dict_get, dict_insert, list_view, BencodeValue, Dict, Value};
use crate::metainfo::error::MetainfoError;
use crate::metainfo::md5::{md5_of, md5_value, Md5Value};

verus! {

/// A file of a torrent: its length, the components of its path, and its
/// MD5 sum where the metainfo gives one.
#[derive(Clone, Debug, PartialEq, Eq)]
pub struct File {
    pub length: u64,
    pub md5sum: Option<Md5Value>,
    pub path: Vec<String>,
}

/// The model of a file.
pub struct FileView {
    pub length: u64,
    pub md5sum: Option<Seq<u8>>,
    pub path: Seq<Seq<char>>,
}

/// The model of a sequence of texts.
pub open spec fn texts_view(texts: Seq<String>) -> Seq<Seq<char>> {
    Seq::new(texts.len(), |i: int| texts[i]@)
}

impl View for File {
    type V = FileView;

    open spec fn view(&self) -> FileView {
        FileView {
            length: self.length,
            md5sum: match self.md5sum {
                Some(sum) => Some(sum@),
                None => None,
            },
            path: texts_view(self.path@),
        }
    }
}

/// The texts that a list of byte strings stands for, after the texts `acc`
/// read so far; nothing where an item is no byte string.
pub open spec fn texts_of(l: Seq<Value>, at: int, acc: Seq<Seq<char>>) -> Option<Seq<Seq<char>>>
    decreases l.len() - at,
{
    if at < 0 || at >= l.len() {
        Some(acc)
    } else {
        match text_of(l[at]) {
            Some(text) => texts_of(l, at + 1, acc.push(text)),
            None => None,
        }
    }
}

/// The texts as a list of byte strings.
pub open spec fn text_values(texts: Seq<Seq<char>>) -> Seq<Value> {
    Seq::new(texts.len(), |i: int| Value::Bytes(encode_utf8(texts[i])))
}

/// The MD5 sum under `md5sum`, where there is one.
pub open spec fn optional_md5(es: Seq<(Seq<u8>, Value)>) -> Result<Option<Seq<u8>>, MetainfoError> {
    match dict_get(es, "md5sum".spec_bytes()) {
        Some(v) => match md5_of(v) {
            Ok(sum) => Ok(Some(sum)),
            Err(e) => Err(MetainfoError::Md5(e)),
        },
        None => Ok(None),
    }
}

/// The file that a bencoded dictionary describes.
pub open spec fn file_of(v: Value) -> Result<FileView, MetainfoError> {
    match v {
        Value::Dict(es) => match (
            dict_get(es, "length".spec_bytes()),
            dict_get(es, "path".spec_bytes()),
        ) {
            (Some(Value::Integer(length)), Some(Value::List(path))) => match optional_md5(es) {
                Err(e) => Err(e),
                Ok(md5sum) => match texts_of(path, 0, Seq::empty()) {
                    None => Err(MetainfoError::PathNotStrings),
                    Some(components) => if 0 <= length <= u64::MAX {
                        Ok(FileView { length: length as u64, md5sum, path: components })
                    } else {
                        Err(MetainfoError::IntegerOutOfRange)
                    },
                },
            },
            _ => Err(MetainfoError::FileMissingKeys),
        },
        _ => Err(MetainfoError::FileNotADict),
    }
}

/// A file as a bencoded dictionary.
pub open spec fn file_value(f: FileView) -> Value {
    Value::Dict(
        match f.md5sum {
            Some(sum) => dict_insert(
                dict_insert(
                    dict_insert(
                        Seq::empty(),
                        "length".spec_bytes(),
                        Value::Integer(f.length as int),
                    ),
                    "path".spec_bytes(),
                    Value::List(text_values(f.path)),
                ),
                "md5sum".spec_bytes(),
                md5_value(sum),
            ),
            None => dict_insert(
                dict_insert(Seq::empty(), "length".spec_bytes(), Value::Integer(f.length as int)),
                "path".spec_bytes(),
                Value::List(text_values(f.path)),
            ),
        },
    )
}

/// The texts that a list of byte strings stands for.
pub fn texts_from_list(list: &Vec<BencodeValue>) -> (r: Option<Vec<String>>)
    ensures
        match texts_of(list_view(list@), 0, Seq::empty()) {
            Some(texts) => r matches Some(out) && texts_view(out@) == texts,
            None => r is None,
        },
{
    let mut out: Vec<String> = Vec::new();
    let mut i: usize = 0;
    assert(texts_view(out@) =~= Seq::<Seq<char>>::empty());
    while i < list.len()
        invariant
            i <= list.len(),
            texts_of(list_view(list@), i as int, texts_view(out@)) == texts_of(
                list_view(list@),
                0,
                Seq::empty(),
            ),
        decreases list.len() - i,
    {
        match list[i].as_text() {
            Some(text) => {
                assert(texts_view(out@.push(text)) =~= texts_view(out@).push(text@));
                out.push(text);
            },
            None => {
                return None;
            },
        }
        i += 1;
    }
    Some(out)
}

/// The texts as a list of byte strings.
pub fn texts_to_list(texts: &Vec<String>) -> (list: Vec<BencodeValue>)
    ensures
        list_view(list@) == text_values(texts_view(texts@)),
{
    let mut list: Vec<BencodeValue> = Vec::new();
    let mut i: usize = 0;
    while i < texts.len()
        invariant
            i <= texts.len(),
            list@.len() == i,
            forall|j: int|
                0 <= j < i ==> (#[trigger] list@[j])@ == Value::Bytes(encode_utf8(texts@[j]@)),
        decreases texts.len() - i,
    {
        list.push(BencodeValue::from(texts[i].as_str()));
        i += 1;
    }
    assert(list_view(list@) =~= text_values(texts_view(texts@)));
    list
}

/// The MD5 sum under `md5sum`, where there is one.
pub fn read_optional_md5(dict: &Dict) -> (r: Result<Option<Md5Value>, MetainfoError>)
    ensures
        match optional_md5(dict@) {
            Ok(Some(sum)) => r matches Ok(Some(md5)) && md5@ == sum,
            Ok(None) => r matches Ok(None),
            Err(e) => r matches Err(error) && error == e,
        },
{
    match dict.get("md5sum".as_bytes()) {
        Some(value) => match Md5Value::from_bencode(value) {
            Ok(sum) => Ok(Some(sum)),
            Err(e) => Err(MetainfoError::Md5(e)),
        },
        None => Ok(None),
    }
}

impl File {
    /// The file that a bencoded dictionary describes.
    pub fn from_bencode(value: &BencodeValue) -> (r: Result<File, MetainfoError>)
        ensures
            match file_of(value@) {
                Ok(view) => r matches Ok(file) && file@ == view,
                Err(e) => r matches Err(error) && error == e,
            },
    {
        let dict = match value.as_dict() {
            Some(dict) => dict,
            None => {
                return Err(MetainfoError::FileNotADict);
            },
        };
        let length: i128 = match dict.get("length".as_bytes()) {
            Some(found) => match found.as_integer() {
                Some(length) => length,
                None => {
                    return Err(MetainfoError::FileMissingKeys);
                },
            },
            None => {
                return Err(MetainfoError::FileMissingKeys);
            },
        };
        let path_list = match dict.get("path".as_bytes()) {
            Some(found) => match found.as_list() {
                Some(list) => list,
                None => {
                    return Err(MetainfoError::FileMissingKeys);
                },
            },
            None => {
                return Err(MetainfoError::FileMissingKeys);
            },
        };
        let md5sum = match read_optional_md5(dict) {
            Ok(md5sum) => md5sum,
            Err(e) => {
                return Err(e);
            },
        };
        let path = match texts_from_list(path_list) {
            Some(path) => path,
            None => {
                return Err(MetainfoError::PathNotStrings);
            },
        };
        if length < 0 || length > u64::MAX as i128 {
            return Err(MetainfoError::IntegerOutOfRange);
        }
        Ok(File { length: length as u64, md5sum, path })
    }

    /// The file as a bencoded dictionary.
    pub fn to_bencode(&self) -> (value: BencodeValue)
        ensures
            value@ == file_value(self@),
    {
        let mut dict: Dict = Dict::new();
        assert(dict@ =~= Seq::<(Seq<u8>, Value)>::empty());
        dict.insert(
            vstd::slice::slice_to_vec("length".as_bytes()),
            BencodeValue::Integer(self.length as i128),
        );
        dict.insert(
            vstd::slice::slice_to_vec("path".as_bytes()),
            BencodeValue::List(texts_to_list(&self.path)),
        );
        match &self.md5sum {
            Some(sum) => {
                dict.insert(vstd::slice::slice_to_vec("md5sum".as_bytes()), sum.to_bencode());
            },
            None => {},
        }
        BencodeValue::Dict(dict)
    }
}

} // verus!

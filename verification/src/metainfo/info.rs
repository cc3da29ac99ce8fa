//! The `info` dictionary of a torrent: its pieces and its file or files.

use vstd::prelude::*;
use vstd::string::StringSliceAdditionalSpecFns;
use vstd::utf8::encode_utf8;
use crate::bencode::convert::text_of;
use crate::bencode::value::{dict_get, dict_insert, list_view, BencodeValue, Dict, Value};
use crate::metainfo::error::MetainfoError;
use crate::metainfo::file::{file_of, file_value, optional_md5, read_optional_md5, File, FileView};
use crate::metainfo::md5::{md5_value, Md5Value};
use crate::metainfo::piece::Piece;
use crate::util::append_slice;

verus! {

/// What a torrent holds: one file, or several files under a directory.
#[derive(Clone, Debug, PartialEq, Eq)]
pub enum Info {
    SingleFile {
        piece_length: u64,
        pieces: Vec<Piece>,
        name: String,
        length: u64,
        md5sum: Option<Md5Value>,
    },
    MultiFile { piece_length: u64, pieces: Vec<Piece>, name: String, files: Vec<File> },
}

/// The model of an `info` dictionary.
pub enum InfoView {
    SingleFile {
        piece_length: u64,
        pieces: Seq<Seq<u8>>,
        name: Seq<char>,
        length: u64,
        md5sum: Option<Seq<u8>>,
    },
    MultiFile { piece_length: u64, pieces: Seq<Seq<u8>>, name: Seq<char>, files: Seq<FileView> },
}

/// The model of a sequence of piece digests.
pub open spec fn pieces_view(pieces: Seq<Piece>) -> Seq<Seq<u8>> {
    Seq::new(pieces.len(), |i: int| pieces[i]@)
}

/// The model of a sequence of files.
pub open spec fn files_view(files: Seq<File>) -> Seq<FileView> {
    Seq::new(files.len(), |i: int| files[i]@)
}

impl View for Info {
    type V = InfoView;

    open spec fn view(&self) -> InfoView {
        match self {
            Info::SingleFile { piece_length, pieces, name, length, md5sum } => InfoView::SingleFile {
                piece_length: *piece_length,
                pieces: pieces_view(pieces@),
                name: name@,
                length: *length,
                md5sum: match md5sum {
                    Some(sum) => Some(sum@),
                    None => None,
                },
            },
            Info::MultiFile { piece_length, pieces, name, files } => InfoView::MultiFile {
                piece_length: *piece_length,
                pieces: pieces_view(pieces@),
                name: name@,
                files: files_view(files@),
            },
        }
    }
}

/// The digests that a byte string holds, twenty bytes each.
pub open spec fn pieces_of(b: Seq<u8>) -> Seq<Seq<u8>> {
    Seq::new((b.len() / 20) as nat, |i: int| b.subrange(20 * i, 20 * i + 20))
}

/// The digests, one after the other.
pub open spec fn pieces_bytes(pieces: Seq<Seq<u8>>) -> Seq<u8>
    decreases pieces.len(),
{
    if pieces.len() == 0 {
        Seq::empty()
    } else {
        pieces_bytes(pieces.drop_last()) + pieces.last()
    }
}

/// The files that a list of bencoded dictionaries describes, after the
/// files `acc` read so far; the error of the first that is none.
pub open spec fn files_of(l: Seq<Value>, at: int, acc: Seq<FileView>) -> Result<
    Seq<FileView>,
    MetainfoError,
>
    decreases l.len() - at,
{
    if at < 0 || at >= l.len() {
        Ok(acc)
    } else {
        match file_of(l[at]) {
            Ok(f) => files_of(l, at + 1, acc.push(f)),
            Err(e) => Err(e),
        }
    }
}

/// The files as bencoded dictionaries.
pub open spec fn file_values(files: Seq<FileView>) -> Seq<Value> {
    Seq::new(files.len(), |i: int| file_value(files[i]))
}

/// The `info` that a bencoded dictionary describes. It has to give a piece
/// length, the pieces and a name, and either a length, for a single file,
/// or files.
pub open spec fn info_of(v: Value) -> Result<InfoView, MetainfoError> {
    match v {
        Value::Dict(es) => match (
            dict_get(es, "piece length".spec_bytes()),
            dict_get(es, "pieces".spec_bytes()),
            dict_get(es, "name".spec_bytes()),
        ) {
            (Some(Value::Integer(piece_length)), Some(Value::Bytes(pieces)), Some(Value::Bytes(_))) => {
                let name = text_of(dict_get(es, "name".spec_bytes())->0)->0;
                if pieces.len() == 0 || pieces.len() % 20 != 0 {
                    Err(MetainfoError::BadPieces)
                } else {
                    match (dict_get(es, "length".spec_bytes()), dict_get(es, "files".spec_bytes())) {
                        (Some(Value::Integer(length)), None) => if !(0 <= piece_length
                            <= u64::MAX) || !(0 <= length <= u64::MAX) {
                            Err(MetainfoError::IntegerOutOfRange)
                        } else {
                            match optional_md5(es) {
                                Ok(md5sum) => Ok(
                                    InfoView::SingleFile {
                                        piece_length: piece_length as u64,
                                        pieces: pieces_of(pieces),
                                        name,
                                        length: length as u64,
                                        md5sum,
                                    },
                                ),
                                Err(e) => Err(e),
                            }
                        },
                        (None, Some(Value::List(files))) => if !(0 <= piece_length <= u64::MAX) {
                            Err(MetainfoError::IntegerOutOfRange)
                        } else {
                            match files_of(files, 0, Seq::empty()) {
                                Ok(found) => Ok(
                                    InfoView::MultiFile {
                                        piece_length: piece_length as u64,
                                        pieces: pieces_of(pieces),
                                        name,
                                        files: found,
                                    },
                                ),
                                Err(e) => Err(e),
                            }
                        },
                        _ => Err(MetainfoError::LengthXorFiles),
                    }
                }
            },
            _ => Err(MetainfoError::InfoMissingKeys),
        },
        _ => Err(MetainfoError::InfoNotADict),
    }
}

/// An `info` as a bencoded dictionary.
pub open spec fn info_value(info: InfoView) -> Value {
    match info {
        InfoView::SingleFile { piece_length, pieces, name, length, md5sum } => Value::Dict(
            match md5sum {
                Some(sum) => dict_insert(
                    dict_insert(
                        common_entries(piece_length, pieces, name),
                        "length".spec_bytes(),
                        Value::Integer(length as int),
                    ),
                    "md5sum".spec_bytes(),
                    md5_value(sum),
                ),
                None => dict_insert(
                    common_entries(piece_length, pieces, name),
                    "length".spec_bytes(),
                    Value::Integer(length as int),
                ),
            },
        ),
        InfoView::MultiFile { piece_length, pieces, name, files } => Value::Dict(
            dict_insert(
                common_entries(piece_length, pieces, name),
                "files".spec_bytes(),
                Value::List(file_values(files)),
            ),
        ),
    }
}

/// The entries that every `info` has: the piece length, the pieces and the
/// name.
pub open spec fn common_entries(piece_length: u64, pieces: Seq<Seq<u8>>, name: Seq<char>) -> Seq<
    (Seq<u8>, Value),
> {
    dict_insert(
        dict_insert(
            dict_insert(
                Seq::empty(),
                "piece length".spec_bytes(),
                Value::Integer(piece_length as int),
            ),
            "pieces".spec_bytes(),
            Value::Bytes(pieces_bytes(pieces)),
        ),
        "name".spec_bytes(),
        Value::Bytes(encode_utf8(name)),
    )
}

/// The sum of the lengths of the files.
pub open spec fn total_length(files: Seq<FileView>) -> nat
    decreases files.len(),
{
    if files.len() == 0 {
        0
    } else {
        total_length(files.drop_last()) + files.last().length as nat
    }
}

/// The number of bytes of the torrent's content.
pub open spec fn content_length(info: InfoView) -> nat {
    match info {
        InfoView::SingleFile { length, .. } => length as nat,
        InfoView::MultiFile { files, .. } => total_length(files),
    }
}

/// The number of pieces of an `info`, and its piece length.
pub open spec fn piece_count(info: InfoView) -> (nat, nat) {
    match info {
        InfoView::SingleFile { piece_length, pieces, .. } => (pieces.len(), piece_length as nat),
        InfoView::MultiFile { piece_length, pieces, .. } => (pieces.len(), piece_length as nat),
    }
}

/// Whether the pieces cover the content exactly: the piece length is not
/// zero, and there are as many pieces as the content has stretches of that
/// length, the last of which may be shorter.
pub open spec fn pieces_cover(info: InfoView) -> bool {
    let (count, piece_length) = piece_count(info);
    piece_length > 0 && (count - 1) * piece_length < content_length(info) <= count * piece_length
}

/// Only one number of pieces covers a content of a given length.
proof fn lemma_cover_unique(l: int, p: int, c: int, n: int)
    requires
        p > 0,
        (c - 1) * p < l <= c * p,
        (n - 1) * p < l <= n * p,
    ensures
        c == n,
{
    if c < n {
        assert(c * p <= (n - 1) * p) by (nonlinear_arith)
            requires
                c <= n - 1,
                p > 0,
        ;
    } else if n < c {
        assert(n * p <= (c - 1) * p) by (nonlinear_arith)
            requires
                n <= c - 1,
                p > 0,
        ;
    }
}

/// The digests that a byte string holds.
pub fn pieces_from_bytes(bytes: &[u8]) -> (pieces: Vec<Piece>)
    requires
        bytes@.len() % 20 == 0,
    ensures
        pieces_view(pieces@) == pieces_of(bytes@),
{
    let len: usize = bytes.len();
    let n: usize = len / 20;
    let mut pieces: Vec<Piece> = Vec::new();
    let mut i: usize = 0;
    while i < n
        invariant
            i <= n,
            len == bytes@.len(),
            20 * n == len,
            pieces@.len() == i,
            forall|j: int|
                0 <= j < i ==> (#[trigger] pieces@[j])@ == bytes@.subrange(20 * j, 20 * j + 20),
        decreases n - i,
    {
        pieces.push(Piece::at(bytes, 20 * i));
        i += 1;
    }
    assert(pieces_view(pieces@) =~= pieces_of(bytes@));
    pieces
}

/// The digests, one after the other.
pub fn pieces_to_bytes(pieces: &Vec<Piece>) -> (bytes: Vec<u8>)
    ensures
        bytes@ == pieces_bytes(pieces_view(pieces@)),
{
    let mut bytes: Vec<u8> = Vec::new();
    let mut i: usize = 0;
    let ghost all = pieces_view(pieces@);
    assert(all.take(0) =~= Seq::<Seq<u8>>::empty());
    while i < pieces.len()
        invariant
            i <= pieces.len(),
            all == pieces_view(pieces@),
            bytes@ == pieces_bytes(all.take(i as int)),
        decreases pieces.len() - i,
    {
        proof {
            assert(all.take(i + 1).drop_last() =~= all.take(i as int));
        }
        append_slice(&mut bytes, pieces[i].as_slice());
        i += 1;
    }
    assert(all.take(i as int) =~= all);
    bytes
}

/// The files that a list of bencoded dictionaries describes.
pub fn files_from_list(list: &Vec<BencodeValue>) -> (r: Result<Vec<File>, MetainfoError>)
    ensures
        match files_of(list_view(list@), 0, Seq::empty()) {
            Ok(found) => r matches Ok(files) && files_view(files@) == found,
            Err(e) => r matches Err(error) && error == e,
        },
{
    let mut files: Vec<File> = Vec::new();
    let mut i: usize = 0;
    assert(files_view(files@) =~= Seq::<FileView>::empty());
    while i < list.len()
        invariant
            i <= list.len(),
            files_of(list_view(list@), i as int, files_view(files@)) == files_of(
                list_view(list@),
                0,
                Seq::empty(),
            ),
        decreases list.len() - i,
    {
        match File::from_bencode(&list[i]) {
            Ok(file) => {
                assert(files_view(files@.push(file)) =~= files_view(files@).push(file@));
                files.push(file);
            },
            Err(e) => {
                return Err(e);
            },
        }
        i += 1;
    }
    Ok(files)
}

/// The files as bencoded dictionaries.
pub fn files_to_list(files: &Vec<File>) -> (list: Vec<BencodeValue>)
    ensures
        list_view(list@) == file_values(files_view(files@)),
{
    let mut list: Vec<BencodeValue> = Vec::new();
    let mut i: usize = 0;
    while i < files.len()
        invariant
            i <= files.len(),
            list@.len() == i,
            forall|j: int| 0 <= j < i ==> (#[trigger] list@[j])@ == file_value(files@[j]@),
        decreases files.len() - i,
    {
        list.push(files[i].to_bencode());
        i += 1;
    }
    assert(list_view(list@) =~= file_values(files_view(files@)));
    list
}

/// The dictionary with the entries that every `info` has.
fn common_dict(piece_length: u64, pieces: &Vec<Piece>, name: &String) -> (dict: Dict)
    ensures
        dict@ == common_entries(piece_length, pieces_view(pieces@), name@),
{
    let mut dict: Dict = Dict::new();
    assert(dict@ =~= Seq::<(Seq<u8>, Value)>::empty());
    dict.insert(
        vstd::slice::slice_to_vec("piece length".as_bytes()),
        BencodeValue::Integer(piece_length as i128),
    );
    dict.insert(
        vstd::slice::slice_to_vec("pieces".as_bytes()),
        BencodeValue::Bytes(pieces_to_bytes(pieces)),
    );
    dict.insert(vstd::slice::slice_to_vec("name".as_bytes()), BencodeValue::from(name.as_str()));
    dict
}

impl Info {
    /// The number of bytes of the torrent's content: the length of the
    /// file, or the sum of the lengths of the files, as far as `u64` goes.
    pub fn length(&self) -> (length: u64)
        ensures
            length == if content_length(self@) <= u64::MAX {
                content_length(self@) as u64
            } else {
                u64::MAX
            },
    {
        match self {
            Info::SingleFile { length, .. } => *length,
            Info::MultiFile { files, .. } => {
                let mut total: u64 = 0;
                let mut i: usize = 0;
                let ghost all = files_view(files@);
                assert(all.take(0) =~= Seq::<FileView>::empty());
                while i < files.len()
                    invariant
                        i <= files.len(),
                        all == files_view(files@),
                        total == if total_length(all.take(i as int)) <= u64::MAX {
                            total_length(all.take(i as int)) as u64
                        } else {
                            u64::MAX
                        },
                    decreases files.len() - i,
                {
                    proof {
                        assert(all.take(i + 1).drop_last() =~= all.take(i as int));
                    }
                    let length: u64 = files[i].length;
                    if length > u64::MAX - total {
                        total = u64::MAX;
                    } else {
                        total = total + length;
                    }
                    i += 1;
                }
                assert(all.take(i as int) =~= all);
                total
            },
        }
    }

    /// Whether the pieces cover the content exactly, where the content's
    /// length can be told: a length of `u64::MAX` or more is covered by no
    /// number of pieces here.
    pub fn pieces_cover_length(&self) -> (covered: bool)
        ensures
            content_length(self@) < u64::MAX ==> covered == pieces_cover(self@),
            content_length(self@) >= u64::MAX ==> !covered,
    {
        let length: u64 = self.length();
        let (count, piece_length): (usize, u64) = match self {
            Info::SingleFile { piece_length, pieces, .. } => (pieces.len(), *piece_length),
            Info::MultiFile { piece_length, pieces, .. } => (pieces.len(), *piece_length),
        };
        if length == u64::MAX || piece_length == 0 {
            return false;
        }
        let whole: u64 = length / piece_length;
        let needed: u64 = if length % piece_length == 0 {
            whole
        } else {
            whole + 1
        };
        proof {
            let l = length as int;
            let p = piece_length as int;
            let n = needed as int;
            assert(l == p * (l / p) + l % p) by (nonlinear_arith)
                requires
                    p > 0,
                    l >= 0,
            ;
            assert(0 <= l % p < p) by (nonlinear_arith)
                requires
                    p > 0,
                    l >= 0,
            ;
            assert((n - 1) * p < l <= n * p) by (nonlinear_arith)
                requires
                    l == p * (l / p) + l % p,
                    0 <= l % p < p,
                    n == if l % p == 0 {
                        l / p
                    } else {
                        l / p + 1
                    },
                    p > 0,
                    l >= 0,
            ;
            let c = count as int;
            assert(piece_count(self@) == (c as nat, p as nat));
            assert(content_length(self@) == l);
            if (c - 1) * p < l <= c * p {
                lemma_cover_unique(l, p, c, n);
            }
        }
        count as u64 == needed
    }

    /// The `info` that a bencoded dictionary describes.
    pub fn from_bencode(value: &BencodeValue) -> (r: Result<Info, MetainfoError>)
        ensures
            match info_of(value@) {
                Ok(view) => r matches Ok(info) && info@ == view,
                Err(e) => r matches Err(error) && error == e,
            },
    {
        let dict = match value.as_dict() {
            Some(dict) => dict,
            None => {
                return Err(MetainfoError::InfoNotADict);
            },
        };
        let piece_length: i128 = match dict.get("piece length".as_bytes()) {
            Some(found) => match found.as_integer() {
                Some(n) => n,
                None => {
                    return Err(MetainfoError::InfoMissingKeys);
                },
            },
            None => {
                return Err(MetainfoError::InfoMissingKeys);
            },
        };
        let pieces_bytes = match dict.get("pieces".as_bytes()) {
            Some(found) => match found.as_bytes() {
                Some(bytes) => bytes,
                None => {
                    return Err(MetainfoError::InfoMissingKeys);
                },
            },
            None => {
                return Err(MetainfoError::InfoMissingKeys);
            },
        };
        let name: String = match dict.get("name".as_bytes()) {
            Some(found) => match found.as_text() {
                Some(name) => name,
                None => {
                    return Err(MetainfoError::InfoMissingKeys);
                },
            },
            None => {
                return Err(MetainfoError::InfoMissingKeys);
            },
        };
        if pieces_bytes.len() == 0 || pieces_bytes.len() % 20 != 0 {
            return Err(MetainfoError::BadPieces);
        }
        let pieces = pieces_from_bytes(pieces_bytes.as_slice());
        match (dict.get("length".as_bytes()), dict.get("files".as_bytes())) {
            (Some(BencodeValue::Integer(length)), None) => {
                if piece_length < 0 || piece_length > u64::MAX as i128 || *length < 0 || *length
                    > u64::MAX as i128 {
                    return Err(MetainfoError::IntegerOutOfRange);
                }
                match read_optional_md5(dict) {
                    Ok(md5sum) => Ok(
                        Info::SingleFile {
                            piece_length: piece_length as u64,
                            pieces,
                            name,
                            length: *length as u64,
                            md5sum,
                        },
                    ),
                    Err(e) => Err(e),
                }
            },
            (None, Some(BencodeValue::List(list))) => {
                if piece_length < 0 || piece_length > u64::MAX as i128 {
                    return Err(MetainfoError::IntegerOutOfRange);
                }
                match files_from_list(list) {
                    Ok(files) => Ok(
                        Info::MultiFile { piece_length: piece_length as u64, pieces, name, files },
                    ),
                    Err(e) => Err(e),
                }
            },
            _ => Err(MetainfoError::LengthXorFiles),
        }
    }

    /// The `info` as a bencoded dictionary.
    pub fn to_bencode(&self) -> (value: BencodeValue)
        ensures
            value@ == info_value(self@),
    {
        match self {
            Info::SingleFile { piece_length, pieces, name, length, md5sum } => {
                let mut dict = common_dict(*piece_length, pieces, name);
                dict.insert(
                    vstd::slice::slice_to_vec("length".as_bytes()),
                    BencodeValue::Integer(*length as i128),
                );
                match md5sum {
                    Some(sum) => {
                        dict.insert(
                            vstd::slice::slice_to_vec("md5sum".as_bytes()),
                            sum.to_bencode(),
                        );
                    },
                    None => {},
                }
                BencodeValue::Dict(dict)
            },
            Info::MultiFile { piece_length, pieces, name, files } => {
                let mut dict = common_dict(*piece_length, pieces, name);
                dict.insert(
                    vstd::slice::slice_to_vec("files".as_bytes()),
                    BencodeValue::List(files_to_list(files)),
                );
                BencodeValue::Dict(dict)
            },
        }
    }
}

} // verus!

//! What is written of a metainfo file is what is read.

use vstd::prelude::*;
use vstd::string::StringSliceAdditionalSpecFns;
use vstd::utf8::encode_utf8;
use crate::bencode::grammar::{encode_bytes, encode_entries, encode_value, BYTE_D, BYTE_E};
use crate::bencode::laws::{
    holds_at, law_decode_encode, lemma_first_byte, lemma_holds_at_split,
    lemma_holds_at_subrange, lemma_insert_well_formed, lemma_read_back_bytes,
    lemma_read_back_value, well_formed,
};
use crate::bencode::order::lemma_lt_irreflexive;
use crate::hash::sha1_digest;
use crate::bencode::value::{
    canonical, dict_get, dict_insert, dict_position, lemma_dict_get_after_insert,
    lemma_dict_position, representable, Value,
};
use crate::ident::hex_text;
use crate::metainfo::error::MetainfoError;
use crate::metainfo::file::{file_of, file_value, text_values, texts_of, FileView};
use crate::metainfo::info::{
    common_entries, file_values, files_of, info_of, info_value, pieces_bytes, pieces_of, InfoView,
};
use crate::metainfo::md5::{bytes_of_hex, md5_of, md5_value, Md5Error};
use crate::metainfo::torrent::{
    info_bytes, info_span, info_span_from, insert_optional_text, metainfo_entries, metainfo_of,
    metainfo_of_bytes, metainfo_value, tier_values, tiers_of, MetainfoView,
};
use crate::query::{hex_digit, hex_value};
use crate::text::{law_text_read_back, lemma_literal_bytes};

verus! {

/// The two digits of a byte stand for the byte.
proof fn lemma_hex_pair(b: u8)
    ensures
        hex_value(hex_digit(b / 16)) == Some((b / 16) as u8),
        hex_value(hex_digit(b % 16)) == Some((b % 16) as u8),
        ((b / 16) * 16 + b % 16) as u8 == b,
{
}

/// The digits of bytes are those of the first byte and those of the rest.
proof fn lemma_hex_text_front(bytes: Seq<u8>)
    requires
        bytes.len() > 0,
    ensures
        hex_text(bytes) == seq![hex_digit(bytes[0] / 16), hex_digit(bytes[0] % 16)] + hex_text(
            bytes.drop_first(),
        ),
    decreases bytes.len(),
{
    let pair = seq![hex_digit(bytes[0] / 16), hex_digit(bytes[0] % 16)];
    let last = seq![hex_digit(bytes.last() / 16), hex_digit(bytes.last() % 16)];
    if bytes.len() == 1 {
        assert(bytes.drop_last() =~= Seq::<u8>::empty());
        assert(bytes.drop_first() =~= Seq::<u8>::empty());
        assert(hex_text(bytes) =~= pair + hex_text(bytes.drop_first()));
    } else {
        let front = bytes.drop_last();
        let rest = bytes.drop_first();
        lemma_hex_text_front(front);
        assert(front.drop_first() =~= rest.drop_last());
        assert(front[0] == bytes[0]);
        assert(rest.last() == bytes.last());
        assert(hex_text(rest) == hex_text(rest.drop_last()) + last);
        assert(hex_text(bytes) =~= pair + hex_text(rest));
    }
}

/// Bytes that are written as hexadecimal digits are read back.
pub proof fn lemma_hex_read_back(bytes: Seq<u8>)
    ensures
        hex_text(bytes).len() == 2 * bytes.len(),
        bytes_of_hex(hex_text(bytes)) == Some(bytes),
    decreases bytes.len(),
{
    if bytes.len() > 0 {
        let rest = bytes.drop_first();
        lemma_hex_text_front(bytes);
        lemma_hex_read_back(rest);
        lemma_hex_pair(bytes[0]);
        let text = hex_text(bytes);
        assert(text.skip(2) =~= hex_text(rest));
        assert(text[0] == hex_digit(bytes[0] / 16));
        assert(text[1] == hex_digit(bytes[0] % 16));
        assert(seq![bytes[0]] + rest =~= bytes);
    }
}

/// An MD5 sum that is written is read back.
pub proof fn law_md5_round_trip(sum: Seq<u8>)
    requires
        sum.len() == 16,
    ensures
        md5_of(md5_value(sum)) == Ok::<Seq<u8>, Md5Error>(sum),
{
    lemma_hex_read_back(sum);
}

/// Texts that are written as a list of byte strings are read back, one
/// after the other.
proof fn lemma_texts_read_back(texts: Seq<Seq<char>>, at: int, acc: Seq<Seq<char>>)
    requires
        0 <= at <= texts.len(),
        acc == texts.subrange(0, at),
    ensures
        texts_of(text_values(texts), at, acc) == Some(texts),
    decreases texts.len() - at,
{
    let values = text_values(texts);
    if at >= values.len() {
        assert(acc =~= texts);
    } else {
        law_text_read_back(texts[at]);
        assert(values[at] == Value::Bytes(encode_utf8(texts[at])));
        assert(acc.push(texts[at]) =~= texts.subrange(0, at + 1));
        lemma_texts_read_back(texts, at + 1, acc.push(texts[at]));
    }
}

/// Texts that are written as a list of byte strings are read back.
pub proof fn law_texts_round_trip(texts: Seq<Seq<char>>)
    ensures
        texts_of(text_values(texts), 0, Seq::empty()) == Some(texts),
        canonical(Value::List(text_values(texts))),
        representable(Value::List(text_values(texts))),
{
    assert(texts.subrange(0, 0) =~= Seq::<Seq<char>>::empty());
    lemma_texts_read_back(texts, 0, Seq::empty());
    let values = text_values(texts);
    assert forall|i: int| 0 <= i < values.len() implies canonical(#[trigger] values[i])
        && representable(values[i]) by {
        assert(values[i] == Value::Bytes(encode_utf8(texts[i])));
    }
}

/// Digests of twenty bytes each that are written one after the other are
/// read back.
pub proof fn law_pieces_round_trip(pieces: Seq<Seq<u8>>)
    requires
        forall|i: int| 0 <= i < pieces.len() ==> (#[trigger] pieces[i]).len() == 20,
    ensures
        pieces_bytes(pieces).len() == 20 * pieces.len(),
        pieces_of(pieces_bytes(pieces)) == pieces,
    decreases pieces.len(),
{
    if pieces.len() > 0 {
        let front = pieces.drop_last();
        law_pieces_round_trip(front);
        let bytes = pieces_bytes(pieces);
        let read = pieces_of(bytes);
        assert(bytes == pieces_bytes(front) + pieces.last());
        assert(read.len() == pieces.len());
        assert forall|i: int| 0 <= i < pieces.len() implies read[i] == pieces[i] by {
            if i < front.len() {
                assert(pieces_of(pieces_bytes(front))[i] == front[i]);
                assert(bytes.subrange(20 * i, 20 * i + 20) =~= pieces_bytes(front).subrange(
                    20 * i,
                    20 * i + 20,
                ));
            } else {
                assert(bytes.subrange(20 * i, 20 * i + 20) =~= pieces.last());
            }
        }
        assert(read =~= pieces);
    } else {
        assert(pieces_of(pieces_bytes(pieces)) =~= pieces);
    }
}

/// The keys of the dictionaries of a metainfo file: how long each is, and
/// how each starts.
proof fn lemma_metainfo_keys()
    ensures
        "length".spec_bytes().len() == 6,
        "length".spec_bytes()[0] == 108,
        "path".spec_bytes().len() == 4,
        "path".spec_bytes()[0] == 112,
        "md5sum".spec_bytes().len() == 6,
        "md5sum".spec_bytes()[0] == 109,
        "piece length".spec_bytes().len() == 12,
        "pieces".spec_bytes().len() == 6,
        "pieces".spec_bytes()[0] == 112,
        "name".spec_bytes().len() == 4,
        "name".spec_bytes()[0] == 110,
        "files".spec_bytes().len() == 5,
        "info".spec_bytes().len() == 4,
        "info".spec_bytes()[0] == 105,
        "announce".spec_bytes().len() == 8,
        "announce".spec_bytes()[0] == 97,
        "announce-list".spec_bytes().len() == 13,
        "announce-list".spec_bytes()[0] == 97,
        "creation date".spec_bytes().len() == 13,
        "creation date".spec_bytes()[0] == 99,
        "comment".spec_bytes().len() == 7,
        "created by".spec_bytes().len() == 10,
        "encoding".spec_bytes().len() == 8,
        "encoding".spec_bytes()[0] == 101,
{
    reveal_strlit("length");
    reveal_strlit("path");
    reveal_strlit("md5sum");
    reveal_strlit("piece length");
    reveal_strlit("pieces");
    reveal_strlit("name");
    reveal_strlit("files");
    reveal_strlit("info");
    reveal_strlit("announce");
    reveal_strlit("announce-list");
    reveal_strlit("creation date");
    reveal_strlit("comment");
    reveal_strlit("created by");
    reveal_strlit("encoding");
    let length = "length";
    let path = "path";
    let md5sum = "md5sum";
    let piece_length = "piece length";
    let pieces = "pieces";
    let name = "name";
    let files = "files";
    let info = "info";
    let announce = "announce";
    let announce_list = "announce-list";
    let creation_date = "creation date";
    let comment = "comment";
    let created_by = "created by";
    let encoding = "encoding";
    assert(vstd::string::is_ascii(length));
    assert(vstd::string::is_ascii(path));
    assert(vstd::string::is_ascii(md5sum));
    assert(vstd::string::is_ascii(piece_length));
    assert(vstd::string::is_ascii(pieces));
    assert(vstd::string::is_ascii(name));
    assert(vstd::string::is_ascii(files));
    assert(vstd::string::is_ascii(info));
    assert(vstd::string::is_ascii(announce));
    assert(vstd::string::is_ascii(announce_list));
    assert(vstd::string::is_ascii(creation_date));
    assert(vstd::string::is_ascii(comment));
    assert(vstd::string::is_ascii(created_by));
    assert(vstd::string::is_ascii(encoding));
    lemma_literal_bytes(length);
    lemma_literal_bytes(path);
    lemma_literal_bytes(md5sum);
    lemma_literal_bytes(piece_length);
    lemma_literal_bytes(pieces);
    lemma_literal_bytes(name);
    lemma_literal_bytes(files);
    lemma_literal_bytes(info);
    lemma_literal_bytes(announce);
    lemma_literal_bytes(announce_list);
    lemma_literal_bytes(creation_date);
    lemma_literal_bytes(comment);
    lemma_literal_bytes(created_by);
    lemma_literal_bytes(encoding);
}

/// Whether the MD5 sum of a file, where it has one, is sixteen bytes long.
pub open spec fn sound_file(f: FileView) -> bool {
    f.md5sum matches Some(sum) ==> sum.len() == 16
}

/// A file that is written is read back.
pub proof fn law_file_round_trip(f: FileView)
    requires
        sound_file(f),
    ensures
        file_of(file_value(f)) == Ok::<FileView, MetainfoError>(f),
        canonical(file_value(f)),
        representable(file_value(f)),
{
    lemma_metainfo_keys();
    let length = "length".spec_bytes();
    let path = "path".spec_bytes();
    let md5sum = "md5sum".spec_bytes();
    let length_value = Value::Integer(f.length as int);
    let path_value = Value::List(text_values(f.path));
    let none = Seq::<(Seq<u8>, Value)>::empty();
    let first = dict_insert(none, length, length_value);
    let second = dict_insert(first, path, path_value);
    law_texts_round_trip(f.path);
    assert(well_formed(none));
    lemma_insert_well_formed(none, length, length_value);
    lemma_insert_well_formed(first, path, path_value);
    assert(dict_get(none, length) is None);
    assert(dict_get(none, path) is None);
    assert(dict_get(none, md5sum) is None);
    lemma_dict_get_after_insert(none, length, length_value, length);
    lemma_dict_get_after_insert(none, length, length_value, path);
    lemma_dict_get_after_insert(none, length, length_value, md5sum);
    lemma_dict_get_after_insert(first, path, path_value, length);
    lemma_dict_get_after_insert(first, path, path_value, path);
    lemma_dict_get_after_insert(first, path, path_value, md5sum);
    match f.md5sum {
        Some(sum) => {
            let sum_value = md5_value(sum);
            let third = dict_insert(second, md5sum, sum_value);
            assert(file_value(f) == Value::Dict(third));
            lemma_insert_well_formed(second, md5sum, sum_value);
            lemma_dict_get_after_insert(second, md5sum, sum_value, length);
            lemma_dict_get_after_insert(second, md5sum, sum_value, path);
            lemma_dict_get_after_insert(second, md5sum, sum_value, md5sum);
            law_md5_round_trip(sum);
        },
        None => {
            assert(file_value(f) == Value::Dict(second));
        },
    }
}

/// Files that are written as a list of dictionaries are read back, one
/// after the other.
proof fn lemma_files_read_back(files: Seq<FileView>, at: int, acc: Seq<FileView>)
    requires
        0 <= at <= files.len(),
        forall|i: int| 0 <= i < files.len() ==> sound_file(#[trigger] files[i]),
        acc == files.subrange(0, at),
    ensures
        files_of(file_values(files), at, acc) == Ok::<Seq<FileView>, MetainfoError>(files),
    decreases files.len() - at,
{
    let values = file_values(files);
    if at >= values.len() {
        assert(acc =~= files);
    } else {
        law_file_round_trip(files[at]);
        assert(values[at] == file_value(files[at]));
        assert(acc.push(files[at]) =~= files.subrange(0, at + 1));
        lemma_files_read_back(files, at + 1, acc.push(files[at]));
    }
}

/// Files that are written as a list of dictionaries are read back.
pub proof fn law_files_round_trip(files: Seq<FileView>)
    requires
        forall|i: int| 0 <= i < files.len() ==> sound_file(#[trigger] files[i]),
    ensures
        files_of(file_values(files), 0, Seq::empty()) == Ok::<Seq<FileView>, MetainfoError>(
            files,
        ),
        canonical(Value::List(file_values(files))),
        representable(Value::List(file_values(files))),
{
    assert(files.subrange(0, 0) =~= Seq::<FileView>::empty());
    lemma_files_read_back(files, 0, Seq::empty());
    let values = file_values(files);
    assert forall|i: int| 0 <= i < values.len() implies canonical(#[trigger] values[i])
        && representable(values[i]) by {
        law_file_round_trip(files[i]);
    }
}

/// The entries that every `info` has are well formed, and hold what was
/// put in.
proof fn lemma_common_entries(
    piece_length: u64,
    pieces: Seq<Seq<u8>>,
    name: Seq<char>,
    other: Seq<u8>,
)
    ensures
        well_formed(common_entries(piece_length, pieces, name)),
        dict_get(common_entries(piece_length, pieces, name), other) == if other
            == "name".spec_bytes() {
            Some(Value::Bytes(encode_utf8(name)))
        } else if other == "pieces".spec_bytes() {
            Some(Value::Bytes(pieces_bytes(pieces)))
        } else if other == "piece length".spec_bytes() {
            Some(Value::Integer(piece_length as int))
        } else {
            None
        },
{
    let key_length = "piece length".spec_bytes();
    let key_pieces = "pieces".spec_bytes();
    let key_name = "name".spec_bytes();
    let length_value = Value::Integer(piece_length as int);
    let pieces_value = Value::Bytes(pieces_bytes(pieces));
    let name_value = Value::Bytes(encode_utf8(name));
    let none = Seq::<(Seq<u8>, Value)>::empty();
    let first = dict_insert(none, key_length, length_value);
    let second = dict_insert(first, key_pieces, pieces_value);
    assert(well_formed(none));
    lemma_insert_well_formed(none, key_length, length_value);
    lemma_insert_well_formed(first, key_pieces, pieces_value);
    lemma_insert_well_formed(second, key_name, name_value);
    assert(dict_get(none, other) is None);
    lemma_dict_get_after_insert(none, key_length, length_value, other);
    lemma_dict_get_after_insert(first, key_pieces, pieces_value, other);
    lemma_dict_get_after_insert(second, key_name, name_value, other);
}

/// Whether an `info` can be written and read back: it has pieces, each a
/// digest of twenty bytes, and each MD5 sum in it is sixteen bytes long.
pub open spec fn sound_info(info: InfoView) -> bool {
    match info {
        InfoView::SingleFile { pieces, md5sum, .. } => {
            &&& pieces.len() > 0
            &&& forall|i: int| 0 <= i < pieces.len() ==> (#[trigger] pieces[i]).len() == 20
            &&& md5sum matches Some(sum) ==> sum.len() == 16
        },
        InfoView::MultiFile { pieces, files, .. } => {
            &&& pieces.len() > 0
            &&& forall|i: int| 0 <= i < pieces.len() ==> (#[trigger] pieces[i]).len() == 20
            &&& forall|i: int| 0 <= i < files.len() ==> sound_file(#[trigger] files[i])
        },
    }
}

/// An `info` that is written is read back.
pub proof fn law_info_round_trip(info: InfoView)
    requires
        sound_info(info),
    ensures
        info_of(info_value(info)) == Ok::<InfoView, MetainfoError>(info),
        canonical(info_value(info)),
        representable(info_value(info)),
{
    lemma_metainfo_keys();
    let key_piece_length = "piece length".spec_bytes();
    let key_pieces = "pieces".spec_bytes();
    let key_name = "name".spec_bytes();
    let key_length = "length".spec_bytes();
    let key_files = "files".spec_bytes();
    let key_md5sum = "md5sum".spec_bytes();
    match info {
        InfoView::SingleFile { piece_length, pieces, name, length, md5sum } => {
            let common = common_entries(piece_length, pieces, name);
            let length_value = Value::Integer(length as int);
            let with_length = dict_insert(common, key_length, length_value);
            lemma_common_entries(piece_length, pieces, name, key_piece_length);
            lemma_common_entries(piece_length, pieces, name, key_pieces);
            lemma_common_entries(piece_length, pieces, name, key_name);
            lemma_common_entries(piece_length, pieces, name, key_length);
            lemma_common_entries(piece_length, pieces, name, key_files);
            lemma_common_entries(piece_length, pieces, name, key_md5sum);
            lemma_insert_well_formed(common, key_length, length_value);
            lemma_dict_get_after_insert(common, key_length, length_value, key_piece_length);
            lemma_dict_get_after_insert(common, key_length, length_value, key_pieces);
            lemma_dict_get_after_insert(common, key_length, length_value, key_name);
            lemma_dict_get_after_insert(common, key_length, length_value, key_length);
            lemma_dict_get_after_insert(common, key_length, length_value, key_files);
            lemma_dict_get_after_insert(common, key_length, length_value, key_md5sum);
            law_pieces_round_trip(pieces);
            law_text_read_back(name);
            match md5sum {
                Some(sum) => {
                    let sum_value = md5_value(sum);
                    let entries = dict_insert(with_length, key_md5sum, sum_value);
                    assert(info_value(info) == Value::Dict(entries));
                    lemma_insert_well_formed(with_length, key_md5sum, sum_value);
                    lemma_dict_get_after_insert(with_length, key_md5sum, sum_value, key_piece_length);
                    lemma_dict_get_after_insert(with_length, key_md5sum, sum_value, key_pieces);
                    lemma_dict_get_after_insert(with_length, key_md5sum, sum_value, key_name);
                    lemma_dict_get_after_insert(with_length, key_md5sum, sum_value, key_length);
                    lemma_dict_get_after_insert(with_length, key_md5sum, sum_value, key_files);
                    lemma_dict_get_after_insert(with_length, key_md5sum, sum_value, key_md5sum);
                    law_md5_round_trip(sum);
                },
                None => {
                    assert(info_value(info) == Value::Dict(with_length));
                },
            }
        },
        InfoView::MultiFile { piece_length, pieces, name, files } => {
            let common = common_entries(piece_length, pieces, name);
            let files_value = Value::List(file_values(files));
            let entries = dict_insert(common, key_files, files_value);
            assert(info_value(info) == Value::Dict(entries));
            lemma_common_entries(piece_length, pieces, name, key_piece_length);
            lemma_common_entries(piece_length, pieces, name, key_pieces);
            lemma_common_entries(piece_length, pieces, name, key_name);
            lemma_common_entries(piece_length, pieces, name, key_length);
            lemma_common_entries(piece_length, pieces, name, key_files);
            law_files_round_trip(files);
            lemma_insert_well_formed(common, key_files, files_value);
            lemma_dict_get_after_insert(common, key_files, files_value, key_piece_length);
            lemma_dict_get_after_insert(common, key_files, files_value, key_pieces);
            lemma_dict_get_after_insert(common, key_files, files_value, key_name);
            lemma_dict_get_after_insert(common, key_files, files_value, key_length);
            lemma_dict_get_after_insert(common, key_files, files_value, key_files);
            law_pieces_round_trip(pieces);
            law_text_read_back(name);
        },
    }
}

/// Tiers that are written as a list of lists are read back, one after the
/// other.
proof fn lemma_tiers_read_back(
    tiers: Seq<Seq<Seq<char>>>,
    at: int,
    acc: Seq<Seq<Seq<char>>>,
)
    requires
        0 <= at <= tiers.len(),
        acc == tiers.subrange(0, at),
    ensures
        tiers_of(tier_values(tiers), at, acc) == Ok::<Seq<Seq<Seq<char>>>, MetainfoError>(tiers),
    decreases tiers.len() - at,
{
    let values = tier_values(tiers);
    if at >= values.len() {
        assert(acc =~= tiers);
    } else {
        law_texts_round_trip(tiers[at]);
        assert(values[at] == Value::List(text_values(tiers[at])));
        assert(acc.push(tiers[at]) =~= tiers.subrange(0, at + 1));
        lemma_tiers_read_back(tiers, at + 1, acc.push(tiers[at]));
    }
}

/// Tiers that are written as a list of lists are read back.
pub proof fn law_tiers_round_trip(tiers: Seq<Seq<Seq<char>>>)
    ensures
        tiers_of(tier_values(tiers), 0, Seq::empty()) == Ok::<
            Seq<Seq<Seq<char>>>,
            MetainfoError,
        >(tiers),
        canonical(Value::List(tier_values(tiers))),
        representable(Value::List(tier_values(tiers))),
{
    assert(tiers.subrange(0, 0) =~= Seq::<Seq<Seq<char>>>::empty());
    lemma_tiers_read_back(tiers, 0, Seq::empty());
    let values = tier_values(tiers);
    assert forall|i: int| 0 <= i < values.len() implies canonical(#[trigger] values[i])
        && representable(values[i]) by {
        law_texts_round_trip(tiers[i]);
    }
}

/// What is found under a key after a text was stored where there was one.
proof fn lemma_get_after_text(
    entries: Seq<(Seq<u8>, Value)>,
    key: Seq<u8>,
    text: Option<Seq<char>>,
    other: Seq<u8>,
)
    requires
        well_formed(entries),
    ensures
        well_formed(insert_optional_text(entries, key, text)),
        dict_get(insert_optional_text(entries, key, text), other) == if other == key
            && text is Some {
            Some(Value::Bytes(encode_utf8(text->0)))
        } else {
            dict_get(entries, other)
        },
{
    if let Some(t) = text {
        lemma_insert_well_formed(entries, key, Value::Bytes(encode_utf8(t)));
        lemma_dict_get_after_insert(entries, key, Value::Bytes(encode_utf8(t)), other);
    }
}

/// Whether a metainfo can be written and read back: its `info` can, and
/// the magnitude of its creation date fits 64 bits.
pub open spec fn sound_metainfo(m: MetainfoView) -> bool {
    &&& sound_info(m.info)
    &&& m.creation_date matches Some(time) ==> -(u64::MAX as int) <= time.seconds <= u64::MAX as int
}

/// The dictionary of a metainfo is well formed, and holds what was put in.
proof fn lemma_metainfo_entries(m: MetainfoView, other: Seq<u8>)
    requires
        sound_metainfo(m),
    ensures
        well_formed(metainfo_entries(m)),
        dict_get(metainfo_entries(m), other) == if other == "encoding".spec_bytes()
            && m.encoding is Some {
            Some(Value::Bytes(encode_utf8(m.encoding->0)))
        } else if other == "created by".spec_bytes() && m.created_by is Some {
            Some(Value::Bytes(encode_utf8(m.created_by->0)))
        } else if other == "comment".spec_bytes() && m.comment is Some {
            Some(Value::Bytes(encode_utf8(m.comment->0)))
        } else if other == "creation date".spec_bytes() && m.creation_date is Some {
            Some(Value::Integer(m.creation_date->0.seconds as int))
        } else if other == "announce-list".spec_bytes() && m.announce_list is Some {
            Some(Value::List(tier_values(m.announce_list->0)))
        } else if other == "announce".spec_bytes() {
            Some(Value::Bytes(encode_utf8(m.announce)))
        } else if other == "info".spec_bytes() {
            Some(info_value(m.info))
        } else {
            None
        },
{
    let key_info = "info".spec_bytes();
    let key_announce = "announce".spec_bytes();
    let key_list = "announce-list".spec_bytes();
    let key_date = "creation date".spec_bytes();
    let key_comment = "comment".spec_bytes();
    let key_created_by = "created by".spec_bytes();
    let key_encoding = "encoding".spec_bytes();
    let announce_value = Value::Bytes(encode_utf8(m.announce));
    let none = Seq::<(Seq<u8>, Value)>::empty();
    let first = dict_insert(none, key_info, info_value(m.info));
    let required = dict_insert(first, key_announce, announce_value);
    law_info_round_trip(m.info);
    assert(well_formed(none));
    assert(dict_get(none, other) is None);
    lemma_insert_well_formed(none, key_info, info_value(m.info));
    lemma_dict_get_after_insert(none, key_info, info_value(m.info), other);
    lemma_insert_well_formed(first, key_announce, announce_value);
    lemma_dict_get_after_insert(first, key_announce, announce_value, other);
    let with_list = match m.announce_list {
        Some(tiers) => dict_insert(required, key_list, Value::List(tier_values(tiers))),
        None => required,
    };
    if let Some(tiers) = m.announce_list {
        law_tiers_round_trip(tiers);
        lemma_insert_well_formed(required, key_list, Value::List(tier_values(tiers)));
        lemma_dict_get_after_insert(required, key_list, Value::List(tier_values(tiers)), other);
    }
    let with_date = match m.creation_date {
        Some(time) => dict_insert(with_list, key_date, Value::Integer(time.seconds as int)),
        None => with_list,
    };
    if let Some(time) = m.creation_date {
        lemma_insert_well_formed(with_list, key_date, Value::Integer(time.seconds as int));
        lemma_dict_get_after_insert(
            with_list,
            key_date,
            Value::Integer(time.seconds as int),
            other,
        );
    }
    let with_comment = insert_optional_text(with_date, key_comment, m.comment);
    let with_created_by = insert_optional_text(with_comment, key_created_by, m.created_by);
    lemma_get_after_text(with_date, key_comment, m.comment, other);
    lemma_get_after_text(with_comment, key_created_by, m.created_by, other);
    lemma_get_after_text(with_created_by, key_encoding, m.encoding, other);
}

/// A metainfo that is written is read back, with the info-hash that was
/// given.
pub proof fn law_metainfo_round_trip(m: MetainfoView)
    requires
        sound_metainfo(m),
    ensures
        metainfo_of(metainfo_value(m), m.info_hash) == Ok::<MetainfoView, MetainfoError>(m),
        canonical(metainfo_value(m)),
        representable(metainfo_value(m)),
{
    lemma_metainfo_keys();
    lemma_metainfo_entries(m, "info".spec_bytes());
    lemma_metainfo_entries(m, "announce".spec_bytes());
    lemma_metainfo_entries(m, "announce-list".spec_bytes());
    lemma_metainfo_entries(m, "creation date".spec_bytes());
    lemma_metainfo_entries(m, "comment".spec_bytes());
    lemma_metainfo_entries(m, "created by".spec_bytes());
    lemma_metainfo_entries(m, "encoding".spec_bytes());
    law_info_round_trip(m.info);
    law_text_read_back(m.announce);
    if let Some(tiers) = m.announce_list {
        law_tiers_round_trip(tiers);
    }
    if let Some(text) = m.comment {
        law_text_read_back(text);
    }
    if let Some(text) = m.created_by {
        law_text_read_back(text);
    }
    if let Some(text) = m.encoding {
        law_text_read_back(text);
    }
}

/// Whether a span holds the written form of the value of an entry with
/// the key `info`.
pub open spec fn spans_info(
    s: Seq<u8>,
    entries: Seq<(Seq<u8>, Value)>,
    span: Option<(int, int)>,
) -> bool {
    match span {
        Some((start, end)) => exists|i: int|
            0 <= i < entries.len() && (#[trigger] entries[i]).0 == "info".spec_bytes() && 0
                <= start <= end <= s.len() && s.subrange(start, end) == encode_value(entries[i].1),
        None => false,
    }
}

/// In the written form of entries, the search for the span of `info` ends
/// on the written form of the value of an entry with that key, where
/// there is one, and else finds nothing more than it had.
proof fn lemma_span_of_written(
    s: Seq<u8>,
    pos: int,
    entries: Seq<(Seq<u8>, Value)>,
    found: Option<(int, int)>,
)
    requires
        forall|i: int| 0 <= i < entries.len() ==> canonical((#[trigger] entries[i]).1),
        forall|i: int| 0 <= i < entries.len() ==> representable((#[trigger] entries[i]).1),
        holds_at(s, pos, encode_entries(entries) + seq![BYTE_E]),
    ensures
        (forall|i: int| 0 <= i < entries.len() ==> (#[trigger] entries[i]).0 != "info".spec_bytes())
            ==> info_span_from(s, pos, found) == found,
        (exists|i: int| 0 <= i < entries.len() && (#[trigger] entries[i]).0 == "info".spec_bytes())
            ==> spans_info(s, entries, info_span_from(s, pos, found)),
    decreases entries.len(),
{
    let key_info = "info".spec_bytes();
    let e = encode_entries(entries) + seq![BYTE_E];
    if entries.len() == 0 {
        assert(s[pos] == e[0]);
    } else {
        let key = encode_bytes(entries[0].0);
        let value = encode_value(entries[0].1);
        let rest = entries.drop_first();
        let tail = encode_entries(rest) + seq![BYTE_E];
        lemma_first_byte(Value::Bytes(entries[0].0));
        lemma_first_byte(entries[0].1);
        assert(e =~= key + (value + tail));
        lemma_holds_at_split(s, pos, key, value + tail);
        lemma_holds_at_split(s, pos + key.len(), value, tail);
        assert(s[pos] == key[0]);
        lemma_read_back_bytes(s, pos, entries[0].0);
        lemma_read_back_value(s, pos + key.len(), entries[0].1);
        let key_end = pos + key.len();
        let end = key_end + value.len();
        let next = if entries[0].0 == key_info {
            Some((key_end, end))
        } else {
            found
        };
        assert(info_span_from(s, pos, found) == info_span_from(s, end, next));
        lemma_span_of_written(s, end, rest, next);
        lemma_holds_at_subrange(s, key_end, value);
        if exists|i: int| 0 <= i < rest.len() && (#[trigger] rest[i]).0 == key_info {
            let (start, stop) = info_span_from(s, end, next)->0;
            let i = choose|i: int|
                0 <= i < rest.len() && (#[trigger] rest[i]).0 == key_info && 0 <= start <= stop
                    <= s.len() && s.subrange(start, stop) == encode_value(rest[i].1);
            assert(entries[i + 1] == rest[i]);
        } else if entries[0].0 == key_info {
            assert(info_span_from(s, end, next) == next);
        } else {
            assert forall|i: int| 0 <= i < entries.len() implies (#[trigger] entries[i]).0
                != key_info by {
                if i > 0 {
                    assert(rest[i - 1] == entries[i]);
                }
            }
        }
    }
}

/// A metainfo that is written is read back from its bytes: the info-hash
/// is taken of the written form of its `info`.
pub proof fn law_metainfo_bytes_round_trip(m: MetainfoView)
    requires
        sound_metainfo(m),
    ensures
        info_bytes(encode_value(metainfo_value(m))) == encode_value(info_value(m.info)),
        metainfo_of_bytes(encode_value(metainfo_value(m))) == Ok::<MetainfoView, MetainfoError>(
            MetainfoView { info_hash: sha1_digest(encode_value(info_value(m.info))), ..m },
        ),
{
    let key_info = "info".spec_bytes();
    let entries = metainfo_entries(m);
    let s = encode_value(metainfo_value(m));
    let read = MetainfoView { info_hash: sha1_digest(encode_value(info_value(m.info))), ..m };
    lemma_metainfo_entries(m, key_info);
    law_metainfo_round_trip(read);
    assert(metainfo_entries(read) == entries);
    law_decode_encode(metainfo_value(m));
    let body = encode_entries(entries) + seq![BYTE_E];
    assert(s =~= seq![BYTE_D] + body);
    assert(holds_at(s, 1, body));
    lemma_dict_position(entries, key_info);
    let at = dict_position(entries, key_info);
    assert(entries[at].0 == key_info);
    lemma_span_of_written(s, 1, entries, None);
    let (start, end) = info_span(s)->0;
    let i = choose|i: int|
        0 <= i < entries.len() && (#[trigger] entries[i]).0 == key_info && 0 <= start <= end
            <= s.len() && s.subrange(start, end) == encode_value(entries[i].1);
    if i < at {
        lemma_lt_irreflexive(key_info);
    } else if at < i {
        lemma_lt_irreflexive(key_info);
    }
}

} // verus!

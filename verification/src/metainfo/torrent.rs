//! The metainfo file as a whole, and the info-hash that names the torrent.

use vstd::prelude::*;
use vstd::string::StringSliceAdditionalSpecFns;
use vstd::utf8::encode_utf8;
use crate::bencode::bounds::{lemma_parse_bytes_advances, lemma_parse_value_advances};
use crate::bencode::convert::{text_of, time_of, Timestamp};
use crate::bencode::decode::{read_bytes, read_value};
use crate::bencode::grammar::{
    decode_value, encode_value, parse_bytes_at, parse_entries_at, parse_value_at, DecodeError,
    BYTE_D, BYTE_E,
};
use crate::bencode::value::{
    dict_get, dict_insert, lemma_dict_get_after_insert, list_view, BencodeValue, Dict, Value,
};
use crate::hash::{sha1, sha1_digest};
use crate::ident::InfoHash;
use crate::metainfo::error::MetainfoError;
use crate::metainfo::file::{text_values, texts_from_list, texts_of, texts_to_list, texts_view};
use crate::metainfo::info::{info_of, info_value, Info, InfoView};
use crate::util::same_bytes;

verus! {

/// What a metainfo file says of a torrent.
#[derive(Clone, Debug, PartialEq, Eq)]
pub struct MetainfoFile {
    pub info: Info,
    /// The URL of the tracker.
    pub announce: String,
    /// Tiers of tracker URLs, where the file gives them.
    pub announce_list: Option<Vec<Vec<String>>>,
    pub creation_date: Option<Timestamp>,
    pub comment: Option<String>,
    pub created_by: Option<String>,
    pub encoding: Option<String>,
    info_hash: InfoHash,
}

/// The model of a metainfo file.
pub struct MetainfoView {
    pub info: InfoView,
    pub announce: Seq<char>,
    pub announce_list: Option<Seq<Seq<Seq<char>>>>,
    pub creation_date: Option<Timestamp>,
    pub comment: Option<Seq<char>>,
    pub created_by: Option<Seq<char>>,
    pub encoding: Option<Seq<char>>,
    pub info_hash: Seq<u8>,
}

/// The model of a sequence of tiers.
pub open spec fn tiers_view(tiers: Seq<Vec<String>>) -> Seq<Seq<Seq<char>>> {
    Seq::new(tiers.len(), |i: int| texts_view(tiers[i]@))
}

/// The model of an optional text.
pub open spec fn optional_text(text: Option<String>) -> Option<Seq<char>> {
    match text {
        Some(t) => Some(t@),
        None => None,
    }
}

impl View for MetainfoFile {
    type V = MetainfoView;

    closed spec fn view(&self) -> MetainfoView {
        MetainfoView {
            info: self.info@,
            announce: self.announce@,
            announce_list: match self.announce_list {
                Some(tiers) => Some(tiers_view(tiers@)),
                None => None,
            },
            creation_date: self.creation_date,
            comment: optional_text(self.comment),
            created_by: optional_text(self.created_by),
            encoding: optional_text(self.encoding),
            info_hash: self.info_hash@,
        }
    }
}

/// Where the value under the key `info` stands in a bencoded dictionary,
/// searched from the entry at `pos` on: the span of the last such entry, or
/// `found` where there is none.
pub open spec fn info_span_from(s: Seq<u8>, pos: int, found: Option<(int, int)>) -> Option<
    (int, int),
>
    decreases s.len() - pos,
{
    if pos < 0 || pos >= s.len() || s[pos] == BYTE_E {
        found
    } else {
        match parse_bytes_at(s, pos) {
            Ok((key, key_end)) => match parse_value_at(s, key_end) {
                Ok((_, end)) => if pos < key_end < end <= s.len() {
                    info_span_from(
                        s,
                        end,
                        if key == "info".spec_bytes() {
                            Some((key_end, end))
                        } else {
                            found
                        },
                    )
                } else {
                    found
                },
                Err(_) => found,
            },
            Err(_) => found,
        }
    }
}

/// Where the value under the key `info` stands in the bytes of a bencoded
/// dictionary: from which position up to which.
pub open spec fn info_span(s: Seq<u8>) -> Option<(int, int)> {
    if s.len() > 0 && s[0] == BYTE_D {
        info_span_from(s, 1, None)
    } else {
        None
    }
}

/// The bytes that the info-hash is taken of: those of the value under
/// `info` as they stand in the file.
pub open spec fn info_bytes(s: Seq<u8>) -> Seq<u8> {
    match info_span(s) {
        Some((start, end)) => s.subrange(start, end),
        None => Seq::empty(),
    }
}

/// The tiers that a list of lists of byte strings stands for, after the
/// tiers `acc` read so far.
pub open spec fn tiers_of(l: Seq<Value>, at: int, acc: Seq<Seq<Seq<char>>>) -> Result<
    Seq<Seq<Seq<char>>>,
    MetainfoError,
>
    decreases l.len() - at,
{
    if at < 0 || at >= l.len() {
        Ok(acc)
    } else {
        match l[at] {
            Value::List(tier) => match texts_of(tier, 0, Seq::empty()) {
                Some(urls) => tiers_of(l, at + 1, acc.push(urls)),
                None => Err(MetainfoError::AnnounceNotAString),
            },
            _ => Err(MetainfoError::AnnounceTierNotAList),
        }
    }
}

/// The tiers under `announce-list`, where the key is there.
pub open spec fn announce_list_of(es: Seq<(Seq<u8>, Value)>) -> Result<
    Option<Seq<Seq<Seq<char>>>>,
    MetainfoError,
> {
    match dict_get(es, "announce-list".spec_bytes()) {
        None => Ok(None),
        Some(Value::List(tiers)) => match tiers_of(tiers, 0, Seq::empty()) {
            Ok(found) => Ok(Some(found)),
            Err(e) => Err(e),
        },
        Some(_) => Err(MetainfoError::AnnounceListNotAList),
    }
}

/// The text under `key`, where the key is there; `error` where something
/// else than a byte string stands under it.
pub open spec fn optional_text_of(es: Seq<(Seq<u8>, Value)>, key: Seq<u8>, error: MetainfoError) -> Result<
    Option<Seq<char>>,
    MetainfoError,
> {
    match dict_get(es, key) {
        None => Ok(None),
        Some(v) => match text_of(v) {
            Some(text) => Ok(Some(text)),
            None => Err(error),
        },
    }
}

/// The moment under `creation date`, where the key is there.
pub open spec fn creation_date_of(es: Seq<(Seq<u8>, Value)>) -> Result<
    Option<Timestamp>,
    MetainfoError,
> {
    match dict_get(es, "creation date".spec_bytes()) {
        None => Ok(None),
        Some(v) => match time_of(v) {
            Some(time) => Ok(Some(time)),
            None => Err(MetainfoError::BadCreationDate),
        },
    }
}

/// The metainfo that a bencoded value describes, with the given info-hash.
/// The value has to be a dictionary with an `info` and a tracker URL under
/// `announce`; what else it may hold is looked at in this order:
/// `announce-list`, `creation date`, `comment`, `created by`, `encoding`,
/// and then `info` itself.
pub open spec fn metainfo_of(v: Value, info_hash: Seq<u8>) -> Result<MetainfoView, MetainfoError> {
    match v {
        Value::Dict(es) => match (
            dict_get(es, "info".spec_bytes()),
            dict_get(es, "announce".spec_bytes()),
        ) {
            (Some(info), Some(Value::Bytes(_))) => {
                let announce = text_of(dict_get(es, "announce".spec_bytes())->0)->0;
                match announce_list_of(es) {
                    Err(e) => Err(e),
                    Ok(announce_list) => match creation_date_of(es) {
                        Err(e) => Err(e),
                        Ok(creation_date) => match optional_text_of(
                            es,
                            "comment".spec_bytes(),
                            MetainfoError::BadComment,
                        ) {
                            Err(e) => Err(e),
                            Ok(comment) => match optional_text_of(
                                es,
                                "created by".spec_bytes(),
                                MetainfoError::BadCreatedBy,
                            ) {
                                Err(e) => Err(e),
                                Ok(created_by) => match optional_text_of(
                                    es,
                                    "encoding".spec_bytes(),
                                    MetainfoError::BadEncoding,
                                ) {
                                    Err(e) => Err(e),
                                    Ok(encoding) => match info_of(info) {
                                        Err(e) => Err(e),
                                        Ok(found) => Ok(
                                            MetainfoView {
                                                info: found,
                                                announce,
                                                announce_list,
                                                creation_date,
                                                comment,
                                                created_by,
                                                encoding,
                                                info_hash,
                                            },
                                        ),
                                    },
                                },
                            },
                        },
                    },
                }
            },
            _ => Err(MetainfoError::MissingInfoOrAnnounce),
        },
        _ => Err(MetainfoError::NotADict),
    }
}

/// The metainfo that the bytes of a file describe. Its info-hash is the
/// SHA-1 digest of the bytes of the `info` value as they stand in the file.
pub open spec fn metainfo_of_bytes(s: Seq<u8>) -> Result<MetainfoView, MetainfoError> {
    match decode_value(s) {
        Ok(v) => metainfo_of(v, sha1_digest(info_bytes(s))),
        Err(e) => Err(MetainfoError::Decode(e)),
    }
}

/// The tiers as a list of lists of byte strings.
pub open spec fn tier_values(tiers: Seq<Seq<Seq<char>>>) -> Seq<Value> {
    Seq::new(tiers.len(), |i: int| Value::List(text_values(tiers[i])))
}

/// The entries with the text stored under `key`, where there is a text.
pub open spec fn insert_optional_text(
    entries: Seq<(Seq<u8>, Value)>,
    key: Seq<u8>,
    text: Option<Seq<char>>,
) -> Seq<(Seq<u8>, Value)> {
    match text {
        Some(t) => dict_insert(entries, key, Value::Bytes(encode_utf8(t))),
        None => entries,
    }
}

/// The entries of the dictionary of a metainfo.
pub open spec fn metainfo_entries(m: MetainfoView) -> Seq<(Seq<u8>, Value)> {
    let required = dict_insert(
        dict_insert(Seq::empty(), "info".spec_bytes(), info_value(m.info)),
        "announce".spec_bytes(),
        Value::Bytes(encode_utf8(m.announce)),
    );
    let with_list = match m.announce_list {
        Some(tiers) => dict_insert(
            required,
            "announce-list".spec_bytes(),
            Value::List(tier_values(tiers)),
        ),
        None => required,
    };
    let with_date = match m.creation_date {
        Some(time) => dict_insert(
            with_list,
            "creation date".spec_bytes(),
            Value::Integer(time.seconds as int),
        ),
        None => with_list,
    };
    insert_optional_text(
        insert_optional_text(
            insert_optional_text(with_date, "comment".spec_bytes(), m.comment),
            "created by".spec_bytes(),
            m.created_by,
        ),
        "encoding".spec_bytes(),
        m.encoding,
    )
}

/// A metainfo as a bencoded dictionary.
pub open spec fn metainfo_value(m: MetainfoView) -> Value {
    Value::Dict(metainfo_entries(m))
}

/// Whether a span is where the value stored under `info` in `entries`
/// stands: there is a span exactly when there is such a value, and reading
/// at the start of the span gives that value and ends at the end of the
/// span.
pub open spec fn span_matches(s: Seq<u8>, entries: Seq<(Seq<u8>, Value)>, span: Option<(int, int)>) -> bool {
    match dict_get(entries, "info".spec_bytes()) {
        Some(info) => span matches Some((start, end)) && 0 <= start <= end <= s.len()
            && parse_value_at(s, start) == Ok::<(Value, int), DecodeError>((info, end)),
        None => span is None,
    }
}

/// The search for the span of `info` follows the reading of the entries.
pub proof fn lemma_info_span_follows_entries(
    s: Seq<u8>,
    pos: int,
    acc: Seq<(Seq<u8>, Value)>,
    found: Option<(int, int)>,
)
    requires
        span_matches(s, acc, found),
    ensures
        parse_entries_at(s, pos, acc) matches Ok((entries, _)) ==> span_matches(
            s,
            entries,
            info_span_from(s, pos, found),
        ),
    decreases s.len() - pos,
{
    if 0 <= pos < s.len() && s[pos] != BYTE_E {
        match parse_bytes_at(s, pos) {
            Ok((key, key_end)) => {
                lemma_parse_bytes_advances(s, pos);
                match parse_value_at(s, key_end) {
                    Ok((v, end)) => {
                        if key_end < end <= s.len() {
                            lemma_dict_get_after_insert(acc, key, v, "info".spec_bytes());
                            let next = if key == "info".spec_bytes() {
                                Some((key_end, end))
                            } else {
                                found
                            };
                            lemma_info_span_follows_entries(s, end, dict_insert(acc, key, v), next);
                        }
                    },
                    Err(_) => {},
                }
            },
            Err(_) => {},
        }
    }
}

/// The info-hash of a metainfo file is the SHA-1 digest of the bytes of the
/// file from which its `info` was read, as they stand in the file: the
/// span that was hashed is where the value under `info` stands, and the
/// `info` of the result is what that value describes. The info-hash is
/// thereby a function of the file's bytes alone: reading the same bytes
/// again gives the same info-hash.
pub proof fn law_info_hash_of_raw_bytes(s: Seq<u8>, m: MetainfoView)
    requires
        metainfo_of_bytes(s) == Ok::<MetainfoView, MetainfoError>(m),
    ensures
        info_span(s) matches Some((start, end)) && 0 <= start <= end <= s.len() && m.info_hash
            == sha1_digest(s.subrange(start, end)) && (parse_value_at(s, start) matches Ok(
            (info, after),
        ) && after == end && info_of(info) == Ok::<InfoView, MetainfoError>(m.info)),
{
    let v = decode_value(s)->Ok_0;
    match v {
        Value::Dict(es) => {
            assert(s.len() > 0 && s[0] == BYTE_D);
            lemma_info_span_follows_entries(s, 1, Seq::empty(), None);
        },
        _ => {},
    }
}

/// Finds where the value under the key `info` stands in the bytes of a
/// bencoded dictionary.
pub fn find_info_span(input: &[u8]) -> (span: Option<(usize, usize)>)
    ensures
        match span {
            Some((start, end)) => info_span(input@) == Some((start as int, end as int)) && start
                <= end && end <= input@.len(),
            None => info_span(input@) is None,
        },
{
    if input.len() == 0 || input[0] != BYTE_D {
        return None;
    }
    let mut found: Option<(usize, usize)> = None;
    let mut pos: usize = 1;
    loop
        invariant
            1 <= pos <= input.len(),
            match found {
                Some((start, end)) => start <= end && end <= input@.len(),
                None => true,
            },
            info_span_from(
                input@,
                pos as int,
                match found {
                    Some((start, end)) => Some((start as int, end as int)),
                    None => None,
                },
            ) == info_span(input@),
        decreases input.len() - pos,
    {
        if pos >= input.len() || input[pos] == BYTE_E {
            return found;
        }
        let (key, key_end) = match read_bytes(input, pos) {
            Ok(read) => read,
            Err(_) => {
                return found;
            },
        };
        proof {
            lemma_parse_bytes_advances(input@, pos as int);
        }
        let end: usize = match read_value(input, key_end) {
            Ok((_, end)) => end,
            Err(_) => {
                return found;
            },
        };
        proof {
            lemma_parse_value_advances(input@, key_end as int);
        }
        if same_bytes(key.as_slice(), "info".as_bytes()) {
            found = Some((key_end, end));
        }
        pos = end;
    }
}

/// The tiers that a list of lists of byte strings stands for.
pub fn tiers_from_list(list: &Vec<BencodeValue>) -> (r: Result<Vec<Vec<String>>, MetainfoError>)
    ensures
        match tiers_of(list_view(list@), 0, Seq::empty()) {
            Ok(found) => r matches Ok(tiers) && tiers_view(tiers@) == found,
            Err(e) => r matches Err(error) && error == e,
        },
{
    let mut tiers: Vec<Vec<String>> = Vec::new();
    let mut i: usize = 0;
    assert(tiers_view(tiers@) =~= Seq::<Seq<Seq<char>>>::empty());
    while i < list.len()
        invariant
            i <= list.len(),
            tiers_of(list_view(list@), i as int, tiers_view(tiers@)) == tiers_of(
                list_view(list@),
                0,
                Seq::empty(),
            ),
        decreases list.len() - i,
    {
        let tier = match list[i].as_list() {
            Some(tier) => tier,
            None => {
                return Err(MetainfoError::AnnounceTierNotAList);
            },
        };
        match texts_from_list(tier) {
            Some(urls) => {
                assert(tiers_view(tiers@.push(urls)) =~= tiers_view(tiers@).push(
                    texts_view(urls@),
                ));
                tiers.push(urls);
            },
            None => {
                return Err(MetainfoError::AnnounceNotAString);
            },
        }
        i += 1;
    }
    Ok(tiers)
}

/// The tiers as a list of lists of byte strings.
pub fn tiers_to_list(tiers: &Vec<Vec<String>>) -> (list: Vec<BencodeValue>)
    ensures
        list_view(list@) == tier_values(tiers_view(tiers@)),
{
    let mut list: Vec<BencodeValue> = Vec::new();
    let mut i: usize = 0;
    while i < tiers.len()
        invariant
            i <= tiers.len(),
            list@.len() == i,
            forall|j: int|
                0 <= j < i ==> (#[trigger] list@[j])@ == Value::List(
                    text_values(texts_view(tiers@[j]@)),
                ),
        decreases tiers.len() - i,
    {
        list.push(BencodeValue::List(texts_to_list(&tiers[i])));
        i += 1;
    }
    assert(list_view(list@) =~= tier_values(tiers_view(tiers@)));
    list
}

/// The text under `key`, where the key is there.
fn read_optional_text(dict: &Dict, key: &str, error: MetainfoError) -> (r: Result<
    Option<String>,
    MetainfoError,
>)
    ensures
        match optional_text_of(dict@, key.spec_bytes(), error) {
            Ok(text) => r matches Ok(found) && optional_text(found) == text,
            Err(e) => r matches Err(err) && err == e,
        },
{
    match dict.get(key.as_bytes()) {
        None => Ok(None),
        Some(value) => match value.as_text() {
            Some(text) => Ok(Some(text)),
            None => Err(error),
        },
    }
}

/// The tiers under `announce-list`, where the key is there.
fn read_announce_list(dict: &Dict) -> (r: Result<Option<Vec<Vec<String>>>, MetainfoError>)
    ensures
        match announce_list_of(dict@) {
            Ok(Some(tiers)) => r matches Ok(Some(found)) && tiers_view(found@) == tiers,
            Ok(None) => r matches Ok(None),
            Err(e) => r matches Err(err) && err == e,
        },
{
    match dict.get("announce-list".as_bytes()) {
        None => Ok(None),
        Some(value) => match value.as_list() {
            Some(list) => match tiers_from_list(list) {
                Ok(tiers) => Ok(Some(tiers)),
                Err(e) => Err(e),
            },
            None => Err(MetainfoError::AnnounceListNotAList),
        },
    }
}

/// The moment under `creation date`, where the key is there.
fn read_creation_date(dict: &Dict) -> (r: Result<Option<Timestamp>, MetainfoError>)
    ensures
        match creation_date_of(dict@) {
            Ok(time) => r == Ok::<Option<Timestamp>, MetainfoError>(time),
            Err(e) => r == Err::<Option<Timestamp>, MetainfoError>(e),
        },
{
    match dict.get("creation date".as_bytes()) {
        None => Ok(None),
        Some(value) => match value.as_integer() {
            Some(i) => {
                if -(u64::MAX as i128) <= i && i <= u64::MAX as i128 {
                    Ok(Some(Timestamp { seconds: i }))
                } else {
                    Err(MetainfoError::BadCreationDate)
                }
            },
            None => Err(MetainfoError::BadCreationDate),
        },
    }
}

/// Stores a text under `key`, where there is one.
fn insert_text(dict: &mut Dict, key: &str, text: &Option<String>)
    ensures
        final(dict)@ == insert_optional_text(old(dict)@, key.spec_bytes(), optional_text(*text)),
{
    match text {
        Some(t) => {
            dict.insert(vstd::slice::slice_to_vec(key.as_bytes()), BencodeValue::from(t.as_str()));
        },
        None => {},
    }
}

impl MetainfoFile {
    /// The info-hash that names the torrent: the SHA-1 digest of the bytes
    /// of the `info` value as they stood in the file.
    pub fn info_hash(&self) -> (info_hash: &InfoHash)
        ensures
            info_hash@ == self@.info_hash,
    {
        &self.info_hash
    }

    /// The metainfo that a bencoded value describes, with the given
    /// info-hash.
    pub fn from_bencode(value: &BencodeValue, info_hash: InfoHash) -> (r: Result<
        MetainfoFile,
        MetainfoError,
    >)
        ensures
            match metainfo_of(value@, info_hash@) {
                Ok(view) => r matches Ok(metainfo) && metainfo@ == view,
                Err(e) => r matches Err(error) && error == e,
            },
    {
        let dict = match value.as_dict() {
            Some(dict) => dict,
            None => {
                return Err(MetainfoError::NotADict);
            },
        };
        let info_value = match dict.get("info".as_bytes()) {
            Some(found) => found,
            None => {
                return Err(MetainfoError::MissingInfoOrAnnounce);
            },
        };
        let announce: String = match dict.get("announce".as_bytes()) {
            Some(found) => match found.as_text() {
                Some(announce) => announce,
                None => {
                    return Err(MetainfoError::MissingInfoOrAnnounce);
                },
            },
            None => {
                return Err(MetainfoError::MissingInfoOrAnnounce);
            },
        };
        let announce_list = match read_announce_list(dict) {
            Ok(list) => list,
            Err(e) => {
                return Err(e);
            },
        };
        let creation_date = match read_creation_date(dict) {
            Ok(date) => date,
            Err(e) => {
                return Err(e);
            },
        };
        let comment = match read_optional_text(dict, "comment", MetainfoError::BadComment) {
            Ok(text) => text,
            Err(e) => {
                return Err(e);
            },
        };
        let created_by = match read_optional_text(dict, "created by", MetainfoError::BadCreatedBy) {
            Ok(text) => text,
            Err(e) => {
                return Err(e);
            },
        };
        let encoding = match read_optional_text(dict, "encoding", MetainfoError::BadEncoding) {
            Ok(text) => text,
            Err(e) => {
                return Err(e);
            },
        };
        let info = match Info::from_bencode(info_value) {
            Ok(info) => info,
            Err(e) => {
                return Err(e);
            },
        };
        Ok(
            MetainfoFile {
                info,
                announce,
                announce_list,
                creation_date,
                comment,
                created_by,
                encoding,
                info_hash,
            },
        )
    }

    /// Reads the bytes of a metainfo file. The info-hash is taken of the
    /// bytes of the `info` value as they stand in the file.
    pub fn from_bytes(input: &[u8]) -> (r: Result<MetainfoFile, MetainfoError>)
        ensures
            match metainfo_of_bytes(input@) {
                Ok(view) => r matches Ok(metainfo) && metainfo@ == view,
                Err(e) => r matches Err(error) && error == e,
            },
    {
        let value = match BencodeValue::decode(input) {
            Ok(value) => value,
            Err(e) => {
                return Err(MetainfoError::Decode(e));
            },
        };
        let raw = match find_info_span(input) {
            Some((start, end)) => vstd::slice::slice_subrange(input, start, end),
            None => {
                let none = vstd::slice::slice_subrange(input, 0, 0);
                assert(none@ =~= Seq::<u8>::empty());
                none
            },
        };
        assert(raw@ == info_bytes(input@));
        let digest = sha1(raw);
        let info_hash = InfoHash::from(digest);
        proof {
            InfoHash::lemma_from(digest);
        }
        MetainfoFile::from_bencode(&value, info_hash)
    }

    /// The metainfo as a bencoded dictionary.
    pub fn to_bencode(&self) -> (value: BencodeValue)
        ensures
            value@ == metainfo_value(self@),
    {
        let mut dict: Dict = Dict::new();
        assert(dict@ =~= Seq::<(Seq<u8>, Value)>::empty());
        dict.insert(vstd::slice::slice_to_vec("info".as_bytes()), self.info.to_bencode());
        dict.insert(
            vstd::slice::slice_to_vec("announce".as_bytes()),
            BencodeValue::from(self.announce.as_str()),
        );
        match &self.announce_list {
            Some(tiers) => {
                dict.insert(
                    vstd::slice::slice_to_vec("announce-list".as_bytes()),
                    BencodeValue::List(tiers_to_list(tiers)),
                );
            },
            None => {},
        }
        match &self.creation_date {
            Some(time) => {
                dict.insert(
                    vstd::slice::slice_to_vec("creation date".as_bytes()),
                    BencodeValue::Integer(time.seconds),
                );
            },
            None => {},
        }
        insert_text(&mut dict, "comment", &self.comment);
        insert_text(&mut dict, "created by", &self.created_by);
        insert_text(&mut dict, "encoding", &self.encoding);
        BencodeValue::Dict(dict)
    }

    /// The metainfo as the bytes of a file.
    pub fn to_bytes(&self) -> (bytes: Vec<u8>)
        ensures
            bytes@ == encode_value(metainfo_value(self@)),
    {
        self.to_bencode().encode()
    }
}

} // verus!

//! Why a file is no metainfo file.

use vstd::prelude::*;
use crate::bencode::grammar::DecodeError;
use crate::metainfo::md5::Md5Error;

verus! {

/// Why bytes, or a bencoded value, do not describe a torrent.
#[derive(Clone, Copy, Debug, PartialEq, Eq, Structural)]
pub enum MetainfoError {
    /// The bytes are not bencode.
    Decode(DecodeError),
    NotADict,
    MissingInfoOrAnnounce,
    AnnounceListNotAList,
    AnnounceTierNotAList,
    AnnounceNotAString,
    BadCreationDate,
    BadComment,
    BadCreatedBy,
    BadEncoding,
    InfoNotADict,
    /// One of `piece length`, `pieces` and `name` is missing or has
    /// another shape than expected.
    InfoMissingKeys,
    /// `pieces` is empty, or not a multiple of twenty bytes long.
    BadPieces,
    /// Both of `length` and `files` are there, or neither, or the one that
    /// is there has another shape than expected.
    LengthXorFiles,
    /// A length is negative or does not fit 64 bits.
    IntegerOutOfRange,
    FileNotADict,
    FileMissingKeys,
    PathNotStrings,
    Md5(Md5Error),
}

impl MetainfoError {
    /// The error in words.
    pub open spec fn spec_message(self) -> Seq<char> {
        match self {
            MetainfoError::Decode(_) => "Torrent file must be bencoded"@,
            MetainfoError::NotADict => "Torrent file must be a bencoded dict"@,
            MetainfoError::MissingInfoOrAnnounce =>
                "Torrent file must contain `info` and `announce` keys"@,
            MetainfoError::AnnounceListNotAList => "`announce-list` must be a list"@,
            MetainfoError::AnnounceTierNotAList =>
                "`announce-list` must consist exclusively of lists"@,
            MetainfoError::AnnounceNotAString =>
                "Each `announce-list` tier must consist exclusively of strings"@,
            MetainfoError::BadCreationDate => "`creation date` must be a valid UNIX timestamp"@,
            MetainfoError::BadComment => "`comment` must be a valid string"@,
            MetainfoError::BadCreatedBy => "`created by` must be a valid string"@,
            MetainfoError::BadEncoding => "`encoding` must be a valid string"@,
            MetainfoError::InfoNotADict => "`info` value must be a dict"@,
            MetainfoError::InfoMissingKeys =>
                "`info` dict must contain `piece length` and `pieces` keys"@,
            MetainfoError::BadPieces =>
                "`pieces` must be a nonempty stream with a length that is a multiple of 20 bytes"@,
            MetainfoError::LengthXorFiles =>
                "Exactly one of `length` or `files` keys must be present"@,
            MetainfoError::IntegerOutOfRange => "out of range integral type conversion attempted"@,
            MetainfoError::FileNotADict => "`file` value must be a dict"@,
            MetainfoError::FileMissingKeys => "`file` dict must have length and path values"@,
            MetainfoError::PathNotStrings => "`path` components must be strings"@,
            MetainfoError::Md5(Md5Error::NotAString) => "`md5sum` value must be a string"@,
            MetainfoError::Md5(Md5Error::BadLength) => "`md5sum` value must be 32 bytes long"@,
            MetainfoError::Md5(Md5Error::BadDigit) =>
                "`md5sum` must be made up of valid hex characters"@,
        }
    }

    /// The error in words.
    pub fn message(&self) -> (text: &'static str)
        ensures
            text@ == self.spec_message(),
    {
        match self {
            MetainfoError::Decode(_) => "Torrent file must be bencoded",
            MetainfoError::NotADict => "Torrent file must be a bencoded dict",
            MetainfoError::MissingInfoOrAnnounce =>
                "Torrent file must contain `info` and `announce` keys",
            MetainfoError::AnnounceListNotAList => "`announce-list` must be a list",
            MetainfoError::AnnounceTierNotAList =>
                "`announce-list` must consist exclusively of lists",
            MetainfoError::AnnounceNotAString =>
                "Each `announce-list` tier must consist exclusively of strings",
            MetainfoError::BadCreationDate => "`creation date` must be a valid UNIX timestamp",
            MetainfoError::BadComment => "`comment` must be a valid string",
            MetainfoError::BadCreatedBy => "`created by` must be a valid string",
            MetainfoError::BadEncoding => "`encoding` must be a valid string",
            MetainfoError::InfoNotADict => "`info` value must be a dict",
            MetainfoError::InfoMissingKeys =>
                "`info` dict must contain `piece length` and `pieces` keys",
            MetainfoError::BadPieces =>
                "`pieces` must be a nonempty stream with a length that is a multiple of 20 bytes",
            MetainfoError::LengthXorFiles =>
                "Exactly one of `length` or `files` keys must be present",
            MetainfoError::IntegerOutOfRange => "out of range integral type conversion attempted",
            MetainfoError::FileNotADict => "`file` value must be a dict",
            MetainfoError::FileMissingKeys => "`file` dict must have length and path values",
            MetainfoError::PathNotStrings => "`path` components must be strings",
            MetainfoError::Md5(Md5Error::NotAString) => "`md5sum` value must be a string",
            MetainfoError::Md5(Md5Error::BadLength) => "`md5sum` value must be 32 bytes long",
            MetainfoError::Md5(Md5Error::BadDigit) =>
                "`md5sum` must be made up of valid hex characters",
        }
    }
}

} // verus!

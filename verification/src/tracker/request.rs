//! The announce request: what a peer tells the tracker in a query string.

use vstd::prelude::*;
use vstd::slice::slice_subrange;
use vstd::string::StringSliceAdditionalSpecFns;
use crate::ident::{InfoHash, PeerId, PeerKey};
use crate::net::{parse_ip, IpAddr, SocketAddr};
use crate::number::{parse_u16, parse_u64, parse_unsigned};
use crate::query::{decode_qs_any, qs_decode, qs_decode_all, QsError};
use crate::tracker::peer::{Peer, PeerView};
use crate::util::same_bytes;

verus! {

/// What a peer reports of its download.
#[derive(Clone, Copy, Debug, PartialEq, Eq, Structural)]
pub enum Event {
    Started,
    Completed,
    Stopped,
}

/// An announce request.
#[derive(Clone, Debug, PartialEq, Eq)]
pub struct Request {
    pub info_hash: InfoHash,
    pub peer_id: PeerId,
    pub ip: Option<IpAddr>,
    pub port: u16,
    pub uploaded: u64,
    pub downloaded: u64,
    pub left: u64,
    pub event: Option<Event>,
    pub numwant: Option<u64>,
    pub key: Option<PeerKey>,
    pub compact: Option<bool>,
    pub supportcrypto: Option<bool>,
    pub requirecrypto: Option<bool>,
    pub no_peer_id: Option<bool>,
    pub trackerid: Option<Vec<u8>>,
}

/// The model of a request: identifiers as byte sequences.
pub struct RequestView {
    pub info_hash: Seq<u8>,
    pub peer_id: Seq<u8>,
    pub ip: Option<IpAddr>,
    pub port: u16,
    pub uploaded: u64,
    pub downloaded: u64,
    pub left: u64,
    pub event: Option<Event>,
    pub numwant: Option<u64>,
    pub key: Option<Seq<u8>>,
    pub compact: Option<bool>,
    pub supportcrypto: Option<bool>,
    pub requirecrypto: Option<bool>,
    pub no_peer_id: Option<bool>,
    pub trackerid: Option<Seq<u8>>,
}

impl View for Request {
    type V = RequestView;

    open spec fn view(&self) -> RequestView {
        RequestView {
            info_hash: self.info_hash@,
            peer_id: self.peer_id@,
            ip: self.ip,
            port: self.port,
            uploaded: self.uploaded,
            downloaded: self.downloaded,
            left: self.left,
            event: self.event,
            numwant: self.numwant,
            key: match self.key {
                Some(key) => Some(key@),
                None => None,
            },
            compact: self.compact,
            supportcrypto: self.supportcrypto,
            requirecrypto: self.requirecrypto,
            no_peer_id: self.no_peer_id,
            trackerid: match self.trackerid {
                Some(id) => Some(id@),
                None => None,
            },
        }
    }
}

/// Why a query string is not an announce request.
#[derive(Clone, Copy, Debug, PartialEq, Eq, Structural)]
pub enum RequestError {
    /// The info-hash or the peer id is not the percent-encoding of twenty
    /// bytes, or the key or the tracker id is no percent-encoding.
    Identifier(QsError),
    InvalidIp,
    InvalidPort,
    InvalidUploaded,
    InvalidDownloaded,
    InvalidLeft,
    InvalidNumwant,
    UnknownEvent,
    /// One of `info_hash`, `peer_id`, `port`, `uploaded`, `downloaded` and
    /// `left` is missing.
    MissingFields,
}

impl RequestError {
    /// The error in words, as the tracker reports it.
    pub open spec fn spec_message(self) -> Seq<char> {
        match self {
            RequestError::Identifier(e) => e.spec_message(),
            RequestError::InvalidIp => "Invalid \"ip\" value"@,
            RequestError::InvalidPort => "Invalid \"port\" value"@,
            RequestError::InvalidUploaded => "Invalid \"uploaded\" value"@,
            RequestError::InvalidDownloaded => "Invalid \"downloaded\" value"@,
            RequestError::InvalidLeft => "Invalid \"left\" value"@,
            RequestError::InvalidNumwant => "Invalid \"numwant\" value"@,
            RequestError::UnknownEvent => "Unknown event"@,
            RequestError::MissingFields => "Missing one or more required fields."@,
        }
    }

    /// The error in words, as the tracker reports it.
    pub fn message(&self) -> (text: &'static str)
        ensures
            text@ == self.spec_message(),
    {
        match self {
            RequestError::Identifier(e) => e.message(),
            RequestError::InvalidIp => "Invalid \"ip\" value",
            RequestError::InvalidPort => "Invalid \"port\" value",
            RequestError::InvalidUploaded => "Invalid \"uploaded\" value",
            RequestError::InvalidDownloaded => "Invalid \"downloaded\" value",
            RequestError::InvalidLeft => "Invalid \"left\" value",
            RequestError::InvalidNumwant => "Invalid \"numwant\" value",
            RequestError::UnknownEvent => "Unknown event",
            RequestError::MissingFields => "Missing one or more required fields.",
        }
    }
}

/// The event that a text names.
pub open spec fn parse_event(s: Seq<u8>) -> Option<Event> {
    if s == "started".spec_bytes() {
        Some(Event::Started)
    } else if s == "completed".spec_bytes() {
        Some(Event::Completed)
    } else if s == "stopped".spec_bytes() {
        Some(Event::Stopped)
    } else {
        None
    }
}

impl core::str::FromStr for Event {
    type Err = RequestError;

    /// The event that a text names; `UnknownEvent` where it names none.
    fn from_str(input: &str) -> (r: Result<Event, RequestError>)
        ensures
            match parse_event(input.spec_bytes()) {
                Some(event) => r == Ok::<Event, RequestError>(event),
                None => r == Err::<Event, RequestError>(RequestError::UnknownEvent),
            },
    {
        match Event::parse(input.as_bytes()) {
            Some(event) => Ok(event),
            None => Err(RequestError::UnknownEvent),
        }
    }
}

impl Event {
    /// The name of the event in a query string.
    pub fn as_str(&self) -> (name: &'static str)
        ensures
            name@ == match *self {
                Event::Started => "started"@,
                Event::Completed => "completed"@,
                Event::Stopped => "stopped"@,
            },
    {
        match self {
            Event::Started => "started",
            Event::Completed => "completed",
            Event::Stopped => "stopped",
        }
    }

    /// The event that a text names.
    pub fn parse(input: &[u8]) -> (event: Option<Event>)
        ensures
            event == parse_event(input@),
    {
        if same_bytes(input, "started".as_bytes()) {
            Some(Event::Started)
        } else if same_bytes(input, "completed".as_bytes()) {
            Some(Event::Completed)
        } else if same_bytes(input, "stopped".as_bytes()) {
            Some(Event::Stopped)
        } else {
            None
        }
    }
}

/// What has been read of a request so far, as a model.
pub struct Fields {
    pub info_hash: Option<Seq<u8>>,
    pub peer_id: Option<Seq<u8>>,
    pub ip: Option<IpAddr>,
    pub port: Option<u16>,
    pub uploaded: Option<u64>,
    pub downloaded: Option<u64>,
    pub left: Option<u64>,
    pub event: Option<Event>,
    pub numwant: Option<u64>,
    pub key: Option<Seq<u8>>,
    pub compact: Option<bool>,
    pub supportcrypto: Option<bool>,
    pub requirecrypto: Option<bool>,
    pub no_peer_id: Option<bool>,
    pub trackerid: Option<Seq<u8>>,
}

/// What has been read of a request so far.
pub struct Partial {
    pub info_hash: Option<InfoHash>,
    pub peer_id: Option<PeerId>,
    pub ip: Option<IpAddr>,
    pub port: Option<u16>,
    pub uploaded: Option<u64>,
    pub downloaded: Option<u64>,
    pub left: Option<u64>,
    pub event: Option<Event>,
    pub numwant: Option<u64>,
    pub key: Option<PeerKey>,
    pub compact: Option<bool>,
    pub supportcrypto: Option<bool>,
    pub requirecrypto: Option<bool>,
    pub no_peer_id: Option<bool>,
    pub trackerid: Option<Vec<u8>>,
}

impl View for Partial {
    type V = Fields;

    open spec fn view(&self) -> Fields {
        Fields {
            info_hash: match self.info_hash {
                Some(id) => Some(id@),
                None => None,
            },
            peer_id: match self.peer_id {
                Some(id) => Some(id@),
                None => None,
            },
            ip: self.ip,
            port: self.port,
            uploaded: self.uploaded,
            downloaded: self.downloaded,
            left: self.left,
            event: self.event,
            numwant: self.numwant,
            key: match self.key {
                Some(key) => Some(key@),
                None => None,
            },
            compact: self.compact,
            supportcrypto: self.supportcrypto,
            requirecrypto: self.requirecrypto,
            no_peer_id: self.no_peer_id,
            trackerid: match self.trackerid {
                Some(id) => Some(id@),
                None => None,
            },
        }
    }
}

/// Nothing read yet.
pub open spec fn no_fields() -> Fields {
    Fields {
        info_hash: None,
        peer_id: None,
        ip: None,
        port: None,
        uploaded: None,
        downloaded: None,
        left: None,
        event: None,
        numwant: None,
        key: None,
        compact: None,
        supportcrypto: None,
        requirecrypto: None,
        no_peer_id: None,
        trackerid: None,
    }
}

/// The byte `&`, which stands between two clauses.
pub const BYTE_AMPERSAND: u8 = 38;

/// The byte `=`, which stands between a key and its value.
pub const BYTE_EQUALS: u8 = 61;

/// The first position from `from` on, before `to`, that holds the byte `b`;
/// `to` where none does.
pub open spec fn find_byte(s: Seq<u8>, from: int, to: int, b: u8) -> int
    decreases to - from,
{
    if from >= to {
        to
    } else if 0 <= from < s.len() && s[from] == b {
        from
    } else {
        find_byte(s, from + 1, to, b)
    }
}

/// A position found by a scan from `from` on is the first that holds the
/// byte.
pub proof fn lemma_find_byte_found(s: Seq<u8>, from: int, to: int, b: u8, at: int)
    requires
        0 <= from <= at <= to <= s.len(),
        forall|i: int| from <= i < at ==> s[i] != b,
        at < to ==> s[at] == b,
    ensures
        find_byte(s, from, to, b) == at,
    decreases at - from,
{
    if from < at {
        lemma_find_byte_found(s, from + 1, to, b, at);
    }
}

/// What has been read after one more clause `key=value`. A key that is not
/// known changes nothing; a key that was read before is read anew.
/// Identifiers, the key and the tracker id are percent-decoded; numbers are
/// decimal; a flag is set by `1` and cleared by anything else.
pub open spec fn apply_clause(fields: Fields, key: Seq<u8>, value: Seq<u8>) -> Result<
    Fields,
    RequestError,
> {
    if key == "info_hash".spec_bytes() {
        match qs_decode(value, 20) {
            Ok(bytes) => Ok(Fields { info_hash: Some(bytes), ..fields }),
            Err(e) => Err(RequestError::Identifier(e)),
        }
    } else if key == "peer_id".spec_bytes() {
        match qs_decode(value, 20) {
            Ok(bytes) => Ok(Fields { peer_id: Some(bytes), ..fields }),
            Err(e) => Err(RequestError::Identifier(e)),
        }
    } else if key == "ip".spec_bytes() {
        match parse_ip(value) {
            Some(ip) => Ok(Fields { ip: Some(ip), ..fields }),
            None => Err(RequestError::InvalidIp),
        }
    } else if key == "port".spec_bytes() {
        match parse_unsigned(value, u16::MAX as nat) {
            Some(n) => Ok(Fields { port: Some(n as u16), ..fields }),
            None => Err(RequestError::InvalidPort),
        }
    } else if key == "uploaded".spec_bytes() {
        match parse_unsigned(value, u64::MAX as nat) {
            Some(n) => Ok(Fields { uploaded: Some(n as u64), ..fields }),
            None => Err(RequestError::InvalidUploaded),
        }
    } else if key == "downloaded".spec_bytes() {
        match parse_unsigned(value, u64::MAX as nat) {
            Some(n) => Ok(Fields { downloaded: Some(n as u64), ..fields }),
            None => Err(RequestError::InvalidDownloaded),
        }
    } else if key == "left".spec_bytes() {
        match parse_unsigned(value, u64::MAX as nat) {
            Some(n) => Ok(Fields { left: Some(n as u64), ..fields }),
            None => Err(RequestError::InvalidLeft),
        }
    } else if key == "event".spec_bytes() {
        match parse_event(value) {
            Some(event) => Ok(Fields { event: Some(event), ..fields }),
            None => Err(RequestError::UnknownEvent),
        }
    } else if key == "numwant".spec_bytes() {
        match parse_unsigned(value, u64::MAX as nat) {
            Some(n) => Ok(Fields { numwant: Some(n as u64), ..fields }),
            None => Err(RequestError::InvalidNumwant),
        }
    } else if key == "key".spec_bytes() {
        match qs_decode_all(value) {
            Ok(bytes) => Ok(Fields { key: Some(bytes), ..fields }),
            Err(e) => Err(RequestError::Identifier(e)),
        }
    } else if key == "compact".spec_bytes() {
        Ok(Fields { compact: Some(value == "1".spec_bytes()), ..fields })
    } else if key == "supportcrypto".spec_bytes() {
        Ok(Fields { supportcrypto: Some(value == "1".spec_bytes()), ..fields })
    } else if key == "requirecrypto".spec_bytes() {
        Ok(Fields { requirecrypto: Some(value == "1".spec_bytes()), ..fields })
    } else if key == "no_peer_id".spec_bytes() {
        Ok(Fields { no_peer_id: Some(value == "1".spec_bytes()), ..fields })
    } else if key == "trackerid".spec_bytes() {
        match qs_decode_all(value) {
            Ok(bytes) => Ok(Fields { trackerid: Some(bytes), ..fields }),
            Err(e) => Err(RequestError::Identifier(e)),
        }
    } else {
        Ok(fields)
    }
}

/// What has been read after the clauses from `pos` on: the clauses are the
/// stretches between `&`; a clause with an `=` gives a key and a value, a
/// clause without one is passed over.
pub open spec fn parse_clauses(s: Seq<u8>, pos: int, fields: Fields) -> Result<Fields, RequestError>
    decreases s.len() - pos,
{
    let end = find_byte(s, pos, s.len() as int, BYTE_AMPERSAND);
    let eq = find_byte(s, pos, end, BYTE_EQUALS);
    let after = if eq < end {
        apply_clause(fields, s.subrange(pos, eq), s.subrange(eq + 1, end))
    } else {
        Ok(fields)
    };
    match after {
        Err(e) => Err(e),
        Ok(next) => if 0 <= pos <= end && end < s.len() {
            parse_clauses(s, end + 1, next)
        } else {
            Ok(next)
        },
    }
}

/// The request that the fields make, where the required ones are there.
pub open spec fn finish(fields: Fields) -> Result<RequestView, RequestError> {
    match (
        fields.info_hash,
        fields.peer_id,
        fields.port,
        fields.uploaded,
        fields.downloaded,
        fields.left,
    ) {
        (Some(info_hash), Some(peer_id), Some(port), Some(uploaded), Some(downloaded), Some(left)) => Ok(
            RequestView {
                info_hash,
                peer_id,
                ip: fields.ip,
                port,
                uploaded,
                downloaded,
                left,
                event: fields.event,
                numwant: fields.numwant,
                key: fields.key,
                compact: fields.compact,
                supportcrypto: fields.supportcrypto,
                requirecrypto: fields.requirecrypto,
                no_peer_id: fields.no_peer_id,
                trackerid: fields.trackerid,
            },
        ),
        _ => Err(RequestError::MissingFields),
    }
}

/// The request that a query string stands for.
pub open spec fn parse_request(s: Seq<u8>) -> Result<RequestView, RequestError> {
    match parse_clauses(s, 0, no_fields()) {
        Ok(fields) => finish(fields),
        Err(e) => Err(e),
    }
}

/// The first position from `from` on, before `to`, that holds the byte `b`.
pub fn find(input: &[u8], from: usize, to: usize, b: u8) -> (at: usize)
    requires
        from <= to <= input.len(),
    ensures
        at == find_byte(input@, from as int, to as int, b),
        from <= at <= to,
{
    let mut i: usize = from;
    while i < to
        invariant
            from <= i <= to,
            to <= input.len(),
            forall|j: int| from <= j < i ==> input@[j] != b,
        decreases to - i,
    {
        if input[i] == b {
            proof {
                lemma_find_byte_found(input@, from as int, to as int, b, i as int);
            }
            return i;
        }
        i += 1;
    }
    proof {
        lemma_find_byte_found(input@, from as int, to as int, b, i as int);
    }
    i
}

/// Reads one clause `key=value` into what has been read so far.
pub fn read_clause(partial: Partial, key: &[u8], value: &[u8]) -> (r: Result<Partial, RequestError>)
    ensures
        match apply_clause(partial@, key@, value@) {
            Ok(fields) => r matches Ok(next) && next@ == fields,
            Err(e) => r matches Err(error) && error == e,
        },
{
    let mut partial = partial;
    if same_bytes(key, "info_hash".as_bytes()) {
        match InfoHash::parse_bytes(value) {
            Ok(id) => {
                partial.info_hash = Some(id);
            },
            Err(e) => {
                return Err(RequestError::Identifier(e));
            },
        }
    } else if same_bytes(key, "peer_id".as_bytes()) {
        match PeerId::parse_bytes(value) {
            Ok(id) => {
                partial.peer_id = Some(id);
            },
            Err(e) => {
                return Err(RequestError::Identifier(e));
            },
        }
    } else if same_bytes(key, "ip".as_bytes()) {
        match IpAddr::parse(value) {
            Some(ip) => {
                partial.ip = Some(ip);
            },
            None => {
                return Err(RequestError::InvalidIp);
            },
        }
    } else if same_bytes(key, "port".as_bytes()) {
        match parse_u16(value) {
            Some(n) => {
                partial.port = Some(n);
            },
            None => {
                return Err(RequestError::InvalidPort);
            },
        }
    } else if same_bytes(key, "uploaded".as_bytes()) {
        match parse_u64(value) {
            Some(n) => {
                partial.uploaded = Some(n);
            },
            None => {
                return Err(RequestError::InvalidUploaded);
            },
        }
    } else if same_bytes(key, "downloaded".as_bytes()) {
        match parse_u64(value) {
            Some(n) => {
                partial.downloaded = Some(n);
            },
            None => {
                return Err(RequestError::InvalidDownloaded);
            },
        }
    } else if same_bytes(key, "left".as_bytes()) {
        match parse_u64(value) {
            Some(n) => {
                partial.left = Some(n);
            },
            None => {
                return Err(RequestError::InvalidLeft);
            },
        }
    } else if same_bytes(key, "event".as_bytes()) {
        match Event::parse(value) {
            Some(event) => {
                partial.event = Some(event);
            },
            None => {
                return Err(RequestError::UnknownEvent);
            },
        }
    } else if same_bytes(key, "numwant".as_bytes()) {
        match parse_u64(value) {
            Some(n) => {
                partial.numwant = Some(n);
            },
            None => {
                return Err(RequestError::InvalidNumwant);
            },
        }
    } else if same_bytes(key, "key".as_bytes()) {
        match decode_qs_any(value) {
            Ok(bytes) => {
                partial.key = Some(PeerKey::from_slice(bytes.as_slice()));
            },
            Err(e) => {
                return Err(RequestError::Identifier(e));
            },
        }
    } else if same_bytes(key, "compact".as_bytes()) {
        partial.compact = Some(same_bytes(value, "1".as_bytes()));
    } else if same_bytes(key, "supportcrypto".as_bytes()) {
        partial.supportcrypto = Some(same_bytes(value, "1".as_bytes()));
    } else if same_bytes(key, "requirecrypto".as_bytes()) {
        partial.requirecrypto = Some(same_bytes(value, "1".as_bytes()));
    } else if same_bytes(key, "no_peer_id".as_bytes()) {
        partial.no_peer_id = Some(same_bytes(value, "1".as_bytes()));
    } else if same_bytes(key, "trackerid".as_bytes()) {
        match decode_qs_any(value) {
            Ok(bytes) => {
                partial.trackerid = Some(bytes);
            },
            Err(e) => {
                return Err(RequestError::Identifier(e));
            },
        }
    }
    Ok(partial)
}

/// Makes the request of what has been read, where the required fields are
/// there.
pub fn finish_request(partial: Partial) -> (r: Result<Request, RequestError>)
    ensures
        match finish(partial@) {
            Ok(view) => r matches Ok(request) && request@ == view,
            Err(e) => r matches Err(error) && error == e,
        },
{
    match (
        partial.info_hash,
        partial.peer_id,
        partial.port,
        partial.uploaded,
        partial.downloaded,
        partial.left,
    ) {
        (Some(info_hash), Some(peer_id), Some(port), Some(uploaded), Some(downloaded), Some(left)) => Ok(
            Request {
                info_hash,
                peer_id,
                ip: partial.ip,
                port,
                uploaded,
                downloaded,
                left,
                event: partial.event,
                numwant: partial.numwant,
                key: partial.key,
                compact: partial.compact,
                supportcrypto: partial.supportcrypto,
                requirecrypto: partial.requirecrypto,
                no_peer_id: partial.no_peer_id,
                trackerid: partial.trackerid,
            },
        ),
        _ => Err(RequestError::MissingFields),
    }
}

impl Request {
    /// A request with the required fields and nothing else.
    pub fn new(
        info_hash: InfoHash,
        peer_id: PeerId,
        port: u16,
        uploaded: u64,
        downloaded: u64,
        left: u64,
    ) -> (request: Request)
        ensures
            request@ == (RequestView {
                info_hash: info_hash@,
                peer_id: peer_id@,
                ip: None,
                port,
                uploaded,
                downloaded,
                left,
                event: None,
                numwant: None,
                key: None,
                compact: None,
                supportcrypto: None,
                requirecrypto: None,
                no_peer_id: None,
                trackerid: None,
            }),
    {
        Request {
            info_hash,
            peer_id,
            ip: None,
            port,
            uploaded,
            downloaded,
            left,
            event: None,
            numwant: None,
            key: None,
            compact: None,
            supportcrypto: None,
            requirecrypto: None,
            no_peer_id: None,
            trackerid: None,
        }
    }

    /// Reads a request from a query string.
    pub fn parse(input: &str) -> (r: Result<Request, RequestError>)
        ensures
            match parse_request(input.spec_bytes()) {
                Ok(view) => r matches Ok(request) && request@ == view,
                Err(e) => r matches Err(error) && error == e,
            },
    {
        let s = input.as_bytes();
        let mut partial = Partial {
            info_hash: None,
            peer_id: None,
            ip: None,
            port: None,
            uploaded: None,
            downloaded: None,
            left: None,
            event: None,
            numwant: None,
            key: None,
            compact: None,
            supportcrypto: None,
            requirecrypto: None,
            no_peer_id: None,
            trackerid: None,
        };
        let mut pos: usize = 0;
        loop
            invariant
                pos <= s.len(),
                s@ == input.spec_bytes(),
                parse_clauses(s@, pos as int, partial@) == parse_clauses(s@, 0, no_fields()),
            decreases s.len() - pos,
        {
            let end: usize = find(s, pos, s.len(), BYTE_AMPERSAND);
            let eq: usize = find(s, pos, end, BYTE_EQUALS);
            if eq < end {
                let key = slice_subrange(s, pos, eq);
                let value = slice_subrange(s, eq + 1, end);
                match read_clause(partial, key, value) {
                    Ok(next) => {
                        partial = next;
                    },
                    Err(e) => {
                        return Err(e);
                    },
                }
            }
            if end >= s.len() {
                return finish_request(partial);
            }
            pos = end + 1;
        }
    }

    /// The peer that announces itself with this request, seen now, at the
    /// address it names or else at the address it calls from.
    pub fn as_peer(&self, origin_ip: IpAddr, now: u64) -> (peer: Peer)
        ensures
            peer@ == (PeerView {
                last_seen: now,
                peer_id: Some(self@.peer_id),
                addr: SocketAddr {
                    ip: match self.ip {
                        Some(ip) => ip,
                        None => origin_ip,
                    },
                    port: self.port,
                },
                uploaded: Some(self.uploaded),
                downloaded: Some(self.downloaded),
                left: Some(self.left),
                key: self@.key,
                supportcrypto: self.supportcrypto,
                requirecrypto: self.requirecrypto,
            }),
    {
        Peer {
            last_seen: now,
            peer_id: Some(self.peer_id),
            addr: SocketAddr {
                ip: match self.ip {
                    Some(ip) => ip,
                    None => origin_ip,
                },
                port: self.port,
            },
            uploaded: Some(self.uploaded),
            downloaded: Some(self.downloaded),
            left: Some(self.left),
            key: match &self.key {
                Some(key) => Some(key.duplicate()),
                None => None,
            },
            supportcrypto: self.supportcrypto,
            requirecrypto: self.requirecrypto,
        }
    }
}

impl core::str::FromStr for Request {
    type Err = RequestError;

    /// Reads a request from a query string, as `Request::parse` does.
    fn from_str(input: &str) -> (r: Result<Request, RequestError>)
        ensures
            match parse_request(input.spec_bytes()) {
                Ok(view) => r matches Ok(request) && request@ == view,
                Err(e) => r matches Err(error) && error == e,
            },
    {
        Request::parse(input)
    }
}

} // verus!

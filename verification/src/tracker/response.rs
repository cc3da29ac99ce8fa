//! The tracker's response, and its bencoded form.

use vstd::prelude::*;
use vstd::std_specs::convert::FromSpecImpl;
use vstd::string::StringSliceAdditionalSpecFns;
use vstd::utf8::encode_utf8;
use crate::bencode::convert::{bytes_of, text_of, u64_of};
use crate::bencode::grammar::{decode_value, encode_value, DecodeError};
use crate::bencode::value::{dict_get, dict_insert, list_view, BencodeValue, Dict, Value};
use crate::ident::{be_u16, be_u32, read_be_u16, read_be_u32, u16_be_bytes, u32_be_bytes, PeerId};
use crate::net::{ip_text, parse_ip, IpAddr, SocketAddr};
use crate::tracker::peer::{Peer, PeerView};
use crate::tracker::torrent::peers_view;

verus! {

/// A response to an announce.
#[derive(Clone, Debug, PartialEq, Eq)]
pub enum Response {
    Success(SuccessResponse),
    Failure(FailureResponse),
}

/// What the tracker tells a peer that announced itself.
#[derive(Clone, Debug, PartialEq, Eq)]
pub struct SuccessResponse {
    pub warning_message: Option<String>,
    /// The number of seconds to wait before the next announce.
    pub interval: u64,
    pub min_interval: Option<u64>,
    pub tracker_id: Option<Vec<u8>>,
    pub complete: Option<u64>,
    pub incomplete: Option<u64>,
    pub peers: Vec<Peer>,
}

/// Why the tracker did not take an announce.
#[derive(Clone, Debug, PartialEq, Eq)]
pub struct FailureResponse {
    pub failure_reason: String,
}

/// The model of a response.
pub enum ResponseView {
    Success {
        warning_message: Option<Seq<char>>,
        interval: u64,
        min_interval: Option<u64>,
        tracker_id: Option<Seq<u8>>,
        complete: Option<u64>,
        incomplete: Option<u64>,
        peers: Seq<PeerView>,
    },
    Failure { failure_reason: Seq<char> },
}

impl View for Response {
    type V = ResponseView;

    open spec fn view(&self) -> ResponseView {
        match self {
            Response::Success(success) => ResponseView::Success {
                warning_message: match success.warning_message {
                    Some(text) => Some(text@),
                    None => None,
                },
                interval: success.interval,
                min_interval: success.min_interval,
                tracker_id: match success.tracker_id {
                    Some(id) => Some(id@),
                    None => None,
                },
                complete: success.complete,
                incomplete: success.incomplete,
                peers: peers_view(success.peers@),
            },
            Response::Failure(failure) => ResponseView::Failure {
                failure_reason: failure.failure_reason@,
            },
        }
    }
}

impl From<SuccessResponse> for Response {
    fn from(input: SuccessResponse) -> (response: Response) {
        Response::Success(input)
    }
}

impl FromSpecImpl<SuccessResponse> for Response {
    open spec fn obeys_from_spec() -> bool {
        true
    }

    open spec fn from_spec(input: SuccessResponse) -> Response {
        Response::Success(input)
    }
}

impl From<FailureResponse> for Response {
    fn from(input: FailureResponse) -> (response: Response) {
        Response::Failure(input)
    }
}

impl FromSpecImpl<FailureResponse> for Response {
    open spec fn obeys_from_spec() -> bool {
        true
    }

    open spec fn from_spec(input: FailureResponse) -> Response {
        Response::Failure(input)
    }
}

/// Why a bencoded value is not a response.
#[derive(Clone, Copy, Debug, PartialEq, Eq, Structural)]
pub enum ResponseError {
    /// The bytes are not bencode.
    Decode(DecodeError),
    NotADict,
    /// Neither a failure reason nor an interval with peers.
    MissingKeys,
    IntervalOutOfRange,
    /// The compact peer list is not a multiple of six bytes long.
    BadCompactLength,
    /// The peers are neither a list nor a byte string.
    BadPeersValue,
    PeerNotADict,
    InvalidPeerId,
    InvalidIp,
    InvalidPort,
    /// A compact peer is not six bytes long.
    BadCompactPeer,
    /// Only a version 4 address fits the compact form.
    NotIpv4,
}

impl ResponseError {
    /// The error in words.
    pub fn message(&self) -> (text: &'static str)
        ensures
            text@ == match *self {
                ResponseError::Decode(_) => "Response must be bencoded"@,
                ResponseError::NotADict => "Response value must be a dict"@,
                ResponseError::MissingKeys =>
                    "Tracker must respond with either \"interval\" and \"peers\", or \"failure reason\""@,
                ResponseError::IntervalOutOfRange =>
                    "out of range integral type conversion attempted"@,
                ResponseError::BadCompactLength =>
                    "Short peer list must be a multiple of 6 bytes long"@,
                ResponseError::BadPeersValue =>
                    "Peer value must be either a list or byte string"@,
                ResponseError::PeerNotADict => "Peer value must be a dict"@,
                ResponseError::InvalidPeerId => "Missing or invalid peer_id value"@,
                ResponseError::InvalidIp => "Missing or invalid IP value"@,
                ResponseError::InvalidPort => "Missing or invalid port value"@,
                ResponseError::BadCompactPeer => "Short peer values must be 6 bytes long"@,
                ResponseError::NotIpv4 =>
                    "Only IPv4 values can be encoded with the short syntax"@,
            },
    {
        match self {
            ResponseError::Decode(_) => "Response must be bencoded",
            ResponseError::NotADict => "Response value must be a dict",
            ResponseError::MissingKeys =>
                "Tracker must respond with either \"interval\" and \"peers\", or \"failure reason\"",
            ResponseError::IntervalOutOfRange => "out of range integral type conversion attempted",
            ResponseError::BadCompactLength =>
                "Short peer list must be a multiple of 6 bytes long",
            ResponseError::BadPeersValue => "Peer value must be either a list or byte string",
            ResponseError::PeerNotADict => "Peer value must be a dict",
            ResponseError::InvalidPeerId => "Missing or invalid peer_id value",
            ResponseError::InvalidIp => "Missing or invalid IP value",
            ResponseError::InvalidPort => "Missing or invalid port value",
            ResponseError::BadCompactPeer => "Short peer values must be 6 bytes long",
            ResponseError::NotIpv4 => "Only IPv4 values can be encoded with the short syntax",
        }
    }
}

/// The entries with `value` stored under `key`, where there is a value.
pub open spec fn dict_insert_optional(
    entries: Seq<(Seq<u8>, Value)>,
    key: Seq<u8>,
    value: Option<Value>,
) -> Seq<(Seq<u8>, Value)> {
    match value {
        Some(v) => dict_insert(entries, key, v),
        None => entries,
    }
}

/// A peer as a bencoded dictionary: its address as text under `ip`, its
/// port under `port`, and its id, where it has one, under `peer_id`.
pub open spec fn peer_value(p: PeerView) -> Value {
    Value::Dict(
        dict_insert_optional(
            dict_insert(
                dict_insert(Seq::empty(), "ip".spec_bytes(), Value::Bytes(ip_text(p.addr.ip))),
                "port".spec_bytes(),
                Value::Integer(p.addr.port as int),
            ),
            "peer_id".spec_bytes(),
            match p.peer_id {
                Some(id) => Some(Value::Bytes(id)),
                None => None,
            },
        ),
    )
}

/// The peers as bencoded dictionaries.
pub open spec fn peer_values(peers: Seq<PeerView>) -> Seq<Value> {
    Seq::new(peers.len(), |i: int| peer_value(peers[i]))
}

/// An optional number as a bencoded integer.
pub open spec fn optional_integer(n: Option<u64>) -> Option<Value> {
    match n {
        Some(n) => Some(Value::Integer(n as int)),
        None => None,
    }
}

/// A response as a bencoded dictionary.
pub open spec fn response_value(r: ResponseView) -> Value {
    match r {
        ResponseView::Success {
            warning_message,
            interval,
            min_interval,
            tracker_id,
            complete,
            incomplete,
            peers,
        } => Value::Dict(
            dict_insert_optional(
                dict_insert_optional(
                    dict_insert_optional(
                        dict_insert_optional(
                            dict_insert_optional(
                                dict_insert(
                                    dict_insert(
                                        Seq::empty(),
                                        "interval".spec_bytes(),
                                        Value::Integer(interval as int),
                                    ),
                                    "peers".spec_bytes(),
                                    Value::List(peer_values(peers)),
                                ),
                                "warning message".spec_bytes(),
                                match warning_message {
                                    Some(text) => Some(Value::Bytes(encode_utf8(text))),
                                    None => None,
                                },
                            ),
                            "min interval".spec_bytes(),
                            optional_integer(min_interval),
                        ),
                        "tracker_id".spec_bytes(),
                        match tracker_id {
                            Some(id) => Some(Value::Bytes(id)),
                            None => None,
                        },
                    ),
                    "complete".spec_bytes(),
                    optional_integer(complete),
                ),
                "incomplete".spec_bytes(),
                optional_integer(incomplete),
            ),
        ),
        ResponseView::Failure { failure_reason } => Value::Dict(
            dict_insert(
                Seq::empty(),
                "failure reason".spec_bytes(),
                Value::Bytes(encode_utf8(failure_reason)),
            ),
        ),
    }
}

/// The peer that a bencoded dictionary describes, seen now.
pub open spec fn peer_of(v: Value, now: u64) -> Result<PeerView, ResponseError> {
    match v {
        Value::Dict(es) => {
            let id = dict_get(es, "peer_id".spec_bytes());
            let ip = match dict_get(es, "ip".spec_bytes()) {
                Some(Value::Bytes(text)) => parse_ip(text),
                _ => None,
            };
            let port = match dict_get(es, "port".spec_bytes()) {
                Some(Value::Integer(n)) => if 0 <= n <= u16::MAX {
                    Some(n as u16)
                } else {
                    None
                },
                _ => None,
            };
            let id_ok = match id {
                None => true,
                Some(Value::Bytes(b)) => b.len() == 20,
                Some(_) => false,
            };
            if !id_ok {
                Err(ResponseError::InvalidPeerId)
            } else if ip is None {
                Err(ResponseError::InvalidIp)
            } else if port is None {
                Err(ResponseError::InvalidPort)
            } else {
                Ok(
                    PeerView {
                        last_seen: now,
                        peer_id: match id {
                            Some(Value::Bytes(b)) => Some(b),
                            _ => None,
                        },
                        addr: SocketAddr { ip: ip->0, port: port->0 },
                        uploaded: None,
                        downloaded: None,
                        left: None,
                        key: None,
                        supportcrypto: None,
                        requirecrypto: None,
                    },
                )
            }
        },
        _ => Err(ResponseError::PeerNotADict),
    }
}

/// The peer that six bytes describe: a version 4 address and a port.
pub open spec fn compact_peer(b: Seq<u8>, now: u64) -> PeerView
    recommends
        b.len() == 6,
{
    PeerView {
        last_seen: now,
        peer_id: None,
        addr: SocketAddr {
            ip: IpAddr::V4(be_u32(b.subrange(0, 4)) as u32),
            port: be_u16(b.subrange(4, 6)) as u16,
        },
        uploaded: None,
        downloaded: None,
        left: None,
        key: None,
        supportcrypto: None,
        requirecrypto: None,
    }
}

/// The peers that a list of bencoded dictionaries describes, after the
/// peers `acc` read so far; the error of the first that is none.
pub open spec fn peers_of_list(l: Seq<Value>, at: int, acc: Seq<PeerView>, now: u64) -> Result<
    Seq<PeerView>,
    ResponseError,
>
    decreases l.len() - at,
{
    if at < 0 || at >= l.len() {
        Ok(acc)
    } else {
        match peer_of(l[at], now) {
            Ok(p) => peers_of_list(l, at + 1, acc.push(p), now),
            Err(e) => Err(e),
        }
    }
}

/// The peers that a compact list describes, six bytes each.
pub open spec fn peers_of_compact(b: Seq<u8>, now: u64) -> Seq<PeerView> {
    Seq::new((b.len() / 6) as nat, |i: int| compact_peer(b.subrange(6 * i, 6 * i + 6), now))
}

/// The peers that the value under `peers` describes.
pub open spec fn peers_of(v: Value, now: u64) -> Result<Seq<PeerView>, ResponseError> {
    match v {
        Value::List(l) => peers_of_list(l, 0, Seq::empty(), now),
        Value::Bytes(b) => if b.len() % 6 == 0 {
            Ok(peers_of_compact(b, now))
        } else {
            Err(ResponseError::BadCompactLength)
        },
        _ => Err(ResponseError::BadPeersValue),
    }
}

/// The response that a bencoded value describes. A failure reason that is
/// a byte string makes a failure; else an interval and peers make a
/// success, whose optional values are left out where they have another
/// shape than expected.
pub open spec fn response_of(v: Value, now: u64) -> Result<ResponseView, ResponseError> {
    match v {
        Value::Dict(es) => match dict_get(es, "failure reason".spec_bytes()) {
            Some(Value::Bytes(reason)) => Ok(
                ResponseView::Failure { failure_reason: crate::text::lossy_text(reason) },
            ),
            _ => match (
                dict_get(es, "interval".spec_bytes()),
                dict_get(es, "peers".spec_bytes()),
            ) {
                (Some(Value::Integer(interval)), Some(peers)) => if !(0 <= interval <= u64::MAX) {
                    Err(ResponseError::IntervalOutOfRange)
                } else {
                    match peers_of(peers, now) {
                        Ok(found) => Ok(
                            ResponseView::Success {
                                warning_message: match dict_get(
                                    es,
                                    "warning message".spec_bytes(),
                                ) {
                                    Some(w) => text_of(w),
                                    None => None,
                                },
                                interval: interval as u64,
                                min_interval: match dict_get(es, "min interval".spec_bytes()) {
                                    Some(m) => u64_of(m),
                                    None => None,
                                },
                                tracker_id: match dict_get(es, "tracker_id".spec_bytes()) {
                                    Some(t) => bytes_of(t),
                                    None => None,
                                },
                                complete: match dict_get(es, "complete".spec_bytes()) {
                                    Some(c) => u64_of(c),
                                    None => None,
                                },
                                incomplete: match dict_get(es, "incomplete".spec_bytes()) {
                                    Some(c) => u64_of(c),
                                    None => None,
                                },
                                peers: found,
                            },
                        ),
                        Err(e) => Err(e),
                    }
                },
                _ => Err(ResponseError::MissingKeys),
            },
        },
        _ => Err(ResponseError::NotADict),
    }
}

/// The response that bencoded bytes describe.
pub open spec fn response_of_bytes(s: Seq<u8>, now: u64) -> Result<ResponseView, ResponseError> {
    match decode_value(s) {
        Ok(v) => response_of(v, now),
        Err(e) => Err(ResponseError::Decode(e)),
    }
}

impl Peer {
    /// The peer as a bencoded dictionary.
    pub fn to_bencode(&self) -> (value: BencodeValue)
        ensures
            value@ == peer_value(self@),
    {
        let mut text: Vec<u8> = Vec::new();
        self.addr.ip.push_text(&mut text);
        assert(text@ =~= ip_text(self.addr.ip));
        let mut dict: Dict = Dict::new();
        assert(dict@ =~= Seq::<(Seq<u8>, Value)>::empty());
        dict.insert(vstd::slice::slice_to_vec("ip".as_bytes()), BencodeValue::Bytes(text));
        dict.insert(
            vstd::slice::slice_to_vec("port".as_bytes()),
            BencodeValue::Integer(self.addr.port as i128),
        );
        match &self.peer_id {
            Some(id) => {
                dict.insert(
                    vstd::slice::slice_to_vec("peer_id".as_bytes()),
                    BencodeValue::Bytes(vstd::slice::slice_to_vec(id.as_slice())),
                );
            },
            None => {},
        }
        BencodeValue::Dict(dict)
    }

    /// The peer that a bencoded dictionary describes, seen now.
    pub fn from_bencode(value: &BencodeValue, now: u64) -> (r: Result<Peer, ResponseError>)
        ensures
            match peer_of(value@, now) {
                Ok(view) => r matches Ok(peer) && peer@ == view,
                Err(e) => r matches Err(error) && error == e,
            },
    {
        let dict = match value.as_dict() {
            Some(dict) => dict,
            None => {
                return Err(ResponseError::PeerNotADict);
            },
        };
        let peer_id: Option<PeerId> = match dict.get("peer_id".as_bytes()) {
            None => None,
            Some(found) => match found.as_bytes() {
                Some(bytes) => match PeerId::from_slice(bytes.as_slice()) {
                    Some(id) => Some(id),
                    None => {
                        return Err(ResponseError::InvalidPeerId);
                    },
                },
                None => {
                    return Err(ResponseError::InvalidPeerId);
                },
            },
        };
        let ip: IpAddr = match dict.get("ip".as_bytes()) {
            Some(found) => match found.as_bytes() {
                Some(text) => match IpAddr::parse(text.as_slice()) {
                    Some(ip) => ip,
                    None => {
                        return Err(ResponseError::InvalidIp);
                    },
                },
                None => {
                    return Err(ResponseError::InvalidIp);
                },
            },
            None => {
                return Err(ResponseError::InvalidIp);
            },
        };
        let port: u16 = match dict.get("port".as_bytes()) {
            Some(found) => match found.as_integer() {
                Some(n) => {
                    if 0 <= n && n <= 65535 {
                        n as u16
                    } else {
                        return Err(ResponseError::InvalidPort);
                    }
                },
                None => {
                    return Err(ResponseError::InvalidPort);
                },
            },
            None => {
                return Err(ResponseError::InvalidPort);
            },
        };
        Ok(
            Peer {
                last_seen: now,
                peer_id,
                addr: SocketAddr { ip, port },
                uploaded: None,
                downloaded: None,
                left: None,
                key: None,
                supportcrypto: None,
                requirecrypto: None,
            },
        )
    }

    /// The peer that six bytes describe, seen now: a version 4 address and
    /// a port.
    pub fn from_compact(input: &[u8], now: u64) -> (r: Result<Peer, ResponseError>)
        ensures
            input@.len() == 6 ==> (r matches Ok(peer) && peer@ == compact_peer(input@, now)),
            input@.len() != 6 ==> r == Err::<Peer, ResponseError>(ResponseError::BadCompactPeer),
    {
        if input.len() != 6 {
            return Err(ResponseError::BadCompactPeer);
        }
        Ok(
            Peer {
                last_seen: now,
                peer_id: None,
                addr: SocketAddr {
                    ip: IpAddr::V4(read_be_u32(input, 0)),
                    port: read_be_u16(input, 4),
                },
                uploaded: None,
                downloaded: None,
                left: None,
                key: None,
                supportcrypto: None,
                requirecrypto: None,
            },
        )
    }

    /// The peer's address and port in six bytes, where the address is a
    /// version 4 address.
    pub fn to_compact(&self) -> (r: Result<[u8; 6], ResponseError>)
        ensures
            match self.addr.ip {
                IpAddr::V4(a) => r matches Ok(bytes) && bytes@ == u32_be_bytes(a) + u16_be_bytes(
                    self.addr.port,
                ),
                IpAddr::V6(_) => r == Err::<[u8; 6], ResponseError>(ResponseError::NotIpv4),
            },
    {
        match self.addr.ip {
            IpAddr::V4(a) => {
                let port: u16 = self.addr.port;
                let bytes: [u8; 6] = [
                    (a / 16777216) as u8,
                    (a / 65536 % 256) as u8,
                    (a / 256 % 256) as u8,
                    (a % 256) as u8,
                    (port / 256) as u8,
                    (port % 256) as u8,
                ];
                assert(bytes@ =~= u32_be_bytes(a) + u16_be_bytes(port));
                Ok(bytes)
            },
            IpAddr::V6(_) => Err(ResponseError::NotIpv4),
        }
    }
}

/// The peers as bencoded dictionaries.
pub fn peers_to_bencode(peers: &Vec<Peer>) -> (list: Vec<BencodeValue>)
    ensures
        list_view(list@) == peer_values(peers_view(peers@)),
{
    let mut list: Vec<BencodeValue> = Vec::new();
    let mut i: usize = 0;
    while i < peers.len()
        invariant
            i <= peers.len(),
            list@.len() == i,
            forall|j: int| 0 <= j < i ==> (#[trigger] list@[j])@ == peer_value(peers@[j]@),
        decreases peers.len() - i,
    {
        list.push(peers[i].to_bencode());
        i += 1;
    }
    assert(list_view(list@) =~= peer_values(peers_view(peers@)));
    list
}

/// The peers that a list of bencoded dictionaries describes, seen now.
pub fn peers_from_list(list: &Vec<BencodeValue>, now: u64) -> (r: Result<Vec<Peer>, ResponseError>)
    ensures
        match peers_of_list(list_view(list@), 0, Seq::empty(), now) {
            Ok(found) => r matches Ok(peers) && peers_view(peers@) == found,
            Err(e) => r matches Err(error) && error == e,
        },
{
    let mut peers: Vec<Peer> = Vec::new();
    let mut i: usize = 0;
    assert(peers_view(peers@) =~= Seq::<PeerView>::empty());
    while i < list.len()
        invariant
            i <= list.len(),
            peers_of_list(list_view(list@), i as int, peers_view(peers@), now) == peers_of_list(
                list_view(list@),
                0,
                Seq::empty(),
                now,
            ),
        decreases list.len() - i,
    {
        match Peer::from_bencode(&list[i], now) {
            Ok(peer) => {
                assert(peers_view(peers@.push(peer)) =~= peers_view(peers@).push(peer@));
                peers.push(peer);
            },
            Err(e) => {
                return Err(e);
            },
        }
        i += 1;
    }
    Ok(peers)
}

/// The peers that a compact list describes, seen now.
pub fn peers_from_compact(bytes: &[u8], now: u64) -> (peers: Vec<Peer>)
    requires
        bytes@.len() % 6 == 0,
    ensures
        peers_view(peers@) == peers_of_compact(bytes@, now),
{
    let len: usize = bytes.len();
    let n: usize = len / 6;
    let mut peers: Vec<Peer> = Vec::new();
    let mut i: usize = 0;
    while i < n
        invariant
            i <= n,
            n == bytes@.len() / 6,
            bytes@.len() % 6 == 0,
            len == bytes@.len(),
            6 * n == len,
            peers@.len() == i,
            forall|j: int|
                0 <= j < i ==> (#[trigger] peers@[j])@ == compact_peer(
                    bytes@.subrange(6 * j, 6 * j + 6),
                    now,
                ),
        decreases n - i,
    {
        let chunk = vstd::slice::slice_subrange(bytes, 6 * i, 6 * i + 6);
        match Peer::from_compact(chunk, now) {
            Ok(peer) => {
                peers.push(peer);
            },
            Err(_) => {},
        }
        i += 1;
    }
    assert(peers_view(peers@) =~= peers_of_compact(bytes@, now));
    peers
}

impl Response {
    /// The response as a bencoded dictionary.
    pub fn to_bencode(&self) -> (value: BencodeValue)
        ensures
            value@ == response_value(self@),
    {
        let mut dict: Dict = Dict::new();
        assert(dict@ =~= Seq::<(Seq<u8>, Value)>::empty());
        match self {
            Response::Success(success) => {
                dict.insert(
                    vstd::slice::slice_to_vec("interval".as_bytes()),
                    BencodeValue::Integer(success.interval as i128),
                );
                dict.insert(
                    vstd::slice::slice_to_vec("peers".as_bytes()),
                    BencodeValue::List(peers_to_bencode(&success.peers)),
                );
                match &success.warning_message {
                    Some(text) => {
                        dict.insert(
                            vstd::slice::slice_to_vec("warning message".as_bytes()),
                            BencodeValue::from(text.as_str()),
                        );
                    },
                    None => {},
                }
                insert_optional_integer(&mut dict, "min interval", success.min_interval);
                match &success.tracker_id {
                    Some(id) => {
                        dict.insert(
                            vstd::slice::slice_to_vec("tracker_id".as_bytes()),
                            BencodeValue::Bytes(vstd::slice::slice_to_vec(id.as_slice())),
                        );
                    },
                    None => {},
                }
                insert_optional_integer(&mut dict, "complete", success.complete);
                insert_optional_integer(&mut dict, "incomplete", success.incomplete);
            },
            Response::Failure(failure) => {
                dict.insert(
                    vstd::slice::slice_to_vec("failure reason".as_bytes()),
                    BencodeValue::from(failure.failure_reason.as_str()),
                );
            },
        }
        BencodeValue::Dict(dict)
    }

    /// The response as bencoded bytes.
    pub fn to_bytes(&self) -> (bytes: Vec<u8>)
        ensures
            bytes@ == encode_value(response_value(self@)),
    {
        self.to_bencode().encode()
    }

    /// The response that a bencoded value describes, received now.
    pub fn from_bencode(value: &BencodeValue, now: u64) -> (r: Result<Response, ResponseError>)
        ensures
            match response_of(value@, now) {
                Ok(view) => r matches Ok(response) && response@ == view,
                Err(e) => r matches Err(error) && error == e,
            },
    {
        let dict = match value.as_dict() {
            Some(dict) => dict,
            None => {
                return Err(ResponseError::NotADict);
            },
        };
        match dict.get("failure reason".as_bytes()) {
            Some(found) => match found.as_text() {
                Some(failure_reason) => {
                    return Ok(Response::Failure(FailureResponse { failure_reason }));
                },
                None => {},
            },
            None => {},
        }
        let interval: i128 = match dict.get("interval".as_bytes()) {
            Some(found) => match found.as_integer() {
                Some(i) => i,
                None => {
                    return Err(ResponseError::MissingKeys);
                },
            },
            None => {
                return Err(ResponseError::MissingKeys);
            },
        };
        let peers_value = match dict.get("peers".as_bytes()) {
            Some(found) => found,
            None => {
                return Err(ResponseError::MissingKeys);
            },
        };
        if interval < 0 || interval > u64::MAX as i128 {
            return Err(ResponseError::IntervalOutOfRange);
        }
        let peers: Vec<Peer> = match peers_value {
            BencodeValue::List(list) => match peers_from_list(list, now) {
                Ok(peers) => peers,
                Err(e) => {
                    return Err(e);
                },
            },
            BencodeValue::Bytes(bytes) => {
                if bytes.len() % 6 == 0 {
                    peers_from_compact(bytes.as_slice(), now)
                } else {
                    return Err(ResponseError::BadCompactLength);
                }
            },
            _ => {
                return Err(ResponseError::BadPeersValue);
            },
        };
        let warning_message: Option<String> = match dict.get("warning message".as_bytes()) {
            Some(found) => found.as_text(),
            None => None,
        };
        let min_interval: Option<u64> = match dict.get("min interval".as_bytes()) {
            Some(found) => found.as_u64(),
            None => None,
        };
        let tracker_id: Option<Vec<u8>> = match dict.get("tracker_id".as_bytes()) {
            Some(found) => match found.as_bytes() {
                Some(bytes) => Some(vstd::slice::slice_to_vec(bytes.as_slice())),
                None => None,
            },
            None => None,
        };
        let complete: Option<u64> = match dict.get("complete".as_bytes()) {
            Some(found) => found.as_u64(),
            None => None,
        };
        let incomplete: Option<u64> = match dict.get("incomplete".as_bytes()) {
            Some(found) => found.as_u64(),
            None => None,
        };
        Ok(
            Response::Success(
                SuccessResponse {
                    warning_message,
                    interval: interval as u64,
                    min_interval,
                    tracker_id,
                    complete,
                    incomplete,
                    peers,
                },
            ),
        )
    }

    /// The response that bencoded bytes describe, received now.
    pub fn from_bytes(input: &[u8], now: u64) -> (r: Result<Response, ResponseError>)
        ensures
            match response_of_bytes(input@, now) {
                Ok(view) => r matches Ok(response) && response@ == view,
                Err(e) => r matches Err(error) && error == e,
            },
    {
        match BencodeValue::decode(input) {
            Ok(value) => Response::from_bencode(&value, now),
            Err(e) => Err(ResponseError::Decode(e)),
        }
    }
}

/// Stores a number under `key`, where there is one.
fn insert_optional_integer(dict: &mut Dict, key: &str, value: Option<u64>)
    ensures
        final(dict)@ == dict_insert_optional(old(dict)@, key.spec_bytes(), optional_integer(value)),
{
    match value {
        Some(n) => {
            dict.insert(vstd::slice::slice_to_vec(key.as_bytes()), BencodeValue::Integer(n as i128));
        },
        None => {},
    }
}

} // verus!

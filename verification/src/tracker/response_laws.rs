//! What the tracker writes of a response is what a client reads.

use vstd::prelude::*;
use vstd::string::StringSliceAdditionalSpecFns;
use vstd::utf8::encode_utf8;
use crate::bencode::grammar::encode_value;
use crate::bencode::laws::{law_decode_encode, lemma_insert_well_formed, well_formed};
use crate::bencode::value::{
    canonical, dict_get, dict_insert, lemma_dict_get_after_insert, representable, Value,
};
use crate::net::{ip_text, law_ip_text_round_trip};
use crate::text::{law_text_read_back, lemma_literal_bytes};
use crate::tracker::peer::PeerView;
use crate::tracker::response::{
    dict_insert_optional, optional_integer, peer_of, peer_value, peer_values, peers_of_list,
    response_of, response_of_bytes, response_value, ResponseError, ResponseView,
};

verus! {

/// What is found under a key after a value was stored where there was one.
proof fn lemma_get_after_optional(
    entries: Seq<(Seq<u8>, Value)>,
    key: Seq<u8>,
    value: Option<Value>,
    other: Seq<u8>,
)
    ensures
        dict_get(dict_insert_optional(entries, key, value), other) == if other == key
            && value is Some {
            value
        } else {
            dict_get(entries, other)
        },
{
    if let Some(v) = value {
        lemma_dict_get_after_insert(entries, key, v, other);
    }
}

/// Storing a value where there is one keeps entries well formed.
proof fn lemma_optional_well_formed(
    entries: Seq<(Seq<u8>, Value)>,
    key: Seq<u8>,
    value: Option<Value>,
)
    requires
        well_formed(entries),
        value matches Some(v) ==> canonical(v) && representable(v),
    ensures
        well_formed(dict_insert_optional(entries, key, value)),
{
    if let Some(v) = value {
        lemma_insert_well_formed(entries, key, v);
    }
}

/// The keys of a peer's dictionary: how long each is.
proof fn lemma_peer_keys()
    ensures
        "ip".spec_bytes().len() == 2,
        "port".spec_bytes().len() == 4,
        "peer_id".spec_bytes().len() == 7,
{
    reveal_strlit("ip");
    reveal_strlit("port");
    reveal_strlit("peer_id");
    let ip = "ip";
    let port = "port";
    let peer_id = "peer_id";
    assert(vstd::string::is_ascii(ip));
    assert(vstd::string::is_ascii(port));
    assert(vstd::string::is_ascii(peer_id));
    lemma_literal_bytes(ip);
    lemma_literal_bytes(port);
    lemma_literal_bytes(peer_id);
}

/// The keys of a response's dictionary: how long each is, and how each
/// starts.
proof fn lemma_response_keys()
    ensures
        "interval".spec_bytes().len() == 8,
        "interval".spec_bytes()[0] == 105,
        "peers".spec_bytes().len() == 5,
        "warning message".spec_bytes().len() == 15,
        "min interval".spec_bytes().len() == 12,
        "tracker_id".spec_bytes().len() == 10,
        "tracker_id".spec_bytes()[0] == 116,
        "complete".spec_bytes().len() == 8,
        "complete".spec_bytes()[0] == 99,
        "incomplete".spec_bytes().len() == 10,
        "incomplete".spec_bytes()[0] == 105,
        "failure reason".spec_bytes().len() == 14,
{
    reveal_strlit("interval");
    reveal_strlit("peers");
    reveal_strlit("warning message");
    reveal_strlit("min interval");
    reveal_strlit("tracker_id");
    reveal_strlit("complete");
    reveal_strlit("incomplete");
    reveal_strlit("failure reason");
    let interval = "interval";
    let peers = "peers";
    let warning = "warning message";
    let min_interval = "min interval";
    let tracker_id = "tracker_id";
    let complete = "complete";
    let incomplete = "incomplete";
    let failure = "failure reason";
    assert(vstd::string::is_ascii(interval));
    assert(vstd::string::is_ascii(peers));
    assert(vstd::string::is_ascii(warning));
    assert(vstd::string::is_ascii(min_interval));
    assert(vstd::string::is_ascii(tracker_id));
    assert(vstd::string::is_ascii(complete));
    assert(vstd::string::is_ascii(incomplete));
    assert(vstd::string::is_ascii(failure));
    lemma_literal_bytes(interval);
    lemma_literal_bytes(peers);
    lemma_literal_bytes(warning);
    lemma_literal_bytes(min_interval);
    lemma_literal_bytes(tracker_id);
    lemma_literal_bytes(complete);
    lemma_literal_bytes(incomplete);
    lemma_literal_bytes(failure);
}

/// Whether a peer holds no more than a response says of it: its address,
/// its id of twenty bytes where it has one, and that it was seen `now`.
pub open spec fn as_listed(p: PeerView, now: u64) -> bool {
    &&& p.last_seen == now
    &&& p.peer_id matches Some(id) ==> id.len() == 20
    &&& p.uploaded is None
    &&& p.downloaded is None
    &&& p.left is None
    &&& p.key is None
    &&& p.supportcrypto is None
    &&& p.requirecrypto is None
}

/// Whether a response holds of its peers no more than is written of them.
pub open spec fn as_written(r: ResponseView, now: u64) -> bool {
    match r {
        ResponseView::Success { peers, .. } => forall|i: int|
            0 <= i < peers.len() ==> as_listed(#[trigger] peers[i], now),
        ResponseView::Failure { .. } => true,
    }
}

/// The entries of a peer's dictionary.
pub open spec fn peer_entries(p: PeerView) -> Seq<(Seq<u8>, Value)> {
    dict_insert_optional(
        dict_insert(
            dict_insert(Seq::empty(), "ip".spec_bytes(), Value::Bytes(ip_text(p.addr.ip))),
            "port".spec_bytes(),
            Value::Integer(p.addr.port as int),
        ),
        "peer_id".spec_bytes(),
        match p.peer_id {
            Some(id) => Some(Value::Bytes(id)),
            None => None,
        },
    )
}

/// The dictionary of a peer is canonical, and holds what was put in.
proof fn lemma_peer_entries(p: PeerView)
    ensures
        peer_value(p) == Value::Dict(peer_entries(p)),
        well_formed(peer_entries(p)),
        dict_get(peer_entries(p), "ip".spec_bytes()) == Some(Value::Bytes(ip_text(p.addr.ip))),
        dict_get(peer_entries(p), "port".spec_bytes()) == Some(
            Value::Integer(p.addr.port as int),
        ),
        dict_get(peer_entries(p), "peer_id".spec_bytes()) == match p.peer_id {
            Some(id) => Some(Value::Bytes(id)),
            None => None,
        },
{
    lemma_peer_keys();
    let ip = "ip".spec_bytes();
    let port = "port".spec_bytes();
    let peer_id = "peer_id".spec_bytes();
    let ip_value = Value::Bytes(ip_text(p.addr.ip));
    let port_value = Value::Integer(p.addr.port as int);
    let id_value = match p.peer_id {
        Some(id) => Some(Value::Bytes(id)),
        None => None,
    };
    let none = Seq::<(Seq<u8>, Value)>::empty();
    let first = dict_insert(none, ip, ip_value);
    let second = dict_insert(first, port, port_value);
    assert(well_formed(none));
    lemma_insert_well_formed(none, ip, ip_value);
    lemma_insert_well_formed(first, port, port_value);
    lemma_optional_well_formed(second, peer_id, id_value);
    assert(dict_get(none, ip) is None);
    assert(dict_get(none, port) is None);
    assert(dict_get(none, peer_id) is None);
    lemma_dict_get_after_insert(none, ip, ip_value, ip);
    lemma_dict_get_after_insert(none, ip, ip_value, port);
    lemma_dict_get_after_insert(none, ip, ip_value, peer_id);
    lemma_dict_get_after_insert(first, port, port_value, ip);
    lemma_dict_get_after_insert(first, port, port_value, port);
    lemma_dict_get_after_insert(first, port, port_value, peer_id);
    lemma_get_after_optional(second, peer_id, id_value, ip);
    lemma_get_after_optional(second, peer_id, id_value, port);
    lemma_get_after_optional(second, peer_id, id_value, peer_id);
}

/// A peer that is written is read back: its address and its id.
pub proof fn law_peer_round_trip(p: PeerView, now: u64)
    requires
        as_listed(p, now),
    ensures
        peer_of(peer_value(p), now) == Ok::<PeerView, ResponseError>(p),
        canonical(peer_value(p)),
        representable(peer_value(p)),
{
    lemma_peer_entries(p);
    law_ip_text_round_trip(p.addr.ip);
}

/// The peers of a list that is written are read back, one after the other.
proof fn lemma_peers_read_back(peers: Seq<PeerView>, at: int, acc: Seq<PeerView>, now: u64)
    requires
        0 <= at <= peers.len(),
        forall|i: int| 0 <= i < peers.len() ==> as_listed(#[trigger] peers[i], now),
        acc == peers.subrange(0, at),
    ensures
        peers_of_list(peer_values(peers), at, acc, now) == Ok::<Seq<PeerView>, ResponseError>(
            peers,
        ),
    decreases peers.len() - at,
{
    let values = peer_values(peers);
    if at >= values.len() {
        assert(acc =~= peers);
    } else {
        law_peer_round_trip(peers[at], now);
        assert(values[at] == peer_value(peers[at]));
        assert(acc.push(peers[at]) =~= peers.subrange(0, at + 1));
        lemma_peers_read_back(peers, at + 1, acc.push(peers[at]), now);
    }
}

/// The entries of the dictionary of a success response: the interval and
/// the peers under the first two keys, and under the others the values
/// that there are.
pub open spec fn success_entries(
    keys: Seq<Seq<u8>>,
    interval: Value,
    peers: Value,
    optional: Seq<Option<Value>>,
) -> Seq<(Seq<u8>, Value)>
    recommends
        keys.len() == 7,
        optional.len() == 5,
{
    dict_insert_optional(
        dict_insert_optional(
            dict_insert_optional(
                dict_insert_optional(
                    dict_insert_optional(
                        dict_insert(
                            dict_insert(Seq::empty(), keys[0], interval),
                            keys[1],
                            peers,
                        ),
                        keys[2],
                        optional[0],
                    ),
                    keys[3],
                    optional[1],
                ),
                keys[4],
                optional[2],
            ),
            keys[5],
            optional[3],
        ),
        keys[6],
        optional[4],
    )
}

/// What is found under a key in the dictionary of a success response.
proof fn lemma_success_get(
    keys: Seq<Seq<u8>>,
    interval: Value,
    peers: Value,
    optional: Seq<Option<Value>>,
    other: Seq<u8>,
)
    requires
        keys.len() == 7,
        optional.len() == 5,
    ensures
        dict_get(success_entries(keys, interval, peers, optional), other) == if other == keys[6]
            && optional[4] is Some {
            optional[4]
        } else if other == keys[5] && optional[3] is Some {
            optional[3]
        } else if other == keys[4] && optional[2] is Some {
            optional[2]
        } else if other == keys[3] && optional[1] is Some {
            optional[1]
        } else if other == keys[2] && optional[0] is Some {
            optional[0]
        } else if other == keys[1] {
            Some(peers)
        } else if other == keys[0] {
            Some(interval)
        } else {
            None
        },
{
    let none = Seq::<(Seq<u8>, Value)>::empty();
    let e1 = dict_insert(none, keys[0], interval);
    let e2 = dict_insert(e1, keys[1], peers);
    let e3 = dict_insert_optional(e2, keys[2], optional[0]);
    let e4 = dict_insert_optional(e3, keys[3], optional[1]);
    let e5 = dict_insert_optional(e4, keys[4], optional[2]);
    let e6 = dict_insert_optional(e5, keys[5], optional[3]);
    assert(dict_get(none, other) is None);
    lemma_dict_get_after_insert(none, keys[0], interval, other);
    lemma_dict_get_after_insert(e1, keys[1], peers, other);
    lemma_get_after_optional(e2, keys[2], optional[0], other);
    lemma_get_after_optional(e3, keys[3], optional[1], other);
    lemma_get_after_optional(e4, keys[4], optional[2], other);
    lemma_get_after_optional(e5, keys[5], optional[3], other);
    lemma_get_after_optional(e6, keys[6], optional[4], other);
}

/// The dictionary of a success response is well formed where its values
/// are.
proof fn lemma_success_well_formed(
    keys: Seq<Seq<u8>>,
    interval: Value,
    peers: Value,
    optional: Seq<Option<Value>>,
)
    requires
        keys.len() == 7,
        optional.len() == 5,
        canonical(interval) && representable(interval),
        canonical(peers) && representable(peers),
        forall|i: int|
            0 <= i < 5 ==> ((#[trigger] optional[i]) matches Some(v) ==> canonical(v)
                && representable(v)),
    ensures
        well_formed(success_entries(keys, interval, peers, optional)),
{
    let none = Seq::<(Seq<u8>, Value)>::empty();
    let e1 = dict_insert(none, keys[0], interval);
    let e2 = dict_insert(e1, keys[1], peers);
    let e3 = dict_insert_optional(e2, keys[2], optional[0]);
    let e4 = dict_insert_optional(e3, keys[3], optional[1]);
    let e5 = dict_insert_optional(e4, keys[4], optional[2]);
    let e6 = dict_insert_optional(e5, keys[5], optional[3]);
    assert(well_formed(none));
    lemma_insert_well_formed(none, keys[0], interval);
    lemma_insert_well_formed(e1, keys[1], peers);
    lemma_optional_well_formed(e2, keys[2], optional[0]);
    lemma_optional_well_formed(e3, keys[3], optional[1]);
    lemma_optional_well_formed(e4, keys[4], optional[2]);
    lemma_optional_well_formed(e5, keys[5], optional[3]);
    lemma_optional_well_formed(e6, keys[6], optional[4]);
}

/// A response that is written is read back, from the bencoded value and
/// from its bytes, where it holds of its peers no more than is written of
/// them.
pub proof fn law_response_round_trip(r: ResponseView, now: u64)
    requires
        as_written(r, now),
    ensures
        canonical(response_value(r)),
        representable(response_value(r)),
        response_of(response_value(r), now) == Ok::<ResponseView, ResponseError>(r),
        response_of_bytes(encode_value(response_value(r)), now) == Ok::<
            ResponseView,
            ResponseError,
        >(r),
{
    lemma_response_keys();
    let failure = "failure reason".spec_bytes();
    match r {
        ResponseView::Success {
            warning_message,
            interval,
            min_interval,
            tracker_id,
            complete,
            incomplete,
            peers,
        } => {
            let keys = seq![
                "interval".spec_bytes(),
                "peers".spec_bytes(),
                "warning message".spec_bytes(),
                "min interval".spec_bytes(),
                "tracker_id".spec_bytes(),
                "complete".spec_bytes(),
                "incomplete".spec_bytes(),
            ];
            let interval_value = Value::Integer(interval as int);
            let peers_value = Value::List(peer_values(peers));
            let optional = seq![
                match warning_message {
                    Some(text) => Some(Value::Bytes(encode_utf8(text))),
                    None => None,
                },
                optional_integer(min_interval),
                match tracker_id {
                    Some(id) => Some(Value::Bytes(id)),
                    None => None,
                },
                optional_integer(complete),
                optional_integer(incomplete),
            ];
            let entries = success_entries(keys, interval_value, peers_value, optional);
            assert(response_value(r) == Value::Dict(entries));
            assert forall|i: int| 0 <= i < peer_values(peers).len() implies canonical(
                #[trigger] peer_values(peers)[i],
            ) && representable(peer_values(peers)[i]) by {
                law_peer_round_trip(peers[i], now);
            }
            lemma_success_well_formed(keys, interval_value, peers_value, optional);
            lemma_success_get(keys, interval_value, peers_value, optional, failure);
            lemma_success_get(keys, interval_value, peers_value, optional, keys[0]);
            lemma_success_get(keys, interval_value, peers_value, optional, keys[1]);
            lemma_success_get(keys, interval_value, peers_value, optional, keys[2]);
            lemma_success_get(keys, interval_value, peers_value, optional, keys[3]);
            lemma_success_get(keys, interval_value, peers_value, optional, keys[4]);
            lemma_success_get(keys, interval_value, peers_value, optional, keys[5]);
            lemma_success_get(keys, interval_value, peers_value, optional, keys[6]);
            assert(peers.subrange(0, 0) =~= Seq::empty());
            lemma_peers_read_back(peers, 0, Seq::empty(), now);
            if let Some(text) = warning_message {
                law_text_read_back(text);
            }
            assert(dict_get(entries, failure) is None);
            assert(dict_get(entries, keys[0]) == Some(interval_value));
            assert(dict_get(entries, keys[1]) == Some(peers_value));
            assert(dict_get(entries, keys[2]) == optional[0]);
            assert(dict_get(entries, keys[3]) == optional[1]);
            assert(dict_get(entries, keys[4]) == optional[2]);
            assert(dict_get(entries, keys[5]) == optional[3]);
            assert(dict_get(entries, keys[6]) == optional[4]);
        },
        ResponseView::Failure { failure_reason } => {
            let none = Seq::<(Seq<u8>, Value)>::empty();
            let reason = Value::Bytes(encode_utf8(failure_reason));
            assert(well_formed(none));
            lemma_insert_well_formed(none, failure, reason);
            lemma_dict_get_after_insert(none, failure, reason, failure);
            law_text_read_back(failure_reason);
        },
    }
    law_decode_encode(response_value(r));
}

} // verus!

//! What a client writes of a request is what the tracker reads.

use vstd::prelude::*;
use vstd::string::StringSliceAdditionalSpecFns;
use crate::bencode::decimal::{decimal, lemma_decimal_read_back, lemma_decimal_shape};
use crate::net::ipv4::ipv4_text;
use crate::net::ipv6::{
    groups_of, hex_numeral, is_mapped, joined, longest_run, longest_run_start, mapped_prefix,
};
use crate::net::{ip_text, IpAddr};
use crate::number::parse_unsigned;
use crate::query::{escaped, url_encoded};
use crate::text::lemma_literal_bytes;
use crate::tracker::query_string::{event_text, flag_text, optional_clause, query_string_of};
use crate::tracker::request::{
    apply_clause, find_byte, lemma_find_byte_found, parse_clauses, parse_event, Event, Fields,
    RequestError, RequestView, BYTE_AMPERSAND, BYTE_EQUALS,
};

verus! {

/// Whether neither `&` nor `=` stands in the bytes.
pub open spec fn is_plain(bytes: Seq<u8>) -> bool {
    forall|i: int|
        0 <= i < bytes.len() ==> #[trigger] bytes[i] != BYTE_AMPERSAND && bytes[i] != BYTE_EQUALS
}

/// A clause as it is written: the key, `=`, and the value.
pub open spec fn clause_text(key: Seq<u8>, value: Seq<u8>) -> Seq<u8> {
    key + seq![BYTE_EQUALS] + value
}

/// Where a clause stands at `pos`, up to a `&` or the end of the text, the
/// clause ends at that `&` or end, its key ends at its first `=`, and the
/// key and the value are the stretches before and after that.
pub proof fn lemma_clause_shape(s: Seq<u8>, pos: int, key: Seq<u8>, value: Seq<u8>)
    requires
        0 <= pos,
        pos + clause_text(key, value).len() <= s.len(),
        s.subrange(pos, pos + clause_text(key, value).len()) == clause_text(key, value),
        pos + clause_text(key, value).len() < s.len() ==> s[pos + clause_text(key, value).len()]
            == BYTE_AMPERSAND,
        is_plain(key),
        is_plain(value),
    ensures
        find_byte(s, pos, s.len() as int, BYTE_AMPERSAND) == pos + clause_text(key, value).len(),
        find_byte(s, pos, pos + clause_text(key, value).len(), BYTE_EQUALS) == pos + key.len(),
        s.subrange(pos, pos + key.len()) == key,
        s.subrange(pos + key.len() + 1, pos + clause_text(key, value).len()) == value,
{
    let c = clause_text(key, value);
    let end = pos + c.len();
    let eq = pos + key.len();
    assert forall|i: int| 0 <= i < c.len() implies s[pos + i] == #[trigger] c[i] by {
        assert(s.subrange(pos, end)[i] == s[pos + i]);
    }
    assert forall|i: int| pos <= i < end implies s[i] != BYTE_AMPERSAND by {
        let k = i - pos;
        assert(s[pos + k] == c[k]);
        if k < key.len() {
            assert(c[k] == key[k]);
        } else if k > key.len() {
            assert(c[k] == value[k - key.len() - 1]);
        }
    }
    lemma_find_byte_found(s, pos, s.len() as int, BYTE_AMPERSAND, end);
    assert forall|i: int| pos <= i < eq implies s[i] != BYTE_EQUALS by {
        let k = i - pos;
        assert(s[pos + k] == c[k]);
        assert(c[k] == key[k]);
    }
    assert(s[eq] == BYTE_EQUALS) by {
        assert(s[pos + key.len()] == c[key.len() as int]);
    }
    lemma_find_byte_found(s, pos, end, BYTE_EQUALS, eq);
    assert(s.subrange(pos, eq) =~= key) by {
        assert forall|i: int| 0 <= i < key.len() implies s[pos + i] == key[i] by {
            assert(c[i] == key[i]);
        }
    }
    assert(s.subrange(eq + 1, end) =~= value) by {
        assert forall|i: int| 0 <= i < value.len() implies s[eq + 1 + i] == value[i] by {
            assert(s[pos + (key.len() + 1 + i)] == c[key.len() + 1 + i]);
            assert(c[key.len() + 1 + i] == value[i]);
        }
    }
}

/// What has been read after the first of the clauses that stand at `pos`:
/// where the clause is taken, reading goes on after the `&` that may
/// follow it.
pub proof fn lemma_clause_step(s: Seq<u8>, pos: int, key: Seq<u8>, value: Seq<u8>, fields: Fields)
    requires
        0 <= pos,
        pos + clause_text(key, value).len() <= s.len(),
        s.subrange(pos, pos + clause_text(key, value).len()) == clause_text(key, value),
        pos + clause_text(key, value).len() < s.len() ==> s[pos + clause_text(key, value).len()]
            == BYTE_AMPERSAND,
        is_plain(key),
        is_plain(value),
    ensures
        parse_clauses(s, pos, fields) == match apply_clause(fields, key, value) {
            Err(e) => Err(e),
            Ok(next) => if pos + clause_text(key, value).len() < s.len() {
                parse_clauses(s, pos + clause_text(key, value).len() + 1, next)
            } else {
                Ok(next)
            },
        },
{
    lemma_clause_shape(s, pos, key, value);
}

/// The bytes of the key `info_hash`.
proof fn lemma_key_info_hash()
    ensures
        "info_hash".spec_bytes() == seq![105u8, 110, 102, 111, 95, 104, 97, 115, 104],
{
    reveal_strlit("info_hash");
    let text = "info_hash";
    assert(vstd::string::is_ascii(text));
    lemma_literal_bytes(text);
    assert(text.spec_bytes() =~= seq![105u8, 110, 102, 111, 95, 104, 97, 115, 104]);
}

/// The bytes of the key `peer_id`.
proof fn lemma_key_peer_id()
    ensures
        "peer_id".spec_bytes() == seq![112u8, 101, 101, 114, 95, 105, 100],
{
    reveal_strlit("peer_id");
    let text = "peer_id";
    assert(vstd::string::is_ascii(text));
    lemma_literal_bytes(text);
    assert(text.spec_bytes() =~= seq![112u8, 101, 101, 114, 95, 105, 100]);
}

/// The bytes of the key `ip`.
proof fn lemma_key_ip()
    ensures
        "ip".spec_bytes() == seq![105u8, 112],
{
    reveal_strlit("ip");
    let text = "ip";
    assert(vstd::string::is_ascii(text));
    lemma_literal_bytes(text);
    assert(text.spec_bytes() =~= seq![105u8, 112]);
}

/// The bytes of the key `port`.
proof fn lemma_key_port()
    ensures
        "port".spec_bytes() == seq![112u8, 111, 114, 116],
{
    reveal_strlit("port");
    let text = "port";
    assert(vstd::string::is_ascii(text));
    lemma_literal_bytes(text);
    assert(text.spec_bytes() =~= seq![112u8, 111, 114, 116]);
}

/// The bytes of the key `uploaded`.
proof fn lemma_key_uploaded()
    ensures
        "uploaded".spec_bytes() == seq![117u8, 112, 108, 111, 97, 100, 101, 100],
{
    reveal_strlit("uploaded");
    let text = "uploaded";
    assert(vstd::string::is_ascii(text));
    lemma_literal_bytes(text);
    assert(text.spec_bytes() =~= seq![117u8, 112, 108, 111, 97, 100, 101, 100]);
}

/// The bytes of the key `downloaded`.
proof fn lemma_key_downloaded()
    ensures
        "downloaded".spec_bytes() == seq![100u8, 111, 119, 110, 108, 111, 97, 100, 101, 100],
{
    reveal_strlit("downloaded");
    let text = "downloaded";
    assert(vstd::string::is_ascii(text));
    lemma_literal_bytes(text);
    assert(text.spec_bytes() =~= seq![100u8, 111, 119, 110, 108, 111, 97, 100, 101, 100]);
}

/// The bytes of the key `left`.
proof fn lemma_key_left()
    ensures
        "left".spec_bytes() == seq![108u8, 101, 102, 116],
{
    reveal_strlit("left");
    let text = "left";
    assert(vstd::string::is_ascii(text));
    lemma_literal_bytes(text);
    assert(text.spec_bytes() =~= seq![108u8, 101, 102, 116]);
}

/// The bytes of the key `event`.
proof fn lemma_key_event()
    ensures
        "event".spec_bytes() == seq![101u8, 118, 101, 110, 116],
{
    reveal_strlit("event");
    let text = "event";
    assert(vstd::string::is_ascii(text));
    lemma_literal_bytes(text);
    assert(text.spec_bytes() =~= seq![101u8, 118, 101, 110, 116]);
}

/// The bytes of the key `numwant`.
proof fn lemma_key_numwant()
    ensures
        "numwant".spec_bytes() == seq![110u8, 117, 109, 119, 97, 110, 116],
{
    reveal_strlit("numwant");
    let text = "numwant";
    assert(vstd::string::is_ascii(text));
    lemma_literal_bytes(text);
    assert(text.spec_bytes() =~= seq![110u8, 117, 109, 119, 97, 110, 116]);
}

/// The bytes of the key `key`.
proof fn lemma_key_key()
    ensures
        "key".spec_bytes() == seq![107u8, 101, 121],
{
    reveal_strlit("key");
    let text = "key";
    assert(vstd::string::is_ascii(text));
    lemma_literal_bytes(text);
    assert(text.spec_bytes() =~= seq![107u8, 101, 121]);
}

/// The bytes of the key `compact`.
proof fn lemma_key_compact()
    ensures
        "compact".spec_bytes() == seq![99u8, 111, 109, 112, 97, 99, 116],
{
    reveal_strlit("compact");
    let text = "compact";
    assert(vstd::string::is_ascii(text));
    lemma_literal_bytes(text);
    assert(text.spec_bytes() =~= seq![99u8, 111, 109, 112, 97, 99, 116]);
}

/// The bytes of the key `supportcrypto`.
proof fn lemma_key_supportcrypto()
    ensures
        "supportcrypto".spec_bytes() == seq![115u8, 117, 112, 112, 111, 114, 116, 99, 114, 121, 112, 116, 111],
{
    reveal_strlit("supportcrypto");
    let text = "supportcrypto";
    assert(vstd::string::is_ascii(text));
    lemma_literal_bytes(text);
    assert(text.spec_bytes() =~= seq![115u8, 117, 112, 112, 111, 114, 116, 99, 114, 121, 112, 116, 111]);
}

/// The bytes of the key `requirecrypto`.
proof fn lemma_key_requirecrypto()
    ensures
        "requirecrypto".spec_bytes() == seq![114u8, 101, 113, 117, 105, 114, 101, 99, 114, 121, 112, 116, 111],
{
    reveal_strlit("requirecrypto");
    let text = "requirecrypto";
    assert(vstd::string::is_ascii(text));
    lemma_literal_bytes(text);
    assert(text.spec_bytes() =~= seq![114u8, 101, 113, 117, 105, 114, 101, 99, 114, 121, 112, 116, 111]);
}

/// The bytes of the key `no_peer_id`.
proof fn lemma_key_no_peer_id()
    ensures
        "no_peer_id".spec_bytes() == seq![110u8, 111, 95, 112, 101, 101, 114, 95, 105, 100],
{
    reveal_strlit("no_peer_id");
    let text = "no_peer_id";
    assert(vstd::string::is_ascii(text));
    lemma_literal_bytes(text);
    assert(text.spec_bytes() =~= seq![110u8, 111, 95, 112, 101, 101, 114, 95, 105, 100]);
}

/// The bytes of the key `trackerid`.
proof fn lemma_key_trackerid()
    ensures
        "trackerid".spec_bytes() == seq![116u8, 114, 97, 99, 107, 101, 114, 105, 100],
{
    reveal_strlit("trackerid");
    let text = "trackerid";
    assert(vstd::string::is_ascii(text));
    lemma_literal_bytes(text);
    assert(text.spec_bytes() =~= seq![116u8, 114, 97, 99, 107, 101, 114, 105, 100]);
}

/// The keys of a query string: how long each is, how each starts, and that
/// none holds `&` or `=`.
pub proof fn lemma_key_literals()
    ensures
        "info_hash".spec_bytes().len() == 9,
        "info_hash".spec_bytes()[0] == 105,
        is_plain("info_hash".spec_bytes()),
        "peer_id".spec_bytes().len() == 7,
        "peer_id".spec_bytes()[0] == 112,
        is_plain("peer_id".spec_bytes()),
        "ip".spec_bytes().len() == 2,
        "ip".spec_bytes()[0] == 105,
        is_plain("ip".spec_bytes()),
        "port".spec_bytes().len() == 4,
        "port".spec_bytes()[0] == 112,
        is_plain("port".spec_bytes()),
        "uploaded".spec_bytes().len() == 8,
        "uploaded".spec_bytes()[0] == 117,
        is_plain("uploaded".spec_bytes()),
        "downloaded".spec_bytes().len() == 10,
        "downloaded".spec_bytes()[0] == 100,
        is_plain("downloaded".spec_bytes()),
        "left".spec_bytes().len() == 4,
        "left".spec_bytes()[0] == 108,
        is_plain("left".spec_bytes()),
        "event".spec_bytes().len() == 5,
        "event".spec_bytes()[0] == 101,
        is_plain("event".spec_bytes()),
        "numwant".spec_bytes().len() == 7,
        "numwant".spec_bytes()[0] == 110,
        is_plain("numwant".spec_bytes()),
        "key".spec_bytes().len() == 3,
        "key".spec_bytes()[0] == 107,
        is_plain("key".spec_bytes()),
        "compact".spec_bytes().len() == 7,
        "compact".spec_bytes()[0] == 99,
        is_plain("compact".spec_bytes()),
        "supportcrypto".spec_bytes().len() == 13,
        "supportcrypto".spec_bytes()[0] == 115,
        is_plain("supportcrypto".spec_bytes()),
        "requirecrypto".spec_bytes().len() == 13,
        "requirecrypto".spec_bytes()[0] == 114,
        is_plain("requirecrypto".spec_bytes()),
        "no_peer_id".spec_bytes().len() == 10,
        "no_peer_id".spec_bytes()[0] == 110,
        is_plain("no_peer_id".spec_bytes()),
        "trackerid".spec_bytes().len() == 9,
        "trackerid".spec_bytes()[0] == 116,
        is_plain("trackerid".spec_bytes()),
{
    lemma_key_info_hash();
    lemma_key_peer_id();
    lemma_key_ip();
    lemma_key_port();
    lemma_key_uploaded();
    lemma_key_downloaded();
    lemma_key_left();
    lemma_key_event();
    lemma_key_numwant();
    lemma_key_key();
    lemma_key_compact();
    lemma_key_supportcrypto();
    lemma_key_requirecrypto();
    lemma_key_no_peer_id();
    lemma_key_trackerid();
}

/// A number that is written in decimal is read back.
pub proof fn lemma_parse_unsigned_decimal(n: nat, max: nat)
    requires
        n <= max,
    ensures
        parse_unsigned(decimal(n), max) == Some(n),
{
    let d = decimal(n);
    lemma_decimal_shape(n);
    assert(d.subrange(0, d.len() as int) =~= d);
    lemma_decimal_read_back(d, 0, n);
}

/// Two stretches without `&` and `=` make a stretch without them.
pub proof fn lemma_plain_concat(a: Seq<u8>, b: Seq<u8>)
    requires
        is_plain(a),
        is_plain(b),
    ensures
        is_plain(a + b),
{
    assert forall|i: int| 0 <= i < (a + b).len() implies #[trigger] (a + b)[i] != BYTE_AMPERSAND
        && (a + b)[i] != BYTE_EQUALS by {
        if i < a.len() {
            assert((a + b)[i] == a[i]);
        } else {
            assert((a + b)[i] == b[i - a.len()]);
        }
    }
}

/// A number in decimal holds neither `&` nor `=`.
pub proof fn lemma_decimal_plain(n: nat)
    ensures
        is_plain(decimal(n)),
{
    lemma_decimal_shape(n);
}

/// A percent-encoded byte string holds neither `&` nor `=`.
pub proof fn lemma_url_encoded_plain(bytes: Seq<u8>)
    ensures
        is_plain(url_encoded(bytes)),
    decreases bytes.len(),
{
    if bytes.len() > 0 {
        lemma_url_encoded_plain(bytes.drop_first());
        lemma_plain_concat(escaped(bytes[0]), url_encoded(bytes.drop_first()));
    }
}

proof fn lemma_hex_numeral_plain(n: nat)
    ensures
        is_plain(hex_numeral(n)),
    decreases n,
{
    if n >= 16 {
        lemma_hex_numeral_plain(n / 16);
    }
}

proof fn lemma_joined_plain(groups: Seq<u16>)
    ensures
        is_plain(joined(groups)),
    decreases groups.len(),
{
    if groups.len() == 1 {
        lemma_hex_numeral_plain(groups[0] as nat);
    } else if groups.len() > 1 {
        lemma_joined_plain(groups.drop_last());
        lemma_hex_numeral_plain(groups.last() as nat);
        lemma_plain_concat(joined(groups.drop_last()), seq![58u8]);
        lemma_plain_concat(joined(groups.drop_last()) + seq![58u8], hex_numeral(groups.last() as nat));
    }
}

proof fn lemma_ipv4_text_plain(a: u32)
    ensures
        is_plain(ipv4_text(a)),
{
    let d0 = decimal((a / 16777216) as nat);
    let d1 = decimal((a / 65536 % 256) as nat);
    let d2 = decimal((a / 256 % 256) as nat);
    let d3 = decimal((a % 256) as nat);
    lemma_decimal_plain((a / 16777216) as nat);
    lemma_decimal_plain((a / 65536 % 256) as nat);
    lemma_decimal_plain((a / 256 % 256) as nat);
    lemma_decimal_plain((a % 256) as nat);
    let dot = seq![46u8];
    lemma_plain_concat(d0, dot);
    lemma_plain_concat(d0 + dot, d1);
    lemma_plain_concat(d0 + dot + d1, dot);
    lemma_plain_concat(d0 + dot + d1 + dot, d2);
    lemma_plain_concat(d0 + dot + d1 + dot + d2, dot);
    lemma_plain_concat(d0 + dot + d1 + dot + d2 + dot, d3);
}

/// The text of an address holds neither `&` nor `=`.
pub proof fn lemma_ip_text_plain(ip: IpAddr)
    ensures
        is_plain(ip_text(ip)),
{
    match ip {
        IpAddr::V4(a) => {
            lemma_ipv4_text_plain(a);
        },
        IpAddr::V6(a) => {
            let groups = groups_of(a);
            if is_mapped(groups) {
                lemma_ipv4_text_plain((a % 0x1_0000_0000) as u32);
                lemma_plain_concat(mapped_prefix(), ipv4_text((a % 0x1_0000_0000) as u32));
            } else if longest_run(groups, 0) > 1 {
                let before = groups.take(longest_run_start(groups, 0));
                let after = groups.skip(longest_run_start(groups, 0) + longest_run(groups, 0));
                lemma_joined_plain(before);
                lemma_joined_plain(after);
                lemma_plain_concat(joined(before), seq![58u8, 58u8]);
                lemma_plain_concat(joined(before) + seq![58u8, 58u8], joined(after));
            } else {
                lemma_joined_plain(groups);
            }
        },
    }
}

/// The names of the events: none holds `&` or `=`, and each is read back.
pub proof fn lemma_event_text(event: Event)
    ensures
        is_plain(event_text(event)),
        parse_event(event_text(event)) == Some(event),
{
    reveal_strlit("started");
    reveal_strlit("completed");
    reveal_strlit("stopped");
    let a = "started";
    let b = "completed";
    let c = "stopped";
    assert(vstd::string::is_ascii(a));
    assert(vstd::string::is_ascii(b));
    assert(vstd::string::is_ascii(c));
    lemma_literal_bytes(a);
    lemma_literal_bytes(b);
    lemma_literal_bytes(c);
    assert(a.spec_bytes()[2] != c.spec_bytes()[2]);
}

/// The texts of a flag: neither holds `&` or `=`, and only that of a set
/// flag is `1`.
pub proof fn lemma_flag_text(flag: bool)
    ensures
        is_plain(flag_text(flag)),
        (flag_text(flag) == "1".spec_bytes()) == flag,
{
    reveal_strlit("1");
    reveal_strlit("0");
    let a = "1";
    let b = "0";
    assert(vstd::string::is_ascii(a));
    assert(vstd::string::is_ascii(b));
    lemma_literal_bytes(a);
    lemma_literal_bytes(b);
    assert(a.spec_bytes()[0] != b.spec_bytes()[0]);
}

/// The clause of the info-hash is read as the info-hash.
pub proof fn lemma_apply_info_hash(fields: Fields, hash: Seq<u8>)
    requires
        hash.len() == 20,
    ensures
        apply_clause(fields, "info_hash".spec_bytes(), url_encoded(hash)) == Ok::<
            Fields,
            RequestError,
        >(Fields { info_hash: Some(hash), ..fields }),
{
    lemma_key_literals();
    crate::query::law_qs_decode_encoded(hash);
}

/// The clause of the peer id is read as the peer id.
pub proof fn lemma_apply_peer_id(fields: Fields, id: Seq<u8>)
    requires
        id.len() == 20,
    ensures
        apply_clause(fields, "peer_id".spec_bytes(), url_encoded(id)) == Ok::<
            Fields,
            RequestError,
        >(Fields { peer_id: Some(id), ..fields }),
{
    lemma_key_literals();
    crate::query::law_qs_decode_encoded(id);
}

/// The clause of the address is read as the address.
pub proof fn lemma_apply_ip(fields: Fields, ip: IpAddr)
    ensures
        apply_clause(fields, "ip".spec_bytes(), ip_text(ip)) == Ok::<Fields, RequestError>(
            Fields { ip: Some(ip), ..fields },
        ),
{
    lemma_key_literals();
    crate::net::law_ip_text_round_trip(ip);
}

/// The clause of the port is read as the port.
pub proof fn lemma_apply_port(fields: Fields, port: u16)
    ensures
        apply_clause(fields, "port".spec_bytes(), decimal(port as nat)) == Ok::<
            Fields,
            RequestError,
        >(Fields { port: Some(port), ..fields }),
{
    lemma_key_literals();
    lemma_parse_unsigned_decimal(port as nat, u16::MAX as nat);
}

/// The clause of the count `uploaded` is read as that count.
pub proof fn lemma_apply_uploaded(fields: Fields, n: u64)
    ensures
        apply_clause(fields, "uploaded".spec_bytes(), decimal(n as nat)) == Ok::<
            Fields,
            RequestError,
        >(Fields { uploaded: Some(n), ..fields }),
{
    lemma_key_literals();
    lemma_parse_unsigned_decimal(n as nat, u64::MAX as nat);
}

/// The clause of the count `downloaded` is read as that count.
pub proof fn lemma_apply_downloaded(fields: Fields, n: u64)
    ensures
        apply_clause(fields, "downloaded".spec_bytes(), decimal(n as nat)) == Ok::<
            Fields,
            RequestError,
        >(Fields { downloaded: Some(n), ..fields }),
{
    lemma_key_literals();
    lemma_parse_unsigned_decimal(n as nat, u64::MAX as nat);
}

/// The clause of the count `left` is read as that count.
pub proof fn lemma_apply_left(fields: Fields, n: u64)
    ensures
        apply_clause(fields, "left".spec_bytes(), decimal(n as nat)) == Ok::<
            Fields,
            RequestError,
        >(Fields { left: Some(n), ..fields }),
{
    lemma_key_literals();
    lemma_parse_unsigned_decimal(n as nat, u64::MAX as nat);
}

/// The clause of the count `numwant` is read as that count.
pub proof fn lemma_apply_numwant(fields: Fields, n: u64)
    ensures
        apply_clause(fields, "numwant".spec_bytes(), decimal(n as nat)) == Ok::<
            Fields,
            RequestError,
        >(Fields { numwant: Some(n), ..fields }),
{
    lemma_key_literals();
    lemma_parse_unsigned_decimal(n as nat, u64::MAX as nat);
}

/// The clause of the event is read as the event.
pub proof fn lemma_apply_event(fields: Fields, event: Event)
    ensures
        apply_clause(fields, "event".spec_bytes(), event_text(event)) == Ok::<
            Fields,
            RequestError,
        >(Fields { event: Some(event), ..fields }),
{
    lemma_key_literals();
    lemma_event_text(event);
}

/// The clause of the key is read as the key.
pub proof fn lemma_apply_key(fields: Fields, key: Seq<u8>)
    ensures
        apply_clause(fields, "key".spec_bytes(), url_encoded(key)) == Ok::<Fields, RequestError>(
            Fields { key: Some(key), ..fields },
        ),
{
    lemma_key_literals();
    crate::query::law_qs_decode_all_encoded(key);
}

/// The clause of the tracker id is read as the tracker id.
pub proof fn lemma_apply_trackerid(fields: Fields, id: Seq<u8>)
    ensures
        apply_clause(fields, "trackerid".spec_bytes(), url_encoded(id)) == Ok::<
            Fields,
            RequestError,
        >(Fields { trackerid: Some(id), ..fields }),
{
    lemma_key_literals();
    crate::query::law_qs_decode_all_encoded(id);
}

/// The clause of the flag `compact` is read as that flag.
pub proof fn lemma_apply_compact(fields: Fields, flag: bool)
    ensures
        apply_clause(fields, "compact".spec_bytes(), flag_text(flag)) == Ok::<
            Fields,
            RequestError,
        >(Fields { compact: Some(flag), ..fields }),
{
    lemma_key_literals();
    lemma_flag_text(flag);
}

/// The clause of the flag `supportcrypto` is read as that flag.
pub proof fn lemma_apply_supportcrypto(fields: Fields, flag: bool)
    ensures
        apply_clause(fields, "supportcrypto".spec_bytes(), flag_text(flag)) == Ok::<
            Fields,
            RequestError,
        >(Fields { supportcrypto: Some(flag), ..fields }),
{
    lemma_key_literals();
    lemma_flag_text(flag);
}

/// The clause of the flag `requirecrypto` is read as that flag.
pub proof fn lemma_apply_requirecrypto(fields: Fields, flag: bool)
    ensures
        apply_clause(fields, "requirecrypto".spec_bytes(), flag_text(flag)) == Ok::<
            Fields,
            RequestError,
        >(Fields { requirecrypto: Some(flag), ..fields }),
{
    lemma_key_literals();
    lemma_flag_text(flag);
}

/// The clause of the flag `no_peer_id` is read as that flag.
pub proof fn lemma_apply_no_peer_id(fields: Fields, flag: bool)
    ensures
        apply_clause(fields, "no_peer_id".spec_bytes(), flag_text(flag)) == Ok::<
            Fields,
            RequestError,
        >(Fields { no_peer_id: Some(flag), ..fields }),
{
    lemma_key_literals();
    lemma_flag_text(flag);
}

/// Clauses as they are written, with `&` between them.
pub open spec fn rendered(clauses: Seq<(Seq<u8>, Seq<u8>)>) -> Seq<u8>
    decreases clauses.len(),
{
    if clauses.len() == 0 {
        Seq::empty()
    } else if clauses.len() == 1 {
        clause_text(clauses[0].0, clauses[0].1)
    } else {
        rendered(clauses.drop_last()) + seq![BYTE_AMPERSAND] + clause_text(
            clauses.last().0,
            clauses.last().1,
        )
    }
}

/// What has been read after the clauses, one after the other, up to the
/// first that is not taken.
pub open spec fn applied(clauses: Seq<(Seq<u8>, Seq<u8>)>, fields: Fields) -> Result<
    Fields,
    RequestError,
>
    decreases clauses.len(),
{
    if clauses.len() == 0 {
        Ok(fields)
    } else {
        match apply_clause(fields, clauses[0].0, clauses[0].1) {
            Err(e) => Err(e),
            Ok(next) => applied(clauses.drop_first(), next),
        }
    }
}

/// Whether no key holds `&` or `=`, and no value.
pub open spec fn all_plain(clauses: Seq<(Seq<u8>, Seq<u8>)>) -> bool {
    forall|i: int|
        0 <= i < clauses.len() ==> is_plain((#[trigger] clauses[i]).0) && is_plain(clauses[i].1)
}

proof fn lemma_rendered_front(clauses: Seq<(Seq<u8>, Seq<u8>)>)
    requires
        clauses.len() >= 2,
    ensures
        rendered(clauses) == clause_text(clauses[0].0, clauses[0].1) + seq![BYTE_AMPERSAND]
            + rendered(clauses.drop_first()),
    decreases clauses.len(),
{
    let first = clause_text(clauses[0].0, clauses[0].1);
    let last = clause_text(clauses.last().0, clauses.last().1);
    let front = clauses.drop_last();
    let rest = clauses.drop_first();
    if clauses.len() == 2 {
        assert(front[0] == clauses[0]);
        assert(rest[0] == clauses[1]);
        assert(rendered(front) == first);
        assert(rendered(rest) == last);
    } else {
        lemma_rendered_front(front);
        assert(front[0] == clauses[0]);
        assert(front.drop_first() =~= rest.drop_last());
        assert(rest.last() == clauses.last());
        assert(rendered(clauses) =~= first + seq![BYTE_AMPERSAND] + rendered(rest));
    }
}

proof fn lemma_applied_push(
    clauses: Seq<(Seq<u8>, Seq<u8>)>,
    clause: (Seq<u8>, Seq<u8>),
    fields: Fields,
)
    ensures
        applied(clauses.push(clause), fields) == match applied(clauses, fields) {
            Ok(next) => apply_clause(next, clause.0, clause.1),
            Err(e) => Err(e),
        },
    decreases clauses.len(),
{
    let all = clauses.push(clause);
    if clauses.len() == 0 {
        assert(all =~= seq![clause]);
        lemma_applied_one(clause, fields);
        assert(applied(clauses, fields) == Ok::<Fields, RequestError>(fields));
    } else {
        assert(all.drop_first() =~= clauses.drop_first().push(clause));
        assert(all[0] == clauses[0]);
        match apply_clause(fields, clauses[0].0, clauses[0].1) {
            Ok(next) => {
                lemma_applied_push(clauses.drop_first(), clause, next);
            },
            Err(_) => {},
        }
    }
}

proof fn lemma_applied_one(clause: (Seq<u8>, Seq<u8>), fields: Fields)
    ensures
        applied(seq![clause], fields) == apply_clause(fields, clause.0, clause.1),
{
    let one = seq![clause];
    assert(one.drop_first() =~= Seq::<(Seq<u8>, Seq<u8>)>::empty());
    assert(one[0] == clause);
    match apply_clause(fields, clause.0, clause.1) {
        Ok(next) => {
            assert(applied(one.drop_first(), next) == Ok::<Fields, RequestError>(next));
        },
        Err(_) => {},
    }
}

/// Clauses that are written, none holding `&` or `=` but between them, are
/// read one after the other.
pub proof fn lemma_parse_rendered(
    s: Seq<u8>,
    pos: int,
    clauses: Seq<(Seq<u8>, Seq<u8>)>,
    fields: Fields,
)
    requires
        clauses.len() >= 1,
        all_plain(clauses),
        0 <= pos <= s.len(),
        s.skip(pos) == rendered(clauses),
    ensures
        parse_clauses(s, pos, fields) == applied(clauses, fields),
    decreases clauses.len(),
{
    let key = clauses[0].0;
    let value = clauses[0].1;
    let first = clause_text(key, value);
    let rest = clauses.drop_first();
    assert(is_plain(key) && is_plain(value));
    if clauses.len() == 1 {
        assert(s.skip(pos).len() == first.len());
        assert(s.subrange(pos, pos + first.len()) =~= s.skip(pos));
        lemma_clause_step(s, pos, key, value, fields);
        match apply_clause(fields, key, value) {
            Ok(next) => {
                assert(rest =~= Seq::<(Seq<u8>, Seq<u8>)>::empty());
                assert(applied(rest, next) == Ok::<Fields, RequestError>(next));
            },
            Err(_) => {},
        }
    } else {
        lemma_rendered_front(clauses);
        let tail = rendered(rest);
        let whole = first + seq![BYTE_AMPERSAND] + tail;
        assert(s.skip(pos).len() == first.len() + 1 + tail.len());
        assert(s.subrange(pos, pos + first.len()) =~= first) by {
            assert forall|i: int| 0 <= i < first.len() implies s[pos + i] == first[i] by {
                assert(s.skip(pos)[i] == s[pos + i]);
                assert(whole[i] == first[i]);
            }
        }
        assert(s[pos + first.len()] == BYTE_AMPERSAND) by {
            assert(s.skip(pos)[first.len() as int] == s[pos + first.len()]);
            assert(whole[first.len() as int] == BYTE_AMPERSAND);
        }
        assert(s.skip(pos + first.len() + 1) =~= tail) by {
            assert forall|i: int| 0 <= i < tail.len() implies s[pos + first.len() + 1 + i]
                == tail[i] by {
                assert(s.skip(pos)[first.len() + 1 + i] == s[pos + (first.len() + 1 + i)]);
                assert(whole[first.len() + 1 + i] == tail[i]);
            }
        }
        lemma_clause_step(s, pos, key, value, fields);
        assert forall|i: int| 0 <= i < rest.len() implies is_plain((#[trigger] rest[i]).0)
            && is_plain(rest[i].1) by {
            assert(rest[i] == clauses[i + 1]);
        }
        match apply_clause(fields, key, value) {
            Ok(next) => {
                lemma_parse_rendered(s, pos + first.len() + 1, rest, next);
            },
            Err(_) => {},
        }
    }
}

/// What holds while a query string is built: the text is the clauses as
/// they are written, none of which holds `&` or `=` but between its key
/// and its value, and the fields are what is read of them.
pub open spec fn built(clauses: Seq<(Seq<u8>, Seq<u8>)>, text: Seq<u8>, fields: Fields) -> bool {
    &&& clauses.len() >= 1
    &&& all_plain(clauses)
    &&& text == rendered(clauses)
    &&& applied(clauses, crate::tracker::request::no_fields()) == Ok::<Fields, RequestError>(fields)
}

/// The clauses with one more, where there is a value for it.
pub open spec fn with_clause(
    clauses: Seq<(Seq<u8>, Seq<u8>)>,
    key: Seq<u8>,
    value: Option<Seq<u8>>,
) -> Seq<(Seq<u8>, Seq<u8>)> {
    match value {
        Some(v) => clauses.push((key, v)),
        None => clauses,
    }
}

/// One more clause keeps what holds while a query string is built.
pub proof fn lemma_build_step(
    clauses: Seq<(Seq<u8>, Seq<u8>)>,
    text: Seq<u8>,
    fields: Fields,
    key: Seq<u8>,
    name: Seq<u8>,
    value: Option<Seq<u8>>,
    next: Fields,
)
    requires
        built(clauses, text, fields),
        name == seq![BYTE_AMPERSAND] + key + seq![BYTE_EQUALS],
        is_plain(key),
        match value {
            Some(v) => is_plain(v) && apply_clause(fields, key, v) == Ok::<Fields, RequestError>(
                next,
            ),
            None => next == fields,
        },
    ensures
        built(
            with_clause(clauses, key, value),
            text + crate::tracker::query_string::optional_clause(name, value),
            next,
        ),
{
    match value {
        Some(v) => {
            let all = clauses.push((key, v));
            assert(all.drop_last() =~= clauses);
            assert(all.last() == (key, v));
            assert(rendered(all) =~= text + (name + v));
            lemma_applied_push(clauses, (key, v), crate::tracker::request::no_fields());
            assert forall|i: int| 0 <= i < all.len() implies is_plain((#[trigger] all[i]).0)
                && is_plain(all[i].1) by {
                if i < clauses.len() {
                    assert(all[i] == clauses[i]);
                }
            }
        },
        None => {
            assert(text + Seq::<u8>::empty() =~= text);
        },
    }
}

/// The name `&peer_id=` is `&`, the key and `=`.
proof fn lemma_name_peer_id()
    ensures
        "&peer_id=".spec_bytes() == seq![BYTE_AMPERSAND] + "peer_id".spec_bytes() + seq![BYTE_EQUALS],
{
    reveal_strlit("&peer_id=");
    reveal_strlit("peer_id");
    let name = "&peer_id=";
    let key = "peer_id";
    assert(vstd::string::is_ascii(name));
    assert(vstd::string::is_ascii(key));
    lemma_literal_bytes(name);
    lemma_literal_bytes(key);
    assert(name.spec_bytes() =~= seq![BYTE_AMPERSAND] + key.spec_bytes() + seq![BYTE_EQUALS]);
}

/// The name `&ip=` is `&`, the key and `=`.
proof fn lemma_name_ip()
    ensures
        "&ip=".spec_bytes() == seq![BYTE_AMPERSAND] + "ip".spec_bytes() + seq![BYTE_EQUALS],
{
    reveal_strlit("&ip=");
    reveal_strlit("ip");
    let name = "&ip=";
    let key = "ip";
    assert(vstd::string::is_ascii(name));
    assert(vstd::string::is_ascii(key));
    lemma_literal_bytes(name);
    lemma_literal_bytes(key);
    assert(name.spec_bytes() =~= seq![BYTE_AMPERSAND] + key.spec_bytes() + seq![BYTE_EQUALS]);
}

/// The name `&port=` is `&`, the key and `=`.
proof fn lemma_name_port()
    ensures
        "&port=".spec_bytes() == seq![BYTE_AMPERSAND] + "port".spec_bytes() + seq![BYTE_EQUALS],
{
    reveal_strlit("&port=");
    reveal_strlit("port");
    let name = "&port=";
    let key = "port";
    assert(vstd::string::is_ascii(name));
    assert(vstd::string::is_ascii(key));
    lemma_literal_bytes(name);
    lemma_literal_bytes(key);
    assert(name.spec_bytes() =~= seq![BYTE_AMPERSAND] + key.spec_bytes() + seq![BYTE_EQUALS]);
}

/// The name `&uploaded=` is `&`, the key and `=`.
proof fn lemma_name_uploaded()
    ensures
        "&uploaded=".spec_bytes() == seq![BYTE_AMPERSAND] + "uploaded".spec_bytes() + seq![BYTE_EQUALS],
{
    reveal_strlit("&uploaded=");
    reveal_strlit("uploaded");
    let name = "&uploaded=";
    let key = "uploaded";
    assert(vstd::string::is_ascii(name));
    assert(vstd::string::is_ascii(key));
    lemma_literal_bytes(name);
    lemma_literal_bytes(key);
    assert(name.spec_bytes() =~= seq![BYTE_AMPERSAND] + key.spec_bytes() + seq![BYTE_EQUALS]);
}

/// The name `&downloaded=` is `&`, the key and `=`.
proof fn lemma_name_downloaded()
    ensures
        "&downloaded=".spec_bytes() == seq![BYTE_AMPERSAND] + "downloaded".spec_bytes() + seq![BYTE_EQUALS],
{
    reveal_strlit("&downloaded=");
    reveal_strlit("downloaded");
    let name = "&downloaded=";
    let key = "downloaded";
    assert(vstd::string::is_ascii(name));
    assert(vstd::string::is_ascii(key));
    lemma_literal_bytes(name);
    lemma_literal_bytes(key);
    assert(name.spec_bytes() =~= seq![BYTE_AMPERSAND] + key.spec_bytes() + seq![BYTE_EQUALS]);
}

/// The name `&left=` is `&`, the key and `=`.
proof fn lemma_name_left()
    ensures
        "&left=".spec_bytes() == seq![BYTE_AMPERSAND] + "left".spec_bytes() + seq![BYTE_EQUALS],
{
    reveal_strlit("&left=");
    reveal_strlit("left");
    let name = "&left=";
    let key = "left";
    assert(vstd::string::is_ascii(name));
    assert(vstd::string::is_ascii(key));
    lemma_literal_bytes(name);
    lemma_literal_bytes(key);
    assert(name.spec_bytes() =~= seq![BYTE_AMPERSAND] + key.spec_bytes() + seq![BYTE_EQUALS]);
}

/// The name `&event=` is `&`, the key and `=`.
proof fn lemma_name_event()
    ensures
        "&event=".spec_bytes() == seq![BYTE_AMPERSAND] + "event".spec_bytes() + seq![BYTE_EQUALS],
{
    reveal_strlit("&event=");
    reveal_strlit("event");
    let name = "&event=";
    let key = "event";
    assert(vstd::string::is_ascii(name));
    assert(vstd::string::is_ascii(key));
    lemma_literal_bytes(name);
    lemma_literal_bytes(key);
    assert(name.spec_bytes() =~= seq![BYTE_AMPERSAND] + key.spec_bytes() + seq![BYTE_EQUALS]);
}

/// The name `&numwant=` is `&`, the key and `=`.
proof fn lemma_name_numwant()
    ensures
        "&numwant=".spec_bytes() == seq![BYTE_AMPERSAND] + "numwant".spec_bytes() + seq![BYTE_EQUALS],
{
    reveal_strlit("&numwant=");
    reveal_strlit("numwant");
    let name = "&numwant=";
    let key = "numwant";
    assert(vstd::string::is_ascii(name));
    assert(vstd::string::is_ascii(key));
    lemma_literal_bytes(name);
    lemma_literal_bytes(key);
    assert(name.spec_bytes() =~= seq![BYTE_AMPERSAND] + key.spec_bytes() + seq![BYTE_EQUALS]);
}

/// The name `&key=` is `&`, the key and `=`.
proof fn lemma_name_key()
    ensures
        "&key=".spec_bytes() == seq![BYTE_AMPERSAND] + "key".spec_bytes() + seq![BYTE_EQUALS],
{
    reveal_strlit("&key=");
    reveal_strlit("key");
    let name = "&key=";
    let key = "key";
    assert(vstd::string::is_ascii(name));
    assert(vstd::string::is_ascii(key));
    lemma_literal_bytes(name);
    lemma_literal_bytes(key);
    assert(name.spec_bytes() =~= seq![BYTE_AMPERSAND] + key.spec_bytes() + seq![BYTE_EQUALS]);
}

/// The name `&compact=` is `&`, the key and `=`.
proof fn lemma_name_compact()
    ensures
        "&compact=".spec_bytes() == seq![BYTE_AMPERSAND] + "compact".spec_bytes() + seq![BYTE_EQUALS],
{
    reveal_strlit("&compact=");
    reveal_strlit("compact");
    let name = "&compact=";
    let key = "compact";
    assert(vstd::string::is_ascii(name));
    assert(vstd::string::is_ascii(key));
    lemma_literal_bytes(name);
    lemma_literal_bytes(key);
    assert(name.spec_bytes() =~= seq![BYTE_AMPERSAND] + key.spec_bytes() + seq![BYTE_EQUALS]);
}

/// The name `&supportcrypto=` is `&`, the key and `=`.
proof fn lemma_name_supportcrypto()
    ensures
        "&supportcrypto=".spec_bytes() == seq![BYTE_AMPERSAND] + "supportcrypto".spec_bytes() + seq![BYTE_EQUALS],
{
    reveal_strlit("&supportcrypto=");
    reveal_strlit("supportcrypto");
    let name = "&supportcrypto=";
    let key = "supportcrypto";
    assert(vstd::string::is_ascii(name));
    assert(vstd::string::is_ascii(key));
    lemma_literal_bytes(name);
    lemma_literal_bytes(key);
    assert(name.spec_bytes() =~= seq![BYTE_AMPERSAND] + key.spec_bytes() + seq![BYTE_EQUALS]);
}

/// The name `&requirecrypto=` is `&`, the key and `=`.
proof fn lemma_name_requirecrypto()
    ensures
        "&requirecrypto=".spec_bytes() == seq![BYTE_AMPERSAND] + "requirecrypto".spec_bytes() + seq![BYTE_EQUALS],
{
    reveal_strlit("&requirecrypto=");
    reveal_strlit("requirecrypto");
    let name = "&requirecrypto=";
    let key = "requirecrypto";
    assert(vstd::string::is_ascii(name));
    assert(vstd::string::is_ascii(key));
    lemma_literal_bytes(name);
    lemma_literal_bytes(key);
    assert(name.spec_bytes() =~= seq![BYTE_AMPERSAND] + key.spec_bytes() + seq![BYTE_EQUALS]);
}

/// The name `&no_peer_id=` is `&`, the key and `=`.
proof fn lemma_name_no_peer_id()
    ensures
        "&no_peer_id=".spec_bytes() == seq![BYTE_AMPERSAND] + "no_peer_id".spec_bytes() + seq![BYTE_EQUALS],
{
    reveal_strlit("&no_peer_id=");
    reveal_strlit("no_peer_id");
    let name = "&no_peer_id=";
    let key = "no_peer_id";
    assert(vstd::string::is_ascii(name));
    assert(vstd::string::is_ascii(key));
    lemma_literal_bytes(name);
    lemma_literal_bytes(key);
    assert(name.spec_bytes() =~= seq![BYTE_AMPERSAND] + key.spec_bytes() + seq![BYTE_EQUALS]);
}

/// The name `&trackerid=` is `&`, the key and `=`.
proof fn lemma_name_trackerid()
    ensures
        "&trackerid=".spec_bytes() == seq![BYTE_AMPERSAND] + "trackerid".spec_bytes() + seq![BYTE_EQUALS],
{
    reveal_strlit("&trackerid=");
    reveal_strlit("trackerid");
    let name = "&trackerid=";
    let key = "trackerid";
    assert(vstd::string::is_ascii(name));
    assert(vstd::string::is_ascii(key));
    lemma_literal_bytes(name);
    lemma_literal_bytes(key);
    assert(name.spec_bytes() =~= seq![BYTE_AMPERSAND] + key.spec_bytes() + seq![BYTE_EQUALS]);
}

/// The start `info_hash=` is the key and `=`.
proof fn lemma_name_first()
    ensures
        "info_hash=".spec_bytes() == "info_hash".spec_bytes() + seq![BYTE_EQUALS],
{
    reveal_strlit("info_hash=");
    reveal_strlit("info_hash");
    let name = "info_hash=";
    let key = "info_hash";
    assert(vstd::string::is_ascii(name));
    assert(vstd::string::is_ascii(key));
    lemma_literal_bytes(name);
    lemma_literal_bytes(key);
    assert(name.spec_bytes() =~= key.spec_bytes() + seq![BYTE_EQUALS]);
}

/// The key of the clause that is written at place `k`, counted from 1.
pub open spec fn nth_key(k: int) -> Seq<u8> {
    if k == 1 {
        "info_hash".spec_bytes()
    } else if k == 2 {
        "peer_id".spec_bytes()
    } else if k == 3 {
        "port".spec_bytes()
    } else if k == 4 {
        "uploaded".spec_bytes()
    } else if k == 5 {
        "downloaded".spec_bytes()
    } else if k == 6 {
        "left".spec_bytes()
    } else if k == 7 {
        "ip".spec_bytes()
    } else if k == 8 {
        "event".spec_bytes()
    } else if k == 9 {
        "numwant".spec_bytes()
    } else if k == 10 {
        "key".spec_bytes()
    } else if k == 11 {
        "compact".spec_bytes()
    } else if k == 12 {
        "supportcrypto".spec_bytes()
    } else if k == 13 {
        "requirecrypto".spec_bytes()
    } else if k == 14 {
        "no_peer_id".spec_bytes()
    } else {
        "trackerid".spec_bytes()
    }
}

/// The name before the value of the clause at place `k`, from the second
/// place on: `&`, the key and `=`.
pub open spec fn nth_name(k: int) -> Seq<u8> {
    if k == 1 {
        "info_hash=".spec_bytes()
    } else if k == 2 {
        "&peer_id=".spec_bytes()
    } else if k == 3 {
        "&port=".spec_bytes()
    } else if k == 4 {
        "&uploaded=".spec_bytes()
    } else if k == 5 {
        "&downloaded=".spec_bytes()
    } else if k == 6 {
        "&left=".spec_bytes()
    } else if k == 7 {
        "&ip=".spec_bytes()
    } else if k == 8 {
        "&event=".spec_bytes()
    } else if k == 9 {
        "&numwant=".spec_bytes()
    } else if k == 10 {
        "&key=".spec_bytes()
    } else if k == 11 {
        "&compact=".spec_bytes()
    } else if k == 12 {
        "&supportcrypto=".spec_bytes()
    } else if k == 13 {
        "&requirecrypto=".spec_bytes()
    } else if k == 14 {
        "&no_peer_id=".spec_bytes()
    } else {
        "&trackerid=".spec_bytes()
    }
}

/// The value of the clause at place `k` as it is written, where the request
/// has one.
pub open spec fn nth_value(r: RequestView, k: int) -> Option<Seq<u8>> {
    if k == 1 {
        Some(url_encoded(r.info_hash))
    } else if k == 2 {
        Some(url_encoded(r.peer_id))
    } else if k == 3 {
        Some(decimal(r.port as nat))
    } else if k == 4 {
        Some(decimal(r.uploaded as nat))
    } else if k == 5 {
        Some(decimal(r.downloaded as nat))
    } else if k == 6 {
        Some(decimal(r.left as nat))
    } else if k == 7 {
        match r.ip {
            Some(ip) => Some(ip_text(ip)),
            None => None,
        }
    } else if k == 8 {
        match r.event {
            Some(event) => Some(event_text(event)),
            None => None,
        }
    } else if k == 9 {
        match r.numwant {
            Some(n) => Some(decimal(n as nat)),
            None => None,
        }
    } else if k == 10 {
        match r.key {
            Some(bytes) => Some(url_encoded(bytes)),
            None => None,
        }
    } else if k == 11 {
        match r.compact {
            Some(flag) => Some(flag_text(flag)),
            None => None,
        }
    } else if k == 12 {
        match r.supportcrypto {
            Some(flag) => Some(flag_text(flag)),
            None => None,
        }
    } else if k == 13 {
        match r.requirecrypto {
            Some(flag) => Some(flag_text(flag)),
            None => None,
        }
    } else if k == 14 {
        match r.no_peer_id {
            Some(flag) => Some(flag_text(flag)),
            None => None,
        }
    } else {
        match r.trackerid {
            Some(bytes) => Some(url_encoded(bytes)),
            None => None,
        }
    }
}

/// The fields with what the clause at place `k` gives.
pub open spec fn nth_fields(r: RequestView, k: int, fields: Fields) -> Fields {
    if k == 1 {
        Fields { info_hash: Some(r.info_hash), ..fields }
    } else if k == 2 {
        Fields { peer_id: Some(r.peer_id), ..fields }
    } else if k == 3 {
        Fields { port: Some(r.port), ..fields }
    } else if k == 4 {
        Fields { uploaded: Some(r.uploaded), ..fields }
    } else if k == 5 {
        Fields { downloaded: Some(r.downloaded), ..fields }
    } else if k == 6 {
        Fields { left: Some(r.left), ..fields }
    } else if k == 7 {
        match r.ip {
            Some(value) => Fields { ip: Some(value), ..fields },
            None => fields,
        }
    } else if k == 8 {
        match r.event {
            Some(value) => Fields { event: Some(value), ..fields },
            None => fields,
        }
    } else if k == 9 {
        match r.numwant {
            Some(value) => Fields { numwant: Some(value), ..fields },
            None => fields,
        }
    } else if k == 10 {
        match r.key {
            Some(value) => Fields { key: Some(value), ..fields },
            None => fields,
        }
    } else if k == 11 {
        match r.compact {
            Some(value) => Fields { compact: Some(value), ..fields },
            None => fields,
        }
    } else if k == 12 {
        match r.supportcrypto {
            Some(value) => Fields { supportcrypto: Some(value), ..fields },
            None => fields,
        }
    } else if k == 13 {
        match r.requirecrypto {
            Some(value) => Fields { requirecrypto: Some(value), ..fields },
            None => fields,
        }
    } else if k == 14 {
        match r.no_peer_id {
            Some(value) => Fields { no_peer_id: Some(value), ..fields },
            None => fields,
        }
    } else {
        match r.trackerid {
            Some(value) => Fields { trackerid: Some(value), ..fields },
            None => fields,
        }
    }
}

/// The clauses of the first `k` places.
pub open spec fn stage_clauses(r: RequestView, k: int) -> Seq<(Seq<u8>, Seq<u8>)>
    decreases k,
{
    if k <= 0 {
        Seq::empty()
    } else {
        with_clause(stage_clauses(r, k - 1), nth_key(k), nth_value(r, k))
    }
}

/// The text of the first `k` places.
pub open spec fn stage_text(r: RequestView, k: int) -> Seq<u8>
    decreases k,
{
    if k <= 0 {
        Seq::empty()
    } else {
        stage_text(r, k - 1) + optional_clause(nth_name(k), nth_value(r, k))
    }
}

/// What is read of the first `k` places.
pub open spec fn stage_fields(r: RequestView, k: int) -> Fields
    decreases k,
{
    if k <= 0 {
        crate::tracker::request::no_fields()
    } else {
        nth_fields(r, k, stage_fields(r, k - 1))
    }
}

/// The clause of `info_hash` is taken, and gives its field.
proof fn lemma_place_1(r: RequestView, fields: Fields)
    requires
        r.info_hash.len() == 20,
        r.peer_id.len() == 20,
    ensures
        is_plain(nth_key(1)),
        nth_name(1) == nth_key(1) + seq![BYTE_EQUALS],
        match nth_value(r, 1) {
            Some(v) => is_plain(v) && apply_clause(fields, nth_key(1), v) == Ok::<
                Fields,
                RequestError,
            >(nth_fields(r, 1, fields)),
            None => nth_fields(r, 1, fields) == fields,
        },
{
    lemma_key_info_hash();
    lemma_name_first();
    lemma_url_encoded_plain(r.info_hash);
    lemma_apply_info_hash(fields, r.info_hash);
}

/// The clause of `peer_id` is taken, and gives its field.
proof fn lemma_place_2(r: RequestView, fields: Fields)
    requires
        r.info_hash.len() == 20,
        r.peer_id.len() == 20,
    ensures
        is_plain(nth_key(2)),
        nth_name(2) == seq![BYTE_AMPERSAND] + nth_key(2) + seq![BYTE_EQUALS],
        match nth_value(r, 2) {
            Some(v) => is_plain(v) && apply_clause(fields, nth_key(2), v) == Ok::<
                Fields,
                RequestError,
            >(nth_fields(r, 2, fields)),
            None => nth_fields(r, 2, fields) == fields,
        },
{
    lemma_key_peer_id();
    lemma_name_peer_id();
    lemma_url_encoded_plain(r.peer_id);
    lemma_apply_peer_id(fields, r.peer_id);
}

/// The clause of `port` is taken, and gives its field.
proof fn lemma_place_3(r: RequestView, fields: Fields)
    ensures
        is_plain(nth_key(3)),
        nth_name(3) == seq![BYTE_AMPERSAND] + nth_key(3) + seq![BYTE_EQUALS],
        match nth_value(r, 3) {
            Some(v) => is_plain(v) && apply_clause(fields, nth_key(3), v) == Ok::<
                Fields,
                RequestError,
            >(nth_fields(r, 3, fields)),
            None => nth_fields(r, 3, fields) == fields,
        },
{
    lemma_key_port();
    lemma_name_port();
    lemma_decimal_plain(r.port as nat);
    lemma_apply_port(fields, r.port);
}

/// The clause of `uploaded` is taken, and gives its field.
proof fn lemma_place_4(r: RequestView, fields: Fields)
    ensures
        is_plain(nth_key(4)),
        nth_name(4) == seq![BYTE_AMPERSAND] + nth_key(4) + seq![BYTE_EQUALS],
        match nth_value(r, 4) {
            Some(v) => is_plain(v) && apply_clause(fields, nth_key(4), v) == Ok::<
                Fields,
                RequestError,
            >(nth_fields(r, 4, fields)),
            None => nth_fields(r, 4, fields) == fields,
        },
{
    lemma_key_uploaded();
    lemma_name_uploaded();
    lemma_decimal_plain(r.uploaded as nat);
    lemma_apply_uploaded(fields, r.uploaded);
}

/// The clause of `downloaded` is taken, and gives its field.
proof fn lemma_place_5(r: RequestView, fields: Fields)
    ensures
        is_plain(nth_key(5)),
        nth_name(5) == seq![BYTE_AMPERSAND] + nth_key(5) + seq![BYTE_EQUALS],
        match nth_value(r, 5) {
            Some(v) => is_plain(v) && apply_clause(fields, nth_key(5), v) == Ok::<
                Fields,
                RequestError,
            >(nth_fields(r, 5, fields)),
            None => nth_fields(r, 5, fields) == fields,
        },
{
    lemma_key_downloaded();
    lemma_name_downloaded();
    lemma_decimal_plain(r.downloaded as nat);
    lemma_apply_downloaded(fields, r.downloaded);
}

/// The clause of `left` is taken, and gives its field.
proof fn lemma_place_6(r: RequestView, fields: Fields)
    ensures
        is_plain(nth_key(6)),
        nth_name(6) == seq![BYTE_AMPERSAND] + nth_key(6) + seq![BYTE_EQUALS],
        match nth_value(r, 6) {
            Some(v) => is_plain(v) && apply_clause(fields, nth_key(6), v) == Ok::<
                Fields,
                RequestError,
            >(nth_fields(r, 6, fields)),
            None => nth_fields(r, 6, fields) == fields,
        },
{
    lemma_key_left();
    lemma_name_left();
    lemma_decimal_plain(r.left as nat);
    lemma_apply_left(fields, r.left);
}

/// The clause of `ip` is taken, and gives its field.
proof fn lemma_place_7(r: RequestView, fields: Fields)
    ensures
        is_plain(nth_key(7)),
        nth_name(7) == seq![BYTE_AMPERSAND] + nth_key(7) + seq![BYTE_EQUALS],
        match nth_value(r, 7) {
            Some(v) => is_plain(v) && apply_clause(fields, nth_key(7), v) == Ok::<
                Fields,
                RequestError,
            >(nth_fields(r, 7, fields)),
            None => nth_fields(r, 7, fields) == fields,
        },
{
    lemma_key_ip();
    lemma_name_ip();
    match r.ip {
        Some(ip) => {
            lemma_ip_text_plain(ip);
            lemma_apply_ip(fields, ip);
        },
        None => {},
    }
}

/// The clause of `event` is taken, and gives its field.
proof fn lemma_place_8(r: RequestView, fields: Fields)
    ensures
        is_plain(nth_key(8)),
        nth_name(8) == seq![BYTE_AMPERSAND] + nth_key(8) + seq![BYTE_EQUALS],
        match nth_value(r, 8) {
            Some(v) => is_plain(v) && apply_clause(fields, nth_key(8), v) == Ok::<
                Fields,
                RequestError,
            >(nth_fields(r, 8, fields)),
            None => nth_fields(r, 8, fields) == fields,
        },
{
    lemma_key_event();
    lemma_name_event();
    match r.event {
        Some(event) => {
            lemma_event_text(event);
            lemma_apply_event(fields, event);
        },
        None => {},
    }
}

/// The clause of `numwant` is taken, and gives its field.
proof fn lemma_place_9(r: RequestView, fields: Fields)
    ensures
        is_plain(nth_key(9)),
        nth_name(9) == seq![BYTE_AMPERSAND] + nth_key(9) + seq![BYTE_EQUALS],
        match nth_value(r, 9) {
            Some(v) => is_plain(v) && apply_clause(fields, nth_key(9), v) == Ok::<
                Fields,
                RequestError,
            >(nth_fields(r, 9, fields)),
            None => nth_fields(r, 9, fields) == fields,
        },
{
    lemma_key_numwant();
    lemma_name_numwant();
    match r.numwant {
        Some(n) => {
            lemma_decimal_plain(n as nat);
            lemma_apply_numwant(fields, n);
        },
        None => {},
    }
}

/// The clause of `key` is taken, and gives its field.
proof fn lemma_place_10(r: RequestView, fields: Fields)
    ensures
        is_plain(nth_key(10)),
        nth_name(10) == seq![BYTE_AMPERSAND] + nth_key(10) + seq![BYTE_EQUALS],
        match nth_value(r, 10) {
            Some(v) => is_plain(v) && apply_clause(fields, nth_key(10), v) == Ok::<
                Fields,
                RequestError,
            >(nth_fields(r, 10, fields)),
            None => nth_fields(r, 10, fields) == fields,
        },
{
    lemma_key_key();
    lemma_name_key();
    match r.key {
        Some(bytes) => {
            lemma_url_encoded_plain(bytes);
            lemma_apply_key(fields, bytes);
        },
        None => {},
    }
}

/// The clause of `compact` is taken, and gives its field.
proof fn lemma_place_11(r: RequestView, fields: Fields)
    ensures
        is_plain(nth_key(11)),
        nth_name(11) == seq![BYTE_AMPERSAND] + nth_key(11) + seq![BYTE_EQUALS],
        match nth_value(r, 11) {
            Some(v) => is_plain(v) && apply_clause(fields, nth_key(11), v) == Ok::<
                Fields,
                RequestError,
            >(nth_fields(r, 11, fields)),
            None => nth_fields(r, 11, fields) == fields,
        },
{
    lemma_key_compact();
    lemma_name_compact();
    match r.compact {
        Some(flag) => {
            lemma_flag_text(flag);
            lemma_apply_compact(fields, flag);
        },
        None => {},
    }
}

/// The clause of `supportcrypto` is taken, and gives its field.
proof fn lemma_place_12(r: RequestView, fields: Fields)
    ensures
        is_plain(nth_key(12)),
        nth_name(12) == seq![BYTE_AMPERSAND] + nth_key(12) + seq![BYTE_EQUALS],
        match nth_value(r, 12) {
            Some(v) => is_plain(v) && apply_clause(fields, nth_key(12), v) == Ok::<
                Fields,
                RequestError,
            >(nth_fields(r, 12, fields)),
            None => nth_fields(r, 12, fields) == fields,
        },
{
    lemma_key_supportcrypto();
    lemma_name_supportcrypto();
    match r.supportcrypto {
        Some(flag) => {
            lemma_flag_text(flag);
            lemma_apply_supportcrypto(fields, flag);
        },
        None => {},
    }
}

/// The clause of `requirecrypto` is taken, and gives its field.
proof fn lemma_place_13(r: RequestView, fields: Fields)
    ensures
        is_plain(nth_key(13)),
        nth_name(13) == seq![BYTE_AMPERSAND] + nth_key(13) + seq![BYTE_EQUALS],
        match nth_value(r, 13) {
            Some(v) => is_plain(v) && apply_clause(fields, nth_key(13), v) == Ok::<
                Fields,
                RequestError,
            >(nth_fields(r, 13, fields)),
            None => nth_fields(r, 13, fields) == fields,
        },
{
    lemma_key_requirecrypto();
    lemma_name_requirecrypto();
    match r.requirecrypto {
        Some(flag) => {
            lemma_flag_text(flag);
            lemma_apply_requirecrypto(fields, flag);
        },
        None => {},
    }
}

/// The clause of `no_peer_id` is taken, and gives its field.
proof fn lemma_place_14(r: RequestView, fields: Fields)
    ensures
        is_plain(nth_key(14)),
        nth_name(14) == seq![BYTE_AMPERSAND] + nth_key(14) + seq![BYTE_EQUALS],
        match nth_value(r, 14) {
            Some(v) => is_plain(v) && apply_clause(fields, nth_key(14), v) == Ok::<
                Fields,
                RequestError,
            >(nth_fields(r, 14, fields)),
            None => nth_fields(r, 14, fields) == fields,
        },
{
    lemma_key_no_peer_id();
    lemma_name_no_peer_id();
    match r.no_peer_id {
        Some(flag) => {
            lemma_flag_text(flag);
            lemma_apply_no_peer_id(fields, flag);
        },
        None => {},
    }
}

/// The clause of `trackerid` is taken, and gives its field.
proof fn lemma_place_15(r: RequestView, fields: Fields)
    ensures
        is_plain(nth_key(15)),
        nth_name(15) == seq![BYTE_AMPERSAND] + nth_key(15) + seq![BYTE_EQUALS],
        match nth_value(r, 15) {
            Some(v) => is_plain(v) && apply_clause(fields, nth_key(15), v) == Ok::<
                Fields,
                RequestError,
            >(nth_fields(r, 15, fields)),
            None => nth_fields(r, 15, fields) == fields,
        },
{
    lemma_key_trackerid();
    lemma_name_trackerid();
    match r.trackerid {
        Some(bytes) => {
            lemma_url_encoded_plain(bytes);
            lemma_apply_trackerid(fields, bytes);
        },
        None => {},
    }
}

/// The clause at place `k` is taken, and gives its field.
proof fn lemma_nth_clause(r: RequestView, k: int, fields: Fields)
    requires
        1 <= k <= 15,
        r.info_hash.len() == 20,
        r.peer_id.len() == 20,
    ensures
        is_plain(nth_key(k)),
        k >= 2 ==> nth_name(k) == seq![BYTE_AMPERSAND] + nth_key(k) + seq![BYTE_EQUALS],
        k == 1 ==> nth_name(k) == nth_key(k) + seq![BYTE_EQUALS],
        match nth_value(r, k) {
            Some(v) => is_plain(v) && apply_clause(fields, nth_key(k), v) == Ok::<
                Fields,
                RequestError,
            >(nth_fields(r, k, fields)),
            None => nth_fields(r, k, fields) == fields,
        },
{
    if k == 1 {
        lemma_place_1(r, fields);
    } else if k == 2 {
        lemma_place_2(r, fields);
    } else if k == 3 {
        lemma_place_3(r, fields);
    } else if k == 4 {
        lemma_place_4(r, fields);
    } else if k == 5 {
        lemma_place_5(r, fields);
    } else if k == 6 {
        lemma_place_6(r, fields);
    } else if k == 7 {
        lemma_place_7(r, fields);
    } else if k == 8 {
        lemma_place_8(r, fields);
    } else if k == 9 {
        lemma_place_9(r, fields);
    } else if k == 10 {
        lemma_place_10(r, fields);
    } else if k == 11 {
        lemma_place_11(r, fields);
    } else if k == 12 {
        lemma_place_12(r, fields);
    } else if k == 13 {
        lemma_place_13(r, fields);
    } else if k == 14 {
        lemma_place_14(r, fields);
    } else {
        lemma_place_15(r, fields);
    }
}

/// What holds while a query string is built holds after each place.
proof fn lemma_stage(r: RequestView, k: int)
    requires
        1 <= k <= 15,
        r.info_hash.len() == 20,
        r.peer_id.len() == 20,
    ensures
        built(stage_clauses(r, k), stage_text(r, k), stage_fields(r, k)),
    decreases k,
{
    if k == 1 {
        let none = crate::tracker::request::no_fields();
        lemma_nth_clause(r, 1, none);
        let key = nth_key(1);
        let value = nth_value(r, 1)->0;
        assert(stage_clauses(r, 0) =~= Seq::<(Seq<u8>, Seq<u8>)>::empty());
        let one = stage_clauses(r, 1);
        assert(one =~= seq![(key, value)]);
        lemma_applied_one((key, value), none);
        assert(stage_text(r, 0) =~= Seq::<u8>::empty());
        assert(stage_text(r, 1) =~= clause_text(key, value));
        assert(stage_fields(r, 0) == none);
    } else {
        lemma_stage(r, k - 1);
        lemma_nth_clause(r, k, stage_fields(r, k - 1));
        lemma_build_step(
            stage_clauses(r, k - 1),
            stage_text(r, k - 1),
            stage_fields(r, k - 1),
            nth_key(k),
            nth_name(k),
            nth_value(r, k),
            stage_fields(r, k),
        );
    }
}

/// The text of all fifteen places is the query string.
proof fn lemma_stage_text(r: RequestView)
    ensures
        stage_text(r, 15) == query_string_of(r),
{
    assert(stage_text(r, 0) =~= Seq::<u8>::empty());
    let t1 = "info_hash=".spec_bytes() + url_encoded(r.info_hash);
    assert(stage_text(r, 1) =~= t1);
    let t2 = t1 + "&peer_id=".spec_bytes() + url_encoded(r.peer_id);
    assert(stage_text(r, 2) =~= t2);
    let t3 = t2 + "&port=".spec_bytes() + decimal(r.port as nat);
    assert(stage_text(r, 3) =~= t3);
    let t4 = t3 + "&uploaded=".spec_bytes() + decimal(r.uploaded as nat);
    assert(stage_text(r, 4) =~= t4);
    let t5 = t4 + "&downloaded=".spec_bytes() + decimal(r.downloaded as nat);
    assert(stage_text(r, 5) =~= t5);
    let t6 = t5 + "&left=".spec_bytes() + decimal(r.left as nat);
    assert(stage_text(r, 6) =~= t6);
    assert(t6 == crate::tracker::query_string::required_part(r));
    lemma_stage_text_optional(r);
}

/// The text of the optional places is the optional part.
proof fn lemma_stage_text_optional(r: RequestView)
    ensures
        stage_text(r, 15) == crate::tracker::query_string::with_optional_part(stage_text(r, 6), r),
{
    assert(stage_text(r, 7) == stage_text(r, 6) + optional_clause(nth_name(7), nth_value(r, 7)));
    assert(stage_text(r, 8) == stage_text(r, 7) + optional_clause(nth_name(8), nth_value(r, 8)));
    assert(stage_text(r, 9) == stage_text(r, 8) + optional_clause(nth_name(9), nth_value(r, 9)));
    assert(stage_text(r, 10) == stage_text(r, 9) + optional_clause(
        nth_name(10),
        nth_value(r, 10),
    ));
    assert(stage_text(r, 11) == stage_text(r, 10) + optional_clause(
        nth_name(11),
        nth_value(r, 11),
    ));
    assert(stage_text(r, 12) == stage_text(r, 11) + optional_clause(
        nth_name(12),
        nth_value(r, 12),
    ));
    assert(stage_text(r, 13) == stage_text(r, 12) + optional_clause(
        nth_name(13),
        nth_value(r, 13),
    ));
    assert(stage_text(r, 14) == stage_text(r, 13) + optional_clause(
        nth_name(14),
        nth_value(r, 14),
    ));
    assert(stage_text(r, 15) == stage_text(r, 14) + optional_clause(
        nth_name(15),
        nth_value(r, 15),
    ));
}

/// What is read of all fifteen places makes the request.
proof fn lemma_stage_fields(r: RequestView)
    ensures
        crate::tracker::request::finish(stage_fields(r, 15)) == Ok::<RequestView, RequestError>(r),
{
    let f0 = stage_fields(r, 0);
    assert(f0 == crate::tracker::request::no_fields());
    let f1 = stage_fields(r, 1);
    assert(f1 == nth_fields(r, 1, f0));
    let f2 = stage_fields(r, 2);
    assert(f2 == nth_fields(r, 2, f1));
    let f3 = stage_fields(r, 3);
    assert(f3 == nth_fields(r, 3, f2));
    let f4 = stage_fields(r, 4);
    assert(f4 == nth_fields(r, 4, f3));
    let f5 = stage_fields(r, 5);
    assert(f5 == nth_fields(r, 5, f4));
    let f6 = stage_fields(r, 6);
    assert(f6 == nth_fields(r, 6, f5));
    let f7 = stage_fields(r, 7);
    assert(f7 == nth_fields(r, 7, f6));
    let f8 = stage_fields(r, 8);
    assert(f8 == nth_fields(r, 8, f7));
    let f9 = stage_fields(r, 9);
    assert(f9 == nth_fields(r, 9, f8));
    let f10 = stage_fields(r, 10);
    assert(f10 == nth_fields(r, 10, f9));
    let f11 = stage_fields(r, 11);
    assert(f11 == nth_fields(r, 11, f10));
    let f12 = stage_fields(r, 12);
    assert(f12 == nth_fields(r, 12, f11));
    let f13 = stage_fields(r, 13);
    assert(f13 == nth_fields(r, 13, f12));
    let f14 = stage_fields(r, 14);
    assert(f14 == nth_fields(r, 14, f13));
    let f15 = stage_fields(r, 15);
    assert(f15 == nth_fields(r, 15, f14));
    assert(f15 == (Fields {
        info_hash: Some(r.info_hash),
        peer_id: Some(r.peer_id),
        ip: r.ip,
        port: Some(r.port),
        uploaded: Some(r.uploaded),
        downloaded: Some(r.downloaded),
        left: Some(r.left),
        event: r.event,
        numwant: r.numwant,
        key: r.key,
        compact: r.compact,
        supportcrypto: r.supportcrypto,
        requirecrypto: r.requirecrypto,
        no_peer_id: r.no_peer_id,
        trackerid: r.trackerid,
    }));
}

/// What a client writes of a request is what the tracker reads: the query
/// string of a request is read as that request.
pub proof fn law_request_round_trip(r: RequestView)
    requires
        r.info_hash.len() == 20,
        r.peer_id.len() == 20,
    ensures
        crate::tracker::request::parse_request(query_string_of(r)) == Ok::<
            RequestView,
            RequestError,
        >(r),
{
    lemma_stage(r, 15);
    lemma_stage_text(r);
    lemma_stage_fields(r);
    let text = query_string_of(r);
    assert(text.skip(0) =~= text);
    lemma_parse_rendered(text, 0, stage_clauses(r, 15), crate::tracker::request::no_fields());
}

} // verus!

//! The announce request as a query string.

use vstd::prelude::*;
use vstd::string::StringSliceAdditionalSpecFns;
use vstd::utf8::encode_utf8;
use crate::bencode::decimal::{decimal, lemma_decimal_shape, push_decimal};
use crate::net::{ip_text, lemma_ip_text_ascii, IpAddr};
use crate::query::{lemma_url_encoded_ascii, push_url_encoded, url_encoded};
use crate::text::{all_ascii, ascii_string, lemma_all_ascii_concat, push_text};
use crate::tracker::request::{Event, Request, RequestView};

verus! {

/// A flag in a query string: `1` or `0`.
pub open spec fn flag_text(flag: bool) -> Seq<u8> {
    if flag {
        "1".spec_bytes()
    } else {
        "0".spec_bytes()
    }
}

/// The name of an event in a query string.
pub open spec fn event_text(event: Event) -> Seq<u8> {
    match event {
        Event::Started => "started".spec_bytes(),
        Event::Completed => "completed".spec_bytes(),
        Event::Stopped => "stopped".spec_bytes(),
    }
}

/// The required part of a query string.
pub open spec fn required_part(r: RequestView) -> Seq<u8> {
    "info_hash=".spec_bytes() + url_encoded(r.info_hash) + "&peer_id=".spec_bytes() + url_encoded(
        r.peer_id,
    ) + "&port=".spec_bytes() + decimal(r.port as nat) + "&uploaded=".spec_bytes() + decimal(
        r.uploaded as nat,
    ) + "&downloaded=".spec_bytes() + decimal(r.downloaded as nat) + "&left=".spec_bytes()
        + decimal(r.left as nat)
}

/// One optional clause of a query string: nothing where the value is not
/// there.
pub open spec fn optional_clause(name: Seq<u8>, value: Option<Seq<u8>>) -> Seq<u8> {
    match value {
        Some(text) => name + text,
        None => Seq::empty(),
    }
}

/// A query string with its optional part: after `start`, a clause for each
/// value that is there, in this order.
pub open spec fn with_optional_part(start: Seq<u8>, r: RequestView) -> Seq<u8> {
    start + optional_clause(
        "&ip=".spec_bytes(),
        match r.ip {
            Some(ip) => Some(ip_text(ip)),
            None => None,
        },
    ) + optional_clause(
        "&event=".spec_bytes(),
        match r.event {
            Some(event) => Some(event_text(event)),
            None => None,
        },
    ) + optional_clause(
        "&numwant=".spec_bytes(),
        match r.numwant {
            Some(n) => Some(decimal(n as nat)),
            None => None,
        },
    ) + optional_clause(
        "&key=".spec_bytes(),
        match r.key {
            Some(key) => Some(url_encoded(key)),
            None => None,
        },
    ) + optional_clause(
        "&compact=".spec_bytes(),
        match r.compact {
            Some(flag) => Some(flag_text(flag)),
            None => None,
        },
    ) + optional_clause(
        "&supportcrypto=".spec_bytes(),
        match r.supportcrypto {
            Some(flag) => Some(flag_text(flag)),
            None => None,
        },
    ) + optional_clause(
        "&requirecrypto=".spec_bytes(),
        match r.requirecrypto {
            Some(flag) => Some(flag_text(flag)),
            None => None,
        },
    ) + optional_clause(
        "&no_peer_id=".spec_bytes(),
        match r.no_peer_id {
            Some(flag) => Some(flag_text(flag)),
            None => None,
        },
    ) + optional_clause(
        "&trackerid=".spec_bytes(),
        match r.trackerid {
            Some(id) => Some(url_encoded(id)),
            None => None,
        },
    )
}

/// A request as a query string: identifiers percent-encoded, numbers in
/// decimal; first the required values, then the optional ones.
pub open spec fn query_string_of(r: RequestView) -> Seq<u8> {
    with_optional_part(required_part(r), r)
}

/// Appends a percent-encoded byte string, keeping the buffer ASCII.
fn push_encoded(out: &mut Vec<u8>, bytes: &[u8])
    ensures
        final(out)@ == old(out)@ + url_encoded(bytes@),
        all_ascii(old(out)@) ==> all_ascii(final(out)@),
{
    push_url_encoded(out, bytes);
    proof {
        lemma_url_encoded_ascii(bytes@);
        if all_ascii(old(out)@) {
            lemma_all_ascii_concat(old(out)@, url_encoded(bytes@));
        }
    }
}

/// Appends a number in decimal, keeping the buffer ASCII.
fn push_number(out: &mut Vec<u8>, n: u64)
    ensures
        final(out)@ == old(out)@ + decimal(n as nat),
        all_ascii(old(out)@) ==> all_ascii(final(out)@),
{
    push_decimal(out, n as u128);
    proof {
        lemma_decimal_shape(n as nat);
        if all_ascii(old(out)@) {
            lemma_all_ascii_concat(old(out)@, decimal(n as nat));
        }
    }
}

/// Appends a flag clause, where the flag is there.
fn push_flag(out: &mut Vec<u8>, name: &str, flag: Option<bool>)
    requires
        vstd::string::is_ascii(name),
    ensures
        final(out)@ == old(out)@ + optional_clause(
            name.spec_bytes(),
            match flag {
                Some(f) => Some(flag_text(f)),
                None => None,
            },
        ),
        all_ascii(old(out)@) ==> all_ascii(final(out)@),
{
    match flag {
        Some(f) => {
            push_text(out, name);
            proof {
                reveal_strlit("1");
                reveal_strlit("0");
            }
            if f {
                push_text(out, "1");
            } else {
                push_text(out, "0");
            }
            assert(out@ =~= old(out)@ + (name.spec_bytes() + flag_text(f)));
        },
        None => {
            assert(out@ =~= old(out)@ + Seq::<u8>::empty());
        },
    }
}

/// Appends the clause of the address, where there is one.
fn push_ip_clause(out: &mut Vec<u8>, ip: Option<IpAddr>)
    ensures
        final(out)@ == old(out)@ + optional_clause(
            "&ip=".spec_bytes(),
            match ip {
                Some(ip) => Some(ip_text(ip)),
                None => None,
            },
        ),
        all_ascii(old(out)@) ==> all_ascii(final(out)@),
{
    match ip {
        Some(ip) => {
            proof {
                reveal_strlit("&ip=");
            }
            push_text(out, "&ip=");
            let ghost before = out@;
            ip.push_text(out);
            proof {
                lemma_ip_text_ascii(ip);
                if all_ascii(before) {
                    lemma_all_ascii_concat(before, ip_text(ip));
                }
            }
            assert(out@ =~= old(out)@ + ("&ip=".spec_bytes() + ip_text(ip)));
        },
        None => {
            assert(out@ =~= old(out)@ + Seq::<u8>::empty());
        },
    }
}

/// Appends the clause of the event, where there is one.
fn push_event_clause(out: &mut Vec<u8>, event: Option<Event>)
    ensures
        final(out)@ == old(out)@ + optional_clause(
            "&event=".spec_bytes(),
            match event {
                Some(event) => Some(event_text(event)),
                None => None,
            },
        ),
        all_ascii(old(out)@) ==> all_ascii(final(out)@),
{
    match event {
        Some(event) => {
            proof {
                reveal_strlit("&event=");
                reveal_strlit("started");
                reveal_strlit("completed");
                reveal_strlit("stopped");
            }
            push_text(out, "&event=");
            push_text(out, event.as_str());
            assert(out@ =~= old(out)@ + ("&event=".spec_bytes() + event_text(event)));
        },
        None => {
            assert(out@ =~= old(out)@ + Seq::<u8>::empty());
        },
    }
}

/// Appends the clause of a number, where there is one.
fn push_number_clause(out: &mut Vec<u8>, name: &str, value: Option<u64>)
    requires
        vstd::string::is_ascii(name),
    ensures
        final(out)@ == old(out)@ + optional_clause(
            name.spec_bytes(),
            match value {
                Some(n) => Some(decimal(n as nat)),
                None => None,
            },
        ),
        all_ascii(old(out)@) ==> all_ascii(final(out)@),
{
    match value {
        Some(n) => {
            push_text(out, name);
            push_number(out, n);
            assert(out@ =~= old(out)@ + (name.spec_bytes() + decimal(n as nat)));
        },
        None => {
            assert(out@ =~= old(out)@ + Seq::<u8>::empty());
        },
    }
}

/// Appends the clause of a percent-encoded byte string, where there is one.
fn push_encoded_clause(out: &mut Vec<u8>, name: &str, value: Option<&[u8]>)
    requires
        vstd::string::is_ascii(name),
    ensures
        final(out)@ == old(out)@ + optional_clause(
            name.spec_bytes(),
            match value {
                Some(bytes) => Some(url_encoded(bytes@)),
                None => None,
            },
        ),
        all_ascii(old(out)@) ==> all_ascii(final(out)@),
{
    match value {
        Some(bytes) => {
            push_text(out, name);
            push_encoded(out, bytes);
            assert(out@ =~= old(out)@ + (name.spec_bytes() + url_encoded(bytes@)));
        },
        None => {
            assert(out@ =~= old(out)@ + Seq::<u8>::empty());
        },
    }
}

impl Request {
    /// The request as the bytes of a query string.
    pub fn as_query_bytes(&self) -> (out: Vec<u8>)
        ensures
            out@ == query_string_of(self@),
            all_ascii(out@),
    {
        let mut out: Vec<u8> = Vec::new();
        proof {
            reveal_strlit("info_hash=");
            reveal_strlit("&peer_id=");
            reveal_strlit("&port=");
            reveal_strlit("&uploaded=");
            reveal_strlit("&downloaded=");
            reveal_strlit("&left=");
        }
        push_text(&mut out, "info_hash=");
        push_encoded(&mut out, self.info_hash.as_slice());
        push_text(&mut out, "&peer_id=");
        push_encoded(&mut out, self.peer_id.as_slice());
        push_text(&mut out, "&port=");
        push_number(&mut out, self.port as u64);
        push_text(&mut out, "&uploaded=");
        push_number(&mut out, self.uploaded);
        push_text(&mut out, "&downloaded=");
        push_number(&mut out, self.downloaded);
        push_text(&mut out, "&left=");
        push_number(&mut out, self.left);
        assert(out@ =~= required_part(self@));
        self.push_optional_part(&mut out);
        out
    }

    /// Appends the optional clauses.
    fn push_optional_part(&self, out: &mut Vec<u8>)
        ensures
            final(out)@ == with_optional_part(old(out)@, self@),
            all_ascii(old(out)@) ==> all_ascii(final(out)@),
    {
        proof {
            reveal_strlit("&numwant=");
            reveal_strlit("&key=");
            reveal_strlit("&compact=");
            reveal_strlit("&supportcrypto=");
            reveal_strlit("&requirecrypto=");
            reveal_strlit("&no_peer_id=");
            reveal_strlit("&trackerid=");
        }
        push_ip_clause(out, self.ip);
        push_event_clause(out, self.event);
        push_number_clause(out, "&numwant=", self.numwant);
        push_encoded_clause(
            out,
            "&key=",
            match &self.key {
                Some(key) => Some(key.as_slice()),
                None => None,
            },
        );
        push_flag(out, "&compact=", self.compact);
        push_flag(out, "&supportcrypto=", self.supportcrypto);
        push_flag(out, "&requirecrypto=", self.requirecrypto);
        push_flag(out, "&no_peer_id=", self.no_peer_id);
        push_encoded_clause(
            out,
            "&trackerid=",
            match &self.trackerid {
                Some(id) => Some(id.as_slice()),
                None => None,
            },
        );
    }

    /// The request as a query string.
    pub fn as_query_string(&self) -> (text: String)
        ensures
            encode_utf8(text@) == query_string_of(self@),
    {
        let bytes = self.as_query_bytes();
        ascii_string(bytes.as_slice())
    }
}

} // verus!

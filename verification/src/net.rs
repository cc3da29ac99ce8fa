//! Internet addresses as plain values, and their text.

pub mod ipv4;
pub mod ipv6;
pub mod ipv6_laws;

pub use ipv6::{hex_numeral, lemma_hex_numeral_ascii, push_hex_numeral};

use vstd::prelude::*;
use crate::net::ipv4::{ipv4_text, lemma_ipv4_text_ascii, parse_ipv4, push_ipv4, read_ipv4};
use crate::net::ipv6::{ipv6_text, lemma_ipv6_text_ascii, parse_ipv6, push_ipv6, read_ipv6};
use crate::text::all_ascii;

verus! {

/// An IP address: the 32 bits of a version 4 address or the 128 bits of a
/// version 6 address, most significant first.
#[derive(Clone, Copy, Debug, PartialEq, Eq, Structural, PartialOrd, Ord, Hash)]
pub enum IpAddr {
    V4(u32),
    V6(u128),
}

/// An IP address and a port.
#[derive(Clone, Copy, Debug, PartialEq, Eq, Structural, PartialOrd, Ord, Hash)]
pub struct SocketAddr {
    pub ip: IpAddr,
    pub port: u16,
}

/// The address that a text stands for: a version 4 address in dotted
/// decimal, or else a version 6 address.
pub open spec fn parse_ip(s: Seq<u8>) -> Option<IpAddr> {
    match parse_ipv4(s) {
        Some(a) => Some(IpAddr::V4(a)),
        None => match parse_ipv6(s) {
            Some(a) => Some(IpAddr::V6(a)),
            None => None,
        },
    }
}

/// An address as text.
pub open spec fn ip_text(ip: IpAddr) -> Seq<u8> {
    match ip {
        IpAddr::V4(a) => ipv4_text(a),
        IpAddr::V6(a) => ipv6_text(a),
    }
}

/// The text of an address holds ASCII bytes only.
pub proof fn lemma_ip_text_ascii(ip: IpAddr)
    ensures
        all_ascii(ip_text(ip)),
{
    match ip {
        IpAddr::V4(a) => {
            lemma_ipv4_text_ascii(a);
        },
        IpAddr::V6(a) => {
            lemma_ipv6_text_ascii(a);
        },
    }
}

/// An address that is written is read back.
pub proof fn law_ip_text_round_trip(ip: IpAddr)
    ensures
        parse_ip(ip_text(ip)) == Some(ip),
{
    match ip {
        IpAddr::V4(a) => {
            crate::net::ipv4::law_ipv4_text_round_trip(a);
        },
        IpAddr::V6(a) => {
            crate::net::ipv6_laws::lemma_ipv6_text_is_no_ipv4(a);
            crate::net::ipv6_laws::law_ipv6_text_round_trip(a);
        },
    }
}

impl IpAddr {
    /// Reads an address from text.
    pub fn parse(input: &[u8]) -> (r: Option<IpAddr>)
        ensures
            r == parse_ip(input@),
    {
        match read_ipv4(input) {
            Some(a) => Some(IpAddr::V4(a)),
            None => match read_ipv6(input) {
                Some(a) => Some(IpAddr::V6(a)),
                None => None,
            },
        }
    }

    /// Appends the address as text.
    pub fn push_text(&self, out: &mut Vec<u8>)
        ensures
            final(out)@ == old(out)@ + ip_text(*self),
    {
        match self {
            IpAddr::V4(a) => push_ipv4(out, *a),
            IpAddr::V6(a) => push_ipv6(out, *a),
        }
    }

    /// The address as text.
    pub fn to_text(&self) -> (text: String)
        ensures
            vstd::utf8::encode_utf8(text@) == ip_text(*self),
    {
        let mut out: Vec<u8> = Vec::new();
        self.push_text(&mut out);
        proof {
            lemma_ip_text_ascii(*self);
        }
        assert(out@ =~= ip_text(*self));
        crate::text::ascii_string(out.as_slice())
    }
}

} // verus!

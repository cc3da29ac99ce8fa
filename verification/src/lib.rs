//! A small BitTorrent toolkit: the bencode codec, the peer-wire message
//! framing and handshake, and the tracker's swarm registry, each with its
//! behaviour stated as a contract and proved.

pub mod bencode;
pub mod client;
pub mod debug;
pub mod hash;
pub mod ident;
pub mod metainfo;
pub mod net;
pub mod number;
pub mod peer;
pub mod query;
pub mod random;
pub mod text;
pub mod tracker;
pub mod util;

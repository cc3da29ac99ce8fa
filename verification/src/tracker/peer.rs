//! A peer as the tracker knows it.

use vstd::prelude::*;
use crate::ident::{PeerId, PeerKey};
use crate::net::SocketAddr;

verus! {

/// A peer in a swarm.
#[derive(Debug)]
pub struct Peer {
    /// When the peer last announced itself, in seconds on the tracker's
    /// clock.
    pub last_seen: u64,
    pub peer_id: Option<PeerId>,
    pub addr: SocketAddr,
    pub uploaded: Option<u64>,
    pub downloaded: Option<u64>,
    /// The number of bytes the peer still has to download; a seeder has
    /// none left.
    pub left: Option<u64>,
    pub key: Option<PeerKey>,
    pub supportcrypto: Option<bool>,
    pub requirecrypto: Option<bool>,
}

/// The model of a peer: identifiers as byte sequences.
pub struct PeerView {
    pub last_seen: u64,
    pub peer_id: Option<Seq<u8>>,
    pub addr: SocketAddr,
    pub uploaded: Option<u64>,
    pub downloaded: Option<u64>,
    pub left: Option<u64>,
    pub key: Option<Seq<u8>>,
    pub supportcrypto: Option<bool>,
    pub requirecrypto: Option<bool>,
}

impl View for Peer {
    type V = PeerView;

    open spec fn view(&self) -> PeerView {
        PeerView {
            last_seen: self.last_seen,
            peer_id: match self.peer_id {
                Some(id) => Some(id@),
                None => None,
            },
            addr: self.addr,
            uploaded: self.uploaded,
            downloaded: self.downloaded,
            left: self.left,
            key: match self.key {
                Some(key) => Some(key@),
                None => None,
            },
            supportcrypto: self.supportcrypto,
            requirecrypto: self.requirecrypto,
        }
    }
}

impl Clone for Peer {
    fn clone(&self) -> (copy: Peer)
        ensures
            copy@ == self@,
    {
        Peer {
            last_seen: self.last_seen,
            peer_id: self.peer_id,
            addr: self.addr,
            uploaded: self.uploaded,
            downloaded: self.downloaded,
            left: self.left,
            key: match &self.key {
                Some(key) => Some(key.duplicate()),
                None => None,
            },
            supportcrypto: self.supportcrypto,
            requirecrypto: self.requirecrypto,
        }
    }
}

} // verus!

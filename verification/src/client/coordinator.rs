//! The coordinator: the one place where the client's tables change. It
//! takes the events of all connections, one at a time.

use vstd::prelude::*;
use crate::client::peer::{after_message, brought, fresh, Peer, PeerState};
use crate::ident::{BlockRef, InfoHash, PeerId};
use crate::metainfo::torrent::MetainfoFile;
use crate::net::SocketAddr;
use crate::peer::message::{Message, PeerMessage};

verus! {

/// A word from the coordinator to a connection.
#[derive(Clone, Copy, Debug, PartialEq, Eq, Structural)]
pub enum Signal {
    /// The info-hash is served here: the handshake may go on.
    InfoHashOk,
    /// Close the connection.
    Close,
}

/// What a connection reports.
#[derive(Clone, Debug)]
pub enum IncomingEvent {
    /// A peer named this info-hash in its handshake and waits for a word.
    HandshakeInfoHash { info_hash: InfoHash },
    /// The handshake is done.
    Connected { info_hash: InfoHash, peer_id: PeerId },
    /// A message arrived.
    Message { message: PeerMessage },
    /// The connection is closed.
    Closed,
}

/// An event, and the address of the peer whose connection reports it.
#[derive(Clone, Debug)]
pub struct Incoming {
    pub from_socket_addr: SocketAddr,
    pub event: IncomingEvent,
}

/// What the coordinator asks for after an event.
#[derive(Clone, Debug)]
pub enum Outcome {
    /// Nothing.
    Done,
    /// Give the connection this word.
    Reply(Signal),
    /// Store the data of this block of the torrent.
    Store { info_hash: InfoHash, block: BlockRef, data: Vec<u8> },
}

/// The model of an outcome.
pub enum OutcomeView {
    Done,
    Reply(Signal),
    Store { info_hash: Seq<u8>, block: Seq<u8>, data: Seq<u8> },
}

impl View for Outcome {
    type V = OutcomeView;

    open spec fn view(&self) -> OutcomeView {
        match self {
            Outcome::Done => OutcomeView::Done,
            Outcome::Reply(signal) => OutcomeView::Reply(*signal),
            Outcome::Store { info_hash, block, data } => OutcomeView::Store {
                info_hash: info_hash@,
                block: block@,
                data: data@,
            },
        }
    }
}

/// The model of an event.
pub enum IncomingView {
    HandshakeInfoHash { info_hash: Seq<u8> },
    Connected { info_hash: Seq<u8>, peer_id: Seq<u8> },
    Message { message: Message },
    Closed,
}

impl View for IncomingEvent {
    type V = IncomingView;

    open spec fn view(&self) -> IncomingView {
        match self {
            IncomingEvent::HandshakeInfoHash { info_hash } => IncomingView::HandshakeInfoHash {
                info_hash: info_hash@,
            },
            IncomingEvent::Connected { info_hash, peer_id } => IncomingView::Connected {
                info_hash: info_hash@,
                peer_id: peer_id@,
            },
            IncomingEvent::Message { message } => IncomingView::Message { message: message@ },
            IncomingEvent::Closed => IncomingView::Closed,
        }
    }
}

/// The client's tables: the torrents it serves, and the peers it is
/// connected to, at most one at each address.
#[derive(Debug)]
pub struct Coordinator {
    torrents: Vec<MetainfoFile>,
    connections: Vec<Peer>,
}

/// The model of the client's tables: the info-hashes of its torrents, and
/// its connected peers.
pub struct Tables {
    pub torrents: Seq<Seq<u8>>,
    pub connections: Seq<PeerState>,
}

/// The model of a sequence of connected peers.
pub open spec fn connections_view(peers: Seq<Peer>) -> Seq<PeerState> {
    Seq::new(peers.len(), |i: int| peers[i]@)
}

impl View for Coordinator {
    type V = Tables;

    closed spec fn view(&self) -> Tables {
        Tables {
            torrents: Seq::new(self.torrents@.len(), |i: int| self.torrents@[i]@.info_hash),
            connections: connections_view(self.connections@),
        }
    }
}

/// The position of the first peer at an address, or the number of peers
/// where there is none.
pub open spec fn position_at(peers: Seq<PeerState>, addr: SocketAddr) -> int
    decreases peers.len(),
{
    if peers.len() == 0 {
        0
    } else if peers[0].addr == addr {
        0
    } else {
        1 + position_at(peers.drop_first(), addr)
    }
}

/// The peers without the first peer at an address.
pub open spec fn disconnected(peers: Seq<PeerState>, addr: SocketAddr) -> Seq<PeerState> {
    if position_at(peers, addr) < peers.len() {
        peers.remove(position_at(peers, addr))
    } else {
        peers
    }
}

/// The peers with a peer in the place of the first peer at its address, or
/// added.
pub open spec fn connected(peers: Seq<PeerState>, peer: PeerState) -> Seq<PeerState> {
    if position_at(peers, peer.addr) < peers.len() {
        peers.update(position_at(peers, peer.addr), peer)
    } else {
        peers.push(peer)
    }
}

/// The client's tables after an event, and what is asked for.
///
/// A handshake's info-hash is answered: approved where the torrent is
/// served, else the connection is to be closed. A connected peer is
/// entered where its torrent is served. A message changes what is known of
/// the peer at the address it came from, and the data of a piece is to be
/// stored; a message from an address without a peer changes nothing. A
/// closed connection takes its peer out, and with it what was asked of it.
pub open spec fn after_event(t: Tables, from: SocketAddr, e: IncomingView) -> (Tables, OutcomeView) {
    match e {
        IncomingView::HandshakeInfoHash { info_hash } => (
            t,
            OutcomeView::Reply(
                if t.torrents.contains(info_hash) {
                    Signal::InfoHashOk
                } else {
                    Signal::Close
                },
            ),
        ),
        IncomingView::Connected { info_hash, peer_id } => if t.torrents.contains(info_hash) {
            (
                Tables {
                    torrents: t.torrents,
                    connections: connected(t.connections, fresh(peer_id, info_hash, from)),
                },
                OutcomeView::Done,
            )
        } else {
            (t, OutcomeView::Reply(Signal::Close))
        },
        IncomingView::Message { message } => {
            let at = position_at(t.connections, from);
            if at < t.connections.len() {
                (
                    Tables {
                        torrents: t.torrents,
                        connections: t.connections.update(
                            at,
                            after_message(t.connections[at], message),
                        ),
                    },
                    match brought(message) {
                        Some((block, data)) => OutcomeView::Store {
                            info_hash: t.connections[at].info_hash,
                            block,
                            data,
                        },
                        None => OutcomeView::Done,
                    },
                )
            } else {
                (t, OutcomeView::Done)
            }
        },
        IncomingView::Closed => (
            Tables { torrents: t.torrents, connections: disconnected(t.connections, from) },
            OutcomeView::Done,
        ),
    }
}

/// A position found by a scan from the front is the position of the first
/// peer at the address.
/// The ids of the peers that are connected for a torrent, in the order of
/// their connections.
pub open spec fn peers_of_torrent(peers: Seq<PeerState>, info_hash: Seq<u8>) -> Seq<Seq<u8>>
    decreases peers.len(),
{
    if peers.len() == 0 {
        Seq::empty()
    } else if peers.last().info_hash == info_hash {
        peers_of_torrent(peers.drop_last(), info_hash).push(peers.last().peer_id)
    } else {
        peers_of_torrent(peers.drop_last(), info_hash)
    }
}

/// The model of a sequence of peer ids.
pub open spec fn ids_view(ids: Seq<PeerId>) -> Seq<Seq<u8>> {
    Seq::new(ids.len(), |i: int| ids[i]@)
}

/// The first place at which a connection has the address is its position;
/// where none has it, the position is the number of connections.
pub proof fn lemma_position_at(peers: Seq<PeerState>, addr: SocketAddr, at: int)
    requires
        0 <= at <= peers.len(),
        forall|i: int| 0 <= i < at ==> (#[trigger] peers[i]).addr != addr,
        at < peers.len() ==> peers[at].addr == addr,
    ensures
        position_at(peers, addr) == at,
    decreases peers.len(),
{
    if peers.len() > 0 && at > 0 {
        let rest = peers.drop_first();
        assert(peers[0].addr != addr);
        assert forall|i: int| 0 <= i < at - 1 implies (#[trigger] rest[i]).addr != addr by {
            assert(rest[i] == peers[i + 1]);
        }
        if at < peers.len() {
            assert(rest[at - 1] == peers[at]);
        }
        lemma_position_at(rest, addr, at - 1);
    }
}

/// A handshake for a torrent that is not served is answered with the word
/// to close, and changes nothing.
pub proof fn law_unknown_info_hash_is_refused(t: Tables, from: SocketAddr, info_hash: Seq<u8>)
    requires
        !t.torrents.contains(info_hash),
    ensures
        after_event(t, from, IncomingView::HandshakeInfoHash { info_hash }) == (
            t,
            OutcomeView::Reply(Signal::Close),
        ),
{
}

impl Coordinator {
    /// The coordinator of a client with no torrents and no peers.
    pub fn new() -> (c: Coordinator)
        ensures
            c@.torrents.len() == 0,
            c@.connections.len() == 0,
    {
        Coordinator { torrents: Vec::new(), connections: Vec::new() }
    }

    /// Takes a torrent to serve.
    pub fn add_torrent(&mut self, metainfo: MetainfoFile)
        ensures
            final(self)@.torrents == old(self)@.torrents.push(metainfo@.info_hash),
            final(self)@.connections == old(self)@.connections,
    {
        self.torrents.push(metainfo);
        assert(self@.torrents =~= old(self)@.torrents.push(metainfo@.info_hash));
    }

    /// The number of connected peers.
    pub fn connection_count(&self) -> (n: usize)
        ensures
            n == self@.connections.len(),
    {
        self.connections.len()
    }

    /// The connected peer at position `i`.
    pub fn connection(&self, i: usize) -> (peer: &Peer)
        requires
            i < self@.connections.len(),
        ensures
            peer@ == self@.connections[i as int],
    {
        &self.connections[i]
    }

    /// The peer that is connected from an address, if there is one.
    pub fn peer_at(&self, addr: &SocketAddr) -> (peer: Option<&Peer>)
        ensures
            match peer {
                Some(p) => position_at(self@.connections, *addr) < self@.connections.len() && p@
                    == self@.connections[position_at(self@.connections, *addr)],
                None => position_at(self@.connections, *addr) == self@.connections.len(),
            },
    {
        let at: usize = self.find(addr);
        if at < self.connections.len() {
            Some(&self.connections[at])
        } else {
            None
        }
    }

    /// The id of the peer that is connected from an address, if there is
    /// one.
    pub fn peer_id_at(&self, addr: &SocketAddr) -> (id: Option<PeerId>)
        ensures
            match id {
                Some(found) => position_at(self@.connections, *addr) < self@.connections.len()
                    && found@ == self@.connections[position_at(
                    self@.connections,
                    *addr,
                )].peer_id,
                None => position_at(self@.connections, *addr) == self@.connections.len(),
            },
    {
        match self.peer_at(addr) {
            Some(peer) => Some(peer.peer_id),
            None => None,
        }
    }

    /// The ids of the peers that are connected for a torrent.
    pub fn torrent_peers(&self, info_hash: &InfoHash) -> (ids: Vec<PeerId>)
        ensures
            ids_view(ids@) == peers_of_torrent(self@.connections, info_hash@),
    {
        let mut ids: Vec<PeerId> = Vec::new();
        let mut i: usize = 0;
        let ghost all = self@.connections;
        assert(all.take(0) =~= Seq::<PeerState>::empty());
        assert(ids_view(ids@) =~= Seq::<Seq<u8>>::empty());
        while i < self.connections.len()
            invariant
                i <= self.connections@.len(),
                all == self@.connections,
                ids_view(ids@) == peers_of_torrent(all.take(i as int), info_hash@),
            decreases self.connections@.len() - i,
        {
            proof {
                assert(all.take(i + 1).drop_last() =~= all.take(i as int));
                assert(all.take(i + 1).last() == self.connections@[i as int]@);
            }
            if self.connections[i].info_hash.same(info_hash) {
                assert(ids_view(ids@.push(self.connections@[i as int].peer_id)) =~= ids_view(
                    ids@,
                ).push(self.connections@[i as int].peer_id@));
                ids.push(self.connections[i].peer_id);
            }
            i += 1;
        }
        assert(all.take(i as int) =~= all);
        ids
    }

    /// Whether the torrent of this info-hash is served.
    pub fn serves(&self, info_hash: &InfoHash) -> (b: bool)
        ensures
            b == self@.torrents.contains(info_hash@),
    {
        let mut i: usize = 0;
        while i < self.torrents.len()
            invariant
                i <= self.torrents@.len(),
                forall|j: int| 0 <= j < i ==> self@.torrents[j] != info_hash@,
            decreases self.torrents@.len() - i,
        {
            if self.torrents[i].info_hash().same(info_hash) {
                assert(self@.torrents[i as int] == info_hash@);
                return true;
            }
            i += 1;
        }
        false
    }

    /// The position of the first peer at an address, or the number of
    /// peers.
    fn find(&self, addr: &SocketAddr) -> (at: usize)
        ensures
            at == position_at(self@.connections, *addr),
            at <= self@.connections.len(),
    {
        let mut i: usize = 0;
        while i < self.connections.len()
            invariant
                i <= self.connections@.len(),
                forall|j: int| 0 <= j < i ==> (#[trigger] self@.connections[j]).addr != *addr,
            decreases self.connections@.len() - i,
        {
            if self.connections[i].addr == *addr {
                proof {
                    lemma_position_at(self@.connections, *addr, i as int);
                }
                return i;
            }
            i += 1;
        }
        proof {
            lemma_position_at(self@.connections, *addr, i as int);
        }
        i
    }

    /// Takes an event of a connection: changes the tables, and returns
    /// what is asked for.
    pub fn handle(&mut self, incoming: Incoming) -> (outcome: Outcome)
        ensures
            (final(self)@, outcome@) == after_event(
                old(self)@,
                incoming.from_socket_addr,
                incoming.event@,
            ),
    {
        let from = incoming.from_socket_addr;
        match incoming.event {
            IncomingEvent::HandshakeInfoHash { info_hash } => {
                if self.serves(&info_hash) {
                    Outcome::Reply(Signal::InfoHashOk)
                } else {
                    Outcome::Reply(Signal::Close)
                }
            },
            IncomingEvent::Connected { info_hash, peer_id } => {
                if !self.serves(&info_hash) {
                    return Outcome::Reply(Signal::Close);
                }
                let peer = Peer::new(peer_id, info_hash, from);
                let at: usize = self.find(&from);
                let ghost before = self@.connections;
                if at < self.connections.len() {
                    self.connections.set(at, peer);
                } else {
                    self.connections.push(peer);
                }
                assert(self@.connections =~= connected(before, peer@));
                assert(self@.torrents =~= old(self)@.torrents);
                Outcome::Done
            },
            IncomingEvent::Message { message } => {
                let at: usize = self.find(&from);
                if at >= self.connections.len() {
                    return Outcome::Done;
                }
                let ghost before = self@.connections;
                let mut slot: Vec<Peer> = Vec::new();
                core::mem::swap(&mut self.connections, &mut slot);
                let mut peer: Peer = slot.remove(at);
                let info_hash = peer.info_hash;
                let data = peer.receive(message);
                slot.insert(at, peer);
                self.connections = slot;
                assert(self@.connections =~= before.update(
                    at as int,
                    after_message(before[at as int], message@),
                ));
                assert(self@.torrents =~= old(self)@.torrents);
                match data {
                    Some((block, data)) => Outcome::Store { info_hash, block, data },
                    None => Outcome::Done,
                }
            },
            IncomingEvent::Closed => {
                let at: usize = self.find(&from);
                let ghost before = self@.connections;
                if at < self.connections.len() {
                    self.connections.remove(at);
                }
                assert(self@.connections =~= disconnected(before, from));
                assert(self@.torrents =~= old(self)@.torrents);
                Outcome::Done
            },
        }
    }
}

} // verus!

//! What the client knows of a connected peer.

use vstd::prelude::*;
use crate::client::bitfield::{set_piece, with_piece};
use crate::ident::{BlockRef, InfoHash, PeerId};
use crate::net::SocketAddr;
use crate::peer::message::{Message, PeerMessage};

verus! {

/// A connected peer: who it is, which torrent the connection is for, and
/// the state of the exchange.
#[derive(Clone, Debug)]
pub struct Peer {
    pub peer_id: PeerId,
    pub info_hash: InfoHash,
    pub addr: SocketAddr,
    /// We do not serve the peer's requests.
    pub am_choking: bool,
    /// The peer has pieces that we want.
    pub am_interested: bool,
    /// The peer does not serve our requests.
    pub peer_choking: bool,
    /// We have pieces that the peer wants.
    pub peer_interested: bool,
    /// The pieces that the peer has.
    pub bitfield: Vec<u8>,
    /// The blocks that we have asked the peer for.
    pub am_requesting: Vec<BlockRef>,
    /// The blocks that the peer has asked us for.
    pub peer_requesting: Vec<BlockRef>,
}

/// The model of a connected peer.
pub struct PeerState {
    pub peer_id: Seq<u8>,
    pub info_hash: Seq<u8>,
    pub addr: SocketAddr,
    pub am_choking: bool,
    pub am_interested: bool,
    pub peer_choking: bool,
    pub peer_interested: bool,
    pub bitfield: Seq<u8>,
    pub am_requesting: Seq<Seq<u8>>,
    pub peer_requesting: Seq<Seq<u8>>,
}

/// The model of a sequence of block references.
pub open spec fn blocks_view(blocks: Seq<BlockRef>) -> Seq<Seq<u8>> {
    Seq::new(blocks.len(), |i: int| blocks[i]@)
}

impl View for Peer {
    type V = PeerState;

    open spec fn view(&self) -> PeerState {
        PeerState {
            peer_id: self.peer_id@,
            info_hash: self.info_hash@,
            addr: self.addr,
            am_choking: self.am_choking,
            am_interested: self.am_interested,
            peer_choking: self.peer_choking,
            peer_interested: self.peer_interested,
            bitfield: self.bitfield@,
            am_requesting: blocks_view(self.am_requesting@),
            peer_requesting: blocks_view(self.peer_requesting@),
        }
    }
}

/// The blocks without `block`, wherever it occurs.
pub open spec fn without(blocks: Seq<Seq<u8>>, block: Seq<u8>) -> Seq<Seq<u8>>
    decreases blocks.len(),
{
    if blocks.len() == 0 {
        blocks
    } else if blocks.last() == block {
        without(blocks.drop_last(), block)
    } else {
        without(blocks.drop_last(), block).push(blocks.last())
    }
}

/// A newly connected peer: both sides choke, neither is interested, and
/// nothing is known or asked yet.
pub open spec fn fresh(peer_id: Seq<u8>, info_hash: Seq<u8>, addr: SocketAddr) -> PeerState {
    PeerState {
        peer_id,
        info_hash,
        addr,
        am_choking: true,
        am_interested: false,
        peer_choking: true,
        peer_interested: false,
        bitfield: Seq::empty(),
        am_requesting: Seq::empty(),
        peer_requesting: Seq::empty(),
    }
}

/// What is known of a peer after a message from it.
///
/// Choking and interest set the peer's flags. A bitfield takes the place
/// of what was known of its pieces, and a have sets the bit of one piece.
/// A request is added to what the peer asks for, and a cancel takes it
/// out. A piece takes its block out of what we asked for. Nothing else
/// changes; our own flags change with no message.
pub open spec fn after_message(p: PeerState, m: Message) -> PeerState {
    match m {
        Message::Choke => PeerState { peer_choking: true, ..p },
        Message::Unchoke => PeerState { peer_choking: false, ..p },
        Message::Interested => PeerState { peer_interested: true, ..p },
        Message::NotInterested => PeerState { peer_interested: false, ..p },
        Message::Have { index } => PeerState { bitfield: with_piece(p.bitfield, index as int), ..p },
        Message::Bitfield { bitfield } => PeerState { bitfield, ..p },
        Message::Request { block } => PeerState {
            peer_requesting: p.peer_requesting.push(block),
            ..p
        },
        Message::Cancel { block } => PeerState {
            peer_requesting: without(p.peer_requesting, block),
            ..p
        },
        Message::Piece { block, data } => PeerState {
            am_requesting: without(p.am_requesting, block),
            ..p
        },
        _ => p,
    }
}

/// The block and the data that a message brings to be stored.
pub open spec fn brought(m: Message) -> Option<(Seq<u8>, Seq<u8>)> {
    match m {
        Message::Piece { block, data } => Some((block, data)),
        _ => None,
    }
}

/// Takes `block` out of the blocks, wherever it occurs.
pub fn remove_block(blocks: &mut Vec<BlockRef>, block: &BlockRef)
    ensures
        blocks_view(final(blocks)@) == without(blocks_view(old(blocks)@), block@),
{
    let mut kept: Vec<BlockRef> = Vec::new();
    let mut i: usize = 0;
    let ghost all = blocks_view(blocks@);
    assert(all.take(0) =~= Seq::<Seq<u8>>::empty());
    assert(blocks_view(kept@) =~= Seq::<Seq<u8>>::empty());
    while i < blocks.len()
        invariant
            i <= blocks.len(),
            blocks == old(blocks),
            all == blocks_view(blocks@),
            blocks_view(kept@) == without(all.take(i as int), block@),
        decreases blocks.len() - i,
    {
        proof {
            assert(all.take(i + 1).drop_last() =~= all.take(i as int));
            assert(all.take(i + 1).last() == blocks@[i as int]@);
        }
        if !blocks[i].same(block) {
            assert(blocks_view(kept@.push(blocks@[i as int])) =~= blocks_view(kept@).push(
                blocks@[i as int]@,
            ));
            kept.push(blocks[i]);
        }
        i += 1;
    }
    assert(all.take(i as int) =~= all);
    *blocks = kept;
}

impl Peer {
    /// A newly connected peer.
    pub fn new(peer_id: PeerId, info_hash: InfoHash, addr: SocketAddr) -> (peer: Peer)
        ensures
            peer@ == fresh(peer_id@, info_hash@, addr),
    {
        let peer = Peer {
            peer_id,
            info_hash,
            addr,
            am_choking: true,
            am_interested: false,
            peer_choking: true,
            peer_interested: false,
            bitfield: Vec::new(),
            am_requesting: Vec::new(),
            peer_requesting: Vec::new(),
        };
        assert(blocks_view(peer.am_requesting@) =~= Seq::<Seq<u8>>::empty());
        assert(blocks_view(peer.peer_requesting@) =~= Seq::<Seq<u8>>::empty());
        peer
    }

    /// Takes a message from the peer, and returns the block and the data
    /// that it brings to be stored, if any.
    pub fn receive(&mut self, message: PeerMessage) -> (data: Option<(BlockRef, Vec<u8>)>)
        ensures
            final(self)@ == after_message(old(self)@, message@),
            match brought(message@) {
                Some((block, bytes)) => data matches Some((b, d)) && b@ == block && d@ == bytes,
                None => data is None,
            },
    {
        match message {
            PeerMessage::Choke => {
                self.peer_choking = true;
                None
            },
            PeerMessage::Unchoke => {
                self.peer_choking = false;
                None
            },
            PeerMessage::Interested => {
                self.peer_interested = true;
                None
            },
            PeerMessage::NotInterested => {
                self.peer_interested = false;
                None
            },
            PeerMessage::Have { index } => {
                set_piece(&mut self.bitfield, index);
                None
            },
            PeerMessage::Bitfield { bitfield } => {
                self.bitfield = bitfield;
                None
            },
            PeerMessage::Request { block } => {
                assert(blocks_view(self.peer_requesting@.push(block)) =~= blocks_view(
                    self.peer_requesting@,
                ).push(block@));
                self.peer_requesting.push(block);
                None
            },
            PeerMessage::Cancel { block } => {
                remove_block(&mut self.peer_requesting, &block);
                None
            },
            PeerMessage::Piece { block, data } => {
                remove_block(&mut self.am_requesting, &block);
                Some((block, data))
            },
            _ => None,
        }
    }
}

} // verus!

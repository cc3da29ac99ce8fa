//! The messages that peers exchange, and how they are framed on the wire.

use vstd::prelude::*;
use vstd::slice::slice_subrange;
use crate::ident::{
    be_u16, be_u32, lemma_be_u16_round_trip, lemma_be_u32_round_trip,
    lemma_u16_be_bytes_round_trip, lemma_u32_be_bytes_round_trip, push_be_u16, push_be_u32, read_be_u16, read_be_u32,
    u16_be_bytes, u32_be_bytes, BlockRef, InfoHash, PeerId,
};
use crate::util::{append_slice, copy_range};

verus! {

/// The longest payload of a message: a piece message that carries a block
/// of 16 384 bytes after its nine bytes of header.
pub const PEERMESSAGE_PIECE_MAX_LEN: usize = 16393;

/// The longest payload of a message that carries no data.
pub const PEERMESSAGE_OVERHEAD_MAX_LEN: usize = 13;

/// The length of the handshake frame.
pub const HANDSHAKE_LEN: usize = 68;

/// The id of a choke message.
pub const PEERMESSAGE_CHOKE: u8 = 0;

/// The id of an unchoke message.
pub const PEERMESSAGE_UNCHOKE: u8 = 1;

/// The id of an interested message.
pub const PEERMESSAGE_INTERESTED: u8 = 2;

/// The id of a not-interested message.
pub const PEERMESSAGE_NOT_INTERESTED: u8 = 3;

/// The id of a have message.
pub const PEERMESSAGE_HAVE: u8 = 4;

/// The id of a bitfield message.
pub const PEERMESSAGE_BITFIELD: u8 = 5;

/// The id of a request message.
pub const PEERMESSAGE_REQUEST: u8 = 6;

/// The id of a piece message.
pub const PEERMESSAGE_PIECE: u8 = 7;

/// The id of a cancel message.
pub const PEERMESSAGE_CANCEL: u8 = 8;

/// The id of a port message.
pub const PEERMESSAGE_PORT: u8 = 9;

/// A violation of the peer-wire protocol, for which a connection is closed.
#[derive(Clone, Copy, Debug, PartialEq, Eq, Structural)]
pub enum WireError {
    /// The handshake does not start with the protocol's name.
    InvalidHandshake,
    /// The handshake names a torrent that is not served here, or not the
    /// one that was asked for.
    UnknownInfoHash,
    /// A frame announces a payload of more than 16 393 bytes.
    FrameTooLarge,
}

/// A message of the peer-wire protocol.
#[derive(Clone, Debug, PartialEq, Eq)]
pub enum PeerMessage {
    Handshake { info_hash: InfoHash, peer_id: PeerId },
    KeepAlive,
    Choke,
    Unchoke,
    Interested,
    NotInterested,
    Have { index: u32 },
    Bitfield { bitfield: Vec<u8> },
    Request { block: BlockRef },
    Piece { block: BlockRef, data: Vec<u8> },
    Cancel { block: BlockRef },
    Port { port: u16 },
}

/// The model of a message: identifiers and data as byte sequences.
pub enum Message {
    Handshake { info_hash: Seq<u8>, peer_id: Seq<u8> },
    KeepAlive,
    Choke,
    Unchoke,
    Interested,
    NotInterested,
    Have { index: u32 },
    Bitfield { bitfield: Seq<u8> },
    Request { block: Seq<u8> },
    Piece { block: Seq<u8>, data: Seq<u8> },
    Cancel { block: Seq<u8> },
    Port { port: u16 },
}

impl View for PeerMessage {
    type V = Message;

    open spec fn view(&self) -> Message {
        match self {
            PeerMessage::Handshake { info_hash, peer_id } => Message::Handshake {
                info_hash: info_hash@,
                peer_id: peer_id@,
            },
            PeerMessage::KeepAlive => Message::KeepAlive,
            PeerMessage::Choke => Message::Choke,
            PeerMessage::Unchoke => Message::Unchoke,
            PeerMessage::Interested => Message::Interested,
            PeerMessage::NotInterested => Message::NotInterested,
            PeerMessage::Have { index } => Message::Have { index: *index },
            PeerMessage::Bitfield { bitfield } => Message::Bitfield { bitfield: bitfield@ },
            PeerMessage::Request { block } => Message::Request { block: block@ },
            PeerMessage::Piece { block, data } => Message::Piece { block: block@, data: data@ },
            PeerMessage::Cancel { block } => Message::Cancel { block: block@ },
            PeerMessage::Port { port } => Message::Port { port: *port },
        }
    }
}

/// Why a payload is not a message.
#[derive(Clone, Debug)]
pub enum PeerMessageError<'a> {
    /// The message id, and the payload.
    UnknownId(u8, &'a [u8]),
    /// The kind of message that the id stands for, the payload's length
    /// (`u32::MAX` where it is longer than that), and the payload.
    BadLength(&'static str, u32, &'a [u8]),
}

/// The model of a payload error: the id that is unknown, or the id whose
/// message cannot have the payload's length.
pub enum PayloadError {
    UnknownId(u8),
    BadLength(u8),
}

/// What a stretch of received bytes starts with.
#[derive(Clone, Debug)]
pub enum ParsedPeerMessage<'a> {
    /// A message, and the bytes after its frame.
    Complete(PeerMessage, &'a [u8]),
    /// Less than a whole frame: all the bytes.
    Incomplete(&'a [u8]),
    /// A frame that holds no message, and the bytes after it.
    Invalid(&'a [u8], &'a [u8]),
}

/// The first twenty bytes of a handshake: the length of the protocol's
/// name, 19, and the name, `BitTorrent protocol`.
pub open spec fn protocol_prefix() -> Seq<u8> {
    seq![
        19u8, 66, 105, 116, 84, 111, 114, 114, 101, 110, 116, 32, 112, 114, 111, 116, 111, 99, 111,
        108,
    ]
}

/// The first twenty-eight bytes of a handshake as this library sends it:
/// the protocol prefix and eight reserved bytes, all zero.
pub open spec fn prelude() -> Seq<u8> {
    protocol_prefix() + seq![0u8, 0, 0, 0, 0, 0, 0, 0]
}

/// The handshake frame: sixty-eight bytes.
pub open spec fn handshake_frame(info_hash: Seq<u8>, peer_id: Seq<u8>) -> Seq<u8> {
    prelude() + info_hash + peer_id
}

/// The payload of a message: nothing for a keep-alive, else the message id
/// and the body. A piece message carries the index and offset of its block;
/// the block's length is the length of the data.
pub open spec fn payload_of(m: Message) -> Seq<u8> {
    match m {
        Message::Handshake { .. } => Seq::empty(),
        Message::KeepAlive => Seq::empty(),
        Message::Choke => seq![PEERMESSAGE_CHOKE],
        Message::Unchoke => seq![PEERMESSAGE_UNCHOKE],
        Message::Interested => seq![PEERMESSAGE_INTERESTED],
        Message::NotInterested => seq![PEERMESSAGE_NOT_INTERESTED],
        Message::Have { index } => seq![PEERMESSAGE_HAVE] + u32_be_bytes(index),
        Message::Bitfield { bitfield } => seq![PEERMESSAGE_BITFIELD] + bitfield,
        Message::Request { block } => seq![PEERMESSAGE_REQUEST] + block,
        Message::Piece { block, data } => seq![PEERMESSAGE_PIECE] + block.take(8) + data,
        Message::Cancel { block } => seq![PEERMESSAGE_CANCEL] + block,
        Message::Port { port } => seq![PEERMESSAGE_PORT] + u16_be_bytes(port),
    }
}

/// A message as it travels: the handshake as its sixty-eight bytes, any other
/// message as the length of its payload in four bytes, then the payload.
pub open spec fn frame_of(m: Message) -> Seq<u8> {
    match m {
        Message::Handshake { info_hash, peer_id } => handshake_frame(info_hash, peer_id),
        _ => u32_be_bytes(payload_of(m).len() as u32) + payload_of(m),
    }
}

/// Whether a message can be sent: its payload is at most 16 393 bytes long.
pub open spec fn sendable(m: Message) -> bool {
    payload_of(m).len() <= PEERMESSAGE_PIECE_MAX_LEN
}

/// Whether a message is received as it was sent: it is no handshake, its
/// identifiers have their width, and a piece's block has the length of the
/// data.
pub open spec fn faithful(m: Message) -> bool {
    match m {
        Message::Handshake { .. } => false,
        Message::Request { block } => block.len() == 12,
        Message::Cancel { block } => block.len() == 12,
        Message::Piece { block, data } => block.len() == 12 && be_u32(block.subrange(8, 12))
            == data.len(),
        _ => true,
    }
}

/// The message that a payload holds.
pub open spec fn decode_payload(s: Seq<u8>) -> Result<Message, PayloadError> {
    if s.len() == 0 {
        Ok(Message::KeepAlive)
    } else if s[0] == PEERMESSAGE_CHOKE {
        if s.len() == 1 {
            Ok(Message::Choke)
        } else {
            Err(PayloadError::BadLength(s[0]))
        }
    } else if s[0] == PEERMESSAGE_UNCHOKE {
        if s.len() == 1 {
            Ok(Message::Unchoke)
        } else {
            Err(PayloadError::BadLength(s[0]))
        }
    } else if s[0] == PEERMESSAGE_INTERESTED {
        if s.len() == 1 {
            Ok(Message::Interested)
        } else {
            Err(PayloadError::BadLength(s[0]))
        }
    } else if s[0] == PEERMESSAGE_NOT_INTERESTED {
        if s.len() == 1 {
            Ok(Message::NotInterested)
        } else {
            Err(PayloadError::BadLength(s[0]))
        }
    } else if s[0] == PEERMESSAGE_HAVE {
        if s.len() == 5 {
            Ok(Message::Have { index: be_u32(s.subrange(1, 5)) as u32 })
        } else {
            Err(PayloadError::BadLength(s[0]))
        }
    } else if s[0] == PEERMESSAGE_BITFIELD {
        if s.len() <= PEERMESSAGE_PIECE_MAX_LEN {
            Ok(Message::Bitfield { bitfield: s.skip(1) })
        } else {
            Err(PayloadError::BadLength(s[0]))
        }
    } else if s[0] == PEERMESSAGE_REQUEST {
        if s.len() == 13 {
            Ok(Message::Request { block: s.subrange(1, 13) })
        } else {
            Err(PayloadError::BadLength(s[0]))
        }
    } else if s[0] == PEERMESSAGE_PIECE {
        if 9 <= s.len() <= PEERMESSAGE_PIECE_MAX_LEN {
            Ok(
                Message::Piece {
                    block: s.subrange(1, 9) + u32_be_bytes((s.len() - 9) as u32),
                    data: s.skip(9),
                },
            )
        } else {
            Err(PayloadError::BadLength(s[0]))
        }
    } else if s[0] == PEERMESSAGE_CANCEL {
        if s.len() == 13 {
            Ok(Message::Cancel { block: s.subrange(1, 13) })
        } else {
            Err(PayloadError::BadLength(s[0]))
        }
    } else if s[0] == PEERMESSAGE_PORT {
        if s.len() == 3 {
            Ok(Message::Port { port: be_u16(s.subrange(1, 3)) as u16 })
        } else {
            Err(PayloadError::BadLength(s[0]))
        }
    } else {
        Err(PayloadError::UnknownId(s[0]))
    }
}

/// The name of the kind of message that an id stands for.
pub open spec fn kind_name(id: u8) -> Seq<char> {
    if id == PEERMESSAGE_CHOKE {
        "CHOKE"@
    } else if id == PEERMESSAGE_UNCHOKE {
        "UNCHOKE"@
    } else if id == PEERMESSAGE_INTERESTED {
        "INTERESTED"@
    } else if id == PEERMESSAGE_NOT_INTERESTED {
        "NOT_INTERESTED"@
    } else if id == PEERMESSAGE_HAVE {
        "HAVE"@
    } else if id == PEERMESSAGE_BITFIELD {
        "BITFIELD"@
    } else if id == PEERMESSAGE_REQUEST {
        "REQUEST"@
    } else if id == PEERMESSAGE_PIECE {
        "PIECE"@
    } else if id == PEERMESSAGE_CANCEL {
        "CANCEL"@
    } else {
        "PORT"@
    }
}

/// Whether an error value reports what the model says, of the payload `s`.
pub open spec fn reports(error: PeerMessageError<'_>, model: PayloadError, s: Seq<u8>) -> bool {
    match model {
        PayloadError::UnknownId(id) => error matches PeerMessageError::UnknownId(i, bytes) && i
            == id && bytes@ == s,
        PayloadError::BadLength(id) => error matches PeerMessageError::BadLength(name, len, bytes)
            && name@ == kind_name(id) && bytes@ == s && len == if s.len() <= u32::MAX {
            s.len() as u32
        } else {
            u32::MAX
        },
    }
}

/// A message that can be sent and is received as sent comes back from its
/// frame: the four bytes of length count the rest of the frame, and the
/// rest is a payload that holds the message.
pub proof fn law_frame_round_trip(m: Message)
    requires
        sendable(m),
        faithful(m),
    ensures
        frame_of(m).len() >= 4,
        4 + be_u32(frame_of(m).subrange(0, 4)) == frame_of(m).len(),
        decode_payload(frame_of(m).skip(4)) == Ok::<Message, PayloadError>(m),
{
    let p = payload_of(m);
    let f = frame_of(m);
    lemma_be_u32_round_trip(p.len() as u32);
    assert(f.subrange(0, 4) =~= u32_be_bytes(p.len() as u32));
    assert(f.skip(4) =~= p);
    lemma_payload_round_trip(m);
}

/// The payload of a message that can be sent and is received as sent holds
/// that message.
pub proof fn lemma_payload_round_trip(m: Message)
    requires
        sendable(m),
        faithful(m),
    ensures
        decode_payload(payload_of(m)) == Ok::<Message, PayloadError>(m),
{
    let p = payload_of(m);
    match m {
        Message::Have { index } => {
            assert(p.subrange(1, 5) =~= u32_be_bytes(index));
            lemma_be_u32_round_trip(index);
        },
        Message::Bitfield { bitfield } => {
            assert(p.skip(1) =~= bitfield);
        },
        Message::Request { block } => {
            assert(p.subrange(1, 13) =~= block);
        },
        Message::Cancel { block } => {
            assert(p.subrange(1, 13) =~= block);
        },
        Message::Piece { block, data } => {
            assert(p.subrange(1, 9) =~= block.take(8));
            assert(p.skip(9) =~= data);
            lemma_u32_be_bytes_round_trip(block.subrange(8, 12));
            assert(block.take(8) + block.subrange(8, 12) =~= block);
        },
        Message::Port { port } => {
            assert(p.subrange(1, 3) =~= u16_be_bytes(port));
            lemma_be_u16_round_trip(port);
        },
        _ => {},
    }
}

/// Every message that is read from a payload can be sent and is received
/// as sent.
pub proof fn law_decoded_messages_are_faithful(s: Seq<u8>)
    requires
        s.len() <= PEERMESSAGE_PIECE_MAX_LEN,
    ensures
        decode_payload(s) matches Ok(m) ==> sendable(m) && faithful(m) && payload_of(m) == s,
{
    match decode_payload(s) {
        Ok(m) => {
            match m {
                Message::Have { index } => {
                    lemma_u32_be_bytes_round_trip(s.subrange(1, 5));
                    assert(payload_of(m) =~= s);
                },
                Message::Port { port } => {
                    lemma_u16_be_bytes_round_trip(s.subrange(1, 3));
                    assert(payload_of(m) =~= s);
                },
                Message::Piece { block, data } => {
                    lemma_be_u32_round_trip((s.len() - 9) as u32);
                    assert(block.subrange(8, 12) =~= u32_be_bytes((s.len() - 9) as u32));
                    assert(block.take(8) =~= s.subrange(1, 9));
                    assert(payload_of(m) =~= s);
                },
                _ => {
                    assert(payload_of(m) =~= s);
                },
            }
        },
        Err(_) => {},
    }
}

/// The first twenty-eight bytes of a handshake as this library sends it.
pub fn prelude_bytes() -> (bytes: [u8; 28])
    ensures
        bytes@ == prelude(),
{
    let bytes: [u8; 28] = [
        19, 66, 105, 116, 84, 111, 114, 114, 101, 110, 116, 32, 112, 114, 111, 116, 111, 99, 111,
        108, 0, 0, 0, 0, 0, 0, 0, 0,
    ];
    assert(bytes@ =~= prelude());
    bytes
}

/// Whether the bytes start with the protocol prefix: 19 and the protocol's
/// name.
pub fn starts_with_protocol_prefix(input: &[u8]) -> (ok: bool)
    ensures
        ok == (input@.len() >= 20 && input@.take(20) == protocol_prefix()),
{
    if input.len() < 20 {
        return false;
    }
    let expected = prelude_bytes();
    let mut i: usize = 0;
    while i < 20
        invariant
            i <= 20,
            input@.len() >= 20,
            expected@ == prelude(),
            forall|j: int| 0 <= j < i ==> input@[j] == protocol_prefix()[j],
        decreases 20 - i,
    {
        if input[i] != expected[i] {
            assert(input@.take(20)[i as int] != protocol_prefix()[i as int]);
            return false;
        }
        i += 1;
    }
    assert(input@.take(20) =~= protocol_prefix());
    true
}

impl PeerMessage {
    /// Appends the message as it travels to `w`, and returns the number of
    /// bytes appended. A message whose payload would be longer than 16 393
    /// bytes is not written.
    pub fn write_to(self, w: &mut Vec<u8>) -> (r: Result<usize, WireError>)
        ensures
            sendable(self@) ==> r == Ok::<usize, WireError>(frame_of(self@).len() as usize),
            sendable(self@) ==> final(w)@ == old(w)@ + frame_of(self@),
            !sendable(self@) ==> r == Err::<usize, WireError>(WireError::FrameTooLarge),
            !sendable(self@) ==> final(w)@ == old(w)@,
    {
        let ghost m = self@;
        let ghost start = w@;
        match self {
            PeerMessage::Handshake { info_hash, peer_id } => {
                let head = prelude_bytes();
                append_slice(w, head.as_slice());
                append_slice(w, info_hash.as_slice());
                append_slice(w, peer_id.as_slice());
                assert(w@ =~= start + frame_of(m));
                Ok(HANDSHAKE_LEN)
            },
            PeerMessage::KeepAlive => {
                push_be_u32(w, 0);
                assert(w@ =~= start + frame_of(m));
                Ok(4)
            },
            PeerMessage::Choke => {
                push_be_u32(w, 1);
                w.push(PEERMESSAGE_CHOKE);
                assert(w@ =~= start + frame_of(m));
                Ok(5)
            },
            PeerMessage::Unchoke => {
                push_be_u32(w, 1);
                w.push(PEERMESSAGE_UNCHOKE);
                assert(w@ =~= start + frame_of(m));
                Ok(5)
            },
            PeerMessage::Interested => {
                push_be_u32(w, 1);
                w.push(PEERMESSAGE_INTERESTED);
                assert(w@ =~= start + frame_of(m));
                Ok(5)
            },
            PeerMessage::NotInterested => {
                push_be_u32(w, 1);
                w.push(PEERMESSAGE_NOT_INTERESTED);
                assert(w@ =~= start + frame_of(m));
                Ok(5)
            },
            PeerMessage::Have { index } => {
                push_be_u32(w, 5);
                w.push(PEERMESSAGE_HAVE);
                push_be_u32(w, index);
                assert(w@ =~= start + frame_of(m));
                Ok(9)
            },
            PeerMessage::Bitfield { bitfield } => {
                if bitfield.len() > PEERMESSAGE_PIECE_MAX_LEN - 1 {
                    return Err(WireError::FrameTooLarge);
                }
                push_be_u32(w, (1 + bitfield.len()) as u32);
                w.push(PEERMESSAGE_BITFIELD);
                append_slice(w, bitfield.as_slice());
                assert(w@ =~= start + frame_of(m));
                Ok(5 + bitfield.len())
            },
            PeerMessage::Request { block } => {
                proof {
                    block.lemma_len();
                }
                push_be_u32(w, 13);
                w.push(PEERMESSAGE_REQUEST);
                let bytes = block.to_be_bytes();
                append_slice(w, bytes.as_slice());
                assert(w@ =~= start + frame_of(m));
                Ok(17)
            },
            PeerMessage::Piece { block, data } => {
                proof {
                    block.lemma_len();
                }
                if data.len() > PEERMESSAGE_PIECE_MAX_LEN - 9 {
                    return Err(WireError::FrameTooLarge);
                }
                push_be_u32(w, (9 + data.len()) as u32);
                w.push(PEERMESSAGE_PIECE);
                let bytes = block.to_be_bytes_without_len();
                append_slice(w, bytes.as_slice());
                append_slice(w, data.as_slice());
                assert(w@ =~= start + frame_of(m));
                Ok(13 + data.len())
            },
            PeerMessage::Cancel { block } => {
                proof {
                    block.lemma_len();
                }
                push_be_u32(w, 13);
                w.push(PEERMESSAGE_CANCEL);
                let bytes = block.to_be_bytes();
                append_slice(w, bytes.as_slice());
                assert(w@ =~= start + frame_of(m));
                Ok(17)
            },
            PeerMessage::Port { port } => {
                push_be_u32(w, 3);
                w.push(PEERMESSAGE_PORT);
                push_be_u16(w, port);
                assert(w@ =~= start + frame_of(m));
                Ok(7)
            },
        }
    }

    /// The message as it travels, or nothing where its payload would be
    /// longer than 16 393 bytes.
    pub fn to_bytes(self) -> (r: Option<Vec<u8>>)
        ensures
            sendable(self@) ==> (r matches Some(bytes) && bytes@ == frame_of(self@)),
            !sendable(self@) ==> r is None,
    {
        let mut out: Vec<u8> = Vec::new();
        match self.write_to(&mut out) {
            Ok(_) => {
                assert(out@ =~= frame_of(self@));
                Some(out)
            },
            Err(_) => None,
        }
    }

    /// The message that a payload holds. Every message that is returned
    /// could have been sent, and would be received as this one.
    pub fn try_from<'a>(input: &'a [u8]) -> (r: Result<PeerMessage, PeerMessageError<'a>>)
        ensures
            match decode_payload(input@) {
                Ok(m) => r matches Ok(message) && message@ == m,
                Err(e) => r matches Err(error) && reports(error, e, input@),
            },
    {
        if input.len() == 0 {
            return Ok(PeerMessage::KeepAlive);
        }
        let id: u8 = input[0];
        let len: u32 = if input.len() <= u32::MAX as usize {
            input.len() as u32
        } else {
            u32::MAX
        };
        if id == PEERMESSAGE_CHOKE {
            if input.len() == 1 {
                Ok(PeerMessage::Choke)
            } else {
                Err(PeerMessageError::BadLength("CHOKE", len, input))
            }
        } else if id == PEERMESSAGE_UNCHOKE {
            if input.len() == 1 {
                Ok(PeerMessage::Unchoke)
            } else {
                Err(PeerMessageError::BadLength("UNCHOKE", len, input))
            }
        } else if id == PEERMESSAGE_INTERESTED {
            if input.len() == 1 {
                Ok(PeerMessage::Interested)
            } else {
                Err(PeerMessageError::BadLength("INTERESTED", len, input))
            }
        } else if id == PEERMESSAGE_NOT_INTERESTED {
            if input.len() == 1 {
                Ok(PeerMessage::NotInterested)
            } else {
                Err(PeerMessageError::BadLength("NOT_INTERESTED", len, input))
            }
        } else if id == PEERMESSAGE_HAVE {
            if input.len() == 5 {
                Ok(PeerMessage::Have { index: read_be_u32(input, 1) })
            } else {
                Err(PeerMessageError::BadLength("HAVE", len, input))
            }
        } else if id == PEERMESSAGE_BITFIELD {
            if input.len() <= PEERMESSAGE_PIECE_MAX_LEN {
                let bitfield = copy_range(input, 1, input.len());
                assert(bitfield@ =~= input@.skip(1));
                Ok(PeerMessage::Bitfield { bitfield })
            } else {
                Err(PeerMessageError::BadLength("BITFIELD", len, input))
            }
        } else if id == PEERMESSAGE_REQUEST {
            if input.len() == 13 {
                Ok(PeerMessage::Request { block: block_at(input, 1) })
            } else {
                Err(PeerMessageError::BadLength("REQUEST", len, input))
            }
        } else if id == PEERMESSAGE_PIECE {
            if 9 <= input.len() && input.len() <= PEERMESSAGE_PIECE_MAX_LEN {
                let mut head: [u8; 8] = [0u8;8];
                let mut i: usize = 0;
                while i < 8
                    invariant
                        i <= 8,
                        input@.len() >= 9,
                        forall|j: int| 0 <= j < i ==> head@[j] == input@[j + 1],
                    decreases 8 - i,
                {
                    head[i] = input[i + 1];
                    i += 1;
                }
                assert(head@ =~= input@.subrange(1, 9));
                let data = copy_range(input, 9, input.len());
                assert(data@ =~= input@.skip(9));
                let block = BlockRef::from_be_bytes_with_len(head, (input.len() - 9) as u32);
                Ok(PeerMessage::Piece { block, data })
            } else {
                Err(PeerMessageError::BadLength("PIECE", len, input))
            }
        } else if id == PEERMESSAGE_CANCEL {
            if input.len() == 13 {
                Ok(PeerMessage::Cancel { block: block_at(input, 1) })
            } else {
                Err(PeerMessageError::BadLength("CANCEL", len, input))
            }
        } else if id == PEERMESSAGE_PORT {
            if input.len() == 3 {
                Ok(PeerMessage::Port { port: read_be_u16(input, 1) })
            } else {
                Err(PeerMessageError::BadLength("PORT", len, input))
            }
        } else {
            Err(PeerMessageError::UnknownId(id, input))
        }
    }
}

/// The block reference held in the twelve bytes at `pos`.
pub fn block_at(input: &[u8], pos: usize) -> (block: BlockRef)
    requires
        pos + 12 <= input.len(),
    ensures
        block@ == input@.subrange(pos as int, pos + 12),
{
    let mut bytes: [u8; 12] = [0u8;12];
    let mut i: usize = 0;
    while i < 12
        invariant
            i <= 12,
            pos + 12 <= input.len(),
            forall|j: int| 0 <= j < i ==> bytes@[j] == input@[pos + j],
        decreases 12 - i,
    {
        bytes[i] = input[pos + i];
        i += 1;
    }
    assert(bytes@ =~= input@.subrange(pos as int, pos + 12));
    BlockRef::from_be_bytes(bytes)
}

/// What a stretch of received bytes starts with, as a model: a message and
/// the position after its frame, too little for a frame, or a frame without
/// a message and the position after it. A frame that announces more than
/// 16 393 bytes makes all of the bytes invalid: nothing after it can be
/// told apart.
pub enum Parsed {
    Complete(Message, int),
    Incomplete,
    Invalid(int),
}

/// What the bytes `s` start with.
pub open spec fn parse_frame(s: Seq<u8>) -> Parsed {
    if s.len() < 4 {
        Parsed::Incomplete
    } else {
        let len = be_u32(s.subrange(0, 4));
        if len > PEERMESSAGE_PIECE_MAX_LEN {
            Parsed::Invalid(s.len() as int)
        } else if s.len() < 4 + len {
            Parsed::Incomplete
        } else {
            match decode_payload(s.subrange(4, 4 + len)) {
                Ok(m) => Parsed::Complete(m, 4 + len),
                Err(_) => Parsed::Invalid(4 + len),
            }
        }
    }
}

impl<'a> ParsedPeerMessage<'a> {
    /// Tells what the received bytes start with.
    pub fn from(input: &'a [u8]) -> (parsed: ParsedPeerMessage<'a>)
        ensures
            match parse_frame(input@) {
                Parsed::Complete(m, end) => parsed matches ParsedPeerMessage::Complete(
                    message,
                    rest,
                ) && message@ == m && rest@ == input@.skip(end),
                Parsed::Incomplete => parsed matches ParsedPeerMessage::Incomplete(all) && all@
                    == input@,
                Parsed::Invalid(end) => parsed matches ParsedPeerMessage::Invalid(frame, rest)
                    && frame@ == input@.take(end) && rest@ == input@.skip(end),
            },
    {
        if input.len() < 4 {
            return ParsedPeerMessage::Incomplete(input);
        }
        let len: usize = read_be_u32(input, 0) as usize;
        if len > PEERMESSAGE_PIECE_MAX_LEN {
            let rest = slice_subrange(input, input.len(), input.len());
            assert(rest@ =~= input@.skip(input@.len() as int));
            assert(input@ =~= input@.take(input@.len() as int));
            return ParsedPeerMessage::Invalid(input, rest);
        }
        if input.len() - 4 < len {
            return ParsedPeerMessage::Incomplete(input);
        }
        let payload = slice_subrange(input, 4, 4 + len);
        let rest = slice_subrange(input, 4 + len, input.len());
        assert(rest@ =~= input@.skip(4 + len));
        match PeerMessage::try_from(payload) {
            Ok(message) => ParsedPeerMessage::Complete(message, rest),
            Err(_) => {
                let frame = slice_subrange(input, 0, 4 + len);
                assert(frame@ =~= input@.take(4 + len));
                ParsedPeerMessage::Invalid(frame, rest)
            },
        }
    }
}

/// A frame of a message that can be sent and is received as sent is told
/// to be that message, whatever follows the frame.
pub proof fn law_parse_frame_of(m: Message, tail: Seq<u8>)
    requires
        sendable(m),
        faithful(m),
    ensures
        parse_frame(frame_of(m) + tail) == Parsed::Complete(m, frame_of(m).len() as int),
{
    law_frame_round_trip(m);
    let f = frame_of(m);
    let s = f + tail;
    assert(s.subrange(0, 4) =~= f.subrange(0, 4));
    assert(s.subrange(4, f.len() as int) =~= f.skip(4));
}

} // verus!

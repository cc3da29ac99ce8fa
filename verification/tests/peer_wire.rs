use toytorrent::ident::{BlockRef, InfoHash, PeerId};
use toytorrent::peer::connection::{
    Active, Connection, ConnectionAction, ConnectionEvent, ConnectionState, HandshakeStep,
    PendingIncoming,
};
use toytorrent::peer::message::{prelude_bytes, starts_with_protocol_prefix};
use toytorrent::peer::{
    ParsedPeerMessage, PeerMessage, PeerMessageError, WireError, PEERMESSAGE_OVERHEAD_MAX_LEN,
    PEERMESSAGE_PIECE_MAX_LEN,
};

fn frame(message: PeerMessage) -> Vec<u8> {
    let mut out = Vec::new();
    let written = message.write_to(&mut out).unwrap();
    assert_eq!(written, out.len());
    out
}

fn all_kinds() -> Vec<PeerMessage> {
    vec![
        PeerMessage::KeepAlive,
        PeerMessage::Choke,
        PeerMessage::Unchoke,
        PeerMessage::Interested,
        PeerMessage::NotInterested,
        PeerMessage::Have { index: 0x01020304 },
        PeerMessage::Bitfield { bitfield: vec![0xff, 0x80, 0] },
        PeerMessage::Bitfield { bitfield: vec![] },
        PeerMessage::Request { block: BlockRef::new(1, 2, 3) },
        PeerMessage::Piece { block: BlockRef::new(4, 5, 6), data: vec![1, 2, 3, 4, 5, 6] },
        PeerMessage::Piece { block: BlockRef::new(4, 5, 0), data: vec![] },
        PeerMessage::Cancel { block: BlockRef::new(7, 8, 9) },
        PeerMessage::Port { port: 6881 },
    ]
}

#[test]
fn each_message_has_its_frame() {
    assert_eq!(vec![0, 0, 0, 0], frame(PeerMessage::KeepAlive));
    assert_eq!(vec![0, 0, 0, 1, 0], frame(PeerMessage::Choke));
    assert_eq!(vec![0, 0, 0, 1, 1], frame(PeerMessage::Unchoke));
    assert_eq!(vec![0, 0, 0, 1, 2], frame(PeerMessage::Interested));
    assert_eq!(vec![0, 0, 0, 1, 3], frame(PeerMessage::NotInterested));
    assert_eq!(
        vec![0, 0, 0, 5, 4, 1, 2, 3, 4],
        frame(PeerMessage::Have { index: 0x01020304 })
    );
    assert_eq!(
        vec![0, 0, 0, 4, 5, 0xff, 0x80, 0],
        frame(PeerMessage::Bitfield { bitfield: vec![0xff, 0x80, 0] })
    );
    assert_eq!(
        vec![0, 0, 0, 13, 6, 0, 0, 0, 1, 0, 0, 0, 2, 0, 0, 0, 3],
        frame(PeerMessage::Request { block: BlockRef::new(1, 2, 3) })
    );
    assert_eq!(
        vec![0, 0, 0, 12, 7, 0, 0, 0, 4, 0, 0, 0, 5, 9, 8, 7],
        frame(PeerMessage::Piece { block: BlockRef::new(4, 5, 3), data: vec![9, 8, 7] })
    );
    assert_eq!(
        vec![0, 0, 0, 13, 8, 0, 0, 0, 7, 0, 0, 0, 8, 0, 0, 0, 9],
        frame(PeerMessage::Cancel { block: BlockRef::new(7, 8, 9) })
    );
    assert_eq!(vec![0, 0, 0, 3, 9, 0x1a, 0xe1], frame(PeerMessage::Port { port: 6881 }));
    assert_eq!(16393, PEERMESSAGE_PIECE_MAX_LEN);
    assert_eq!(13, PEERMESSAGE_OVERHEAD_MAX_LEN);
}

#[test]
fn the_handshake_is_sixty_eight_bytes() {
    let bytes = frame(PeerMessage::Handshake {
        info_hash: InfoHash::from([0xaa; 20]),
        peer_id: PeerId::from([0xbb; 20]),
    });
    assert_eq!(68, bytes.len());
    assert_eq!(0x13, bytes[0]);
    assert_eq!(b"BitTorrent protocol", &bytes[1..20]);
    assert_eq!(&[0u8; 8], &bytes[20..28]);
    assert_eq!(&[0xaa; 20], &bytes[28..48]);
    assert_eq!(&[0xbb; 20], &bytes[48..68]);
    assert_eq!(&bytes[..28], &prelude_bytes()[..]);
    assert!(starts_with_protocol_prefix(&bytes));
    assert!(!starts_with_protocol_prefix(&bytes[..19]));
    assert!(!starts_with_protocol_prefix(b"\x19BitTorrent protocol\0\0\0\0\0\0\0\0"));
}

#[test]
fn frames_count_their_payload_and_come_back_as_the_message() {
    for message in all_kinds() {
        let bytes = frame(message.clone());
        let length_field = u32::from_be_bytes(bytes[0..4].try_into().unwrap()) as usize;
        assert_eq!(4 + length_field, bytes.len());
        assert_eq!(message, PeerMessage::try_from(&bytes[4..]).unwrap());
        match ParsedPeerMessage::from(&bytes[..]) {
            ParsedPeerMessage::Complete(back, rest) => {
                assert_eq!(message, back);
                assert!(rest.is_empty());
            }
            other => panic!("expected a message, got {:?}", other),
        }
        assert_eq!(Some(bytes), message.to_bytes());
    }
}

#[test]
fn a_piece_comes_back_with_the_length_of_its_data() {
    // The length of a piece's block is not sent: it is the length of the data.
    let bytes = frame(PeerMessage::Piece { block: BlockRef::new(4, 5, 999), data: vec![1, 2] });
    assert_eq!(
        PeerMessage::Piece { block: BlockRef::new(4, 5, 2), data: vec![1, 2] },
        PeerMessage::try_from(&bytes[4..]).unwrap()
    );
}

#[test]
fn payloads_that_are_no_message() {
    match PeerMessage::try_from(&[0u8, 1][..]) {
        Err(PeerMessageError::BadLength("CHOKE", 2, bytes)) => assert_eq!(&[0u8, 1][..], bytes),
        other => panic!("{:?}", other),
    }
    assert!(matches!(
        PeerMessage::try_from(&[1u8, 1][..]),
        Err(PeerMessageError::BadLength("UNCHOKE", 2, _))
    ));
    assert!(matches!(
        PeerMessage::try_from(&[2u8, 1][..]),
        Err(PeerMessageError::BadLength("INTERESTED", 2, _))
    ));
    assert!(matches!(
        PeerMessage::try_from(&[3u8, 1, 1][..]),
        Err(PeerMessageError::BadLength("NOT_INTERESTED", 3, _))
    ));
    assert!(matches!(
        PeerMessage::try_from(&[4u8, 1][..]),
        Err(PeerMessageError::BadLength("HAVE", 2, _))
    ));
    assert!(matches!(
        PeerMessage::try_from(&[6u8, 1][..]),
        Err(PeerMessageError::BadLength("REQUEST", 2, _))
    ));
    assert!(matches!(
        PeerMessage::try_from(&[7u8, 0, 0, 0, 0, 0, 0, 0][..]),
        Err(PeerMessageError::BadLength("PIECE", 8, _))
    ));
    assert!(matches!(
        PeerMessage::try_from(&[8u8][..]),
        Err(PeerMessageError::BadLength("CANCEL", 1, _))
    ));
    assert!(matches!(
        PeerMessage::try_from(&[9u8, 1][..]),
        Err(PeerMessageError::BadLength("PORT", 2, _))
    ));
    match PeerMessage::try_from(&[10u8, 1][..]) {
        Err(PeerMessageError::UnknownId(10, bytes)) => assert_eq!(&[10u8, 1][..], bytes),
        other => panic!("{:?}", other),
    }
    let mut long = vec![5u8];
    long.resize(PEERMESSAGE_PIECE_MAX_LEN + 1, 0);
    assert!(matches!(
        PeerMessage::try_from(&long[..]),
        Err(PeerMessageError::BadLength("BITFIELD", 16394, _))
    ));
    long[0] = 7;
    assert!(matches!(
        PeerMessage::try_from(&long[..]),
        Err(PeerMessageError::BadLength("PIECE", 16394, _))
    ));
    assert_eq!(PeerMessage::KeepAlive, PeerMessage::try_from(&[][..]).unwrap());
}

#[test]
fn messages_that_are_too_long_are_not_written() {
    let mut out = vec![1, 2, 3];
    let too_long = PeerMessage::Piece { block: BlockRef::new(0, 0, 0), data: vec![0; 16385] };
    assert_eq!(Err(WireError::FrameTooLarge), too_long.clone().write_to(&mut out));
    assert_eq!(vec![1, 2, 3], out);
    assert_eq!(None, too_long.to_bytes());
    let longest = PeerMessage::Piece { block: BlockRef::new(0, 0, 16384), data: vec![0; 16384] };
    assert_eq!(Ok(4 + 16393), longest.write_to(&mut out));
    assert_eq!(3 + 4 + 16393, out.len());
    assert_eq!(
        Err(WireError::FrameTooLarge),
        PeerMessage::Bitfield { bitfield: vec![0; 16393] }.write_to(&mut out)
    );
    assert_eq!(
        Ok(4 + 16393),
        PeerMessage::Bitfield { bitfield: vec![0; 16392] }.write_to(&mut Vec::new())
    );
}

#[test]
fn received_bytes_are_told_apart() {
    assert!(matches!(
        ParsedPeerMessage::from(&[0u8, 0, 0][..]),
        ParsedPeerMessage::Incomplete(all) if all == [0u8, 0, 0]
    ));
    assert!(matches!(
        ParsedPeerMessage::from(&[0u8, 0, 0, 2, 4][..]),
        ParsedPeerMessage::Incomplete(all) if all.len() == 5
    ));
    match ParsedPeerMessage::from(&[0u8, 0, 0, 1, 1, 0, 0, 0, 0, 9][..]) {
        ParsedPeerMessage::Complete(message, rest) => {
            assert_eq!(PeerMessage::Unchoke, message);
            assert_eq!(&[0u8, 0, 0, 0, 9][..], rest);
        }
        other => panic!("{:?}", other),
    }
    match ParsedPeerMessage::from(&[0u8, 0, 0, 2, 1, 0, 7][..]) {
        ParsedPeerMessage::Invalid(bad, rest) => {
            assert_eq!(&[0u8, 0, 0, 2, 1, 0][..], bad);
            assert_eq!(&[7u8][..], rest);
        }
        other => panic!("{:?}", other),
    }
    // 16394 is one more than a frame may announce.
    match ParsedPeerMessage::from(&[0u8, 0, 0x40, 0x0a, 7, 7][..]) {
        ParsedPeerMessage::Invalid(bad, rest) => {
            assert_eq!(6, bad.len());
            assert!(rest.is_empty());
        }
        other => panic!("{:?}", other),
    }
}

fn me() -> PeerId {
    PeerId::from([1; 20])
}

fn them() -> PeerId {
    PeerId::from([2; 20])
}

fn hash() -> InfoHash {
    InfoHash::from([3; 20])
}

fn received(bytes: &[u8]) -> ConnectionEvent {
    ConnectionEvent::Received(bytes.to_vec())
}

fn a_prelude_with_reserved_bits() -> Vec<u8> {
    let mut bytes = prelude_bytes().to_vec();
    bytes[25] = 0x10;
    bytes[27] = 0x05;
    bytes
}

#[test]
fn an_incoming_handshake_waits_for_approval() {
    let c = Connection::accept(me());
    assert_eq!(Some(28), c.awaits());
    assert!(!c.is_active());

    let (c, action) = c.step(received(&a_prelude_with_reserved_bits()));
    assert_eq!(ConnectionAction::Send(prelude_bytes().to_vec()), action);
    assert_eq!(Some(20), c.awaits());

    let (c, action) = c.step(received(hash().as_slice()));
    assert_eq!(ConnectionAction::AskApproval(hash()), action);
    assert_eq!(None, c.awaits());
    assert_eq!(
        ConnectionState::PendingIncoming(PendingIncoming {
            step: HandshakeStep::Approval,
            info_hash: Some(hash())
        }),
        c.state
    );

    let (c, action) = c.step(ConnectionEvent::Approval(true));
    assert_eq!(ConnectionAction::Send(hash().as_slice().to_vec()), action);
    assert_eq!(Some(20), c.awaits());

    let (c, action) = c.step(received(them().as_slice()));
    assert_eq!(
        ConnectionAction::Connected {
            send: me().as_slice().to_vec(),
            info_hash: hash(),
            peer_id: them()
        },
        action
    );
    assert!(c.is_active());
    assert_eq!(Some(4), c.awaits());
    assert_eq!(
        ConnectionState::Active(Active { info_hash: hash(), peer_id: them(), payload: None }),
        c.state
    );
}

#[test]
fn an_unknown_info_hash_closes_the_connection_before_any_message() {
    let c = Connection::accept(me());
    let (c, _) = c.step(received(&prelude_bytes()));
    let (c, action) = c.step(received(&[9; 20]));
    assert_eq!(ConnectionAction::AskApproval(InfoHash::from([9; 20])), action);

    // Bytes that arrive while the coordinator is asked are not taken as a message.
    let (early, action) = c.step(received(&[0, 0, 0, 1]));
    assert_eq!(ConnectionAction::Close(Some(WireError::InvalidHandshake)), action);
    assert!(early.is_closed());

    let (c, action) = c.step(ConnectionEvent::Approval(false));
    assert_eq!(ConnectionAction::Close(Some(WireError::UnknownInfoHash)), action);
    assert!(c.is_closed());
    assert_eq!(None, c.awaits());

    let (c, action) = c.step(received(&[0, 0, 0, 0]));
    assert_eq!(ConnectionAction::Close(None), action);
    assert!(c.is_closed());
}

#[test]
fn a_wrong_prelude_is_an_invalid_handshake() {
    let mut bytes = prelude_bytes().to_vec();
    bytes[0] = 0x19;
    let (c, action) = Connection::accept(me()).step(received(&bytes));
    assert_eq!(ConnectionAction::Close(Some(WireError::InvalidHandshake)), action);
    assert!(c.is_closed());

    let (_, action) = Connection::accept(me()).step(received(&prelude_bytes()[..27]));
    assert_eq!(ConnectionAction::Close(Some(WireError::InvalidHandshake)), action);

    let (_, action) = Connection::accept(me()).step(ConnectionEvent::Failed);
    assert_eq!(ConnectionAction::Close(None), action);

    let (_, action) = Connection::accept(me()).step(ConnectionEvent::Approval(true));
    assert_eq!(ConnectionAction::Close(Some(WireError::InvalidHandshake)), action);
}

#[test]
fn an_outgoing_handshake_sends_first() {
    let (c, first) = Connection::connect_to(me(), hash());
    assert_eq!(prelude_bytes().to_vec(), first);
    assert_eq!(Some(28), c.awaits());

    let (c, action) = c.step(received(&a_prelude_with_reserved_bits()));
    assert_eq!(ConnectionAction::Send(hash().as_slice().to_vec()), action);

    let (c, action) = c.step(received(hash().as_slice()));
    assert_eq!(ConnectionAction::Send(me().as_slice().to_vec()), action);

    let (c, action) = c.step(received(them().as_slice()));
    assert_eq!(
        ConnectionAction::Connected { send: vec![], info_hash: hash(), peer_id: them() },
        action
    );
    assert!(c.is_active());

    let (c, _) = Connection::connect_to(me(), hash());
    let (c, _) = c.step(received(&prelude_bytes()));
    let (c, action) = c.step(received(&[0; 20]));
    assert_eq!(ConnectionAction::Close(Some(WireError::UnknownInfoHash)), action);
    assert!(c.is_closed());

    let (c, _) = Connection::connect_to(me(), hash());
    let (_, action) = c.step(received(b"not a handshake at all......"));
    assert_eq!(ConnectionAction::Close(Some(WireError::InvalidHandshake)), action);
}

fn active() -> Connection {
    Connection {
        my_peer_id: me(),
        state: ConnectionState::Active(Active {
            info_hash: hash(),
            peer_id: them(),
            payload: None,
        }),
    }
}

#[test]
fn an_active_connection_reads_frames() {
    let (c, action) = active().step(received(&[0, 0, 0, 0]));
    assert_eq!(ConnectionAction::Deliver(PeerMessage::KeepAlive), action);
    assert_eq!(Some(4), c.awaits());

    let (c, action) = c.step(received(&[0, 0, 0, 5]));
    assert_eq!(ConnectionAction::Continue, action);
    assert_eq!(Some(5), c.awaits());

    let (c, action) = c.step(received(&[4, 0, 0, 0, 9]));
    assert_eq!(ConnectionAction::Deliver(PeerMessage::Have { index: 9 }), action);
    assert_eq!(Some(4), c.awaits());

    // A payload that holds no message is passed over.
    let (c, _) = c.step(received(&[0, 0, 0, 2]));
    let (c, action) = c.step(received(&[0, 0]));
    assert_eq!(ConnectionAction::Continue, action);
    assert_eq!(Some(4), c.awaits());

    let (c, action) = c.step(ConnectionEvent::Failed);
    assert_eq!(ConnectionAction::Close(None), action);
    assert!(c.is_closed());
}

#[test]
fn a_frame_of_16394_bytes_closes_the_connection() {
    let (c, action) = active().step(received(&16394u32.to_be_bytes()));
    assert_eq!(ConnectionAction::Close(Some(WireError::FrameTooLarge)), action);
    assert!(c.is_closed());

    let (c, action) = active().step(received(&16393u32.to_be_bytes()));
    assert_eq!(ConnectionAction::Continue, action);
    assert_eq!(Some(16393), c.awaits());

    let (_, action) = active().step(received(&u32::MAX.to_be_bytes()));
    assert_eq!(ConnectionAction::Close(Some(WireError::FrameTooLarge)), action);
}

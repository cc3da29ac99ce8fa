use toytorrent::client::announce::announce_url;
use toytorrent::client::bitfield::{set_piece, test_piece};
use toytorrent::client::{AnnounceClient, Coordinator, Incoming, IncomingEvent, Outcome, Outgoing, Peer, Signal};
use toytorrent::ident::{BlockRef, InfoHash, PeerId, PeerKey};
use toytorrent::metainfo::MetainfoFile;
use toytorrent::net::{IpAddr, SocketAddr};
use toytorrent::peer::PeerMessage;
use toytorrent::tracker::{Event, FailureResponse, Request, Response, SuccessResponse};

fn addr(port: u16) -> SocketAddr {
    SocketAddr { ip: IpAddr::V4(0x0a000001), port }
}

fn torrent() -> MetainfoFile {
    let mut file = Vec::new();
    file.extend_from_slice(b"d8:announce3:x/y4:infod4:name1:x6:lengthi3e12:piece lengthi2e6:pieces40:");
    for i in 0..40u8 {
        file.push(i);
    }
    file.extend_from_slice(b"ee");
    MetainfoFile::from_bytes(&file).unwrap()
}

#[test]
fn a_new_peer_chokes_and_is_choked() {
    let peer = Peer::new(PeerId::from([1; 20]), InfoHash::from([2; 20]), addr(1));
    assert!(peer.am_choking);
    assert!(peer.peer_choking);
    assert!(!peer.am_interested);
    assert!(!peer.peer_interested);
    assert!(peer.bitfield.is_empty());
    assert!(peer.am_requesting.is_empty());
    assert!(peer.peer_requesting.is_empty());
}

#[test]
fn messages_change_what_is_known_of_the_peer() {
    let mut peer = Peer::new(PeerId::from([1; 20]), InfoHash::from([2; 20]), addr(1));
    assert_eq!(None, peer.receive(PeerMessage::Unchoke));
    assert!(!peer.peer_choking);
    peer.receive(PeerMessage::Choke);
    assert!(peer.peer_choking);
    peer.receive(PeerMessage::Interested);
    assert!(peer.peer_interested);
    peer.receive(PeerMessage::NotInterested);
    assert!(!peer.peer_interested);
    assert!(peer.am_choking);
    assert!(!peer.am_interested);

    peer.receive(PeerMessage::Bitfield { bitfield: vec![0b1000_0000, 0] });
    assert_eq!(vec![0b1000_0000, 0], peer.bitfield);
    peer.receive(PeerMessage::Have { index: 9 });
    assert_eq!(vec![0b1000_0000, 0b0100_0000], peer.bitfield);
    peer.receive(PeerMessage::Have { index: 23 });
    assert_eq!(vec![0b1000_0000, 0b0100_0000, 0b0000_0001], peer.bitfield);
    peer.receive(PeerMessage::Have { index: 0 });
    assert_eq!(vec![0b1000_0000, 0b0100_0000, 0b0000_0001], peer.bitfield);

    peer.receive(PeerMessage::Request { block: BlockRef::new(1, 0, 10) });
    peer.receive(PeerMessage::Request { block: BlockRef::new(2, 0, 10) });
    peer.receive(PeerMessage::Request { block: BlockRef::new(1, 0, 10) });
    assert_eq!(3, peer.peer_requesting.len());
    peer.receive(PeerMessage::Cancel { block: BlockRef::new(1, 0, 10) });
    assert_eq!(vec![BlockRef::new(2, 0, 10)], peer.peer_requesting);
    peer.receive(PeerMessage::Cancel { block: BlockRef::new(9, 0, 10) });
    assert_eq!(1, peer.peer_requesting.len());

    peer.am_requesting.push(BlockRef::new(5, 0, 2));
    peer.am_requesting.push(BlockRef::new(6, 0, 2));
    let stored = peer.receive(PeerMessage::Piece { block: BlockRef::new(5, 0, 2), data: vec![7, 8] });
    assert_eq!(Some((BlockRef::new(5, 0, 2), vec![7, 8])), stored);
    assert_eq!(vec![BlockRef::new(6, 0, 2)], peer.am_requesting);

    assert_eq!(None, peer.receive(PeerMessage::KeepAlive));
    assert_eq!(None, peer.receive(PeerMessage::Port { port: 1 }));
    assert_eq!(vec![BlockRef::new(6, 0, 2)], peer.am_requesting);
}

#[test]
fn bits_of_a_bitfield() {
    let mut bitfield = vec![];
    assert!(!test_piece(&bitfield, 0));
    set_piece(&mut bitfield, 0);
    assert_eq!(vec![0x80], bitfield);
    set_piece(&mut bitfield, 7);
    assert_eq!(vec![0x81], bitfield);
    set_piece(&mut bitfield, 18);
    assert_eq!(vec![0x81, 0, 0x20], bitfield);
    assert!(test_piece(&bitfield, 0));
    assert!(!test_piece(&bitfield, 1));
    assert!(test_piece(&bitfield, 7));
    assert!(test_piece(&bitfield, 18));
    assert!(!test_piece(&bitfield, 17));
    assert!(!test_piece(&bitfield, 24));
    assert!(!test_piece(&bitfield, u32::MAX));
}

fn event(port: u16, event: IncomingEvent) -> Incoming {
    Incoming { from_socket_addr: addr(port), event }
}

fn is_done(outcome: Outcome) -> bool {
    matches!(outcome, Outcome::Done)
}

#[test]
fn the_coordinator_routes_events() {
    let mut coordinator = Coordinator::new();
    let metainfo = torrent();
    let served = *metainfo.info_hash();
    let unknown = InfoHash::from([0; 20]);
    coordinator.add_torrent(metainfo);
    assert!(coordinator.serves(&served));
    assert!(!coordinator.serves(&unknown));

    assert!(matches!(
        coordinator.handle(event(1, IncomingEvent::HandshakeInfoHash { info_hash: served })),
        Outcome::Reply(Signal::InfoHashOk)
    ));
    assert!(matches!(
        coordinator.handle(event(1, IncomingEvent::HandshakeInfoHash { info_hash: unknown })),
        Outcome::Reply(Signal::Close)
    ));
    assert_eq!(0, coordinator.connection_count());

    assert!(is_done(coordinator.handle(event(
        1,
        IncomingEvent::Connected { info_hash: served, peer_id: PeerId::from([1; 20]) }
    ))));
    assert!(is_done(coordinator.handle(event(
        2,
        IncomingEvent::Connected { info_hash: served, peer_id: PeerId::from([2; 20]) }
    ))));
    assert!(matches!(
        coordinator.handle(event(
            3,
            IncomingEvent::Connected { info_hash: unknown, peer_id: PeerId::from([3; 20]) }
        )),
        Outcome::Reply(Signal::Close)
    ));
    assert_eq!(2, coordinator.connection_count());
    assert_eq!(PeerId::from([2; 20]), coordinator.connection(1).peer_id);
    assert_eq!(addr(2), coordinator.connection(1).addr);

    assert!(is_done(coordinator.handle(event(
        2,
        IncomingEvent::Message { message: PeerMessage::Unchoke }
    ))));
    assert!(!coordinator.connection(1).peer_choking);
    assert!(coordinator.connection(0).peer_choking);

    // A message from an address without a peer changes nothing.
    assert!(is_done(coordinator.handle(event(
        9,
        IncomingEvent::Message { message: PeerMessage::Unchoke }
    ))));

    match coordinator.handle(event(
        1,
        IncomingEvent::Message {
            message: PeerMessage::Piece { block: BlockRef::new(0, 0, 2), data: vec![1, 2] },
        },
    )) {
        Outcome::Store { info_hash, block, data } => {
            assert_eq!(served, info_hash);
            assert_eq!(BlockRef::new(0, 0, 2), block);
            assert_eq!(vec![1, 2], data);
        }
        other => panic!("{:?}", other),
    }

    // A peer that connects again from the same address starts anew.
    assert!(is_done(coordinator.handle(event(
        2,
        IncomingEvent::Connected { info_hash: served, peer_id: PeerId::from([4; 20]) }
    ))));
    assert_eq!(2, coordinator.connection_count());
    assert!(coordinator.connection(1).peer_choking);
    assert_eq!(PeerId::from([4; 20]), coordinator.connection(1).peer_id);

    assert_eq!(
        vec![PeerId::from([1; 20]), PeerId::from([4; 20])],
        coordinator.torrent_peers(&served)
    );
    assert!(coordinator.torrent_peers(&unknown).is_empty());
    assert_eq!(Some(PeerId::from([4; 20])), coordinator.peer_id_at(&addr(2)));
    assert_eq!(None, coordinator.peer_id_at(&addr(9)));
    assert_eq!(addr(1), coordinator.peer_at(&addr(1)).unwrap().addr);
    assert!(coordinator.peer_at(&addr(9)).is_none());

    assert!(is_done(coordinator.handle(event(1, IncomingEvent::Closed))));
    assert_eq!(1, coordinator.connection_count());
    assert_eq!(addr(2), coordinator.connection(0).addr);
    assert!(is_done(coordinator.handle(event(1, IncomingEvent::Closed))));
    assert_eq!(1, coordinator.connection_count());
}

fn outgoing(hash: u8) -> Outgoing {
    Outgoing {
        announce_url: "http://tracker/announce".to_string(),
        info_hash: InfoHash::from([hash; 20]),
        uploaded: 1,
        downloaded: 2,
        left: 3,
        event: Some(Event::Started),
        numwant: Some(4),
    }
}

#[test]
fn the_announce_client_echoes_tracker_ids() {
    let mut client = AnnounceClient::new(
        PeerId::from([b'p'; 20]),
        Some(PeerKey::from_slice(b"k")),
        Some(IpAddr::V4(5)),
        6881,
    );
    let request = client.request_for(&outgoing(1));
    let mut expected = Request::new(InfoHash::from([1; 20]), PeerId::from([b'p'; 20]), 6881, 1, 2, 3);
    expected.ip = Some(IpAddr::V4(5));
    expected.key = Some(PeerKey::from_slice(b"k"));
    expected.event = Some(Event::Started);
    expected.numwant = Some(4);
    assert_eq!(expected, request);
    assert_eq!(None, client.tracker_id(&InfoHash::from([1; 20])));

    let with_id = |id: Option<&[u8]>| {
        Response::Success(SuccessResponse {
            warning_message: None,
            interval: 1,
            min_interval: None,
            tracker_id: id.map(|b| b.to_vec()),
            complete: None,
            incomplete: None,
            peers: vec![],
        })
    };
    client.record(InfoHash::from([1; 20]), &with_id(Some(b"one")));
    client.record(InfoHash::from([2; 20]), &with_id(Some(b"two")));
    client.record(InfoHash::from([1; 20]), &with_id(None));
    client.record(
        InfoHash::from([2; 20]),
        &Response::Failure(FailureResponse { failure_reason: "no".to_string() }),
    );
    assert_eq!(Some(b"one".to_vec()), client.tracker_id(&InfoHash::from([1; 20])));
    assert_eq!(Some(b"two".to_vec()), client.request_for(&outgoing(2)).trackerid);
    assert_eq!(None, client.request_for(&outgoing(3)).trackerid);
    client.record(InfoHash::from([1; 20]), &with_id(Some(b"uno")));
    assert_eq!(Some(b"uno".to_vec()), client.request_for(&outgoing(1)).trackerid);
    assert_eq!(Some(b"two".to_vec()), client.request_for(&outgoing(2)).trackerid);
    assert_eq!(2, client.tracker_ids.len());
}

#[test]
fn the_announce_url_joins_with_a_question_mark_or_an_ampersand() {
    let request = Request::new(InfoHash::from([b'a'; 20]), PeerId::from([b'b'; 20]), 1, 2, 3, 4);
    let query = "info_hash=aaaaaaaaaaaaaaaaaaaa&peer_id=bbbbbbbbbbbbbbbbbbbb&port=1&uploaded=2&downloaded=3&left=4";
    assert_eq!(
        format!("http://t/announce?{}", query).into_bytes(),
        announce_url("http://t/announce", &request)
    );
    assert_eq!(
        format!("http://t/announce?pass=1&{}", query).into_bytes(),
        announce_url("http://t/announce?pass=1", &request)
    );
}

use toytorrent::bencode::{BencodeValue, DecodeError, Dict};
use toytorrent::ident::{InfoHash, PeerId, PeerKey};
use toytorrent::net::{IpAddr, SocketAddr};
use toytorrent::query::QsError;
use toytorrent::tracker::announce::{failure, peer_count, RouteError, MAX_RESPONSE_PEERS};
use toytorrent::tracker::listing::sort_order;
use toytorrent::tracker::{
    announce, announce_route, Config, Event, FailureResponse, Peer, Peers, Request, RequestError,
    Response, ResponseError, SuccessResponse, Torrent, Torrents,
};

const QUERY: &str = "info_hash=uC%9D%5D%E3C%99%9A%B3w%C6%17%C2%C6G%90%29V%E2%82&peer_id=-TR4050-mtwvc5ch9psu&port=51413&uploaded=0&downloaded=0&left=5037662208&numwant=80&key=CE09B16B&compact=1&supportcrypto=1&event=started";

fn ubuntu_hash() -> InfoHash {
    InfoHash::from([
        0x75, 0x43, 0x9d, 0x5d, 0xe3, 0x43, 0x99, 0x9a, 0xb3, 0x77, 0xc6, 0x17, 0xc2, 0xc6, 0x47,
        0x90, 0x29, 0x56, 0xe2, 0x82,
    ])
}

fn canonical_request() -> Request {
    Request {
        info_hash: ubuntu_hash(),
        peer_id: PeerId::from_slice("-TR4050-mtwvc5ch9psu".as_bytes()).unwrap(),
        ip: None,
        port: 51413,
        uploaded: 0,
        downloaded: 0,
        left: 5037662208,
        event: Some(Event::Started),

        numwant: Some(80),
        key: Some(PeerKey::from_slice("CE09B16B".as_bytes())),
        compact: Some(true),
        supportcrypto: Some(true),
        requirecrypto: None,
        no_peer_id: None,
        trackerid: None,
    }
}

#[test]
fn tracker_announce_test() {
    let parsed = QUERY.parse::<Request>().unwrap();
    assert_eq!(ubuntu_hash(), parsed.info_hash);
    assert_eq!(
        PeerId::from_slice("-TR4050-mtwvc5ch9psu".as_bytes()).unwrap(),
        parsed.peer_id
    );
    assert_eq!(None, parsed.ip);
    assert_eq!(51413, parsed.port);
    assert_eq!(0, parsed.uploaded);
    assert_eq!(0, parsed.downloaded);
    assert_eq!(5037662208, parsed.left);
    assert_eq!(Some(Event::Started), parsed.event);
}

#[test]
fn mod_announce_test() {
    assert_eq!(Ok(canonical_request()), QUERY.parse::<Request>());
}

#[test]
fn lib_announce_test() {
    assert_eq!(Ok(canonical_request()), QUERY.parse::<Request>());
}

#[test]
fn hash_test() {
    let mut set = Peers::new();
    set.replace(Peer {
        last_seen: 1,
        peer_id: Some([0; 20].into()),
        addr: SocketAddr { ip: IpAddr::V4(0x7f000001), port: 65535 },
        uploaded: None,
        downloaded: None,
        left: None,
        key: None,
        supportcrypto: None,
        requirecrypto: None,
    });
    assert_eq!(1, set.len());
    set.replace(Peer {
        last_seen: 2,
        peer_id: Some([0; 20].into()),
        addr: SocketAddr { ip: IpAddr::V4(0x7f000001), port: 65535 },
        uploaded: None,
        downloaded: None,
        left: None,
        key: None,
        supportcrypto: None,
        requirecrypto: None,
    });

    assert_eq!(1, set.len());
    assert_eq!(2, set.peer_at(0).last_seen);
}

#[test]
fn requests_from_query_strings() {
    let minimal = "info_hash=aaaaaaaaaaaaaaaaaaaa&peer_id=bbbbbbbbbbbbbbbbbbbb&port=1&uploaded=2&downloaded=3&left=4";
    let request = Request::parse(minimal).unwrap();
    assert_eq!(
        Request::new(InfoHash::from([b'a'; 20]), PeerId::from([b'b'; 20]), 1, 2, 3, 4),
        request
    );

    let full = format!(
        "{}&ip=10.0.0.7&event=completed&numwant=0&key=%41b&compact=0&supportcrypto=yes&requirecrypto=1&no_peer_id=1&trackerid=xyz&unknown=1&flag&=empty",
        minimal
    );
    let request = Request::parse(&full).unwrap();
    assert_eq!(Some(IpAddr::V4(0x0a000007)), request.ip);
    assert_eq!(Some(Event::Completed), request.event);
    assert_eq!(Some(0), request.numwant);
    assert_eq!(Some(PeerKey::from_slice(b"Ab")), request.key);
    assert_eq!(Some(false), request.compact);
    assert_eq!(Some(false), request.supportcrypto);
    assert_eq!(Some(true), request.requirecrypto);
    assert_eq!(Some(true), request.no_peer_id);
    assert_eq!(Some(b"xyz".to_vec()), request.trackerid);

    // Of two clauses with one key the later one stays.
    let twice = format!("{}&port=9&left=0", minimal);
    let request = Request::parse(&twice).unwrap();
    assert_eq!(9, request.port);
    assert_eq!(0, request.left);

    // A value may hold an equals sign.
    let request = Request::parse(&format!("{}&trackerid=a=b", minimal)).unwrap();
    assert_eq!(Some(b"a=b".to_vec()), request.trackerid);
}

#[test]
fn each_request_error_has_its_input() {
    let minimal = "info_hash=aaaaaaaaaaaaaaaaaaaa&peer_id=bbbbbbbbbbbbbbbbbbbb&port=1&uploaded=2&downloaded=3&left=4";
    let with = |clause: &str| Request::parse(&format!("{}&{}", minimal, clause)).unwrap_err();
    assert_eq!(RequestError::MissingFields, Request::parse("").unwrap_err());
    assert_eq!(
        RequestError::MissingFields,
        Request::parse("info_hash=aaaaaaaaaaaaaaaaaaaa&peer_id=bbbbbbbbbbbbbbbbbbbb&port=1&uploaded=2&downloaded=3")
            .unwrap_err()
    );
    assert_eq!(
        RequestError::Identifier(QsError::TooFewCharacters),
        with("info_hash=short")
    );
    assert_eq!(
        RequestError::Identifier(QsError::TooManyCharacters),
        with("peer_id=bbbbbbbbbbbbbbbbbbbbb")
    );
    assert_eq!(RequestError::Identifier(QsError::BadEscape), with("peer_id=%zz"));
    assert_eq!(RequestError::Identifier(QsError::NonAscii), with("peer_id=\u{e9}"));
    assert_eq!(RequestError::Identifier(QsError::BadEscape), with("key=%4"));
    assert_eq!(RequestError::Identifier(QsError::NonAscii), with("trackerid=\u{e9}"));
    assert_eq!(RequestError::InvalidIp, with("ip=nowhere"));
    assert_eq!(RequestError::InvalidPort, with("port=65536"));
    assert_eq!(RequestError::InvalidPort, with("port="));
    assert_eq!(RequestError::InvalidUploaded, with("uploaded=-1"));
    assert_eq!(RequestError::InvalidDownloaded, with("downloaded=1.5"));
    assert_eq!(RequestError::InvalidLeft, with("left=18446744073709551616"));
    assert_eq!(RequestError::InvalidNumwant, with("numwant=many"));
    assert_eq!(RequestError::UnknownEvent, with("event=paused"));
    assert_eq!(Err(RequestError::UnknownEvent), "Started".parse::<Event>());
    assert_eq!(Ok(Event::Stopped), "stopped".parse::<Event>());
    // The first clause that is wrong decides.
    assert_eq!(RequestError::InvalidPort, with("port=x&event=paused"));

    assert_eq!(
        "Missing one or more required fields.",
        RequestError::MissingFields.message()
    );
    assert_eq!("Invalid \"ip\" value", RequestError::InvalidIp.message());
    assert_eq!("Invalid \"port\" value", RequestError::InvalidPort.message());
    assert_eq!("Invalid \"uploaded\" value", RequestError::InvalidUploaded.message());
    assert_eq!("Invalid \"downloaded\" value", RequestError::InvalidDownloaded.message());
    assert_eq!("Invalid \"left\" value", RequestError::InvalidLeft.message());
    assert_eq!("Invalid \"numwant\" value", RequestError::InvalidNumwant.message());
    assert_eq!("Unknown event", RequestError::UnknownEvent.message());
    assert_eq!(
        "Too few characters",
        RequestError::Identifier(QsError::TooFewCharacters).message()
    );
    assert_eq!("started", Event::Started.as_str());
    assert_eq!("completed", Event::Completed.as_str());
    assert_eq!("stopped", Event::Stopped.as_str());
}

#[test]
fn requests_as_query_strings() {
    let request = Request::new(ubuntu_hash(), PeerId::from([b'b'; 20]), 6881, 1, 2, 3);
    assert_eq!(
        "info_hash=uC%9d%5d%e3C%99%9a%b3w%c6%17%c2%c6G%90%29V%e2%82&peer_id=bbbbbbbbbbbbbbbbbbbb&port=6881&uploaded=1&downloaded=2&left=3",
        request.as_query_string()
    );
    assert_eq!(Ok(request.clone()), request.as_query_string().parse::<Request>());

    let mut full = canonical_request();
    full.ip = Some(IpAddr::V4(0x01020304));
    full.requirecrypto = Some(false);
    full.no_peer_id = Some(true);
    full.trackerid = Some(vec![0, b'x']);
    assert_eq!(
        "info_hash=uC%9d%5d%e3C%99%9a%b3w%c6%17%c2%c6G%90%29V%e2%82&peer_id=%2dTR4050%2dmtwvc5ch9psu&port=51413&uploaded=0&downloaded=0&left=5037662208&ip=1.2.3.4&event=started&numwant=80&key=CE09B16B&compact=1&supportcrypto=1&requirecrypto=0&no_peer_id=1&trackerid=%00x",
        full.as_query_string()
    );
    assert_eq!(full.as_query_string().into_bytes(), full.as_query_bytes());
    assert_eq!(Ok(full.clone()), full.as_query_string().parse::<Request>());

    let mut odd = canonical_request();
    odd.key = Some(PeerKey::from_slice(&[0, b'&', b'=', b'%', 255]));
    odd.trackerid = Some(vec![]);
    odd.ip = Some(IpAddr::V6(0x20010db8_00000000_00000000_00000001));
    odd.event = Some(Event::Stopped);
    odd.compact = Some(false);
    assert_eq!(
        "info_hash=uC%9d%5d%e3C%99%9a%b3w%c6%17%c2%c6G%90%29V%e2%82&peer_id=%2dTR4050%2dmtwvc5ch9psu&port=51413&uploaded=0&downloaded=0&left=5037662208&ip=2001:db8::1&event=stopped&numwant=80&key=%00%26%3d%25%ff&compact=0&supportcrypto=1&trackerid=",
        odd.as_query_string()
    );
    assert_eq!(Ok(odd.clone()), odd.as_query_string().parse::<Request>());
}

fn config() -> Config {
    Config { interval: 600, min_interval: Some(30), timeout_interval: 900 }
}

fn announce_of(id: u8, left: u64, event: Option<Event>) -> Request {
    let mut request = Request::new(InfoHash::from([7; 20]), PeerId::from([id; 20]), 1000 + id as u16, 0, 0, left);
    request.event = event;
    request
}

fn success(response: Response) -> SuccessResponse {
    match response {
        Response::Success(success) => success,
        Response::Failure(failure) => panic!("failure: {}", failure.failure_reason),
    }
}

#[test]
fn an_announce_is_answered_without_the_announcing_peer() {
    let mut torrents = Torrents::new();
    let ip = IpAddr::V4(0x0a000001);
    let request = QUERY.parse::<Request>().unwrap();
    let first = success(announce(&mut torrents, &request, ip, 100, &config()));
    assert!(first.peers.is_empty());
    assert_eq!(600, first.interval);
    assert_eq!(Some(30), first.min_interval);
    assert_eq!(None, first.tracker_id);
    assert_eq!(None, first.warning_message);
    assert_eq!(Some(0), first.complete);
    assert_eq!(Some(1), first.incomplete);

    let other = announce_of(2, 10, None);
    let mut other_request = other.clone();
    other_request.info_hash = ubuntu_hash();
    let second = success(announce(&mut torrents, &other_request, IpAddr::V4(0x0a000002), 101, &config()));
    assert_eq!(1, second.peers.len());
    assert_eq!(request.as_peer(ip, 100), second.peers[0]);
    assert_eq!(Some(request.peer_id), second.peers[0].peer_id);
    assert_eq!(SocketAddr { ip, port: 51413 }, second.peers[0].addr);
    assert_eq!(100, second.peers[0].last_seen);

    let again = success(announce(&mut torrents, &request, ip, 102, &config()));
    assert_eq!(1, again.peers.len());
    assert_eq!(Some(other_request.peer_id), again.peers[0].peer_id);
    assert_eq!(1, torrents.len());
    assert_eq!(2, torrents.torrent_at(0).peers.len());
}

#[test]
fn completed_announces_are_counted() {
    let mut torrents = Torrents::new();
    let ip = IpAddr::V4(1);
    success(announce(&mut torrents, &announce_of(1, 0, Some(Event::Completed)), ip, 0, &config()));
    let response = success(announce(
        &mut torrents,
        &announce_of(2, 0, Some(Event::Completed)),
        ip,
        1,
        &config(),
    ));
    let torrent = torrents.torrent_at(0);
    assert_eq!(2, torrent.downloaded);
    assert_eq!(2, torrent.complete);
    assert_eq!(0, torrent.incomplete);
    assert_eq!(Some(2), response.complete);
    assert_eq!(Some(0), response.incomplete);
    assert_eq!((2, 0), torrent.peers.complete_incomplete());

    // A leecher is counted with the incomplete, and a started event is not a download.
    success(announce(&mut torrents, &announce_of(3, 5, Some(Event::Started)), ip, 2, &config()));
    let torrent = torrents.torrent_at(0);
    assert_eq!(2, torrent.downloaded);
    assert_eq!(2, torrent.complete);
    assert_eq!(1, torrent.incomplete);
}

#[test]
fn the_download_counter_stops_at_the_largest_number() {
    let mut torrents = Torrents::new();
    torrents.get_or_insert(InfoHash::from([7; 20])).downloaded = u64::MAX - 1;
    success(announce(&mut torrents, &announce_of(1, 0, Some(Event::Completed)), IpAddr::V4(1), 0, &config()));
    assert_eq!(u64::MAX, torrents.torrent_at(0).downloaded);
    success(announce(&mut torrents, &announce_of(2, 0, Some(Event::Completed)), IpAddr::V4(1), 0, &config()));
    assert_eq!(u64::MAX, torrents.torrent_at(0).downloaded);
}

#[test]
fn a_silent_peer_is_not_handed_out() {
    let mut torrents = Torrents::new();
    let ip = IpAddr::V4(1);
    success(announce(&mut torrents, &announce_of(1, 5, None), ip, 1000, &config()));

    // Seen exactly the timeout ago: still handed out.
    let at_limit = success(announce(&mut torrents, &announce_of(2, 5, None), ip, 1900, &config()));
    assert_eq!(1, at_limit.peers.len());

    // Silent for a second longer than the timeout: not handed out, but still in the swarm.
    let late = success(announce(&mut torrents, &announce_of(3, 5, None), ip, 1901, &config()));
    assert_eq!(1, late.peers.len());
    assert_eq!(Some(PeerId::from([2; 20])), late.peers[0].peer_id);
    assert_eq!(3, torrents.torrent_at(0).peers.len());
    assert_eq!(Some(3), late.incomplete);

    assert_eq!(1001, Peers::expiry(1901, 900));
    assert_eq!(0, Peers::expiry(5, 900));
}

#[test]
fn responses_are_capped() {
    let mut torrents = Torrents::new();
    let ip = IpAddr::V4(1);
    for id in 0..70u8 {
        let response = success(announce(&mut torrents, &announce_of(id, 5, None), ip, 0, &config()));
        assert_eq!(std::cmp::min(id as usize, 50), response.peers.len());
    }
    let mut request = announce_of(99, 5, None);
    request.numwant = Some(80);
    let response = success(announce(&mut torrents, &request, ip, 0, &config()));
    assert_eq!(50, response.peers.len());
    request.numwant = Some(3);
    let response = success(announce(&mut torrents, &request, ip, 0, &config()));
    assert_eq!(3, response.peers.len());
    request.numwant = Some(0);
    let response = success(announce(&mut torrents, &request, ip, 0, &config()));
    assert_eq!(0, response.peers.len());

    // No peer twice, and never the announcing peer.
    request.numwant = None;
    for _ in 0..20 {
        let response = success(announce(&mut torrents, &request, ip, 0, &config()));
        assert_eq!(50, response.peers.len());
        for (i, peer) in response.peers.iter().enumerate() {
            assert!(peer.peer_id != Some(PeerId::from([99; 20])));
            for other in &response.peers[..i] {
                assert!(peer.peer_id != other.peer_id);
            }
        }
    }
    assert_eq!(50, MAX_RESPONSE_PEERS);
    assert_eq!(50, peer_count(None));
    assert_eq!(50, peer_count(Some(80)));
    assert_eq!(50, peer_count(Some(u64::MAX)));
    assert_eq!(7, peer_count(Some(7)));
}

#[test]
fn peers_that_require_encryption_get_peers_that_support_it() {
    let mut torrents = Torrents::new();
    let ip = IpAddr::V4(1);
    let mut plain = announce_of(1, 5, None);
    plain.supportcrypto = Some(false);
    let unknown = announce_of(2, 5, None);
    let mut crypto = announce_of(3, 5, None);
    crypto.supportcrypto = Some(true);
    success(announce(&mut torrents, &plain, ip, 0, &config()));
    success(announce(&mut torrents, &unknown, ip, 0, &config()));
    success(announce(&mut torrents, &crypto, ip, 0, &config()));

    let mut picky = announce_of(4, 5, None);
    picky.requirecrypto = Some(true);
    let response = success(announce(&mut torrents, &picky, ip, 0, &config()));
    assert_eq!(1, response.peers.len());
    assert_eq!(Some(PeerId::from([3; 20])), response.peers[0].peer_id);

    picky.requirecrypto = Some(false);
    let response = success(announce(&mut torrents, &picky, ip, 0, &config()));
    assert_eq!(3, response.peers.len());
}

#[test]
fn announcing_twice_and_stopping_twice_change_nothing_more() {
    let mut torrents = Torrents::new();
    let ip = IpAddr::V4(1);
    success(announce(&mut torrents, &announce_of(1, 5, None), ip, 0, &config()));
    success(announce(&mut torrents, &announce_of(2, 5, None), ip, 0, &config()));
    success(announce(&mut torrents, &announce_of(1, 5, None), ip, 10, &config()));
    success(announce(&mut torrents, &announce_of(1, 5, None), ip, 10, &config()));
    assert_eq!(2, torrents.torrent_at(0).peers.len());
    assert_eq!(10, torrents.torrent_at(0).peers.peer_at(0).last_seen);

    let stopped = success(announce(
        &mut torrents,
        &announce_of(1, 5, Some(Event::Stopped)),
        ip,
        11,
        &config(),
    ));
    assert_eq!(1, torrents.torrent_at(0).peers.len());
    // The swarm had two peers, one left: the other is handed to the peer that leaves.
    assert_eq!(1, stopped.peers.len());
    success(announce(&mut torrents, &announce_of(1, 5, Some(Event::Stopped)), ip, 12, &config()));
    assert_eq!(1, torrents.torrent_at(0).peers.len());
    assert_eq!(
        Some(PeerId::from([2; 20])),
        torrents.torrent_at(0).peers.peer_at(0).peer_id
    );
}

fn peer(id: Option<u8>, port: u16, left: Option<u64>) -> Peer {
    Peer {
        last_seen: 0,
        peer_id: id.map(|i| PeerId::from([i; 20])),
        addr: SocketAddr { ip: IpAddr::V4(9), port },
        uploaded: None,
        downloaded: None,
        left,
        key: None,
        supportcrypto: None,
        requirecrypto: None,
    }
}

#[test]
fn peers_are_the_same_by_id_or_else_by_address() {
    assert!(peer(Some(1), 1, None) == peer(Some(1), 2, Some(3)));
    assert!(peer(Some(1), 1, None) != peer(Some(2), 1, None));
    assert!(peer(None, 1, None) == peer(None, 1, Some(3)));
    assert!(peer(None, 1, None) != peer(None, 2, None));
    assert!(peer(Some(1), 1, None) != peer(None, 1, None));
    assert!(peer(Some(1), 1, None).same_identity(&peer(Some(1), 9, None)));

    let mut peers = Peers::default();
    assert!(peers.is_empty());
    peers.replace(peer(Some(1), 1, Some(0)));
    peers.replace(peer(None, 1, Some(5)));
    peers.replace(peer(None, 2, None));
    peers.replace(peer(Some(1), 7, Some(9)));
    assert_eq!(3, peers.len());
    assert_eq!(7, peers.peer_at(0).addr.port);
    assert!(peers.contains(&peer(None, 1, None)));
    assert!(!peers.contains(&peer(Some(3), 1, None)));
    assert_eq!((0, 3), peers.complete_incomplete());
    peers.remove(&peer(None, 1, None));
    peers.remove(&peer(None, 1, None));
    peers.remove(&peer(Some(5), 1, None));
    assert_eq!(2, peers.len());
    assert_eq!(
        2,
        peers.get_multiple(5, None, false, 0, 0).len()
    );
    assert_eq!(1, peers.get_multiple(1, None, false, 0, 0).len());
    assert_eq!(1, peers.get_multiple(5, Some(&peer(Some(1), 0, None)), false, 0, 0).len());
    assert_eq!(0, peers.get_multiple(5, None, true, 0, 0).len());
    assert_eq!(0, peers.get_multiple(5, None, false, 1, 0).len());
}

#[test]
fn torrents_are_made_on_first_touch() {
    let mut torrents = Torrents::default();
    assert_eq!(0, torrents.len());
    assert!(!torrents.contains(&InfoHash::from([1; 20])));
    {
        let torrent = torrents.get_or_insert(InfoHash::from([1; 20]));
        assert_eq!(InfoHash::from([1; 20]), torrent.info_hash);
        assert_eq!(0, torrent.peers.len());
        torrent.name = Some("one".to_string());
    }
    torrents.get_or_insert(InfoHash::from([2; 20]));
    let torrent = torrents.get_or_insert(InfoHash::from([1; 20]));
    assert_eq!(Some("one".to_string()), torrent.name);
    assert_eq!(2, torrents.len());
    assert_eq!(0, torrents.find(&InfoHash::from([1; 20])));
    assert_eq!(2, torrents.find(&InfoHash::from([3; 20])));

    let mut torrent = Torrent::new(InfoHash::from([4; 20]));
    torrent.peers.replace(peer(Some(1), 1, Some(0)));
    torrent.peers.replace(peer(Some(2), 1, Some(1)));
    torrent.peers.replace(peer(Some(3), 1, None));
    torrent.update_counts();
    assert_eq!(1, torrent.complete);
    assert_eq!(2, torrent.incomplete);
}

#[test]
fn announces_over_http_fail_in_words() {
    let mut torrents = Torrents::new();
    let ip = Some(IpAddr::V4(1));
    let failure_of = |response: Response| match response {
        Response::Failure(FailureResponse { failure_reason }) => failure_reason,
        Response::Success(_) => panic!("success"),
    };
    assert_eq!(
        "Missing query",
        failure_of(announce_route(&mut torrents, None, ip, 0, &config()))
    );
    assert_eq!(
        "Missing one or more required fields.",
        failure_of(announce_route(&mut torrents, Some("port=1"), ip, 0, &config()))
    );
    assert_eq!(
        "Invalid \"port\" value",
        failure_of(announce_route(&mut torrents, Some("port=x"), ip, 0, &config()))
    );
    assert_eq!(
        "Missing remote address",
        failure_of(announce_route(&mut torrents, Some(QUERY), None, 0, &config()))
    );
    assert_eq!(0, torrents.len());
    let response = announce_route(&mut torrents, Some(QUERY), ip, 0, &config());
    assert_eq!(Some(1), success(response).incomplete);
    assert_eq!(1, torrents.len());
    assert_eq!(
        &b"d14:failure reason13:Missing querye"[..],
        failure(RouteError::MissingQuery).to_bytes()
    );
    assert_eq!(
        "Too few characters",
        RouteError::Request(RequestError::Identifier(QsError::TooFewCharacters)).message()
    );
}

#[test]
fn responses_to_and_from_bencode() {
    let response = Response::Success(SuccessResponse {
        warning_message: Some("careful".to_string()),
        interval: 60,
        min_interval: Some(10),
        tracker_id: Some(b"tid".to_vec()),
        complete: Some(1),
        incomplete: Some(2),
        peers: vec![
            Peer {
                last_seen: 5,
                peer_id: Some(PeerId::from([b'p'; 20])),
                addr: SocketAddr { ip: IpAddr::V4(0x01020304), port: 6881 },
                uploaded: None,
                downloaded: None,
                left: None,
                key: None,
                supportcrypto: None,
                requirecrypto: None,
            },
            Peer {
                last_seen: 5,
                peer_id: None,
                addr: SocketAddr { ip: IpAddr::V6(1), port: 1 },
                uploaded: None,
                downloaded: None,
                left: None,
                key: None,
                supportcrypto: None,
                requirecrypto: None,
            },
        ],
    });
    let bytes = response.to_bytes();
    assert_eq!(
        &b"d8:completei1e10:incompletei2e8:intervali60e12:min intervali10e5:peersld2:ip7:1.2.3.47:peer_id20:pppppppppppppppppppp4:porti6881eed2:ip3:::14:porti1eee10:tracker_id3:tid15:warning message7:carefule"[..],
        bytes
    );
    assert_eq!(Ok(response.clone()), Response::from_bytes(&bytes, 5));
    assert_eq!(response.to_bencode().encode(), bytes);

    let failed = Response::Failure(FailureResponse { failure_reason: "no".to_string() });
    assert_eq!(failed, Response::from(FailureResponse { failure_reason: "no".to_string() }));
    assert_eq!(&b"d14:failure reason2:noe"[..], failed.to_bytes());
    assert_eq!(Ok(failed), Response::from_bytes(b"d14:failure reason2:noe", 0));

    let compact = Response::from_bytes(b"d8:intervali1e5:peers12:\x01\x02\x03\x04\x1a\xe1\x7f\x00\x00\x01\x00\x50e", 9).unwrap();
    let Response::Success(compact) = compact else { panic!("failure") };
    assert_eq!(2, compact.peers.len());
    assert_eq!(SocketAddr { ip: IpAddr::V4(0x01020304), port: 6881 }, compact.peers[0].addr);
    assert_eq!(SocketAddr { ip: IpAddr::V4(0x7f000001), port: 80 }, compact.peers[1].addr);
    assert_eq!(None, compact.peers[0].peer_id);
    assert_eq!(9, compact.peers[0].last_seen);
    assert_eq!(Ok([1, 2, 3, 4, 0x1a, 0xe1]), compact.peers[0].clone().to_compact());
    assert_eq!(None, compact.min_interval);
}

#[test]
fn each_response_error_has_its_input() {
    let error = |bytes: &[u8]| Response::from_bytes(bytes, 0).unwrap_err();
    assert_eq!(ResponseError::Decode(DecodeError::UnexpectedEof), error(b""));
    assert_eq!(ResponseError::NotADict, error(b"i1e"));
    assert_eq!(ResponseError::MissingKeys, error(b"de"));
    assert_eq!(ResponseError::MissingKeys, error(b"d8:intervali1ee"));
    assert_eq!(ResponseError::MissingKeys, error(b"d8:interval1:x5:peerslee"));
    assert_eq!(ResponseError::MissingKeys, error(b"d14:failure reasoni1ee"));
    assert_eq!(ResponseError::IntervalOutOfRange, error(b"d8:intervali-1e5:peerslee"));
    assert_eq!(ResponseError::BadCompactLength, error(b"d8:intervali1e5:peers5:abcdee"));
    assert_eq!(ResponseError::BadPeersValue, error(b"d8:intervali1e5:peersi1ee"));
    assert_eq!(ResponseError::PeerNotADict, error(b"d8:intervali1e5:peersli1eee"));
    assert_eq!(
        ResponseError::InvalidPeerId,
        error(b"d8:intervali1e5:peersld2:ip7:1.2.3.47:peer_id2:xx4:porti1eeee")
    );
    assert_eq!(
        ResponseError::InvalidIp,
        error(b"d8:intervali1e5:peersld2:ip1:x4:porti1eeee")
    );
    assert_eq!(
        ResponseError::InvalidIp,
        error(b"d8:intervali1e5:peersld4:porti1eeee")
    );
    assert_eq!(
        ResponseError::InvalidPort,
        error(b"d8:intervali1e5:peersld2:ip7:1.2.3.44:porti65536eeee")
    );
    assert_eq!(
        Err(ResponseError::BadCompactPeer),
        Peer::from_compact(&[1, 2, 3, 4, 5], 0)
    );
    assert_eq!(
        Err(ResponseError::NotIpv4),
        peer_v6().to_compact()
    );
    assert_eq!("Response value must be a dict", ResponseError::NotADict.message());
    assert_eq!(
        "Short peer list must be a multiple of 6 bytes long",
        ResponseError::BadCompactLength.message()
    );

    let mut dict = Dict::new();
    dict.insert(b"ip".to_vec(), BencodeValue::from("1.2.3.4"));
    dict.insert(b"port".to_vec(), BencodeValue::Integer(7));
    let parsed = Peer::from_bencode(&BencodeValue::from(dict), 3).unwrap();
    assert_eq!(None, parsed.peer_id);
    assert_eq!(7, parsed.addr.port);
    assert_eq!(3, parsed.last_seen);
    assert_eq!(&b"d2:ip7:1.2.3.44:porti7ee"[..], parsed.to_bencode().encode());
}

fn peer_v6() -> Peer {
    Peer {
        last_seen: 0,
        peer_id: None,
        addr: SocketAddr { ip: IpAddr::V6(1), port: 1 },
        uploaded: None,
        downloaded: None,
        left: None,
        key: None,
        supportcrypto: None,
        requirecrypto: None,
    }
}

#[test]
fn the_registry_as_text() {
    let mut with_id = peer(None, 51413, Some(5));
    with_id.peer_id = Some(PeerId::from_slice(b"-TR4050-mtwvc5ch9psu").unwrap());
    with_id.addr.ip = IpAddr::V4(0x0a000001);
    with_id.uploaded = Some(0);
    with_id.downloaded = Some(12);
    assert_eq!(
        "-TR4050-mtwvc5ch9psu (10.0.0.1:51413) -- 0 uploaded, 12 downloaded, 5 left",
        with_id.to_text()
    );
    let mut without = peer(None, 80, None);
    without.addr.ip = IpAddr::V6(1);
    assert_eq!("[::1]:80 -- ? uploaded, ? downloaded, ? left", without.to_text());
    let mut odd = peer(Some(0xff), 1, Some(0));
    odd.addr.ip = IpAddr::V4(0x7f000001);
    assert!(odd.to_text().starts_with("\u{fffd}\u{fffd}"));
    assert!(odd.to_text().ends_with(" (127.0.0.1:1) -- ? uploaded, ? downloaded, 0 left"));

    let mut torrent = Torrent::new(InfoHash::from([0xab; 20]));
    assert_eq!(
        "abababababababababababababababababababab -- 0 peers, 0 complete, 0 incomplete, 0 downloaded",
        torrent.to_text()
    );
    torrent.peers.replace(peer(Some(b'b'), 2, Some(0)));
    torrent.peers.replace(peer(Some(b'a'), 3, Some(1)));
    torrent.peers.replace(peer(None, 5, None));
    torrent.peers.replace(peer(None, 4, None));
    torrent.update_counts();
    torrent.downloaded = 7;
    let listing = "0.0.0.9:4 -- ? uploaded, ? downloaded, ? left\n\
                   0.0.0.9:5 -- ? uploaded, ? downloaded, ? left\n\
                   aaaaaaaaaaaaaaaaaaaa (0.0.0.9:3) -- ? uploaded, ? downloaded, 1 left\n\
                   bbbbbbbbbbbbbbbbbbbb (0.0.0.9:2) -- ? uploaded, ? downloaded, 0 left";
    assert_eq!(listing, torrent.peers.to_text());
    assert_eq!(
        format!(
            "abababababababababababababababababababab -- 4 peers, 1 complete, 3 incomplete, 7 downloaded\n{}",
            listing
        ),
        torrent.to_text()
    );
    assert_eq!("", Peers::new().to_text());

    let mut torrents = Torrents::new();
    assert_eq!("", torrents.to_text());
    torrents.get_or_insert(InfoHash::from([0x0b; 20]));
    torrents.get_or_insert(InfoHash::from([0x0a; 20])).peers.replace(peer(None, 1, None));
    torrents.get_or_insert(InfoHash::from([0x0c; 20]));
    assert_eq!(
        "0a0a0a0a0a0a0a0a0a0a0a0a0a0a0a0a0a0a0a0a -- 1 peers, 0 complete, 0 incomplete, 0 downloaded\n\
         0.0.0.9:1 -- ? uploaded, ? downloaded, ? left\n\
         0b0b0b0b0b0b0b0b0b0b0b0b0b0b0b0b0b0b0b0b -- 0 peers, 0 complete, 0 incomplete, 0 downloaded\n\
         0c0c0c0c0c0c0c0c0c0c0c0c0c0c0c0c0c0c0c0c -- 0 peers, 0 complete, 0 incomplete, 0 downloaded\n",
        torrents.to_text()
    );
}

#[test]
fn positions_in_the_order_of_their_keys() {
    let keys: Vec<Vec<u8>> = vec![
        b"pear".to_vec(),
        b"apple".to_vec(),
        b"pea".to_vec(),
        b"".to_vec(),
        b"apple".to_vec(),
        vec![0xff],
    ];
    assert_eq!(vec![3, 1, 4, 2, 0, 5], sort_order(&keys));
    assert_eq!(Vec::<usize>::new(), sort_order(&vec![]));
}

#[test]
fn peers_are_handed_out_in_changing_order() {
    let mut peers = Peers::new();
    for id in 0..40u8 {
        peers.replace(peer(Some(id), 1, None));
    }
    let in_place: Vec<Option<PeerId>> = (0..40u8).map(|id| Some(PeerId::from([id; 20]))).collect();
    let mut changed = false;
    for _ in 0..5 {
        let picked: Vec<Option<PeerId>> = peers
            .get_multiple(40, None, false, 0, 0)
            .iter()
            .map(|p| p.peer_id)
            .collect();
        assert_eq!(40, picked.len());
        for id in &in_place {
            assert!(picked.contains(id));
        }
        changed = changed || picked != in_place;
    }
    assert!(changed);
    assert!(PeerId::create("tt", "0000") != PeerId::create("tt", "0000"));
}

#[test]
fn response_from_its_parts() {
    let success = SuccessResponse {
        warning_message: None,
        interval: 60,
        min_interval: None,
        tracker_id: None,
        complete: Some(1),
        incomplete: Some(0),
        peers: vec![],
    };
    assert_eq!(Response::Success(success.clone()), Response::from(success.clone()));
    let response: Response = success.into();
    assert_eq!(&b"d8:completei1e10:incompletei0e8:intervali60e5:peerslee"[..], response.to_bytes());
    let failure = FailureResponse { failure_reason: "gone".to_string() };
    let response: Response = failure.into();
    assert_eq!(&b"d14:failure reason4:gonee"[..], response.to_bytes());
}

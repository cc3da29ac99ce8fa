//! The announce pipeline: a peer's request changes the swarm of its
//! torrent and is answered with other peers of that swarm.

use vstd::prelude::*;
use vstd::string::StringExecFns;
use vstd::string::StringSliceAdditionalSpecFns;
use crate::net::IpAddr;
use crate::tracker::peer::{Peer, PeerView};
use crate::tracker::request::{parse_request, Event, Request, RequestError, RequestView};
use crate::tracker::response::{FailureResponse, Response, ResponseView, SuccessResponse};
use crate::tracker::torrent::{
    count_complete, is_selection, lemma_count_eligible_bound, lemma_position_found, lemma_position_of, position_of, removed, replaced, torrent_position, Torrent, Torrents,
};

verus! {

/// The most peers that a response ever holds.
pub const MAX_RESPONSE_PEERS: usize = 50;

/// What the tracker was started with.
#[derive(Clone, Copy, Debug, PartialEq, Eq, Structural)]
pub struct Config {
    /// The number of seconds that peers are told to wait between announces.
    pub interval: u64,
    /// The shortest wait that peers are told is permitted, if any.
    pub min_interval: Option<u64>,
    /// The number of seconds after which a silent peer is no longer handed
    /// out.
    pub timeout_interval: u64,
}

/// The number of peers that a request is answered with at most: what it
/// asks for, but no more than fifty; fifty where it does not say.
pub open spec fn wanted(numwant: Option<u64>) -> usize {
    match numwant {
        Some(n) => if n <= MAX_RESPONSE_PEERS {
            n as usize
        } else {
            MAX_RESPONSE_PEERS
        },
        None => MAX_RESPONSE_PEERS,
    }
}

/// The peer that a request announces, seen `now`, calling from `remote_ip`.
pub open spec fn announcing_peer(request: RequestView, remote_ip: IpAddr, now: u64) -> PeerView {
    PeerView {
        last_seen: now,
        peer_id: Some(request.peer_id),
        addr: crate::net::SocketAddr {
            ip: match request.ip {
                Some(ip) => ip,
                None => remote_ip,
            },
            port: request.port,
        },
        uploaded: Some(request.uploaded),
        downloaded: Some(request.downloaded),
        left: Some(request.left),
        key: request.key,
        supportcrypto: request.supportcrypto,
        requirecrypto: request.requirecrypto,
    }
}

/// The swarm after an announce: without the peer where it stopped, else
/// with the peer in the place of its earlier entry.
pub open spec fn swarm_after(s: Seq<PeerView>, peer: PeerView, event: Option<Event>) -> Seq<
    PeerView,
> {
    if event == Some(Event::Stopped) {
        removed(s, peer)
    } else {
        replaced(s, peer)
    }
}

/// The count of completed downloads after an announce: one more where the
/// peer reports that it completed, as far as the counter goes.
pub open spec fn downloaded_after(downloaded: u64, event: Option<Event>) -> u64 {
    if event == Some(Event::Completed) && downloaded < u64::MAX {
        (downloaded + 1) as u64
    } else {
        downloaded
    }
}

/// What an announce makes of a torrent and answers: the swarm changed by
/// the announcing peer, the counts taken anew, and a selection of the other
/// peers of the swarm.
pub open spec fn answers(
    before: Seq<PeerView>,
    downloaded: u64,
    after: Torrent,
    response: ResponseView,
    request: RequestView,
    remote_ip: IpAddr,
    now: u64,
    config: Config,
) -> bool {
    let peer = announcing_peer(request, remote_ip, now);
    &&& after.peers@ == swarm_after(before, peer, request.event)
    &&& after.downloaded == downloaded_after(downloaded, request.event)
    &&& after.complete == count_complete(after.peers@)
    &&& after.complete + after.incomplete == after.peers@.len()
    &&& response matches ResponseView::Success {
        warning_message,
        interval,
        min_interval,
        tracker_id,
        complete,
        incomplete,
        peers,
    } && {
        &&& warning_message is None
        &&& interval == config.interval
        &&& min_interval == config.min_interval
        &&& tracker_id is None
        &&& complete == Some(after.complete)
        &&& incomplete == Some(after.incomplete)
        &&& is_selection(
            peers,
            after.peers@,
            wanted(request.numwant),
            Some(peer),
            request.requirecrypto == Some(true),
            now,
            config.timeout_interval,
        )
        &&& peers.len() <= wanted(request.numwant)
        &&& peers.len() <= MAX_RESPONSE_PEERS
        &&& peers.len() <= after.peers@.len()
        &&& request.event != Some(Event::Stopped) ==> peers.len() <= after.peers@.len() - 1
    }
}

/// The number of peers that a request is answered with at most.
pub fn peer_count(numwant: Option<u64>) -> (count: usize)
    ensures
        count == wanted(numwant),
{
    match numwant {
        Some(n) => {
            if n <= MAX_RESPONSE_PEERS as u64 {
                n as usize
            } else {
                MAX_RESPONSE_PEERS
            }
        },
        None => MAX_RESPONSE_PEERS,
    }
}

/// Takes an announce into the swarm of a torrent and answers it.
pub fn announce_to(
    torrent: &mut Torrent,
    request: &Request,
    remote_ip: IpAddr,
    now: u64,
    config: &Config,
) -> (response: Response)
    ensures
        final(torrent).info_hash == old(torrent).info_hash,
        final(torrent).name == old(torrent).name,
        answers(
            old(torrent).peers@,
            old(torrent).downloaded,
            *final(torrent),
            response@,
            request@,
            remote_ip,
            now,
            *config,
        ),
{
    let peer: Peer = request.as_peer(remote_ip, now);
    let stopped: bool = match request.event {
        Some(Event::Stopped) => true,
        _ => false,
    };
    let completed: bool = match request.event {
        Some(Event::Completed) => true,
        _ => false,
    };
    if stopped {
        torrent.peers.remove(&peer);
    } else {
        torrent.peers.replace(peer.clone());
    }
    if completed && torrent.downloaded < u64::MAX {
        torrent.downloaded = torrent.downloaded + 1;
    }
    torrent.update_counts();
    let count: usize = peer_count(request.numwant);
    let require_crypto: bool = match peer.requirecrypto {
        Some(required) => required,
        None => false,
    };
    let peers: Vec<Peer> = torrent.peers.get_multiple(
        count,
        Some(&peer),
        require_crypto,
        now,
        config.timeout_interval,
    );
    proof {
        let swarm = torrent.peers@;
        lemma_count_eligible_bound(
            swarm,
            Some(peer@),
            require_crypto,
            now,
            config.timeout_interval,
        );
        if !stopped {
            let before = old(torrent).peers@;
            lemma_position_of(before, peer@);
            let at = position_of(before, peer@);
            assert(swarm[at] == peer@);
            assert forall|i: int| 0 <= i < at implies !crate::tracker::identity::same_identity(
                #[trigger] swarm[i],
                peer@,
            ) by {
                assert(swarm[i] == before[i]);
            }
            lemma_position_found(swarm, peer@, at);
        }
    }
    Response::Success(
        SuccessResponse {
            warning_message: None,
            interval: config.interval,
            min_interval: config.min_interval,
            tracker_id: None,
            complete: Some(torrent.complete),
            incomplete: Some(torrent.incomplete),
            peers,
        },
    )
}

/// The swarm of a torrent in the registry; the empty swarm where the
/// torrent is not known.
pub open spec fn swarm_of(torrents: Seq<Torrent>, info_hash: Seq<u8>) -> Seq<PeerView> {
    if torrent_position(torrents, info_hash) < torrents.len() {
        torrents[torrent_position(torrents, info_hash)].peers@
    } else {
        Seq::empty()
    }
}

/// The count of completed downloads of a torrent in the registry; zero
/// where the torrent is not known.
pub open spec fn downloaded_of(torrents: Seq<Torrent>, info_hash: Seq<u8>) -> u64 {
    if torrent_position(torrents, info_hash) < torrents.len() {
        torrents[torrent_position(torrents, info_hash)].downloaded
    } else {
        0
    }
}

/// What an announce makes of the registry and answers: the torrent that
/// the request names is there afterwards, made where it was not known; it
/// and the response are what the swarm answers; no other torrent changed.
pub open spec fn registry_answers(
    before: Seq<Torrent>,
    after: Seq<Torrent>,
    response: ResponseView,
    request: RequestView,
    remote_ip: IpAddr,
    now: u64,
    config: Config,
) -> bool {
    let at = torrent_position(before, request.info_hash);
    &&& after.len() == if at < before.len() {
        before.len()
    } else {
        before.len() + 1
    }
    &&& forall|i: int| 0 <= i < before.len() && i != at ==> after[i] == before[i]
    &&& after[at].info_hash@ == request.info_hash
    &&& answers(
        swarm_of(before, request.info_hash),
        downloaded_of(before, request.info_hash),
        after[at],
        response,
        request,
        remote_ip,
        now,
        config,
    )
}

/// Takes an announce into the registry and answers it. The torrent that
/// the request names is made where it is not known yet; no other torrent
/// changes.
pub fn announce(
    torrents: &mut Torrents,
    request: &Request,
    remote_ip: IpAddr,
    now: u64,
    config: &Config,
) -> (response: Response)
    ensures
        registry_answers(
            old(torrents)@,
            final(torrents)@,
            response@,
            request@,
            remote_ip,
            now,
            *config,
        ),
{
    let torrent = torrents.get_or_insert(request.info_hash);
    assert(torrent.peers@ =~= swarm_of(old(torrents)@, request.info_hash@));
    assert(torrent.downloaded == downloaded_of(old(torrents)@, request.info_hash@));
    announce_to(torrent, request, remote_ip, now, config)
}

/// Why an announce did not reach the swarm.
#[derive(Clone, Copy, Debug, PartialEq, Eq, Structural)]
pub enum RouteError {
    MissingQuery,
    Request(RequestError),
    MissingRemoteAddress,
}

impl RouteError {
    /// The error in words, as the tracker reports it.
    pub open spec fn spec_message(self) -> Seq<char> {
        match self {
            RouteError::MissingQuery => "Missing query"@,
            RouteError::Request(e) => e.spec_message(),
            RouteError::MissingRemoteAddress => "Missing remote address"@,
        }
    }

    /// The error in words, as the tracker reports it.
    pub fn message(&self) -> (text: &'static str)
        ensures
            text@ == self.spec_message(),
    {
        match self {
            RouteError::MissingQuery => "Missing query",
            RouteError::Request(e) => e.message(),
            RouteError::MissingRemoteAddress => "Missing remote address",
        }
    }
}

/// What stands in the way of an announce with this query string from this
/// address, if anything.
pub open spec fn route_error(query: Option<Seq<u8>>, remote_ip: Option<IpAddr>) -> Option<
    RouteError,
> {
    match query {
        None => Some(RouteError::MissingQuery),
        Some(q) => match parse_request(q) {
            Err(e) => Some(RouteError::Request(e)),
            Ok(_) => match remote_ip {
                None => Some(RouteError::MissingRemoteAddress),
                Some(_) => None,
            },
        },
    }
}

/// The failure response that reports an error.
pub fn failure(error: RouteError) -> (response: Response)
    ensures
        response@ == (ResponseView::Failure { failure_reason: error.spec_message() }),
{
    Response::Failure(FailureResponse { failure_reason: String::from_str(error.message()) })
}

/// Answers an announce that came in over HTTP with the given query string
/// from the given address: with a failure where the query string is
/// missing or is no request, or the address is not known; else with what
/// the swarm answers. The registry changes only in the latter case.
pub fn announce_route(
    torrents: &mut Torrents,
    query: Option<&str>,
    remote_ip: Option<IpAddr>,
    now: u64,
    config: &Config,
) -> (response: Response)
    ensures
        match route_error(
            match query {
                Some(q) => Some(q.spec_bytes()),
                None => None,
            },
            remote_ip,
        ) {
            Some(error) => final(torrents)@ == old(torrents)@ && response@
                == (ResponseView::Failure { failure_reason: error.spec_message() }),
            None => registry_answers(
                old(torrents)@,
                final(torrents)@,
                response@,
                parse_request(query->0.spec_bytes())->Ok_0,
                remote_ip->0,
                now,
                *config,
            ),
        },
{
    let text = match query {
        Some(text) => text,
        None => {
            return failure(RouteError::MissingQuery);
        },
    };
    let request = match Request::parse(text) {
        Ok(request) => request,
        Err(e) => {
            return failure(RouteError::Request(e));
        },
    };
    let ip = match remote_ip {
        Some(ip) => ip,
        None => {
            return failure(RouteError::MissingRemoteAddress);
        },
    };
    announce(torrents, &request, ip, now, config)
}

} // verus!

//! The announces that the client sends: which request goes to the tracker,
//! and what is kept of its responses.

use vstd::prelude::*;
use vstd::string::StringSliceAdditionalSpecFns;
use crate::ident::{InfoHash, PeerId, PeerKey};
use crate::net::IpAddr;
use crate::tracker::query_string::query_string_of;
use crate::tracker::request::{find, find_byte, Event, Request, RequestView};
use crate::tracker::response::{Response, ResponseView};
use crate::util::append_slice;

verus! {

/// What is to be announced for a torrent.
#[derive(Clone, Debug)]
pub struct Outgoing {
    pub announce_url: String,
    pub info_hash: InfoHash,
    pub uploaded: u64,
    pub downloaded: u64,
    pub left: u64,
    pub event: Option<Event>,
    pub numwant: Option<u64>,
}

/// The announcing side of the client: who it is, and the tracker ids that
/// trackers have assigned, one for each torrent.
#[derive(Debug)]
pub struct AnnounceClient {
    pub peer_id: PeerId,
    pub key: Option<PeerKey>,
    pub ip: Option<IpAddr>,
    pub port: u16,
    /// The tracker ids that have been assigned, each with the info-hash of
    /// its torrent.
    pub tracker_ids: Vec<(InfoHash, Vec<u8>)>,
}

/// The model of the tracker ids, in the order in which they were first
/// assigned.
pub open spec fn ids_view(ids: Seq<(InfoHash, Vec<u8>)>) -> Seq<(Seq<u8>, Seq<u8>)> {
    Seq::new(ids.len(), |i: int| (ids[i].0@, ids[i].1@))
}

/// The tracker id of a torrent, where one was assigned.
pub open spec fn id_of(ids: Seq<(Seq<u8>, Seq<u8>)>, info_hash: Seq<u8>) -> Option<Seq<u8>>
    decreases ids.len(),
{
    if ids.len() == 0 {
        None
    } else if ids[0].0 == info_hash {
        Some(ids[0].1)
    } else {
        id_of(ids.drop_first(), info_hash)
    }
}

/// The position of the tracker id of a torrent, or the number of ids.
pub open spec fn id_position(ids: Seq<(Seq<u8>, Seq<u8>)>, info_hash: Seq<u8>) -> int
    decreases ids.len(),
{
    if ids.len() == 0 {
        0
    } else if ids[0].0 == info_hash {
        0
    } else {
        1 + id_position(ids.drop_first(), info_hash)
    }
}

/// The tracker ids after a tracker assigned `id` to a torrent.
pub open spec fn with_id(ids: Seq<(Seq<u8>, Seq<u8>)>, info_hash: Seq<u8>, id: Seq<u8>) -> Seq<
    (Seq<u8>, Seq<u8>),
> {
    if id_position(ids, info_hash) < ids.len() {
        ids.update(id_position(ids, info_hash), (info_hash, id))
    } else {
        ids.push((info_hash, id))
    }
}

/// The tracker ids after a response for a torrent: a success that assigns
/// a tracker id has it kept, anything else changes nothing.
pub open spec fn ids_after(ids: Seq<(Seq<u8>, Seq<u8>)>, info_hash: Seq<u8>, response: ResponseView) -> Seq<
    (Seq<u8>, Seq<u8>),
> {
    match response {
        ResponseView::Success { tracker_id: Some(id), .. } => with_id(ids, info_hash, id),
        _ => ids,
    }
}

proof fn lemma_id_position(ids: Seq<(Seq<u8>, Seq<u8>)>, info_hash: Seq<u8>, at: int)
    requires
        0 <= at <= ids.len(),
        forall|i: int| 0 <= i < at ==> (#[trigger] ids[i]).0 != info_hash,
        at < ids.len() ==> ids[at].0 == info_hash,
    ensures
        id_position(ids, info_hash) == at,
        id_of(ids, info_hash) == if at < ids.len() {
            Some(ids[at].1)
        } else {
            None
        },
    decreases ids.len(),
{
    if ids.len() > 0 && at > 0 {
        let rest = ids.drop_first();
        assert(ids[0].0 != info_hash);
        assert forall|i: int| 0 <= i < at - 1 implies (#[trigger] rest[i]).0 != info_hash by {
            assert(rest[i] == ids[i + 1]);
        }
        if at < ids.len() {
            assert(rest[at - 1] == ids[at]);
        }
        lemma_id_position(rest, info_hash, at - 1);
    }
}

proof fn lemma_id_position_props(ids: Seq<(Seq<u8>, Seq<u8>)>, info_hash: Seq<u8>)
    ensures
        0 <= id_position(ids, info_hash) <= ids.len(),
        forall|i: int| 0 <= i < id_position(ids, info_hash) ==> (#[trigger] ids[i]).0 != info_hash,
        id_position(ids, info_hash) < ids.len() ==> ids[id_position(ids, info_hash)].0
            == info_hash,
    decreases ids.len(),
{
    if ids.len() > 0 && ids[0].0 != info_hash {
        let rest = ids.drop_first();
        lemma_id_position_props(rest, info_hash);
        assert forall|i: int| 0 <= i < id_position(ids, info_hash) implies (#[trigger] ids[i]).0
            != info_hash by {
            if i > 0 {
                assert(ids[i] == rest[i - 1]);
            }
        }
        if id_position(rest, info_hash) < rest.len() {
            assert(ids[id_position(ids, info_hash)] == rest[id_position(rest, info_hash)]);
        }
    }
}

/// A tracker id that was kept for a torrent is the one that is sent for
/// it next, and what is sent for another torrent does not change.
pub proof fn law_kept_id_is_sent(
    ids: Seq<(Seq<u8>, Seq<u8>)>,
    info_hash: Seq<u8>,
    id: Seq<u8>,
    other: Seq<u8>,
)
    ensures
        id_of(with_id(ids, info_hash, id), info_hash) == Some(id),
        other != info_hash ==> id_of(with_id(ids, info_hash, id), other) == id_of(ids, other),
{
    let out = with_id(ids, info_hash, id);
    lemma_id_position_props(ids, info_hash);
    let p = id_position(ids, info_hash);
    assert forall|i: int| 0 <= i < p implies (#[trigger] out[i]).0 != info_hash by {
        assert(out[i] == ids[i]);
    }
    lemma_id_position(out, info_hash, p);
    if other != info_hash {
        lemma_id_position_props(ids, other);
        let q = id_position(ids, other);
        lemma_id_position(ids, other, q);
        if q < ids.len() {
            assert forall|i: int| 0 <= i < q implies (#[trigger] out[i]).0 != other by {
                if i != p {
                    assert(out[i] == ids[i]);
                }
            }
            assert(out[q] == ids[q]);
            lemma_id_position(out, other, q);
        } else {
            assert forall|i: int| 0 <= i < out.len() implies (#[trigger] out[i]).0 != other by {
                if i != p {
                    assert(out[i] == ids[i]);
                }
            }
            lemma_id_position(out, other, out.len() as int);
        }
    }
}

/// The URL of an announce: the tracker's URL, then `?`, or `&` where the
/// URL holds a `?` already, then the query string.
pub open spec fn announce_url_of(base: Seq<u8>, request: RequestView) -> Seq<u8> {
    base + (if find_byte(base, 0, base.len() as int, 63u8) < base.len() {
        seq![38u8]
    } else {
        seq![63u8]
    }) + query_string_of(request)
}

/// The bytes of the URL of an announce.
pub fn announce_url(base: &str, request: &Request) -> (url: Vec<u8>)
    ensures
        url@ == announce_url_of(base.spec_bytes(), request@),
{
    let base_bytes = base.as_bytes();
    let mut url: Vec<u8> = Vec::new();
    append_slice(&mut url, base_bytes);
    if find(base_bytes, 0, base_bytes.len(), 63u8) < base_bytes.len() {
        url.push(38u8);
    } else {
        url.push(63u8);
    }
    let query = request.as_query_bytes();
    append_slice(&mut url, query.as_slice());
    assert(url@ =~= announce_url_of(base.spec_bytes(), request@));
    url
}

impl AnnounceClient {
    /// The tracker ids that have been assigned.
    pub open spec fn ids(&self) -> Seq<(Seq<u8>, Seq<u8>)> {
        ids_view(self.tracker_ids@)
    }

    /// The announcing side of a client that no tracker has answered yet.
    pub fn new(peer_id: PeerId, key: Option<PeerKey>, ip: Option<IpAddr>, port: u16) -> (c:
        AnnounceClient)
        ensures
            c.ids().len() == 0,
            c.peer_id == peer_id,
            c.key == key,
            c.ip == ip,
            c.port == port,
    {
        AnnounceClient { peer_id, key, ip, port, tracker_ids: Vec::new() }
    }

    /// The tracker id of a torrent, where one was assigned.
    pub fn tracker_id(&self, info_hash: &InfoHash) -> (id: Option<Vec<u8>>)
        ensures
            match id_of(self.ids(), info_hash@) {
                Some(bytes) => id matches Some(found) && found@ == bytes,
                None => id is None,
            },
    {
        let at: usize = self.find_id(info_hash);
        if at < self.tracker_ids.len() {
            Some(vstd::slice::slice_to_vec(self.tracker_ids[at].1.as_slice()))
        } else {
            None
        }
    }

    fn find_id(&self, info_hash: &InfoHash) -> (at: usize)
        ensures
            at == id_position(self.ids(), info_hash@),
            at <= self.ids().len(),
            at < self.ids().len() ==> id_of(self.ids(), info_hash@) == Some(
                self.tracker_ids@[at as int].1@,
            ),
            at == self.ids().len() ==> id_of(self.ids(), info_hash@) is None,
    {
        let mut i: usize = 0;
        while i < self.tracker_ids.len()
            invariant
                i <= self.tracker_ids@.len(),
                forall|j: int| 0 <= j < i ==> (#[trigger] self.ids()[j]).0 != info_hash@,
            decreases self.tracker_ids@.len() - i,
        {
            if self.tracker_ids[i].0.same(info_hash) {
                proof {
                    lemma_id_position(self.ids(), info_hash@, i as int);
                }
                return i;
            }
            i += 1;
        }
        proof {
            lemma_id_position(self.ids(), info_hash@, i as int);
        }
        i
    }

    /// The request that announces what is to be announced: who the client
    /// is, what it reports, and the tracker id of the torrent where one was
    /// assigned.
    pub fn request_for(&self, outgoing: &Outgoing) -> (request: Request)
        ensures
            request@ == (RequestView {
                info_hash: outgoing.info_hash@,
                peer_id: self.peer_id@,
                ip: self.ip,
                port: self.port,
                uploaded: outgoing.uploaded,
                downloaded: outgoing.downloaded,
                left: outgoing.left,
                event: outgoing.event,
                numwant: outgoing.numwant,
                key: match self.key {
                    Some(key) => Some(key@),
                    None => None,
                },
                compact: None,
                supportcrypto: None,
                requirecrypto: None,
                no_peer_id: None,
                trackerid: id_of(self.ids(), outgoing.info_hash@),
            }),
    {
        Request {
            info_hash: outgoing.info_hash,
            peer_id: self.peer_id,
            ip: self.ip,
            port: self.port,
            uploaded: outgoing.uploaded,
            downloaded: outgoing.downloaded,
            left: outgoing.left,
            event: outgoing.event,
            numwant: outgoing.numwant,
            key: match &self.key {
                Some(key) => Some(key.duplicate()),
                None => None,
            },
            compact: None,
            supportcrypto: None,
            requirecrypto: None,
            no_peer_id: None,
            trackerid: self.tracker_id(&outgoing.info_hash),
        }
    }

    /// Takes the tracker's response to an announce for a torrent: keeps
    /// the tracker id where the response assigns one.
    pub fn record(&mut self, info_hash: InfoHash, response: &Response)
        ensures
            final(self).ids() == ids_after(old(self).ids(), info_hash@, response@),
            final(self).peer_id == old(self).peer_id,
            final(self).key == old(self).key,
            final(self).ip == old(self).ip,
            final(self).port == old(self).port,
    {
        match response {
            Response::Success(success) => match &success.tracker_id {
                Some(id) => {
                    let at: usize = self.find_id(&info_hash);
                    let copy = vstd::slice::slice_to_vec(id.as_slice());
                    let ghost before = self.ids();
                    if at < self.tracker_ids.len() {
                        self.tracker_ids.set(at, (info_hash, copy));
                    } else {
                        self.tracker_ids.push((info_hash, copy));
                    }
                    assert(self.ids() =~= with_id(before, info_hash@, id@));
                },
                None => {},
            },
            Response::Failure(_) => {},
        }
    }
}

} // verus!

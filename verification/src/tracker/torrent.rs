//! The swarm registry: for each torrent the set of its peers, with their
//! counts.

use vstd::prelude::*;
use crate::ident::InfoHash;
use crate::random::{choose_multiple, shuffle};
use crate::tracker::identity::{
    lemma_identity_symmetric, lemma_identity_transitive, same_identity,
};
use crate::tracker::peer::{Peer, PeerView};

verus! {

/// The peers of one torrent. No two of them are the same member: a peer
/// that announces again takes the place of its earlier entry.
#[derive(Debug)]
pub struct Peers(Vec<Peer>);

/// One torrent as the tracker knows it.
#[derive(Debug)]
pub struct Torrent {
    /// The info-hash that the torrent is known by.
    pub info_hash: InfoHash,
    pub peers: Peers,
    /// The number of peers that have nothing left to download.
    pub complete: u64,
    /// The number of the other peers.
    pub incomplete: u64,
    /// How often a peer has announced that it completed the download.
    pub downloaded: u64,
    pub name: Option<String>,
}

/// The torrents that the tracker knows, one for each info-hash that was
/// ever announced.
#[derive(Debug)]
pub struct Torrents(Vec<Torrent>);

/// The model of a sequence of stored peers.
pub open spec fn peers_view(peers: Seq<Peer>) -> Seq<PeerView> {
    Seq::new(peers.len(), |i: int| peers[i]@)
}

impl View for Peers {
    type V = Seq<PeerView>;

    closed spec fn view(&self) -> Seq<PeerView> {
        peers_view(self.0@)
    }
}

/// No two peers of the sequence are the same member.
pub open spec fn distinct_identities(s: Seq<PeerView>) -> bool {
    forall|i: int, j: int| 0 <= i < j < s.len() ==> !same_identity(#[trigger] s[i], #[trigger] s[j])
}

/// The position of the member that `p` is, or the length of the sequence
/// where `p` is none of them.
pub open spec fn position_of(s: Seq<PeerView>, p: PeerView) -> int
    decreases s.len(),
{
    if s.len() == 0 {
        0
    } else if same_identity(s[0], p) {
        0
    } else {
        1 + position_of(s.drop_first(), p)
    }
}

/// Whether `p` is a member.
pub open spec fn is_member(s: Seq<PeerView>, p: PeerView) -> bool {
    position_of(s, p) < s.len()
}

/// The swarm after `p` announced itself: `p` in the place of the member it
/// is, or added.
pub open spec fn replaced(s: Seq<PeerView>, p: PeerView) -> Seq<PeerView> {
    if is_member(s, p) {
        s.update(position_of(s, p), p)
    } else {
        s.push(p)
    }
}

/// The swarm after `p` left: without the member that `p` is.
pub open spec fn removed(s: Seq<PeerView>, p: PeerView) -> Seq<PeerView> {
    if is_member(s, p) {
        s.remove(position_of(s, p))
    } else {
        s
    }
}

/// Whether a peer has nothing left to download.
pub open spec fn is_seeder(p: PeerView) -> bool {
    p.left == Some(0u64)
}

/// The number of seeders.
pub open spec fn count_complete(s: Seq<PeerView>) -> nat
    decreases s.len(),
{
    if s.len() == 0 {
        0
    } else {
        count_complete(s.drop_last()) + if is_seeder(s.last()) {
            1nat
        } else {
            0nat
        }
    }
}

/// Whether a peer was seen recently enough: not longer ago than the
/// timeout.
pub open spec fn is_live(p: PeerView, now: u64, timeout: u64) -> bool {
    p.last_seen + timeout >= now
}

/// Whether a peer may be handed out in a response: it is not the excluded
/// peer, it is live, and it supports encryption where that is required.
pub open spec fn eligible(
    p: PeerView,
    exclude: Option<PeerView>,
    require_crypto: bool,
    now: u64,
    timeout: u64,
) -> bool {
    &&& match exclude {
        Some(x) => !same_identity(p, x),
        None => true,
    }
    &&& is_live(p, now, timeout)
    &&& (require_crypto ==> p.supportcrypto == Some(true))
}

/// The number of peers that may be handed out.
pub open spec fn count_eligible(
    s: Seq<PeerView>,
    exclude: Option<PeerView>,
    require_crypto: bool,
    now: u64,
    timeout: u64,
) -> nat
    decreases s.len(),
{
    if s.len() == 0 {
        0
    } else {
        count_eligible(s.drop_last(), exclude, require_crypto, now, timeout) + if eligible(
            s.last(),
            exclude,
            require_crypto,
            now,
            timeout,
        ) {
            1nat
        } else {
            0nat
        }
    }
}

/// The position of a member is within the swarm or just after it, and no
/// peer before it is that member.
pub proof fn lemma_position_of(s: Seq<PeerView>, p: PeerView)
    ensures
        0 <= position_of(s, p) <= s.len(),
        forall|i: int| 0 <= i < position_of(s, p) ==> !same_identity(#[trigger] s[i], p),
        position_of(s, p) < s.len() ==> same_identity(s[position_of(s, p)], p),
    decreases s.len(),
{
    if s.len() > 0 && !same_identity(s[0], p) {
        let rest = s.drop_first();
        lemma_position_of(rest, p);
        assert forall|i: int| 0 <= i < position_of(s, p) implies !same_identity(
            #[trigger] s[i],
            p,
        ) by {
            if i > 0 {
                assert(s[i] == rest[i - 1]);
            }
        }
        if position_of(rest, p) < rest.len() {
            assert(s[position_of(s, p)] == rest[position_of(rest, p)]);
        }
    }
}

/// A position found by a scan from the front is the position of the member.
pub proof fn lemma_position_found(s: Seq<PeerView>, p: PeerView, at: int)
    requires
        0 <= at <= s.len(),
        forall|i: int| 0 <= i < at ==> !same_identity(#[trigger] s[i], p),
        at < s.len() ==> same_identity(s[at], p),
    ensures
        position_of(s, p) == at,
    decreases s.len(),
{
    if s.len() > 0 && at > 0 {
        assert(!same_identity(s[0], p));
        let rest = s.drop_first();
        assert forall|i: int| 0 <= i < at - 1 implies !same_identity(#[trigger] rest[i], p) by {
            assert(rest[i] == s[i + 1]);
        }
        if at < s.len() {
            assert(rest[at - 1] == s[at]);
        }
        lemma_position_found(rest, p, at - 1);
    }
}

/// An announce keeps the members distinct.
pub proof fn lemma_replaced_distinct(s: Seq<PeerView>, p: PeerView)
    requires
        distinct_identities(s),
    ensures
        distinct_identities(replaced(s, p)),
{
    lemma_position_of(s, p);
    let at = position_of(s, p);
    let out = replaced(s, p);
    assert forall|i: int, j: int| 0 <= i < j < out.len() implies !same_identity(
        #[trigger] out[i],
        #[trigger] out[j],
    ) by {
        if at < s.len() {
            if i == at {
                if same_identity(p, s[j]) {
                    lemma_identity_transitive(s[at], p, s[j]);
                }
            } else if j == at {
                if same_identity(s[i], p) {
                    lemma_identity_symmetric(s[at], p);
                    lemma_identity_transitive(s[i], p, s[at]);
                }
            }
        }
    }
}

/// A departure keeps the members distinct.
pub proof fn lemma_removed_distinct(s: Seq<PeerView>, p: PeerView)
    requires
        distinct_identities(s),
    ensures
        distinct_identities(removed(s, p)),
{
    lemma_position_of(s, p);
    let at = position_of(s, p);
    let out = removed(s, p);
    if at < s.len() {
        assert forall|i: int, j: int| 0 <= i < j < out.len() implies !same_identity(
            #[trigger] out[i],
            #[trigger] out[j],
        ) by {
            let i2 = if i < at {
                i
            } else {
                i + 1
            };
            let j2 = if j < at {
                j
            } else {
                j + 1
            };
            assert(out[i] == s[i2]);
            assert(out[j] == s[j2]);
        }
    }
}

/// After a departure the peer is no member.
pub proof fn lemma_removed_is_gone(s: Seq<PeerView>, p: PeerView)
    requires
        distinct_identities(s),
    ensures
        !is_member(removed(s, p), p),
{
    lemma_position_of(s, p);
    let at = position_of(s, p);
    let out = removed(s, p);
    if at < s.len() {
        assert forall|i: int| 0 <= i < out.len() implies !same_identity(#[trigger] out[i], p) by {
            let i2 = if i < at {
                i
            } else {
                i + 1
            };
            assert(out[i] == s[i2]);
            if same_identity(s[i2], p) {
                lemma_identity_symmetric(s[at], p);
                lemma_identity_transitive(s[i2], p, s[at]);
            }
        }
        lemma_position_found(out, p, out.len() as int);
    }
}

/// Two announces of one member leave what the second alone would leave:
/// announcing is idempotent.
pub proof fn law_replace_idempotent(s: Seq<PeerView>, first: PeerView, second: PeerView)
    requires
        same_identity(first, second),
    ensures
        replaced(replaced(s, first), second) == replaced(s, second),
        replaced(replaced(s, first), first) == replaced(s, first),
        replaced(replaced(s, first), second).len() == replaced(s, first).len(),
{
    lemma_position_of(s, first);
    lemma_position_of(s, second);
    let at = position_of(s, first);
    assert forall|i: int| 0 <= i < at implies !same_identity(#[trigger] s[i], second) by {
        if same_identity(s[i], second) {
            lemma_identity_symmetric(first, second);
            lemma_identity_transitive(s[i], second, first);
        }
    }
    if at < s.len() {
        lemma_identity_transitive(s[at], first, second);
    }
    lemma_position_found(s, second, at);
    let once = replaced(s, first);
    assert forall|i: int| 0 <= i < at implies !same_identity(#[trigger] once[i], second) by {
        assert(once[i] == s[i]);
    }
    assert forall|i: int| 0 <= i < at implies !same_identity(#[trigger] once[i], first) by {
        assert(once[i] == s[i]);
    }
    assert(once[at] == first);
    lemma_position_found(once, second, at);
    lemma_position_found(once, first, at);
    assert(replaced(once, second) =~= replaced(s, second));
    assert(replaced(once, first) =~= once);
}

/// Two departures of one member leave what one leaves: leaving is
/// idempotent.
pub proof fn law_remove_idempotent(s: Seq<PeerView>, first: PeerView, second: PeerView)
    requires
        distinct_identities(s),
        same_identity(first, second),
    ensures
        removed(removed(s, first), second) == removed(s, first),
        removed(s, first) == removed(s, second),
{
    lemma_position_of(s, first);
    lemma_position_of(s, second);
    let at = position_of(s, first);
    assert forall|i: int| 0 <= i < at implies !same_identity(#[trigger] s[i], second) by {
        if same_identity(s[i], second) {
            lemma_identity_symmetric(first, second);
            lemma_identity_transitive(s[i], second, first);
        }
    }
    if at < s.len() {
        lemma_identity_transitive(s[at], first, second);
    }
    lemma_position_found(s, second, at);
    lemma_removed_is_gone(s, second);
}

/// Where the excluded peer is a member, at least one member is not handed
/// out.
pub proof fn lemma_count_eligible_bound(
    s: Seq<PeerView>,
    exclude: Option<PeerView>,
    require_crypto: bool,
    now: u64,
    timeout: u64,
)
    ensures
        count_eligible(s, exclude, require_crypto, now, timeout) <= s.len(),
        exclude matches Some(x) && is_member(s, x) ==> count_eligible(
            s,
            exclude,
            require_crypto,
            now,
            timeout,
        ) < s.len(),
    decreases s.len(),
{
    if s.len() > 0 {
        let front = s.drop_last();
        lemma_count_eligible_bound(front, exclude, require_crypto, now, timeout);
        if let Some(x) = exclude {
            lemma_position_of(s, x);
            lemma_position_of(front, x);
            if is_member(s, x) && !is_member(front, x) {
                let at = position_of(s, x);
                if at < front.len() {
                    assert(front[at] == s[at]);
                    assert(false);
                }
                assert(same_identity(s.last(), x));
            }
        }
    }
}

/// What a selection of peers for a response has to be: at most `count`
/// peers, as many as that where enough may be handed out; each of them a
/// member that may be handed out; no member twice.
pub open spec fn is_selection(
    picked: Seq<PeerView>,
    s: Seq<PeerView>,
    count: usize,
    exclude: Option<PeerView>,
    require_crypto: bool,
    now: u64,
    timeout: u64,
) -> bool {
    &&& picked.len() == if count <= count_eligible(s, exclude, require_crypto, now, timeout) {
        count as nat
    } else {
        count_eligible(s, exclude, require_crypto, now, timeout)
    }
    &&& forall|k: int|
        0 <= k < picked.len() ==> eligible(#[trigger] picked[k], exclude, require_crypto, now, timeout)
            && exists|i: int| 0 <= i < s.len() && s[i] == picked[k]
    &&& forall|a: int, b: int|
        0 <= a < b < picked.len() ==> !same_identity(#[trigger] picked[a], #[trigger] picked[b])
}

/// Whether a peer may be handed out in a response.
pub fn may_hand_out(
    peer: &Peer,
    exclude: Option<&Peer>,
    require_crypto: bool,
    now: u64,
    timeout: u64,
) -> (ok: bool)
    ensures
        ok == eligible(
            peer@,
            match exclude {
                Some(x) => Some(x@),
                None => None,
            },
            require_crypto,
            now,
            timeout,
        ),
{
    let excluded: bool = match exclude {
        Some(x) => peer.same_identity(x),
        None => false,
    };
    let live: bool = now <= peer.last_seen || now - peer.last_seen <= timeout;
    let crypto: bool = !require_crypto || match peer.supportcrypto {
        Some(supported) => supported,
        None => false,
    };
    !excluded && live && crypto
}

impl Peers {
    /// What holds of every swarm: no two of its peers are the same member.
    #[verifier::type_invariant]
    pub closed spec fn members_distinct(self) -> bool {
        distinct_identities(self@)
    }

    /// The empty swarm.
    pub fn new() -> (peers: Peers)
        ensures
            peers@.len() == 0,
    {
        Peers(Vec::new())
    }

    /// The number of members. The members of any swarm are distinct.
    pub fn len(&self) -> (n: usize)
        ensures
            n == self@.len(),
            distinct_identities(self@),
    {
        proof {
            use_type_invariant(self);
        }
        self.0.len()
    }

    /// Whether the swarm has no members.
    pub fn is_empty(&self) -> (b: bool)
        ensures
            b == (self@.len() == 0),
    {
        self.0.len() == 0
    }

    /// The member at position `i`.
    pub fn peer_at(&self, i: usize) -> (peer: &Peer)
        requires
            i < self@.len(),
        ensures
            peer@ == self@[i as int],
    {
        &self.0[i]
    }

    /// The position of the member that `peer` is, or `len()`.
    fn find(&self, peer: &Peer) -> (at: usize)
        ensures
            at == position_of(self@, peer@),
            at <= self@.len(),
    {
        let mut i: usize = 0;
        while i < self.0.len()
            invariant
                i <= self.0@.len(),
                forall|j: int| 0 <= j < i ==> !same_identity(#[trigger] self@[j], peer@),
            decreases self.0@.len() - i,
        {
            if self.0[i].same_identity(peer) {
                proof {
                    lemma_position_found(self@, peer@, i as int);
                }
                return i;
            }
            i += 1;
        }
        proof {
            lemma_position_found(self@, peer@, i as int);
        }
        i
    }

    /// Whether `peer` is a member.
    pub fn contains(&self, peer: &Peer) -> (b: bool)
        ensures
            b == is_member(self@, peer@),
    {
        self.find(peer) < self.0.len()
    }

    /// Takes the member that `peer` is out of the swarm, if it is one.
    pub fn remove(&mut self, peer: &Peer)
        ensures
            final(self)@ == removed(old(self)@, peer@),
    {
        proof {
            use_type_invariant(&*self);
            lemma_removed_distinct(self@, peer@);
        }
        let at: usize = self.find(peer);
        if at < self.0.len() {
            let ghost before = self@;
            let mut members: Vec<Peer> = Vec::new();
            core::mem::swap(&mut self.0, &mut members);
            members.remove(at);
            assert(peers_view(members@) =~= removed(before, peer@));
            self.0 = members;
        }
    }

    /// Puts `peer` in the place of the member that it is, or adds it.
    pub fn replace(&mut self, peer: Peer)
        ensures
            final(self)@ == replaced(old(self)@, peer@),
    {
        proof {
            use_type_invariant(&*self);
            lemma_replaced_distinct(self@, peer@);
        }
        let at: usize = self.find(&peer);
        let ghost before = self@;
        let ghost p = peer@;
        let mut members: Vec<Peer> = Vec::new();
        core::mem::swap(&mut self.0, &mut members);
        if at < members.len() {
            members.set(at, peer);
        } else {
            members.push(peer);
        }
        assert(peers_view(members@) =~= replaced(before, p));
        self.0 = members;
    }

    /// The numbers of seeders and of the other peers.
    pub fn complete_incomplete(&self) -> (counts: (u64, u64))
        ensures
            counts.0 == count_complete(self@),
            counts.0 + counts.1 == self@.len(),
    {
        let mut complete: u64 = 0;
        let mut incomplete: u64 = 0;
        let mut i: usize = 0;
        assert(self@.take(0) =~= Seq::<PeerView>::empty());
        while i < self.0.len()
            invariant
                i <= self.0@.len(),
                complete == count_complete(self@.take(i as int)),
                complete + incomplete == i,
            decreases self.0@.len() - i,
        {
            proof {
                assert(self@.take(i + 1).drop_last() =~= self@.take(i as int));
            }
            let seeder: bool = match self.0[i].left {
                Some(left) => left == 0,
                None => false,
            };
            if seeder {
                complete += 1;
            } else {
                incomplete += 1;
            }
            i += 1;
        }
        assert(self@.take(i as int) =~= self@);
        (complete, incomplete)
    }

    /// The earliest moment at which a peer must have been seen to be live
    /// now.
    pub fn expiry(now: u64, timeout: u64) -> (earliest: u64)
        ensures
            earliest == if now >= timeout {
                (now - timeout) as u64
            } else {
                0u64
            },
            forall|p: PeerView| is_live(p, now, timeout) <==> p.last_seen >= earliest,
    {
        if now >= timeout {
            now - timeout
        } else {
            0
        }
    }

    /// Picks at most `count` peers at random for a response, in random
    /// order: live members other than `exclude`, which support encryption
    /// where that is required.
    pub fn get_multiple(
        &self,
        count: usize,
        exclude: Option<&Peer>,
        require_crypto: bool,
        now: u64,
        timeout: u64,
    ) -> (picked: Vec<Peer>)
        ensures
            is_selection(
                peers_view(picked@),
                self@,
                count,
                match exclude {
                    Some(x) => Some(x@),
                    None => None,
                },
                require_crypto,
                now,
                timeout,
            ),
    {
        let ghost ex: Option<PeerView> = match exclude {
            Some(x) => Some(x@),
            None => None,
        };
        proof {
            use_type_invariant(self);
        }
        let mut candidates: Vec<usize> = Vec::new();
        let mut i: usize = 0;
        assert(self@.take(0) =~= Seq::<PeerView>::empty());
        while i < self.0.len()
            invariant
                i <= self.0@.len(),
                ex == match exclude {
                    Some(x) => Some(x@),
                    None => None,
                },
                candidates@.len() == count_eligible(
                    self@.take(i as int),
                    ex,
                    require_crypto,
                    now,
                    timeout,
                ),
                forall|k: int|
                    0 <= k < candidates@.len() ==> (#[trigger] candidates@[k]) < i && eligible(
                        self@[candidates@[k] as int],
                        ex,
                        require_crypto,
                        now,
                        timeout,
                    ),
                forall|a: int, b: int|
                    0 <= a < b < candidates@.len() ==> (#[trigger] candidates@[a])
                        < #[trigger] candidates@[b],
            decreases self.0@.len() - i,
        {
            proof {
                assert(self@.take(i + 1).drop_last() =~= self@.take(i as int));
            }
            if may_hand_out(&self.0[i], exclude, require_crypto, now, timeout) {
                candidates.push(i);
            }
            i += 1;
        }
        assert(self@.take(i as int) =~= self@);
        let ghost all = candidates@;
        let amount: usize = if count <= candidates.len() {
            count
        } else {
            candidates.len()
        };
        let mut chosen: Vec<usize> = choose_multiple(candidates, amount);
        let ghost unshuffled = chosen@;
        shuffle(&mut chosen);
        proof {
            broadcast use vstd::seq_lib::group_to_multiset_ensures;

            assert(chosen@.len() == chosen@.to_multiset().len());
            assert(unshuffled.len() == unshuffled.to_multiset().len());
            assert(chosen@.len() == unshuffled.len());

            assert(all.no_duplicates());
            all.lemma_multiset_has_no_duplicates();
            assert forall|x: usize| chosen@.to_multiset().contains(x) implies chosen@.to_multiset().count(
                x,
            ) == 1 by {
                assert(chosen@.to_multiset().count(x) <= all.to_multiset().count(x));
            }
            chosen@.lemma_multiset_has_no_duplicates_conv();
            assert forall|k: int| 0 <= k < chosen@.len() implies (#[trigger] chosen@[k])
                < self@.len() && eligible(
                self@[chosen@[k] as int],
                ex,
                require_crypto,
                now,
                timeout,
            ) by {
                let x = chosen@[k];
                assert(chosen@.contains(x));
                assert(chosen@.to_multiset().count(x) > 0);
                assert(all.to_multiset().count(x) > 0);
                assert(all.contains(x));
                let j = choose|j: int| 0 <= j < all.len() && all[j] == x;
                assert(all[j] < self@.len());
            }
        }
        let mut picked: Vec<Peer> = Vec::new();
        let mut k: usize = 0;
        while k < chosen.len()
            invariant
                k <= chosen@.len(),
                picked@.len() == k,
                forall|r: int| 0 <= r < chosen@.len() ==> (#[trigger] chosen@[r]) < self.0@.len(),
                forall|r: int| 0 <= r < k ==> (#[trigger] picked@[r])@ == self@[chosen@[r] as int],
            decreases chosen@.len() - k,
        {
            picked.push(self.0[chosen[k]].clone());
            k += 1;
        }
        proof {
            let out = peers_view(picked@);
            assert(out.len() == chosen@.len());
            assert forall|r: int| 0 <= r < out.len() implies eligible(
                #[trigger] out[r],
                ex,
                require_crypto,
                now,
                timeout,
            ) && exists|i: int| 0 <= i < self@.len() && self@[i] == out[r] by {
                assert(out[r] == self@[chosen@[r] as int]);
            }
            assert forall|a: int, b: int| 0 <= a < b < out.len() implies !same_identity(
                #[trigger] out[a],
                #[trigger] out[b],
            ) by {
                let ia = chosen@[a] as int;
                let ib = chosen@[b] as int;
                assert(out[a] == self@[ia]);
                assert(out[b] == self@[ib]);
                assert(ia != ib);
                if ia > ib {
                    lemma_identity_symmetric(self@[ib], self@[ia]);
                }
            }
        }
        picked
    }
}

impl Default for Peers {
    fn default() -> (peers: Peers)
        ensures
            peers@.len() == 0,
    {
        Peers::new()
    }
}

impl Torrent {
    /// The torrent of an info-hash, with no peers yet.
    pub fn new(info_hash: InfoHash) -> (torrent: Torrent)
        ensures
            torrent.info_hash == info_hash,
            torrent.peers@.len() == 0,
            torrent.complete == 0,
            torrent.incomplete == 0,
            torrent.downloaded == 0,
            torrent.name is None,
    {
        Torrent {
            info_hash,
            peers: Peers::new(),
            complete: 0,
            incomplete: 0,
            downloaded: 0,
            name: None,
        }
    }

    /// Counts the seeders and the other peers anew.
    pub fn update_counts(&mut self)
        ensures
            final(self).complete == count_complete(old(self).peers@),
            final(self).complete + final(self).incomplete == old(self).peers@.len(),
            final(self).peers == old(self).peers,
            final(self).downloaded == old(self).downloaded,
            final(self).name == old(self).name,
            final(self).info_hash == old(self).info_hash,
    {
        let counts = self.peers.complete_incomplete();
        self.complete = counts.0;
        self.incomplete = counts.1;
    }
}

/// The position of the torrent of an info-hash, or the number of torrents
/// where there is none.
pub open spec fn torrent_position(torrents: Seq<Torrent>, info_hash: Seq<u8>) -> int
    decreases torrents.len(),
{
    if torrents.len() == 0 {
        0
    } else if torrents[0].info_hash@ == info_hash {
        0
    } else {
        1 + torrent_position(torrents.drop_first(), info_hash)
    }
}

/// A position found by a scan from the front is the position of the
/// torrent.
pub proof fn lemma_torrent_position_found(torrents: Seq<Torrent>, info_hash: Seq<u8>, at: int)
    requires
        0 <= at <= torrents.len(),
        forall|i: int| 0 <= i < at ==> (#[trigger] torrents[i]).info_hash@ != info_hash,
        at < torrents.len() ==> torrents[at].info_hash@ == info_hash,
    ensures
        torrent_position(torrents, info_hash) == at,
    decreases torrents.len(),
{
    if torrents.len() > 0 && at > 0 {
        let rest = torrents.drop_first();
        assert(torrents[0].info_hash@ != info_hash);
        assert forall|i: int| 0 <= i < at - 1 implies (#[trigger] rest[i]).info_hash@
            != info_hash by {
            assert(rest[i] == torrents[i + 1]);
        }
        if at < torrents.len() {
            assert(rest[at - 1] == torrents[at]);
        }
        lemma_torrent_position_found(rest, info_hash, at - 1);
    }
}

impl View for Torrents {
    type V = Seq<Torrent>;

    closed spec fn view(&self) -> Seq<Torrent> {
        self.0@
    }
}

impl Torrents {
    /// The registry with no torrents.
    pub fn new() -> (torrents: Torrents)
        ensures
            torrents@.len() == 0,
    {
        Torrents(Vec::new())
    }

    /// The number of torrents.
    pub fn len(&self) -> (n: usize)
        ensures
            n == self@.len(),
    {
        self.0.len()
    }

    /// The position of the torrent of an info-hash, or `len()`.
    pub fn find(&self, info_hash: &InfoHash) -> (at: usize)
        ensures
            at == torrent_position(self@, info_hash@),
            at <= self@.len(),
            at < self@.len() ==> self@[at as int].info_hash@ == info_hash@,
    {
        let mut i: usize = 0;
        while i < self.0.len()
            invariant
                i <= self.0@.len(),
                forall|j: int| 0 <= j < i ==> (#[trigger] self@[j]).info_hash@ != info_hash@,
            decreases self.0@.len() - i,
        {
            if self.0[i].info_hash.same(info_hash) {
                proof {
                    lemma_torrent_position_found(self@, info_hash@, i as int);
                }
                return i;
            }
            i += 1;
        }
        proof {
            lemma_torrent_position_found(self@, info_hash@, i as int);
        }
        i
    }

    /// Whether a torrent of this info-hash is known.
    pub fn contains(&self, info_hash: &InfoHash) -> (b: bool)
        ensures
            b == (torrent_position(self@, info_hash@) < self@.len()),
    {
        self.find(info_hash) < self.0.len()
    }

    /// The torrent at position `i`.
    pub fn torrent_at(&self, i: usize) -> (torrent: &Torrent)
        requires
            i < self@.len(),
        ensures
            *torrent == self@[i as int],
    {
        &self.0[i]
    }

    /// The torrent of an info-hash; made, with no peers, where it is not
    /// known yet. No torrent ever leaves the registry.
    pub fn get_or_insert(&mut self, info_hash: InfoHash) -> (torrent: &mut Torrent)
        ensures
            torrent.info_hash@ == info_hash@,
            0 <= torrent_position(old(self)@, info_hash@) <= old(self)@.len(),
            torrent_position(old(self)@, info_hash@) < old(self)@.len() ==> *torrent == old(
                self,
            )@[torrent_position(old(self)@, info_hash@)] && final(self)@ == old(self)@.update(
                torrent_position(old(self)@, info_hash@),
                *final(torrent),
            ),
            torrent_position(old(self)@, info_hash@) == old(self)@.len() ==> torrent.info_hash
                == info_hash && torrent.peers@.len() == 0 && torrent.complete == 0
                && torrent.incomplete == 0 && torrent.downloaded == 0 && torrent.name is None
                && final(self)@ == old(self)@.push(*final(torrent)),
    {
        let at: usize = self.find(&info_hash);
        if at == self.0.len() {
            self.0.push(Torrent::new(info_hash));
        }
        &mut self.0[at]
    }
}

impl Default for Torrents {
    fn default() -> (torrents: Torrents)
        ensures
            torrents@.len() == 0,
    {
        Torrents::new()
    }
}

} // verus!

//! When two peers are the same member of a swarm.

use vstd::prelude::*;
use vstd::std_specs::cmp::PartialEqSpecImpl;
use crate::tracker::peer::{Peer, PeerView};

verus! {

/// Two peers are the same member of a swarm when both have a peer id and
/// the ids match, or neither has one and their socket addresses match.
pub open spec fn same_identity(a: PeerView, b: PeerView) -> bool {
    match (a.peer_id, b.peer_id) {
        (Some(x), Some(y)) => x == y,
        (None, None) => a.addr == b.addr,
        _ => false,
    }
}

/// Being the same member is an equivalence: every peer is the same as
/// itself, the relation holds both ways, and it carries over.
pub proof fn law_identity_is_an_equivalence(a: PeerView, b: PeerView, c: PeerView)
    ensures
        same_identity(a, a),
        same_identity(a, b) == same_identity(b, a),
        same_identity(a, b) && same_identity(b, c) ==> same_identity(a, c),
{
}

/// Being the same member holds both ways.
pub proof fn lemma_identity_symmetric(a: PeerView, b: PeerView)
    ensures
        same_identity(a, b) == same_identity(b, a),
{
}

/// Being the same member carries over.
pub proof fn lemma_identity_transitive(a: PeerView, b: PeerView, c: PeerView)
    requires
        same_identity(a, b),
        same_identity(b, c),
    ensures
        same_identity(a, c),
{
}

impl Peer {
    /// Whether two peers are the same member of a swarm.
    pub fn same_identity(&self, other: &Peer) -> (same: bool)
        ensures
            same == same_identity(self@, other@),
    {
        match (&self.peer_id, &other.peer_id) {
            (Some(a), Some(b)) => a.same(b),
            (None, None) => self.addr == other.addr,
            _ => false,
        }
    }
}

impl PartialEq for Peer {
    fn eq(&self, other: &Peer) -> (same: bool) {
        self.same_identity(other)
    }
}

impl PartialEqSpecImpl for Peer {
    open spec fn obeys_eq_spec() -> bool {
        true
    }

    open spec fn eq_spec(&self, other: &Peer) -> bool {
        same_identity(self@, other@)
    }
}

impl Eq for Peer {

}

} // verus!

//! The registry as text, for a reader at a terminal: torrents by
//! info-hash, and under each torrent its peers in a fixed order.

use vstd::prelude::*;
use vstd::string::StringSliceAdditionalSpecFns;
use crate::bencode::decimal::{decimal, push_decimal};
use crate::bencode::order::{bytes_lt, compare_bytes, lemma_lt_transitive, KeyOrder};
use crate::ident::{hex_text, push_hex, push_be_u16, u16_be_bytes};
use crate::net::{ip_text, IpAddr, SocketAddr};
use crate::text::{read_text, lossy_text};
use crate::tracker::peer::{Peer, PeerView};
use crate::tracker::torrent::{Peers, Torrent, Torrents};
use crate::util::append_slice;

verus! {

/// The positions `0..n` with position `i` put in before the first position
/// whose key comes after the key of `i`.
pub open spec fn insert_by_key(order: Seq<int>, keys: Seq<Seq<u8>>, i: int) -> Seq<int>
    decreases order.len(),
{
    if order.len() == 0 {
        seq![i]
    } else if bytes_lt(keys[i], keys[order[0]]) {
        seq![i] + order
    } else {
        seq![order[0]] + insert_by_key(order.drop_first(), keys, i)
    }
}

/// The first `n` positions in the order of their keys; positions with one
/// key stay in their order.
pub open spec fn sorted_order(keys: Seq<Seq<u8>>, n: int) -> Seq<int>
    decreases n,
{
    if n <= 0 {
        Seq::empty()
    } else {
        insert_by_key(sorted_order(keys, n - 1), keys, n - 1)
    }
}

/// Whether the keys at the positions do not decrease along the order.
pub open spec fn in_key_order(order: Seq<int>, keys: Seq<Seq<u8>>) -> bool {
    forall|a: int, b: int|
        0 <= a < b < order.len() ==> !bytes_lt(keys[#[trigger] order[b]], keys[#[trigger] order[a]])
}

/// Whether the order holds each of the positions `0..n` once.
pub open spec fn is_arrangement(order: Seq<int>, n: int) -> bool {
    &&& order.len() == n
    &&& forall|a: int| 0 <= a < order.len() ==> 0 <= #[trigger] order[a] < n
    &&& forall|a: int, b: int| 0 <= a < b < order.len() ==> #[trigger] order[a] != #[trigger] order[b]
}

/// Where `insert_by_key` puts position `i`: before the first position
/// whose key comes after the key of `i`.
pub open spec fn insert_position(order: Seq<int>, keys: Seq<Seq<u8>>, i: int) -> int
    decreases order.len(),
{
    if order.len() == 0 {
        0
    } else if bytes_lt(keys[i], keys[order[0]]) {
        0
    } else {
        1 + insert_position(order.drop_first(), keys, i)
    }
}

proof fn lemma_insert_position(order: Seq<int>, keys: Seq<Seq<u8>>, i: int)
    ensures
        0 <= insert_position(order, keys, i) <= order.len(),
        insert_by_key(order, keys, i) == order.insert(insert_position(order, keys, i), i),
        forall|a: int|
            0 <= a < insert_position(order, keys, i) ==> !bytes_lt(
                keys[i],
                keys[#[trigger] order[a]],
            ),
        insert_position(order, keys, i) < order.len() ==> bytes_lt(
            keys[i],
            keys[order[insert_position(order, keys, i)]],
        ),
    decreases order.len(),
{
    if order.len() == 0 {
        assert(seq![i] =~= order.insert(0, i));
    } else if bytes_lt(keys[i], keys[order[0]]) {
        assert(seq![i] + order =~= order.insert(0, i));
    } else {
        let rest = order.drop_first();
        lemma_insert_position(rest, keys, i);
        let p = insert_position(rest, keys, i);
        assert(seq![order[0]] + rest.insert(p, i) =~= order.insert(p + 1, i));
        assert forall|a: int| 0 <= a < p + 1 implies !bytes_lt(
            keys[i],
            keys[#[trigger] order[a]],
        ) by {
            if a > 0 {
                assert(order[a] == rest[a - 1]);
            }
        }
        if p < rest.len() {
            assert(rest[p] == order[p + 1]);
        }
    }
}

/// A position found by a scan from the front is where `insert_by_key`
/// puts position `i`.
proof fn lemma_insert_position_found(order: Seq<int>, keys: Seq<Seq<u8>>, i: int, at: int)
    requires
        0 <= at <= order.len(),
        forall|a: int| 0 <= a < at ==> !bytes_lt(keys[i], keys[#[trigger] order[a]]),
        at < order.len() ==> bytes_lt(keys[i], keys[order[at]]),
    ensures
        insert_position(order, keys, i) == at,
    decreases order.len(),
{
    if order.len() > 0 && at > 0 {
        let rest = order.drop_first();
        assert(!bytes_lt(keys[i], keys[order[0]]));
        assert forall|a: int| 0 <= a < at - 1 implies !bytes_lt(
            keys[i],
            keys[#[trigger] rest[a]],
        ) by {
            assert(rest[a] == order[a + 1]);
        }
        if at < order.len() {
            assert(rest[at - 1] == order[at]);
        }
        lemma_insert_position_found(rest, keys, i, at - 1);
    }
}

/// Putting a new position into an order of the positions before it keeps
/// the keys from decreasing, and each position once.
proof fn lemma_insert_by_key(order: Seq<int>, keys: Seq<Seq<u8>>, n: int)
    requires
        is_arrangement(order, n),
        in_key_order(order, keys),
    ensures
        is_arrangement(insert_by_key(order, keys, n), n + 1),
        in_key_order(insert_by_key(order, keys, n), keys),
{
    lemma_insert_position(order, keys, n);
    let p = insert_position(order, keys, n);
    let out = insert_by_key(order, keys, n);
    assert forall|a: int| 0 <= a < out.len() implies 0 <= #[trigger] out[a] < n + 1 by {
        if a < p {
            assert(out[a] == order[a]);
        } else if a > p {
            assert(out[a] == order[a - 1]);
        }
    }
    assert forall|a: int, b: int| 0 <= a < b < out.len() implies #[trigger] out[a]
        != #[trigger] out[b] by {
        let a2 = if a < p {
            a
        } else {
            a - 1
        };
        let b2 = if b < p {
            b
        } else {
            b - 1
        };
        if a != p {
            assert(out[a] == order[a2]);
        }
        if b != p {
            assert(out[b] == order[b2]);
        }
    }
    assert forall|a: int, b: int| 0 <= a < b < out.len() implies !bytes_lt(
        keys[#[trigger] out[b]],
        keys[#[trigger] out[a]],
    ) by {
        if b == p {
            assert(out[a] == order[a]);
            if bytes_lt(keys[n], keys[order[a]]) {
                assert(false);
            }
        } else if a == p {
            assert(out[b] == order[b - 1]);
            if bytes_lt(keys[order[b - 1]], keys[n]) {
                lemma_lt_transitive(keys[order[b - 1]], keys[n], keys[order[p]]);
                if b - 1 == p {
                    crate::bencode::order::lemma_lt_irreflexive(keys[order[p]]);
                } else {
                    assert(!bytes_lt(keys[order[b - 1]], keys[order[p]]));
                }
            }
        } else {
            let a2 = if a < p {
                a
            } else {
                a - 1
            };
            let b2 = if b < p {
                b
            } else {
                b - 1
            };
            assert(out[a] == order[a2]);
            assert(out[b] == order[b2]);
        }
    }
}

/// The order of the keys holds each position once, and the keys do not
/// decrease along it.
pub proof fn law_sorted_order(keys: Seq<Seq<u8>>, n: int)
    requires
        0 <= n <= keys.len(),
    ensures
        is_arrangement(sorted_order(keys, n), n),
        in_key_order(sorted_order(keys, n), keys),
    decreases n,
{
    if n > 0 {
        law_sorted_order(keys, n - 1);
        lemma_insert_by_key(sorted_order(keys, n - 1), keys, n - 1);
    }
}

/// The model of a sequence of keys.
pub open spec fn keys_view(keys: Seq<Vec<u8>>) -> Seq<Seq<u8>> {
    Seq::new(keys.len(), |i: int| keys[i]@)
}

/// The model of an order of positions.
pub open spec fn order_view(order: Seq<usize>) -> Seq<int> {
    Seq::new(order.len(), |i: int| order[i] as int)
}

/// The positions of the keys in the order of the keys.
pub fn sort_order(keys: &Vec<Vec<u8>>) -> (order: Vec<usize>)
    ensures
        order_view(order@) == sorted_order(keys_view(keys@), keys@.len() as int),
        order@.len() == keys@.len(),
        forall|a: int| 0 <= a < order@.len() ==> #[trigger] order@[a] < keys@.len(),
{
    let mut order: Vec<usize> = Vec::new();
    let mut n: usize = 0;
    let ghost ks = keys_view(keys@);
    assert(order_view(order@) =~= sorted_order(ks, 0));
    while n < keys.len()
        invariant
            n <= keys@.len(),
            ks == keys_view(keys@),
            order@.len() == n,
            order_view(order@) == sorted_order(ks, n as int),
            forall|a: int| 0 <= a < order@.len() ==> #[trigger] order@[a] < n,
        decreases keys@.len() - n,
    {
        let ghost before = order_view(order@);
        let mut at: usize = 0;
        while at < order.len() && compare_bytes(
            keys[n].as_slice(),
            keys[order[at]].as_slice(),
        ) != KeyOrder::Before
            invariant
                at <= order@.len(),
                n < keys@.len(),
                ks == keys_view(keys@),
                before == order_view(order@),
                forall|a: int| 0 <= a < order@.len() ==> #[trigger] order@[a] < n,
                forall|a: int| 0 <= a < at ==> !bytes_lt(ks[n as int], ks[#[trigger] before[a]]),
            decreases order@.len() - at,
        {
            at += 1;
        }
        proof {
            lemma_insert_position_found(before, ks, n as int, at as int);
            lemma_insert_position(before, ks, n as int);
        }
        order.insert(at, n);
        assert(order_view(order@) =~= before.insert(at as int, n as int));
        n += 1;
    }
    order
}

/// The byte of a line feed.
pub const BYTE_NEWLINE: u8 = 10;

/// A socket address as text: a version 4 address, a colon and the port; a
/// version 6 address in square brackets, a colon and the port.
pub open spec fn socket_text(addr: SocketAddr) -> Seq<u8> {
    match addr.ip {
        IpAddr::V4(_) => ip_text(addr.ip) + ":".spec_bytes() + decimal(addr.port as nat),
        IpAddr::V6(_) => "[".spec_bytes() + ip_text(addr.ip) + "]:".spec_bytes() + decimal(
            addr.port as nat,
        ),
    }
}

/// A count as text: the number, or a question mark where it is not known.
pub open spec fn count_text(count: Option<u64>) -> Seq<u8> {
    match count {
        Some(n) => decimal(n as nat),
        None => "?".spec_bytes(),
    }
}

/// A peer in one line: its id, where it has one, with its address in
/// brackets, or else its address, and what it has uploaded, downloaded and
/// left.
pub open spec fn peer_line(p: PeerView) -> Seq<u8> {
    (match p.peer_id {
        Some(id) => id + " (".spec_bytes() + socket_text(p.addr) + ") -- ".spec_bytes(),
        None => socket_text(p.addr) + " -- ".spec_bytes(),
    }) + count_text(p.uploaded) + " uploaded, ".spec_bytes() + count_text(p.downloaded)
        + " downloaded, ".spec_bytes() + count_text(p.left) + " left".spec_bytes()
}

/// The key by which peers are listed: peers without an id first, by
/// address, then peers with an id, by id.
pub open spec fn listing_key(p: PeerView) -> Seq<u8> {
    match p.peer_id {
        Some(id) => seq![1u8] + id,
        None => seq![0u8] + address_key(p.addr),
    }
}

/// The key of an address: version 4 before version 6, then by address,
/// then by port.
pub open spec fn address_key(addr: SocketAddr) -> Seq<u8> {
    (match addr.ip {
        IpAddr::V4(a) => seq![4u8] + crate::ident::u32_be_bytes(a),
        IpAddr::V6(a) => seq![6u8] + crate::ident::u32_be_bytes((a / 0x1_0000_0000_0000_0000_0000_0000) as u32)
            + crate::ident::u32_be_bytes((a / 0x1_0000_0000_0000_0000 % 0x1_0000_0000) as u32)
            + crate::ident::u32_be_bytes((a / 0x1_0000_0000 % 0x1_0000_0000) as u32)
            + crate::ident::u32_be_bytes((a % 0x1_0000_0000) as u32),
    }) + u16_be_bytes(addr.port)
}

/// The lines of the items at the positions of an order, with a newline
/// between two lines.
pub open spec fn joined_lines(lines: Seq<Seq<u8>>, order: Seq<int>) -> Seq<u8>
    decreases order.len(),
{
    if order.len() == 0 {
        Seq::empty()
    } else if order.len() == 1 {
        lines[order[0]]
    } else {
        joined_lines(lines, order.drop_last()) + seq![BYTE_NEWLINE] + lines[order.last()]
    }
}

/// The lines of the items at the positions of an order, with a newline
/// after each line.
pub open spec fn ended_lines(lines: Seq<Seq<u8>>, order: Seq<int>) -> Seq<u8>
    decreases order.len(),
{
    if order.len() == 0 {
        Seq::empty()
    } else {
        ended_lines(lines, order.drop_last()) + lines[order.last()] + seq![BYTE_NEWLINE]
    }
}

/// The peers of a swarm, one in each line, in the order of their listing
/// keys.
pub open spec fn peers_text(peers: Seq<PeerView>) -> Seq<u8> {
    joined_lines(
        Seq::new(peers.len(), |i: int| peer_line(peers[i])),
        sorted_order(Seq::new(peers.len(), |i: int| listing_key(peers[i])), peers.len() as int),
    )
}

/// A torrent as text: a line with its info-hash in hexadecimal and its
/// counts, and under it its peers, where it has any.
pub open spec fn torrent_text(t: Torrent) -> Seq<u8> {
    hex_text(t.info_hash@) + " -- ".spec_bytes() + decimal(t.peers@.len()) + " peers, ".spec_bytes()
        + decimal(t.complete as nat) + " complete, ".spec_bytes() + decimal(t.incomplete as nat)
        + " incomplete, ".spec_bytes() + decimal(t.downloaded as nat) + " downloaded".spec_bytes()
        + if t.peers@.len() > 0 {
        seq![BYTE_NEWLINE] + peers_text(t.peers@)
    } else {
        Seq::empty()
    }
}

/// The registry as text: its torrents in the order of their info-hashes,
/// each followed by a newline.
pub open spec fn registry_text(torrents: Seq<Torrent>) -> Seq<u8> {
    ended_lines(
        Seq::new(torrents.len(), |i: int| torrent_text(torrents[i])),
        sorted_order(Seq::new(torrents.len(), |i: int| torrents[i].info_hash@), torrents.len() as int),
    )
}

/// Appends a socket address as text.
fn push_socket(out: &mut Vec<u8>, addr: &SocketAddr)
    ensures
        final(out)@ == old(out)@ + socket_text(*addr),
{
    match addr.ip {
        IpAddr::V4(_) => {
            addr.ip.push_text(out);
            append_slice(out, ":".as_bytes());
            push_decimal(out, addr.port as u128);
        },
        IpAddr::V6(_) => {
            append_slice(out, "[".as_bytes());
            addr.ip.push_text(out);
            append_slice(out, "]:".as_bytes());
            push_decimal(out, addr.port as u128);
        },
    }
    assert(out@ =~= old(out)@ + socket_text(*addr));
}

/// Appends a count as text.
fn push_count(out: &mut Vec<u8>, count: Option<u64>)
    ensures
        final(out)@ == old(out)@ + count_text(count),
{
    match count {
        Some(n) => push_decimal(out, n as u128),
        None => append_slice(out, "?".as_bytes()),
    }
}

/// The bytes of a peer's line.
pub fn peer_line_bytes(peer: &Peer) -> (line: Vec<u8>)
    ensures
        line@ == peer_line(peer@),
{
    let mut out: Vec<u8> = Vec::new();
    match &peer.peer_id {
        Some(id) => {
            append_slice(&mut out, id.as_slice());
            append_slice(&mut out, " (".as_bytes());
            push_socket(&mut out, &peer.addr);
            append_slice(&mut out, ") -- ".as_bytes());
        },
        None => {
            push_socket(&mut out, &peer.addr);
            append_slice(&mut out, " -- ".as_bytes());
        },
    }
    push_count(&mut out, peer.uploaded);
    append_slice(&mut out, " uploaded, ".as_bytes());
    push_count(&mut out, peer.downloaded);
    append_slice(&mut out, " downloaded, ".as_bytes());
    push_count(&mut out, peer.left);
    append_slice(&mut out, " left".as_bytes());
    assert(out@ =~= peer_line(peer@));
    out
}

/// The key by which a peer is listed.
pub fn listing_key_bytes(peer: &Peer) -> (key: Vec<u8>)
    ensures
        key@ == listing_key(peer@),
{
    let mut out: Vec<u8> = Vec::new();
    match &peer.peer_id {
        Some(id) => {
            out.push(1u8);
            append_slice(&mut out, id.as_slice());
        },
        None => {
            out.push(0u8);
            match peer.addr.ip {
                IpAddr::V4(a) => {
                    out.push(4u8);
                    crate::ident::push_be_u32(&mut out, a);
                },
                IpAddr::V6(a) => {
                    out.push(6u8);
                    crate::ident::push_be_u32(
                        &mut out,
                        (a / 0x1_0000_0000_0000_0000_0000_0000) as u32,
                    );
                    crate::ident::push_be_u32(
                        &mut out,
                        (a / 0x1_0000_0000_0000_0000 % 0x1_0000_0000) as u32,
                    );
                    crate::ident::push_be_u32(&mut out, (a / 0x1_0000_0000 % 0x1_0000_0000) as u32);
                    crate::ident::push_be_u32(&mut out, (a % 0x1_0000_0000) as u32);
                },
            }
            push_be_u16(&mut out, peer.addr.port);
        },
    }
    assert(out@ =~= listing_key(peer@));
    out
}

/// Appends the lines at the positions of an order, with a newline between
/// two lines.
fn push_joined_lines(out: &mut Vec<u8>, lines: &Vec<Vec<u8>>, order: &Vec<usize>)
    requires
        forall|a: int| 0 <= a < order@.len() ==> #[trigger] order@[a] < lines@.len(),
    ensures
        final(out)@ == old(out)@ + joined_lines(keys_view(lines@), order_view(order@)),
{
    let mut k: usize = 0;
    let ghost all = order_view(order@);
    let ghost ls = keys_view(lines@);
    assert(all.take(0) =~= Seq::<int>::empty());
    assert(out@ =~= old(out)@ + joined_lines(ls, all.take(0)));
    while k < order.len()
        invariant
            k <= order@.len(),
            all == order_view(order@),
            ls == keys_view(lines@),
            forall|a: int| 0 <= a < order@.len() ==> #[trigger] order@[a] < lines@.len(),
            out@ == old(out)@ + joined_lines(ls, all.take(k as int)),
        decreases order@.len() - k,
    {
        proof {
            assert(all.take(k + 1).drop_last() =~= all.take(k as int));
            assert(all.take(k + 1).last() == order@[k as int] as int);
        }
        if k > 0 {
            out.push(BYTE_NEWLINE);
        }
        append_slice(out, lines[order[k]].as_slice());
        assert(out@ =~= old(out)@ + joined_lines(ls, all.take(k + 1)));
        k += 1;
    }
    assert(all.take(k as int) =~= all);
}

/// Appends the lines at the positions of an order, with a newline after
/// each line.
fn push_ended_lines(out: &mut Vec<u8>, lines: &Vec<Vec<u8>>, order: &Vec<usize>)
    requires
        forall|a: int| 0 <= a < order@.len() ==> #[trigger] order@[a] < lines@.len(),
    ensures
        final(out)@ == old(out)@ + ended_lines(keys_view(lines@), order_view(order@)),
{
    let mut k: usize = 0;
    let ghost all = order_view(order@);
    let ghost ls = keys_view(lines@);
    assert(all.take(0) =~= Seq::<int>::empty());
    assert(out@ =~= old(out)@ + ended_lines(ls, all.take(0)));
    while k < order.len()
        invariant
            k <= order@.len(),
            all == order_view(order@),
            ls == keys_view(lines@),
            forall|a: int| 0 <= a < order@.len() ==> #[trigger] order@[a] < lines@.len(),
            out@ == old(out)@ + ended_lines(ls, all.take(k as int)),
        decreases order@.len() - k,
    {
        proof {
            assert(all.take(k + 1).drop_last() =~= all.take(k as int));
            assert(all.take(k + 1).last() == order@[k as int] as int);
        }
        append_slice(out, lines[order[k]].as_slice());
        out.push(BYTE_NEWLINE);
        assert(out@ =~= old(out)@ + ended_lines(ls, all.take(k + 1)));
        k += 1;
    }
    assert(all.take(k as int) =~= all);
}

/// The bytes of the listing of a swarm.
pub fn peers_text_bytes(peers: &Peers) -> (text: Vec<u8>)
    ensures
        text@ == peers_text(peers@),
{
    let n: usize = peers.len();
    let mut lines: Vec<Vec<u8>> = Vec::new();
    let mut keys: Vec<Vec<u8>> = Vec::new();
    let mut i: usize = 0;
    while i < n
        invariant
            i <= n,
            n == peers@.len(),
            lines@.len() == i,
            keys@.len() == i,
            forall|j: int| 0 <= j < i ==> (#[trigger] lines@[j])@ == peer_line(peers@[j]),
            forall|j: int| 0 <= j < i ==> (#[trigger] keys@[j])@ == listing_key(peers@[j]),
        decreases n - i,
    {
        lines.push(peer_line_bytes(peers.peer_at(i)));
        keys.push(listing_key_bytes(peers.peer_at(i)));
        i += 1;
    }
    assert(keys_view(lines@) =~= Seq::new(peers@.len(), |i: int| peer_line(peers@[i])));
    assert(keys_view(keys@) =~= Seq::new(peers@.len(), |i: int| listing_key(peers@[i])));
    let order = sort_order(&keys);
    let mut out: Vec<u8> = Vec::new();
    push_joined_lines(&mut out, &lines, &order);
    assert(out@ =~= peers_text(peers@));
    out
}

/// The bytes of a torrent's text.
pub fn torrent_text_bytes(torrent: &Torrent) -> (text: Vec<u8>)
    ensures
        text@ == torrent_text(*torrent),
{
    let mut out: Vec<u8> = Vec::new();
    push_hex(&mut out, torrent.info_hash.as_slice());
    append_slice(&mut out, " -- ".as_bytes());
    push_decimal(&mut out, torrent.peers.len() as u128);
    append_slice(&mut out, " peers, ".as_bytes());
    push_decimal(&mut out, torrent.complete as u128);
    append_slice(&mut out, " complete, ".as_bytes());
    push_decimal(&mut out, torrent.incomplete as u128);
    append_slice(&mut out, " incomplete, ".as_bytes());
    push_decimal(&mut out, torrent.downloaded as u128);
    append_slice(&mut out, " downloaded".as_bytes());
    if !torrent.peers.is_empty() {
        out.push(BYTE_NEWLINE);
        let peers = peers_text_bytes(&torrent.peers);
        append_slice(&mut out, peers.as_slice());
        assert(out@ =~= torrent_text(*torrent));
    } else {
        assert(out@ =~= torrent_text(*torrent));
    }
    out
}

/// The bytes of the registry's text.
pub fn registry_text_bytes(torrents: &Torrents) -> (text: Vec<u8>)
    ensures
        text@ == registry_text(torrents@),
{
    let n: usize = torrents.len();
    let mut lines: Vec<Vec<u8>> = Vec::new();
    let mut keys: Vec<Vec<u8>> = Vec::new();
    let mut i: usize = 0;
    while i < n
        invariant
            i <= n,
            n == torrents@.len(),
            lines@.len() == i,
            keys@.len() == i,
            forall|j: int| 0 <= j < i ==> (#[trigger] lines@[j])@ == torrent_text(torrents@[j]),
            forall|j: int| 0 <= j < i ==> (#[trigger] keys@[j])@ == torrents@[j].info_hash@,
        decreases n - i,
    {
        lines.push(torrent_text_bytes(torrents.torrent_at(i)));
        keys.push(vstd::slice::slice_to_vec(torrents.torrent_at(i).info_hash.as_slice()));
        i += 1;
    }
    assert(keys_view(lines@) =~= Seq::new(torrents@.len(), |i: int| torrent_text(torrents@[i])));
    assert(keys_view(keys@) =~= Seq::new(torrents@.len(), |i: int| torrents@[i].info_hash@));
    let order = sort_order(&keys);
    let mut out: Vec<u8> = Vec::new();
    push_ended_lines(&mut out, &lines, &order);
    assert(out@ =~= registry_text(torrents@));
    out
}

impl Peer {
    /// The peer in one line; bytes of its id that are not UTF-8 become
    /// U+FFFD.
    pub fn to_text(&self) -> (text: String)
        ensures
            text@ == lossy_text(peer_line(self@)),
    {
        read_text(peer_line_bytes(self).as_slice())
    }
}

impl Peers {
    /// The peers, one in each line.
    pub fn to_text(&self) -> (text: String)
        ensures
            text@ == lossy_text(peers_text(self@)),
    {
        read_text(peers_text_bytes(self).as_slice())
    }
}

impl Torrent {
    /// The torrent and its peers as text.
    pub fn to_text(&self) -> (text: String)
        ensures
            text@ == lossy_text(torrent_text(*self)),
    {
        read_text(torrent_text_bytes(self).as_slice())
    }
}

impl Torrents {
    /// The registry as text.
    pub fn to_text(&self) -> (text: String)
        ensures
            text@ == lossy_text(registry_text(self@)),
    {
        read_text(registry_text_bytes(self).as_slice())
    }
}

} // verus!

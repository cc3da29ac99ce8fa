//! The identifiers that travel on the wire: fixed-width opaque byte arrays
//! for a torrent, a peer and a block, and a peer's free-form key.

use vstd::prelude::*;
use vstd::slice::slice_to_vec;
use vstd::std_specs::convert::FromSpecImpl;
use vstd::string::StringSliceAdditionalSpecFns;
use vstd::utf8::encode_utf8;
use crate::query::{decode_qs_bytes, hex_char, hex_digit, parse_qs_to_bytes, qs_decode, QsError};
use crate::random::random_tail;
use crate::text::{read_text, lossy_text};
use crate::util::same_bytes;

verus! {

/// The 20-byte SHA-1 digest of a torrent's bencoded `info` dictionary.
#[derive(Clone, Copy, Debug, PartialEq, Eq, PartialOrd, Ord, Hash)]
pub struct InfoHash([u8; 20]);

/// A peer's 20-byte identity.
#[derive(Clone, Copy, Debug, PartialEq, Eq, PartialOrd, Ord, Hash)]
pub struct PeerId([u8; 20]);

/// A byte string that a peer supplies to be known by across address changes.
#[derive(Clone, Debug, PartialEq, Eq, Hash)]
pub struct PeerKey(Vec<u8>);

/// A sub-range of one piece: piece index, offset and length, each a
/// big-endian `u32`, in twelve bytes.
#[derive(Clone, Copy, Debug, PartialEq, Eq)]
pub struct BlockRef([u8; 12]);

impl View for InfoHash {
    type V = Seq<u8>;

    closed spec fn view(&self) -> Seq<u8> {
        self.0@
    }
}

impl View for PeerId {
    type V = Seq<u8>;

    closed spec fn view(&self) -> Seq<u8> {
        self.0@
    }
}

impl View for PeerKey {
    type V = Seq<u8>;

    closed spec fn view(&self) -> Seq<u8> {
        self.0@
    }
}

impl View for BlockRef {
    type V = Seq<u8>;

    closed spec fn view(&self) -> Seq<u8> {
        self.0@
    }
}

/// Each byte as two lower-case hexadecimal digits.
pub open spec fn hex_text(bytes: Seq<u8>) -> Seq<u8>
    decreases bytes.len(),
{
    if bytes.len() == 0 {
        Seq::empty()
    } else {
        hex_text(bytes.drop_last()) + seq![hex_digit(bytes.last() / 16), hex_digit(bytes.last() % 16)]
    }
}

/// Appends each byte as two lower-case hexadecimal digits.
pub fn push_hex(out: &mut Vec<u8>, bytes: &[u8])
    ensures
        final(out)@ == old(out)@ + hex_text(bytes@),
{
    let mut i: usize = 0;
    assert(bytes@.take(0) =~= Seq::<u8>::empty());
    while i < bytes.len()
        invariant
            i <= bytes.len(),
            out@ == old(out)@ + hex_text(bytes@.take(i as int)),
        decreases bytes.len() - i,
    {
        proof {
            assert(bytes@.take(i + 1).drop_last() =~= bytes@.take(i as int));
        }
        out.push(hex_char(bytes[i] / 16));
        out.push(hex_char(bytes[i] % 16));
        assert(out@ =~= old(out)@ + hex_text(bytes@.take(i + 1)));
        i += 1;
    }
    assert(bytes@.take(i as int) =~= bytes@);
}

/// The big-endian value of four bytes.
pub open spec fn be_u32(b: Seq<u8>) -> int
    recommends
        b.len() == 4,
{
    b[0] * 16777216 + b[1] * 65536 + b[2] * 256 + b[3]
}

/// The four bytes of a `u32`, most significant first.
pub open spec fn u32_be_bytes(x: u32) -> Seq<u8> {
    seq![
        (x / 16777216) as u8,
        (x / 65536 % 256) as u8,
        (x / 256 % 256) as u8,
        (x % 256) as u8,
    ]
}

/// The big-endian value of two bytes.
pub open spec fn be_u16(b: Seq<u8>) -> int
    recommends
        b.len() == 2,
{
    b[0] * 256 + b[1]
}

/// The two bytes of a `u16`, most significant first.
pub open spec fn u16_be_bytes(x: u16) -> Seq<u8> {
    seq![(x / 256) as u8, (x % 256) as u8]
}

/// The four bytes of a number stand for that number.
pub proof fn lemma_be_u32_round_trip(x: u32)
    ensures
        be_u32(u32_be_bytes(x)) == x,
        u32_be_bytes(x).len() == 4,
{
    let v: int = x as int;
    let b0: int = v / 16777216;
    let b1: int = v / 65536 % 256;
    let b2: int = v / 256 % 256;
    let b3: int = v % 256;
    assert(v == 256 * (v / 256) + b3);
    assert(v / 256 == 256 * (v / 65536) + b2);
    assert(v / 65536 == 256 * b0 + b1);
    assert(b0 * 16777216 + b1 * 65536 + b2 * 256 + b3 == v);
}

/// Four bytes are the bytes of the number they stand for.
pub proof fn lemma_u32_be_bytes_round_trip(b: Seq<u8>)
    requires
        b.len() == 4,
    ensures
        0 <= be_u32(b) <= u32::MAX,
        u32_be_bytes(be_u32(b) as u32) == b,
{
    let b0: int = b[0] as int;
    let b1: int = b[1] as int;
    let b2: int = b[2] as int;
    let b3: int = b[3] as int;
    let x: int = b0 * 16777216 + b1 * 65536 + b2 * 256 + b3;
    assert(x == be_u32(b));
    assert(x % 256 == b3);
    assert(x / 256 == b0 * 65536 + b1 * 256 + b2);
    assert((x / 256) % 256 == b2);
    assert(x / 65536 == b0 * 256 + b1);
    assert((x / 65536) % 256 == b1);
    assert(x / 16777216 == b0);
    let out = u32_be_bytes(x as u32);
    assert(out[0] == b[0]);
    assert(out[1] == b[1]);
    assert(out[2] == b[2]);
    assert(out[3] == b[3]);
    assert(out =~= b);
}

/// The two bytes of a number stand for that number.
pub proof fn lemma_be_u16_round_trip(x: u16)
    ensures
        be_u16(u16_be_bytes(x)) == x,
        u16_be_bytes(x).len() == 2,
{
}

/// Two bytes are the bytes of the number they stand for.
pub proof fn lemma_u16_be_bytes_round_trip(b: Seq<u8>)
    requires
        b.len() == 2,
    ensures
        0 <= be_u16(b) <= u16::MAX,
        u16_be_bytes(be_u16(b) as u16) == b,
{
    assert(u16_be_bytes(be_u16(b) as u16) =~= b);
}

/// Reads a big-endian `u32` at `pos`.
pub fn read_be_u32(input: &[u8], pos: usize) -> (x: u32)
    requires
        pos + 4 <= input.len(),
    ensures
        x == be_u32(input@.subrange(pos as int, pos + 4)),
{
    (input[pos] as u32) * 16777216 + (input[pos + 1] as u32) * 65536 + (input[pos + 2] as u32)
        * 256 + (input[pos + 3] as u32)
}

/// Reads a big-endian `u16` at `pos`.
pub fn read_be_u16(input: &[u8], pos: usize) -> (x: u16)
    requires
        pos + 2 <= input.len(),
    ensures
        x == be_u16(input@.subrange(pos as int, pos + 2)),
{
    (input[pos] as u16) * 256 + (input[pos + 1] as u16)
}

/// Appends a `u32`, most significant byte first.
pub fn push_be_u32(out: &mut Vec<u8>, x: u32)
    ensures
        final(out)@ == old(out)@ + u32_be_bytes(x),
{
    out.push((x / 16777216) as u8);
    out.push((x / 65536 % 256) as u8);
    out.push((x / 256 % 256) as u8);
    out.push((x % 256) as u8);
    assert(out@ =~= old(out)@ + u32_be_bytes(x));
}

/// Appends a `u16`, most significant byte first.
pub fn push_be_u16(out: &mut Vec<u8>, x: u16)
    ensures
        final(out)@ == old(out)@ + u16_be_bytes(x),
{
    out.push((x / 256) as u8);
    out.push((x % 256) as u8);
    assert(out@ =~= old(out)@ + u16_be_bytes(x));
}

impl InfoHash {
    /// An identifier is twenty bytes long.
    pub proof fn lemma_len(self)
        ensures
            self@.len() == 20,
    {
    }

    /// The identifier's bytes; there are always twenty.
    pub fn as_slice(&self) -> (bytes: &[u8])
        ensures
            bytes@ == self@,
            bytes@.len() == 20,
    {
        self.0.as_slice()
    }

    /// Reads an identifier from a query-string component.
    pub fn parse(input: &str) -> (r: Result<InfoHash, QsError>)
        ensures
            match qs_decode(input.spec_bytes(), 20) {
                Ok(bytes) => r matches Ok(id) && id@ == bytes,
                Err(error) => r == Err::<InfoHash, QsError>(error),
            },
    {
        match parse_qs_to_bytes::<20>(input) {
            Ok(bytes) => Ok(InfoHash(bytes)),
            Err(e) => Err(e),
        }
    }

    /// Reads an identifier from the bytes of a query-string component.
    pub fn parse_bytes(input: &[u8]) -> (r: Result<InfoHash, QsError>)
        ensures
            match qs_decode(input@, 20) {
                Ok(bytes) => r matches Ok(id) && id@ == bytes,
                Err(error) => r == Err::<InfoHash, QsError>(error),
            },
    {
        match decode_qs_bytes::<20>(input) {
            Ok(bytes) => Ok(InfoHash(bytes)),
            Err(e) => Err(e),
        }
    }

    /// The identifier held in a byte string of exactly twenty bytes.
    pub fn from_slice(input: &[u8]) -> (r: Option<InfoHash>)
        ensures
            input@.len() == 20 ==> (r matches Some(id) && id@ == input@),
            input@.len() != 20 ==> r is None,
    {
        if input.len() != 20 {
            return None;
        }
        let mut bytes: [u8; 20] = [0u8;20];
        let mut i: usize = 0;
        while i < 20
            invariant
                i <= 20,
                input@.len() == 20,
                forall|j: int| 0 <= j < i ==> bytes@[j] == input@[j],
            decreases 20 - i,
        {
            bytes[i] = input[i];
            i += 1;
        }
        assert(bytes@ =~= input@);
        Some(InfoHash(bytes))
    }

    /// Whether two identifiers hold the same bytes.
    pub fn same(&self, other: &InfoHash) -> (eq: bool)
        ensures
            eq == (self@ == other@),
            eq == (*self == *other),
    {
        let eq = same_bytes(self.0.as_slice(), other.0.as_slice());
        proof {
            if eq {
                assert(self.0 =~= other.0);
            }
        }
        eq
    }

    /// The identifier as forty lower-case hexadecimal digits.
    pub fn to_hex(&self) -> (text: String)
        ensures
            encode_utf8(text@) == hex_text(self@),
    {
        hex_string(self.0.as_slice())
    }
}

/// The text that holds each byte as two lower-case hexadecimal digits.
pub fn hex_string(bytes: &[u8]) -> (text: String)
    ensures
        encode_utf8(text@) == hex_text(bytes@),
{
    let mut out: Vec<u8> = Vec::new();
    push_hex(&mut out, bytes);
    proof {
        lemma_hex_text_ascii(bytes@);
        crate::text::lemma_ascii_is_utf8(out@);
    }
    read_text(out.as_slice())
}

/// Bytes in hexadecimal are two ASCII bytes each.
pub proof fn lemma_hex_text_ascii(bytes: Seq<u8>)
    ensures
        crate::text::all_ascii(hex_text(bytes)),
        hex_text(bytes).len() == 2 * bytes.len(),
    decreases bytes.len(),
{
    if bytes.len() > 0 {
        lemma_hex_text_ascii(bytes.drop_last());
    }
}

impl core::str::FromStr for InfoHash {
    type Err = QsError;

    /// Reads an identifier from a query-string component.
    fn from_str(input: &str) -> (r: Result<InfoHash, QsError>)
        ensures
            match qs_decode(input.spec_bytes(), 20) {
                Ok(bytes) => r matches Ok(id) && id@ == bytes,
                Err(error) => r == Err::<InfoHash, QsError>(error),
            },
    {
        InfoHash::parse(input)
    }
}

impl From<[u8; 20]> for InfoHash {
    fn from(input: [u8; 20]) -> (id: InfoHash) {
        InfoHash(input)
    }
}

impl FromSpecImpl<[u8; 20]> for InfoHash {
    open spec fn obeys_from_spec() -> bool {
        true
    }

    closed spec fn from_spec(input: [u8; 20]) -> InfoHash {
        InfoHash(input)
    }
}

impl InfoHash {
    /// The identifier made of twenty bytes holds those bytes.
    pub proof fn lemma_from(input: [u8; 20])
        ensures
            <InfoHash as vstd::std_specs::convert::FromSpec<[u8; 20]>>::from_spec(input)@ == input@,
    {
    }
}

/// The identity that `create` builds: `-`, the client tag, the version, `-`
/// and the random bytes, cut to twenty bytes, or filled up with zeros.
pub open spec fn peer_id_bytes(client: Seq<u8>, version: Seq<u8>, random: Seq<u8>) -> Seq<u8> {
    (seq![45u8] + client + version + seq![45u8] + random + Seq::new(20, |i: int| 0u8)).take(20)
}

impl PeerId {
    /// An identity is twenty bytes long.
    pub proof fn lemma_len(self)
        ensures
            self@.len() == 20,
    {
    }

    /// A fresh identity for this client: `-`, the two-byte client tag, the
    /// four-byte version, `-`, and twelve random bytes.
    pub fn create(client_id: &str, version: &str) -> (id: PeerId)
        ensures
            exists|random: Seq<u8>|
                random.len() == 12 && id@ == peer_id_bytes(
                    client_id.spec_bytes(),
                    version.spec_bytes(),
                    random,
                ),
    {
        let random = random_tail();
        let id = PeerId::assemble(client_id.as_bytes(), version.as_bytes(), &random);
        assert(random@.len() == 12 && id@ == peer_id_bytes(
            client_id.spec_bytes(),
            version.spec_bytes(),
            random@,
        ));
        id
    }

    /// The identity made of a client tag, a version and the given random
    /// bytes.
    pub fn assemble(client_id: &[u8], version: &[u8], random: &[u8; 12]) -> (id: PeerId)
        ensures
            id@ == peer_id_bytes(client_id@, version@, random@),
    {
        let mut all: Vec<u8> = Vec::new();
        all.push(45u8);
        crate::util::append_slice(&mut all, client_id);
        crate::util::append_slice(&mut all, version);
        all.push(45u8);
        crate::util::append_slice(&mut all, random.as_slice());
        let ghost given = seq![45u8] + client_id@ + version@ + seq![45u8] + random@;
        assert(all@ =~= given);
        let mut bytes: [u8; 20] = [0u8;20];
        let mut i: usize = 0;
        while i < 20 && i < all.len()
            invariant
                i <= 20,
                i <= all@.len(),
                all@ == given,
                forall|j: int| 0 <= j < i ==> bytes@[j] == all@[j],
                forall|j: int| i <= j < 20 ==> bytes@[j] == 0,
            decreases 20 - i,
        {
            bytes[i] = all[i];
            i += 1;
        }
        assert(bytes@ =~= peer_id_bytes(client_id@, version@, random@)) by {
            let padded = given + Seq::new(20, |k: int| 0u8);
            assert forall|j: int| 0 <= j < 20 implies bytes@[j] == padded[j] by {
                if j >= given.len() {
                    assert(padded[j] == Seq::new(20, |k: int| 0u8)[j - given.len()]);
                    assert(bytes@[j] == 0);
                } else {
                    assert(padded[j] == given[j]);
                    assert(bytes@[j] == all@[j]);
                }
            }
        }
        PeerId(bytes)
    }

    /// The identity's bytes; there are always twenty.
    pub fn as_slice(&self) -> (bytes: &[u8])
        ensures
            bytes@ == self@,
            bytes@.len() == 20,
    {
        self.0.as_slice()
    }

    /// Reads an identity from a query-string component.
    pub fn parse(input: &str) -> (r: Result<PeerId, QsError>)
        ensures
            match qs_decode(input.spec_bytes(), 20) {
                Ok(bytes) => r matches Ok(id) && id@ == bytes,
                Err(error) => r == Err::<PeerId, QsError>(error),
            },
    {
        match parse_qs_to_bytes::<20>(input) {
            Ok(bytes) => Ok(PeerId(bytes)),
            Err(e) => Err(e),
        }
    }

    /// Reads an identity from the bytes of a query-string component.
    pub fn parse_bytes(input: &[u8]) -> (r: Result<PeerId, QsError>)
        ensures
            match qs_decode(input@, 20) {
                Ok(bytes) => r matches Ok(id) && id@ == bytes,
                Err(error) => r == Err::<PeerId, QsError>(error),
            },
    {
        match decode_qs_bytes::<20>(input) {
            Ok(bytes) => Ok(PeerId(bytes)),
            Err(e) => Err(e),
        }
    }

    /// The identity held in a byte string of exactly twenty bytes.
    pub fn from_slice(input: &[u8]) -> (r: Option<PeerId>)
        ensures
            input@.len() == 20 ==> (r matches Some(id) && id@ == input@),
            input@.len() != 20 ==> r is None,
    {
        if input.len() != 20 {
            return None;
        }
        let mut bytes: [u8; 20] = [0u8;20];
        let mut i: usize = 0;
        while i < 20
            invariant
                i <= 20,
                input@.len() == 20,
                forall|j: int| 0 <= j < i ==> bytes@[j] == input@[j],
            decreases 20 - i,
        {
            bytes[i] = input[i];
            i += 1;
        }
        assert(bytes@ =~= input@);
        Some(PeerId(bytes))
    }

    /// Whether two identities hold the same bytes.
    pub fn same(&self, other: &PeerId) -> (eq: bool)
        ensures
            eq == (self@ == other@),
            eq == (*self == *other),
    {
        let eq = same_bytes(self.0.as_slice(), other.0.as_slice());
        proof {
            if eq {
                assert(self.0 =~= other.0);
            }
        }
        eq
    }

    /// The identity as text; bytes that are not UTF-8 become U+FFFD.
    pub fn to_text(&self) -> (text: String)
        ensures
            text@ == lossy_text(self@),
    {
        read_text(self.0.as_slice())
    }
}

impl core::str::FromStr for PeerId {
    type Err = QsError;

    /// Reads an identity from a query-string component.
    fn from_str(input: &str) -> (r: Result<PeerId, QsError>)
        ensures
            match qs_decode(input.spec_bytes(), 20) {
                Ok(bytes) => r matches Ok(id) && id@ == bytes,
                Err(error) => r == Err::<PeerId, QsError>(error),
            },
    {
        PeerId::parse(input)
    }
}

impl From<[u8; 20]> for PeerId {
    fn from(input: [u8; 20]) -> (id: PeerId) {
        PeerId(input)
    }
}

impl FromSpecImpl<[u8; 20]> for PeerId {
    open spec fn obeys_from_spec() -> bool {
        true
    }

    closed spec fn from_spec(input: [u8; 20]) -> PeerId {
        PeerId(input)
    }
}

impl PeerId {
    /// The identity made of twenty bytes holds those bytes.
    pub proof fn lemma_from(input: [u8; 20])
        ensures
            <PeerId as vstd::std_specs::convert::FromSpec<[u8; 20]>>::from_spec(input)@ == input@,
    {
    }
}

impl PeerKey {
    /// The key's bytes.
    pub fn as_slice(&self) -> (bytes: &[u8])
        ensures
            bytes@ == self@,
    {
        self.0.as_slice()
    }

    /// The key that holds a copy of the bytes.
    pub fn from_slice(input: &[u8]) -> (key: PeerKey)
        ensures
            key@ == input@,
    {
        PeerKey(slice_to_vec(input))
    }

    /// A copy of the key.
    pub fn duplicate(&self) -> (key: PeerKey)
        ensures
            key@ == self@,
    {
        PeerKey(slice_to_vec(self.0.as_slice()))
    }

    /// The key as text; bytes that are not UTF-8 become U+FFFD.
    pub fn to_text(&self) -> (text: String)
        ensures
            text@ == lossy_text(self@),
    {
        read_text(self.0.as_slice())
    }
}

impl BlockRef {
    /// A block reference is twelve bytes long.
    pub proof fn lemma_len(self)
        ensures
            self@.len() == 12,
    {
    }

    /// The index of the piece.
    pub open spec fn spec_index(&self) -> int {
        be_u32(self@.subrange(0, 4))
    }

    /// The offset of the block within the piece.
    pub open spec fn spec_begin(&self) -> int {
        be_u32(self@.subrange(4, 8))
    }

    /// The length of the block.
    pub open spec fn spec_length(&self) -> int {
        be_u32(self@.subrange(8, 12))
    }

    /// The twelve bytes: index, offset, length.
    pub fn to_be_bytes(self) -> (bytes: [u8; 12])
        ensures
            bytes@ == self@,
            bytes@.len() == 12,
    {
        self.0
    }

    /// The first eight bytes: index and offset.
    pub fn to_be_bytes_without_len(self) -> (bytes: [u8; 8])
        ensures
            bytes@ == self@.subrange(0, 8),
    {
        let mut bytes: [u8; 8] = [0u8;8];
        let mut i: usize = 0;
        while i < 8
            invariant
                i <= 8,
                forall|j: int| 0 <= j < i ==> bytes@[j] == self.0@[j],
            decreases 8 - i,
        {
            bytes[i] = self.0[i];
            i += 1;
        }
        assert(bytes@ =~= self@.subrange(0, 8));
        bytes
    }

    /// The block that the twelve bytes describe.
    pub fn from_be_bytes(bytes: [u8; 12]) -> (block: BlockRef)
        ensures
            block@ == bytes@,
    {
        BlockRef(bytes)
    }

    /// The block with the given index and offset bytes and the given length.
    pub fn from_be_bytes_with_len(bytes: [u8; 8], len: u32) -> (block: BlockRef)
        ensures
            block@ == bytes@ + u32_be_bytes(len),
            block.spec_length() == len,
    {
        let mut all: [u8; 12] = [0u8;12];
        let mut i: usize = 0;
        while i < 8
            invariant
                i <= 8,
                forall|j: int| 0 <= j < i ==> all@[j] == bytes@[j],
            decreases 8 - i,
        {
            all[i] = bytes[i];
            i += 1;
        }
        all[8] = (len / 16777216) as u8;
        all[9] = (len / 65536 % 256) as u8;
        all[10] = (len / 256 % 256) as u8;
        all[11] = (len % 256) as u8;
        assert(all@ =~= bytes@ + u32_be_bytes(len));
        proof {
            assert(all@.subrange(8, 12) =~= u32_be_bytes(len));
            lemma_be_u32_round_trip(len);
        }
        BlockRef(all)
    }

    /// The block at the given index and offset, of the given length.
    pub fn new(index: u32, begin: u32, length: u32) -> (block: BlockRef)
        ensures
            block@ == u32_be_bytes(index) + u32_be_bytes(begin) + u32_be_bytes(length),
            block.spec_index() == index,
            block.spec_begin() == begin,
            block.spec_length() == length,
    {
        let mut out: Vec<u8> = Vec::new();
        push_be_u32(&mut out, index);
        push_be_u32(&mut out, begin);
        push_be_u32(&mut out, length);
        let mut all: [u8; 12] = [0u8;12];
        let mut i: usize = 0;
        while i < 12
            invariant
                i <= 12,
                out@.len() == 12,
                forall|j: int| 0 <= j < i ==> all@[j] == out@[j],
            decreases 12 - i,
        {
            all[i] = out[i];
            i += 1;
        }
        assert(all@ =~= out@);
        proof {
            assert(all@.subrange(0, 4) =~= u32_be_bytes(index));
            assert(all@.subrange(4, 8) =~= u32_be_bytes(begin));
            assert(all@.subrange(8, 12) =~= u32_be_bytes(length));
            lemma_be_u32_round_trip(index);
            lemma_be_u32_round_trip(begin);
            lemma_be_u32_round_trip(length);
        }
        BlockRef(all)
    }

    /// The index of the piece.
    pub fn index(&self) -> (index: u32)
        ensures
            index == self.spec_index(),
    {
        read_be_u32(self.0.as_slice(), 0)
    }

    /// The offset of the block within the piece.
    pub fn begin(&self) -> (begin: u32)
        ensures
            begin == self.spec_begin(),
    {
        read_be_u32(self.0.as_slice(), 4)
    }

    /// The length of the block.
    pub fn length(&self) -> (length: u32)
        ensures
            length == self.spec_length(),
    {
        read_be_u32(self.0.as_slice(), 8)
    }

    /// Whether two blocks are the same sub-range.
    pub fn same(&self, other: &BlockRef) -> (eq: bool)
        ensures
            eq == (self@ == other@),
    {
        same_bytes(self.0.as_slice(), other.0.as_slice())
    }
}

} // verus!

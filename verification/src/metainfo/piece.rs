//! The digest of one piece of a torrent.

use vstd::prelude::*;
use vstd::std_specs::convert::FromSpecImpl;
use vstd::utf8::encode_utf8;
use crate::ident::{hex_string, hex_text};

verus! {

/// The SHA-1 digest of one piece: twenty bytes.
#[derive(Clone, Copy, Debug, PartialEq, Eq)]
pub struct Piece([u8; 20]);

impl View for Piece {
    type V = Seq<u8>;

    closed spec fn view(&self) -> Seq<u8> {
        self.0@
    }
}

impl Piece {
    /// A digest is twenty bytes long.
    pub proof fn lemma_len(self)
        ensures
            self@.len() == 20,
    {
    }

    /// The bytes of the digest, one after the other.
    pub fn iter(&self) -> (bytes: core::slice::Iter<'_, u8>)
        ensures
            vstd::std_specs::iter::IteratorSpec::remaining(&bytes) == self@.as_ref(),
    {
        let slice = self.0.as_slice();
        proof {
            vstd::std_specs::slice::axiom_spec_slice_iter(slice);
        }
        slice.iter()
    }

    /// The bytes of the digest; there are always twenty.
    pub fn as_slice(&self) -> (bytes: &[u8])
        ensures
            bytes@ == self@,
            bytes@.len() == 20,
    {
        self.0.as_slice()
    }

    /// The digest as forty lower-case hexadecimal digits.
    pub fn to_hex(&self) -> (text: String)
        ensures
            encode_utf8(text@) == hex_text(self@),
    {
        hex_string(self.0.as_slice())
    }

    /// The digest held in the twenty bytes at `pos`.
    pub fn at(input: &[u8], pos: usize) -> (piece: Piece)
        requires
            pos + 20 <= input.len(),
        ensures
            piece@ == input@.subrange(pos as int, pos + 20),
    {
        let mut bytes: [u8; 20] = [0u8;20];
        let mut i: usize = 0;
        while i < 20
            invariant
                i <= 20,
                pos + 20 <= input.len(),
                forall|j: int| 0 <= j < i ==> bytes@[j] == input@[pos + j],
            decreases 20 - i,
        {
            bytes[i] = input[pos + i];
            i += 1;
        }
        assert(bytes@ =~= input@.subrange(pos as int, pos + 20));
        Piece(bytes)
    }

    /// The digest held in a byte string of exactly twenty bytes.
    pub fn from_slice(input: &[u8]) -> (r: Option<Piece>)
        ensures
            input@.len() == 20 ==> (r matches Some(piece) && piece@ == input@),
            input@.len() != 20 ==> r is None,
    {
        if input.len() != 20 {
            return None;
        }
        let piece = Piece::at(input, 0);
        assert(input@.subrange(0, 20) =~= input@);
        Some(piece)
    }
}

impl From<[u8; 20]> for Piece {
    fn from(input: [u8; 20]) -> (piece: Piece) {
        Piece(input)
    }
}

impl FromSpecImpl<[u8; 20]> for Piece {
    open spec fn obeys_from_spec() -> bool {
        true
    }

    closed spec fn from_spec(input: [u8; 20]) -> Piece {
        Piece(input)
    }
}

impl Piece {
    /// The digest made of twenty bytes holds those bytes.
    pub proof fn lemma_from(input: [u8; 20])
        ensures
            <Piece as vstd::std_specs::convert::FromSpec<[u8; 20]>>::from_spec(input)@ == input@,
    {
    }
}

} // verus!

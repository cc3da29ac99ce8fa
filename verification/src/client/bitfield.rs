//! The bitfield of a peer: which pieces it has, one bit for each piece,
//! the first piece in the highest bit of the first byte.

use vstd::prelude::*;

verus! {

/// The mask of the bit that stands for a piece within its byte.
pub open spec fn piece_mask(index: int) -> u8 {
    (0x80u8 >> ((index % 8) as u8))
}

/// Whether the bitfield says that the peer has the piece.
pub open spec fn has_piece(bitfield: Seq<u8>, index: int) -> bool {
    0 <= index && index / 8 < bitfield.len() && bitfield[index / 8] & piece_mask(index) != 0
}

/// The bitfield filled up with zero bytes to `len` bytes, where it is
/// shorter.
pub open spec fn padded(bitfield: Seq<u8>, len: int) -> Seq<u8> {
    if bitfield.len() >= len {
        bitfield
    } else {
        bitfield + Seq::new((len - bitfield.len()) as nat, |i: int| 0u8)
    }
}

/// The bitfield with the bit of a piece set.
pub open spec fn with_piece(bitfield: Seq<u8>, index: int) -> Seq<u8> {
    let long = padded(bitfield, index / 8 + 1);
    long.update(index / 8, long[index / 8] | piece_mask(index))
}

/// Setting the bit of a piece makes the bitfield say that the peer has it,
/// and changes what it says of no other piece.
pub proof fn law_with_piece(bitfield: Seq<u8>, index: int, other: int)
    requires
        0 <= index,
    ensures
        has_piece(with_piece(bitfield, index), index),
        other != index ==> has_piece(with_piece(bitfield, index), other) == has_piece(
            bitfield,
            other,
        ),
{
    let long = padded(bitfield, index / 8 + 1);
    let out = with_piece(bitfield, index);
    let k: u8 = (index % 8) as u8;
    let b: u8 = long[index / 8];
    assert((b | (0x80u8 >> k)) & (0x80u8 >> k) != 0) by (bit_vector)
        requires
            k < 8,
    ;
    if other != index && 0 <= other {
        if other / 8 < out.len() {
            if other / 8 == index / 8 {
                let j: u8 = (other % 8) as u8;
                assert(j != k);
                assert(((b | (0x80u8 >> k)) & (0x80u8 >> j) != 0) == (b & (0x80u8 >> j) != 0))
                    by (bit_vector)
                    requires
                        k < 8,
                        j < 8,
                        j != k,
                ;
                if other / 8 >= bitfield.len() {
                    assert(b == 0);
                    assert(0u8 & (0x80u8 >> j) == 0) by (bit_vector);
                }
            } else if other / 8 >= bitfield.len() {
                let j: u8 = (other % 8) as u8;
                assert(out[other / 8] == 0);
                assert(0u8 & (0x80u8 >> j) == 0) by (bit_vector);
            }
        }
    }
}

/// Whether the bitfield says that the peer has the piece.
pub fn test_piece(bitfield: &Vec<u8>, index: u32) -> (has: bool)
    ensures
        has == has_piece(bitfield@, index as int),
{
    let at: usize = (index / 8) as usize;
    if at >= bitfield.len() {
        return false;
    }
    let shift: u8 = (index % 8) as u8;
    bitfield[at] & (0x80u8 >> shift) != 0
}

/// Sets the bit of a piece, making the bitfield longer where it is too
/// short.
pub fn set_piece(bitfield: &mut Vec<u8>, index: u32)
    ensures
        final(bitfield)@ == with_piece(old(bitfield)@, index as int),
{
    let at: usize = (index / 8) as usize;
    while bitfield.len() <= at
        invariant
            at == index / 8,
            old(bitfield)@.len() <= bitfield@.len(),
            bitfield@.len() <= at + 1 || bitfield@.len() == old(bitfield)@.len(),
            bitfield@ =~= padded(old(bitfield)@, bitfield@.len() as int),
        decreases at + 1 - bitfield@.len(),
    {
        bitfield.push(0u8);
    }
    assert(bitfield@ =~= padded(old(bitfield)@, index as int / 8 + 1));
    let shift: u8 = (index % 8) as u8;
    let byte: u8 = bitfield[at] | (0x80u8 >> shift);
    bitfield.set(at, byte);
}

} // verus!

//! Peer-advertised piece availability bitmap.

use vstd::prelude::*;

verus! {

/// Bit `i` of the bitfield: byte `i/8`, mask `1 << (i%8)`.
pub open spec fn spec_has_piece(b: Seq<u8>, i: nat) -> bool {
    &&& i / 8 < b.len()
    &&& b[(i / 8) as int] & (1u8 << ((i % 8) as u8)) != 0
}

/// Number of bytes a bitfield for `pieces_len` pieces must have: `ceil(pieces_len / 8)`.
pub open spec fn spec_bitfield_len(pieces_len: nat) -> nat {
    pieces_len / 8 + if pieces_len % 8 > 0 {
        1nat
    } else {
        0nat
    }
}

/// The peer has piece `i` iff bit `i` of its bitfield is set
/// (byte `i/8`, mask `1 << (i%8)`, low bits first within a byte).
pub fn bitfield_has_piece(b: &Vec<u8>, i: usize) -> (r: bool)
    requires
        i / 8 < b@.len(),
    ensures
        r == spec_has_piece(b@, i as nat),
{
    let shift: u8 = (i % 8) as u8;
    assert(shift < 8) by {
        assert(i % 8 < 8);
    }
    (b[i / 8] & (1u8 << shift)) != 0
}

/// Expected byte length of the bitfield for a torrent of `pieces_len` pieces.
pub fn bitfield_expected_length(pieces_len: usize) -> (r: usize)
    ensures
        r == spec_bitfield_len(pieces_len as nat),
{
    pieces_len / 8 + if pieces_len % 8 > 0 {
        1
    } else {
        0
    }
}

} // verus!

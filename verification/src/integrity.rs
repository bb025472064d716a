//! SHA-1 integrity check of an assembled piece against the digest that the
//! metainfo promises for it.

use vstd::prelude::*;
use sha1::Digest;
use sha1::Sha1;

verus! {

/// The SHA-1 digest of a byte sequence: a function of the bytes alone.
pub uninterp spec fn sha1_of(bytes: Seq<u8>) -> Seq<u8>;

/// Relies on the sha1 crate's `Sha1::digest` (the digest crate's
/// `Digest::digest`, which feeds the whole input to one hasher and finalizes
/// it): the 20-byte SHA-1 hash of the input, a function of the bytes alone.
#[verifier::external_body]
fn sha1_digest(piece: &Vec<u8>) -> (r: Vec<u8>)
    ensures
        r@ == sha1_of(piece@),
        r@.len() == 20,
{
    Sha1::digest(piece.as_slice()).to_vec()
}

/// True iff the SHA-1 digest of `piece` equals `expected_hash` byte for byte.
pub fn check_piece(piece: &Vec<u8>, expected_hash: &Vec<u8>) -> (r: bool)
    requires
        expected_hash@.len() == 20,
    ensures
        r == (sha1_of(piece@) == expected_hash@),
{
    let digest = sha1_digest(piece);
    let mut i: usize = 0;
    while i < 20
        invariant
            0 <= i <= 20,
            digest@ == sha1_of(piece@),
            digest@.len() == 20,
            expected_hash@.len() == 20,
            forall|j: int| 0 <= j < i ==> digest@[j] == expected_hash@[j],
        decreases 20 - i,
    {
        if digest[i] != expected_hash[i] {
            assert(digest@[i as int] != expected_hash@[i as int]);
            return false;
        }
        i += 1;
    }
    proof {
        assert(digest@ =~= expected_hash@);
    }
    true
}

} // verus!

//! The cryptographic digest primitive that tagged hash values carry.
//!
//! The digest itself is computed by an outside collaborator; this module
//! names its result so that the codec's contracts can speak about it.

use vstd::prelude::*;

verus! {

/// The BLAKE3 digest of `input`: a function of the input bytes alone.
pub uninterp spec fn blake3_digest(input: Seq<u8>) -> Seq<u8>;

/// Relies on blake3::hash: a 32-byte digest determined by the input bytes
/// alone (the same input always yields the same digest).
#[verifier::external_body]
pub fn blake3_hash_bytes(input: &[u8]) -> (r: Vec<u8>)
    ensures
        r@ == blake3_digest(input@),
        r@.len() == 32,
{
    blake3::hash(input).as_bytes().to_vec()
}

} // verus!

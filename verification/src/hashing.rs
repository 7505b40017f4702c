//! Hashes of byte strings, from the standard library's default hasher.

use std::hash::{Hash, Hasher};
use vstd::prelude::*;

verus! {

/// The hash that the standard library's default hasher, created fresh,
/// gives a byte vector.  The hasher is not seeded per process, so equal
/// bytes hash equally within one build.
pub uninterp spec fn byte_hash(bytes: Seq<u8>) -> u64;

/// `DefaultHasher::new`, then `Hash::hash` of the vector, then `Hasher::finish`.
#[verifier::external_body]
pub(crate) fn hash_bytes(bytes: &Vec<u8>) -> (h: u64)
    ensures
        h == byte_hash(bytes@),
{
    let mut hasher = std::hash::DefaultHasher::new();
    bytes.hash(&mut hasher);
    hasher.finish()
}

} // verus!

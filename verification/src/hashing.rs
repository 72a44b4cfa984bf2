//! The 32-bit xxHash (seed 0) that names collections, objects and terms.
use vstd::prelude::*;

verus! {

/// The 32-bit xxHash of `data` with seed 0, as `twox_hash::XxHash32`
/// computes it.
pub uninterp spec fn xxhash32(data: Seq<u8>) -> u32;

/// Hashes `data` with `twox_hash::XxHash32` (seed 0): `with_seed(0)`, one
/// `write`, then `finish`, whose upper 32 bits the crate leaves at zero.
/// Trusted: the result is the hash of the bytes, a function of them alone;
/// nothing else is claimed of its value.
#[verifier::external_body]
pub(crate) fn xxhash32_of(data: &[u8]) -> (r: u32)
    ensures
        r == xxhash32(data@),
{
    let mut hasher = twox_hash::XxHash32::with_seed(0);
    std::hash::Hasher::write(&mut hasher, data);
    std::hash::Hasher::finish(&hasher) as u32
}

} // verus!

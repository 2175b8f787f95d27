//! Fingerprints of byte strings.
use vstd::prelude::*;

verus! {

/// The 64-bit fingerprint that the `farmhash` crate computes.
pub uninterp spec fn farm_fingerprint(data: Seq<u8>) -> u64;

/// `farmhash::fingerprint64` is a function of the bytes alone, the same in every
/// version and on every platform; `farm_fingerprint` names it.
#[verifier::external_body]
pub(crate) fn fingerprint64(data: &[u8]) -> (res: u64)
    ensures
        res == farm_fingerprint(data@),
{
    farmhash::fingerprint64(data)
}

/// The fingerprint of a key, by which its bloom filters are asked.
pub fn key_hash(key: &[u8]) -> (res: u64)
    ensures
        res == farm_fingerprint(key@),
{
    fingerprint64(key)
}

} // verus!

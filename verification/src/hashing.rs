//! 64-bit XXH3 hashing of byte strings.

use vstd::prelude::*;
use vstd::string::StringSliceAdditionalSpecFns;

verus! {

/// The XXH3 64-bit hash of a byte string under a seed, as computed by
/// `xxhash_rust::xxh3::xxh3_64_with_seed`.
pub uninterp spec fn spec_xxh3_64_with_seed(data: Seq<u8>, seed: u64) -> u64;

/// The XXH3 64-bit hash of a byte string, as computed by `xxhash_rust::xxh3::xxh3_64`.
pub uninterp spec fn spec_xxh3_64(data: Seq<u8>) -> u64;

/// Calls `xxhash_rust::xxh3::xxh3_64_with_seed`: a deterministic function of the bytes
/// and the seed, named `spec_xxh3_64_with_seed`. Nothing else is claimed of the value.
#[verifier::external_body]
pub fn xxh3_64_with_seed(data: &[u8], seed: u64) -> (r: u64)
    ensures
        r == spec_xxh3_64_with_seed(data@, seed),
{
    xxhash_rust::xxh3::xxh3_64_with_seed(data, seed)
}

/// Calls `xxhash_rust::xxh3::xxh3_64`: a deterministic function of the bytes, named
/// `spec_xxh3_64`. Nothing else is claimed of the value.
#[verifier::external_body]
pub fn xxh3_64(data: &[u8]) -> (r: u64)
    ensures
        r == spec_xxh3_64(data@),
{
    xxhash_rust::xxh3::xxh3_64(data)
}

/// Hash of a string's UTF-8 bytes (how entity identifiers are pre-hashed).
pub fn hash_str(s: &str) -> (r: u64)
    ensures
        r == spec_xxh3_64(s.spec_bytes()),
{
    xxh3_64(s.as_bytes())
}

} // verus!

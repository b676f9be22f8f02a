//! Routing of ingested events to the detection shards.
//!
//! The HTTP front end, the shard threads and the persistence writer run outside this
//! crate; they route each event with `route_event`.

use vstd::prelude::*;
use vstd::string::StringSliceAdditionalSpecFns;

use crate::hashing::{hash_str, spec_xxh3_64};

verus! {

/// The shard an entity hash goes to among `shard_count` shards.
pub open spec fn shard_of(hash: u64, shard_count: usize) -> usize {
    ((hash as usize) % shard_count) as usize
}

/// The entity hash of a user identifier (XXH3 of its UTF-8 bytes) and the shard it goes
/// to: the hash, taken as a `usize`, modulo the number of shards.
pub fn route_event(user_id: &str, shard_count: usize) -> (r: (u64, usize))
    requires
        shard_count > 0,
    ensures
        r.0 == spec_xxh3_64(user_id.spec_bytes()),
        r.1 == shard_of(r.0, shard_count),
        r.1 < shard_count,
{
    let hash = hash_str(user_id);
    (hash, (hash as usize) % shard_count)
}

} // verus!

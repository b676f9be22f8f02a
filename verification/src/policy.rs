//! Runtime policy helpers: rule actions, expiry, targeting and bounded history.
//!
//! Policies are compiled by Tier-2 and pushed to Tier-1 as snapshots; Tier-1 keeps a
//! short history of previous snapshots for rollback.

use vstd::prelude::*;

use crate::clock::unix_time_secs;

verus! {

/// How many previous snapshots the runtime keeps for rollback.
pub const DEFAULT_HISTORY_LIMIT: usize = 16;

/// What a matching rule does to a decision.
#[derive(Debug, Clone, PartialEq, Eq, Structural, Default)]
pub enum PolicyAction {
    #[default]
    Suppress,
    Boost,
}

/// Seconds since the Unix epoch on the system clock (0 if the clock reads earlier).
pub fn now_unix() -> u64 {
    unix_time_secs()
}

/// When a rule expires: `created_at_unix + ttl_sec` (saturating) when both are set,
/// never otherwise.
pub open spec fn expiry_of(created_at_unix: u64, ttl_sec: u64) -> Option<u64> {
    if ttl_sec > 0 && created_at_unix > 0 {
        Some(
            if created_at_unix + ttl_sec > u64::MAX {
                u64::MAX
            } else {
                (created_at_unix + ttl_sec) as u64
            },
        )
    } else {
        None
    }
}

/// Expiry time of a rule with the given TTL in a snapshot created at `created_at_unix`.
pub fn rule_expires_at(created_at_unix: u64, ttl_sec: u64) -> (r: Option<u64>)
    ensures
        r == expiry_of(created_at_unix, ttl_sec),
{
    if ttl_sec > 0 && created_at_unix > 0 {
        Some(created_at_unix.saturating_add(ttl_sec))
    } else {
        None
    }
}

/// Whether a rule with the given expiry still applies at `now`: until and including
/// its expiry second.
pub fn rule_is_live(expires_at: Option<u64>, now: u64) -> (r: bool)
    ensures
        r == match expires_at {
            Some(e) => now <= e,
            None => true,
        },
{
    match expires_at {
        Some(e) => now <= e,
        None => true,
    }
}

/// Whether a rule aimed at `entity_hashes` (all entities when empty) and at
/// `primary_detector` (all detectors when `None`) covers an event.
pub fn rule_targets(
    entity_hashes: &Vec<u64>,
    primary_detector: Option<u8>,
    entity_hash: u64,
    detector: u8,
) -> (r: bool)
    ensures
        r == ((entity_hashes@.len() == 0 || entity_hashes@.contains(entity_hash)) && match primary_detector {
            Some(d) => d == detector,
            None => true,
        }),
{
    let mut entity_match = entity_hashes.len() == 0;
    let mut i: usize = 0;
    while i < entity_hashes.len()
        invariant
            i <= entity_hashes@.len(),
            entity_match == (entity_hashes@.len() == 0 || exists|j: int|
                0 <= j < i && entity_hashes@[j] == entity_hash),
        decreases entity_hashes@.len() - i,
    {
        if entity_hashes[i] == entity_hash {
            entity_match = true;
        }
        i += 1;
    }
    let detector_match = match primary_detector {
        Some(d) => d == detector,
        None => true,
    };
    entity_match && detector_match
}

/// Drops the oldest entries of `history` until at most `limit` remain.
pub fn trim_history<T>(history: &mut Vec<T>, limit: usize)
    ensures
        final(history)@ == if old(history)@.len() > limit {
            old(history)@.skip(old(history)@.len() - limit)
        } else {
            old(history)@
        },
{
    let ghost h0 = history@;
    let mut dropped: usize = 0;
    let n = history.len();
    let excess = if n > limit {
        n - limit
    } else {
        0
    };
    while dropped < excess
        invariant
            n == h0.len(),
            excess == if n > limit {
                n - limit
            } else {
                0
            },
            dropped <= excess,
            history@ == h0.skip(dropped as int),
        decreases excess - dropped,
    {
        history.remove(0);
        proof {
            assert(h0.skip(dropped as int).remove(0) =~= h0.skip(dropped + 1));
        }
        dropped += 1;
    }
    proof {
        if n <= limit {
            assert(h0.skip(0) =~= h0);
        }
    }
}

/// Appends `item` to `history` and trims it to the most recent `limit` entries.
pub fn push_bounded<T>(history: &mut Vec<T>, item: T, limit: usize)
    ensures
        final(history)@ == if old(history)@.len() + 1 > limit {
            old(history)@.push(item).skip(old(history)@.len() + 1 - limit)
        } else {
            old(history)@.push(item)
        },
{
    history.push(item);
    trim_history(history, limit);
}

/// Index of the most recent entry of `versions` equal to `version`.
pub fn latest_index_of(versions: &Vec<String>, version: &str) -> (r: Option<usize>)
    ensures
        match r {
            Some(i) => i < versions@.len() && versions@[i as int]@ == version@ && forall|j: int|
                i < j < versions@.len() ==> versions@[j]@ != version@,
            None => forall|j: int| 0 <= j < versions@.len() ==> versions@[j]@ != version@,
        },
{
    let wanted = version.to_owned();
    let mut i = versions.len();
    while i > 0
        invariant
            i <= versions@.len(),
            wanted@ == version@,
            forall|j: int| i <= j < versions@.len() ==> versions@[j]@ != version@,
        decreases i,
    {
        i -= 1;
        if versions[i] == wanted {
            return Some(i);
        }
    }
    None
}

} // verus!

//! Tier-2 contract helpers: decision status names and timestamp normalisation.

use vstd::prelude::*;

verus! {

/// Schema version of the Tier-1 signal payload.
pub const TIER1_SCHEMA_VERSION: u16 = 1;

/// Incident decision reported to Tier-2.
#[derive(Debug, Clone, Copy, PartialEq, Eq, Structural)]
pub enum IncidentDecisionStatus {
    New,
    Merged,
    Escalated,
}

/// Wire name of a decision status.
pub open spec fn status_name(s: IncidentDecisionStatus) -> Seq<char> {
    match s {
        IncidentDecisionStatus::New => "new"@,
        IncidentDecisionStatus::Merged => "merged"@,
        IncidentDecisionStatus::Escalated => "escalated"@,
    }
}

impl IncidentDecisionStatus {
    /// Wire name of the status (snake case).
    pub fn as_str(self) -> (r: &'static str)
        ensures
            r@ == status_name(self),
    {
        match self {
            IncidentDecisionStatus::New => "new",
            IncidentDecisionStatus::Merged => "merged",
            IncidentDecisionStatus::Escalated => "escalated",
        }
    }
}

/// Seconds since the epoch for a timestamp given in nanoseconds, milliseconds or seconds:
/// values above 10^15 are nanoseconds; values in (10^10, 10^12] are also divided by
/// 10^9; values in (10^12, 10^15] are milliseconds; the rest are already seconds.
pub open spec fn unix_seconds_of(timestamp: u64) -> u64 {
    if timestamp > 1_000_000_000_000_000 || (timestamp > 10_000_000_000 && timestamp
        <= 1_000_000_000_000) {
        timestamp / 1_000_000_000
    } else if timestamp > 1_000_000_000_000 {
        timestamp / 1_000
    } else {
        timestamp
    }
}

/// Normalises a timestamp to Unix seconds (see `unix_seconds_of`).
pub fn normalize_to_unix_seconds(timestamp: u64) -> (r: u64)
    ensures
        r == unix_seconds_of(timestamp),
        r <= timestamp,
{
    if timestamp > 1_000_000_000_000_000 || (timestamp > 10_000_000_000 && timestamp
        <= 1_000_000_000_000) {
        timestamp / 1_000_000_000
    } else if timestamp > 1_000_000_000_000 {
        timestamp / 1_000
    } else {
        timestamp
    }
}

} // verus!

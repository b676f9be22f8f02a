//! Checkpoint bookkeeping for Tier-2-managed persistence.
//!
//! Tier-2 owns the storage; Tier-1 numbers its checkpoints, remembers the last one
//! Tier-2 confirmed, and refuses checkpoint formats newer than it understands.

use vstd::prelude::*;

use crate::clock::unix_time_nanos;
use crate::decimal::{decimal, push_decimal};
use crate::hashing::{hash_str, spec_xxh3_64};
use vstd::string::StringExecFns;
use vstd::utf8::encode_utf8;

verus! {

/// Version of the checkpoint format.
pub const CHECKPOINT_VERSION: u32 = 1;

/// Serialized state for a single detector.
#[derive(Debug, Clone)]
pub struct DetectorCheckpoint {
    /// Detector type identifier.
    pub detector_id: u8,
    /// Detector-specific state as opaque bytes.
    pub state: Vec<u8>,
}

/// Checkpoint of feedback statistics.
#[derive(Debug, Clone, Default)]
pub struct FeedbackCheckpoint {
    pub total_received: u64,
    pub total_processed: u64,
    pub true_positives: u64,
    pub false_positives: u64,
    pub false_negatives: u64,
}

/// Checkpointed policy metadata for a policy-aware restart.
#[derive(Debug, Clone, Default)]
pub struct PolicyCheckpoint {
    pub active_policy_version: String,
    pub policy_checksum: u64,
}

impl PolicyCheckpoint {
    /// Policy metadata for the active policy `version`, checksummed by the XXH3 hash of
    /// the version's UTF-8 bytes.
    pub fn for_version(version: String) -> (r: Self)
        ensures
            r.active_policy_version == version,
            r.policy_checksum == spec_xxh3_64(encode_utf8(version@)),
    {
        let policy_checksum = hash_str(version.as_str());
        PolicyCheckpoint { active_policy_version: version, policy_checksum }
    }
}

/// Errors of checkpoint operations.
#[derive(Debug, Clone)]
pub enum CheckpointError {
    SerializationFailed(String),
    DeserializationFailed(String),
    UnsupportedVersion { found: u32, max_supported: u32 },
    ProfileNotFound(u64),
    InvalidState(String),
}

/// The message of a checkpoint error.
pub open spec fn error_message(e: CheckpointError) -> Seq<char> {
    match e {
        CheckpointError::SerializationFailed(m) => "Serialization failed: "@ + m@,
        CheckpointError::DeserializationFailed(m) => "Deserialization failed: "@ + m@,
        CheckpointError::UnsupportedVersion { found, max_supported } => "Unsupported checkpoint version: "@
            + decimal(found as nat) + " (max supported: "@ + decimal(max_supported as nat) + ")"@,
        CheckpointError::ProfileNotFound(h) => "Profile not found: "@ + decimal(h as nat),
        CheckpointError::InvalidState(m) => "Invalid state: "@ + m@,
    }
}

impl CheckpointError {
    /// The error's message for people.
    pub fn message(&self) -> (r: String)
        ensures
            r@ == error_message(*self),
    {
        let mut r = String::new();
        match self {
            CheckpointError::SerializationFailed(m) => {
                r.append("Serialization failed: ");
                r.append(m.as_str());
            },
            CheckpointError::DeserializationFailed(m) => {
                r.append("Deserialization failed: ");
                r.append(m.as_str());
            },
            CheckpointError::UnsupportedVersion { found, max_supported } => {
                r.append("Unsupported checkpoint version: ");
                push_decimal(&mut r, *found as u64);
                r.append(" (max supported: ");
                push_decimal(&mut r, *max_supported as u64);
                r.append(")");
            },
            CheckpointError::ProfileNotFound(h) => {
                r.append("Profile not found: ");
                push_decimal(&mut r, *h);
            },
            CheckpointError::InvalidState(m) => {
                r.append("Invalid state: ");
                r.append(m.as_str());
            },
        }
        r
    }
}

/// Request to store a checkpoint (sent to Tier-2).
#[derive(Debug, Clone)]
pub struct CheckpointRequest {
    /// Unique checkpoint ID.
    pub checkpoint_id: u64,
    /// Timestamp of the request.
    pub timestamp: u64,
    /// Serialized checkpoint data.
    pub data: Vec<u8>,
    /// Number of profiles.
    pub profile_count: usize,
    /// Uncompressed size.
    pub uncompressed_size: usize,
}

/// Response from Tier-2 after storing a checkpoint.
#[derive(Debug, Clone)]
pub struct CheckpointResponse {
    /// Checkpoint ID that was stored.
    pub checkpoint_id: u64,
    /// Whether storage succeeded.
    pub success: bool,
    /// Error message if it failed.
    pub error: Option<String>,
    /// Storage location (opaque to Tier-1).
    pub storage_key: Option<String>,
}

/// Request to recover from a checkpoint (sent from Tier-2).
#[derive(Debug, Clone)]
pub struct RecoveryRequest {
    /// Checkpoint ID to recover.
    pub checkpoint_id: u64,
    /// Serialized checkpoint data.
    pub data: Vec<u8>,
}

/// Types whose state can be written to and restored from checkpoint bytes.
pub trait Checkpointable {
    /// Checkpoint data of the value.
    fn to_checkpoint(&self) -> Vec<u8>;

    /// Restores a value from checkpoint data.
    fn from_checkpoint(data: &[u8]) -> Result<Self, CheckpointError> where Self: Sized;
}

/// Accepts a checkpoint of format `version` when it is not newer than
/// `CHECKPOINT_VERSION`, and refuses it with `UnsupportedVersion` otherwise.
pub fn check_checkpoint_version(version: u32) -> (r: Result<(), CheckpointError>)
    ensures
        version <= CHECKPOINT_VERSION ==> r is Ok,
        version > CHECKPOINT_VERSION ==> (r matches Err(
            CheckpointError::UnsupportedVersion { found, max_supported },
        ) && found == version && max_supported == CHECKPOINT_VERSION),
{
    if version > CHECKPOINT_VERSION {
        Err(CheckpointError::UnsupportedVersion { found: version, max_supported: CHECKPOINT_VERSION })
    } else {
        Ok(())
    }
}

/// Manager for checkpoint numbering and confirmation.
pub struct CheckpointManager {
    /// Next checkpoint ID to hand out.
    next_id: u64,
    /// Last checkpoint Tier-2 confirmed.
    last_checkpoint_id: Option<u64>,
    /// Clock reading (nanoseconds since the epoch) of that confirmation.
    last_checkpoint_time: Option<u64>,
}

impl CheckpointManager {
    /// The next checkpoint ID to be handed out.
    pub closed spec fn spec_next_id(&self) -> u64 {
        self.next_id
    }

    /// The last confirmed checkpoint and its confirmation time, if any.
    pub closed spec fn spec_last(&self) -> Option<(u64, u64)> {
        match (self.last_checkpoint_id, self.last_checkpoint_time) {
            (Some(id), Some(time)) => Some((id, time)),
            _ => None,
        }
    }

    /// A manager whose first checkpoint will be number 1, with nothing confirmed.
    pub fn new() -> (r: Self)
        ensures
            r.spec_next_id() == 1,
            r.spec_last() is None,
    {
        CheckpointManager { next_id: 1, last_checkpoint_id: None, last_checkpoint_time: None }
    }

    /// The next checkpoint ID to be handed out.
    pub fn next_id(&self) -> (r: u64)
        ensures
            r == self.spec_next_id(),
    {
        self.next_id
    }

    /// Hands out the next checkpoint ID: IDs are consecutive from 1.
    pub fn next_checkpoint_id(&mut self) -> (r: u64)
        requires
            old(self).spec_next_id() < u64::MAX,
        ensures
            r == old(self).spec_next_id(),
            final(self).spec_next_id() == old(self).spec_next_id() + 1,
            final(self).spec_last() == old(self).spec_last(),
    {
        let id = self.next_id;
        self.next_id = self.next_id + 1;
        id
    }

    /// Numbers a serialized checkpoint with the next ID and wraps it in a storage
    /// request; its uncompressed size is the length of `data`.
    pub fn issue_request(&mut self, timestamp: u64, data: Vec<u8>, profile_count: usize) -> (r:
        CheckpointRequest)
        requires
            old(self).spec_next_id() < u64::MAX,
        ensures
            r.checkpoint_id == old(self).spec_next_id(),
            r.timestamp == timestamp,
            r.data == data,
            r.profile_count == profile_count,
            r.uncompressed_size == data@.len(),
            final(self).spec_next_id() == old(self).spec_next_id() + 1,
            final(self).spec_last() == old(self).spec_last(),
    {
        let uncompressed_size = data.len();
        let checkpoint_id = self.next_checkpoint_id();
        CheckpointRequest { checkpoint_id, timestamp, data, profile_count, uncompressed_size }
    }

    /// Records that Tier-2 stored checkpoint `checkpoint_id`, stamped with the clock
    /// reading (see `record_success_at`).
    pub fn record_success(&mut self, checkpoint_id: u64)
        ensures
            final(self).spec_last() matches Some((id, _)) && id == checkpoint_id,
            final(self).spec_next_id() == old(self).spec_next_id(),
    {
        let now_ns = unix_time_nanos();
        self.record_success_at(checkpoint_id, now_ns);
    }

    /// Records that Tier-2 stored checkpoint `checkpoint_id`, confirmed at clock reading
    /// `now_ns`; it replaces any earlier confirmation.
    pub fn record_success_at(&mut self, checkpoint_id: u64, now_ns: u64)
        ensures
            final(self).spec_last() == Some((checkpoint_id, now_ns)),
            final(self).spec_next_id() == old(self).spec_next_id(),
    {
        self.last_checkpoint_id = Some(checkpoint_id);
        self.last_checkpoint_time = Some(now_ns);
    }

    /// The last confirmed checkpoint and the clock reading of its confirmation.
    pub fn last_checkpoint(&self) -> (r: Option<(u64, u64)>)
        ensures
            r == self.spec_last(),
    {
        match (self.last_checkpoint_id, self.last_checkpoint_time) {
            (Some(id), Some(time)) => Some((id, time)),
            _ => None,
        }
    }
}

impl Default for CheckpointManager {
    fn default() -> (r: Self)
        ensures
            r.spec_next_id() == 1,
            r.spec_last() is None,
    {
        Self::new()
    }
}

} // verus!

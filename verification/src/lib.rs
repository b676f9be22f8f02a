//! Tier-1 anomaly detection core and its tooling, verified.
//!
//! - Detection state: the memory-bounded profile `registry`, the per-entity behavioural
//!   profiles of `fingerprint` and their least-recently-used store, the `cms` and `hll`
//!   sketches, the `multi_scale` windowing rules and the detector identities of `signal`.
//! - Tier-2 integration: `checkpoint` numbering and encoding checks, `feedback` counters
//!   and learning updates, `forwarder` retry and de-duplication decisions, the
//!   `policy` and `policy_index` rule machinery, `tier2` contract helpers and
//!   `gatekeeper` routing.
//! - Simulation: `sim` metadata and ground truth, the `engine_core` scheduler and clock,
//!   and `determinism` for reproducible seeding.
//! - Benchmarks: configurations, confusion counts and latency ranks in `bench`.
//! - Text and hashing: `base64`, `decimal`, `duration` and `hashing`; `clock` reads the
//!   system time.

pub mod base64;
pub mod bench;
pub mod checkpoint;
pub mod clock;
pub mod cms;
pub mod decimal;
pub mod determinism;
pub mod duration;
pub mod engine_core;
pub mod feedback;
pub mod fingerprint;
pub mod forwarder;
pub mod gatekeeper;
pub mod hashing;
pub mod hll;
pub mod multi_scale;
pub mod policy;
pub mod policy_index;
pub mod registry;
pub mod signal;
pub mod sim;
pub mod tier2;

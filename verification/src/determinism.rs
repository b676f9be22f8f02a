//! Deterministic seeding of the simulator's random sources.
//!
//! When determinism is on, every random source is seeded from the XXH3 hash of a key
//! `"{seed}:{tag}:{n1}:{n2}:{n3}"` (numbers in decimal); per-tick sources use the tick's
//! time and length, per-scenario sources a running counter of initialisations. When it
//! is off, sources are seeded from the operating system, outside this crate.

use vstd::prelude::*;
use vstd::string::StringExecFns;
use vstd::utf8::encode_utf8;

use crate::decimal::{decimal, push_decimal};
use crate::hashing::{hash_str, spec_xxh3_64};

verus! {

/// The key whose hash seeds a random source: `"{base}:{tag}:{n1}:{n2}:{n3}"`.
pub open spec fn seed_key(base: u64, tag: Seq<char>, n1: u64, n2: u64, n3: u64) -> Seq<char> {
    decimal(base as nat) + seq![':'] + tag + seq![':'] + decimal(n1 as nat) + seq![':'] + decimal(
        n2 as nat,
    ) + seq![':'] + decimal(n3 as nat)
}

/// The seed of a random source for `tag` and the numbers `n1`, `n2`, `n3` under the
/// base seed `base`.
pub open spec fn seed_for(base: u64, tag: Seq<char>, n1: u64, n2: u64, n3: u64) -> u64 {
    spec_xxh3_64(encode_utf8(seed_key(base, tag, n1, n2, n3)))
}

/// The key `"{base}:{tag}:{n1}:{n2}:{n3}"`.
pub fn compose_seed_key(base: u64, tag: &str, n1: u64, n2: u64, n3: u64) -> (r: String)
    ensures
        r@ == seed_key(base, tag@, n1, n2, n3),
{
    let mut key = String::new();
    push_decimal(&mut key, base);
    key.append(":");
    key.append(tag);
    key.append(":");
    push_decimal(&mut key, n1);
    key.append(":");
    push_decimal(&mut key, n2);
    key.append(":");
    push_decimal(&mut key, n3);
    proof {
        reveal_strlit(":");
    }
    key
}

/// The seed for `tag` and three numbers under the base seed `base`: the XXH3 hash of
/// the key's UTF-8 bytes.
pub fn compose_seed(base: u64, tag: &str, n1: u64, n2: u64, n3: u64) -> (r: u64)
    ensures
        r == seed_for(base, tag@, n1, n2, n3),
{
    let key = compose_seed_key(base, tag, n1, n2, n3);
    hash_str(key.as_str())
}

/// Process-wide seeding state: whether determinism is on, its base seed, and how many
/// scenario sources have been initialised since it was last configured.
#[derive(Debug, Clone, Copy, PartialEq, Eq)]
pub struct DeterminismState {
    pub enabled: bool,
    pub seed: u64,
    pub init_counter: u64,
}

impl Default for DeterminismState {
    fn default() -> (r: Self)
        ensures
            r == (DeterminismState { enabled: false, seed: 0, init_counter: 0 }),
    {
        DeterminismState { enabled: false, seed: 0, init_counter: 0 }
    }
}

/// Turns determinism on or off with a base seed, and restarts the initialisation count.
pub fn configure_determinism(state: &mut DeterminismState, enabled: bool, seed: u64)
    ensures
        *final(state) == (DeterminismState { enabled, seed, init_counter: 0 }),
{
    state.enabled = enabled;
    state.seed = seed;
    state.init_counter = 0;
}

/// Turns determinism off and clears the seed and the initialisation count.
pub fn reset_determinism(state: &mut DeterminismState)
    ensures
        *final(state) == (DeterminismState { enabled: false, seed: 0, init_counter: 0 }),
{
    state.enabled = false;
    state.seed = 0;
    state.init_counter = 0;
}

impl DeterminismState {
    /// The seed of the random source for one tick of scenario `tag`; `None` when
    /// determinism is off and the source is seeded from the operating system.
    pub fn tick_seed(&self, tag: &str, current_time_ns: u64, delta_ns: u64) -> (r: Option<u64>)
        ensures
            self.enabled ==> r == Some(seed_for(self.seed, tag@, current_time_ns, delta_ns, 0)),
            !self.enabled ==> r is None,
    {
        if self.enabled {
            Some(compose_seed(self.seed, tag, current_time_ns, delta_ns, 0))
        } else {
            None
        }
    }

    /// The seed of the random source for the next initialisation of scenario `tag`,
    /// numbered by the running count, which advances (wrapping at `u64::MAX`);
    /// `None` and no change when determinism is off.
    pub fn next_init_seed(&mut self, tag: &str) -> (r: Option<u64>)
        ensures
            old(self).enabled ==> r == Some(
                seed_for(old(self).seed, tag@, old(self).init_counter, 0, 0),
            ) && *final(self) == (DeterminismState {
                init_counter: old(self).init_counter.wrapping_add(1),
                ..*old(self)
            }),
            !old(self).enabled ==> r is None && *final(self) == *old(self),
    {
        if self.enabled {
            let idx = self.init_counter;
            self.init_counter = self.init_counter.wrapping_add(1);
            Some(compose_seed(self.seed, tag, idx, 0, 0))
        } else {
            None
        }
    }
}

} // verus!

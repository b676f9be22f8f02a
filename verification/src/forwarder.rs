//! Tier-2 forwarding decisions: configuration, counters, retry backoff and
//! de-duplication windows.
//!
//! The gRPC transport itself runs outside this crate: it lets a signal into the batch
//! only when `DedupeWindow::accept` takes its event ID, asks `flush_step` what to do
//! after each delivery attempt, and records the outcome in `ForwarderStats`.

use vstd::prelude::*;

use crate::tier2::TIER1_SCHEMA_VERSION;
use vstd::arithmetic::power2::pow2;
use vstd::bits::{lemma_u64_pow2_no_overflow, lemma_u64_shl_is_mul};

verus! {

/// Default Tier-2 gRPC endpoint.
pub const DEFAULT_TIER2_GRPC_URL: &'static str = "http://localhost:3002";

/// Schema version of forwarded signals.
pub const SIGNAL_SCHEMA_VERSION: u16 = TIER1_SCHEMA_VERSION;

/// How long a forwarded event ID suppresses duplicates, in seconds.
pub const DEDUPE_WINDOW_SEC: u64 = 900;

/// Forwarder configuration.
#[derive(Debug, Clone)]
pub struct ForwarderConfig {
    pub tier2_url: String,
    pub batch_size: usize,
    pub flush_interval_ms: u64,
    pub max_retries: u32,
    pub retry_base_delay_ms: u64,
    pub channel_capacity: usize,
    pub timeout_ms: u64,
}

impl Default for ForwarderConfig {
    fn default() -> (r: Self)
        ensures
            r.tier2_url@ == "http://localhost:3002"@,
            r.batch_size == 100,
            r.flush_interval_ms == 1000,
            r.max_retries == 3,
            r.retry_base_delay_ms == 100,
            r.channel_capacity == 10_000,
            r.timeout_ms == 5000,
    {
        ForwarderConfig {
            tier2_url: "http://localhost:3002".to_string(),
            batch_size: 100,
            flush_interval_ms: 1000,
            max_retries: 3,
            retry_base_delay_ms: 100,
            channel_capacity: 10_000,
            timeout_ms: 5000,
        }
    }
}

/// Forwarding counters; each wraps around at `u64::MAX`.
#[derive(Debug, Default)]
pub struct ForwarderStats {
    pub sent: u64,
    pub failed: u64,
    pub retried: u64,
    pub dropped: u64,
    pub batches: u64,
}

impl ForwarderStats {
    /// A batch of `count` signals was delivered.
    pub fn record_delivered(&mut self, count: u64)
        ensures
            *final(self) == (ForwarderStats {
                sent: old(self).sent.wrapping_add(count),
                batches: old(self).batches.wrapping_add(1),
                ..*old(self)
            }),
    {
        self.sent = self.sent.wrapping_add(count);
        self.batches = self.batches.wrapping_add(1);
    }

    /// A delivery attempt failed and will be retried.
    pub fn record_retry(&mut self)
        ensures
            *final(self) == (ForwarderStats { retried: old(self).retried.wrapping_add(1), ..*old(self) }),
    {
        self.retried = self.retried.wrapping_add(1);
    }

    /// A batch of `count` signals was given up after the last retry.
    pub fn record_failed(&mut self, count: u64)
        ensures
            *final(self) == (ForwarderStats { failed: old(self).failed.wrapping_add(count), ..*old(self) }),
    {
        self.failed = self.failed.wrapping_add(count);
    }

    /// A signal was dropped (queue full, closed, or a duplicate).
    pub fn record_dropped(&mut self)
        ensures
            *final(self) == (ForwarderStats { dropped: old(self).dropped.wrapping_add(1), ..*old(self) }),
    {
        self.dropped = self.dropped.wrapping_add(1);
    }
}

/// Backoff before retry number `attempt + 1`: the base delay doubled `attempt` times.
pub fn retry_delay_ms(base_delay_ms: u64, attempt: u32) -> (r: u64)
    requires
        attempt < 64,
        base_delay_ms * pow2(attempt as nat) <= u64::MAX,
    ensures
        r == base_delay_ms * pow2(attempt as nat),
{
    let shift = attempt as u64;
    proof {
        lemma_u64_pow2_no_overflow(shift as nat);
        lemma_u64_shl_is_mul(1, shift);
    }
    let factor: u64 = 1u64 << shift;
    assert(factor == pow2(attempt as nat));
    base_delay_ms * factor
}

/// What the transport does after a delivery attempt.
#[derive(Debug, Clone, Copy, PartialEq, Eq, Structural)]
pub enum FlushStep {
    /// The batch was delivered: count it and stop.
    Delivered,
    /// Sleep this many milliseconds, then try again.
    RetryAfterMs(u64),
    /// Every attempt failed: count the batch as failed and stop.
    GiveUp,
}

/// The decision after attempt number `attempt` (from 0) of delivering a batch:
/// delivered, retry after the backoff while attempts remain, or give up after attempt
/// `max_retries`.
pub fn flush_step(config: &ForwarderConfig, attempt: u32, delivered: bool) -> (r: FlushStep)
    requires
        !delivered && attempt < config.max_retries ==> attempt < 64 && config.retry_base_delay_ms
            * pow2(attempt as nat) <= u64::MAX,
    ensures
        delivered ==> r == FlushStep::Delivered,
        !delivered && attempt < config.max_retries ==> r == FlushStep::RetryAfterMs(
            (config.retry_base_delay_ms * pow2(attempt as nat)) as u64,
        ),
        !delivered && attempt >= config.max_retries ==> r == FlushStep::GiveUp,
{
    if delivered {
        FlushStep::Delivered
    } else if attempt < config.max_retries {
        FlushStep::RetryAfterMs(retry_delay_ms(config.retry_base_delay_ms, attempt))
    } else {
        FlushStep::GiveUp
    }
}

/// Until when a forwarded event ID suppresses duplicates (saturating).
pub fn dedupe_expiry(now: u64) -> (r: u64)
    ensures
        r == dedupe_expiry_spec(now),
{
    now.saturating_add(DEDUPE_WINDOW_SEC)
}

/// Whether `k` is among the event IDs of `e`.
pub open spec fn has_event(e: Seq<(String, u64)>, k: Seq<char>) -> bool {
    exists|i: int| 0 <= i < e.len() && #[trigger] e[i].0@ == k
}

/// A position of event ID `k` in `e`.
pub open spec fn event_index(e: Seq<(String, u64)>, k: Seq<char>) -> int {
    choose|i: int| 0 <= i < e.len() && #[trigger] e[i].0@ == k
}

/// The event IDs of `e`.
pub open spec fn event_ids(e: Seq<(String, u64)>) -> Seq<Seq<char>> {
    e.map_values(|x: (String, u64)| x.0@)
}

/// The de-duplication entries that are still kept at `now`.
pub open spec fn live_at(m: Map<Seq<char>, u64>, now: u64) -> Map<Seq<char>, u64> {
    m.restrict(Set::new(|k: Seq<char>| m.contains_key(k) && m[k] > now))
}

/// Whether `item` is an entry of `e` before position `bound` that is still kept at `now`.
pub open spec fn kept_entry(e: Seq<(String, u64)>, item: (String, u64), bound: int, now: u64) -> bool {
    exists|x: int| 0 <= x < bound && #[trigger] e[x] == item && e[x].1 > now
}

/// Forwarded event IDs with the time (Unix seconds) until which they suppress
/// duplicates.
pub struct DedupeWindow {
    entries: Vec<(String, u64)>,
}

impl View for DedupeWindow {
    type V = Map<Seq<char>, u64>;

    closed spec fn view(&self) -> Map<Seq<char>, u64> {
        Map::new(
            |k: Seq<char>| has_event(self.entries@, k),
            |k: Seq<char>| self.entries@[event_index(self.entries@, k)].1,
        )
    }
}

impl DedupeWindow {
    /// Event IDs are distinct.
    pub closed spec fn wf(&self) -> bool {
        event_ids(self.entries@).no_duplicates()
    }

    /// An empty window.
    pub fn new() -> (r: Self)
        ensures
            r.wf(),
            r@ == Map::<Seq<char>, u64>::empty(),
    {
        let r = DedupeWindow { entries: Vec::new() };
        assert(r@ =~= Map::<Seq<char>, u64>::empty());
        r
    }

    /// Forgets the entries that expired by `now`.
    pub fn cleanup(&mut self, now: u64)
        requires
            old(self).wf(),
        ensures
            final(self).wf(),
            final(self)@ == live_at(old(self)@, now),
    {
        let ghost e0 = self.entries@;
        let ghost m0 = self@;
        let mut kept: Vec<(String, u64)> = Vec::new();
        let mut i: usize = 0;
        while i < self.entries.len()
            invariant
                i <= e0.len(),
                self.entries@ == e0,
                event_ids(e0).no_duplicates(),
                event_ids(kept@).no_duplicates(),
                forall|j: int|
                    0 <= j < kept@.len() ==> #[trigger] kept_entry(e0, kept@[j], i as int, now),
                forall|x: int|
                    0 <= x < i && #[trigger] e0[x].1 > now ==> has_event(kept@, e0[x].0@),
            decreases e0.len() - i,
        {
            if self.entries[i].1 > now {
                let ghost k0 = kept@;
                let key = self.entries[i].0.clone();
                kept.push((key, self.entries[i].1));
                proof {
                    assert(kept@[k0.len() as int] == e0[i as int]);
                    assert forall|a: int, b: int|
                        0 <= a < b < event_ids(kept@).len() implies event_ids(kept@)[a] != event_ids(
                        kept@,
                    )[b] by {
                        if b == k0.len() {
                            assert(kept_entry(e0, k0[a], i as int, now));
                            let xa = choose|x: int| 0 <= x < i && #[trigger] e0[x] == k0[a] && e0[x].1 > now;
                            assert(event_ids(e0)[xa] != event_ids(e0)[i as int]);
                        } else {
                            assert(event_ids(k0)[a] != event_ids(k0)[b]);
                        }
                    }
                    assert forall|j: int| 0 <= j < kept@.len() implies #[trigger] kept_entry(
                        e0,
                        kept@[j],
                        i + 1,
                        now,
                    ) by {
                        if j < k0.len() {
                            assert(kept_entry(e0, k0[j], i as int, now));
                            let x = choose|x: int| 0 <= x < i && #[trigger] e0[x] == k0[j] && e0[x].1 > now;
                            assert(e0[x] == kept@[j]);
                        } else {
                            assert(e0[i as int] == kept@[j]);
                        }
                    }
                    assert forall|x: int| 0 <= x < i + 1 && #[trigger] e0[x].1 > now implies has_event(
                        kept@,
                        e0[x].0@,
                    ) by {
                        if x < i {
                            let j = choose|j: int| 0 <= j < k0.len() && #[trigger] k0[j].0@ == e0[x].0@;
                            assert(kept@[j] == k0[j]);
                        } else {
                            assert(kept@[k0.len() as int].0@ == e0[x].0@);
                        }
                    }
                }
            } else {
                proof {
                    assert forall|j: int| 0 <= j < kept@.len() implies #[trigger] kept_entry(
                        e0,
                        kept@[j],
                        i + 1,
                        now,
                    ) by {
                        assert(kept_entry(e0, kept@[j], i as int, now));
                        let x = choose|x: int| 0 <= x < i && #[trigger] e0[x] == kept@[j] && e0[x].1 > now;
                        assert(e0[x] == kept@[j]);
                    }
                }
            }
            i += 1;
        }
        self.entries = kept;
        proof {
            let e1 = self.entries@;
            assert forall|k: Seq<char>| #[trigger] self@.contains_key(k) == live_at(m0, now).contains_key(k) by {
                if has_event(e1, k) {
                    let j = choose|j: int| 0 <= j < e1.len() && #[trigger] e1[j].0@ == k;
                    assert(kept_entry(e0, e1[j], e0.len() as int, now));
                    let x = choose|x: int| 0 <= x < e0.len() && #[trigger] e0[x] == e1[j] && e0[x].1 > now;
                    assert(has_event(e0, k));
                    let y = event_index(e0, k);
                    assert(event_ids(e0)[x] == event_ids(e0)[y]);
                }
                if live_at(m0, now).contains_key(k) {
                    let y = event_index(e0, k);
                    assert(e0[y].1 > now);
                }
            }
            assert forall|k: Seq<char>| #[trigger] self@.contains_key(k) implies self@[k] == m0[k] by {
                let j = event_index(e1, k);
                assert(kept_entry(e0, e1[j], e0.len() as int, now));
                let x = choose|x: int| 0 <= x < e0.len() && #[trigger] e0[x] == e1[j] && e0[x].1 > now;
                let y = event_index(e0, k);
                assert(event_ids(e0)[x] == event_ids(e0)[y]);
            }
            assert(self@ =~= live_at(m0, now));
        }
    }

    /// Whether event `event_id` may be forwarded at `now`: entries that expired are
    /// forgotten first; an ID still held is a duplicate and is refused, a new one is
    /// held until `now + DEDUPE_WINDOW_SEC` (saturating) and accepted.
    pub fn accept(&mut self, event_id: &str, now: u64) -> (r: bool)
        requires
            old(self).wf(),
        ensures
            final(self).wf(),
            r == !live_at(old(self)@, now).contains_key(event_id@),
            r ==> final(self)@ == live_at(old(self)@, now).insert(
                event_id@,
                dedupe_expiry_spec(now),
            ),
            !r ==> final(self)@ == live_at(old(self)@, now),
    {
        self.cleanup(now);
        let id = event_id.to_owned();
        let ghost e0 = self.entries@;
        let mut i: usize = 0;
        while i < self.entries.len()
            invariant
                i <= self.entries@.len(),
                self.entries@ == e0,
                self.wf(),
                self@ == live_at(old(self)@, now),
                id@ == event_id@,
                forall|j: int| 0 <= j < i ==> e0[j].0@ != id@,
            decreases self.entries@.len() - i,
        {
            if self.entries[i].0 == id {
                proof {
                    assert(has_event(e0, id@));
                }
                return false;
            }
            i += 1;
        }
        let expiry = dedupe_expiry(now);
        let ghost m0 = self@;
        self.entries.push((id, expiry));
        proof {
            let e1 = self.entries@;
            assert(!has_event(e0, event_id@)) by {
                if has_event(e0, event_id@) {
                    let j = choose|j: int| 0 <= j < e0.len() && #[trigger] e0[j].0@ == event_id@;
                    assert(e0[j].0@ != event_id@);
                }
            };
            assert(event_ids(e1) =~= event_ids(e0).push(event_id@));
            assert(!event_ids(e0).contains(event_id@)) by {
                if event_ids(e0).contains(event_id@) {
                    let j = choose|j: int| 0 <= j < event_ids(e0).len() && event_ids(e0)[j] == event_id@;
                    assert(e0[j].0@ == event_id@);
                }
            };
            assert forall|k: Seq<char>| #[trigger] has_event(e1, k) == (has_event(e0, k) || k == event_id@) by {
                if has_event(e0, k) {
                    let j = choose|j: int| 0 <= j < e0.len() && #[trigger] e0[j].0@ == k;
                    assert(e1[j].0@ == k);
                }
                if has_event(e1, k) {
                    let j = choose|j: int| 0 <= j < e1.len() && #[trigger] e1[j].0@ == k;
                    if j < e0.len() {
                        assert(e0[j].0@ == k);
                    }
                }
                if k == event_id@ {
                    assert(e1[e0.len() as int].0@ == k);
                }
            }
            assert forall|k: Seq<char>| has_event(e1, k) implies #[trigger] e1[event_index(e1, k)].1
                == if k == event_id@ {
                expiry
            } else {
                e0[event_index(e0, k)].1
            } by {
                let a = event_index(e1, k);
                assert(event_ids(e1)[a] == k);
                if k == event_id@ {
                    if a != e0.len() {
                        assert(event_ids(e1)[a] == event_ids(e1)[e0.len() as int]);
                    }
                } else {
                    let b = event_index(e0, k);
                    assert(event_ids(e0)[b] == k);
                    assert(event_ids(e1)[b] == k);
                    if a != b {
                        assert(event_ids(e1)[a] == event_ids(e1)[b]);
                    }
                }
            }
            assert(self@ =~= m0.insert(event_id@, expiry));
        }
        true
    }
}

/// Until when an event forwarded at `now` suppresses duplicates (saturating).
pub open spec fn dedupe_expiry_spec(now: u64) -> u64 {
    if now + DEDUPE_WINDOW_SEC > u64::MAX {
        u64::MAX
    } else {
        (now + DEDUPE_WINDOW_SEC) as u64
    }
}

/// Duplicates are suppressed for the window: an event ID that the window accepted at
/// `t0` is refused at any later `t1` before its expiry.
pub proof fn lemma_duplicate_refused(
    m0: Map<Seq<char>, u64>,
    id: Seq<char>,
    t0: u64,
    t1: u64,
)
    requires
        t1 < dedupe_expiry_spec(t0),
    ensures
        live_at(live_at(m0, t0).insert(id, dedupe_expiry_spec(t0)), t1).contains_key(id),
{
}

} // verus!

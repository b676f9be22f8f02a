//! Behavioural fingerprints: what each entity (an IP, a user, a device) usually does,
//! and a least-recently-used store of them.
//!
//! A profile counts the entity's observations by hour of day and by service, sketches
//! the places it is seen from, and becomes mature after enough observations. The
//! floating-point parts of a fingerprint (request velocity, inter-arrival and payload
//! distributions, the smoothed behaviour score) are kept by the detector outside this
//! crate; the integer decisions it takes from a profile are here.

use vstd::prelude::*;

use std::collections::HashMap;

use crate::hll::{added, clamp_precision, HyperLogLog};

verus! {

broadcast use vstd::std_specs::hash::group_hash_axioms;

/// Nanoseconds in one hour.
pub const NANOS_PER_HOUR: u64 = 3_600_000_000_000;

/// Observations after which a new profile is mature.
pub const PROFILE_MATURITY: u64 = 50;

/// Precision of the sketch of the places an entity is seen from.
pub const GEO_PRECISION: u8 = 10;

/// Hour of the day, 0 to 23, of a timestamp in nanoseconds.
pub open spec fn hour_of(timestamp_ns: u64) -> int {
    ((timestamp_ns / NANOS_PER_HOUR) % 24) as int
}

/// Sum of a sequence of counts.
pub open spec fn total(s: Seq<u64>) -> int
    decreases s.len(),
{
    if s.len() == 0 {
        0
    } else {
        total(s.drop_last()) + s.last()
    }
}

proof fn lemma_total_zeros(s: Seq<u64>)
    requires
        forall|i: int| 0 <= i < s.len() ==> s[i] == 0,
    ensures
        total(s) == 0,
    decreases s.len(),
{
    if s.len() > 0 {
        lemma_total_zeros(s.drop_last());
    }
}

proof fn lemma_total_bounds(s: Seq<u64>, i: int)
    requires
        0 <= i < s.len(),
    ensures
        s[i] <= total(s),
    decreases s.len(),
{
    if i < s.len() - 1 {
        lemma_total_bounds(s.drop_last(), i);
    }
    lemma_total_nonneg(s.drop_last());
}

proof fn lemma_total_nonneg(s: Seq<u64>)
    ensures
        total(s) >= 0,
    decreases s.len(),
{
    if s.len() > 0 {
        lemma_total_nonneg(s.drop_last());
    }
}

proof fn lemma_total_increment(s: Seq<u64>, i: int)
    requires
        0 <= i < s.len(),
        s[i] < u64::MAX,
    ensures
        total(s.update(i, (s[i] + 1) as u64)) == total(s) + 1,
    decreases s.len(),
{
    let t = s.update(i, (s[i] + 1) as u64);
    if i == s.len() - 1 {
        assert(t.drop_last() =~= s.drop_last());
    } else {
        lemma_total_increment(s.drop_last(), i);
        assert(t.drop_last() =~= s.drop_last().update(i, (s[i] + 1) as u64));
    }
}

/// The integer state of one entity's behavioural profile.
#[derive(Clone, Debug)]
pub struct BehavioralProfile {
    /// Hash of the entity.
    pub entity_hash: u64,
    /// Timestamp of the profile's creation, in nanoseconds.
    pub first_seen: u64,
    /// Timestamp of the latest observation, in nanoseconds.
    pub last_seen: u64,
    /// Observations per hour of day (24 counts).
    pub normal_hours: Vec<u64>,
    /// Observations so far.
    pub observation_count: u64,
    /// Observations per service hash.
    pub service_access: HashMap<u64, u64>,
    /// Sketch of the places the entity is seen from.
    pub geo_diversity: HyperLogLog,
    /// Events judged anomalous so far.
    pub anomaly_count: u64,
    /// Whether there have been enough observations to judge by.
    pub is_mature: bool,
    /// Observations after which the profile is mature.
    pub maturity_threshold: u64,
}

/// Whether `p` is the profile of entity `entity_hash` made at `timestamp`: nothing
/// observed, nothing sketched, not mature.
pub open spec fn is_new_profile(p: BehavioralProfile, entity_hash: u64, timestamp: u64) -> bool {
    &&& p.entity_hash == entity_hash
    &&& p.first_seen == timestamp
    &&& p.last_seen == timestamp
    &&& p.normal_hours@ == Seq::new(24, |h: int| 0u64)
    &&& p.observation_count == 0
    &&& p.service_access@ == Map::<u64, u64>::empty()
    &&& p.geo_diversity.wf()
    &&& p.geo_diversity.spec_p() == GEO_PRECISION
    &&& p.geo_diversity.spec_registers() == Seq::new(1024, |i: int| 0u8)
    &&& p.anomaly_count == 0
    &&& !p.is_mature
    &&& p.maturity_threshold == PROFILE_MATURITY
}

/// Whether hour `h` has more observations than the average hour (the observation
/// count divided by 24, rounded down).
pub open spec fn is_typical_hour(p: BehavioralProfile, h: int) -> bool {
    p.normal_hours@[h] > p.observation_count / 24
}

impl BehavioralProfile {
    /// Well-formedness: 24 hour counts that add up to the observation count, service
    /// counts between 1 and the observation count, a sketch of the set precision, and
    /// maturity exactly when the observations reach the threshold.
    pub open spec fn wf(&self) -> bool {
        &&& self.normal_hours@.len() == 24
        &&& total(self.normal_hours@) == self.observation_count
        &&& forall|k: u64| #[trigger]
            self.service_access@.contains_key(k) ==> 1 <= self.service_access@[k]
                <= self.observation_count
        &&& self.geo_diversity.wf()
        &&& self.geo_diversity.spec_p() == GEO_PRECISION
        &&& self.is_mature == (self.observation_count >= self.maturity_threshold)
    }

    /// A new profile of entity `entity_hash` created at `timestamp`.
    pub fn new(entity_hash: u64, timestamp: u64) -> (r: Self)
        ensures
            r.wf(),
            is_new_profile(r, entity_hash, timestamp),
    {
        let geo_diversity = HyperLogLog::new(GEO_PRECISION);
        proof {
            vstd::arithmetic::power2::lemma2_to64();
            assert(clamp_precision(GEO_PRECISION) == 10);
            assert(geo_diversity.spec_registers() =~= Seq::new(1024, |i: int| 0u8));
        }
        let normal_hours: Vec<u64> = vec![0u64; 24];
        proof {
            assert(normal_hours@ =~= Seq::new(24, |h: int| 0u64));
            lemma_total_zeros(normal_hours@);
        }
        BehavioralProfile {
            entity_hash,
            first_seen: timestamp,
            last_seen: timestamp,
            normal_hours,
            observation_count: 0,
            service_access: HashMap::new(),
            geo_diversity,
            anomaly_count: 0,
            is_mature: false,
            maturity_threshold: PROFILE_MATURITY,
        }
    }

    /// Records an observation at `timestamp_ns` of service `service_hash` from place
    /// `geo_hash`: one more observation, in its hour and for its service, the place
    /// sketched, and maturity once the observations reach the threshold.
    pub fn update(&mut self, timestamp_ns: u64, service_hash: u64, geo_hash: u64)
        requires
            old(self).wf(),
            old(self).observation_count < u64::MAX,
        ensures
            final(self).wf(),
            final(self).entity_hash == old(self).entity_hash,
            final(self).first_seen == old(self).first_seen,
            final(self).last_seen == timestamp_ns,
            final(self).observation_count == old(self).observation_count + 1,
            final(self).normal_hours@ == old(self).normal_hours@.update(
                hour_of(timestamp_ns),
                (old(self).normal_hours@[hour_of(timestamp_ns)] + 1) as u64,
            ),
            final(self).service_access@ == old(self).service_access@.insert(
                service_hash,
                if old(self).service_access@.contains_key(service_hash) {
                    (old(self).service_access@[service_hash] + 1) as u64
                } else {
                    1u64
                },
            ),
            final(self).geo_diversity.spec_registers() == added(
                old(self).geo_diversity.spec_registers(),
                GEO_PRECISION,
                geo_hash,
            ),
            final(self).anomaly_count == old(self).anomaly_count,
            final(self).maturity_threshold == old(self).maturity_threshold,
            final(self).is_mature == (final(self).observation_count
                >= final(self).maturity_threshold),
    {
        self.last_seen = timestamp_ns;
        let ghost hours0 = self.normal_hours@;
        let ghost services0 = self.service_access@;
        let ghost count0 = self.observation_count;
        self.observation_count = self.observation_count + 1;
        let hour = ((timestamp_ns / NANOS_PER_HOUR) % 24) as usize;
        proof {
            lemma_total_bounds(hours0, hour as int);
        }
        let c = self.normal_hours[hour];
        self.normal_hours.set(hour, c + 1);
        proof {
            lemma_total_increment(hours0, hour as int);
        }
        let seen: u64 = match self.service_access.get(&service_hash) {
            Some(v) => *v,
            None => 0,
        };
        self.service_access.insert(service_hash, seen + 1);
        proof {
            assert forall|k: u64| #[trigger]
                self.service_access@.contains_key(k) implies 1 <= self.service_access@[k]
                <= self.observation_count by {
                if k != service_hash {
                    assert(services0.contains_key(k));
                }
            }
        }
        self.geo_diversity.add_hash(geo_hash);
        if self.observation_count >= self.maturity_threshold {
            self.is_mature = true;
        }
    }

    /// Whether an event at `timestamp_ns` falls in an unusual hour for this entity:
    /// its hour has fewer than half the observations of the average hour.
    pub fn is_unusual_hour(&self, timestamp_ns: u64) -> (r: bool)
        requires
            self.wf(),
        ensures
            r == (self.normal_hours@[hour_of(timestamp_ns)] < (self.observation_count / 24)
                / 2),
    {
        let hour = ((timestamp_ns / NANOS_PER_HOUR) % 24) as usize;
        let average = self.observation_count / 24;
        self.normal_hours[hour] < average / 2
    }

    /// Whether `service_hash` is a service this entity has not been seen using.
    pub fn is_new_service(&self, service_hash: u64) -> (r: bool)
        ensures
            r == !self.service_access@.contains_key(service_hash),
    {
        !self.service_access.contains_key(&service_hash)
    }

    /// Counts one more anomalous event.
    pub fn record_anomaly(&mut self)
        requires
            old(self).anomaly_count < u64::MAX,
        ensures
            final(self).anomaly_count == old(self).anomaly_count + 1,
            final(self).entity_hash == old(self).entity_hash,
            final(self).first_seen == old(self).first_seen,
            final(self).last_seen == old(self).last_seen,
            final(self).normal_hours@ == old(self).normal_hours@,
            final(self).observation_count == old(self).observation_count,
            final(self).service_access@ == old(self).service_access@,
            final(self).geo_diversity.spec_p() == old(self).geo_diversity.spec_p(),
            final(self).geo_diversity.spec_registers() == old(self).geo_diversity.spec_registers(),
            final(self).geo_diversity.wf() == old(self).geo_diversity.wf(),
            final(self).is_mature == old(self).is_mature,
            final(self).maturity_threshold == old(self).maturity_threshold,
    {
        self.anomaly_count = self.anomaly_count + 1;
    }

    /// The hours with more observations than the average hour, in increasing order.
    pub fn get_typical_hours(&self) -> (r: Vec<usize>)
        requires
            self.wf(),
        ensures
            forall|i: int, j: int| 0 <= i < j < r@.len() ==> r@[i] < r@[j],
            forall|i: int|
                0 <= i < r@.len() ==> r@[i] < 24 && is_typical_hour(*self, r@[i] as int),
            forall|h: int| 0 <= h < 24 && is_typical_hour(*self, h) ==> r@.contains(h as usize),
    {
        let average = self.observation_count / 24;
        let mut out: Vec<usize> = Vec::new();
        let mut hour: usize = 0;
        while hour < 24
            invariant
                self.wf(),
                average == self.observation_count / 24,
                hour <= 24,
                forall|i: int, j: int| 0 <= i < j < out@.len() ==> out@[i] < out@[j],
                forall|i: int|
                    0 <= i < out@.len() ==> out@[i] < hour && is_typical_hour(
                        *self,
                        out@[i] as int,
                    ),
                forall|h: int|
                    0 <= h < hour && is_typical_hour(*self, h) ==> out@.contains(h as usize),
            decreases 24 - hour,
        {
            if self.normal_hours[hour] > average {
                let ghost before = out@;
                out.push(hour);
                proof {
                    assert forall|h: int|
                        0 <= h < hour + 1 && is_typical_hour(*self, h) implies out@.contains(
                        h as usize,
                    ) by {
                        if h == hour {
                            assert(out@[before.len() as int] == hour);
                        } else {
                            let k = choose|k: int| 0 <= k < before.len() && before[k] == h as usize;
                            assert(out@[k] == h as usize);
                        }
                    }
                }
            }
            hour += 1;
        }
        out
    }

    /// The number of distinct services the entity has been seen using.
    pub fn get_service_diversity(&self) -> (r: usize)
        ensures
            r == self.service_access@.len(),
    {
        self.service_access.len()
    }
}

/// A stored profile and the store's access count at its latest access.
#[derive(Clone, Debug)]
pub struct ProfileSlot {
    pub profile: BehavioralProfile,
    pub last_access: u64,
}

/// The entity hashes of a storage sequence, in storage order.
pub open spec fn slot_keys(s: Seq<(u64, ProfileSlot)>) -> Seq<u64> {
    s.map_values(|e: (u64, ProfileSlot)| e.0)
}

/// The map that a storage sequence with distinct keys stands for.
pub open spec fn slot_map(s: Seq<(u64, ProfileSlot)>) -> Map<u64, ProfileSlot> {
    Map::new(|k: u64| slot_keys(s).contains(k), |k: u64| s[slot_keys(s).index_of(k)].1)
}

/// Access times between 1 and `counter`, no two alike.
pub open spec fn access_times_ok(s: Seq<(u64, ProfileSlot)>, counter: u64) -> bool {
    &&& forall|i: int| 0 <= i < s.len() ==> 1 <= #[trigger] s[i].1.last_access <= counter
    &&& forall|i: int, j: int|
        0 <= i < s.len() && 0 <= j < s.len() && i != j ==> #[trigger] s[i].1.last_access
            != #[trigger] s[j].1.last_access
}

/// `k` is held in `m` and was accessed least recently of all held entities.
pub open spec fn least_recent(m: Map<u64, ProfileSlot>, k: u64) -> bool {
    &&& m.contains_key(k)
    &&& forall|j: u64| #[trigger] m.contains_key(j) ==> m[k].last_access <= m[j].last_access
}

/// The entities whose profiles are mature.
pub open spec fn mature_keys(m: Map<u64, ProfileSlot>) -> Set<u64> {
    m.dom().filter(|k: u64| m[k].profile.is_mature)
}

/// Whether `p` is the profile of some entity held in `m` whose profile is mature.
pub open spec fn is_mature_profile_in(m: Map<u64, ProfileSlot>, p: BehavioralProfile) -> bool {
    exists|k: u64| #[trigger] m.contains_key(k) && m[k].profile.is_mature && m[k].profile == p
}

/// The profiles that a sequence of references points to.
pub open spec fn profiles_of(r: Seq<&BehavioralProfile>) -> Seq<BehavioralProfile> {
    r.map_values(|p: &BehavioralProfile| *p)
}

/// The capacity a store gets for a requested one: at least 10, at most 1,000,000.
pub open spec fn store_capacity(max_profiles: usize) -> usize {
    if max_profiles < 10 {
        10
    } else if max_profiles > 1_000_000 {
        1_000_000
    } else {
        max_profiles
    }
}

/// A store keeps the capacity asked for when it lies between 10 and 1,000,000, and
/// the nearer bound otherwise.
pub proof fn lemma_store_capacity(max_profiles: usize)
    ensures
        10 <= max_profiles <= 1_000_000 ==> store_capacity(max_profiles) == max_profiles,
        max_profiles < 10 ==> store_capacity(max_profiles) == 10,
        max_profiles > 1_000_000 ==> store_capacity(max_profiles) == 1_000_000,
        10 <= store_capacity(max_profiles) <= 1_000_000,
{
}

/// The mature profiles of a storage sequence, counted.
pub open spec fn count_mature(s: Seq<(u64, ProfileSlot)>) -> nat
    decreases s.len(),
{
    if s.len() == 0 {
        0
    } else {
        count_mature(s.drop_last()) + if s.last().1.profile.is_mature {
            1nat
        } else {
            0nat
        }
    }
}

proof fn lemma_slot_map_index(s: Seq<(u64, ProfileSlot)>, i: int)
    requires
        slot_keys(s).no_duplicates(),
        0 <= i < s.len(),
    ensures
        slot_map(s).contains_key(s[i].0),
        slot_map(s)[s[i].0] == s[i].1,
{
    let ks = slot_keys(s);
    assert(ks[i] == s[i].0);
    assert(ks.contains(s[i].0));
    let j = ks.index_of(s[i].0);
    assert(ks[j] == s[i].0);
}

proof fn lemma_slot_map_contains(s: Seq<(u64, ProfileSlot)>, k: u64)
    ensures
        slot_map(s).contains_key(k) <==> exists|i: int| 0 <= i < s.len() && s[i].0 == k,
{
    let ks = slot_keys(s);
    if slot_map(s).contains_key(k) {
        let i = choose|i: int| 0 <= i < ks.len() && ks[i] == k;
        assert(s[i].0 == k);
    }
    if exists|i: int| 0 <= i < s.len() && s[i].0 == k {
        let i = choose|i: int| 0 <= i < s.len() && s[i].0 == k;
        assert(ks[i] == k);
    }
}

proof fn lemma_slot_map_len(s: Seq<(u64, ProfileSlot)>)
    requires
        slot_keys(s).no_duplicates(),
    ensures
        slot_map(s).dom().finite(),
        slot_map(s).len() == s.len(),
{
    let ks = slot_keys(s);
    assert(slot_map(s).dom() =~= ks.to_set());
    ks.unique_seq_to_set();
}

proof fn lemma_slot_map_update(s: Seq<(u64, ProfileSlot)>, i: int, e: (u64, ProfileSlot))
    requires
        slot_keys(s).no_duplicates(),
        0 <= i < s.len(),
        s[i].0 == e.0,
    ensures
        slot_keys(s.update(i, e)) == slot_keys(s),
        slot_map(s.update(i, e)) =~= slot_map(s).insert(e.0, e.1),
{
    let t = s.update(i, e);
    assert(slot_keys(t) =~= slot_keys(s));
    lemma_slot_map_index(t, i);
    assert forall|k: u64| #[trigger] slot_map(t).contains_key(k) <==> slot_map(s).insert(
        e.0,
        e.1,
    ).contains_key(k) by {
        lemma_slot_map_contains(t, k);
        lemma_slot_map_contains(s, k);
    }
    assert forall|k: u64| slot_map(t).contains_key(k) && k != e.0 implies #[trigger] slot_map(
        t,
    )[k] == slot_map(s)[k] by {
        lemma_slot_map_contains(t, k);
        let j = choose|j: int| 0 <= j < t.len() && t[j].0 == k;
        lemma_slot_map_index(t, j);
        lemma_slot_map_index(s, j);
    }
}

proof fn lemma_slot_map_push(s: Seq<(u64, ProfileSlot)>, e: (u64, ProfileSlot))
    requires
        slot_keys(s).no_duplicates(),
        !slot_map(s).contains_key(e.0),
    ensures
        slot_keys(s.push(e)).no_duplicates(),
        slot_map(s.push(e)) =~= slot_map(s).insert(e.0, e.1),
{
    let t = s.push(e);
    assert(slot_keys(t) =~= slot_keys(s).push(e.0));
    lemma_slot_map_contains(s, e.0);
    assert forall|a: int, b: int|
        0 <= a < slot_keys(t).len() && 0 <= b < slot_keys(t).len() && a != b implies slot_keys(
        t,
    )[a] != slot_keys(t)[b] by {
        if a == s.len() as int {
            assert(s[b].0 != e.0);
        } else if b == s.len() as int {
            assert(s[a].0 != e.0);
        }
    }
    lemma_slot_map_index(t, s.len() as int);
    assert forall|k: u64| #[trigger] slot_map(t).contains_key(k) <==> slot_map(s).insert(
        e.0,
        e.1,
    ).contains_key(k) by {
        lemma_slot_map_contains(t, k);
        lemma_slot_map_contains(s, k);
        if slot_map(s).contains_key(k) {
            let j = choose|j: int| 0 <= j < s.len() && s[j].0 == k;
            assert(t[j].0 == k);
        }
    }
    assert forall|k: u64| slot_map(t).contains_key(k) && k != e.0 implies #[trigger] slot_map(
        t,
    )[k] == slot_map(s)[k] by {
        lemma_slot_map_contains(t, k);
        let j = choose|j: int| 0 <= j < t.len() && t[j].0 == k;
        lemma_slot_map_index(t, j);
        lemma_slot_map_index(s, j);
    }
}

proof fn lemma_slot_map_swap_remove(s: Seq<(u64, ProfileSlot)>, i: int)
    requires
        slot_keys(s).no_duplicates(),
        0 <= i < s.len(),
    ensures
        slot_keys(s.update(i, s.last()).drop_last()).no_duplicates(),
        slot_map(s.update(i, s.last()).drop_last()) =~= slot_map(s).remove(s[i].0),
{
    let t = s.update(i, s.last()).drop_last();
    let n = s.len() - 1;
    assert forall|a: int, b: int|
        0 <= a < slot_keys(t).len() && 0 <= b < slot_keys(t).len() && a != b implies slot_keys(
        t,
    )[a] != slot_keys(t)[b] by {
        let sa = if a == i {
            n
        } else {
            a
        };
        let sb = if b == i {
            n
        } else {
            b
        };
        assert(slot_keys(t)[a] == slot_keys(s)[sa]);
        assert(slot_keys(t)[b] == slot_keys(s)[sb]);
    }
    assert forall|k: u64| #[trigger] slot_map(t).contains_key(k) <==> slot_map(s).remove(
        s[i].0,
    ).contains_key(k) by {
        lemma_slot_map_contains(t, k);
        lemma_slot_map_contains(s, k);
        if slot_map(t).contains_key(k) {
            let j = choose|j: int| 0 <= j < t.len() && t[j].0 == k;
            let sj = if j == i {
                n
            } else {
                j
            };
            assert(s[sj].0 == k);
            assert(slot_keys(s)[sj] == k && slot_keys(s)[i] == s[i].0);
        }
        if slot_map(s).remove(s[i].0).contains_key(k) {
            let j = choose|j: int| 0 <= j < s.len() && s[j].0 == k;
            assert(j != i);
            if j == n {
                assert(t[i].0 == k);
            } else {
                assert(t[j].0 == k);
            }
        }
    }
    assert forall|k: u64| #[trigger] slot_map(t).contains_key(k) implies slot_map(t)[k]
        == slot_map(s)[k] by {
        lemma_slot_map_contains(t, k);
        let j = choose|j: int| 0 <= j < t.len() && t[j].0 == k;
        lemma_slot_map_index(t, j);
        let sj = if j == i {
            n
        } else {
            j
        };
        lemma_slot_map_index(s, sj);
    }
}

proof fn lemma_count_mature(s: Seq<(u64, ProfileSlot)>)
    requires
        slot_keys(s).no_duplicates(),
    ensures
        mature_keys(slot_map(s)).finite(),
        count_mature(s) == mature_keys(slot_map(s)).len(),
    decreases s.len(),
{
    if s.len() == 0 {
        assert(mature_keys(slot_map(s)) =~= Set::<u64>::empty());
    } else {
        let t = s.drop_last();
        let x = s.last();
        assert(t.push(x) =~= s);
        assert(slot_keys(t) =~= slot_keys(s).drop_last());
        assert forall|a: int, b: int|
            0 <= a < slot_keys(t).len() && 0 <= b < slot_keys(t).len() && a != b implies slot_keys(
            t,
        )[a] != slot_keys(t)[b] by {
            assert(slot_keys(t)[a] == slot_keys(s)[a]);
            assert(slot_keys(t)[b] == slot_keys(s)[b]);
        }
        lemma_count_mature(t);
        lemma_slot_map_contains(t, x.0);
        if slot_map(t).contains_key(x.0) {
            let j = choose|j: int| 0 <= j < t.len() && t[j].0 == x.0;
            assert(slot_keys(s)[j] == slot_keys(s)[s.len() - 1]);
        }
        lemma_slot_map_push(t, x);
        let mt = mature_keys(slot_map(t));
        let ms = mature_keys(slot_map(s));
        if x.1.profile.is_mature {
            assert(ms =~= mt.insert(x.0));
        } else {
            assert(ms =~= mt);
        }
    }
}

proof fn lemma_access_times_update(s: Seq<(u64, ProfileSlot)>, c: u64, i: int, e: (u64, ProfileSlot))
    requires
        access_times_ok(s, c),
        0 <= i < s.len(),
        c < u64::MAX,
        e.1.last_access == c + 1,
    ensures
        access_times_ok(s.update(i, e), (c + 1) as u64),
{
    let t = s.update(i, e);
    assert forall|a: int, b: int|
        0 <= a < t.len() && 0 <= b < t.len() && a != b implies #[trigger] t[a].1.last_access
        != #[trigger] t[b].1.last_access by {
        if a != i && b != i {
            assert(s[a].1.last_access != s[b].1.last_access);
        }
    }
}

proof fn lemma_mature_listing(
    s: Seq<(u64, ProfileSlot)>,
    out: Seq<BehavioralProfile>,
    picked: Seq<int>,
)
    requires
        slot_keys(s).no_duplicates(),
        out.len() == picked.len(),
        forall|j: int|
            0 <= j < picked.len() ==> 0 <= #[trigger] picked[j] < s.len()
                && s[picked[j]].1.profile.is_mature && out[j] == s[picked[j]].1.profile,
        forall|x: int| 0 <= x < s.len() && #[trigger] s[x].1.profile.is_mature ==> picked.contains(x),
    ensures
        forall|j: int| 0 <= j < out.len() ==> is_mature_profile_in(slot_map(s), #[trigger] out[j]),
        forall|k: u64|
            #[trigger] slot_map(s).contains_key(k) && slot_map(s)[k].profile.is_mature
                ==> exists|j: int| 0 <= j < out.len() && out[j] == slot_map(s)[k].profile,
{
    assert forall|j: int| 0 <= j < out.len() implies is_mature_profile_in(
        slot_map(s),
        #[trigger] out[j],
    ) by {
        let x = picked[j];
        lemma_slot_map_index(s, x);
        let k = s[x].0;
        assert(slot_map(s).contains_key(k) && slot_map(s)[k].profile.is_mature
            && out[j] == slot_map(s)[k].profile);
    }
    assert forall|k: u64|
        #[trigger] slot_map(s).contains_key(k) && slot_map(s)[k].profile.is_mature implies exists|j: int|
        0 <= j < out.len() && out[j] == slot_map(s)[k].profile by {
        lemma_slot_map_contains(s, k);
        let x = choose|x: int| 0 <= x < s.len() && s[x].0 == k;
        lemma_slot_map_index(s, x);
        assert(s[x].1.profile.is_mature);
        let j = choose|j: int| 0 <= j < picked.len() && picked[j] == x;
        assert(out[j] == slot_map(s)[k].profile);
    }
}

/// Entity profiles, at most a fixed number, evicting the least recently accessed.
pub struct ProfileStore {
    profiles: Vec<(u64, ProfileSlot)>,
    max_profiles: usize,
    access_counter: u64,
    maturity_threshold: u64,
}

impl View for ProfileStore {
    type V = Map<u64, ProfileSlot>;

    closed spec fn view(&self) -> Map<u64, ProfileSlot> {
        slot_map(self.profiles@)
    }
}

impl ProfileStore {
    /// The most profiles the store holds.
    pub closed spec fn spec_max_profiles(&self) -> usize {
        self.max_profiles
    }

    /// Accesses counted so far.
    pub closed spec fn spec_access_counter(&self) -> u64 {
        self.access_counter
    }

    /// The maturity threshold the store was made with.
    pub closed spec fn spec_maturity_threshold(&self) -> u64 {
        self.maturity_threshold
    }

    /// Well-formedness: one slot per entity, within a capacity of 10 to 1,000,000,
    /// and distinct access times no later than the access counter.
    pub closed spec fn wf(&self) -> bool {
        &&& slot_keys(self.profiles@).no_duplicates()
        &&& self.profiles@.len() <= self.max_profiles
        &&& 10 <= self.max_profiles <= 1_000_000
        &&& access_times_ok(self.profiles@, self.access_counter)
    }

    /// An empty store for at most `max_profiles` profiles (clamped to 10..=1,000,000).
    pub fn new(max_profiles: usize, maturity_threshold: u64) -> (r: Self)
        ensures
            r.wf(),
            r@ == Map::<u64, ProfileSlot>::empty(),
            r.spec_max_profiles() == store_capacity(max_profiles),
            r.spec_access_counter() == 0,
            r.spec_maturity_threshold() == maturity_threshold,
    {
        let capacity: usize = if max_profiles < 10 {
            10
        } else if max_profiles > 1_000_000 {
            1_000_000
        } else {
            max_profiles
        };
        let r = ProfileStore {
            profiles: Vec::new(),
            max_profiles: capacity,
            access_counter: 0,
            maturity_threshold,
        };
        proof {
            assert(r@ =~= Map::<u64, ProfileSlot>::empty());
        }
        r
    }

    /// Index of `entity_hash` in storage, if held.
    fn find_index(&self, entity_hash: u64) -> (r: Option<usize>)
        requires
            self.wf(),
        ensures
            match r {
                Some(i) => i < self.profiles@.len() && self.profiles@[i as int].0 == entity_hash
                    && self@.contains_key(entity_hash) && self@[entity_hash]
                    == self.profiles@[i as int].1,
                None => !self@.contains_key(entity_hash),
            },
    {
        let mut i: usize = 0;
        while i < self.profiles.len()
            invariant
                self.wf(),
                i <= self.profiles@.len(),
                forall|j: int| 0 <= j < i ==> self.profiles@[j].0 != entity_hash,
            decreases self.profiles@.len() - i,
        {
            if self.profiles[i].0 == entity_hash {
                proof {
                    lemma_slot_map_index(self.profiles@, i as int);
                }
                return Some(i);
            }
            i += 1;
        }
        proof {
            lemma_slot_map_contains(self.profiles@, entity_hash);
        }
        None
    }

    /// Removes the least recently accessed profile.
    fn evict_lru(&mut self)
        requires
            old(self).wf(),
            old(self).profiles@.len() > 0,
        ensures
            final(self).wf(),
            final(self).max_profiles == old(self).max_profiles,
            final(self).access_counter == old(self).access_counter,
            final(self).maturity_threshold == old(self).maturity_threshold,
            exists|k: u64| least_recent(old(self)@, k) && final(self)@ == old(self)@.remove(k),
    {
        let ghost s = self.profiles@;
        let mut best: usize = 0;
        let mut i: usize = 1;
        while i < self.profiles.len()
            invariant
                self.profiles@ == s,
                s.len() > 0,
                best < i <= s.len(),
                forall|j: int| 0 <= j < i ==> s[best as int].1.last_access <= s[j].1.last_access,
            decreases s.len() - i,
        {
            if self.profiles[i].1.last_access < self.profiles[best].1.last_access {
                best = i;
            }
            i += 1;
        }
        let ghost k = s[best as int].0;
        proof {
            lemma_slot_map_index(s, best as int);
            assert forall|j: u64| #[trigger] slot_map(s).contains_key(j) implies slot_map(s)[k].last_access
                <= slot_map(s)[j].last_access by {
                lemma_slot_map_contains(s, j);
                let x = choose|x: int| 0 <= x < s.len() && s[x].0 == j;
                lemma_slot_map_index(s, x);
            }
            assert(least_recent(slot_map(s), k));
            lemma_slot_map_swap_remove(s, best as int);
        }
        self.profiles.swap_remove(best);
        proof {
            let t = self.profiles@;
            assert(self@ == slot_map(s).remove(k));
            let n = s.len() - 1;
            assert(t =~= s.update(best as int, s.last()).drop_last());
            assert forall|a: int, b: int|
                0 <= a < t.len() && 0 <= b < t.len() && a != b implies #[trigger] t[a].1.last_access
                != #[trigger] t[b].1.last_access by {
                let sa = if a == best as int {
                    n
                } else {
                    a
                };
                let sb = if b == best as int {
                    n
                } else {
                    b
                };
                assert(t[a] == s[sa] && t[b] == s[sb]);
            }
            assert forall|a: int| 0 <= a < t.len() implies 1 <= #[trigger] t[a].1.last_access
                <= self.access_counter by {
                let sa = if a == best as int {
                    n
                } else {
                    a
                };
                assert(t[a] == s[sa]);
            }
            assert(least_recent(old(self)@, k) && self@ == old(self)@.remove(k));
        }
    }

    /// The profile of `entity_hash`, for update in place, creating it at `timestamp_ns`
    /// when absent (after evicting the least recently accessed profile if the store is
    /// full); counts the access and makes it the entity's latest.
    pub fn get_or_create_profile(&mut self, entity_hash: u64, timestamp_ns: u64) -> (r:
        &mut BehavioralProfile)
        requires
            old(self).wf(),
            old(self).spec_access_counter() < u64::MAX,
        ensures
            final(self).wf(),
            final(self).spec_max_profiles() == old(self).spec_max_profiles(),
            final(self).spec_maturity_threshold() == old(self).spec_maturity_threshold(),
            final(self).spec_access_counter() == old(self).spec_access_counter() + 1,
            old(self)@.contains_key(entity_hash) ==> *r == old(self)@[entity_hash].profile,
            !old(self)@.contains_key(entity_hash) ==> is_new_profile(*r, entity_hash, timestamp_ns),
            (old(self)@.contains_key(entity_hash) || old(self)@.len() < old(
                self,
            ).spec_max_profiles()) ==> final(self)@ == old(self)@.insert(
                entity_hash,
                (ProfileSlot { profile: *final(r), last_access: final(self).spec_access_counter() }),
            ),
            (!old(self)@.contains_key(entity_hash) && old(self)@.len() >= old(
                self,
            ).spec_max_profiles()) ==> exists|k: u64|
                least_recent(old(self)@, k) && final(self)@ == old(self)@.remove(k).insert(
                    entity_hash,
                    (ProfileSlot {
                        profile: *final(r),
                        last_access: final(self).spec_access_counter(),
                    }),
                ),
    {
        let ghost m0 = self@;
        proof {
            lemma_slot_map_len(self.profiles@);
        }
        let now = self.access_counter + 1;
        match self.find_index(entity_hash) {
            Some(i) => {
                let ghost s0 = self.profiles@;
                self.access_counter = now;
                self.profiles[i].1.last_access = now;
                proof {
                    let s1 = self.profiles@;
                    assert forall|e: (u64, ProfileSlot)|
                        e.0 == entity_hash && e.1.last_access == now implies {
                        &&& access_times_ok(#[trigger] s1.update(i as int, e), now)
                        &&& slot_keys(s1.update(i as int, e)).no_duplicates()
                        &&& slot_map(s1.update(i as int, e)) == m0.insert(entity_hash, e.1)
                    } by {
                        assert(s1.update(i as int, e) =~= s0.update(i as int, e));
                        lemma_access_times_update(s0, (now - 1) as u64, i as int, e);
                        lemma_slot_map_update(s0, i as int, e);
                    }
                }
                &mut self.profiles[i].1.profile
            },
            None => {
                let ghost mut base = m0;
                if self.profiles.len() >= self.max_profiles {
                    self.evict_lru();
                    proof {
                        let k = choose|k: u64| least_recent(m0, k) && self@ == m0.remove(k);
                        base = m0.remove(k);
                    }
                }
                let ghost s0 = self.profiles@;
                proof {
                    lemma_slot_map_len(s0);
                    assert(slot_map(s0) == base);
                    if m0.len() >= self.max_profiles {
                        let k = choose|k: u64| least_recent(m0, k) && base == m0.remove(k);
                        assert(base.len() == m0.len() - 1);
                    }
                    assert(s0.len() < self.max_profiles);
                    assert(!slot_map(s0).contains_key(entity_hash));
                }
                let profile = BehavioralProfile::new(entity_hash, timestamp_ns);
                self.profiles.push((entity_hash, ProfileSlot { profile, last_access: now }));
                self.access_counter = now;
                let idx = self.profiles.len() - 1;
                proof {
                    let s1 = self.profiles@;
                    assert forall|e: (u64, ProfileSlot)|
                        e.0 == entity_hash && e.1.last_access == now implies {
                        &&& access_times_ok(#[trigger] s1.update(idx as int, e), now)
                        &&& slot_keys(s1.update(idx as int, e)).no_duplicates()
                        &&& slot_map(s1.update(idx as int, e)) == base.insert(entity_hash, e.1)
                    } by {
                        let t = s1.update(idx as int, e);
                        assert(t =~= s0.push(e));
                        lemma_slot_map_push(s0, e);
                        assert forall|a: int, b: int|
                            0 <= a < t.len() && 0 <= b < t.len() && a != b implies #[trigger] t[a].1.last_access
                            != #[trigger] t[b].1.last_access by {
                            if a != idx as int && b != idx as int {
                                assert(t[a] == s0[a] && t[b] == s0[b]);
                            } else if a == idx as int {
                                assert(t[b] == s0[b]);
                            } else {
                                assert(t[a] == s0[a]);
                            }
                        }
                        assert forall|a: int| 0 <= a < t.len() implies 1 <= #[trigger] t[a].1.last_access
                            <= now by {
                            if a != idx as int {
                                assert(t[a] == s0[a]);
                            }
                        }
                    }
                }
                &mut self.profiles[idx].1.profile
            },
        }
    }

    /// The profile of `entity_hash` if it is held and mature; counts the access, and
    /// makes it the entity's latest when the profile is returned.
    pub fn get_profile(&mut self, entity_hash: u64) -> (r: Option<&BehavioralProfile>)
        requires
            old(self).wf(),
            old(self).spec_access_counter() < u64::MAX,
        ensures
            final(self).wf(),
            final(self).spec_max_profiles() == old(self).spec_max_profiles(),
            final(self).spec_maturity_threshold() == old(self).spec_maturity_threshold(),
            final(self).spec_access_counter() == old(self).spec_access_counter() + 1,
            match r {
                Some(p) => old(self)@.contains_key(entity_hash)
                    && old(self)@[entity_hash].profile.is_mature && *p == old(
                    self,
                )@[entity_hash].profile,
                None => !(old(self)@.contains_key(entity_hash)
                    && old(self)@[entity_hash].profile.is_mature),
            },
            r is Some ==> final(self)@ == old(self)@.insert(
                entity_hash,
                (ProfileSlot {
                    profile: old(self)@[entity_hash].profile,
                    last_access: final(self).spec_access_counter(),
                }),
            ),
            r is None ==> final(self)@ == old(self)@,
    {
        let now = self.access_counter + 1;
        self.access_counter = now;
        match self.find_index(entity_hash) {
            Some(i) => {
                if self.profiles[i].1.profile.is_mature {
                    let ghost s0 = self.profiles@;
                    self.profiles[i].1.last_access = now;
                    proof {
                        let s1 = self.profiles@;
                        lemma_access_times_update(s0, (now - 1) as u64, i as int, s1[i as int]);
                        lemma_slot_map_update(s0, i as int, s1[i as int]);
                    }
                    Some(&self.profiles[i].1.profile)
                } else {
                    None
                }
            },
            None => None,
        }
    }

    /// The number of profiles held, how many of them are mature, and the accesses
    /// counted so far.
    pub fn get_stats(&self) -> (r: (usize, u64, u64))
        requires
            self.wf(),
        ensures
            r.0 == self@.len(),
            r.1 == mature_keys(self@).len(),
            r.2 == self.spec_access_counter(),
    {
        let mut mature: u64 = 0;
        let mut i: usize = 0;
        while i < self.profiles.len()
            invariant
                self.wf(),
                i <= self.profiles@.len(),
                mature == count_mature(self.profiles@.take(i as int)),
                mature <= i,
            decreases self.profiles@.len() - i,
        {
            proof {
                assert(self.profiles@.take(i + 1).drop_last() =~= self.profiles@.take(i as int));
            }
            if self.profiles[i].1.profile.is_mature {
                mature = mature + 1;
            }
            i += 1;
        }
        proof {
            assert(self.profiles@.take(i as int) =~= self.profiles@);
            lemma_count_mature(self.profiles@);
            lemma_slot_map_len(self.profiles@);
        }
        (self.profiles.len(), mature, self.access_counter)
    }

    /// The mature profiles held, as many as there are mature entities, in no particular
    /// order.
    pub fn get_mature_profiles(&self) -> (r: Vec<&BehavioralProfile>)
        requires
            self.wf(),
        ensures
            r@.len() == mature_keys(self@).len(),
            forall|i: int|
                0 <= i < r@.len() ==> is_mature_profile_in(self@, #[trigger] profiles_of(r@)[i]),
            forall|k: u64|
                #[trigger] self@.contains_key(k) && self@[k].profile.is_mature ==> exists|i: int|
                    0 <= i < r@.len() && profiles_of(r@)[i] == self@[k].profile,
    {
        let ghost s = self.profiles@;
        let ghost mut picked: Seq<int> = Seq::empty();
        let mut out: Vec<&BehavioralProfile> = Vec::new();
        let mut i: usize = 0;
        while i < self.profiles.len()
            invariant
                self.wf(),
                s == self.profiles@,
                i <= s.len(),
                out@.len() == picked.len(),
                out@.len() == count_mature(s.take(i as int)),
                forall|j: int|
                    0 <= j < picked.len() ==> 0 <= #[trigger] picked[j] < i && s[picked[j]].1.profile.is_mature
                        && profiles_of(out@)[j] == s[picked[j]].1.profile,
                forall|x: int|
                    0 <= x < i && #[trigger] s[x].1.profile.is_mature ==> picked.contains(x),
            decreases s.len() - i,
        {
            proof {
                assert(s.take(i + 1).drop_last() =~= s.take(i as int));
            }
            if self.profiles[i].1.profile.is_mature {
                let ghost vals = profiles_of(out@);
                out.push(&self.profiles[i].1.profile);
                proof {
                    assert(profiles_of(out@) =~= vals.push(s[i as int].1.profile));
                    let before = picked;
                    picked = picked.push(i as int);
                    assert(picked[before.len() as int] == i);
                    assert forall|x: int|
                        0 <= x < i + 1 && #[trigger] s[x].1.profile.is_mature implies picked.contains(x) by {
                        if x < i {
                            let j = choose|j: int| 0 <= j < before.len() && before[j] == x;
                            assert(picked[j] == x);
                        }
                    }
                }
            }
            i += 1;
        }
        proof {
            assert(s.take(i as int) =~= s);
            assert(self@ == slot_map(s));
            lemma_count_mature(s);
            lemma_mature_listing(s, profiles_of(out@), picked);
        }
        out
    }

    /// Removes every profile and restarts the access count.
    pub fn reset(&mut self)
        requires
            old(self).wf(),
        ensures
            final(self).wf(),
            final(self)@ == Map::<u64, ProfileSlot>::empty(),
            final(self).spec_access_counter() == 0,
            final(self).spec_max_profiles() == old(self).spec_max_profiles(),
            final(self).spec_maturity_threshold() == old(self).spec_maturity_threshold(),
    {
        self.profiles.clear();
        self.access_counter = 0;
        proof {
            assert(self@ =~= Map::<u64, ProfileSlot>::empty());
        }
    }
}

/// A store never holds more profiles than its capacity, which is between 10 and
/// 1,000,000; every access time is between 1 and the access count, and no two held
/// profiles share one.
pub proof fn lemma_store_bounded(store: &ProfileStore)
    requires
        store.wf(),
    ensures
        store@.len() <= store.spec_max_profiles(),
        10 <= store.spec_max_profiles() <= 1_000_000,
        forall|k: u64| #[trigger]
            store@.contains_key(k) ==> 1 <= store@[k].last_access
                <= store.spec_access_counter(),
        forall|a: u64, b: u64|
            store@.contains_key(a) && store@.contains_key(b) && a != b ==> #[trigger] store@[a].last_access
                != #[trigger] store@[b].last_access,
{
    let s = store.profiles@;
    lemma_slot_map_len(s);
    assert forall|k: u64| #[trigger] store@.contains_key(k) implies 1 <= store@[k].last_access
        <= store.spec_access_counter() by {
        lemma_slot_map_contains(s, k);
        let x = choose|x: int| 0 <= x < s.len() && s[x].0 == k;
        lemma_slot_map_index(s, x);
    }
    assert forall|a: u64, b: u64|
        store@.contains_key(a) && store@.contains_key(b) && a != b implies #[trigger] store@[a].last_access
        != #[trigger] store@[b].last_access by {
        lemma_slot_map_contains(s, a);
        lemma_slot_map_contains(s, b);
        let x = choose|x: int| 0 <= x < s.len() && s[x].0 == a;
        let y = choose|y: int| 0 <= y < s.len() && s[y].0 == b;
        lemma_slot_map_index(s, x);
        lemma_slot_map_index(s, y);
    }
}

/// The least recently accessed profile of a store is unique, so eviction has no
/// choice to make.
pub proof fn lemma_least_recent_unique(store: &ProfileStore, a: u64, b: u64)
    requires
        store.wf(),
        least_recent(store@, a),
        least_recent(store@, b),
    ensures
        a == b,
{
    lemma_store_bounded(store);
    assert(store@[a].last_access <= store@[b].last_access);
    assert(store@[b].last_access <= store@[a].last_access);
}

/// The fingerprint detector's state: the profile store (maturity threshold 30) and the
/// entity and time of the latest event, from which inter-arrival times are taken.
pub struct BehavioralFingerprintDetector {
    store: ProfileStore,
    last_timestamp: u64,
    last_entity: u64,
}

impl BehavioralFingerprintDetector {
    /// The profile store.
    pub closed spec fn spec_store(&self) -> &ProfileStore {
        &self.store
    }

    /// Time of the latest event (0 before any).
    pub closed spec fn spec_last_timestamp(&self) -> u64 {
        self.last_timestamp
    }

    /// Entity of the latest event (0 before any).
    pub closed spec fn spec_last_entity(&self) -> u64 {
        self.last_entity
    }

    /// A detector over a store of at most `max_profiles` profiles.
    pub fn new(max_profiles: usize) -> (r: Self)
        ensures
            r.spec_store().wf(),
            r.spec_store()@ == Map::<u64, ProfileSlot>::empty(),
            r.spec_store().spec_max_profiles() == store_capacity(max_profiles),
            r.spec_store().spec_access_counter() == 0,
            r.spec_store().spec_maturity_threshold() == 30,
            r.spec_last_timestamp() == 0,
            r.spec_last_entity() == 0,
    {
        BehavioralFingerprintDetector {
            store: ProfileStore::new(max_profiles, 30),
            last_timestamp: 0,
            last_entity: 0,
        }
    }

    /// Records an event of `entity_hash` at `timestamp_ns` and returns the nanoseconds
    /// since the previous event when that was of the same entity at a nonzero time
    /// (0 if the clock went back); `None` otherwise, for which the detector assumes one
    /// second.
    pub fn arrival_gap(&mut self, entity_hash: u64, timestamp_ns: u64) -> (r: Option<u64>)
        ensures
            r == if old(self).spec_last_entity() == entity_hash && old(self).spec_last_timestamp() > 0 {
                Some(
                    if timestamp_ns >= old(self).spec_last_timestamp() {
                        (timestamp_ns - old(self).spec_last_timestamp()) as u64
                    } else {
                        0u64
                    },
                )
            } else {
                None
            },
            final(self).spec_last_timestamp() == timestamp_ns,
            final(self).spec_last_entity() == entity_hash,
            final(self).spec_store() == old(self).spec_store(),
    {
        let gap = if self.last_entity == entity_hash && self.last_timestamp > 0 {
            Some(timestamp_ns.saturating_sub(self.last_timestamp))
        } else {
            None
        };
        self.last_timestamp = timestamp_ns;
        self.last_entity = entity_hash;
        gap
    }

    /// The place hash the detector records for an entity: the entity hash times 31,
    /// wrapping.
    pub fn geo_hash_of(entity_hash: u64) -> (r: u64)
        ensures
            r == (entity_hash * 31) % 0x1_0000_0000_0000_0000,
    {
        let r = entity_hash.wrapping_mul(31);
        proof {
            assert(r == (entity_hash * 31) % 0x1_0000_0000_0000_0000);
        }
        r
    }

    /// The store's statistics (see `ProfileStore::get_stats`).
    pub fn get_stats(&self) -> (r: (usize, u64, u64))
        requires
            self.spec_store().wf(),
        ensures
            r.0 == self.spec_store()@.len(),
            r.1 == mature_keys(self.spec_store()@).len(),
            r.2 == self.spec_store().spec_access_counter(),
    {
        self.store.get_stats()
    }

    /// Empties the store and forgets the latest event.
    pub fn reset(&mut self)
        requires
            old(self).spec_store().wf(),
        ensures
            final(self).spec_store().wf(),
            final(self).spec_store()@ == Map::<u64, ProfileSlot>::empty(),
            final(self).spec_store().spec_access_counter() == 0,
            final(self).spec_store().spec_max_profiles() == old(self).spec_store().spec_max_profiles(),
            final(self).spec_store().spec_maturity_threshold() == old(
                self,
            ).spec_store().spec_maturity_threshold(),
            final(self).spec_last_timestamp() == 0,
            final(self).spec_last_entity() == 0,
    {
        self.store.reset();
        self.last_timestamp = 0;
        self.last_entity = 0;
    }
}

} // verus!

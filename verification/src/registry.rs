//! Memory-bounded profile registry with ranked eviction.
//!
//! Profiles are keyed by a 64-bit entity hash. The registry never holds more
//! profiles than its configured capacity: inserting a new key into a full
//! registry first evicts a profile. Among the profiles with enough events to be
//! evicted, the one that the caller's ranking puts lowest goes; when no profile has
//! enough events, the least recently accessed one goes. The detector ranks by its
//! floating-point eviction score (events, priority and age), computed outside this
//! crate.

use vstd::prelude::*;

use crate::clock::unix_time_nanos;

verus! {

broadcast use vstd::seq_lib::group_seq_properties;

/// Configuration for the profile registry.
#[derive(Debug, Clone)]
pub struct RegistryConfig {
    /// Maximum number of profiles to keep.
    pub max_profiles: usize,
    /// Minimum events before a profile is preferred for eviction.
    pub min_events_for_eviction: u64,
    /// Whether access order is tracked.
    pub enable_lru: bool,
}

impl Default for RegistryConfig {
    fn default() -> (r: Self)
        ensures
            r.max_profiles == 100_000,
            r.min_events_for_eviction == 10,
            r.enable_lru,
    {
        RegistryConfig { max_profiles: 100_000, min_events_for_eviction: 10, enable_lru: true }
    }
}

/// Metadata for a profile entry. Times are clock readings in nanoseconds since
/// the Unix epoch.
#[derive(Debug, Clone, Copy)]
pub struct ProfileMeta {
    /// When this profile was last accessed.
    pub last_access: u64,
    /// Total events processed.
    pub event_count: u64,
    /// Priority level (higher = less likely to evict).
    pub priority: u8,
    /// Creation time.
    pub created_at: u64,
}

impl Default for ProfileMeta {
    fn default() -> (r: Self)
        ensures
            r.event_count == 0,
            r.priority == 0,
    {
        let last_access = unix_time_nanos();
        let created_at = unix_time_nanos();
        ProfileMeta { last_access, event_count: 0, priority: 0, created_at }
    }
}

/// What `touch` makes of a profile's metadata when the clock reads `now`.
pub open spec fn touched(m: ProfileMeta, now: u64) -> ProfileMeta {
    ProfileMeta { last_access: now, event_count: (m.event_count + 1) as u64, ..m }
}

impl ProfileMeta {
    /// Records one access: bumps the event count and stamps the access time with the
    /// clock reading, keeping the earlier stamp if the clock reads earlier, so that
    /// access times never go backwards.
    pub fn touch(&mut self)
        requires
            old(self).event_count < u64::MAX,
        ensures
            *final(self) == touched(*old(self), final(self).last_access),
            final(self).last_access >= old(self).last_access,
    {
        let now = unix_time_nanos();
        if now > self.last_access {
            self.last_access = now;
        }
        self.event_count = self.event_count + 1;
    }

    /// The same metadata with another priority.
    pub fn with_priority(self, priority: u8) -> (r: Self)
        ensures
            r == (ProfileMeta { priority, ..self }),
    {
        let mut m = self;
        m.priority = priority;
        m
    }
}

/// Profile entry combining the profile and its metadata.
#[derive(Debug)]
pub struct ProfileEntry<P> {
    pub profile: P,
    pub meta: ProfileMeta,
}

impl<P> ProfileEntry<P> {
    /// A fresh entry: no events, priority 0, both times stamped now.
    pub fn new(profile: P) -> (r: Self)
        ensures
            r.profile == profile,
            r.meta.event_count == 0,
            r.meta.priority == 0,
    {
        ProfileEntry { profile, meta: ProfileMeta::default() }
    }

    /// The same entry with another priority.
    pub fn with_priority(self, priority: u8) -> (r: Self)
        ensures
            r.profile == self.profile,
            r.meta == (ProfileMeta { priority, ..self.meta }),
    {
        let mut e = self;
        e.meta.priority = priority;
        e
    }
}

/// Statistics about the registry.
#[derive(Debug, Clone, Default)]
pub struct RegistryStats {
    pub total_profiles: usize,
    pub total_evictions: u64,
    pub total_creations: u64,
    pub total_accesses: u64,
    pub capacity: usize,
}

/// Memory-bounded profile registry with score-based eviction.
pub struct ProfileRegistry<P> {
    /// Storage: each key occurs once.
    profiles: Vec<(u64, ProfileEntry<P>)>,
    config: RegistryConfig,
    stats: RegistryStats,
    /// Insertion order of keys, used as a circular buffer once full.
    access_order: Vec<u64>,
    access_head: usize,
}

/// The keys of a storage sequence, in storage order.
pub open spec fn keys_of<P>(s: Seq<(u64, ProfileEntry<P>)>) -> Seq<u64> {
    s.map_values(|e: (u64, ProfileEntry<P>)| e.0)
}

/// The map that a storage sequence with distinct keys stands for.
pub open spec fn map_of<P>(s: Seq<(u64, ProfileEntry<P>)>) -> Map<u64, ProfileEntry<P>> {
    Map::new(|k: u64| keys_of(s).contains(k), |k: u64| s[keys_of(s).index_of(k)].1)
}

/// Whether `k` may be chosen for eviction from `m` when each profile with at least
/// `min_events` events has rank `key` (lower goes first): when some profile has that
/// many events, `k` is such a profile and no such profile ranks lower; otherwise `k`
/// has the oldest access time.
pub open spec fn is_eviction_candidate<P>(
    m: Map<u64, ProfileEntry<P>>,
    k: u64,
    min_events: u64,
    key: spec_fn(u64) -> u64,
) -> bool {
    &&& m.contains_key(k)
    &&& if exists|j: u64| #[trigger] m.contains_key(j) && m[j].meta.event_count >= min_events {
        &&& m[k].meta.event_count >= min_events
        &&& forall|j: u64| #[trigger]
            m.contains_key(j) && m[j].meta.event_count >= min_events ==> key(k) <= key(j)
    } else {
        forall|j: u64| #[trigger] m.contains_key(j) ==> m[k].meta.last_access <= m[j].meta.last_access
    }
}

/// Whether `key` gives every profile of `m` with at least `min_events` events a rank
/// that `rank` returns for its metadata.
pub open spec fn ranked_by<P, R: Fn(&ProfileMeta) -> u64>(
    m: Map<u64, ProfileEntry<P>>,
    min_events: u64,
    rank: R,
    key: spec_fn(u64) -> u64,
) -> bool {
    forall|j: u64| #[trigger]
        m.contains_key(j) && m[j].meta.event_count >= min_events ==> call_ensures(
            rank,
            (&m[j].meta,),
            key(j),
        )
}

/// Whether `k` is an eviction candidate of `m` under ranks that `rank` returns.
pub open spec fn evictable<P, R: Fn(&ProfileMeta) -> u64>(
    m: Map<u64, ProfileEntry<P>>,
    k: u64,
    min_events: u64,
    rank: R,
) -> bool {
    exists|key: spec_fn(u64) -> u64|
        ranked_by(m, min_events, rank, key) && #[trigger] is_eviction_candidate(
            m,
            k,
            min_events,
            key,
        )
}

/// Whether `rank` can be called on every metadata.
pub open spec fn rank_total<R: Fn(&ProfileMeta) -> u64>(rank: R) -> bool {
    forall|m: &ProfileMeta| #[trigger] call_requires(rank, (m,))
}

proof fn lemma_keys_index_of<P>(s: Seq<(u64, ProfileEntry<P>)>, i: int)
    requires
        keys_of(s).no_duplicates(),
        0 <= i < s.len(),
    ensures
        keys_of(s).index_of(s[i].0) == i,
{
    let ks = keys_of(s);
    assert(ks[i] == s[i].0);
    assert(ks.contains(s[i].0));
    let j = ks.index_of(s[i].0);
    assert(ks[j] == s[i].0);
}

proof fn lemma_map_of_index<P>(s: Seq<(u64, ProfileEntry<P>)>, i: int)
    requires
        keys_of(s).no_duplicates(),
        0 <= i < s.len(),
    ensures
        map_of(s).contains_key(s[i].0),
        map_of(s)[s[i].0] == s[i].1,
{
    let ks = keys_of(s);
    assert(ks[i] == s[i].0);
    assert(ks.contains(s[i].0));
    let j = ks.index_of(s[i].0);
    assert(ks[j] == s[i].0);
}

proof fn lemma_map_of_contains<P>(s: Seq<(u64, ProfileEntry<P>)>, k: u64)
    ensures
        map_of(s).contains_key(k) <==> exists|i: int| 0 <= i < s.len() && s[i].0 == k,
{
    let ks = keys_of(s);
    if map_of(s).contains_key(k) {
        let i = choose|i: int| 0 <= i < ks.len() && ks[i] == k;
        assert(s[i].0 == k);
    }
    if exists|i: int| 0 <= i < s.len() && s[i].0 == k {
        let i = choose|i: int| 0 <= i < s.len() && s[i].0 == k;
        assert(ks[i] == k);
    }
}

proof fn lemma_map_of_len<P>(s: Seq<(u64, ProfileEntry<P>)>)
    requires
        keys_of(s).no_duplicates(),
    ensures
        map_of(s).dom().finite(),
        map_of(s).len() == s.len(),
{
    let ks = keys_of(s);
    assert(map_of(s).dom() =~= ks.to_set());
    ks.unique_seq_to_set();
}

proof fn lemma_map_of_empty<P>(s: Seq<(u64, ProfileEntry<P>)>)
    requires
        s.len() == 0,
    ensures
        map_of(s) =~= Map::<u64, ProfileEntry<P>>::empty(),
{
}

proof fn lemma_map_of_update<P>(s: Seq<(u64, ProfileEntry<P>)>, i: int, e: (u64, ProfileEntry<P>))
    requires
        keys_of(s).no_duplicates(),
        0 <= i < s.len(),
        s[i].0 == e.0,
    ensures
        keys_of(s.update(i, e)) == keys_of(s),
        map_of(s.update(i, e)) =~= map_of(s).insert(e.0, e.1),
{
    let t = s.update(i, e);
    assert(keys_of(t) =~= keys_of(s));
    lemma_map_of_index(t, i);
    assert forall|k: u64| #[trigger] map_of(t).contains_key(k) <==> map_of(s).insert(
        e.0,
        e.1,
    ).contains_key(k) by {
        lemma_map_of_contains(t, k);
        lemma_map_of_contains(s, k);
    }
    assert forall|k: u64| map_of(t).contains_key(k) && k != e.0 implies #[trigger] map_of(t)[k]
        == map_of(s)[k] by {
        lemma_map_of_contains(t, k);
        let j = choose|j: int| 0 <= j < t.len() && t[j].0 == k;
        lemma_map_of_index(t, j);
        lemma_map_of_index(s, j);
    }
}

proof fn lemma_map_of_push<P>(s: Seq<(u64, ProfileEntry<P>)>, e: (u64, ProfileEntry<P>))
    requires
        keys_of(s).no_duplicates(),
        !map_of(s).contains_key(e.0),
    ensures
        keys_of(s.push(e)).no_duplicates(),
        map_of(s.push(e)) =~= map_of(s).insert(e.0, e.1),
{
    let t = s.push(e);
    assert(keys_of(t) =~= keys_of(s).push(e.0));
    lemma_map_of_contains(s, e.0);
    assert forall|a: int, b: int|
        0 <= a < keys_of(t).len() && 0 <= b < keys_of(t).len() && a != b implies keys_of(t)[a]
        != keys_of(t)[b] by {
        if a == s.len() as int {
            assert(s[b].0 != e.0);
        } else if b == s.len() as int {
            assert(s[a].0 != e.0);
        }
    }
    lemma_map_of_index(t, s.len() as int);
    assert forall|k: u64| #[trigger] map_of(t).contains_key(k) <==> map_of(s).insert(
        e.0,
        e.1,
    ).contains_key(k) by {
        lemma_map_of_contains(t, k);
        lemma_map_of_contains(s, k);
        if map_of(s).contains_key(k) {
            let j = choose|j: int| 0 <= j < s.len() && s[j].0 == k;
            assert(t[j].0 == k);
        }
    }
    assert forall|k: u64| map_of(t).contains_key(k) && k != e.0 implies #[trigger] map_of(t)[k]
        == map_of(s)[k] by {
        lemma_map_of_contains(t, k);
        let j = choose|j: int| 0 <= j < t.len() && t[j].0 == k;
        lemma_map_of_index(t, j);
        lemma_map_of_index(s, j);
    }
}

proof fn lemma_map_of_swap_remove<P>(s: Seq<(u64, ProfileEntry<P>)>, i: int)
    requires
        keys_of(s).no_duplicates(),
        0 <= i < s.len(),
    ensures
        keys_of(s.update(i, s.last()).drop_last()).no_duplicates(),
        map_of(s.update(i, s.last()).drop_last()) =~= map_of(s).remove(s[i].0),
{
    let t = s.update(i, s.last()).drop_last();
    let n = s.len() - 1;
    assert forall|a: int, b: int|
        0 <= a < keys_of(t).len() && 0 <= b < keys_of(t).len() && a != b implies keys_of(t)[a]
        != keys_of(t)[b] by {
        let sa = if a == i { n } else { a };
        let sb = if b == i { n } else { b };
        assert(keys_of(t)[a] == keys_of(s)[sa]);
        assert(keys_of(t)[b] == keys_of(s)[sb]);
    }
    assert forall|k: u64| #[trigger] map_of(t).contains_key(k) <==> map_of(s).remove(
        s[i].0,
    ).contains_key(k) by {
        lemma_map_of_contains(t, k);
        lemma_map_of_contains(s, k);
        if map_of(t).contains_key(k) {
            let j = choose|j: int| 0 <= j < t.len() && t[j].0 == k;
            let sj = if j == i { n } else { j };
            assert(s[sj].0 == k);
            assert(keys_of(s)[sj] == k && keys_of(s)[i] == s[i].0);
        }
        if map_of(s).remove(s[i].0).contains_key(k) {
            let j = choose|j: int| 0 <= j < s.len() && s[j].0 == k;
            assert(j != i);
            if j == n {
                assert(t[i].0 == k);
            } else {
                assert(t[j].0 == k);
            }
        }
    }
    assert forall|k: u64| #[trigger] map_of(t).contains_key(k) implies map_of(t)[k] == map_of(
        s,
    )[k] by {
        lemma_map_of_contains(t, k);
        let j = choose|j: int| 0 <= j < t.len() && t[j].0 == k;
        lemma_map_of_index(t, j);
        let sj = if j == i { n } else { j };
        lemma_map_of_index(s, sj);
    }
}

impl<P> View for ProfileRegistry<P> {
    type V = Map<u64, ProfileEntry<P>>;

    closed spec fn view(&self) -> Map<u64, ProfileEntry<P>> {
        map_of(self.profiles@)
    }
}

impl<P> ProfileRegistry<P> {
    /// The registry's configuration.
    pub closed spec fn spec_config(&self) -> RegistryConfig {
        self.config
    }

    /// The registry's counters.
    pub closed spec fn spec_stats(&self) -> RegistryStats {
        self.stats
    }

    /// Well-formedness: keys are distinct, the profile count and the access-order
    /// buffer stay within capacity, and the buffer head points into the buffer.
    pub closed spec fn wf(&self) -> bool {
        &&& keys_of(self.profiles@).no_duplicates()
        &&& self.profiles@.len() <= self.config.max_profiles
        &&& self.access_order@.len() <= self.config.max_profiles
        &&& (self.access_head == 0 || self.access_head < self.access_order@.len())
        &&& self.stats.capacity == self.config.max_profiles
    }

    /// Index of `hash` in storage, if present.
    fn find_index(&self, hash: u64) -> (r: Option<usize>)
        requires
            self.wf(),
        ensures
            match r {
                Some(i) => i < self.profiles@.len() && self.profiles@[i as int].0 == hash
                    && self@.contains_key(hash) && self@[hash] == self.profiles@[i as int].1,
                None => !self@.contains_key(hash),
            },
    {
        let mut i: usize = 0;
        while i < self.profiles.len()
            invariant
                self.wf(),
                i <= self.profiles@.len(),
                forall|j: int| 0 <= j < i ==> self.profiles@[j].0 != hash,
            decreases self.profiles@.len() - i,
        {
            if self.profiles[i].0 == hash {
                proof {
                    lemma_map_of_index(self.profiles@, i as int);
                }
                return Some(i);
            }
            i += 1;
        }
        proof {
            lemma_map_of_contains(self.profiles@, hash);
        }
        None
    }
    /// Storage index of an eviction candidate under the ranks `rank` returns, ranking
    /// each profile with enough events once, in storage order.
    fn candidate_index<R: Fn(&ProfileMeta) -> u64>(&self, rank: &R) -> (r: Option<usize>)
        requires
            self.wf(),
            rank_total(*rank),
        ensures
            match r {
                None => self@.len() == 0,
                Some(i) => i < self.profiles@.len() && evictable(
                    self@,
                    self.profiles@[i as int].0,
                    self.config.min_events_for_eviction,
                    *rank,
                ) && self@[self.profiles@[i as int].0] == self.profiles@[i as int].1,
            },
    {
        let n = self.profiles.len();
        let min_events = self.config.min_events_for_eviction;
        let ghost s = self.profiles@;
        let ghost mut ks: Seq<u64> = Seq::empty();
        let mut best: Option<usize> = None;
        let mut best_key: u64 = 0;
        let mut i: usize = 0;
        while i < n
            invariant
                self.wf(),
                s == self.profiles@,
                n == s.len(),
                min_events == self.config.min_events_for_eviction,
                rank_total(*rank),
                i <= n,
                ks.len() == i,
                forall|j: int|
                    0 <= j < i && s[j].1.meta.event_count >= min_events ==> call_ensures(
                        *rank,
                        (&s[j].1.meta,),
                        #[trigger] ks[j],
                    ),
                match best {
                    None => forall|j: int|
                        0 <= j < i ==> #[trigger] s[j].1.meta.event_count < min_events,
                    Some(b) => b < i && s[b as int].1.meta.event_count >= min_events && ks[b as int]
                        == best_key && forall|j: int|
                        0 <= j < i && #[trigger] s[j].1.meta.event_count >= min_events
                            ==> best_key <= ks[j],
                },
            decreases n - i,
        {
            let m = &self.profiles[i].1.meta;
            if m.event_count >= min_events {
                let k = rank(m);
                proof {
                    ks = ks.push(k);
                }
                match best {
                    None => {
                        best = Some(i);
                        best_key = k;
                    },
                    Some(b) => {
                        if k < best_key {
                            best = Some(i);
                            best_key = k;
                        }
                    },
                }
            } else {
                proof {
                    ks = ks.push(0u64);
                }
            }
            i += 1;
        }
        let ghost mp = self@;
        let ghost key = |h: u64| ks[keys_of(s).index_of(h)];
        match best {
            Some(b) => {
                proof {
                    lemma_map_of_index(s, b as int);
                    lemma_keys_index_of(s, b as int);
                    assert forall|h: u64| #[trigger]
                        mp.contains_key(h) && mp[h].meta.event_count >= min_events implies call_ensures(
                        *rank,
                        (&mp[h].meta,),
                        key(h),
                    ) && key(s[b as int].0) <= key(h) by {
                        lemma_map_of_contains(s, h);
                        let j = choose|j: int| 0 <= j < s.len() && s[j].0 == h;
                        lemma_map_of_index(s, j);
                        lemma_keys_index_of(s, j);
                        assert(s[j].1.meta.event_count >= min_events);
                        assert(key(h) == ks[j]);
                    }
                    assert(ranked_by(mp, min_events, *rank, key));
                    assert(is_eviction_candidate(mp, s[b as int].0, min_events, key));
                }
                Some(b)
            },
            None => {
                if n == 0 {
                    proof {
                        lemma_map_of_len(s);
                    }
                    return None;
                }
                let mut o: usize = 0;
                let mut j: usize = 1;
                while j < n
                    invariant
                        self.wf(),
                        s == self.profiles@,
                        n == s.len(),
                        o < j <= n,
                        forall|k: int|
                            0 <= k < j ==> s[o as int].1.meta.last_access
                                <= #[trigger] s[k].1.meta.last_access,
                    decreases n - j,
                {
                    if self.profiles[j].1.meta.last_access < self.profiles[o].1.meta.last_access {
                        o = j;
                    }
                    j += 1;
                }
                proof {
                    lemma_map_of_index(s, o as int);
                    assert forall|k: u64| #[trigger] mp.contains_key(k) implies mp[k].meta.event_count
                        < min_events && mp[s[o as int].0].meta.last_access
                        <= mp[k].meta.last_access by {
                        lemma_map_of_contains(s, k);
                        let jj = choose|jj: int| 0 <= jj < s.len() && s[jj].0 == k;
                        lemma_map_of_index(s, jj);
                        assert(s[jj].1.meta.event_count < min_events);
                    }
                    assert(ranked_by(mp, min_events, *rank, key));
                    assert(is_eviction_candidate(mp, s[o as int].0, min_events, key));
                }
                Some(o)
            },
        }
    }

    /// Chooses the profile to evict (see `is_eviction_candidate`), ranking each profile
    /// with enough events by `rank`: `None` exactly when the registry is empty.
    pub fn find_eviction_candidate<R: Fn(&ProfileMeta) -> u64>(&self, rank: &R) -> (r: Option<
        u64,
    >)
        requires
            self.wf(),
            rank_total(*rank),
        ensures
            match r {
                None => self@.len() == 0,
                Some(k) => evictable(self@, k, self.spec_config().min_events_for_eviction, *rank),
            },
    {
        match self.candidate_index(rank) {
            Some(i) => Some(self.profiles[i].0),
            None => None,
        }
    }

    /// Records `hash` in the access-order buffer: appended while the buffer is short
    /// of capacity, written over the oldest slot once it is full.
    fn track_access(&mut self, hash: u64)
        requires
            old(self).wf(),
            old(self).config.max_profiles > 0,
        ensures
            final(self).wf(),
            final(self).profiles == old(self).profiles,
            final(self).config == old(self).config,
            final(self).stats == old(self).stats,
            old(self).access_order@.len() < old(self).config.max_profiles ==> {
                &&& final(self).access_order@ == old(self).access_order@.push(hash)
                &&& final(self).access_head == old(self).access_head
            },
            old(self).access_order@.len() >= old(self).config.max_profiles ==> {
                &&& final(self).access_order@ == old(self).access_order@.update(
                    old(self).access_head as int,
                    hash,
                )
                &&& final(self).access_head == (old(self).access_head + 1) % old(
                    self,
                ).access_order@.len() as int
            },
    {
        if self.access_order.len() < self.config.max_profiles {
            self.access_order.push(hash);
        } else {
            let head = self.access_head;
            self.access_order.set(head, hash);
            self.access_head = (head + 1) % self.access_order.len();
        }
    }

    /// Creates a registry with the default configuration.
    pub fn new() -> (r: Self)
        ensures
            r.wf(),
            r@ == Map::<u64, ProfileEntry<P>>::empty(),
            r.spec_config().max_profiles == 100_000,
            r.spec_config().min_events_for_eviction == 10,
            r.spec_config().enable_lru,
            r.spec_stats() == (RegistryStats {
                total_profiles: 0,
                total_evictions: 0,
                total_creations: 0,
                total_accesses: 0,
                capacity: 100_000,
            }),
    {
        Self::with_config(RegistryConfig::default())
    }

    /// Creates an empty registry with the given configuration.
    pub fn with_config(config: RegistryConfig) -> (r: Self)
        ensures
            r.wf(),
            r@ == Map::<u64, ProfileEntry<P>>::empty(),
            r.spec_config() == config,
            r.spec_stats() == (RegistryStats {
                total_profiles: 0,
                total_evictions: 0,
                total_creations: 0,
                total_accesses: 0,
                capacity: config.max_profiles,
            }),
    {
        let capacity = config.max_profiles;
        let r = ProfileRegistry {
            profiles: Vec::with_capacity(capacity),
            stats: RegistryStats {
                total_profiles: 0,
                total_evictions: 0,
                total_creations: 0,
                total_accesses: 0,
                capacity,
            },
            config,
            access_order: Vec::with_capacity(capacity),
            access_head: 0,
        };
        proof {
            lemma_map_of_empty(r.profiles@);
        }
        r
    }

    /// Number of profiles held.
    pub fn len(&self) -> (r: usize)
        requires
            self.wf(),
        ensures
            r == self@.len(),
    {
        proof {
            lemma_map_of_len(self.profiles@);
        }
        self.profiles.len()
    }

    /// Whether no profile is held.
    pub fn is_empty(&self) -> (r: bool)
        requires
            self.wf(),
        ensures
            r == (self@.len() == 0),
    {
        proof {
            lemma_map_of_len(self.profiles@);
        }
        self.profiles.len() == 0
    }

    /// The registry's counters.
    pub fn stats(&self) -> (r: &RegistryStats)
        ensures
            *r == self.spec_stats(),
    {
        &self.stats
    }

    /// Whether the registry holds as many profiles as its capacity.
    pub fn is_full(&self) -> (r: bool)
        requires
            self.wf(),
        ensures
            r == (self@.len() >= self.spec_config().max_profiles),
    {
        proof {
            lemma_map_of_len(self.profiles@);
        }
        self.profiles.len() >= self.config.max_profiles
    }

    /// Whether a profile is held under `hash`.
    pub fn contains(&self, hash: u64) -> (r: bool)
        requires
            self.wf(),
        ensures
            r == self@.contains_key(hash),
    {
        self.find_index(hash).is_some()
    }

    /// The profile held under `hash`, touching its metadata (one more event, access
    /// time now) and counting the access.
    pub fn get(&mut self, hash: u64) -> (r: Option<&P>)
        requires
            old(self).wf(),
            old(self)@.contains_key(hash) ==> old(self)@[hash].meta.event_count < u64::MAX
                && old(self).spec_stats().total_accesses < u64::MAX,
        ensures
            final(self).wf(),
            final(self).spec_config() == old(self).spec_config(),
            match r {
                Some(p) => old(self)@.contains_key(hash) && *p == old(self)@[hash].profile,
                None => !old(self)@.contains_key(hash),
            },
            old(self)@.contains_key(hash) ==> {
                &&& final(self)@ == old(self)@.insert(
                    hash,
                    ProfileEntry {
                        profile: old(self)@[hash].profile,
                        meta: touched(old(self)@[hash].meta, final(self)@[hash].meta.last_access),
                    },
                )
                &&& final(self)@[hash].meta.last_access >= old(self)@[hash].meta.last_access
                &&& final(self).spec_stats() == (RegistryStats {
                    total_accesses: (old(self).spec_stats().total_accesses + 1) as u64,
                    ..old(self).spec_stats()
                })
            },
            !old(self)@.contains_key(hash) ==> final(self)@ == old(self)@
                && final(self).spec_stats() == old(self).spec_stats(),
    {
        match self.find_index(hash) {
            Some(i) => {
                let ghost s0 = self.profiles@;
                self.profiles[i].1.meta.touch();
                self.stats.total_accesses = self.stats.total_accesses + 1;
                proof {
                    lemma_map_of_update(s0, i as int, self.profiles@[i as int]);
                }
                Some(&self.profiles[i].1.profile)
            },
            None => None,
        }
    }
    /// The profile held under `hash`, for update in place, touching its metadata and
    /// counting the access.
    pub fn get_mut(&mut self, hash: u64) -> (r: Option<&mut P>)
        requires
            old(self).wf(),
            old(self)@.contains_key(hash) ==> old(self)@[hash].meta.event_count < u64::MAX
                && old(self).spec_stats().total_accesses < u64::MAX,
        ensures
            final(self).wf(),
            final(self).spec_config() == old(self).spec_config(),
            r is Some <==> old(self)@.contains_key(hash),
            r matches Some(p) ==> *p == old(self)@[hash].profile,
            r matches Some(p) ==> final(self)@ =~= old(self)@.insert(
                hash,
                ProfileEntry {
                    profile: *final(p),
                    meta: touched(old(self)@[hash].meta, final(self)@[hash].meta.last_access),
                },
            ),
            r is Some ==> final(self)@[hash].meta.last_access >= old(
                self,
            )@[hash].meta.last_access,
            r is Some ==> final(self).spec_stats() == (RegistryStats {
                total_accesses: (old(self).spec_stats().total_accesses + 1) as u64,
                ..old(self).spec_stats()
            }),
            r is None ==> final(self)@ == old(self)@ && final(self).spec_stats() == old(
                self,
            ).spec_stats(),
    {
        match self.find_index(hash) {
            Some(i) => {
                let ghost s0 = self.profiles@;
                self.profiles[i].1.meta.touch();
                self.stats.total_accesses = self.stats.total_accesses + 1;
                proof {
                    let s1 = self.profiles@;
                    lemma_map_of_update(s0, i as int, s1[i as int]);
                    assert forall|e: (u64, ProfileEntry<P>)| e.0 == hash implies #[trigger] keys_of(
                        s1.update(i as int, e),
                    ).no_duplicates() by {
                        lemma_map_of_update(s1, i as int, e);
                    }
                    assert forall|e: (u64, ProfileEntry<P>)| e.0 == hash implies #[trigger] map_of(
                        s1.update(i as int, e),
                    ) == map_of(s1).insert(hash, e.1) by {
                        lemma_map_of_update(s1, i as int, e);
                    }
                }
                Some(&mut self.profiles[i].1.profile)
            },
            None => None,
        }
    }

    /// Evicts the profile chosen by `find_eviction_candidate` under `rank`, returning it
    /// with its key; `None` when the registry is empty.
    fn evict_one<R: Fn(&ProfileMeta) -> u64>(&mut self, rank: &R) -> (r: Option<(u64, P)>)
        requires
            old(self).wf(),
            rank_total(*rank),
            old(self)@.len() > 0 ==> old(self).stats.total_evictions < u64::MAX,
        ensures
            final(self).wf(),
            final(self).config == old(self).config,
            final(self).access_order == old(self).access_order,
            final(self).access_head == old(self).access_head,
            r is None <==> old(self)@.len() == 0,
            r is None ==> final(self)@ == old(self)@ && final(self).stats == old(self).stats,
            r matches Some((k, p)) ==> old(self)@.contains_key(k) && old(self)@[k].profile == p,
            r matches Some((k, p)) ==> evictable(
                old(self)@,
                k,
                old(self).config.min_events_for_eviction,
                *rank,
            ),
            r matches Some((k, p)) ==> final(self)@ =~= old(self)@.remove(k),
            r is Some ==> final(self).stats == (RegistryStats {
                total_evictions: (old(self).stats.total_evictions + 1) as u64,
                ..old(self).stats
            }),
    {
        match self.candidate_index(rank) {
            None => None,
            Some(i) => {
                let ghost s0 = self.profiles@;
                proof {
                    lemma_map_of_len(s0);
                    lemma_map_of_swap_remove(s0, i as int);
                }
                let ghost m0 = self@;
                let ghost min_events = self.config.min_events_for_eviction;
                let (k, e) = self.profiles.swap_remove(i);
                proof {
                    assert(evictable(m0, k, min_events, *rank));
                }
                self.stats.total_evictions = self.stats.total_evictions + 1;
                Some((k, e.profile))
            },
        }
    }

    /// Puts `entry` under `hash`, replacing any entry already there.
    fn put_entry(&mut self, hash: u64, entry: ProfileEntry<P>) -> (idx: usize)
        requires
            old(self).wf(),
            old(self)@.contains_key(hash) || old(self)@.len() < old(self).config.max_profiles,
        ensures
            final(self).wf(),
            final(self).config == old(self).config,
            final(self).stats == old(self).stats,
            final(self).access_order == old(self).access_order,
            final(self).access_head == old(self).access_head,
            final(self)@ == old(self)@.insert(hash, entry),
            idx < final(self).profiles@.len(),
            final(self).profiles@[idx as int] == (hash, entry),
    {
        let ghost s0 = self.profiles@;
        proof {
            lemma_map_of_len(s0);
        }
        match self.find_index(hash) {
            Some(i) => {
                proof {
                    lemma_map_of_update(s0, i as int, (hash, entry));
                }
                self.profiles.set(i, (hash, entry));
                i
            },
            None => {
                proof {
                    lemma_map_of_push(s0, (hash, entry));
                }
                self.profiles.push((hash, entry));
                self.profiles.len() - 1
            },
        }
    }

    /// Inserts a profile with priority 0 (see `insert_with_priority`).
    pub fn insert<R: Fn(&ProfileMeta) -> u64>(&mut self, hash: u64, profile: P, rank: &R) -> (r:
        Option<(u64, P)>)
        requires
            old(self).wf(),
            rank_total(*rank),
            old(self).spec_config().max_profiles > 0,
            old(self).spec_stats().total_creations < u64::MAX,
            old(self)@.len() >= old(self).spec_config().max_profiles && !old(self)@.contains_key(
                hash,
            ) ==> old(self).spec_stats().total_evictions < u64::MAX,
        ensures
            final(self).wf(),
            final(self).spec_config() == old(self).spec_config(),
            inserted(old(self)@, final(self)@, hash, profile, 0, r),
            counted_insert(old(self).spec_stats(), final(self).spec_stats(), r is Some),
            r is Some <==> (old(self)@.len() >= old(self).spec_config().max_profiles
                && !old(self)@.contains_key(hash)),
            r matches Some((k, _)) ==> evictable(
                old(self)@,
                k,
                old(self).spec_config().min_events_for_eviction,
                *rank,
            ),
    {
        self.insert_with_priority(hash, profile, 0, rank)
    }

    /// Inserts a fresh profile under `hash` with the given priority, replacing any
    /// profile already held there. When the registry is full and `hash` is new, the
    /// eviction candidate under `rank` is evicted first and returned with its key.
    pub fn insert_with_priority<R: Fn(&ProfileMeta) -> u64>(
        &mut self,
        hash: u64,
        profile: P,
        priority: u8,
        rank: &R,
    ) -> (r: Option<(u64, P)>)
        requires
            old(self).wf(),
            rank_total(*rank),
            old(self).spec_config().max_profiles > 0,
            old(self).spec_stats().total_creations < u64::MAX,
            old(self)@.len() >= old(self).spec_config().max_profiles && !old(self)@.contains_key(
                hash,
            ) ==> old(self).spec_stats().total_evictions < u64::MAX,
        ensures
            final(self).wf(),
            final(self).spec_config() == old(self).spec_config(),
            inserted(old(self)@, final(self)@, hash, profile, priority, r),
            counted_insert(old(self).spec_stats(), final(self).spec_stats(), r is Some),
            r is Some <==> (old(self)@.len() >= old(self).spec_config().max_profiles
                && !old(self)@.contains_key(hash)),
            r matches Some((k, _)) ==> evictable(
                old(self)@,
                k,
                old(self).spec_config().min_events_for_eviction,
                *rank,
            ),
    {
        let ghost m0 = self@;
        proof {
            lemma_map_of_len(self.profiles@);
        }
        let mut evicted: Option<(u64, P)> = None;
        if self.is_full() && !self.contains(hash) {
            evicted = self.evict_one(rank);
        }
        proof {
            lemma_map_of_len(self.profiles@);
        }
        let entry = ProfileEntry::new(profile).with_priority(priority);
        self.put_entry(hash, entry);
        self.stats.total_creations = self.stats.total_creations + 1;
        self.track_access(hash);
        evicted
    }

    /// The profile under `hash`, creating it with `create` (priority 0) when absent.
    pub fn get_or_create<F: FnOnce() -> P, R: Fn(&ProfileMeta) -> u64>(
        &mut self,
        hash: u64,
        create: F,
        rank: &R,
    ) -> (r: &mut P)
        requires
            old(self).wf(),
            rank_total(*rank),
            old(self).spec_config().max_profiles > 0,
            old(self)@.contains_key(hash) ==> old(self)@[hash].meta.event_count < u64::MAX
                && old(self).spec_stats().total_accesses < u64::MAX,
            !old(self)@.contains_key(hash) ==> {
                &&& call_requires(create, ())
                &&& old(self).spec_stats().total_creations < u64::MAX
                &&& old(self).spec_stats().total_evictions < u64::MAX
            },
        ensures
            final(self).wf(),
            final(self).spec_config() == old(self).spec_config(),
            old(self)@.contains_key(hash) ==> *r == old(self)@[hash].profile,
            old(self)@.contains_key(hash) ==> final(self)@ =~= old(self)@.insert(
                hash,
                ProfileEntry {
                    profile: *final(r),
                    meta: touched(old(self)@[hash].meta, final(self)@[hash].meta.last_access),
                },
            ),
            old(self)@.contains_key(hash) ==> final(self)@[hash].meta.last_access >= old(
                self,
            )@[hash].meta.last_access,
            old(self)@.contains_key(hash) ==> final(self).spec_stats() == (RegistryStats {
                total_accesses: (old(self).spec_stats().total_accesses + 1) as u64,
                ..old(self).spec_stats()
            }),
            !old(self)@.contains_key(hash) ==> call_ensures(create, (), *r),
            !old(self)@.contains_key(hash) ==> created(
                old(self)@,
                final(self)@,
                hash,
                *final(r),
                0,
                old(self).spec_config(),
                *rank,
            ),
            !old(self)@.contains_key(hash) ==> counted_insert(
                old(self).spec_stats(),
                final(self).spec_stats(),
                old(self)@.len() >= old(self).spec_config().max_profiles,
            ),
    {
        self.get_or_create_with_priority(hash, 0, create, rank)
    }

    /// The profile under `hash`, touching it when present; when absent, a profile made
    /// by `create` is inserted with `priority`, evicting a candidate first if full.
    pub fn get_or_create_with_priority<F: FnOnce() -> P, R: Fn(&ProfileMeta) -> u64>(
        &mut self,
        hash: u64,
        priority: u8,
        create: F,
        rank: &R,
    ) -> (r: &mut P)
        requires
            old(self).wf(),
            rank_total(*rank),
            old(self).spec_config().max_profiles > 0,
            old(self)@.contains_key(hash) ==> old(self)@[hash].meta.event_count < u64::MAX
                && old(self).spec_stats().total_accesses < u64::MAX,
            !old(self)@.contains_key(hash) ==> {
                &&& call_requires(create, ())
                &&& old(self).spec_stats().total_creations < u64::MAX
                &&& old(self).spec_stats().total_evictions < u64::MAX
            },
        ensures
            final(self).wf(),
            final(self).spec_config() == old(self).spec_config(),
            old(self)@.contains_key(hash) ==> *r == old(self)@[hash].profile,
            old(self)@.contains_key(hash) ==> final(self)@ =~= old(self)@.insert(
                hash,
                ProfileEntry {
                    profile: *final(r),
                    meta: touched(old(self)@[hash].meta, final(self)@[hash].meta.last_access),
                },
            ),
            old(self)@.contains_key(hash) ==> final(self)@[hash].meta.last_access >= old(
                self,
            )@[hash].meta.last_access,
            old(self)@.contains_key(hash) ==> final(self).spec_stats() == (RegistryStats {
                total_accesses: (old(self).spec_stats().total_accesses + 1) as u64,
                ..old(self).spec_stats()
            }),
            !old(self)@.contains_key(hash) ==> call_ensures(create, (), *r),
            !old(self)@.contains_key(hash) ==> created(
                old(self)@,
                final(self)@,
                hash,
                *final(r),
                priority,
                old(self).spec_config(),
                *rank,
            ),
            !old(self)@.contains_key(hash) ==> counted_insert(
                old(self).spec_stats(),
                final(self).spec_stats(),
                old(self)@.len() >= old(self).spec_config().max_profiles,
            ),
    {
        match self.find_index(hash) {
            Some(i) => {
                let ghost s0 = self.profiles@;
                self.profiles[i].1.meta.touch();
                self.stats.total_accesses = self.stats.total_accesses + 1;
                proof {
                    let s1 = self.profiles@;
                    lemma_map_of_update(s0, i as int, s1[i as int]);
                    assert forall|e: (u64, ProfileEntry<P>)| e.0 == hash implies #[trigger] keys_of(
                        s1.update(i as int, e),
                    ).no_duplicates() by {
                        lemma_map_of_update(s1, i as int, e);
                    }
                    assert forall|e: (u64, ProfileEntry<P>)| e.0 == hash implies #[trigger] map_of(
                        s1.update(i as int, e),
                    ) == map_of(s1).insert(hash, e.1) by {
                        lemma_map_of_update(s1, i as int, e);
                    }
                }
                &mut self.profiles[i].1.profile
            },
            None => {
                let ghost m0 = self@;
                let ghost mut base = m0;
                let ghost mut ek: u64 = 0;
                proof {
                    lemma_map_of_len(self.profiles@);
                }
                if self.is_full() {
                    let ev = self.evict_one(rank);
                    proof {
                        if let Some((k, p)) = ev {
                            ek = k;
                            base = m0.remove(k);
                            assert(evictable(m0, k, self.config.min_events_for_eviction, *rank));
                        }
                    }
                }
                proof {
                    lemma_map_of_len(self.profiles@);
                    assert(self@ =~= base);
                }
                let profile = create();
                let entry = ProfileEntry::new(profile).with_priority(priority);
                let idx = self.put_entry(hash, entry);
                self.stats.total_creations = self.stats.total_creations + 1;
                self.track_access(hash);
                proof {
                    let s1 = self.profiles@;
                    assert forall|e: (u64, ProfileEntry<P>)| e.0 == hash implies #[trigger] keys_of(
                        s1.update(idx as int, e),
                    ).no_duplicates() by {
                        lemma_map_of_update(s1, idx as int, e);
                    }
                    assert forall|e: (u64, ProfileEntry<P>)| e.0 == hash implies #[trigger] map_of(
                        s1.update(idx as int, e),
                    ) == base.insert(hash, e.1) by {
                        lemma_map_of_update(s1, idx as int, e);
                        assert(map_of(s1.update(idx as int, e)) =~= base.insert(hash, e.1));
                    }
                    if m0.len() >= self.config.max_profiles {
                        assert(base == m0.remove(ek));
                        assert(evictable(m0, ek, self.config.min_events_for_eviction, *rank));
                    }
                }
                &mut self.profiles[idx].1.profile
            },
        }
    }

    /// Removes the profile under `hash`, returning it.
    pub fn remove(&mut self, hash: u64) -> (r: Option<P>)
        requires
            old(self).wf(),
        ensures
            final(self).wf(),
            final(self).spec_config() == old(self).spec_config(),
            final(self).spec_stats() == old(self).spec_stats(),
            final(self)@ == old(self)@.remove(hash),
            r is Some <==> old(self)@.contains_key(hash),
            r matches Some(p) ==> p == old(self)@[hash].profile,
    {
        match self.find_index(hash) {
            Some(i) => {
                proof {
                    lemma_map_of_swap_remove(self.profiles@, i as int);
                }
                let (_, e) = self.profiles.swap_remove(i);
                Some(e.profile)
            },
            None => {
                proof {
                    assert(self@ =~= self@.remove(hash));
                }
                None
            },
        }
    }

    /// Removes every profile and resets the access-order buffer; counters are kept.
    pub fn clear(&mut self)
        requires
            old(self).wf(),
        ensures
            final(self).wf(),
            final(self)@ == Map::<u64, ProfileEntry<P>>::empty(),
            final(self).spec_config() == old(self).spec_config(),
            final(self).spec_stats() == old(self).spec_stats(),
    {
        self.profiles.clear();
        self.access_order.clear();
        self.access_head = 0;
        proof {
            lemma_map_of_empty(self.profiles@);
        }
    }

    /// Every held profile with its key, each key once.
    pub fn iter(&self) -> (r: Vec<(u64, &P)>)
        requires
            self.wf(),
        ensures
            r@.len() == self@.len(),
            forall|i: int|
                0 <= i < r@.len() ==> self@.contains_key(#[trigger] r@[i].0) && *r@[i].1
                    == self@[r@[i].0].profile,
            forall|i: int, j: int| 0 <= i < j < r@.len() ==> r@[i].0 != r@[j].0,
            forall|k: u64| #[trigger]
                self@.contains_key(k) ==> exists|i: int| 0 <= i < r@.len() && r@[i].0 == k,
    {
        let mut out: Vec<(u64, &P)> = Vec::new();
        let n = self.profiles.len();
        let mut i: usize = 0;
        while i < n
            invariant
                self.wf(),
                n == self.profiles@.len(),
                i <= n,
                out@.len() == i,
                forall|j: int|
                    0 <= j < i ==> out@[j].0 == self.profiles@[j].0 && *out@[j].1
                        == self.profiles@[j].1.profile,
            decreases n - i,
        {
            out.push((self.profiles[i].0, &self.profiles[i].1.profile));
            i += 1;
        }
        proof {
            lemma_map_of_len(self.profiles@);
            let s = self.profiles@;
            assert forall|i: int| 0 <= i < out@.len() implies self@.contains_key(#[trigger] out@[i].0)
                && *out@[i].1 == self@[out@[i].0].profile by {
                lemma_map_of_index(s, i);
            }
            assert forall|i: int, j: int| 0 <= i < j < out@.len() implies out@[i].0 != out@[j].0 by {
                assert(keys_of(s)[i] == s[i].0 && keys_of(s)[j] == s[j].0);
            }
            assert forall|k: u64| #[trigger] self@.contains_key(k) implies exists|i: int|
                0 <= i < out@.len() && out@[i].0 == k by {
                lemma_map_of_contains(s, k);
                let j = choose|j: int| 0 <= j < s.len() && s[j].0 == k;
                assert(out@[j].0 == k);
            }
        }
        out
    }

    /// Every held entry with its key, each key once.
    pub fn iter_entries(&self) -> (r: Vec<(u64, &ProfileEntry<P>)>)
        requires
            self.wf(),
        ensures
            r@.len() == self@.len(),
            forall|i: int|
                0 <= i < r@.len() ==> self@.contains_key(#[trigger] r@[i].0) && *r@[i].1
                    == self@[r@[i].0],
            forall|i: int, j: int| 0 <= i < j < r@.len() ==> r@[i].0 != r@[j].0,
            forall|k: u64| #[trigger]
                self@.contains_key(k) ==> exists|i: int| 0 <= i < r@.len() && r@[i].0 == k,
    {
        let mut out: Vec<(u64, &ProfileEntry<P>)> = Vec::new();
        let n = self.profiles.len();
        let mut i: usize = 0;
        while i < n
            invariant
                self.wf(),
                n == self.profiles@.len(),
                i <= n,
                out@.len() == i,
                forall|j: int|
                    0 <= j < i ==> out@[j].0 == self.profiles@[j].0 && *out@[j].1
                        == self.profiles@[j].1,
            decreases n - i,
        {
            out.push((self.profiles[i].0, &self.profiles[i].1));
            i += 1;
        }
        proof {
            lemma_map_of_len(self.profiles@);
            let s = self.profiles@;
            assert forall|i: int| 0 <= i < out@.len() implies self@.contains_key(#[trigger] out@[i].0)
                && *out@[i].1 == self@[out@[i].0] by {
                lemma_map_of_index(s, i);
            }
            assert forall|i: int, j: int| 0 <= i < j < out@.len() implies out@[i].0 != out@[j].0 by {
                assert(keys_of(s)[i] == s[i].0 && keys_of(s)[j] == s[j].0);
            }
            assert forall|k: u64| #[trigger] self@.contains_key(k) implies exists|i: int|
                0 <= i < out@.len() && out@[i].0 == k by {
                lemma_map_of_contains(s, k);
                let j = choose|j: int| 0 <= j < s.len() && s[j].0 == k;
                assert(out@[j].0 == k);
            }
        }
        out
    }

    /// Every held key, each once.
    pub fn hashes(&self) -> (r: Vec<u64>)
        requires
            self.wf(),
        ensures
            r@.no_duplicates(),
            r@.to_set() == self@.dom(),
            r@.len() == self@.len(),
    {
        let mut out: Vec<u64> = Vec::new();
        let n = self.profiles.len();
        let mut i: usize = 0;
        while i < n
            invariant
                self.wf(),
                n == self.profiles@.len(),
                i <= n,
                out@ == keys_of(self.profiles@).take(i as int),
            decreases n - i,
        {
            out.push(self.profiles[i].0);
            proof {
                assert(keys_of(self.profiles@).take(i + 1) =~= keys_of(self.profiles@).take(
                    i as int,
                ).push(self.profiles@[i as int].0));
            }
            i += 1;
        }
        proof {
            let s = self.profiles@;
            assert(keys_of(s).take(n as int) =~= keys_of(s));
            assert(self@.dom() =~= keys_of(s).to_set());
            lemma_map_of_len(s);
        }
        out
    }

    /// Evicts candidates one at a time until at most `target_size` profiles remain,
    /// returning the evicted profiles with their keys in eviction order.
    pub fn evict_to_size<R: Fn(&ProfileMeta) -> u64>(&mut self, target_size: usize, rank: &R) -> (r:
        Vec<(u64, P)>)
        requires
            old(self).wf(),
            rank_total(*rank),
            old(self).spec_stats().total_evictions + old(self)@.len() <= u64::MAX,
        ensures
            final(self).wf(),
            final(self).spec_config() == old(self).spec_config(),
            final(self)@.len() == if old(self)@.len() <= target_size {
                old(self)@.len()
            } else {
                target_size as nat
            },
            r@.len() + final(self)@.len() == old(self)@.len(),
            forall|k: u64| #[trigger]
                final(self)@.contains_key(k) ==> old(self)@.contains_key(k) && final(self)@[k]
                    == old(self)@[k],
            forall|i: int|
                0 <= i < r@.len() ==> old(self)@.contains_key(#[trigger] r@[i].0) && old(
                    self,
                )@[r@[i].0].profile == r@[i].1 && !final(self)@.contains_key(r@[i].0),
            final(self).spec_stats() == (RegistryStats {
                total_evictions: (old(self).spec_stats().total_evictions + r@.len()) as u64,
                ..old(self).spec_stats()
            }),
            eviction_chain(
                old(self)@,
                r@.map_values(|e: (u64, P)| e.0),
                old(self).spec_config().min_events_for_eviction,
                *rank,
            ),
            final(self)@ == after_removing(old(self)@, r@.map_values(|e: (u64, P)| e.0)),
    {
        let ghost m0 = self@;
        let ghost s0 = self.stats;
        let mut evicted: Vec<(u64, P)> = Vec::new();
        proof {
            lemma_map_of_len(self.profiles@);
        }
        while self.profiles.len() > target_size
            invariant
                self.wf(),
                self.config == old(self).config,
                m0 == old(self)@,
                s0 == old(self).stats,
                self@.len() == self.profiles@.len(),
                evicted@.len() + self@.len() == m0.len(),
                self.stats == (RegistryStats {
                    total_evictions: (s0.total_evictions + evicted@.len()) as u64,
                    ..s0
                }),
                s0.total_evictions + m0.len() <= u64::MAX,
                if m0.len() > target_size {
                    self@.len() >= target_size
                } else {
                    self@.len() == m0.len()
                },
                forall|k: u64| #[trigger]
                    self@.contains_key(k) ==> m0.contains_key(k) && self@[k] == m0[k],
                forall|i: int|
                    0 <= i < evicted@.len() ==> m0.contains_key(#[trigger] evicted@[i].0)
                        && m0[evicted@[i].0].profile == evicted@[i].1 && !self@.contains_key(
                        evicted@[i].0,
                    ),
                rank_total(*rank),
                eviction_chain(
                    m0,
                    evicted@.map_values(|e: (u64, P)| e.0),
                    self.config.min_events_for_eviction,
                    *rank,
                ),
                self@ == after_removing(m0, evicted@.map_values(|e: (u64, P)| e.0)),
            ensures
                self.profiles@.len() <= target_size,
            decreases self.profiles@.len(),
        {
            let ghost before = self@;
            let ghost ks0 = evicted@.map_values(|e: (u64, P)| e.0);
            match self.evict_one(rank) {
                Some(e) => {
                    proof {
                        lemma_map_of_len(self.profiles@);
                    }
                    evicted.push(e);
                    proof {
                        let ks1 = evicted@.map_values(|e: (u64, P)| e.0);
                        assert(ks1.drop_last() =~= ks0);
                        assert(ks1.last() == e.0);
                    }
                },
                None => {
                    break;
                },
            }
        }
        evicted
    }

    /// The metadata of the profile under `hash`.
    pub fn get_meta(&self, hash: u64) -> (r: Option<&ProfileMeta>)
        requires
            self.wf(),
        ensures
            r is Some <==> self@.contains_key(hash),
            r matches Some(m) ==> *m == self@[hash].meta,
    {
        match self.find_index(hash) {
            Some(i) => Some(&self.profiles[i].1.meta),
            None => None,
        }
    }

    /// Sets the priority of the profile under `hash`, if held.
    pub fn set_priority(&mut self, hash: u64, priority: u8)
        requires
            old(self).wf(),
        ensures
            final(self).wf(),
            final(self).spec_config() == old(self).spec_config(),
            final(self).spec_stats() == old(self).spec_stats(),
            old(self)@.contains_key(hash) ==> final(self)@ == old(self)@.insert(
                hash,
                ProfileEntry {
                    profile: old(self)@[hash].profile,
                    meta: ProfileMeta { priority, ..old(self)@[hash].meta },
                },
            ),
            !old(self)@.contains_key(hash) ==> final(self)@ == old(self)@,
    {
        match self.find_index(hash) {
            Some(i) => {
                let ghost s0 = self.profiles@;
                self.profiles[i].1.meta.priority = priority;
                proof {
                    lemma_map_of_update(s0, i as int, self.profiles@[i as int]);
                }
            },
            None => {},
        }
    }
}

impl<P> Default for ProfileRegistry<P> {
    fn default() -> (r: Self)
        ensures
            r.wf(),
            r@ == Map::<u64, ProfileEntry<P>>::empty(),
            r.spec_config().max_profiles == 100_000,
            r.spec_config().min_events_for_eviction == 10,
    {
        Self::new()
    }
}

/// The map after removing `ks` one key after another.
pub open spec fn after_removing<P>(m: Map<u64, ProfileEntry<P>>, ks: Seq<u64>) -> Map<
    u64,
    ProfileEntry<P>,
>
    decreases ks.len(),
{
    if ks.len() == 0 {
        m
    } else {
        after_removing(m, ks.drop_last()).remove(ks.last())
    }
}

/// Whether removing `ks` from `m` in order evicts an eviction candidate under `rank`
/// each time.
pub open spec fn eviction_chain<P, R: Fn(&ProfileMeta) -> u64>(
    m: Map<u64, ProfileEntry<P>>,
    ks: Seq<u64>,
    min_events: u64,
    rank: R,
) -> bool
    decreases ks.len(),
{
    if ks.len() == 0 {
        true
    } else {
        eviction_chain(m, ks.drop_last(), min_events, rank) && evictable(
            after_removing(m, ks.drop_last()),
            ks.last(),
            min_events,
            rank,
        )
    }
}

/// What creating `profile` under the absent `hash` with `priority` does to the map:
/// when the registry was full, an eviction candidate under `rank` is gone first.
pub open spec fn created<P, R: Fn(&ProfileMeta) -> u64>(
    m0: Map<u64, ProfileEntry<P>>,
    m1: Map<u64, ProfileEntry<P>>,
    hash: u64,
    profile: P,
    priority: u8,
    config: RegistryConfig,
    rank: R,
) -> bool {
    &&& m1.contains_key(hash)
    &&& m1[hash].profile == profile
    &&& m1[hash].meta.event_count == 0
    &&& m1[hash].meta.priority == priority
    &&& if m0.len() >= config.max_profiles {
        exists|k: u64|
            evictable(m0, k, config.min_events_for_eviction, rank) && #[trigger] m0.remove(k).insert(
                hash,
                m1[hash],
            ) == m1
    } else {
        m1 == m0.insert(hash, m1[hash])
    }
}

/// What an insert of `profile` under `hash` with `priority` does to the registry's map,
/// given what it evicted: the new entry is fresh (no events, the given priority), and an
/// evicted entry was held with the returned profile and is gone; only a new key evicts.
pub open spec fn inserted<P>(
    m0: Map<u64, ProfileEntry<P>>,
    m1: Map<u64, ProfileEntry<P>>,
    hash: u64,
    profile: P,
    priority: u8,
    evicted: Option<(u64, P)>,
) -> bool {
    &&& m1.contains_key(hash)
    &&& m1[hash].profile == profile
    &&& m1[hash].meta.event_count == 0
    &&& m1[hash].meta.priority == priority
    &&& match evicted {
        None => m1 == m0.insert(hash, m1[hash]),
        Some((k, p)) => {
            &&& k != hash
            &&& !m0.contains_key(hash)
            &&& m0.contains_key(k)
            &&& m0[k].profile == p
            &&& m1 == m0.remove(k).insert(hash, m1[hash])
        },
    }
}

/// How an insert moves the counters: one more creation, one more eviction if it evicted.
pub open spec fn counted_insert(s0: RegistryStats, s1: RegistryStats, evicted: bool) -> bool {
    s1 == (RegistryStats {
        total_creations: (s0.total_creations + 1) as u64,
        total_evictions: if evicted {
            (s0.total_evictions + 1) as u64
        } else {
            s0.total_evictions
        },
        ..s0
    })
}

/// A well-formed registry holds finitely many profiles, never more than its capacity.
pub proof fn lemma_registry_bounded<P>(reg: &ProfileRegistry<P>)
    requires
        reg.wf(),
    ensures
        reg@.dom().finite(),
        reg@.len() <= reg.spec_config().max_profiles,
{
    lemma_map_of_len(reg.profiles@);
}

/// Profiles still learning are protected: while some profile has at least
/// `min_events` events, a profile with fewer is never the eviction candidate, however
/// the profiles are ranked.
pub proof fn lemma_learning_profiles_protected<P>(
    m: Map<u64, ProfileEntry<P>>,
    learning: u64,
    min_events: u64,
    key: spec_fn(u64) -> u64,
)
    requires
        m.contains_key(learning),
        m[learning].meta.event_count < min_events,
        exists|j: u64| #[trigger] m.contains_key(j) && m[j].meta.event_count >= min_events,
    ensures
        !is_eviction_candidate(m, learning, min_events, key),
{
}

/// Recency protects a profile while every profile is still learning: when no profile
/// has `min_events` events, of two profiles the more recently accessed one is never the
/// eviction candidate, however the profiles are ranked.
pub proof fn lemma_recent_access_protects<P>(
    m: Map<u64, ProfileEntry<P>>,
    older: u64,
    newer: u64,
    min_events: u64,
    key: spec_fn(u64) -> u64,
)
    requires
        m.contains_key(older),
        m.contains_key(newer),
        m[older].meta.last_access < m[newer].meta.last_access,
        forall|j: u64| #[trigger] m.contains_key(j) ==> m[j].meta.event_count < min_events,
    ensures
        !is_eviction_candidate(m, newer, min_events, key),
{
    assert(m.contains_key(older));
}

/// What an insert leaves behind: the new profile is held under its key, and every other
/// profile is kept unchanged unless it was the one evicted; the registry grows by one
/// exactly when the key was new and nothing was evicted.
pub proof fn lemma_insert_then_lookup<P>(
    m0: Map<u64, ProfileEntry<P>>,
    m1: Map<u64, ProfileEntry<P>>,
    hash: u64,
    profile: P,
    priority: u8,
    evicted: Option<(u64, P)>,
)
    requires
        m0.dom().finite(),
        inserted(m0, m1, hash, profile, priority, evicted),
    ensures
        m1.contains_key(hash),
        m1[hash].profile == profile,
        forall|k: u64|
            k != hash && m0.contains_key(k) && !(evicted matches Some((e, _)) && e == k)
                ==> #[trigger] m1.contains_key(k) && m1[k] == m0[k],
        evicted is None && !m0.contains_key(hash) ==> m1.len() == m0.len() + 1,
        evicted is Some || m0.contains_key(hash) ==> m1.len() == m0.len(),
{
    match evicted {
        None => {
            assert(m1.dom() =~= m0.dom().insert(hash));
            vstd::set::axiom_set_insert_len(m0.dom(), hash);
        },
        Some((k, _)) => {
            assert(m1.dom() =~= m0.remove(k).dom().insert(hash));
            vstd::set::axiom_set_insert_len(m0.remove(k).dom(), hash);
        },
    }
}

} // verus!

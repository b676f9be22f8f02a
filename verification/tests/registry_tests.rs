use via_core::registry::{ProfileMeta, ProfileRegistry, RegistryConfig};

fn now_nanos() -> u64 {
    std::time::SystemTime::now()
        .duration_since(std::time::UNIX_EPOCH)
        .map(|d| d.as_nanos() as u64)
        .unwrap_or(0)
}

/// The detector's eviction score (lower goes first): `max(ln(events), 1)` times
/// `1 + priority / 2`, over the age in seconds plus one.
fn score(m: &ProfileMeta, now: u64) -> f64 {
    let age_seconds = now.saturating_sub(m.last_access) as f64 / 1e9;
    let event_factor = (m.event_count as f64).ln().max(1.0);
    let priority_factor = 1.0 + (m.priority as f64 * 0.5);
    (event_factor * priority_factor) / (age_seconds + 1.0)
}

/// Ranks by the score; the bits of a positive float order as the float does.
fn rank(m: &ProfileMeta) -> u64 {
    score(m, now_nanos()).to_bits()
}

fn small_config(max_profiles: usize, min_events_for_eviction: u64) -> RegistryConfig {
    RegistryConfig {
        max_profiles,
        min_events_for_eviction,
        enable_lru: true,
    }
}

#[test]
fn test_basic_operations() {
    let mut registry: ProfileRegistry<String> = ProfileRegistry::with_config(RegistryConfig {
        max_profiles: 10,
        min_events_for_eviction: 1,
        enable_lru: true,
    });

    registry.insert(1, "profile1".to_string(), &rank);
    registry.insert(2, "profile2".to_string(), &rank);

    assert_eq!(registry.len(), 2);
    assert!(registry.contains(1));
    assert!(registry.contains(2));

    assert_eq!(registry.get(1), Some(&"profile1".to_string()));

    let removed = registry.remove(1);
    assert_eq!(removed, Some("profile1".to_string()));
    assert!(!registry.contains(1));
}

#[test]
fn test_eviction() {
    let mut registry: ProfileRegistry<u32> = ProfileRegistry::with_config(RegistryConfig {
        max_profiles: 3,
        min_events_for_eviction: 0,
        enable_lru: true,
    });

    registry.insert(1, 100, &rank);
    registry.insert(2, 200, &rank);
    registry.insert(3, 300, &rank);

    assert_eq!(registry.len(), 3);

    registry.insert(4, 400, &rank);

    assert_eq!(registry.len(), 3);
    assert!(registry.stats().total_evictions >= 1);
}

#[test]
fn test_get_or_create() {
    let mut registry: ProfileRegistry<i32> = ProfileRegistry::new();

    let value = registry.get_or_create(123, || 42, &rank);
    assert_eq!(*value, 42);

    *registry.get_or_create(123, || 999, &rank) = 100;
    assert_eq!(*registry.get(123).unwrap(), 100);

    assert_eq!(registry.stats().total_creations, 1);
}

#[test]
fn test_priority_eviction() {
    let mut registry: ProfileRegistry<String> = ProfileRegistry::with_config(RegistryConfig {
        max_profiles: 3,
        min_events_for_eviction: 0,
        enable_lru: true,
    });

    registry.insert_with_priority(1, "low".to_string(), 0, &rank);
    registry.insert_with_priority(2, "medium".to_string(), 5, &rank);
    registry.insert_with_priority(3, "high".to_string(), 10, &rank);

    for _ in 0..5 {
        registry.get_mut(1);
        registry.get_mut(2);
        registry.get_mut(3);
    }

    registry.insert(4, "new".to_string(), &rank);

    assert!(
        registry.contains(3),
        "High priority should survive eviction"
    );
}

#[test]
fn registry_never_exceeds_capacity() {
    let mut registry: ProfileRegistry<u64> = ProfileRegistry::with_config(small_config(4, 0));
    for k in 0..50u64 {
        registry.insert(k, k * 10, &rank);
        assert!(registry.len() <= 4);
    }
    assert_eq!(registry.len(), 4);
    assert!(registry.is_full());
    assert_eq!(registry.stats().total_evictions, 46);
    assert_eq!(registry.stats().total_creations, 50);
    // The key just inserted always survives its own insert.
    assert!(registry.contains(49));
    assert_eq!(registry.get(49), Some(&490));
}

#[test]
fn insert_returns_evicted_profile_only_when_full() {
    let mut registry: ProfileRegistry<u32> = ProfileRegistry::with_config(small_config(2, 0));
    assert_eq!(registry.insert(1, 10, &rank), None);
    assert_eq!(registry.insert(2, 20, &rank), None);
    // Replacing an existing key never evicts.
    assert_eq!(registry.insert(2, 21, &rank), None);
    assert_eq!(registry.len(), 2);
    let evicted = registry.insert(3, 30, &rank);
    let (k, p) = evicted.expect("a full registry evicts for a new key");
    assert!(k == 1 || k == 2);
    assert_eq!(p, if k == 1 { 10 } else { 21 });
    assert!(!registry.contains(k));
    assert!(registry.contains(3));
}

#[test]
fn replacing_a_profile_resets_its_metadata() {
    let mut registry: ProfileRegistry<u32> = ProfileRegistry::with_config(small_config(5, 0));
    registry.insert_with_priority(7, 1, 3, &rank);
    registry.get_mut(7);
    registry.get_mut(7);
    assert_eq!(registry.get_meta(7).unwrap().event_count, 2);
    registry.insert(7, 2, &rank);
    let meta = registry.get_meta(7).unwrap();
    assert_eq!(meta.event_count, 0);
    assert_eq!(meta.priority, 0);
    assert_eq!(registry.get(7), Some(&2));
}

#[test]
fn candidate_has_the_lowest_rank_among_eligible() {
    let mut registry: ProfileRegistry<u32> = ProfileRegistry::with_config(small_config(3, 0));
    let by_priority = |m: &ProfileMeta| m.priority as u64;
    registry.insert_with_priority(1, 1, 9, &by_priority);
    registry.insert_with_priority(2, 2, 0, &by_priority);
    registry.insert_with_priority(3, 3, 9, &by_priority);
    assert_eq!(registry.find_eviction_candidate(&by_priority), Some(2));
    assert_eq!(registry.insert(4, 4, &by_priority), Some((2, 2)));
    // Only profiles with enough events are ranked while there are any.
    let mut learning: ProfileRegistry<u32> = ProfileRegistry::with_config(small_config(2, 1));
    learning.insert_with_priority(1, 1, 0, &by_priority);
    learning.insert_with_priority(2, 2, 9, &by_priority);
    learning.get(2);
    assert_eq!(learning.find_eviction_candidate(&by_priority), Some(2));
}

#[test]
fn busier_older_profile_goes_first_by_score() {
    // Counts 8 and 7, priority 0; the busier one was last accessed half a second earlier.
    let mut registry: ProfileRegistry<u32> = ProfileRegistry::with_config(small_config(2, 0));
    registry.insert(1, 1, &rank);
    registry.insert(2, 2, &rank);
    for _ in 0..8 {
        registry.get(1);
    }
    let start = std::time::Instant::now();
    while start.elapsed().as_millis() < 500 {}
    for _ in 0..7 {
        registry.get(2);
    }
    // ln 8 / 1.5 is below ln 7 / 1.0: profile 1 scores lower.
    assert_eq!(registry.find_eviction_candidate(&rank), Some(1));
}

#[test]
fn candidate_falls_back_to_oldest_access() {
    let mut registry: ProfileRegistry<u32> = ProfileRegistry::with_config(small_config(3, 100));
    registry.insert(1, 1, &rank);
    registry.insert(2, 2, &rank);
    registry.insert(3, 3, &rank);
    // Touch 1 and 3 later, so 2 holds the oldest access time.
    let start = std::time::Instant::now();
    while start.elapsed().as_millis() < 2 {}
    registry.get(1);
    registry.get(3);
    assert_eq!(registry.find_eviction_candidate(&rank), Some(2));
    let evicted = registry.insert(4, 4, &rank);
    assert_eq!(evicted, Some((2, 2)));
}

#[test]
fn get_touches_and_counts_accesses() {
    let mut registry: ProfileRegistry<u32> = ProfileRegistry::new();
    registry.insert(5, 50, &rank);
    assert_eq!(registry.get(6), None);
    assert_eq!(registry.stats().total_accesses, 0);
    registry.get(5);
    registry.get(5);
    assert_eq!(registry.stats().total_accesses, 2);
    assert_eq!(registry.get_meta(5).unwrap().event_count, 2);
    if let Some(p) = registry.get_mut(5) {
        *p = 51;
    }
    assert_eq!(registry.get(5), Some(&51));
}

#[test]
fn evict_to_size_and_clear() {
    let mut registry: ProfileRegistry<u32> = ProfileRegistry::with_config(small_config(10, 0));
    for k in 0..8u64 {
        registry.insert(k, k as u32, &rank);
    }
    let evicted = registry.evict_to_size(5, &rank);
    assert_eq!(evicted.len(), 3);
    assert_eq!(registry.len(), 5);
    for (k, p) in &evicted {
        assert_eq!(*p as u64, *k);
        assert!(!registry.contains(*k));
    }
    assert_eq!(registry.stats().total_evictions, 3);
    assert!(registry.evict_to_size(9, &rank).is_empty());
    registry.clear();
    assert!(registry.is_empty());
    assert_eq!(registry.stats().total_creations, 8);
}

#[test]
fn iteration_and_priority_updates() {
    let mut registry: ProfileRegistry<u32> = ProfileRegistry::with_config(small_config(10, 0));
    registry.insert(1, 10, &rank);
    registry.insert(2, 20, &rank);
    let mut hashes = registry.hashes();
    hashes.sort();
    assert_eq!(hashes, vec![1, 2]);
    let mut pairs: Vec<(u64, u32)> = registry.iter().into_iter().map(|(k, p)| (k, *p)).collect();
    pairs.sort();
    assert_eq!(pairs, vec![(1, 10), (2, 20)]);
    assert_eq!(registry.iter_entries().len(), 2);
    registry.set_priority(2, 7);
    assert_eq!(registry.get_meta(2).unwrap().priority, 7);
    registry.set_priority(3, 7);
    assert!(!registry.contains(3));
    assert!(registry.get_meta(3).is_none());
}

#[test]
fn access_times_never_go_back() {
    let mut meta = ProfileMeta::default();
    meta.last_access = u64::MAX - 1;
    meta.touch();
    assert_eq!(meta.last_access, u64::MAX - 1);
    assert_eq!(meta.event_count, 1);
    meta.last_access = 0;
    meta.touch();
    assert!(meta.last_access > 0);
}

#[test]
fn recently_used_profile_is_not_the_candidate() {
    let mut registry: ProfileRegistry<u32> = ProfileRegistry::with_config(small_config(2, 0));
    registry.insert(1, 1, &rank);
    registry.insert(2, 2, &rank);
    let start = std::time::Instant::now();
    while start.elapsed().as_millis() < 2 {}
    // Profile 2 gets one more event (same event factor) and a later access.
    registry.get(2);
    assert_eq!(registry.find_eviction_candidate(&rank), Some(1));
    assert_eq!(registry.insert(3, 3, &rank), Some((1, 1)));
}

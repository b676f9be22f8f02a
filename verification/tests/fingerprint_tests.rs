use via_core::fingerprint::{
    BehavioralFingerprintDetector, BehavioralProfile, ProfileStore, NANOS_PER_HOUR,
};

#[test]
fn test_behavioral_profile_creation() {
    let profile = BehavioralProfile::new(12345, 1000000000);
    assert_eq!(profile.entity_hash, 12345);
    assert!(!profile.is_mature);
    assert_eq!(profile.observation_count, 0);
}

#[test]
fn test_profile_update() {
    let mut profile = BehavioralProfile::new(12345, 1000000000);

    for i in 0..60 {
        profile.update(1000000000 + i as u64 * 1_000_000_000, 1, i as u64);
    }

    assert!(
        profile.is_mature,
        "Profile should be mature after 60 observations"
    );
    assert!(profile.observation_count >= 60);
}

#[test]
fn test_get_typical_hours() {
    let mut profile = BehavioralProfile::new(12345, 0);

    for i in 0..100 {
        let hour = if i % 3 == 0 {
            10
        } else if i % 3 == 1 {
            14
        } else {
            18
        };
        let ts = hour as u64 * 3_600_000_000_000u64;
        profile.update(ts, 1, i as u64);
    }

    let typical = profile.get_typical_hours();
    assert!(typical.contains(&10));
    assert!(typical.contains(&14));
    assert!(typical.contains(&18));
}

#[test]
fn test_profile_store() {
    let mut store = ProfileStore::new(100, 10);

    for i in 0..50 {
        let ts = i as u64 * 1_000_000_000u64;
        store.get_or_create_profile(i as u64, ts).update(ts, 1, i as u64);
    }

    let (total, mature, _) = store.get_stats();
    assert!(total > 0);
    assert!(mature <= total as u64);
}

#[test]
fn test_store_eviction() {
    let mut store = ProfileStore::new(10, 5);

    for i in 0..50 {
        let entity_hash = (i * 1000 + 1) as u64;
        let ts = i as u64 * 1_000_000_000;
        store.get_or_create_profile(entity_hash, ts).update(ts, 1, i as u64);
    }

    let (total, _, _) = store.get_stats();
    assert!(
        total <= 20,
        "Store should limit profile count, got {} profiles",
        total
    );
}

#[test]
fn profile_counts_each_observation_once_by_hour() {
    let mut profile = BehavioralProfile::new(7, 0);
    profile.update(3 * NANOS_PER_HOUR, 1, 1);
    profile.update(27 * NANOS_PER_HOUR, 1, 2);
    profile.update(5 * NANOS_PER_HOUR + 17, 2, 3);
    assert_eq!(profile.observation_count, 3);
    assert_eq!(profile.normal_hours[3], 2);
    assert_eq!(profile.normal_hours[5], 1);
    assert_eq!(profile.normal_hours.iter().sum::<u64>(), 3);
    assert_eq!(profile.last_seen, 5 * NANOS_PER_HOUR + 17);
    assert_eq!(profile.first_seen, 0);
    assert_eq!(profile.service_access.get(&1), Some(&2));
    assert_eq!(profile.service_access.get(&2), Some(&1));
    assert_eq!(profile.get_service_diversity(), 2);
}

#[test]
fn profile_matures_at_fifty_observations() {
    let mut profile = BehavioralProfile::new(7, 0);
    for i in 0..49u64 {
        profile.update(i, 1, i);
    }
    assert!(!profile.is_mature);
    profile.update(49, 1, 49);
    assert!(profile.is_mature);
    assert_eq!(profile.maturity_threshold, 50);
}

#[test]
fn typical_hours_are_exactly_those_above_average() {
    let mut profile = BehavioralProfile::new(1, 0);
    // 48 observations: average hour holds 2.
    for i in 0..48u64 {
        let hour = if i < 20 {
            2
        } else if i < 22 {
            9
        } else {
            15
        };
        profile.update(hour * NANOS_PER_HOUR, 1, i);
    }
    assert_eq!(profile.get_typical_hours(), vec![2, 15]);
}

#[test]
fn unusual_hour_after_daytime_activity() {
    let mut profile = BehavioralProfile::new(12345, 0);
    for cycle in 0..10u64 {
        for hour in 8..=18u64 {
            let ts = hour * 3_600_000_000_000u64 + cycle * 86_400_000_000_000u64;
            profile.update(ts, 1, cycle * 11 + hour);
        }
    }
    assert!(profile.is_mature);
    assert!(profile.is_unusual_hour(3 * 3_600_000_000_000u64));
    assert!(!profile.is_unusual_hour(12 * 3_600_000_000_000u64));
}

#[test]
fn new_service_is_flagged() {
    let mut profile = BehavioralProfile::new(12345, 0);
    for i in 0..60u64 {
        let service = if i % 2 == 0 { 1 } else { 2 };
        profile.update(i * 1_000_000_000, service, i);
    }
    assert!(!profile.is_new_service(1));
    assert!(!profile.is_new_service(2));
    assert!(profile.is_new_service(3));
}

#[test]
fn anomalies_are_counted() {
    let mut profile = BehavioralProfile::new(5, 0);
    profile.record_anomaly();
    profile.record_anomaly();
    assert_eq!(profile.anomaly_count, 2);
    assert_eq!(profile.observation_count, 0);
}

#[test]
fn store_capacity_is_clamped() {
    let mut small = ProfileStore::new(3, 1);
    for e in 0..25u64 {
        small.get_or_create_profile(e, 0);
    }
    assert_eq!(small.get_stats(), (10, 0, 25));
}

#[test]
fn store_evicts_least_recently_accessed() {
    let mut store = ProfileStore::new(10, 50);
    for e in 1..=10u64 {
        let profile = store.get_or_create_profile(e, 0);
        for i in 0..50u64 {
            profile.update(i, 1, i);
        }
    }
    // Entity 1 becomes the most recent; entity 2 is now the least recent.
    assert!(store.get_profile(1).is_some());
    store.get_or_create_profile(11, 0);
    assert!(store.get_profile(2).is_none());
    for e in [1u64, 3, 4, 5, 6, 7, 8, 9, 10] {
        assert!(store.get_profile(e).is_some(), "entity {} should be held", e);
    }
    let (total, mature, _) = store.get_stats();
    assert_eq!(total, 10);
    assert_eq!(mature, 9);
}

#[test]
fn immature_profiles_are_not_returned() {
    let mut store = ProfileStore::new(10, 50);
    store.get_or_create_profile(42, 0).update(0, 1, 1);
    assert!(store.get_profile(42).is_none());
    assert!(store.get_profile(43).is_none());
    assert_eq!(store.get_stats(), (1, 0, 3));
    assert!(store.get_mature_profiles().is_empty());
}

#[test]
fn reset_empties_the_store() {
    let mut store = ProfileStore::new(10, 50);
    for e in 0..5u64 {
        let profile = store.get_or_create_profile(e, 0);
        for i in 0..50u64 {
            profile.update(i, 1, i);
        }
    }
    assert_eq!(store.get_mature_profiles().len(), 5);
    store.reset();
    assert_eq!(store.get_stats(), (0, 0, 0));
    assert!(store.get_mature_profiles().is_empty());
}

#[test]
fn detector_tracks_arrival_gaps_per_entity() {
    let mut detector = BehavioralFingerprintDetector::new(100);
    assert_eq!(detector.get_stats(), (0, 0, 0));
    assert_eq!(detector.arrival_gap(12345, 1_000_000_000), None);
    assert_eq!(detector.arrival_gap(12345, 1_250_000_000), Some(250_000_000));
    // The clock going back gives a zero gap.
    assert_eq!(detector.arrival_gap(12345, 1_000_000_000), Some(0));
    // Another entity starts afresh.
    assert_eq!(detector.arrival_gap(7, 2_000_000_000), None);
    assert_eq!(detector.arrival_gap(12345, 3_000_000_000), None);
    // A previous event at time 0 gives no gap.
    detector.reset();
    assert_eq!(detector.arrival_gap(5, 0), None);
    assert_eq!(detector.arrival_gap(5, 10), None);
    assert_eq!(detector.get_stats(), (0, 0, 0));
}

#[test]
fn detector_geo_hash_wraps() {
    assert_eq!(BehavioralFingerprintDetector::geo_hash_of(12345), 12345 * 31);
    assert_eq!(BehavioralFingerprintDetector::geo_hash_of(u64::MAX), u64::MAX.wrapping_mul(31));
}

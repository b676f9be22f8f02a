use via_core::policy_index::{PolicyIndex, RuleTargets};

fn rule(entities: &[u64], detector: Option<u8>, ttl_sec: u64) -> RuleTargets {
    RuleTargets { entity_hashes: entities.to_vec(), primary_detector: detector, ttl_sec }
}

#[test]
fn rules_are_visited_entity_then_detector_then_wildcard() {
    let rules = vec![
        rule(&[], None, 0),          // 0: wildcard
        rule(&[7], None, 0),         // 1: entity 7
        rule(&[], Some(3), 0),       // 2: detector 3
        rule(&[7, 8, 7], Some(3), 0), // 3: entity 7 twice, detector 3
        rule(&[9], Some(4), 60),     // 4: entity 9, detector 4
        rule(&[], None, 5),          // 5: wildcard with ttl
    ];
    let index = PolicyIndex::from_rules(&rules, 1_000);
    assert_eq!(index.rule_count(), 6);
    // Entity 7: rules 1, 3, 3; detector 3 adds 2 (3 already seen); wildcards 0, 5.
    assert_eq!(index.visit_order(7, 3), vec![1, 3, 3, 2, 0, 5]);
    assert_eq!(index.visit_order(8, 4), vec![3, 4, 0, 5]);
    assert_eq!(index.visit_order(1, 1), vec![0, 5]);
    assert_eq!(index.visit_order(9, 3), vec![4, 2, 3, 0, 5]);

    assert!(index.rule_applies(0, 1, u64::MAX));
    assert!(index.rule_applies(2, 3, 0));
    assert!(!index.rule_applies(2, 4, 0));
    assert!(!index.rule_applies(3, 4, 0));
    // Rule 4 expires 60 s after the snapshot was created.
    assert!(index.rule_applies(4, 4, 1_060));
    assert!(!index.rule_applies(4, 4, 1_061));
    assert!(index.rule_applies(5, 9, 1_005));
    assert!(!index.rule_applies(5, 9, 1_006));

    // Without a creation time, rules never expire.
    let undated = PolicyIndex::from_rules(&rules, 0);
    assert!(undated.rule_applies(4, 4, u64::MAX));
}

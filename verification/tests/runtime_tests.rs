use via_core::gatekeeper::route_event;
use via_core::checkpoint::{check_checkpoint_version, CheckpointError, CheckpointManager, CHECKPOINT_VERSION};
use via_core::feedback::{FeedbackSource, FeedbackStats, LearningUpdate};
use via_core::forwarder::{
    DedupeWindow, dedupe_expiry, flush_step, retry_delay_ms, FlushStep, ForwarderConfig,
    ForwarderStats, DEDUPE_WINDOW_SEC,
};
use via_core::multi_scale::{window_closes, TimeScale};
use via_core::policy::{latest_index_of, push_bounded, rule_expires_at, rule_is_live, rule_targets, trim_history, PolicyAction};

#[test]
fn checkpoint_versions_and_ids() {
    assert!(check_checkpoint_version(CHECKPOINT_VERSION).is_ok());
    assert!(check_checkpoint_version(0).is_ok());
    assert!(matches!(
        check_checkpoint_version(999),
        Err(CheckpointError::UnsupportedVersion { found: 999, max_supported: 1 })
    ));
    let mut manager = CheckpointManager::new();
    assert_eq!(manager.last_checkpoint(), None);
    assert_eq!(manager.next_checkpoint_id(), 1);
    assert_eq!(manager.next_checkpoint_id(), 2);
    manager.record_success(2);
    let (id, time) = manager.last_checkpoint().unwrap();
    assert_eq!(id, 2);
    assert!(time > 0);
    assert_eq!(manager.next_checkpoint_id(), 3);
}

#[test]
fn feedback_counters() {
    assert_eq!(FeedbackSource::from_code(0), FeedbackSource::LLMAnalysis);
    assert_eq!(FeedbackSource::from_code(1), FeedbackSource::HumanReview);
    assert_eq!(FeedbackSource::from_code(2), FeedbackSource::AutoCorrelation);
    assert_eq!(FeedbackSource::from_code(3), FeedbackSource::Timeout);
    assert_eq!(FeedbackSource::from_code(200), FeedbackSource::Timeout);

    let mut stats = FeedbackStats::default();
    stats.record_received();
    stats.record_processed(true, true);
    stats.record_processed(false, true);
    stats.record_processed(true, false);
    stats.record_processed(false, false);
    stats.record_dropped();
    assert_eq!(stats.received, 1);
    assert_eq!(stats.processed, 4);
    assert_eq!(stats.true_positives, 1);
    assert_eq!(stats.false_positives, 1);
    assert_eq!(stats.false_negatives, 1);
    assert_eq!(stats.dropped, 1);

    stats.received = u64::MAX;
    stats.record_received();
    assert_eq!(stats.received, 0);
}

#[test]
fn learning_update_accumulates_outcomes() {
    let mut update = LearningUpdate::empty();
    assert!(!update.is_significant());
    let mut correct = [false; 10];
    correct[0] = true;
    correct[1] = true;
    update.record(1, true, true, &correct);
    update.record(2, false, true, &[false; 10]);
    assert!(update.is_significant());
    assert_eq!(update.true_positives, 1);
    assert_eq!(update.false_positives, 2);
    assert_eq!(update.false_negatives, 0);
    assert_eq!(update.detector_outcomes[0], (1, 2));
    assert_eq!(update.detector_outcomes[2], (0, 3));
}

#[test]
fn forwarder_backoff_and_steps() {
    let config = ForwarderConfig::default();
    assert_eq!(config.tier2_url, "http://localhost:3002");
    assert_eq!(config.batch_size, 100);
    assert_eq!(config.max_retries, 3);
    assert_eq!(retry_delay_ms(100, 0), 100);
    assert_eq!(retry_delay_ms(100, 3), 800);
    assert_eq!(flush_step(&config, 0, true), FlushStep::Delivered);
    assert_eq!(flush_step(&config, 0, false), FlushStep::RetryAfterMs(100));
    assert_eq!(flush_step(&config, 2, false), FlushStep::RetryAfterMs(400));
    assert_eq!(flush_step(&config, 3, false), FlushStep::GiveUp);
    assert_eq!(dedupe_expiry(1_000), 1_000 + DEDUPE_WINDOW_SEC);
    assert_eq!(dedupe_expiry(u64::MAX - 1), u64::MAX);

    let mut stats = ForwarderStats::default();
    stats.record_delivered(10);
    stats.record_retry();
    stats.record_failed(5);
    stats.record_dropped();
    assert_eq!((stats.sent, stats.batches, stats.retried, stats.failed, stats.dropped), (10, 1, 1, 5, 1));
}

#[test]
fn policy_rules_and_history() {
    assert_eq!(PolicyAction::default(), PolicyAction::Suppress);
    assert_eq!(rule_expires_at(1_000, 60), Some(1_060));
    assert_eq!(rule_expires_at(0, 60), None);
    assert_eq!(rule_expires_at(1_000, 0), None);
    assert_eq!(rule_expires_at(u64::MAX, 60), Some(u64::MAX));
    assert!(rule_is_live(Some(1_060), 1_060));
    assert!(!rule_is_live(Some(1_060), 1_061));
    assert!(rule_is_live(None, u64::MAX));

    assert!(rule_targets(&vec![], None, 5, 3));
    assert!(rule_targets(&vec![4, 5], Some(3), 5, 3));
    assert!(!rule_targets(&vec![4, 5], Some(3), 6, 3));
    assert!(!rule_targets(&vec![4, 5], Some(2), 5, 3));

    let mut history: Vec<u32> = (0..20).collect();
    trim_history(&mut history, 16);
    assert_eq!(history, (4..20).collect::<Vec<u32>>());
    push_bounded(&mut history, 20, 16);
    assert_eq!(history, (5..21).collect::<Vec<u32>>());
    let mut short = vec![1, 2];
    push_bounded(&mut short, 3, 16);
    assert_eq!(short, vec![1, 2, 3]);

    let versions = vec!["v1".to_string(), "v2".to_string(), "v1".to_string()];
    assert_eq!(latest_index_of(&versions, "v1"), Some(2));
    assert_eq!(latest_index_of(&versions, "v2"), Some(1));
    assert_eq!(latest_index_of(&versions, "v3"), None);
}

#[test]
fn time_scales() {
    assert_eq!(TimeScale::Second.window_ns(), 1_000_000_000);
    assert_eq!(TimeScale::Minute.window_ns(), 60_000_000_000);
    assert_eq!(TimeScale::Hour.window_ns(), 3_600_000_000_000);
    assert_eq!(TimeScale::Day.window_ns(), 86_400_000_000_000);
    assert_eq!(TimeScale::Second.buffer_size(), 10);
    assert_eq!(TimeScale::Minute.buffer_size(), 60);
    assert_eq!(TimeScale::Hour.buffer_size(), 24);
    assert_eq!(TimeScale::Day.buffer_size(), 7);
    assert_eq!(TimeScale::Second.seasonal_period(), None);
    assert_eq!(TimeScale::Minute.seasonal_period(), None);
    assert_eq!(TimeScale::Hour.seasonal_period(), Some(24));
    assert_eq!(TimeScale::Day.seasonal_period(), Some(7));

    assert!(!window_closes(0, 5_000_000_000, 1_000_000_000, 3));
    assert!(window_closes(1_000_000_000, 2_000_000_000, 1_000_000_000, 1));
    assert!(!window_closes(1_000_000_000, 1_999_999_999, 1_000_000_000, 1));
    assert!(!window_closes(1_000_000_000, 9_000_000_000, 1_000_000_000, 0));
    assert!(!window_closes(5_000_000_000, 1_000_000_000, 1, 4));
}

#[test]
fn feedback_labels_and_shard_routing() {
    assert_eq!(FeedbackSource::from_label("llm"), FeedbackSource::LLMAnalysis);
    assert_eq!(FeedbackSource::from_label("human"), FeedbackSource::HumanReview);
    assert_eq!(FeedbackSource::from_label("auto"), FeedbackSource::AutoCorrelation);
    assert_eq!(FeedbackSource::from_label("LLM"), FeedbackSource::Timeout);
    assert_eq!(FeedbackSource::from_label(""), FeedbackSource::Timeout);

    let (hash, shard) = route_event("user-17", 8);
    assert_eq!(hash, xxhash_rust::xxh3::xxh3_64(b"user-17"));
    assert_eq!(shard, (hash as usize) % 8);
    assert_eq!(route_event("user-17", 1).1, 0);
}

#[test]
fn dedupe_window_refuses_duplicates_until_expiry() {
    let mut window = DedupeWindow::new();
    assert!(window.accept("e1", 1_000));
    assert!(!window.accept("e1", 1_000));
    assert!(!window.accept("e1", 1_899));
    assert!(window.accept("e2", 1_500));
    // At 1_900 the entry of e1 (held until 1_900) has expired.
    assert!(window.accept("e1", 1_900));
    assert!(!window.accept("e2", 2_399));
    assert!(window.accept("e2", 2_400));
    window.cleanup(u64::MAX);
    assert!(window.accept("e1", u64::MAX - 10));
    assert!(!window.accept("e1", u64::MAX - 1));
}

#[test]
fn record_success_at_stores_id_and_stamp() {
    let mut manager = CheckpointManager::new();
    assert_eq!(manager.last_checkpoint(), None);
    manager.record_success_at(4, 1_700_000_000_000_000_000);
    assert_eq!(manager.last_checkpoint(), Some((4, 1_700_000_000_000_000_000)));
    manager.record_success_at(5, 7);
    assert_eq!(manager.last_checkpoint(), Some((5, 7)));
    assert_eq!(manager.next_id(), 1);
    manager.record_success(6);
    assert!(matches!(manager.last_checkpoint(), Some((6, _))));
}

#[test]
fn learning_update_needs_room_only_where_it_adds() {
    let mut update = LearningUpdate::empty();
    update.false_positives = u32::MAX;
    update.detector_outcomes[0].1 = u32::MAX;
    let mut correct = [false; via_core::signal::NUM_DETECTORS];
    correct[0] = true;
    // A true positive adds to the true positives, to detector 0's successes and to the
    // other detectors' failures only.
    update.record(3, true, true, &correct);
    assert_eq!(update.true_positives, 3);
    assert_eq!(update.false_positives, u32::MAX);
    assert_eq!(update.detector_outcomes[0], (3, u32::MAX));
    assert_eq!(update.detector_outcomes[1], (0, 3));
}

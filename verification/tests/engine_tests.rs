use via_core::checkpoint::{CheckpointError, CheckpointManager, PolicyCheckpoint};
use via_core::engine_core::{anomaly_schedule_plan, EngineCore, EntryStep};
use via_core::hll::HyperLogLog;
use via_core::sim::{EngineState, SimulationStatus};

#[test]
fn hll_registers_keep_highest_rank() {
    let mut hll = HyperLogLog::new(2);
    assert_eq!(hll.precision(), 4);
    assert_eq!(hll.registers().len(), 16);
    assert!(hll.registers().iter().all(|r| *r == 0));
    assert_eq!(HyperLogLog::new(30).precision(), 16);
    assert_eq!(HyperLogLog::new(30).registers().len(), 65536);
    assert_eq!(HyperLogLog::new(10).registers().len(), 1024);

    // Top 4 bits 1000 pick register 8; nothing below: rank 65.
    hll.add_hash(0x8000_0000_0000_0000);
    assert_eq!(hll.registers()[8], 65);
    // Top bits 0011, rest starts with a one: rank 1.
    hll.add_hash(0x3800_0000_0000_0000);
    assert_eq!(hll.registers()[3], 1);
    // A lower rank does not lower a register.
    hll.add_hash(0x8800_0000_0000_0000);
    assert_eq!(hll.registers()[8], 65);
    // Rank counts leading zeros after the index bits: 0x0040.. -> 1 zero bit... rank 7.
    hll.add_hash(0x0020_0000_0000_0000);
    assert_eq!(hll.registers()[0], 7);
    let before = hll.registers().clone();
    hll.add_hash(0x0020_0000_0000_0000);
    assert_eq!(hll.registers(), &before);

    let mut by_str = HyperLogLog::new(8);
    let mut by_hash = HyperLogLog::new(8);
    by_str.add("user-1");
    by_hash.add_hash(xxhash_rust::xxh3::xxh3_64(b"user-1"));
    assert_eq!(by_str.registers(), by_hash.registers());
}

#[test]
fn checkpoint_requests_and_messages() {
    let mut manager = CheckpointManager::new();
    let req = manager.issue_request(77, vec![1, 2, 3, 4], 9);
    assert_eq!(req.checkpoint_id, 1);
    assert_eq!(req.timestamp, 77);
    assert_eq!(req.data, vec![1, 2, 3, 4]);
    assert_eq!(req.profile_count, 9);
    assert_eq!(req.uncompressed_size, 4);
    assert_eq!(manager.issue_request(78, vec![], 0).checkpoint_id, 2);

    let policy = PolicyCheckpoint::for_version("v42".to_string());
    assert_eq!(policy.active_policy_version, "v42");
    assert_eq!(policy.policy_checksum, xxhash_rust::xxh3::xxh3_64(b"v42"));

    let cases = [
        (CheckpointError::SerializationFailed("boom".to_string()), "Serialization failed: boom"),
        (CheckpointError::DeserializationFailed("bad".to_string()), "Deserialization failed: bad"),
        (
            CheckpointError::UnsupportedVersion { found: 999, max_supported: 1 },
            "Unsupported checkpoint version: 999 (max supported: 1)",
        ),
        (CheckpointError::ProfileNotFound(1234567890123), "Profile not found: 1234567890123"),
        (CheckpointError::InvalidState("x".to_string()), "Invalid state: x"),
    ];
    for (e, m) in cases {
        assert_eq!(e.message(), m);
    }
}

#[test]
fn engine_core_schedules_and_completes_anomalies() {
    let mut engine = EngineCore::new(1_000);
    assert_eq!(engine.state(), EngineState::Stopped);
    assert!(!engine.begin_tick());

    engine.start(10_000);
    assert_eq!(engine.state(), EngineState::Running);
    assert_eq!(engine.current_time(), 10_000);
    let id0 = engine.schedule_anomaly("cpu_spike", "CPU Spike".to_string(), 0, 250);
    let id1 = engine.schedule_anomaly("ddos", "DDoS Attack".to_string(), 1_000, 100);
    assert_eq!(id0, "cpu_spike_0");
    assert_eq!(id1, "ddos_1");
    assert_eq!(engine.scheduled_len(), 2);

    let mut steps = Vec::new();
    let mut ticks = 0;
    while engine.scheduled_len() > 0 && ticks < 100 {
        assert!(engine.begin_tick());
        let mut tick_steps = Vec::new();
        for i in 0..engine.scheduled_len() {
            let step = engine.step_entry(i);
            if step == EntryStep::Generate {
                engine.record_anomaly_log(i);
            }
            tick_steps.push(step);
        }
        let done = engine.finish_tick(100, 5, 1);
        steps.push((tick_steps, done));
        ticks += 1;
    }
    // t=10000: cpu_spike starts and generates; t=10100, 10200 generate; t=10300 completes.
    assert_eq!(steps[0].0, vec![EntryStep::Generate, EntryStep::Idle]);
    assert_eq!(steps[3].0[0], EntryStep::Complete);
    assert_eq!(steps[3].1, vec![0]);
    // After removal the ddos anomaly is at position 0.
    let last = steps.last().unwrap();
    assert_eq!(last.0, vec![EntryStep::Complete]);
    assert_eq!(last.1, vec![0]);

    let stats = engine.stats();
    assert_eq!(stats.scenarios_activated, 2);
    assert_eq!(stats.scenarios_completed, 2);
    assert_eq!(stats.tick_count, ticks as u64);
    assert_eq!(stats.total_logs, 5 * ticks as u64);
    assert_eq!(engine.elapsed(), 100 * ticks as u64);

    let truth = engine.ground_truth().get_current_ground_truth();
    assert_eq!(truth.len(), 2);
    assert_eq!(truth[0].anomaly_id, "cpu_spike_0");
    assert_eq!(truth[0].anomaly_type, "CPU Spike");
    assert_eq!(truth[0].log_count, 3);
    assert_eq!(truth[0].end_time_ns, 10_300);
    assert_eq!(truth[1].anomaly_id, "ddos_1");
    assert_eq!(truth[1].log_count, 1);

    engine.pause();
    assert_eq!(engine.state(), EngineState::Paused);
    assert!(!engine.begin_tick());
    engine.resume();
    assert_eq!(engine.state(), EngineState::Running);
    engine.stop();
    assert_eq!(engine.state(), EngineState::Stopped);
    engine.reset();
    assert_eq!(engine.stats().tick_count, 0);
    assert!(engine.ground_truth().get_current_ground_truth().is_empty());
}

#[test]
fn simulation_status_reports_engine_counters() {
    let mut engine = EngineCore::new(5);
    engine.start(1_000_000_000);
    assert!(engine.begin_tick());
    let done = engine.finish_tick(2_500_000, 40, 3);
    assert!(done.is_empty());
    let status = SimulationStatus::from_engine(&engine);
    assert!(status.isRunning);
    assert!(!status.isPaused);
    assert_eq!(status.currentScenario, "active");
    assert_eq!(status.eventsGenerated, 40);
    assert_eq!(status.anomalyLogsGenerated, 3);
    assert_eq!(status.tickCount, 1);
    assert_eq!(status.elapsedMs, 2);
    assert!(status.activeGroundTruth.is_empty());
    engine.pause();
    assert!(SimulationStatus::from_engine(&engine).isPaused);
}

#[test]
fn test_engine_lifecycle() {
    let mut engine = EngineCore::new(0);

    assert_eq!(engine.state(), EngineState::Stopped);

    engine.start(0);
    assert_eq!(engine.state(), EngineState::Running);

    engine.pause();
    assert_eq!(engine.state(), EngineState::Paused);

    engine.resume();
    assert_eq!(engine.state(), EngineState::Running);

    engine.stop();
    assert_eq!(engine.state(), EngineState::Stopped);
}

#[test]
fn anomaly_plan_staggers_half_slots() {
    assert_eq!(
        anomaly_schedule_plan(10_000_000_000, 3),
        vec![
            (1_250_000_000, 1_250_000_000),
            (3_750_000_000, 1_250_000_000),
            (6_250_000_000, 1_250_000_000),
        ]
    );
    assert_eq!(anomaly_schedule_plan(60_000_000_000, 1), vec![(15_000_000_000, 15_000_000_000)]);
    assert!(anomaly_schedule_plan(5, 0).is_empty());
    // A slot of 1 ns has no half: the anomalies last 0 ns, one nanosecond apart.
    assert_eq!(anomaly_schedule_plan(3, 2), vec![(0, 0), (1, 0)]);
}

#[test]
fn engine_usable_after_pause_and_resume() {
    let mut engine = EngineCore::new(0);
    engine.start(0);
    engine.pause();
    engine.resume();
    assert_eq!(engine.schedule_anomaly("ddos", "DDoS Attack".to_string(), 0, 10), "ddos_0");
    assert!(engine.begin_tick());
    engine.stop();
    assert_eq!(engine.state(), EngineState::Stopped);
}

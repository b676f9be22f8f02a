use via_core::bench::scenarios::{
    cascade_failure, mixed_workload, performance_stress, quick_validation, security_audit,
    throughput_test,
};
use via_core::bench::{
    drain_timeout_secs, scenario_by_name, tally_detections, AnomalySpec, BenchmarkConfig,
    DetectionCounts, PipelineBenchmarkConfig,
};

fn anomalies_of(config: &BenchmarkConfig) -> Vec<(String, u64, u64)> {
    config
        .anomalies
        .iter()
        .map(|a| (a.scenario.clone(), a.start_time_sec, a.duration_sec))
        .collect()
}

fn owned(list: &[(&str, u64, u64)]) -> Vec<(String, u64, u64)> {
    list.iter().map(|(s, a, b)| (s.to_string(), *a, *b)).collect()
}

#[test]
fn default_benchmark_config() {
    let c = BenchmarkConfig::default();
    assert_eq!(c.name, "Default Benchmark");
    assert_eq!(c.base_scenario, "normal_traffic");
    assert_eq!(c.duration_minutes, 5);
    assert_eq!(c.tick_ms, 100);
    assert!(c.anomalies.is_empty());
    assert_eq!(c.batch_size, 0);
}

#[test]
fn predefined_scenarios() {
    let m = mixed_workload();
    assert_eq!(m.name, "Mixed Workload - All Anomaly Types");
    assert_eq!((m.duration_minutes, m.tick_ms, m.batch_size), (5, 100, 0));
    assert_eq!(
        anomalies_of(&m),
        owned(&[("credential_stuffing", 60, 60), ("memory_leak", 180, 120), ("traffic_spike", 240, 30)])
    );

    let s = security_audit();
    assert_eq!(s.name, "Security Audit - Attack Detection");
    assert_eq!((s.duration_minutes, s.tick_ms), (3, 50));
    assert_eq!(anomalies_of(&s), owned(&[("credential_stuffing", 30, 60), ("sql_injection", 120, 45)]));

    let p = performance_stress();
    assert_eq!(p.name, "Performance Stress Test");
    assert_eq!((p.duration_minutes, p.tick_ms), (5, 50));
    assert_eq!(anomalies_of(&p), owned(&[("cpu_spike", 60, 180), ("slow_queries", 180, 120)]));

    let t = throughput_test();
    assert_eq!(t.name, "Throughput Test");
    assert_eq!((t.duration_minutes, t.tick_ms), (2, 10));
    assert!(t.anomalies.is_empty());

    let c = cascade_failure();
    assert_eq!(c.name, "Cascade Failure Detection");
    assert_eq!((c.duration_minutes, c.tick_ms), (4, 100));
    assert_eq!(anomalies_of(&c), owned(&[("cascade_failure", 90, 60)]));

    let q = quick_validation();
    assert_eq!(q.name, "Quick Validation");
    assert_eq!((q.duration_minutes, q.tick_ms), (1, 100));
    assert_eq!(anomalies_of(&q), owned(&[("traffic_spike", 15, 15)]));

    for config in [m, s, p, t, c, q] {
        assert_eq!(config.base_scenario, "normal_traffic");
        assert_eq!(config.batch_size, 0);
    }
}

#[test]
fn scenario_names_for_the_pipeline() {
    assert_eq!(scenario_by_name("mixed").name, mixed_workload().name);
    assert_eq!(scenario_by_name("security").name, security_audit().name);
    assert_eq!(scenario_by_name("performance").name, performance_stress().name);
    assert_eq!(scenario_by_name("quick").name, quick_validation().name);
    let t = scenario_by_name("throughput");
    assert_eq!(t.name, "Pipeline Throughput");
    assert_eq!((t.duration_minutes, t.tick_ms), (2, 50));
    assert!(t.anomalies.is_empty());
    assert_eq!(scenario_by_name("unknown").name, "Quick Validation");
    assert_eq!(scenario_by_name("Mixed").name, "Quick Validation");
}

#[test]
fn pipeline_defaults_and_drain_timeout() {
    let c = PipelineBenchmarkConfig::default();
    assert_eq!(c.benchmark.name, "Quick Validation");
    assert_eq!(c.tier2_base_url, "http://127.0.0.1:3000");
    assert_eq!(c.send_batch_size, 256);
    assert_eq!(c.drain_timeout_secs, 900);

    assert_eq!(drain_timeout_secs(900, 0), 900);
    assert_eq!(drain_timeout_secs(10, 0), 120);
    assert_eq!(drain_timeout_secs(900, 50_000), 1000);
    assert_eq!(drain_timeout_secs(900, 45_049), 900);
}

#[test]
fn tick_plan_and_anomaly_windows() {
    let q = quick_validation();
    assert_eq!(q.tick_plan(), (100_000_000, 600));
    let m = mixed_workload();
    assert_eq!(m.tick_plan(), (100_000_000, 3000));
    let mut odd = BenchmarkConfig::default();
    odd.duration_minutes = 1;
    odd.tick_ms = 7;
    // 60 s in 7 ms ticks: only whole ticks count.
    assert_eq!(odd.tick_plan(), (7_000_000, 8571));
    let a = AnomalySpec { scenario: "ddos".to_string(), start_time_sec: 90, duration_sec: 60 };
    assert_eq!(a.window_ns(), (90_000_000_000, 60_000_000_000));
}

#[test]
fn confusion_counts() {
    let events = [
        (true, true),
        (true, false),
        (false, true),
        (false, false),
        (true, true),
        (false, false),
        (false, false),
    ];
    let c = tally_detections(&events);
    assert_eq!(c.total_events, 7);
    assert_eq!(c.tp, 2);
    assert_eq!(c.fp, 1);
    assert_eq!(c.fn_, 1);
    assert_eq!(c.tn, 3);
    assert_eq!(c.gt_events, 3);
    assert_eq!(c.sent, 3);
    assert_eq!(c.tp + c.fp + c.tn + c.fn_, c.total_events);

    let empty = tally_detections(&[]);
    assert_eq!(empty.total_events, 0);
    assert_eq!(empty.tp + empty.fp + empty.tn + empty.fn_, 0);

    let mut counts = DetectionCounts::default();
    counts.record(true, false);
    counts.record(false, true);
    assert_eq!(counts.total_events, 2);
    assert_eq!((counts.tp, counts.fp, counts.tn, counts.fn_), (0, 1, 0, 1));
    assert_eq!(counts.gt_events, 1);
    assert_eq!(counts.sent, 1);
}

//! Predefined benchmark configurations.

use vstd::prelude::*;

use super::{config_view, AnomalySpec, BenchmarkConfig, BenchmarkConfigView};

verus! {

broadcast use vstd::string::group_string_axioms;

/// Five minutes of normal traffic with credential stuffing, a memory leak and a
/// traffic spike.
pub open spec fn mixed_workload_config() -> BenchmarkConfigView {
    config_view(
        "Mixed Workload - All Anomaly Types"@,
        5,
        100,
        seq![
            ("credential_stuffing"@, 60u64, 60u64),
            ("memory_leak"@, 180u64, 120u64),
            ("traffic_spike"@, 240u64, 30u64),
        ],
    )
}

/// Three minutes of normal traffic with credential stuffing and SQL injection.
pub open spec fn security_audit_config() -> BenchmarkConfigView {
    config_view(
        "Security Audit - Attack Detection"@,
        3,
        50,
        seq![("credential_stuffing"@, 30u64, 60u64), ("sql_injection"@, 120u64, 45u64)],
    )
}

/// Five minutes of normal traffic with a CPU spike and slow queries.
pub open spec fn performance_stress_config() -> BenchmarkConfigView {
    config_view(
        "Performance Stress Test"@,
        5,
        50,
        seq![("cpu_spike"@, 60u64, 180u64), ("slow_queries"@, 180u64, 120u64)],
    )
}

/// Two minutes of normal traffic in 10 ms ticks, no anomalies.
pub open spec fn throughput_test_config() -> BenchmarkConfigView {
    config_view("Throughput Test"@, 2, 10, Seq::empty())
}

/// Four minutes of normal traffic with a cascade failure.
pub open spec fn cascade_failure_config() -> BenchmarkConfigView {
    config_view("Cascade Failure Detection"@, 4, 100, seq![("cascade_failure"@, 90u64, 60u64)])
}

/// One minute of normal traffic with a traffic spike.
pub open spec fn quick_validation_config() -> BenchmarkConfigView {
    config_view("Quick Validation"@, 1, 100, seq![("traffic_spike"@, 15u64, 15u64)])
}

fn anomaly(scenario: &str, start_time_sec: u64, duration_sec: u64) -> (r: AnomalySpec)
    ensures
        r@ == (scenario@, start_time_sec, duration_sec),
{
    AnomalySpec { scenario: scenario.to_string(), start_time_sec, duration_sec }
}

fn normal_traffic_config(
    name: &str,
    duration_minutes: u64,
    tick_ms: u64,
    anomalies: Vec<AnomalySpec>,
) -> (r: BenchmarkConfig)
    ensures
        r@ == config_view(
            name@,
            duration_minutes,
            tick_ms,
            anomalies@.map_values(|a: AnomalySpec| a@),
        ),
{
    BenchmarkConfig {
        name: name.to_string(),
        base_scenario: "normal_traffic".to_string(),
        duration_minutes,
        tick_ms,
        anomalies,
        batch_size: 0,
    }
}

/// Standard mixed workload with several anomaly kinds.
pub fn mixed_workload() -> (r: BenchmarkConfig)
    ensures
        r@ == mixed_workload_config(),
{
    let anomalies = vec![
        anomaly("credential_stuffing", 60, 60),
        anomaly("memory_leak", 180, 120),
        anomaly("traffic_spike", 240, 30),
    ];
    let r = normal_traffic_config("Mixed Workload - All Anomaly Types", 5, 100, anomalies);
    assert(r@.anomalies =~= mixed_workload_config().anomalies);
    r
}

/// Security-focused benchmark.
pub fn security_audit() -> (r: BenchmarkConfig)
    ensures
        r@ == security_audit_config(),
{
    let anomalies = vec![
        anomaly("credential_stuffing", 30, 60),
        anomaly("sql_injection", 120, 45),
    ];
    let r = normal_traffic_config("Security Audit - Attack Detection", 3, 50, anomalies);
    assert(r@.anomalies =~= security_audit_config().anomalies);
    r
}

/// Performance-focused benchmark.
pub fn performance_stress() -> (r: BenchmarkConfig)
    ensures
        r@ == performance_stress_config(),
{
    let anomalies = vec![anomaly("cpu_spike", 60, 180), anomaly("slow_queries", 180, 120)];
    let r = normal_traffic_config("Performance Stress Test", 5, 50, anomalies);
    assert(r@.anomalies =~= performance_stress_config().anomalies);
    r
}

/// High-throughput benchmark without anomalies.
pub fn throughput_test() -> (r: BenchmarkConfig)
    ensures
        r@ == throughput_test_config(),
{
    let r = normal_traffic_config("Throughput Test", 2, 10, Vec::new());
    assert(r@.anomalies =~= throughput_test_config().anomalies);
    r
}

/// Cascade failure benchmark.
pub fn cascade_failure() -> (r: BenchmarkConfig)
    ensures
        r@ == cascade_failure_config(),
{
    let anomalies = vec![anomaly("cascade_failure", 90, 60)];
    let r = normal_traffic_config("Cascade Failure Detection", 4, 100, anomalies);
    assert(r@.anomalies =~= cascade_failure_config().anomalies);
    r
}

/// Quick validation benchmark.
pub fn quick_validation() -> (r: BenchmarkConfig)
    ensures
        r@ == quick_validation_config(),
{
    let anomalies = vec![anomaly("traffic_spike", 15, 15)];
    let r = normal_traffic_config("Quick Validation", 1, 100, anomalies);
    assert(r@.anomalies =~= quick_validation_config().anomalies);
    r
}

} // verus!

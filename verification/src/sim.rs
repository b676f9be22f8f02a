//! Simulation control metadata: scenario catalogue, API routes and responses,
//! engine state, and ground-truth tracking of injected anomalies.

use vstd::prelude::*;
use vstd::std_specs::convert::IntoSpec;

use crate::decimal::{parse_u64, parse_u64_spec};

verus! {

broadcast use vstd::string::group_string_axioms;

/// The scenarios the simulator offers: (name, description).
pub open spec fn scenario_catalog() -> Seq<(Seq<char>, Seq<char>)> {
    seq![
        ("normal_traffic"@, "Normal baseline traffic with realistic patterns"@),
        ("credential_stuffing"@, "Brute force login attempts from multiple IPs"@),
        ("sql_injection"@, "SQL injection probe attacks"@),
        ("port_scan"@, "Network port scanning activity"@),
        ("memory_leak"@, "Gradual memory consumption leading to OOM"@),
        ("cpu_spike"@, "High CPU utilization causing timeouts"@),
        ("infinite_loop"@, "Stack overflow from infinite recursion"@),
        ("ddos"@, "Distributed denial of service attack"@),
        ("cascade_failure"@, "Service failure propagating through dependencies"@),
        ("data_exfiltration"@, "Suspicious large data transfers"@),
        ("slow_queries"@, "Database performance degradation"@),
        ("error_spike"@, "Sudden increase in error rates"@),
        ("traffic_spike"@, "Sudden traffic burst"@),
    ]
}

/// The scenarios the simulator can build.
#[derive(Debug, Clone, Copy, PartialEq, Eq, Structural)]
pub enum ScenarioKind {
    NormalTraffic,
    CredentialStuffing,
    SqlInjection,
    PortScan,
    MemoryLeak,
    CpuSpike,
    InfiniteLoop,
    DdosAttack,
    CascadeFailure,
    DataExfiltration,
    SlowQueries,
    ErrorRateSpike,
    TrafficSpike,
}

/// The scenario a lower-cased name (or one of its aliases) stands for.
pub open spec fn scenario_kind_of(lower: Seq<char>) -> Option<ScenarioKind> {
    if lower == "normal_traffic"@ || lower == "normal"@ {
        Some(ScenarioKind::NormalTraffic)
    } else if lower == "credential_stuffing"@ || lower == "brute_force"@ {
        Some(ScenarioKind::CredentialStuffing)
    } else if lower == "sql_injection"@ || lower == "sqli"@ {
        Some(ScenarioKind::SqlInjection)
    } else if lower == "port_scan"@ {
        Some(ScenarioKind::PortScan)
    } else if lower == "memory_leak"@ {
        Some(ScenarioKind::MemoryLeak)
    } else if lower == "cpu_spike"@ {
        Some(ScenarioKind::CpuSpike)
    } else if lower == "infinite_loop"@ || lower == "stack_overflow"@ {
        Some(ScenarioKind::InfiniteLoop)
    } else if lower == "ddos"@ || lower == "ddos_attack"@ {
        Some(ScenarioKind::DdosAttack)
    } else if lower == "cascade_failure"@ || lower == "cascade"@ {
        Some(ScenarioKind::CascadeFailure)
    } else if lower == "data_exfiltration"@ || lower == "exfil"@ {
        Some(ScenarioKind::DataExfiltration)
    } else if lower == "slow_queries"@ {
        Some(ScenarioKind::SlowQueries)
    } else if lower == "error_spike"@ {
        Some(ScenarioKind::ErrorRateSpike)
    } else if lower == "traffic_spike"@ {
        Some(ScenarioKind::TrafficSpike)
    } else {
        None
    }
}

/// The name under which the catalogue lists a scenario.
pub open spec fn kind_name(k: ScenarioKind) -> Seq<char> {
    match k {
        ScenarioKind::NormalTraffic => "normal_traffic"@,
        ScenarioKind::CredentialStuffing => "credential_stuffing"@,
        ScenarioKind::SqlInjection => "sql_injection"@,
        ScenarioKind::PortScan => "port_scan"@,
        ScenarioKind::MemoryLeak => "memory_leak"@,
        ScenarioKind::CpuSpike => "cpu_spike"@,
        ScenarioKind::InfiniteLoop => "infinite_loop"@,
        ScenarioKind::DdosAttack => "ddos"@,
        ScenarioKind::CascadeFailure => "cascade_failure"@,
        ScenarioKind::DataExfiltration => "data_exfiltration"@,
        ScenarioKind::SlowQueries => "slow_queries"@,
        ScenarioKind::ErrorRateSpike => "error_spike"@,
        ScenarioKind::TrafficSpike => "traffic_spike"@,
    }
}

/// Every catalogue name selects the scenario listed under it, and every scenario is
/// selected by its catalogue name: the i-th listed name gives a scenario whose name is
/// that one, so distinct listed names give distinct scenarios.
pub proof fn lemma_catalogue_names_select_their_scenarios(k: ScenarioKind)
    ensures
        scenario_kind_of(kind_name(k)) == Some(k),
        scenario_kind_of("normal"@) == Some(ScenarioKind::NormalTraffic),
        scenario_kind_of("brute_force"@) == Some(ScenarioKind::CredentialStuffing),
        scenario_kind_of("sqli"@) == Some(ScenarioKind::SqlInjection),
        scenario_kind_of("stack_overflow"@) == Some(ScenarioKind::InfiniteLoop),
        scenario_kind_of("ddos_attack"@) == Some(ScenarioKind::DdosAttack),
        scenario_kind_of("cascade"@) == Some(ScenarioKind::CascadeFailure),
        scenario_kind_of("exfil"@) == Some(ScenarioKind::DataExfiltration),
        forall|i: int|
            0 <= i < scenario_catalog().len() ==> (#[trigger] scenario_kind_of(
                scenario_catalog()[i].0,
            ) matches Some(c) && kind_name(c) == scenario_catalog()[i].0),
{
    reveal_strlit("normal_traffic");
    reveal_strlit("credential_stuffing");
    reveal_strlit("sql_injection");
    reveal_strlit("port_scan");
    reveal_strlit("memory_leak");
    reveal_strlit("cpu_spike");
    reveal_strlit("infinite_loop");
    reveal_strlit("ddos");
    reveal_strlit("cascade_failure");
    reveal_strlit("data_exfiltration");
    reveal_strlit("slow_queries");
    reveal_strlit("error_spike");
    reveal_strlit("traffic_spike");
    reveal_strlit("normal");
    reveal_strlit("brute_force");
    reveal_strlit("sqli");
    reveal_strlit("stack_overflow");
    reveal_strlit("ddos_attack");
    reveal_strlit("cascade");
    reveal_strlit("exfil");
    assert("credential_stuffing"@[0] != "normal_traffic"@[0]);
    assert("credential_stuffing"@[0] != "normal"@[0]);
    assert("sql_injection"@[0] != "normal_traffic"@[0]);
    assert("sql_injection"@[0] != "normal"@[0]);
    assert("sql_injection"@[0] != "credential_stuffing"@[0]);
    assert("sql_injection"@[0] != "brute_force"@[0]);
    assert("port_scan"@[0] != "normal_traffic"@[0]);
    assert("port_scan"@[0] != "normal"@[0]);
    assert("port_scan"@[0] != "credential_stuffing"@[0]);
    assert("port_scan"@[0] != "brute_force"@[0]);
    assert("port_scan"@[0] != "sql_injection"@[0]);
    assert("port_scan"@[0] != "sqli"@[0]);
    assert("memory_leak"@[0] != "normal_traffic"@[0]);
    assert("memory_leak"@[0] != "normal"@[0]);
    assert("memory_leak"@[0] != "credential_stuffing"@[0]);
    assert("memory_leak"@[0] != "brute_force"@[0]);
    assert("memory_leak"@[0] != "sql_injection"@[0]);
    assert("memory_leak"@[0] != "sqli"@[0]);
    assert("memory_leak"@[0] != "port_scan"@[0]);
    assert("cpu_spike"@[0] != "normal_traffic"@[0]);
    assert("cpu_spike"@[0] != "normal"@[0]);
    assert("cpu_spike"@[1] != "credential_stuffing"@[1]);
    assert("cpu_spike"@[0] != "brute_force"@[0]);
    assert("cpu_spike"@[0] != "sql_injection"@[0]);
    assert("cpu_spike"@[0] != "sqli"@[0]);
    assert("cpu_spike"@[0] != "port_scan"@[0]);
    assert("cpu_spike"@[0] != "memory_leak"@[0]);
    assert("infinite_loop"@[0] != "normal_traffic"@[0]);
    assert("infinite_loop"@[0] != "normal"@[0]);
    assert("infinite_loop"@[0] != "credential_stuffing"@[0]);
    assert("infinite_loop"@[0] != "brute_force"@[0]);
    assert("infinite_loop"@[0] != "sql_injection"@[0]);
    assert("infinite_loop"@[0] != "sqli"@[0]);
    assert("infinite_loop"@[0] != "port_scan"@[0]);
    assert("infinite_loop"@[0] != "memory_leak"@[0]);
    assert("infinite_loop"@[0] != "cpu_spike"@[0]);
    assert("ddos"@[0] != "normal_traffic"@[0]);
    assert("ddos"@[0] != "normal"@[0]);
    assert("ddos"@[0] != "credential_stuffing"@[0]);
    assert("ddos"@[0] != "brute_force"@[0]);
    assert("ddos"@[0] != "sql_injection"@[0]);
    assert("ddos"@[0] != "sqli"@[0]);
    assert("ddos"@[0] != "port_scan"@[0]);
    assert("ddos"@[0] != "memory_leak"@[0]);
    assert("ddos"@[0] != "cpu_spike"@[0]);
    assert("ddos"@[0] != "infinite_loop"@[0]);
    assert("ddos"@[0] != "stack_overflow"@[0]);
    assert("cascade_failure"@[0] != "normal_traffic"@[0]);
    assert("cascade_failure"@[0] != "normal"@[0]);
    assert("cascade_failure"@[1] != "credential_stuffing"@[1]);
    assert("cascade_failure"@[0] != "brute_force"@[0]);
    assert("cascade_failure"@[0] != "sql_injection"@[0]);
    assert("cascade_failure"@[0] != "sqli"@[0]);
    assert("cascade_failure"@[0] != "port_scan"@[0]);
    assert("cascade_failure"@[0] != "memory_leak"@[0]);
    assert("cascade_failure"@[1] != "cpu_spike"@[1]);
    assert("cascade_failure"@[0] != "infinite_loop"@[0]);
    assert("cascade_failure"@[0] != "stack_overflow"@[0]);
    assert("cascade_failure"@[0] != "ddos"@[0]);
    assert("cascade_failure"@[0] != "ddos_attack"@[0]);
    assert("data_exfiltration"@[0] != "normal_traffic"@[0]);
    assert("data_exfiltration"@[0] != "normal"@[0]);
    assert("data_exfiltration"@[0] != "credential_stuffing"@[0]);
    assert("data_exfiltration"@[0] != "brute_force"@[0]);
    assert("data_exfiltration"@[0] != "sql_injection"@[0]);
    assert("data_exfiltration"@[0] != "sqli"@[0]);
    assert("data_exfiltration"@[0] != "port_scan"@[0]);
    assert("data_exfiltration"@[0] != "memory_leak"@[0]);
    assert("data_exfiltration"@[0] != "cpu_spike"@[0]);
    assert("data_exfiltration"@[0] != "infinite_loop"@[0]);
    assert("data_exfiltration"@[0] != "stack_overflow"@[0]);
    assert("data_exfiltration"@[1] != "ddos"@[1]);
    assert("data_exfiltration"@[1] != "ddos_attack"@[1]);
    assert("data_exfiltration"@[0] != "cascade_failure"@[0]);
    assert("data_exfiltration"@[0] != "cascade"@[0]);
    assert("slow_queries"@[0] != "normal_traffic"@[0]);
    assert("slow_queries"@[0] != "normal"@[0]);
    assert("slow_queries"@[0] != "credential_stuffing"@[0]);
    assert("slow_queries"@[0] != "brute_force"@[0]);
    assert("slow_queries"@[1] != "sql_injection"@[1]);
    assert("slow_queries"@[1] != "sqli"@[1]);
    assert("slow_queries"@[0] != "port_scan"@[0]);
    assert("slow_queries"@[0] != "memory_leak"@[0]);
    assert("slow_queries"@[0] != "cpu_spike"@[0]);
    assert("slow_queries"@[0] != "infinite_loop"@[0]);
    assert("slow_queries"@[1] != "stack_overflow"@[1]);
    assert("slow_queries"@[0] != "ddos"@[0]);
    assert("slow_queries"@[0] != "ddos_attack"@[0]);
    assert("slow_queries"@[0] != "cascade_failure"@[0]);
    assert("slow_queries"@[0] != "cascade"@[0]);
    assert("slow_queries"@[0] != "data_exfiltration"@[0]);
    assert("slow_queries"@[0] != "exfil"@[0]);
    assert("error_spike"@[0] != "normal_traffic"@[0]);
    assert("error_spike"@[0] != "normal"@[0]);
    assert("error_spike"@[0] != "credential_stuffing"@[0]);
    assert("error_spike"@[0] != "brute_force"@[0]);
    assert("error_spike"@[0] != "sql_injection"@[0]);
    assert("error_spike"@[0] != "sqli"@[0]);
    assert("error_spike"@[0] != "port_scan"@[0]);
    assert("error_spike"@[0] != "memory_leak"@[0]);
    assert("error_spike"@[0] != "cpu_spike"@[0]);
    assert("error_spike"@[0] != "infinite_loop"@[0]);
    assert("error_spike"@[0] != "stack_overflow"@[0]);
    assert("error_spike"@[0] != "ddos"@[0]);
    assert("error_spike"@[0] != "ddos_attack"@[0]);
    assert("error_spike"@[0] != "cascade_failure"@[0]);
    assert("error_spike"@[0] != "cascade"@[0]);
    assert("error_spike"@[0] != "data_exfiltration"@[0]);
    assert("error_spike"@[1] != "exfil"@[1]);
    assert("error_spike"@[0] != "slow_queries"@[0]);
    assert("traffic_spike"@[0] != "normal_traffic"@[0]);
    assert("traffic_spike"@[0] != "normal"@[0]);
    assert("traffic_spike"@[0] != "credential_stuffing"@[0]);
    assert("traffic_spike"@[0] != "brute_force"@[0]);
    assert("traffic_spike"@[0] != "sql_injection"@[0]);
    assert("traffic_spike"@[0] != "sqli"@[0]);
    assert("traffic_spike"@[0] != "port_scan"@[0]);
    assert("traffic_spike"@[0] != "memory_leak"@[0]);
    assert("traffic_spike"@[0] != "cpu_spike"@[0]);
    assert("traffic_spike"@[0] != "infinite_loop"@[0]);
    assert("traffic_spike"@[0] != "stack_overflow"@[0]);
    assert("traffic_spike"@[0] != "ddos"@[0]);
    assert("traffic_spike"@[0] != "ddos_attack"@[0]);
    assert("traffic_spike"@[0] != "cascade_failure"@[0]);
    assert("traffic_spike"@[0] != "cascade"@[0]);
    assert("traffic_spike"@[0] != "data_exfiltration"@[0]);
    assert("traffic_spike"@[0] != "exfil"@[0]);
    assert("traffic_spike"@[0] != "slow_queries"@[0]);
    assert("traffic_spike"@[0] != "error_spike"@[0]);
    assert("normal"@.len() != "normal_traffic"@.len());
    assert("brute_force"@[0] != "normal_traffic"@[0]);
    assert("brute_force"@[0] != "normal"@[0]);
    assert("brute_force"@[0] != "credential_stuffing"@[0]);
    assert("sqli"@[0] != "normal_traffic"@[0]);
    assert("sqli"@[0] != "normal"@[0]);
    assert("sqli"@[0] != "credential_stuffing"@[0]);
    assert("sqli"@[0] != "brute_force"@[0]);
    assert("sqli"@[3] != "sql_injection"@[3]);
    assert("stack_overflow"@[0] != "normal_traffic"@[0]);
    assert("stack_overflow"@[0] != "normal"@[0]);
    assert("stack_overflow"@[0] != "credential_stuffing"@[0]);
    assert("stack_overflow"@[0] != "brute_force"@[0]);
    assert("stack_overflow"@[1] != "sql_injection"@[1]);
    assert("stack_overflow"@[1] != "sqli"@[1]);
    assert("stack_overflow"@[0] != "port_scan"@[0]);
    assert("stack_overflow"@[0] != "memory_leak"@[0]);
    assert("stack_overflow"@[0] != "cpu_spike"@[0]);
    assert("stack_overflow"@[0] != "infinite_loop"@[0]);
    assert("ddos_attack"@[0] != "normal_traffic"@[0]);
    assert("ddos_attack"@[0] != "normal"@[0]);
    assert("ddos_attack"@[0] != "credential_stuffing"@[0]);
    assert("ddos_attack"@[0] != "brute_force"@[0]);
    assert("ddos_attack"@[0] != "sql_injection"@[0]);
    assert("ddos_attack"@[0] != "sqli"@[0]);
    assert("ddos_attack"@[0] != "port_scan"@[0]);
    assert("ddos_attack"@[0] != "memory_leak"@[0]);
    assert("ddos_attack"@[0] != "cpu_spike"@[0]);
    assert("ddos_attack"@[0] != "infinite_loop"@[0]);
    assert("ddos_attack"@[0] != "stack_overflow"@[0]);
    assert("ddos_attack"@.len() != "ddos"@.len());
    assert("cascade"@[0] != "normal_traffic"@[0]);
    assert("cascade"@[0] != "normal"@[0]);
    assert("cascade"@[1] != "credential_stuffing"@[1]);
    assert("cascade"@[0] != "brute_force"@[0]);
    assert("cascade"@[0] != "sql_injection"@[0]);
    assert("cascade"@[0] != "sqli"@[0]);
    assert("cascade"@[0] != "port_scan"@[0]);
    assert("cascade"@[0] != "memory_leak"@[0]);
    assert("cascade"@[1] != "cpu_spike"@[1]);
    assert("cascade"@[0] != "infinite_loop"@[0]);
    assert("cascade"@[0] != "stack_overflow"@[0]);
    assert("cascade"@[0] != "ddos"@[0]);
    assert("cascade"@[0] != "ddos_attack"@[0]);
    assert("cascade"@.len() != "cascade_failure"@.len());
    assert("exfil"@[0] != "normal_traffic"@[0]);
    assert("exfil"@[0] != "normal"@[0]);
    assert("exfil"@[0] != "credential_stuffing"@[0]);
    assert("exfil"@[0] != "brute_force"@[0]);
    assert("exfil"@[0] != "sql_injection"@[0]);
    assert("exfil"@[0] != "sqli"@[0]);
    assert("exfil"@[0] != "port_scan"@[0]);
    assert("exfil"@[0] != "memory_leak"@[0]);
    assert("exfil"@[0] != "cpu_spike"@[0]);
    assert("exfil"@[0] != "infinite_loop"@[0]);
    assert("exfil"@[0] != "stack_overflow"@[0]);
    assert("exfil"@[0] != "ddos"@[0]);
    assert("exfil"@[0] != "ddos_attack"@[0]);
    assert("exfil"@[0] != "cascade_failure"@[0]);
    assert("exfil"@[0] != "cascade"@[0]);
    assert("exfil"@[0] != "data_exfiltration"@[0]);
    assert(scenario_kind_of("normal_traffic"@) == Some(ScenarioKind::NormalTraffic));
    assert(scenario_kind_of("credential_stuffing"@) == Some(ScenarioKind::CredentialStuffing));
    assert(scenario_kind_of("sql_injection"@) == Some(ScenarioKind::SqlInjection));
    assert(scenario_kind_of("port_scan"@) == Some(ScenarioKind::PortScan));
    assert(scenario_kind_of("memory_leak"@) == Some(ScenarioKind::MemoryLeak));
    assert(scenario_kind_of("cpu_spike"@) == Some(ScenarioKind::CpuSpike));
    assert(scenario_kind_of("infinite_loop"@) == Some(ScenarioKind::InfiniteLoop));
    assert(scenario_kind_of("ddos"@) == Some(ScenarioKind::DdosAttack));
    assert(scenario_kind_of("cascade_failure"@) == Some(ScenarioKind::CascadeFailure));
    assert(scenario_kind_of("data_exfiltration"@) == Some(ScenarioKind::DataExfiltration));
    assert(scenario_kind_of("slow_queries"@) == Some(ScenarioKind::SlowQueries));
    assert(scenario_kind_of("error_spike"@) == Some(ScenarioKind::ErrorRateSpike));
    assert(scenario_kind_of("traffic_spike"@) == Some(ScenarioKind::TrafficSpike));
}

/// What `str::to_lowercase` makes of a string: each character replaced by its
/// Unicode lowercase mapping.
pub uninterp spec fn spec_to_lowercase(s: Seq<char>) -> Seq<char>;

/// Calls `str::to_lowercase`; its result is named `spec_to_lowercase` of the input.
#[verifier::external_body]
fn to_lowercase(s: &str) -> (r: String)
    ensures
        r@ == spec_to_lowercase(s@),
{
    s.to_lowercase()
}

/// The scenario a name stands for, ignoring case, with the aliases `normal`,
/// `brute_force`, `sqli`, `stack_overflow`, `ddos_attack`, `cascade` and `exfil`;
/// `None` for any other name.
pub fn scenario_kind(name: &str) -> (r: Option<ScenarioKind>)
    ensures
        r == scenario_kind_of(spec_to_lowercase(name@)),
{
    let lower = to_lowercase(name);
    if lower == "normal_traffic".to_string() || lower == "normal".to_string() {
        Some(ScenarioKind::NormalTraffic)
    } else if lower == "credential_stuffing".to_string() || lower == "brute_force".to_string() {
        Some(ScenarioKind::CredentialStuffing)
    } else if lower == "sql_injection".to_string() || lower == "sqli".to_string() {
        Some(ScenarioKind::SqlInjection)
    } else if lower == "port_scan".to_string() {
        Some(ScenarioKind::PortScan)
    } else if lower == "memory_leak".to_string() {
        Some(ScenarioKind::MemoryLeak)
    } else if lower == "cpu_spike".to_string() {
        Some(ScenarioKind::CpuSpike)
    } else if lower == "infinite_loop".to_string() || lower == "stack_overflow".to_string() {
        Some(ScenarioKind::InfiniteLoop)
    } else if lower == "ddos".to_string() || lower == "ddos_attack".to_string() {
        Some(ScenarioKind::DdosAttack)
    } else if lower == "cascade_failure".to_string() || lower == "cascade".to_string() {
        Some(ScenarioKind::CascadeFailure)
    } else if lower == "data_exfiltration".to_string() || lower == "exfil".to_string() {
        Some(ScenarioKind::DataExfiltration)
    } else if lower == "slow_queries".to_string() {
        Some(ScenarioKind::SlowQueries)
    } else if lower == "error_spike".to_string() {
        Some(ScenarioKind::ErrorRateSpike)
    } else if lower == "traffic_spike".to_string() {
        Some(ScenarioKind::TrafficSpike)
    } else {
        None
    }
}

/// Lists the available scenarios with their descriptions.
pub fn list_scenarios() -> (r: Vec<(&'static str, &'static str)>)
    ensures
        r@.len() == scenario_catalog().len(),
        forall|i: int|
            0 <= i < r@.len() ==> (#[trigger] r@[i].0@, r@[i].1@) == scenario_catalog()[i],
{
    let r = vec![
        ("normal_traffic", "Normal baseline traffic with realistic patterns"),
        ("credential_stuffing", "Brute force login attempts from multiple IPs"),
        ("sql_injection", "SQL injection probe attacks"),
        ("port_scan", "Network port scanning activity"),
        ("memory_leak", "Gradual memory consumption leading to OOM"),
        ("cpu_spike", "High CPU utilization causing timeouts"),
        ("infinite_loop", "Stack overflow from infinite recursion"),
        ("ddos", "Distributed denial of service attack"),
        ("cascade_failure", "Service failure propagating through dependencies"),
        ("data_exfiltration", "Suspicious large data transfers"),
        ("slow_queries", "Database performance degradation"),
        ("error_spike", "Sudden increase in error rates"),
        ("traffic_spike", "Sudden traffic burst"),
    ];
    r
}

/// The routes of the simulation control API: (method, path, description).
pub open spec fn api_route_table() -> Seq<(Seq<char>, Seq<char>, Seq<char>)> {
    seq![
        ("GET"@, "/scenarios"@, "List all available scenarios"@),
        ("GET"@, "/status"@, "Get current simulation status"@),
        ("GET"@, "/dashboard"@, "Get full dashboard state with metrics"@),
        ("POST"@, "/start"@, "Start simulation with scenario"@),
        ("POST"@, "/stop"@, "Stop the simulation"@),
        ("POST"@, "/pause"@, "Pause the simulation"@),
        ("POST"@, "/resume"@, "Resume paused simulation"@),
        ("POST"@, "/inject"@, "Inject an anomaly"@),
        ("POST"@, "/tick"@, "Manually advance simulation (debug)"@),
        ("POST"@, "/reset"@, "Reset all state"@),
    ]
}

/// Lists the control API routes.
pub fn get_api_routes() -> (r: Vec<(&'static str, &'static str, &'static str)>)
    ensures
        r@.len() == api_route_table().len(),
        forall|i: int|
            0 <= i < r@.len() ==> (#[trigger] r@[i].0@, r@[i].1@, r@[i].2@) == api_route_table()[i],
{
    let r = vec![
        ("GET", "/scenarios", "List all available scenarios"),
        ("GET", "/status", "Get current simulation status"),
        ("GET", "/dashboard", "Get full dashboard state with metrics"),
        ("POST", "/start", "Start simulation with scenario"),
        ("POST", "/stop", "Stop the simulation"),
        ("POST", "/pause", "Pause the simulation"),
        ("POST", "/resume", "Resume paused simulation"),
        ("POST", "/inject", "Inject an anomaly"),
        ("POST", "/tick", "Manually advance simulation (debug)"),
        ("POST", "/reset", "Reset all state"),
    ];
    r
}

/// HTTP control API configuration.
#[derive(Clone, Debug)]
pub struct ApiConfig {
    /// Host to bind to.
    pub host: String,
    /// Port to listen on.
    pub port: u16,
    /// Whether CORS is enabled.
    pub cors_enabled: bool,
    /// Tick interval in milliseconds.
    pub tick_interval_ms: u64,
}

impl Default for ApiConfig {
    fn default() -> (r: Self)
        ensures
            r.host@ == "127.0.0.1"@,
            r.port == 8080,
            r.cors_enabled,
            r.tick_interval_ms == 100,
    {
        ApiConfig {
            host: "127.0.0.1".to_string(),
            port: 8080,
            cors_enabled: true,
            tick_interval_ms: 100,
        }
    }
}

/// Request to inject an anomaly.
#[derive(Debug, Clone)]
pub struct InjectAnomalyRequest {
    pub anomaly_type: String,
    pub duration_ms: u64,
}

/// Default duration of an injected anomaly: 30 seconds.
pub fn default_duration_ms() -> (r: u64)
    ensures
        r == 30_000,
{
    30_000
}

/// Generic API response.
#[derive(Debug, Clone)]
pub struct ApiResponse<T> {
    pub success: bool,
    pub data: Option<T>,
    pub error: Option<String>,
}

impl<T> ApiResponse<T> {
    /// A successful response carrying `data`.
    pub fn success(data: T) -> (r: Self)
        ensures
            r.success,
            r.data == Some(data),
            r.error is None,
    {
        ApiResponse { success: true, data: Some(data), error: None }
    }

    /// A failed response carrying the message `msg`.
    pub fn error(msg: &str) -> (r: Self)
        ensures
            !r.success,
            r.data is None,
            r.error matches Some(e) && e@ == msg@,
    {
        ApiResponse { success: false, data: None, error: Some(msg.to_string()) }
    }
}

/// One entry of the scenario list.
#[derive(Debug, Clone)]
pub struct ScenarioInfo {
    pub name: String,
    pub description: String,
}

/// Available scenarios list response.
#[derive(Debug, Clone)]
pub struct ScenariosResponse {
    pub scenarios: Vec<ScenarioInfo>,
}

/// Handles `GET /scenarios`: the scenario catalogue, in order.
pub fn handle_list_scenarios() -> (r: ApiResponse<ScenariosResponse>)
    ensures
        r.success,
        r.error is None,
        r.data matches Some(d) && d.scenarios@.len() == scenario_catalog().len() && forall|i: int|
            0 <= i < d.scenarios@.len() ==> (#[trigger] d.scenarios@[i].name@, d.scenarios@[i].description@)
                == scenario_catalog()[i],
{
    let list = list_scenarios();
    let mut scenarios: Vec<ScenarioInfo> = Vec::new();
    let mut i: usize = 0;
    while i < list.len()
        invariant
            list@.len() == scenario_catalog().len(),
            forall|j: int|
                0 <= j < list@.len() ==> (#[trigger] list@[j].0@, list@[j].1@) == scenario_catalog()[j],
            i <= list@.len(),
            scenarios@.len() == i,
            forall|j: int|
                0 <= j < i ==> (#[trigger] scenarios@[j].name@, scenarios@[j].description@)
                    == scenario_catalog()[j],
        decreases list@.len() - i,
    {
        let (name, desc) = list[i];
        let info = ScenarioInfo { name: name.to_string(), description: desc.to_string() };
        scenarios.push(info);
        proof {
            assert((scenarios@[i as int].name@, scenarios@[i as int].description@) == (
            list@[i as int].0@, list@[i as int].1@));
        }
        i += 1;
    }
    ApiResponse::success(ScenariosResponse { scenarios })
}

/// Engine running state.
#[derive(Debug, Clone, Copy, PartialEq, Eq, Structural)]
pub enum EngineState {
    Stopped,
    Running,
    Paused,
}

impl EngineState {
    /// The state after a pause request: a running engine pauses, others stay.
    pub fn paused(self) -> (r: EngineState)
        ensures
            r == if self == EngineState::Running {
                EngineState::Paused
            } else {
                self
            },
    {
        if self == EngineState::Running {
            EngineState::Paused
        } else {
            self
        }
    }

    /// The state after a resume request: a paused or stopped engine runs.
    pub fn resumed(self) -> (r: EngineState)
        ensures
            r == EngineState::Running,
    {
        EngineState::Running
    }
}

/// Engine statistics.
#[derive(Debug, Clone, Default)]
pub struct EngineStats {
    pub total_logs: u64,
    pub total_anomaly_logs: u64,
    pub tick_count: u64,
    pub scenarios_activated: u64,
    pub scenarios_completed: u64,
}

/// Log severity of simulated records.
#[derive(Debug, Clone, Copy, PartialEq, Eq, Structural)]
pub enum Severity {
    Debug,
    Info,
    Warn,
    Error,
    Fatal,
}

/// A value of an OTel attribute or log body. A double is held by its IEEE-754 bits.
#[derive(Debug, Clone)]
#[allow(non_snake_case)]
pub enum AnyValue {
    String { stringValue: String },
    Int { intValue: i64 },
    Bool { boolValue: bool },
    Double { doubleValueBits: u64 },
}

/// A keyed attribute of an OTel record.
#[derive(Debug, Clone)]
pub struct KeyValue {
    pub key: String,
    pub value: AnyValue,
}

/// One OTel log record, with its ground-truth marking.
#[derive(Debug, Clone)]
#[allow(non_snake_case)]
pub struct LogRecord {
    pub timeUnixNano: String,
    pub traceId: String,
    pub spanId: String,
    pub severityNumber: u32,
    pub severityText: String,
    pub body: AnyValue,
    pub attributes: Vec<KeyValue>,
    /// Whether the log is part of an injected anomaly.
    pub isGroundTruthAnomaly: bool,
    /// The anomaly the log is part of, if any.
    pub anomalyId: Option<String>,
}

/// The value of the first attribute in `attrs` with key `key`.
pub open spec fn first_attribute(attrs: Seq<KeyValue>, key: Seq<char>) -> Option<AnyValue>
    decreases attrs.len(),
{
    if attrs.len() == 0 {
        None
    } else if attrs[0].key@ == key {
        Some(attrs[0].value)
    } else {
        first_attribute(attrs.drop_first(), key)
    }
}

/// The text of a value that is a string.
pub open spec fn string_of(v: AnyValue) -> Option<Seq<char>> {
    match v {
        AnyValue::String { stringValue } => Some(stringValue@),
        _ => None,
    }
}

/// The service a log names: its first `service.name` attribute, when that is a string.
pub open spec fn log_service_name(log: LogRecord) -> Option<Seq<char>> {
    match first_attribute(log.attributes@, "service.name"@) {
        Some(v) => string_of(v),
        None => None,
    }
}

proof fn lemma_first_attribute_skip(attrs: Seq<KeyValue>, key: Seq<char>, i: int)
    requires
        0 <= i <= attrs.len(),
        forall|j: int| 0 <= j < i ==> attrs[j].key@ != key,
    ensures
        first_attribute(attrs, key) == first_attribute(attrs.skip(i), key),
    decreases i,
{
    if i > 0 {
        lemma_first_attribute_skip(attrs.drop_first(), key, i - 1);
        assert(attrs.drop_first().skip(i - 1) =~= attrs.skip(i));
    } else {
        assert(attrs.skip(0) =~= attrs);
    }
}

impl AnyValue {
    /// A string value.
    pub fn string(s: &str) -> (r: Self)
        ensures
            string_of(r) == Some(s@),
    {
        AnyValue::String { stringValue: s.to_owned() }
    }

    /// An integer value.
    pub fn integer(i: i64) -> (r: Self)
        ensures
            r == (AnyValue::Int { intValue: i }),
    {
        AnyValue::Int { intValue: i }
    }

    /// A boolean value.
    pub fn bool(b: bool) -> (r: Self)
        ensures
            r == (AnyValue::Bool { boolValue: b }),
    {
        AnyValue::Bool { boolValue: b }
    }

    /// The text of a string value; `None` for any other value.
    pub fn as_str(&self) -> (r: Option<&str>)
        ensures
            match r {
                Some(t) => string_of(*self) == Some(t@),
                None => string_of(*self) is None,
            },
    {
        match self {
            AnyValue::String { stringValue } => Some(stringValue.as_str()),
            _ => None,
        }
    }

    /// The integer of an integer value; `None` for any other value.
    pub fn as_i64(&self) -> (r: Option<i64>)
        ensures
            r == match *self {
                AnyValue::Int { intValue } => Some(intValue),
                _ => None,
            },
    {
        match self {
            AnyValue::Int { intValue } => Some(*intValue),
            _ => None,
        }
    }
}

impl KeyValue {
    /// An attribute `key` with value `value`.
    pub fn new(key: &str, value: AnyValue) -> (r: Self)
        ensures
            r.key@ == key@,
            r.value == value,
    {
        KeyValue { key: key.to_owned(), value }
    }

    /// A string attribute.
    pub fn string(key: &str, value: &str) -> (r: Self)
        ensures
            r.key@ == key@,
            string_of(r.value) == Some(value@),
    {
        KeyValue::new(key, AnyValue::string(value))
    }

    /// An integer attribute.
    pub fn integer(key: &str, value: i64) -> (r: Self)
        ensures
            r.key@ == key@,
            r.value == (AnyValue::Int { intValue: value }),
    {
        KeyValue::new(key, AnyValue::integer(value))
    }

    /// A boolean attribute.
    pub fn bool(key: &str, value: bool) -> (r: Self)
        ensures
            r.key@ == key@,
            r.value == (AnyValue::Bool { boolValue: value }),
    {
        KeyValue::new(key, AnyValue::bool(value))
    }
}

impl Default for LogRecord {
    /// An INFO record at time "0" with an empty body, no attributes and no ground truth.
    fn default() -> (r: Self)
        ensures
            r.timeUnixNano@ == "0"@,
            r.traceId@.len() == 0,
            r.spanId@.len() == 0,
            r.severityNumber == 9,
            r.severityText@ == "INFO"@,
            string_of(r.body) == Some(Seq::<char>::empty()),
            r.attributes@.len() == 0,
            !r.isGroundTruthAnomaly,
            r.anomalyId is None,
    {
        let body = AnyValue::string("");
        proof {
            reveal_strlit("");
        }
        LogRecord {
            timeUnixNano: "0".to_owned(),
            traceId: String::new(),
            spanId: String::new(),
            severityNumber: 9,
            severityText: "INFO".to_owned(),
            body,
            attributes: Vec::new(),
            isGroundTruthAnomaly: false,
            anomalyId: None,
        }
    }
}

impl LogRecord {
    /// The value of the first attribute named `key`.
    pub fn get_attribute(&self, key: &str) -> (r: Option<&AnyValue>)
        ensures
            match r {
                Some(v) => first_attribute(self.attributes@, key@) == Some(*v),
                None => first_attribute(self.attributes@, key@) is None,
            },
    {
        let wanted = key.to_owned();
        let mut i: usize = 0;
        while i < self.attributes.len()
            invariant
                i <= self.attributes@.len(),
                wanted@ == key@,
                forall|j: int| 0 <= j < i ==> self.attributes@[j].key@ != key@,
            decreases self.attributes@.len() - i,
        {
            if self.attributes[i].key == wanted {
                proof {
                    let s = self.attributes@;
                    lemma_first_attribute_skip(s, key@, i as int);
                    assert(s.skip(i as int)[0] == s[i as int]);
                }
                return Some(&self.attributes[i].value);
            }
            i += 1;
        }
        proof {
            lemma_first_attribute_skip(self.attributes@, key@, i as int);
            assert(self.attributes@.skip(i as int).len() == 0);
        }
        None
    }

    /// The service the log names (see `log_service_name`).
    pub fn service_name(&self) -> (r: Option<&str>)
        ensures
            match r {
                Some(t) => log_service_name(*self) == Some(t@),
                None => log_service_name(*self) is None,
            },
    {
        let key = "service.name";
        proof {
            reveal_strlit("service.name");
        }
        match self.get_attribute(key) {
            Some(v) => v.as_str(),
            None => None,
        }
    }

    /// Marks the log as part of anomaly `anomaly_id`.
    pub fn mark_anomalous(&mut self, anomaly_id: String)
        ensures
            final(self).isGroundTruthAnomaly,
            final(self).anomalyId == Some(anomaly_id),
            final(self).timeUnixNano == old(self).timeUnixNano,
            final(self).traceId == old(self).traceId,
            final(self).spanId == old(self).spanId,
            final(self).severityNumber == old(self).severityNumber,
            final(self).severityText == old(self).severityText,
            final(self).body == old(self).body,
            final(self).attributes == old(self).attributes,
    {
        self.isGroundTruthAnomaly = true;
        self.anomalyId = Some(anomaly_id);
    }
}

/// Ground-truth record of one injected anomaly period.
#[derive(Debug)]
pub struct GroundTruth {
    /// Unique anomaly identifier.
    pub anomaly_id: String,
    /// Start timestamp (nanoseconds since the epoch).
    pub start_time_ns: u64,
    /// End timestamp (nanoseconds since the epoch).
    pub end_time_ns: u64,
    /// Type of anomaly injected.
    pub anomaly_type: String,
    /// Target services (empty = all services).
    pub target_services: Vec<String>,
    /// Number of logs generated during this anomaly.
    pub log_count: u64,
}

/// The values a ground-truth record holds.
pub struct GroundTruthView {
    pub anomaly_id: Seq<char>,
    pub start_time_ns: u64,
    pub end_time_ns: u64,
    pub anomaly_type: Seq<char>,
    pub target_services: Seq<Seq<char>>,
    pub log_count: u64,
}

impl View for GroundTruth {
    type V = GroundTruthView;

    open spec fn view(&self) -> GroundTruthView {
        GroundTruthView {
            anomaly_id: self.anomaly_id@,
            start_time_ns: self.start_time_ns,
            end_time_ns: self.end_time_ns,
            anomaly_type: self.anomaly_type@,
            target_services: self.target_services@.map_values(|s: String| s@),
            log_count: self.log_count,
        }
    }
}

impl Clone for GroundTruth {
    fn clone(&self) -> (r: Self)
        ensures
            r@ == self@,
    {
        let services = self.target_services.clone();
        proof {
            assert forall|i: int| 0 <= i < services@.len() implies services@[i]
                == self.target_services@[i] by {
                assert(cloned(self.target_services@[i], services@[i]));
            }
            assert(services@ =~= self.target_services@);
            assert(services@.map_values(|s: String| s@) =~= self.target_services@.map_values(
                |s: String| s@,
            ));
        }
        GroundTruth {
            anomaly_id: self.anomaly_id.clone(),
            start_time_ns: self.start_time_ns,
            end_time_ns: self.end_time_ns,
            anomaly_type: self.anomaly_type.clone(),
            target_services: services,
            log_count: self.log_count,
        }
    }
}

impl GroundTruth {
    /// A record with the given ID and type, an empty time window, all services and
    /// no logs yet.
    pub fn new<A: Into<String>, B: Into<String>>(id: A, anomaly_type: B) -> (r: Self)
        ensures
            A::obeys_into_spec() ==> r.anomaly_id == id.into_spec(),
            B::obeys_into_spec() ==> r.anomaly_type == anomaly_type.into_spec(),
            r.start_time_ns == 0,
            r.end_time_ns == 0,
            r.target_services@.len() == 0,
            r.log_count == 0,
    {
        GroundTruth {
            anomaly_id: id.into(),
            start_time_ns: 0,
            end_time_ns: 0,
            anomaly_type: anomaly_type.into(),
            target_services: Vec::new(),
            log_count: 0,
        }
    }

    /// Whether a log belongs to this anomaly period: its time stamp (nanoseconds in
    /// decimal; 0 when it does not parse) falls in the window, and the period targets
    /// all services or the log's service.
    pub fn matches_log(&self, log: &LogRecord) -> (r: bool)
        ensures
            r == ({
                let ts: u64 = match parse_u64_spec(log.timeUnixNano@) {
                    Some(t) => t,
                    None => 0,
                };
                &&& self.start_time_ns <= ts <= self.end_time_ns
                &&& (self@.target_services.len() == 0 || match log_service_name(*log) {
                    Some(s) => self@.target_services.contains(s),
                    None => false,
                })
            }),
    {
        let service = log.service_name();
        self.matches_time_and_service(log.timeUnixNano.as_str(), service)
    }

    fn matches_time_and_service(&self, time_unix_nano: &str, service_name: Option<&str>) -> (r: bool)
        ensures
            r == ({
                let ts: u64 = match parse_u64_spec(time_unix_nano@) {
                    Some(t) => t,
                    None => 0,
                };
                &&& self.start_time_ns <= ts <= self.end_time_ns
                &&& (self@.target_services.len() == 0 || match service_name {
                    Some(s) => self@.target_services.contains(s@),
                    None => false,
                })
            }),
    {
        let ts = match parse_u64(time_unix_nano) {
            Some(t) => t,
            None => 0,
        };
        if !self.contains_timestamp(ts) {
            return false;
        }
        if self.target_services.len() == 0 {
            return true;
        }
        match service_name {
            Some(s) => {
                let wanted = s.to_owned();
                let mut i: usize = 0;
                while i < self.target_services.len()
                    invariant
                        i <= self.target_services@.len(),
                        wanted@ == s@,
                        self.start_time_ns <= ts <= self.end_time_ns,
                        ts == match parse_u64_spec(time_unix_nano@) {
                            Some(t) => t,
                            None => 0,
                        },
                        self.target_services@.len() > 0,
                        service_name == Some(s),
                        forall|j: int| 0 <= j < i ==> self.target_services@[j]@ != s@,
                    decreases self.target_services@.len() - i,
                {
                    if self.target_services[i] == wanted {
                        proof {
                            assert(self@.target_services[i as int] == self.target_services@[i as int]@);
                            assert(self@.target_services[i as int] == s@);
                            assert(self@.target_services.contains(s@));
                        }
                        return true;
                    }
                    i += 1;
                }
                proof {
                    if self@.target_services.contains(s@) {
                        let j = choose|j: int|
                            0 <= j < self@.target_services.len() && self@.target_services[j] == s@;
                        assert(self.target_services@[j]@ == s@);
                    }
                }
                false
            },
            None => false,
        }
    }

    /// Whether a timestamp falls within the record's window (both ends included).
    pub fn contains_timestamp(&self, timestamp_ns: u64) -> (r: bool)
        ensures
            r == (self.start_time_ns <= timestamp_ns <= self.end_time_ns),
    {
        timestamp_ns >= self.start_time_ns && timestamp_ns <= self.end_time_ns
    }
}

/// Simulation batch metadata.
#[derive(Debug, Clone, Default)]
pub struct BatchMetadata {
    /// Current simulation time (nanoseconds since the epoch).
    pub timestamp_ns: u64,
    /// Time elapsed since simulation start (nanoseconds).
    pub elapsed_ns: u64,
    /// Total logs generated in this batch.
    pub log_count: u64,
    /// Logs marked as ground-truth anomalies.
    pub anomaly_log_count: u64,
    /// Active scenarios.
    pub active_scenarios: Vec<String>,
}

/// Simulation status.
#[derive(Debug, Clone)]
#[allow(non_snake_case)]
pub struct SimulationStatus {
    pub isRunning: bool,
    pub isPaused: bool,
    pub currentScenario: String,
    pub eventsGenerated: u64,
    pub anomalyLogsGenerated: u64,
    pub tickCount: u64,
    pub elapsedMs: u64,
    pub activeGroundTruth: Vec<GroundTruth>,
}

/// The values of a sequence of records.
pub open spec fn views_of(s: Seq<GroundTruth>) -> Seq<GroundTruthView> {
    s.map_values(|g: GroundTruth| g@)
}

/// Whether some record in `s` has the identifier `id`.
pub open spec fn has_id(s: Seq<GroundTruthView>, id: Seq<char>) -> bool {
    exists|i: int| 0 <= i < s.len() && #[trigger] s[i].anomaly_id == id
}

/// The position of the record with identifier `id` in `s`.
pub open spec fn id_index(s: Seq<GroundTruthView>, id: Seq<char>) -> int {
    choose|i: int| 0 <= i < s.len() && #[trigger] s[i].anomaly_id == id
}

/// A fresh record of an anomaly period: no target services, no logs yet.
pub open spec fn fresh_record(
    id: Seq<char>,
    anomaly_type: Seq<char>,
    start_ns: u64,
    end_ns: u64,
) -> GroundTruthView {
    GroundTruthView {
        anomaly_id: id,
        start_time_ns: start_ns,
        end_time_ns: end_ns,
        anomaly_type,
        target_services: Seq::empty(),
        log_count: 0,
    }
}

/// Tracks the ground truth of injected anomalies: active periods keyed by their
/// identifier, and completed periods in completion order.
pub struct GroundTruthTracker {
    active: Vec<GroundTruth>,
    completed: Vec<GroundTruth>,
}

impl GroundTruthTracker {
    /// Records of the active anomaly periods.
    pub closed spec fn active(&self) -> Seq<GroundTruthView> {
        views_of(self.active@)
    }

    /// Records of the completed anomaly periods, in completion order.
    pub closed spec fn completed(&self) -> Seq<GroundTruthView> {
        views_of(self.completed@)
    }

    /// Well-formedness: active identifiers are distinct.
    pub closed spec fn wf(&self) -> bool {
        forall|i: int, j: int|
            0 <= i < j < self.active@.len() ==> self.active@[i].anomaly_id@
                != self.active@[j].anomaly_id@
    }

    /// A tracker with no records.
    pub fn new() -> (r: Self)
        ensures
            r.wf(),
            r.active() == Seq::<GroundTruthView>::empty(),
            r.completed() == Seq::<GroundTruthView>::empty(),
    {
        let r = GroundTruthTracker { active: Vec::new(), completed: Vec::new() };
        proof {
            assert(views_of(r.active@) =~= Seq::<GroundTruthView>::empty());
            assert(views_of(r.completed@) =~= Seq::<GroundTruthView>::empty());
        }
        r
    }

    /// Position of the active record with identifier `id`.
    fn find(&self, id: &String) -> (r: Option<usize>)
        requires
            self.wf(),
        ensures
            match r {
                Some(i) => i < self.active@.len() && self.active@[i as int].anomaly_id@ == id@
                    && has_id(self.active(), id@) && id_index(self.active(), id@) == i,
                None => !has_id(self.active(), id@),
            },
    {
        let mut i: usize = 0;
        while i < self.active.len()
            invariant
                self.wf(),
                i <= self.active@.len(),
                forall|j: int| 0 <= j < i ==> self.active@[j].anomaly_id@ != id@,
            decreases self.active@.len() - i,
        {
            if self.active[i].anomaly_id == *id {
                proof {
                    let s = self.active();
                    assert(s[i as int].anomaly_id == id@);
                    let k = id_index(s, id@);
                    assert(s[k].anomaly_id == id@);
                    assert(self.active@[k].anomaly_id@ == id@);
                }
                return Some(i);
            }
            i += 1;
        }
        proof {
            assert forall|j: int| 0 <= j < self.active().len() implies #[trigger] self.active()[j].anomaly_id
                != id@ by {
                assert(self.active()[j].anomaly_id == self.active@[j].anomaly_id@);
            }
        }
        None
    }

    /// Starts tracking anomaly period `id`, replacing an active record with that
    /// identifier.
    pub fn start_anomaly(&mut self, id: String, anomaly_type: String, start_ns: u64, end_ns: u64)
        requires
            old(self).wf(),
        ensures
            final(self).wf(),
            final(self).completed() == old(self).completed(),
            has_id(old(self).active(), id@) ==> final(self).active() == old(self).active().update(
                id_index(old(self).active(), id@),
                fresh_record(id@, anomaly_type@, start_ns, end_ns),
            ),
            !has_id(old(self).active(), id@) ==> final(self).active() == old(self).active().push(
                fresh_record(id@, anomaly_type@, start_ns, end_ns),
            ),
    {
        let ghost rec = fresh_record(id@, anomaly_type@, start_ns, end_ns);
        let found = self.find(&id);
        let ghost a0 = self.active@;
        let gt = GroundTruth {
            anomaly_id: id,
            start_time_ns: start_ns,
            end_time_ns: end_ns,
            anomaly_type,
            target_services: Vec::new(),
            log_count: 0,
        };
        proof {
            assert(gt@.target_services =~= Seq::<Seq<char>>::empty());
            assert(gt@ == rec);
        }
        match found {
            Some(i) => {
                self.active.set(i, gt);
                proof {
                    assert(views_of(self.active@) =~= views_of(a0).update(i as int, rec));
                }
            },
            None => {
                self.active.push(gt);
                proof {
                    assert(views_of(self.active@) =~= views_of(a0).push(rec));
                    assert forall|j: int| 0 <= j < a0.len() implies a0[j].anomaly_id@ != rec.anomaly_id by {
                        assert(views_of(a0)[j].anomaly_id == a0[j].anomaly_id@);
                    }
                }
            },
        }
    }

    /// Counts one log of the active anomaly period `anomaly_id`, if tracked.
    pub fn record_log(&mut self, anomaly_id: &str)
        requires
            old(self).wf(),
            has_id(old(self).active(), anomaly_id@) ==> old(self).active()[id_index(
                old(self).active(),
                anomaly_id@,
            )].log_count < u64::MAX,
        ensures
            final(self).wf(),
            final(self).completed() == old(self).completed(),
            has_id(old(self).active(), anomaly_id@) ==> final(self).active() == old(
                self,
            ).active().update(
                id_index(old(self).active(), anomaly_id@),
                GroundTruthView {
                    log_count: (old(self).active()[id_index(
                        old(self).active(),
                        anomaly_id@,
                    )].log_count + 1) as u64,
                    ..old(self).active()[id_index(old(self).active(), anomaly_id@)]
                },
            ),
            !has_id(old(self).active(), anomaly_id@) ==> final(self).active() == old(self).active(),
    {
        let key = anomaly_id.to_owned();
        match self.find(&key) {
            Some(i) => {
                let ghost a0 = self.active@;
                self.active[i].log_count = self.active[i].log_count + 1;
                proof {
                    assert(views_of(self.active@) =~= views_of(a0).update(
                        i as int,
                        GroundTruthView { log_count: (a0[i as int].log_count + 1) as u64, ..a0[i as int]@ },
                    ));
                    assert forall|x: int, y: int| 0 <= x < y < self.active@.len() implies self.active@[x].anomaly_id@
                        != self.active@[y].anomaly_id@ by {
                        assert(self.active@[x].anomaly_id@ == a0[x].anomaly_id@);
                        assert(self.active@[y].anomaly_id@ == a0[y].anomaly_id@);
                    }
                }
            },
            None => {},
        }
    }

    /// Ends the active anomaly period `id` at `current_time_ns`, moving its record to
    /// the completed ones.
    pub fn finalize_anomaly(&mut self, id: &str, current_time_ns: u64)
        requires
            old(self).wf(),
        ensures
            final(self).wf(),
            has_id(old(self).active(), id@) ==> final(self).active() == old(self).active().remove(
                id_index(old(self).active(), id@),
            ) && final(self).completed() == old(self).completed().push(
                GroundTruthView {
                    end_time_ns: current_time_ns,
                    ..old(self).active()[id_index(old(self).active(), id@)]
                },
            ),
            !has_id(old(self).active(), id@) ==> final(self).active() == old(self).active()
                && final(self).completed() == old(self).completed(),
    {
        let key = id.to_owned();
        match self.find(&key) {
            Some(i) => {
                let ghost a0 = self.active@;
                let ghost c0 = self.completed@;
                let mut gt = self.active.remove(i);
                gt.end_time_ns = current_time_ns;
                self.completed.push(gt);
                proof {
                    assert(views_of(self.active@) =~= views_of(a0).remove(i as int));
                    assert(views_of(self.completed@) =~= views_of(c0).push(
                        GroundTruthView { end_time_ns: current_time_ns, ..a0[i as int]@ },
                    ));
                    assert forall|x: int, y: int| 0 <= x < y < self.active@.len() implies self.active@[x].anomaly_id@
                        != self.active@[y].anomaly_id@ by {
                        let sx = if x < i { x } else { x + 1 };
                        let sy = if y < i { y } else { y + 1 };
                        assert(self.active@[x] == a0[sx]);
                        assert(self.active@[y] == a0[sy]);
                    }
                }
            },
            None => {},
        }
    }

    /// Every record: the active ones, then the completed ones.
    pub fn get_current_ground_truth(&self) -> (r: Vec<GroundTruth>)
        ensures
            views_of(r@) == self.active() + self.completed(),
    {
        let mut all: Vec<GroundTruth> = Vec::new();
        let mut i: usize = 0;
        while i < self.active.len()
            invariant
                i <= self.active@.len(),
                views_of(all@) == views_of(self.active@.take(i as int)),
            decreases self.active@.len() - i,
        {
            let g = self.active[i].clone();
            let ghost before = all@;
            all.push(g);
            proof {
                assert(self.active@.take(i + 1) =~= self.active@.take(i as int).push(self.active@[i as int]));
                assert(views_of(all@) =~= views_of(before).push(g@));
                assert(views_of(self.active@.take(i + 1)) =~= views_of(self.active@.take(i as int)).push(
                    self.active@[i as int]@,
                ));
            }
            i += 1;
        }
        let mut j: usize = 0;
        while j < self.completed.len()
            invariant
                j <= self.completed@.len(),
                views_of(all@) == views_of(self.active@) + views_of(self.completed@.take(j as int)),
            decreases self.completed@.len() - j,
        {
            let g = self.completed[j].clone();
            let ghost before = all@;
            all.push(g);
            proof {
                assert(self.completed@.take(j + 1) =~= self.completed@.take(j as int).push(
                    self.completed@[j as int],
                ));
                assert(views_of(all@) =~= views_of(before).push(g@));
                assert(views_of(self.completed@.take(j + 1)) =~= views_of(
                    self.completed@.take(j as int),
                ).push(self.completed@[j as int]@));
            }
            j += 1;
        }
        proof {
            assert(self.active@.take(self.active@.len() as int) =~= self.active@);
            assert(self.completed@.take(self.completed@.len() as int) =~= self.completed@);
        }
        all
    }

    /// The log count of the active anomaly period `id`, if tracked.
    pub fn log_count_of(&self, id: &str) -> (r: Option<u64>)
        requires
            self.wf(),
        ensures
            has_id(self.active(), id@) ==> r == Some(
                self.active()[id_index(self.active(), id@)].log_count,
            ),
            !has_id(self.active(), id@) ==> r is None,
    {
        let key = id.to_owned();
        match self.find(&key) {
            Some(i) => {
                proof {
                    assert(self.active()[i as int] == self.active@[i as int]@);
                }
                Some(self.active[i].log_count)
            },
            None => None,
        }
    }

    /// Forgets every record.
    pub fn reset(&mut self)
        ensures
            final(self).wf(),
            final(self).active() == Seq::<GroundTruthView>::empty(),
            final(self).completed() == Seq::<GroundTruthView>::empty(),
    {
        self.active.clear();
        self.completed.clear();
        proof {
            assert(views_of(self.active@) =~= Seq::<GroundTruthView>::empty());
            assert(views_of(self.completed@) =~= Seq::<GroundTruthView>::empty());
        }
    }
}

} // verus!

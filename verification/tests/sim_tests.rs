use via_core::sim::{
    scenario_kind, ScenarioKind,
    default_duration_ms, get_api_routes, handle_list_scenarios, list_scenarios, AnyValue, ApiConfig,
    ApiResponse, EngineState, GroundTruth, GroundTruthTracker, KeyValue, LogRecord,
};

#[test]
fn test_list_scenarios() {
    let response = handle_list_scenarios();
    assert!(response.success);
    assert!(response.data.is_some());
    let data = response.data.unwrap();
    assert!(!data.scenarios.is_empty());
}

#[test]
fn scenario_listing_matches_catalogue() {
    let list = list_scenarios();
    assert_eq!(list.len(), 13);
    assert_eq!(list[0], ("normal_traffic", "Normal baseline traffic with realistic patterns"));
    assert_eq!(list[12], ("traffic_spike", "Sudden traffic burst"));
    let data = handle_list_scenarios().data.unwrap();
    assert_eq!(data.scenarios.len(), list.len());
    for (info, (name, description)) in data.scenarios.iter().zip(list.iter()) {
        assert_eq!(info.name, *name);
        assert_eq!(info.description, *description);
    }
}

#[test]
fn api_routes_and_defaults() {
    let routes = get_api_routes();
    assert_eq!(routes.len(), 10);
    assert_eq!(routes[0], ("GET", "/scenarios", "List all available scenarios"));
    assert_eq!(routes[9], ("POST", "/reset", "Reset all state"));
    let config = ApiConfig::default();
    assert_eq!(config.host, "127.0.0.1");
    assert_eq!(config.port, 8080);
    assert!(config.cors_enabled);
    assert_eq!(config.tick_interval_ms, 100);
    assert_eq!(default_duration_ms(), 30_000);
}

#[test]
fn api_responses() {
    let ok: ApiResponse<u32> = ApiResponse::success(7);
    assert!(ok.success);
    assert_eq!(ok.data, Some(7));
    assert_eq!(ok.error, None);
    let err: ApiResponse<u32> = ApiResponse::error("no such scenario");
    assert!(!err.success);
    assert_eq!(err.data, None);
    assert_eq!(err.error, Some("no such scenario".to_string()));
}

#[test]
fn engine_state_transitions() {
    assert_eq!(EngineState::Running.paused(), EngineState::Paused);
    assert_eq!(EngineState::Stopped.paused(), EngineState::Stopped);
    assert_eq!(EngineState::Paused.paused(), EngineState::Paused);
    assert_eq!(EngineState::Paused.resumed(), EngineState::Running);
    assert_eq!(EngineState::Stopped.resumed(), EngineState::Running);
}

#[test]
fn ground_truth_window_includes_both_ends() {
    let mut gt = GroundTruth::new("test", "Test");
    assert_eq!(gt.anomaly_id, "test");
    assert_eq!(gt.anomaly_type, "Test");
    assert_eq!(gt.log_count, 0);
    gt.start_time_ns = 1_000_000_000;
    gt.end_time_ns = 2_000_000_000;
    assert!(gt.contains_timestamp(1_500_000_000));
    assert!(gt.contains_timestamp(1_000_000_000));
    assert!(gt.contains_timestamp(2_000_000_000));
    assert!(!gt.contains_timestamp(3_000_000_000));
    assert!(!gt.contains_timestamp(999_999_999));
}

#[test]
fn ground_truth_tracker_lifecycle() {
    let mut tracker = GroundTruthTracker::new();
    assert!(tracker.get_current_ground_truth().is_empty());
    tracker.start_anomaly("a1".to_string(), "cpu_spike".to_string(), 10, 100);
    tracker.start_anomaly("a2".to_string(), "ddos".to_string(), 20, 200);
    tracker.record_log("a1");
    tracker.record_log("a1");
    tracker.record_log("missing");
    let all = tracker.get_current_ground_truth();
    assert_eq!(all.len(), 2);
    assert_eq!(all[0].anomaly_id, "a1");
    assert_eq!(all[0].log_count, 2);
    assert_eq!(all[1].log_count, 0);

    tracker.finalize_anomaly("a1", 55);
    tracker.finalize_anomaly("nope", 60);
    let all = tracker.get_current_ground_truth();
    assert_eq!(all.len(), 2);
    // Active records come first, then completed ones.
    assert_eq!(all[0].anomaly_id, "a2");
    assert_eq!(all[1].anomaly_id, "a1");
    assert_eq!(all[1].end_time_ns, 55);
    assert_eq!(all[1].log_count, 2);

    // Restarting an active period replaces its record.
    tracker.start_anomaly("a2".to_string(), "ddos".to_string(), 30, 300);
    let all = tracker.get_current_ground_truth();
    assert_eq!(all.len(), 2);
    assert_eq!(all[0].start_time_ns, 30);

    tracker.reset();
    assert!(tracker.get_current_ground_truth().is_empty());
}

#[test]
fn test_ground_truth_matching() {
    let gt = GroundTruth {
        anomaly_id: "test".to_string(),
        start_time_ns: 1_000_000_000,
        end_time_ns: 2_000_000_000,
        anomaly_type: "Test".to_string(),
        target_services: vec![],
        log_count: 0,
    };

    let mut log = LogRecord::default();
    log.timeUnixNano = "1500000000".to_string();
    assert!(gt.matches_log(&log));

    log.timeUnixNano = "3000000000".to_string();
    assert!(!gt.matches_log(&log));
}

#[test]
fn test_log_record_ground_truth() {
    let mut log = LogRecord::default();
    assert!(!log.isGroundTruthAnomaly);

    log.mark_anomalous("test-anomaly".to_string());
    assert!(log.isGroundTruthAnomaly);
    assert_eq!(log.anomalyId, Some("test-anomaly".to_string()));
}

#[test]
fn any_value_string_and_integer_views() {
    let s = AnyValue::string("hello");
    assert_eq!(s.as_str(), Some("hello"));

    let i = AnyValue::integer(42);
    assert_eq!(i.as_i64(), Some(42));
    assert_eq!(i.as_str(), None);
    assert_eq!(s.as_i64(), None);
}

#[test]
fn default_log_record_fields() {
    let log = LogRecord::default();
    assert_eq!(log.timeUnixNano, "0");
    assert_eq!(log.severityNumber, 9);
    assert_eq!(log.severityText, "INFO");
    assert_eq!(log.body.as_str(), Some(""));
    assert!(log.attributes.is_empty());
    assert!(log.anomalyId.is_none());
    assert_eq!(log.service_name(), None);
}

#[test]
fn first_attribute_with_a_key_wins() {
    let mut log = LogRecord::default();
    log.attributes.push(KeyValue::integer("http.status_code", 500));
    log.attributes.push(KeyValue::string("service.name", "api"));
    log.attributes.push(KeyValue::string("service.name", "db"));
    log.attributes.push(KeyValue::bool("retry", true));
    assert_eq!(log.service_name(), Some("api"));
    assert_eq!(log.get_attribute("http.status_code").and_then(|v| v.as_i64()), Some(500));
    assert!(matches!(log.get_attribute("retry"), Some(AnyValue::Bool { boolValue: true })));
    assert!(log.get_attribute("missing").is_none());

    let mut numeric = LogRecord::default();
    numeric.attributes.push(KeyValue::integer("service.name", 7));
    assert_eq!(numeric.service_name(), None);
}

#[test]
fn scenario_names_ignore_case_and_accept_aliases() {
    assert_eq!(scenario_kind("normal_traffic"), Some(ScenarioKind::NormalTraffic));
    assert_eq!(scenario_kind("Normal"), Some(ScenarioKind::NormalTraffic));
    assert_eq!(scenario_kind("DDoS"), Some(ScenarioKind::DdosAttack));
    assert_eq!(scenario_kind("ddos_attack"), Some(ScenarioKind::DdosAttack));
    assert_eq!(scenario_kind("SQLI"), Some(ScenarioKind::SqlInjection));
    assert_eq!(scenario_kind("exfil"), Some(ScenarioKind::DataExfiltration));
    assert_eq!(scenario_kind("stack_overflow"), Some(ScenarioKind::InfiniteLoop));
    assert_eq!(scenario_kind("error_spike"), Some(ScenarioKind::ErrorRateSpike));
    assert_eq!(scenario_kind(" ddos"), None);
    assert_eq!(scenario_kind("unknown"), None);
    for (name, _) in list_scenarios() {
        assert!(scenario_kind(name).is_some(), "{}", name);
    }
}

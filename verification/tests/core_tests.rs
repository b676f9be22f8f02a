use via_core::base64::{base64_decode, base64_encode};
use via_core::cms::CountMinSketch;
use via_core::hashing::{hash_str, xxh3_64, xxh3_64_with_seed};
use via_core::signal::{DetectorId, Severity, NUM_DETECTORS};
use via_core::tier2::{normalize_to_unix_seconds, IncidentDecisionStatus};

#[test]
fn test_base64_roundtrip() {
    let original = b"Hello, World!";
    let encoded = base64_encode(original);
    let decoded = base64_decode(&encoded).unwrap();
    assert_eq!(original.to_vec(), decoded);
}

#[test]
fn base64_known_vectors() {
    assert_eq!(base64_encode(b"Hello, World!"), "SGVsbG8sIFdvcmxkIQ==");
    assert_eq!(base64_encode(b""), "");
    assert_eq!(base64_encode(b"f"), "Zg==");
    assert_eq!(base64_encode(b"fo"), "Zm8=");
    assert_eq!(base64_encode(b"foo"), "Zm9v");
    assert_eq!(base64_encode(&[0xff, 0xfe, 0x00]), "//4A");
    assert_eq!(base64_decode("Zm9vYmFy").unwrap(), b"foobar".to_vec());
    assert_eq!(base64_decode("Zg==").unwrap(), b"f".to_vec());
}

#[test]
fn base64_roundtrip_all_byte_values() {
    let data: Vec<u8> = (0..=255u8).collect();
    for len in 0..data.len() {
        let slice = &data[..len];
        assert_eq!(base64_decode(&base64_encode(slice)).unwrap(), slice.to_vec());
    }
}

#[test]
fn test_cms_basic() {
    let mut cms = CountMinSketch::new(10, 4);
    cms.increment(12345);
    cms.increment(12345);
    cms.increment(67890);

    assert_eq!(cms.estimate(12345), 2);
    assert_eq!(cms.estimate(67890), 1);
    assert_eq!(cms.estimate(11111), 0);
}

#[test]
fn test_cms_collision() {
    let mut cms = CountMinSketch::new(2, 2);
    for i in 0..100 {
        cms.increment(i);
    }
    assert!(cms.estimate(1) >= 1);
}

#[test]
fn cms_never_underestimates_and_clears() {
    let mut cms = CountMinSketch::new(3, 2);
    for i in 0..30u64 {
        for _ in 0..(i % 4) {
            cms.increment(i);
        }
    }
    for i in 0..30u64 {
        assert!(cms.estimate(i) >= (i % 4) as u32);
        assert_eq!(cms.contains(i), cms.estimate(i) > 0);
    }
    cms.clear();
    for i in 0..30u64 {
        assert_eq!(cms.estimate(i), 0);
        assert!(!cms.contains(i));
    }
    let fresh = CountMinSketch::default_sketch();
    assert_eq!(fresh.estimate(42), 0);
}

#[test]
fn hashing_wrappers_match_xxh3() {
    let data = b"entity-42";
    assert_eq!(xxh3_64(data), xxhash_rust::xxh3::xxh3_64(data));
    assert_ne!(xxh3_64(data), xxh3_64(b"entity-43"));
    assert_eq!(
        xxh3_64_with_seed(data, 7),
        xxhash_rust::xxh3::xxh3_64_with_seed(data, 7)
    );
    assert_ne!(xxh3_64_with_seed(data, 7), xxh3_64_with_seed(data, 8));
    assert_eq!(hash_str("entity-42"), xxhash_rust::xxh3::xxh3_64(data));
}

#[test]
fn normalizes_timestamp_units_to_seconds() {
    assert_eq!(normalize_to_unix_seconds(1_738_000_000), 1_738_000_000);
    assert_eq!(normalize_to_unix_seconds(1_738_000_000_000), 1_738_000_000);
    assert_eq!(
        normalize_to_unix_seconds(1_738_000_000_000_000_000),
        1_738_000_000
    );
}

#[test]
fn timestamp_unit_boundaries() {
    assert_eq!(normalize_to_unix_seconds(0), 0);
    assert_eq!(normalize_to_unix_seconds(10_000_000_000), 10_000_000_000);
    assert_eq!(normalize_to_unix_seconds(10_000_000_001), 10);
    assert_eq!(normalize_to_unix_seconds(1_000_000_000_000), 1_000);
    assert_eq!(normalize_to_unix_seconds(1_000_000_000_001), 1_000_000_000);
    assert_eq!(normalize_to_unix_seconds(1_000_000_000_000_000), 1_000_000_000_000);
    assert_eq!(normalize_to_unix_seconds(1_000_000_000_000_001), 1_000_000);
    assert_eq!(normalize_to_unix_seconds(u64::MAX), u64::MAX / 1_000_000_000);
}

#[test]
fn serializes_decision_status_for_tier2_contract() {
    assert_eq!(IncidentDecisionStatus::New.as_str(), "new");
    assert_eq!(IncidentDecisionStatus::Merged.as_str(), "merged");
    assert_eq!(IncidentDecisionStatus::Escalated.as_str(), "escalated");
}

#[test]
fn detector_codes_round_trip() {
    let names = [
        "Volume/RPS",
        "Distribution/Value",
        "Cardinality/Velocity",
        "Burst/IAT",
        "Spectral/FFT",
        "ChangePoint/Trend",
        "RRCF/Isolation",
        "MultiScale/Temporal",
        "Behavioral/Fingerprint",
        "Drift/Concept",
    ];
    for code in 0..NUM_DETECTORS as u8 {
        let d = DetectorId::from_u8(code).expect("every code below NUM_DETECTORS names a detector");
        assert_eq!(d.code(), code);
        assert_eq!(d.name(), names[code as usize]);
    }
    assert!(DetectorId::from_u8(NUM_DETECTORS as u8).is_none());
    assert!(DetectorId::from_u8(255).is_none());
}

#[test]
fn severity_levels_are_ordered() {
    let all = [
        Severity::NoAnomaly,
        Severity::Low,
        Severity::Medium,
        Severity::High,
        Severity::Critical,
    ];
    for (i, s) in all.iter().enumerate() {
        assert_eq!(s.level() as usize, i);
    }
    assert_eq!(Severity::default(), Severity::NoAnomaly);
}

#[test]
fn decimal_parsing_matches_std() {
    use_parse_cases();
}

fn use_parse_cases() {
    let cases = ["0", "7", "+7", "-7", "", "+", "12a", "18446744073709551615", "18446744073709551616", "007", " 1"];
    for c in cases {
        assert_eq!(via_core::decimal::parse_u64(c), c.parse::<u64>().ok(), "input {:?}", c);
    }
}

fn log_at(time: &str, service: Option<&str>) -> via_core::sim::LogRecord {
    let mut log = via_core::sim::LogRecord::default();
    log.timeUnixNano = time.to_string();
    if let Some(s) = service {
        log.attributes.push(via_core::sim::KeyValue::string("service.name", s));
    }
    log
}

#[test]
fn ground_truth_matches_logs_by_time_and_service() {
    let mut gt = via_core::sim::GroundTruth::new("test", "Test");
    gt.start_time_ns = 1_000_000_000;
    gt.end_time_ns = 2_000_000_000;
    assert!(gt.matches_log(&log_at("1500000000", None)));
    assert!(!gt.matches_log(&log_at("3000000000", None)));
    // An unparsable time stamp counts as 0.
    assert!(!gt.matches_log(&log_at("soon", Some("api"))));
    gt.start_time_ns = 0;
    assert!(gt.matches_log(&log_at("soon", Some("api"))));
    gt.target_services = vec!["api".to_string(), "db".to_string()];
    assert!(gt.matches_log(&log_at("5", Some("db"))));
    assert!(!gt.matches_log(&log_at("5", Some("web"))));
    assert!(!gt.matches_log(&log_at("5", None)));
}

#[test]
fn decimal_format_then_parse_gives_the_number() {
    for n in [0u64, 9, 10, 99, 100, 12345, u64::MAX - 1, u64::MAX] {
        let mut s = String::new();
        via_core::decimal::push_decimal(&mut s, n);
        assert_eq!(s, n.to_string());
        assert_eq!(via_core::decimal::parse_u64(&s), Some(n));
    }
}

#[test]
fn new_sketch_estimates_zero() {
    let sketch = CountMinSketch::new(16, 3);
    for h in [0u64, 1, 42, u64::MAX] {
        assert_eq!(sketch.estimate(h), 0);
        assert!(!sketch.contains(h));
    }
}

use via_core::bench::pipeline::{count_incidents, AnomalyEventStats, AnomalyStatsTable, IncidentEvidence};

fn incident(runs: &[&str], truth: &[&str], escalated: bool) -> IncidentEvidence {
    IncidentEvidence {
        run_ids: runs.iter().map(|s| s.to_string()).collect(),
        ground_truth_ids: truth.iter().map(|s| s.to_string()).collect(),
        escalated,
    }
}

#[test]
fn incident_counts_of_a_run() {
    let incidents = vec![
        incident(&["run1"], &["a1"], true),
        incident(&["run1"], &["a1", "a2", "a1"], false),
        incident(&["run1", "run0"], &[], true),
        incident(&["run2"], &["a3"], true),
        incident(&[], &["a4"], false),
        incident(&["run1"], &["a2", "a2"], true),
    ];
    let c = count_incidents(&incidents, "run1");
    assert_eq!(c.tp_incidents, 3);
    assert_eq!(c.fp_incidents, 1);
    assert_eq!(c.merged_incidents, 1);
    assert_eq!(c.escalated_total, 3);
    assert_eq!(c.escalated_tp, 2);
    let mut covered = c.covered.clone();
    covered.sort();
    assert_eq!(covered, vec![("a1".to_string(), 2), ("a2".to_string(), 2)]);
    let split = c.covered.iter().filter(|(_, n)| *n > 1).count();
    assert_eq!(split, 2);

    let other = count_incidents(&incidents, "run2");
    assert_eq!((other.tp_incidents, other.fp_incidents, other.escalated_total), (1, 0, 1));
    assert_eq!(other.covered, vec![("a3".to_string(), 1)]);

    let none = count_incidents(&incidents, "missing");
    assert_eq!(none.tp_incidents + none.fp_incidents, 0);
    assert!(none.covered.is_empty());
}

#[test]
fn anomaly_stats_table() {
    let mut table = AnomalyStatsTable::new();
    assert_eq!(table.len(), 0);
    assert_eq!(
        table.stats_for("a1"),
        AnomalyEventStats { ground_truth_events: 0, detected_events: 0 }
    );
    table.record("a1", true);
    table.record("a1", false);
    table.record("a2", false);
    table.record("a1", true);
    assert_eq!(table.len(), 2);
    let a1 = table.stats_for("a1");
    assert_eq!(a1, AnomalyEventStats { ground_truth_events: 3, detected_events: 2 });
    assert_eq!(a1.missed_events(), 1);
    let a2 = table.stats_for("a2");
    assert_eq!(a2.missed_events(), 1);
    assert_eq!(table.stats_for("a3").missed_events(), 0);
    let odd = AnomalyEventStats { ground_truth_events: 1, detected_events: 4 };
    assert_eq!(odd.missed_events(), 0);
}

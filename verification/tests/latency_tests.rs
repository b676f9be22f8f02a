use via_core::bench::{latency_percentiles, sort_latencies};

#[test]
fn latencies_sort_and_pick_percentiles() {
    let data = [50u64, 10, 40, 10, 30, 20, 90, 70, 60, 80];
    assert_eq!(sort_latencies(&data), vec![10, 10, 20, 30, 40, 50, 60, 70, 80, 90]);
    assert!(sort_latencies(&[]).is_empty());
    // Ranks 5, 9 and 9 of ten values.
    assert_eq!(latency_percentiles(&data), Some((50, 90, 90)));
    assert_eq!(latency_percentiles(&[]), None);
    assert_eq!(latency_percentiles(&[7]), Some((7, 7, 7)));

    let many: Vec<u64> = (0..1000u64).rev().collect();
    assert_eq!(latency_percentiles(&many), Some((500, 950, 990)));
}

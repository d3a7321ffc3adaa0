use fractal_explorer::rules::{iterate, threshold_counts, ThresholdRule, MAX_ITERS};

#[test]
fn batched_counts_match_scalar_escape_times() {
    // Lanes escape at wildly different steps; the batched loop must freeze
    // each lane at its own escape step and still report every lane exactly.
    let limits = vec![0u8, 1, 2, 3, 100, 254, 255, 7];
    assert_eq!(threshold_counts(&limits), limits);
}

#[test]
fn iterate_reports_each_lane_independently() {
    let limits = vec![5u8, 5, 9, 9, 1, 0, 200, 13];
    let mut rule = ThresholdRule::new(&limits);
    assert_eq!(iterate(&mut rule), limits);
}

#[test]
fn saturation_boundary() {
    // A lane that never escapes within the budget saturates at the cap; a
    // lane already escaped at the first check reports zero.
    let limits = vec![MAX_ITERS, 0, MAX_ITERS, 0, 0, 0, 0, 0];
    let counts = threshold_counts(&limits);
    assert_eq!(counts[0], 255);
    assert_eq!(counts[1], 0);
}

#[test]
fn uniform_batch_stops_together() {
    let limits = vec![17u8; 8];
    assert_eq!(threshold_counts(&limits), limits);
}

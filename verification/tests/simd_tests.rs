use fractal_explorer::simd::{SimdCounter, SIMD_LEN};

#[test]
fn new_counter_is_all_zero_and_unmodified() {
    let c = SimdCounter::new();
    assert_eq!(c.counts(), vec![0u8; SIMD_LEN]);
    assert!(!c.modified());
}

#[test]
fn increment_where_touches_only_masked_lanes() {
    let mut c = SimdCounter::new();
    let mask = vec![true, false, true, false, false, false, false, true];
    c.increment_where(&mask);
    c.increment_where(&mask);
    assert_eq!(c.counts(), vec![2, 0, 2, 0, 0, 0, 0, 2]);
}

#[test]
fn modified_reflects_the_most_recent_mask() {
    let mut c = SimdCounter::new();
    c.increment_where(&vec![false, false, false, true, false, false, false, false]);
    assert!(c.modified());
    c.increment_where(&vec![false; SIMD_LEN]);
    assert!(!c.modified());
    c.increment_where(&vec![true; SIMD_LEN]);
    assert!(c.modified());
}

#[test]
fn counts_truncate_to_bytes() {
    let mut c = SimdCounter::new();
    let mask = vec![true, false, false, false, false, false, false, false];
    for _ in 0..300 {
        c.increment_where(&mask);
    }
    // 300 increments narrow to 300 mod 256 in the byte-sized counts.
    assert_eq!(c.counts(), vec![44, 0, 0, 0, 0, 0, 0, 0]);
}

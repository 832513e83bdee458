use touchtype::stats::Stats;

#[test]
pub fn new_stats_count_nothing() {
    let s = Stats::new();
    assert_eq!(s.count(), 0);
    assert_eq!(s.duration_sum(), 0);
}

#[test]
pub fn the_first_key_adds_no_time() {
    let mut s = Stats::new();
    assert!(s.accepts(5_000));
    s.add(5_000);
    assert_eq!(s.count(), 1);
    assert_eq!(s.duration_sum(), 0);
}

#[test]
pub fn later_keys_add_the_time_since_the_last_one() {
    let mut s = Stats::new();
    s.add(1_000);
    s.add(1_250);
    s.add(2_000);
    assert_eq!(s.count(), 3);
    assert_eq!(s.duration_sum(), 1_000);
}

#[test]
pub fn a_key_before_the_last_one_adds_no_time() {
    let mut s = Stats::new();
    s.add(1_000);
    s.add(400);
    assert_eq!(s.count(), 2);
    assert_eq!(s.duration_sum(), 0);
    s.add(500);
    assert_eq!(s.duration_sum(), 100);
}

#[test]
pub fn a_sum_out_of_range_is_not_accepted() {
    let mut s = Stats::new();
    s.add(0);
    s.add(u64::MAX);
    assert_eq!(s.duration_sum(), u64::MAX);
    assert!(s.accepts(u64::MAX));
    s.add(0);
    assert!(!s.accepts(1));
    assert!(s.accepts(0));
}

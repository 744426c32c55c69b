use grampus::stats::Stats;

#[test]
fn test_stats_start_at_zero() {
    let s = Stats::new();
    assert_eq!(s.get_total(), 0);
    assert_eq!(s.get_crashes(), 0);
    assert_eq!(s.get_cycles(), 0);
}

#[test]
fn test_stats_counters_grow_independently() {
    let mut s = Stats::new();
    s.inc_fuzz_cases();
    s.inc_fuzz_cases();
    s.inc_crashes();
    s.inc_cycles();
    s.inc_cycles();
    s.inc_cycles();
    assert_eq!(s.get_total(), 2);
    assert_eq!(s.get_crashes(), 1);
    assert_eq!(s.get_cycles(), 3);
}

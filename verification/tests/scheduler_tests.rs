use grampus::scheduler::{FuzzingCycle, Scheduler};

#[test]
fn test_scheduler_counts_then_advances() {
    let mut s = Scheduler::new(3);
    // three counting steps inside the deterministic regime
    for _ in 0..3 {
        let (changed, cycle) = s.next();
        assert!(!changed);
        assert_eq!(cycle, FuzzingCycle::CycleDeterministic);
    }
    // the fourth step advances
    let (changed, cycle) = s.next();
    assert!(changed);
    assert_eq!(cycle, FuzzingCycle::CycleNonDeterministic);
}

#[test]
fn test_scheduler_full_cycle() {
    // from construction, 4 * (max_ips + 1) steps traverse the regime
    // sequence once and return to the starting regime
    let max_ips = 5;
    let mut s = Scheduler::new(max_ips);
    let mut changes = Vec::new();
    for _ in 0..4 * (max_ips + 1) {
        let (changed, cycle) = s.next();
        if changed {
            changes.push(cycle);
        }
    }
    assert_eq!(
        changes,
        vec![
            FuzzingCycle::CycleNonDeterministic,
            FuzzingCycle::CycleBitWalk,
            FuzzingCycle::CycleRegenerate,
            FuzzingCycle::CycleDeterministic,
        ]
    );
    // the next step counts inside the deterministic regime again
    let (changed, cycle) = s.next();
    assert!(!changed);
    assert_eq!(cycle, FuzzingCycle::CycleDeterministic);
}

#[test]
fn test_scheduler_zero_bound_advances_every_step() {
    let mut s = Scheduler::new(0);
    let (changed, cycle) = s.next();
    assert!(changed);
    assert_eq!(cycle, FuzzingCycle::CycleNonDeterministic);
    let (changed, _) = s.next();
    assert!(changed);
}

use blockrock::monitoring::{cpu_totals, ChangeGate, Hypothalamus, MetabolicAction, ProcfsVitalsSource, StressLevel};

#[test]
fn the_gate_lets_through_only_changes() {
    let mut gate = ChangeGate::default();

    // The first decision is always news.
    assert!(gate.should_notify(MetabolicAction::Maintain));
    // Repeating it is not.
    assert!(!gate.should_notify(MetabolicAction::Maintain));
    assert!(!gate.should_notify(MetabolicAction::Maintain));

    assert!(gate.should_notify(MetabolicAction::Hypertrophy));
    assert!(!gate.should_notify(MetabolicAction::Hypertrophy));

    // Going back to normal is news too: it says "stand down".
    assert!(gate.should_notify(MetabolicAction::Maintain));
}

/// Three stressed cycles before scaling up, two relaxed ones before scaling down.
fn policy() -> Hypothalamus {
    Hypothalamus::new(3, 2)
}

// The samples of the scenarios below, classified against the default
// thresholds (stress at 85, relaxation at 20, latency penalty above 100 ms):
// cpu 100, memory 100, latency 150 scores 100 and is stressed; cpu 100,
// memory 100 without latency scores 80, below the stress threshold; cpu 50,
// memory 50 scores 40; an idle machine scores 0 and is relaxed.

#[test]
fn sustained_stress_requests_hypertrophy() {
    let mut brain = policy();
    let stressed = StressLevel::Stressed;
    assert_eq!(brain.observe(stressed), MetabolicAction::Maintain);
    assert_eq!(brain.observe(stressed), MetabolicAction::Maintain);
    assert_eq!(brain.observe(stressed), MetabolicAction::Hypertrophy);
}

#[test]
fn transient_stress_does_not_request_scaling() {
    let mut brain = policy();
    // High, yet under the stress threshold: it scores 80.
    let stressed = StressLevel::Normal;
    let normal = StressLevel::Normal;
    brain.observe(stressed);
    brain.observe(stressed);
    assert_eq!(brain.observe(normal), MetabolicAction::Maintain);
    assert_eq!(brain.observe(stressed), MetabolicAction::Maintain);
}

#[test]
fn sustained_underuse_requests_atrophy() {
    let mut brain = policy();
    let quiet = StressLevel::Relaxed;
    assert_eq!(brain.observe(quiet), MetabolicAction::Maintain);
    assert_eq!(brain.observe(quiet), MetabolicAction::Atrophy);
}

#[test]
fn an_interrupted_run_of_stress_starts_counting_again() {
    let mut brain = policy();
    assert_eq!(brain.observe(StressLevel::Stressed), MetabolicAction::Maintain);
    assert_eq!(brain.observe(StressLevel::Stressed), MetabolicAction::Maintain);
    assert_eq!(brain.observe(StressLevel::Normal), MetabolicAction::Maintain);
    assert_eq!(brain.stress_cycles(), 0);
    assert_eq!(brain.observe(StressLevel::Stressed), MetabolicAction::Maintain);
    assert_eq!(brain.observe(StressLevel::Stressed), MetabolicAction::Maintain);
    assert_eq!(brain.observe(StressLevel::Stressed), MetabolicAction::Hypertrophy);
    // Acting resets the count: the next request needs a new full run.
    assert_eq!(brain.stress_cycles(), 0);
    assert_eq!(brain.observe(StressLevel::Stressed), MetabolicAction::Maintain);
}

#[test]
fn a_policy_of_zero_cycles_still_needs_one() {
    let mut brain = Hypothalamus::new(0, 0);
    assert_eq!(brain.observe(StressLevel::Stressed), MetabolicAction::Hypertrophy);
    assert_eq!(brain.observe(StressLevel::Relaxed), MetabolicAction::Atrophy);
}

#[test]
fn the_default_policy_waits_five_cycles() {
    let mut brain = Hypothalamus::default();
    for _ in 0..4 {
        assert_eq!(brain.observe(StressLevel::Relaxed), MetabolicAction::Maintain);
    }
    assert_eq!(brain.relaxation_cycles(), 4);
    assert_eq!(brain.observe(StressLevel::Relaxed), MetabolicAction::Atrophy);
    assert_eq!(brain.relaxation_cycles(), 0);
}

#[test]
fn cpu_totals_sum_every_counter_and_count_iowait_as_idle() {
    let stat = "cpu  10 20 30 40 50 60 70\ncpu0 1 2 3 4 5 6 7\n";
    assert_eq!(cpu_totals(stat), Some((280, 90)));
    // Without an iowait column, idle is the fourth counter alone.
    assert_eq!(cpu_totals("cpu 1 2 3 4"), Some((10, 4)));
}

#[test]
fn cpu_totals_refuse_a_malformed_line() {
    assert_eq!(cpu_totals("cpu 1 2 3"), None);
    assert_eq!(cpu_totals("cpu 1 2 x 4"), None);
    assert_eq!(cpu_totals(""), None);
    assert_eq!(cpu_totals("cpu 18446744073709551615 1 0 0"), None);
}

#[test]
fn the_cpu_delta_needs_a_previous_sample_and_time_passing() {
    let mut source = ProcfsVitalsSource::new();
    assert_eq!(source.cpu_delta(100, 40), None);
    // 60 ticks went by, 30 of them idle: 30 busy out of 60.
    assert_eq!(source.cpu_delta(160, 70), Some((30, 60)));
    // No time passed: no measure.
    assert_eq!(source.cpu_delta(160, 70), None);
    // Counters going backwards give no measure either.
    assert_eq!(source.cpu_delta(150, 70), None);
    assert_eq!(source.cpu_delta(200, 90), Some((30, 50)));
}

use sensor_agent::tracker::{RateOutcome, RateTracker};

#[test]
fn first_observation_yields_no_rate() {
    let mut t = RateTracker::new();
    assert_eq!(t.update_utilization("cpu", 130, 10, 0), RateOutcome::First);
    assert_eq!(t.update_throughput("net_received_eth0", 12345, 0), RateOutcome::First);
}

#[test]
fn second_observation_yields_formula_rate() {
    let mut t = RateTracker::new();
    assert_eq!(t.update_utilization("cpu", 130, 10, 0), RateOutcome::First);
    // total delta 160, idle delta 0: utilization 100 - 0 * 100 / 160 = 100.
    assert_eq!(t.update_utilization("cpu", 290, 10, 1000), RateOutcome::Rate(100));
}

#[test]
fn utilization_follows_idle_share() {
    let mut t = RateTracker::new();
    assert_eq!(t.update_utilization("cpu0", 0, 0, 0), RateOutcome::First);
    // total delta 100, idle delta 50: utilization 50.
    assert_eq!(t.update_utilization("cpu0", 100, 50, 0), RateOutcome::Rate(50));
}

#[test]
fn unchanged_total_yields_no_rate() {
    let mut t = RateTracker::new();
    t.update_utilization("cpu", 100, 10, 0);
    assert_eq!(t.update_utilization("cpu", 100, 10, 0), RateOutcome::NoElapsed);
}

#[test]
fn backwards_counter_is_malformed() {
    let mut t = RateTracker::new();
    t.update_utilization("cpu", 100, 10, 0);
    assert_eq!(t.update_utilization("cpu", 50, 10, 0), RateOutcome::Malformed);
    let mut t2 = RateTracker::new();
    t2.update_throughput("n", 100, 0);
    assert_eq!(t2.update_throughput("n", 50, 10), RateOutcome::Malformed);
}

#[test]
fn idle_outrunning_total_is_malformed() {
    let mut t = RateTracker::new();
    t.update_utilization("cpu", 100, 10, 0);
    assert_eq!(t.update_utilization("cpu", 110, 40, 0), RateOutcome::Malformed);
}

#[test]
fn throughput_divides_by_elapsed_milliseconds() {
    let mut t = RateTracker::new();
    assert_eq!(t.update_throughput("net_received_eth0", 1000, 0), RateOutcome::First);
    // 1000 bytes over 1000 ms: 1000 bytes per second.
    assert_eq!(t.update_throughput("net_received_eth0", 2000, 1000), RateOutcome::Rate(1000));
}

#[test]
fn throughput_with_no_elapsed_time_yields_no_rate() {
    let mut t = RateTracker::new();
    t.update_throughput("n", 1000, 500);
    assert_eq!(t.update_throughput("n", 2000, 500), RateOutcome::NoElapsed);
}

#[test]
fn names_keep_separate_baselines() {
    let mut t = RateTracker::new();
    assert_eq!(t.update_utilization("cpu0", 0, 0, 0), RateOutcome::First);
    assert_eq!(t.update_utilization("cpu1", 0, 0, 0), RateOutcome::First);
    assert_eq!(t.update_utilization("cpu0", 100, 20, 0), RateOutcome::Rate(80));
    assert_eq!(t.update_utilization("cpu1", 100, 80, 0), RateOutcome::Rate(20));
}

#[test]
fn oversized_throughput_is_malformed() {
    let mut t = RateTracker::new();
    t.update_throughput("n", 0, 0);
    // The byte delta times 1000 outruns the rate's width for 1 ms elapsed.
    assert_eq!(t.update_throughput("n", u64::MAX, 1), RateOutcome::Malformed);
}

#[test]
fn largest_counter_values_are_handled() {
    let mut t = RateTracker::new();
    assert_eq!(t.update_utilization("c", u64::MAX - 1, 0, 0), RateOutcome::First);
    assert_eq!(t.update_utilization("c", u64::MAX, 0, 0), RateOutcome::Rate(100));
    assert_eq!(t.update_utilization("c", u64::MAX, 0, 0), RateOutcome::NoElapsed);
}

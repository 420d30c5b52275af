use sensor_agent::cpu::{get_cpu_data, get_proc_cpuinfo, get_proc_stat, CpuError};
use sensor_agent::tracker::RateTracker;

#[test]
fn aggregate_utilization_with_zero_idle_delta_is_full() {
    let mut t = RateTracker::new();
    let first = get_proc_stat("cpu 100 10 10 10\n", &mut t, 0).unwrap();
    assert!(first.get("cpu_utilization").is_none());
    // The idle field (fourth value) stays at 10, so the idle delta is 0 and
    // the whole tick delta counts as load.
    let second = get_proc_stat("cpu 200 20 60 10\n", &mut t, 1000).unwrap();
    assert_eq!(second.get("cpu_utilization"), Some(&"100".to_string()));
}

#[test]
fn aggregate_utilization_follows_the_idle_formula() {
    let mut t = RateTracker::new();
    get_proc_stat("cpu 100 10 10 10\n", &mut t, 0).unwrap();
    // Totals 130 then 290, idle field 10 then 60: 100 - (50 * 100) / 160 = 69.
    let second = get_proc_stat("cpu 200 20 10 60\n", &mut t, 1000).unwrap();
    assert_eq!(second.get("cpu_utilization"), Some(&"69".to_string()));
}

#[test]
fn sibling_utilizations_average_into_physical_core_load() {
    let mut t = RateTracker::new();
    let t0 = "cpu0 0 0 0 0\ncpu1 0 0 0 0\n";
    // cpu0: total delta 100, idle delta 60, utilization 40.
    // cpu1: total delta 100, idle delta 40, utilization 60.
    let t1 = "cpu0 40 0 0 60\ncpu1 60 0 0 40\n";
    let first = get_proc_stat(t0, &mut t, 0).unwrap();
    assert!(first.get("cpu_core_load_1").is_none());
    let second = get_proc_stat(t1, &mut t, 1000).unwrap();
    assert_eq!(second.get("cpu_core_load_1"), Some(&"50".to_string()));
}

#[test]
fn missing_sibling_omits_physical_core_load() {
    let mut t = RateTracker::new();
    get_proc_stat("cpu0 0 0 0 0\n", &mut t, 0).unwrap();
    let second = get_proc_stat("cpu0 40 0 0 60\n", &mut t, 1000).unwrap();
    assert!(second.get("cpu_core_load_1").is_none());
    assert!(second.is_empty());
}

#[test]
fn non_cpu_lines_are_ignored() {
    let mut t = RateTracker::new();
    let text = "intr 1 2 3\nctxt 99\ncpu 10 10 10 10\nbtime 1700000000\n";
    let snap = get_proc_stat(text, &mut t, 0).unwrap();
    assert!(snap.is_empty());
}

#[test]
fn malformed_stat_line_is_rejected() {
    let mut t = RateTracker::new();
    let r = get_proc_stat("cpu 1 2 three 4\n", &mut t, 0);
    assert!(matches!(r, Err(CpuError::MalformedStatLine { .. })));
    let r2 = get_proc_stat("cpu 1 2\n", &mut t, 0);
    assert!(matches!(r2, Err(CpuError::MalformedStatLine { .. })));
}

#[test]
fn frequencies_are_keyed_by_physical_core() {
    let text = "processor\t: 0\ncore id\t\t: 0\ncpu MHz\t\t: 3500.000\n\
                processor\t: 1\ncore id\t\t: 1\ncpu MHz\t\t: 3600.000\n";
    let snap = get_proc_cpuinfo(text).unwrap();
    assert_eq!(snap.get("cpu_core_frequency_1"), Some(&"3500.000".to_string()));
    assert_eq!(snap.get("cpu_core_frequency_2"), Some(&"3600.000".to_string()));
}

#[test]
fn first_frequency_per_core_wins() {
    let text = "core id : 0\ncpu MHz : 3500.000\ncore id : 0\ncpu MHz : 4000.000\n";
    let snap = get_proc_cpuinfo(text).unwrap();
    assert_eq!(snap.get("cpu_core_frequency_1"), Some(&"3500.000".to_string()));
}

#[test]
fn malformed_core_id_is_rejected() {
    let r = get_proc_cpuinfo("core id : x\ncpu MHz : 3500.000\n");
    assert!(matches!(r, Err(CpuError::MalformedCoreId { .. })));
}

#[test]
fn cpu_data_merges_utilization_and_frequencies() {
    let mut t = RateTracker::new();
    get_cpu_data("cpu 100 10 10 10\n", "core id : 0\ncpu MHz : 3500.000\n", &mut t, 0).unwrap();
    let snap = get_cpu_data(
        "cpu 200 20 60 10\n",
        "core id : 0\ncpu MHz : 3500.000\n",
        &mut t,
        1000,
    )
        .unwrap();
    assert_eq!(snap.get("cpu_utilization"), Some(&"100".to_string()));
    assert_eq!(snap.get("cpu_core_frequency_1"), Some(&"3500.000".to_string()));
}

#[test]
fn frequency_before_any_core_id_files_under_the_first_core() {
    let snap = get_proc_cpuinfo("cpu MHz : 3200.000\n").unwrap();
    assert_eq!(snap.get("cpu_core_frequency_1"), Some(&"3200.000".to_string()));
}

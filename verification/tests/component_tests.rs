use sensor_agent::gpu::{parse_nvidia_smi, parse_pm_info};
use sensor_agent::memory::parse_meminfo;
use sensor_agent::network::{get_network_data, parse_net_dev, NetError, NetReading};
use sensor_agent::tracker::RateTracker;
use sensor_agent::{default_network_interface, default_publish_url, default_reporter};

#[test]
fn nvidia_smi_line_splits_into_four_metrics() {
    let snap = parse_nvidia_smi("2520, 250.5, 95, 67\n");
    assert_eq!(snap.get("gpu_frequency"), Some(&"2520".to_string()));
    assert_eq!(snap.get("gpu_power"), Some(&"250.5".to_string()));
    assert_eq!(snap.get("gpu_utilization"), Some(&"95".to_string()));
    assert_eq!(snap.get("gpu_junction_temp"), Some(&"67".to_string()));
}

#[test]
fn nvidia_smi_wrong_field_count_yields_nothing() {
    assert!(parse_nvidia_smi("2520, 250.5, 95\n").is_empty());
    assert!(parse_nvidia_smi("").is_empty());
}

#[test]
fn pm_info_extracts_and_converts_voltage() {
    let text = "\t2520 MHz (SCLK)\n\t1000 MHz (MCLK)\n\t850.5 mV (VDDGFX)\n\t120.5 W (average GPU)\nGPU Load: 45 %\n";
    let snap = parse_pm_info(text).unwrap();
    assert_eq!(snap.get("gpu_frequency"), Some(&"2520".to_string()));
    assert_eq!(snap.get("gpu_mem_frequency"), Some(&"1000".to_string()));
    assert_eq!(snap.get("gpu_voltage"), Some(&"0.8505".to_string()));
    assert_eq!(snap.get("gpu_power"), Some(&"120.5".to_string()));
    assert_eq!(snap.get("gpu_utilization"), Some(&"45".to_string()));
}

#[test]
fn meminfo_extracts_in_gigabytes() {
    let text = "MemTotal:       32768 kB\nMemFree:        16384 kB\nMemAvailable:   24576 kB\n";
    let snap = parse_meminfo(text).unwrap();
    assert_eq!(snap.get("mem_total"), Some(&"0.03125".to_string()));
    assert_eq!(snap.get("mem_free"), Some(&"0.015625".to_string()));
    assert_eq!(snap.get("mem_available"), Some(&"0.0234375".to_string()));
}

#[test]
fn net_dev_line_yields_both_counters() {
    let text = "Inter-|   Receive\n  eth0: 1000 2 0 0 0 0 0 0 500 3 0 0 0 0 0 0\n";
    assert_eq!(
        parse_net_dev(text, "eth0"),
        NetReading::Counters { received: 1000, sent: 500 }
    );
    assert_eq!(parse_net_dev(text, "wlan0"), NetReading::Absent);
}

#[test]
fn net_dev_bad_counter_is_malformed() {
    let text = "eth0: xyz 2 0 0 0 0 0 0 500\n";
    assert_eq!(parse_net_dev(text, "eth0"), NetReading::Malformed);
}

#[test]
fn network_rates_follow_the_throughput_formula() {
    let mut t = RateTracker::new();
    let t0 = "eth0: 1000 2 0 0 0 0 0 0 500 3\n";
    let t1 = "eth0: 2000 2 0 0 0 0 0 0 1500 3\n";
    let first = get_network_data(t0, "eth0", &mut t, 0).unwrap();
    assert!(first.is_empty());
    let second = get_network_data(t1, "eth0", &mut t, 1000).unwrap();
    assert_eq!(second.get("network_received_bytes_1"), Some(&"1000".to_string()));
    assert_eq!(second.get("network_sent_bytes_1"), Some(&"1000".to_string()));
    assert_eq!(second.get("network_name_1"), Some(&"ethernet".to_string()));
}

#[test]
fn absent_interface_reports_nothing() {
    let mut t = RateTracker::new();
    let snap = get_network_data("lo: 1 2 3 4 5 6 7 8 9\n", "eth0", &mut t, 0).unwrap();
    assert!(snap.is_empty());
}

#[test]
fn malformed_network_counters_are_rejected() {
    let mut t = RateTracker::new();
    let r = get_network_data("eth0: ? 2 0 0 0 0 0 0 500\n", "eth0", &mut t, 0);
    assert_eq!(r.unwrap_err(), NetError::MalformedCounters);
}

#[test]
fn configuration_defaults_match_the_agent() {
    assert_eq!(default_reporter(), "linux-sensor-agent");
    assert_eq!(default_publish_url(), "http://localhost:8080/publish");
    assert_eq!(default_network_interface(), "eth0");
}

#[test]
fn later_interface_line_wins() {
    let text = "eth0: 1 2 0 0 0 0 0 0 3 4\neth0: 10 2 0 0 0 0 0 0 30 4\n";
    assert_eq!(
        parse_net_dev(text, "eth0"),
        NetReading::Counters { received: 10, sent: 30 }
    );
}

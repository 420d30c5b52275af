use sensor_agent::snapshot::Snapshot;
use sensor_agent::text::{format_u64, parse_u64, split_fields, trim};
use sensor_agent::Config;

#[test]
fn insert_overwrites_and_get_returns_the_last_value() {
    let mut s = Snapshot::new();
    assert!(s.is_empty());
    s.insert("k", "1".to_string());
    s.insert("k", "2".to_string());
    assert_eq!(s.get("k"), Some(&"2".to_string()));
    assert!(s.get("other").is_none());
}

#[test]
fn insert_if_absent_keeps_the_first_value() {
    let mut s = Snapshot::new();
    s.insert_if_absent("k", "1".to_string());
    s.insert_if_absent("k", "2".to_string());
    assert_eq!(s.get("k"), Some(&"1".to_string()));
}

#[test]
fn merge_prefers_the_other_snapshot() {
    let mut a = Snapshot::new();
    a.insert("shared", "old".to_string());
    a.insert("only_a", "1".to_string());
    let mut b = Snapshot::new();
    b.insert("shared", "new".to_string());
    b.insert("only_b", "2".to_string());
    a.merge(&b);
    assert_eq!(a.get("shared"), Some(&"new".to_string()));
    assert_eq!(a.get("only_a"), Some(&"1".to_string()));
    assert_eq!(a.get("only_b"), Some(&"2".to_string()));
}

#[test]
fn numbers_round_trip_through_text() {
    assert_eq!(format_u64(0), "0");
    assert_eq!(format_u64(18446744073709551615), "18446744073709551615");
    assert_eq!(parse_u64("18446744073709551615"), Some(18446744073709551615));
    assert_eq!(parse_u64("18446744073709551616"), None);
    assert_eq!(parse_u64(""), None);
    assert_eq!(parse_u64("12a"), None);
    assert_eq!(parse_u64(&format_u64(987654321)), Some(987654321));
}

#[test]
fn fields_split_on_whitespace_runs() {
    let f = split_fields("  cpu0  100\t20 3 ");
    assert_eq!(f, vec!["cpu0", "100", "20", "3"]);
    assert_eq!(trim("  x y \t"), "x y");
}

#[test]
fn configuration_carries_its_three_settings() {
    let c = Config {
        reporter: "r".to_string(),
        publish_url: "u".to_string(),
        network_interface: "eth1".to_string(),
    };
    assert_eq!(c.reporter, "r");
    assert_eq!(c.publish_url, "u");
    assert_eq!(c.network_interface, "eth1");
}

use sensor_agent::pattern::{apply_transform, extract_values, ExtractError, Rule, Transform};

#[test]
fn later_line_wins_for_a_shared_name() {
    let rules = vec![Rule::new("metric", "val: ([0-9]+)", None)];
    let snap = extract_values("val: 1\nval: 2\n", &rules).unwrap();
    assert_eq!(snap.get("metric"), Some(&"2".to_string()));
}

#[test]
fn extraction_is_idempotent() {
    let rules = vec![
        Rule::new("a", "a=([0-9]+)", None),
        Rule::new("b", "b=([0-9.]+) kB", Some(Transform::KilobytesToGigabytes)),
    ];
    let text = "a=7\nb=32768 kB\nnoise\na=9\n";
    let first = extract_values(text, &rules).unwrap();
    let second = extract_values(text, &rules).unwrap();
    assert_eq!(first.pairs(), second.pairs());
}

#[test]
fn unmatched_names_are_absent() {
    let rules = vec![Rule::new("a", "a=([0-9]+)", None), Rule::new("b", "b=([0-9]+)", None)];
    let snap = extract_values("a=5\n", &rules).unwrap();
    assert_eq!(snap.get("a"), Some(&"5".to_string()));
    assert!(snap.get("b").is_none());
    assert!(!snap.contains_key("b"));
}

#[test]
fn invalid_pattern_is_rejected() {
    let rules = vec![Rule::new("a", "(", None)];
    let r = extract_values("whatever", &rules);
    assert!(matches!(r, Err(ExtractError::InvalidPattern { .. })));
}

#[test]
fn malformed_transform_input_is_rejected() {
    let rules = vec![Rule::new("a", "v=([a-z]+)", Some(Transform::MillivoltsToVolts))];
    let r = extract_values("v=abc\n", &rules);
    match r {
        Err(ExtractError::MalformedValue { name, value }) => {
            assert_eq!(name, "a");
            assert_eq!(value, "abc");
        },
        _ => panic!("expected a malformed-value error"),
    }
}

#[test]
fn kilobytes_to_gigabytes_is_exact_decimal() {
    assert_eq!(apply_transform(Transform::KilobytesToGigabytes, "32768"), Some("0.03125".to_string()));
    assert_eq!(
        apply_transform(Transform::KilobytesToGigabytes, "16384256"),
        Some("15.625244140625".to_string())
    );
    assert_eq!(apply_transform(Transform::KilobytesToGigabytes, "1048576"), Some("1".to_string()));
}

#[test]
fn millivolts_to_volts_is_exact_decimal() {
    assert_eq!(apply_transform(Transform::MillivoltsToVolts, "850.5"), Some("0.8505".to_string()));
    assert_eq!(apply_transform(Transform::MillivoltsToVolts, "1000"), Some("1".to_string()));
    assert_eq!(apply_transform(Transform::MillivoltsToVolts, "abc"), None);
}

#[test]
fn transform_applies_to_the_stored_value() {
    let rules = vec![Rule::new("mem", "Mem:\\s*([0-9]+) kB", Some(Transform::KilobytesToGigabytes))];
    let snap = extract_values("Mem:   32768 kB\n", &rules).unwrap();
    assert_eq!(snap.get("mem"), Some(&"0.03125".to_string()));
}

#[test]
fn empty_text_yields_nothing() {
    let rules = vec![Rule::new("a", "a=([0-9]+)", None)];
    let snap = extract_values("", &rules).unwrap();
    assert!(snap.get("a").is_none());
}

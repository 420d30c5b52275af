use sensor_agent::sensors::{
    get_sensor_data, get_sensor_values, Feature, SensorChip, SensorRule, Subfeature,
};
use sensor_agent::text::format_centi;

fn chip(name: &str, features: Vec<Feature>) -> SensorChip {
    SensorChip { name: name.to_string(), features }
}

fn feature(label: &str, subs: Vec<Subfeature>) -> Feature {
    Feature { label: label.to_string(), subfeatures: subs }
}

fn sub(name: &str, value: Option<i64>) -> Subfeature {
    Subfeature { name: name.to_string(), value }
}

#[test]
fn unmatched_chip_pattern_yields_no_entry() {
    let chips = vec![chip("k10temp-pci-00c3", vec![feature("Tctl", vec![sub(
        "temp1_input",
        Some(4525),
    )])])];
    let rules = vec![SensorRule::new("nosuchchip.*", "Tctl", "temp1_input", "cpu_temp")];
    let snap = get_sensor_values(&chips, &rules);
    assert!(snap.get("cpu_temp").is_none());
    assert!(!snap.contains_key("cpu_temp"));
}

#[test]
fn matching_leaf_is_reported_with_two_decimals() {
    let chips = vec![chip("k10temp-pci-00c3", vec![feature("Tctl", vec![sub(
        "temp1_input",
        Some(4525),
    )])])];
    let snap = get_sensor_data(&chips);
    assert_eq!(snap.get("cpu_temp"), Some(&"45.25".to_string()));
}

#[test]
fn unreadable_leaf_is_omitted() {
    let chips = vec![chip("k10temp-pci-00c3", vec![feature("Tctl", vec![sub(
        "temp1_input",
        None,
    )])])];
    let snap = get_sensor_data(&chips);
    assert!(snap.get("cpu_temp").is_none());
}

#[test]
fn first_matching_leaf_wins() {
    let chips = vec![
        chip("corsaircpro-hid-3-1", vec![feature("temp1", vec![sub("temp1_input", Some(3000))])]),
        chip("corsaircpro-hid-3-2", vec![feature("temp1", vec![sub("temp1_input", Some(9900))])]),
    ];
    let rules = vec![SensorRule::new("corsaircpro-.*", "temp1", "temp[0-9]{1}_input", "pump_temp")];
    let snap = get_sensor_values(&chips, &rules);
    assert_eq!(snap.get("pump_temp"), Some(&"30.00".to_string()));
}

#[test]
fn matching_feature_without_leaf_falls_through() {
    let chips = vec![chip("corsaircpro-hid-3-1", vec![
        feature("temp1", vec![sub("other", Some(1100))]),
        feature("temp1", vec![sub("temp1_input", Some(2200))]),
    ])];
    let rules = vec![SensorRule::new("corsaircpro-.*", "temp1", "temp[0-9]{1}_input", "pump_temp")];
    let snap = get_sensor_values(&chips, &rules);
    assert_eq!(snap.get("pump_temp"), Some(&"22.00".to_string()));
}

#[test]
fn values_render_signed_hundredths() {
    assert_eq!(format_centi(4525), "45.25");
    assert_eq!(format_centi(-1250), "-12.50");
    assert_eq!(format_centi(5), "0.05");
    assert_eq!(format_centi(0), "0.00");
}

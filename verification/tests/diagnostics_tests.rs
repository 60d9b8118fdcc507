use phys_rs::diagnostics::Diagnostics;
use std::time::Duration;

#[test]
fn record_then_get() {
    let mut d = Diagnostics::new();
    assert_eq!(d.get("gravity"), None);
    d.record("gravity", Duration::from_micros(250));
    assert_eq!(d.get("gravity"), Some(Duration::from_micros(250)));
    assert_eq!(d.get("sph"), None);
}

#[test]
fn record_replaces_previous_value() {
    let mut d = Diagnostics::default();
    d.record("sph", Duration::from_millis(3));
    d.record("sph", Duration::from_millis(5));
    assert_eq!(d.get("sph"), Some(Duration::from_millis(5)));
    assert_eq!(d.sorted_timings().len(), 1);
}

#[test]
fn timings_are_listed_by_name() {
    let mut d = Diagnostics::new();
    d.record("sph_density", Duration::from_micros(3));
    d.record("gravity", Duration::from_micros(1));
    d.record("collisions", Duration::from_micros(2));
    d.record("gravity", Duration::from_micros(4));
    d.record("Zeta", Duration::from_micros(5));
    let names: Vec<&str> = d.sorted_timings().iter().map(|(n, _)| n.as_str()).collect();
    assert_eq!(names, vec!["Zeta", "collisions", "gravity", "sph_density"]);
    assert_eq!(d.sorted_timings()[2].1, Duration::from_micros(4));
}

#[test]
fn non_ascii_names_order_by_code_point() {
    let mut d = Diagnostics::new();
    d.record("é", Duration::from_micros(1));
    d.record("z", Duration::from_micros(2));
    d.record("", Duration::from_micros(3));
    let names: Vec<&str> = d.sorted_timings().iter().map(|(n, _)| n.as_str()).collect();
    let mut expected = vec!["é", "z", ""];
    expected.sort();
    assert_eq!(names, expected);
}

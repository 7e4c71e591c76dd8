use pace::space::{Distance, Kilometers, Meters};

#[test]
fn distance_constructor() {
    assert_eq!(Distance::new("10km").unwrap(), Distance(10, 0));
    assert_eq!(Distance::new("10.20km").unwrap(), Distance(10, 20));
    assert_eq!(Distance::new("10.1234km").unwrap(), Distance(10, 123));
    assert_eq!(Distance::new("10m").unwrap(), Distance(0, 10));

    assert_eq!(Distance::new("1234m").unwrap(), Distance(1, 234));
    assert_eq!(Distance::new("12345m").unwrap(), Distance(12, 345));
}

#[test]
fn km_fraction_truncates_not_rounds() {
    // Only the first three fractional characters count, verbatim.
    assert_eq!(Distance::new("3.14159km").unwrap(), Distance(3, 141));
    assert_eq!(Distance::new("1.9999km").unwrap(), Distance(1, 999));
    // A short fraction is used as-is, not scaled: two tenths become 2 m.
    assert_eq!(Distance::new("0.2km").unwrap(), Distance(0, 2));
}

#[test]
fn km_fraction_defaults_to_zero() {
    assert_eq!(Distance::new("10.km").unwrap(), Distance(10, 0));
    assert_eq!(Distance::new("10.xyzkm").unwrap(), Distance(10, 0));
    // Only the part up to the second dot is read; here it is "2".
    assert_eq!(Distance::new("1.2.3km").unwrap(), Distance(1, 2));
}

#[test]
fn meter_strings_decompose() {
    assert_eq!(Distance::new("999m").unwrap(), Distance(0, 999));
    assert_eq!(Distance::new("1000m").unwrap(), Distance(1, 0));
    assert_eq!(Distance::new("4294967295m").unwrap(), Distance(4294967, 295));
}

#[test]
fn distance_rejections() {
    assert_eq!(Distance::new(""), None);
    assert_eq!(Distance::new("10"), None);
    assert_eq!(Distance::new("km"), None);
    assert_eq!(Distance::new("m"), None);
    assert_eq!(Distance::new("xykm"), None);
    assert_eq!(Distance::new(".2km"), None);
    assert_eq!(Distance::new("10.5m"), None);
    // One past u32::MAX.
    assert_eq!(Distance::new("4294967296m"), None);
}

#[test]
fn meters_conversions() {
    assert_eq!(Meters::from_kilometers(Kilometers(10)), Meters(10000));
    assert_eq!(Meters::from_distance(Distance(12, 345)), Meters(12345));
    assert_eq!(Meters(1500).to_display_string(), "1500 m");
}

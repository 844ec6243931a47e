use avl_interval_tree::Interval;

#[test]
fn interval_keeps_what_it_was_given() {
    let interval = Interval::new(3, 17, String::from("payload"));
    assert_eq!(interval.start(), 3);
    assert_eq!(interval.end(), 17);
    assert_eq!(interval.data(), "payload");
}

#[test]
fn interval_accepts_start_above_end() {
    let interval = Interval::new(9, -4, String::new());
    assert_eq!(interval.start(), 9);
    assert_eq!(interval.end(), -4);
    assert_eq!(interval.data(), "");
}

#[test]
fn interval_to_string_has_bounds_and_payload() {
    let interval = Interval::new(1, 3, String::from("A"));
    assert_eq!(interval.to_string(), "[1, 3] (A)");
}

#[test]
fn interval_to_string_with_negative_bounds() {
    let interval = Interval::new(-12, -7, String::from("below zero"));
    assert_eq!(interval.to_string(), "[-12, -7] (below zero)");
}

#[test]
fn interval_to_string_at_the_limits() {
    let interval = Interval::new(i64::MIN, i64::MAX, String::from("all"));
    assert_eq!(
        interval.to_string(),
        "[-9223372036854775808, 9223372036854775807] (all)"
    );
}

#[test]
fn interval_to_string_with_empty_payload() {
    let interval = Interval::new(0, 0, String::new());
    assert_eq!(interval.to_string(), "[0, 0] ()");
}

#[test]
fn interval_to_string_keeps_payload_as_it_is() {
    let interval = Interval::new(5, 6, String::from("[7, 8] (x) \u{e9}"));
    assert_eq!(interval.to_string(), "[5, 6] ([7, 8] (x) \u{e9})");
}

#[test]
fn interval_clone_is_equal_and_independent() {
    let interval = Interval::new(2, 4, String::from("twin"));
    let copy = interval.clone();
    drop(interval);
    assert_eq!(copy.start(), 2);
    assert_eq!(copy.end(), 4);
    assert_eq!(copy.data(), "twin");
}

#[test]
fn interval_debug_names_its_fields() {
    let interval = Interval::new(2, 4, String::from("d"));
    let shown = format!("{:?}", interval);
    assert!(shown.contains("start: 2"));
    assert!(shown.contains("end: 4"));
    assert!(shown.contains("\"d\""));
}

use umya_spreadsheet::values::UInt32Value;

#[test]
fn malformed_input_is_ignored_rather_than_panicking() {
    for junk in ["count", "", "percentOfTotal", "3.5", "-1", "n/a", "1e5"] {
        let mut v = UInt32Value::default();
        v.set_value_string(junk);
        assert!(!v.has_value(), "{junk:?} must not set a value");
    }
}

#[test]
fn well_formed_input_still_parses() {
    let mut v = UInt32Value::default();
    v.set_value_string("67");
    assert!(v.has_value());
    assert_eq!(v.value(), 67);
}

#[test]
fn uint32_value_reads_zero_when_absent() {
    let v = UInt32Value::default();
    assert!(!v.has_value());
    assert_eq!(v.value(), 0);
    assert_eq!(v.get_value(), 0);
    assert_eq!(v.value_string(), "0");
    assert_eq!(v.hash_string(), "empty!!");
    assert_eq!(v.get_hash_string(), "empty!!");
}

#[test]
fn uint32_value_set_then_read() {
    let mut v = UInt32Value::default();
    v.set_value(4294967295);
    assert_eq!(v.value(), 4294967295);
    assert_eq!(v.value_string(), "4294967295");
    assert_eq!(v.get_value_string(), "4294967295");
    assert_eq!(v.hash_string(), "4294967295");
    v.remove_value();
    assert!(!v.has_value());
}

#[test]
fn uint32_value_parsing_follows_str_parse() {
    for (text, expected) in [
        ("0", Some(0u32)),
        ("+7", Some(7)),
        ("007", Some(7)),
        ("4294967295", Some(4294967295)),
        ("4294967296", None),
        ("99999999999", None),
        ("+", None),
        (" 1", None),
        ("1 ", None),
        ("-0", None),
        ("١", None),
    ] {
        let mut v = UInt32Value::default();
        v.set_value_string(text);
        assert_eq!(v.has_value(), expected.is_some(), "{text:?}");
        assert_eq!(expected, text.parse::<u32>().ok(), "{text:?}");
        if let Some(e) = expected {
            assert_eq!(v.value(), e);
        }
    }
}

#[test]
fn uint32_value_junk_keeps_the_previous_value() {
    let mut v = UInt32Value::default();
    v.set_value(12);
    v.set_value_string("twelve");
    assert_eq!(v.value(), 12);
}

#[test]
fn uint32_value_text_round_trip() {
    for n in [0u32, 1, 9, 10, 99, 100, 12345, 4294967295] {
        let mut a = UInt32Value::default();
        a.set_value(n);
        let mut b = UInt32Value::default();
        b.set_value_string(&a.value_string());
        assert_eq!(a, b);
        assert_eq!(a.value_string(), n.to_string());
    }
}

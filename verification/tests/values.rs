use umya_spreadsheet::decimal::{format_hex_upper, format_signed, format_unsigned, parse_hex_u32, parse_i16, parse_i32, parse_u32, parse_usize};
use umya_spreadsheet::text::text_equals;
use umya_spreadsheet::values::{BooleanValue, Int16Value, Int32Value, StringValue};

#[test]
fn int16_value_reads_and_writes_signed_text() {
    let mut v = Int16Value::default();
    assert_eq!(v.value(), 0);
    assert_eq!(v.get_value(), 0);
    assert_eq!(v.hash_string(), "empty!!");
    v.set_value_string("-32768");
    assert_eq!(v.value(), -32768);
    assert_eq!(v.value_string(), "-32768");
    assert_eq!(v.get_value_string(), "-32768");
    assert_eq!(v.hash_string(), "-32768");
    assert_eq!(v.get_hash_string(), "-32768");
    v.set_value_string("32768");
    assert_eq!(v.value(), -32768, "out of range text leaves the value");
    v.set_value_string("+32767");
    assert_eq!(v.value(), 32767);
    v.set_value(-5);
    assert_eq!(v.value_string(), "-5");
}

#[test]
fn int16_value_ignores_junk() {
    for junk in ["count", "", "-", "+", "--1", "1.0", "1e3", " 1"] {
        let mut v = Int16Value::default();
        v.set_value_string(junk);
        assert!(!v.has_value(), "{junk:?}");
        assert!(junk.parse::<i16>().is_err());
    }
}

#[test]
fn int32_value_reads_and_writes_signed_text() {
    let mut v = Int32Value::default();
    assert_eq!(v.value(), 0);
    assert!(!v.has_value());
    v.set_value_string("-2147483648");
    assert_eq!(v.value(), i32::MIN);
    assert_eq!(v.value_string(), "-2147483648");
    v.set_value_string("2147483648");
    assert_eq!(v.value(), i32::MIN);
    v.set_value(0);
    assert_eq!(v.value_string(), "0");
}

#[test]
fn boolean_value_reads_one_and_true() {
    for (text, expected) in [("1", true), ("true", true), ("0", false), ("false", false), ("TRUE", false), ("yes", false), ("", false)] {
        let mut v = BooleanValue::default();
        v.set_value_string(text);
        assert!(v.has_value());
        assert_eq!(v.value(), expected, "{text:?}");
    }
    let mut v = BooleanValue::default();
    assert!(!v.value());
    assert_eq!(v.value_string(), "0");
    v.set_value(true);
    assert_eq!(v.value_string(), "1");
}

#[test]
fn string_value_reads_empty_when_absent() {
    let mut v = StringValue::new();
    assert_eq!(v.value_str(), "");
    assert!(!v.has_value());
    v.set_value("");
    assert!(v.has_value());
    v.set_value("abc");
    assert_eq!(v.value_str(), "abc");
}

#[test]
fn decimal_formatting_matches_to_string() {
    for n in [0u64, 5, 10, 19, 1000, 18446744073709551615] {
        assert_eq!(format_unsigned(n), n.to_string());
    }
    for n in [0i64, -1, 7, -32768, i64::MIN, i64::MAX] {
        assert_eq!(format_signed(n), n.to_string());
    }
    assert_eq!(format_hex_upper(0xFF00AB, 8), "00FF00AB");
    assert_eq!(format_hex_upper(0, 0), "");
}

#[test]
fn decimal_parsing_matches_str_parse() {
    for s in ["0", "12", "+12", "-12", "", "+", "-", "65536", "4294967295", "4294967296", "x1", "1x"] {
        assert_eq!(parse_u32(s), s.parse::<u32>().ok(), "{s:?}");
        assert_eq!(parse_i16(s), s.parse::<i16>().ok(), "{s:?}");
        assert_eq!(parse_i32(s), s.parse::<i32>().ok(), "{s:?}");
        assert_eq!(parse_usize(s), s.parse::<usize>().ok(), "{s:?}");
    }
    assert_eq!(parse_hex_u32("FFff0000"), Some(0xFFFF0000));
    assert_eq!(parse_hex_u32("1FFFFFFFF"), None);
    assert_eq!(parse_hex_u32("G1"), None);
    assert_eq!(parse_hex_u32(""), None);
}

#[test]
fn text_equals_compares_characters() {
    assert!(text_equals("héllo", "héllo"));
    assert!(!text_equals("hello", "hellO"));
    assert!(!text_equals("abc", "ab"));
    assert!(text_equals("", ""));
}

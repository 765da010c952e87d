use flight_telemetry::text::{
    decimal_text, is_blank_text, join, same_text, signed_decimal_text, starts_with, trim,
};

#[test]
fn trimming_removes_white_space_at_both_ends() {
    assert_eq!(trim("  a b  "), "a b");
    assert_eq!(trim("a"), "a");
    assert_eq!(trim(""), "");
    assert_eq!(trim(" \t\r\n"), "");
    assert_eq!(trim("\u{3000}Flug\u{a0}über Köln\u{2028}"), "Flug\u{a0}über Köln");
    assert_eq!(trim("x\n"), "x");
    assert_eq!(trim("\tx"), "x");
}

#[test]
fn blank_texts_hold_white_space_only() {
    assert!(is_blank_text(""));
    assert!(is_blank_text(" \t\n\u{2003}"));
    assert!(!is_blank_text(" a "));
    assert!(!is_blank_text("_"));
}

#[test]
fn prefixes_and_equality_go_by_characters() {
    assert!(starts_with("Unknown(5)", "Unknown"));
    assert!(starts_with("Unknown", "Unknown"));
    assert!(starts_with("abc", ""));
    assert!(!starts_with("Unknow", "Unknown"));
    assert!(!starts_with("unknown", "Unknown"));
    assert!(starts_with("über", "ü"));
    assert!(same_text("B1", "B1"));
    assert!(same_text("", ""));
    assert!(!same_text("B1", "B2"));
    assert!(!same_text("B1", "B10"));
    assert_eq!(join("flight", ".db"), "flight.db");
    assert_eq!(join("", ""), "");
}

#[test]
fn numerals_are_decimal() {
    assert_eq!(decimal_text(0), "0");
    assert_eq!(decimal_text(7), "7");
    assert_eq!(decimal_text(10), "10");
    assert_eq!(decimal_text(12_000), "12000");
    assert_eq!(decimal_text(u64::MAX), "18446744073709551615");
    assert_eq!(signed_decimal_text(0), "0");
    assert_eq!(signed_decimal_text(-1), "-1");
    assert_eq!(signed_decimal_text(1_700_000_000_123), "1700000000123");
    assert_eq!(signed_decimal_text(i64::MIN), "-9223372036854775808");
    assert_eq!(signed_decimal_text(i64::MAX), "9223372036854775807");
}

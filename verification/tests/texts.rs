use device_faker::number::{decimal_text, parse_number, NumberError};
use device_faker::split::{
    eq_ignoring_case, lines, split, split_once, trim, trim_line_ends, words,
};
use device_faker::text::{
    contains, cut_before_last, ends_with, has_char, joined, listed, starts_with,
};

#[test]
fn texts_are_searched() {
    assert!(contains("/dev/__properties__/x", "__prop"));
    assert!(!contains("abc", "abd"));
    assert!(contains("abc", ""));
    assert!(starts_with("persist.sys", "persist"));
    assert!(!starts_with("per", "persist"));
    assert!(ends_with("/dev/properties_serial", "/properties_serial"));
    assert!(!ends_with("serial", "/properties_serial"));
    assert!(has_char("a\0b", '\0'));
    assert!(!has_char("ab", '\0'));
    assert_eq!(joined("ro", "."), "ro.");
    assert!(listed(&vec!["a".to_string(), "b".to_string()], "b"));
    assert!(!listed(&vec!["a".to_string()], "b"));
}

#[test]
fn names_are_cut_before_the_last_dot() {
    assert_eq!(cut_before_last("ro.product.model", '.'), "ro.product");
    assert_eq!(cut_before_last("model", '.'), "model");
    assert_eq!(cut_before_last(".model", '.'), "");
    assert_eq!(cut_before_last("é.ü.ö", '.'), "é.ü");
}

#[test]
fn texts_are_split() {
    assert_eq!(
        split_once("Override density: 1:2", ':'),
        Some(("Override density".to_string(), " 1:2".to_string()))
    );
    assert_eq!(split_once("none", ':'), None);
    assert_eq!(split("a/b//c", '/'), vec!["a", "b", "", "c"]);
    assert_eq!(split("", '/'), vec![""]);
    assert_eq!(words("  a \t b\u{3000}c "), vec!["a", "b", "c"]);
    assert!(words(" \n").is_empty());
    assert_eq!(lines("a\nb\r\n\nc\r"), vec!["a", "b", "", "c\r"]);
    assert!(lines("").is_empty());
    assert_eq!(lines("\n"), vec![""]);
}

#[test]
fn texts_are_trimmed() {
    assert_eq!(trim("\u{a0} x y \n"), "x y");
    assert_eq!(trim(" \t "), "");
    assert_eq!(trim_line_ends("value \r\n\n"), "value ");
    assert_eq!(trim_line_ends("\nvalue"), "\nvalue");
    assert!(eq_ignoring_case("Override DENSITY", "override density"));
    assert!(!eq_ignoring_case("Ünit", "ünit"));
    assert!(!eq_ignoring_case("reset", "resets"));
}

#[test]
fn numbers_are_read_as_the_standard_library_reads_them() {
    for s in ["", "+", "-", "+7", "-7", "007", "4294967295", "4294967296", "12a", "a12", " 1", "99999999999a", "9999999999"] {
        let ours = parse_number(s, 10, u32::MAX as u64);
        match s.parse::<u32>() {
            Ok(n) => assert_eq!(ours, Ok(n as u64), "{}", s),
            Err(e) => {
                let kind = match ours {
                    Err(NumberError::Empty) => "cannot parse integer from empty string",
                    Err(NumberError::InvalidDigit) => "invalid digit found in string",
                    Err(NumberError::TooLarge) => "number too large to fit in target type",
                    Ok(n) => panic!("{} was read as {}", s, n),
                };
                assert_eq!(kind, e.to_string(), "{}", s);
            }
        }
    }
    assert_eq!(parse_number("7fFe0000", 16, u64::MAX), Ok(0x7ffe0000));
    assert_eq!(parse_number("ffffffffffffffff", 16, u64::MAX), Ok(u64::MAX));
    assert_eq!(parse_number("10000000000000000", 16, u64::MAX), Err(NumberError::TooLarge));
    assert_eq!(parse_number("g", 16, u64::MAX), Err(NumberError::InvalidDigit));
}

#[test]
fn numbers_are_written_in_decimal() {
    for n in [0, 7, 10, 35, 120, 640, 4294967295] {
        assert_eq!(decimal_text(n), n.to_string());
        assert_eq!(parse_number(&decimal_text(n), 10, u32::MAX as u64), Ok(n as u64));
    }
}

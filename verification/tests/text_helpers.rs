//! Decimal parsing and rendering helpers.

use bucc::ast::Location;
use bucc::text::{parse_dec_u64, str_eq, usize_to_string};

#[test]
fn decimal_parsing_is_exact() {
    assert_eq!(parse_dec_u64("0"), Some(0));
    assert_eq!(parse_dec_u64("42"), Some(42));
    assert_eq!(parse_dec_u64("18446744073709551615"), Some(u64::MAX));
    assert_eq!(parse_dec_u64("18446744073709551616"), None);
    assert_eq!(parse_dec_u64(""), None);
    assert_eq!(parse_dec_u64("12a"), None);
    assert_eq!(parse_dec_u64("-1"), None);
}

#[test]
fn decimal_rendering_round_trips() {
    assert_eq!(usize_to_string(0), "0");
    assert_eq!(usize_to_string(5), "5");
    assert_eq!(usize_to_string(12345), "12345");
    assert_eq!(parse_dec_u64(&usize_to_string(987654321)), Some(987654321));
}

#[test]
fn name_comparison_is_by_content() {
    assert!(str_eq("alpha", "alpha"));
    assert!(!str_eq("alpha", "alphb"));
    assert!(!str_eq("alpha", "alph"));
    assert!(str_eq("", ""));
}

#[test]
fn locations_render_as_file_row_col() {
    let l = Location { file: "main.bu".to_string(), row: 12, col: 7 };
    assert_eq!(l.render(), "main.bu:12:7");
}

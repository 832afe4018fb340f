use vig::lexer::{keyword_or_identifier, Span, TokenKind};
use vig::strutil::{i64_to_string, parse_i64_or_zero, to_lower_string, u64_to_string};

#[test]
fn test_parse_i64_or_zero_plain() {
    assert_eq!(parse_i64_or_zero("0"), 0);
    assert_eq!(parse_i64_or_zero("123"), 123);
    assert_eq!(parse_i64_or_zero("007"), 7);
    assert_eq!(parse_i64_or_zero("9223372036854775807"), i64::MAX);
}

#[test]
fn test_parse_i64_or_zero_malformed_is_zero() {
    assert_eq!(parse_i64_or_zero(""), 0);
    assert_eq!(parse_i64_or_zero("1_2"), 0);
    assert_eq!(parse_i64_or_zero("1.5"), 0);
    assert_eq!(parse_i64_or_zero("1e3"), 0);
    assert_eq!(parse_i64_or_zero("-4"), 0);
}

#[test]
fn test_parse_i64_or_zero_overflow_is_zero() {
    assert_eq!(parse_i64_or_zero("9223372036854775808"), 0);
    assert_eq!(parse_i64_or_zero("99999999999999999999"), 0);
}

#[test]
fn test_u64_to_string() {
    assert_eq!(u64_to_string(0), "0");
    assert_eq!(u64_to_string(5), "5");
    assert_eq!(u64_to_string(1024), "1024");
    assert_eq!(u64_to_string(u64::MAX), "18446744073709551615");
}

#[test]
fn test_i64_to_string() {
    assert_eq!(i64_to_string(0), "0");
    assert_eq!(i64_to_string(42), "42");
    assert_eq!(i64_to_string(-7), "-7");
    assert_eq!(i64_to_string(i64::MIN), "-9223372036854775808");
}

#[test]
fn test_to_lower_string_folds_ascii_only() {
    assert_eq!(to_lower_string("MyEnt"), "myent");
    assert_eq!(to_lower_string("already_lower"), "already_lower");
    assert_eq!(to_lower_string("MIXED_03"), "mixed_03");
}

#[test]
fn test_keyword_or_identifier_lookup() {
    assert_eq!(keyword_or_identifier("ENTITY"), TokenKind::Entity);
    assert_eq!(keyword_or_identifier("Downto"), TokenKind::Downto);
    assert_eq!(keyword_or_identifier("std_logic"), TokenKind::StdLogic);
    assert_eq!(keyword_or_identifier("my_signal"), TokenKind::Identifier);
}

#[test]
fn test_span_len_and_is_empty() {
    let s = Span::new(3, 8);
    assert_eq!(s.len(), 5);
    assert!(!s.is_empty());
    let e = Span::new(4, 4);
    assert_eq!(e.len(), 0);
    assert!(e.is_empty());
}

use std::cmp::Ordering;
use sql_engine::ast::Literal;
use sql_engine::bigint::Int;
use sql_engine::record::{decode, encode};
use sql_engine::types::{from_literal, Type, TypeError};

fn parse(s: &str) -> Int {
    Int::parse(s).unwrap()
}

#[test]
fn quoted_string_is_a_type_error() {
    assert_eq!(
        from_literal(&Literal::SingleQuotedString("x".to_owned())),
        Err(TypeError::Unsupported("string literal".to_owned()))
    );
    assert_eq!(
        from_literal(&Literal::Other("DATE '2020-01-01'".to_owned())),
        Err(TypeError::Unsupported("DATE '2020-01-01'".to_owned()))
    );
}

#[test]
fn integer_texts_are_recognised() {
    assert!(Int::parse("").is_none());
    assert!(Int::parse("-").is_none());
    assert!(Int::parse("1e3").is_none());
    assert!(Int::parse("+1").is_none());
    assert_eq!(parse("000"), Int { negative: false, digits: vec![] });
    assert_eq!(parse("-120"), Int { negative: true, digits: vec![1, 2, 0] });
}

#[test]
fn integers_compare_by_value() {
    assert_eq!(parse("-5").compare(&parse("3")), Ordering::Less);
    assert_eq!(parse("-5").compare(&parse("-30")), Ordering::Greater);
    assert_eq!(parse("99").compare(&parse("100")), Ordering::Less);
    assert_eq!(parse("123").compare(&parse("0123")), Ordering::Equal);
    assert_eq!(parse("129").compare(&parse("123")), Ordering::Greater);
    assert!(parse("18446744073709551616").less_than(&parse("18446744073709551617")));
}

#[test]
fn records_hold_sign_length_and_digits() {
    let r = encode(&parse("42"));
    assert_eq!(r, vec![0, 2, 0, 0, 0, 0, 0, 0, 0, 4, 2]);
    let r = encode(&parse("-7"));
    assert_eq!(r, vec![1, 1, 0, 0, 0, 0, 0, 0, 0, 7]);
    assert_eq!(decode(&r), parse("-7"));
    assert_eq!(Type::Int(decode(&encode(&parse("905")))), from_literal(&Literal::Number("905".to_owned())).unwrap());
}

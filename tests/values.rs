use maw::coerce::coerce_value;
use maw::parse::{is_float_str, parse_bool, parse_date, parse_datetime, parse_i64};
use maw::schema::TypeKind;
use maw::value::Value;

#[test]
fn integer_text_parses_in_range() {
    assert_eq!(parse_i64("42"), Some(42));
    assert_eq!(parse_i64("+7"), Some(7));
    assert_eq!(parse_i64("-9223372036854775808"), Some(i64::MIN));
    assert_eq!(parse_i64("9223372036854775807"), Some(i64::MAX));
    assert_eq!(parse_i64("9223372036854775808"), None);
    assert_eq!(parse_i64(""), None);
    assert_eq!(parse_i64("-"), None);
    assert_eq!(parse_i64("1a"), None);
    assert_eq!(parse_bool("true"), Some(true));
    assert_eq!(parse_bool("True"), None);
}

#[test]
fn float_syntax() {
    for ok in ["1", "1.", ".5", "-1.5e3", "2E-7", "+0.0"] {
        assert!(is_float_str(ok), "{}", ok);
    }
    for bad in ["", ".", "e5", "1e", "1.2.3", "abc", "1e+"] {
        assert!(!is_float_str(bad), "{}", bad);
    }
}

#[test]
fn coercions_by_rule() {
    assert_eq!(coerce_value(&Value::Int(5), TypeKind::F64), Some(Value::Float("5.0".to_string())));
    assert_eq!(coerce_value(&Value::Int(1 << 25), TypeKind::F32), Some(Value::Float("33554432.0".to_string())));
    assert_eq!(coerce_value(&Value::Int((1 << 24) + 1), TypeKind::F32), Some(Value::Float("16777216.0".to_string())));
    assert_eq!(coerce_value(&Value::Int((1 << 24) + 3), TypeKind::F32), Some(Value::Float("16777220.0".to_string())));
    assert_eq!(coerce_value(&Value::Int(-5), TypeKind::F32), Some(Value::Float("-5.0".to_string())));
    assert_eq!(
        coerce_value(&Value::Int(i64::MIN), TypeKind::F64),
        Some(Value::Float("-9223372036854775808.0".to_string()))
    );
    assert_eq!(coerce_value(&Value::Int(300), TypeKind::I8), None);
    assert_eq!(coerce_value(&Value::Bool(true), TypeKind::I32), Some(Value::Int(1)));
    assert_eq!(coerce_value(&Value::Bool(false), TypeKind::F64), Some(Value::Float("0.0".to_string())));
    assert_eq!(coerce_value(&Value::Text("12".to_string()), TypeKind::I16), Some(Value::Int(12)));
    assert_eq!(coerce_value(&Value::Text("x".to_string()), TypeKind::I16), None);
    assert_eq!(coerce_value(&Value::Null, TypeKind::I64), Some(Value::Null));
    assert_eq!(coerce_value(&Value::Float("2.5".to_string()), TypeKind::Utf8), Some(Value::Text("2.5".to_string())));
    assert_eq!(coerce_value(&Value::Date(2), TypeKind::Utf8), Some(Value::Text("1970-01-03".to_string())));
}

#[test]
fn dates_and_datetimes_parse() {
    assert_eq!(parse_date("1970-01-01"), Some(0));
    assert_eq!(parse_date("2024-01-01"), Some(19723));
    assert_eq!(parse_date("2024-02-29"), Some(19782));
    assert_eq!(parse_date("2023-02-29"), None);
    assert_eq!(parse_date("2023-13-01"), None);
    assert_eq!(parse_date("2023-1-01"), None);
    assert_eq!(parse_datetime("1970-01-01T00:00:01Z"), Some(1000));
    assert_eq!(parse_datetime("1970-01-02 00:00:00"), Some(86_400_000));
    assert_eq!(parse_datetime("1970-01-01T24:00:00"), None);
    assert_eq!(coerce_value(&Value::Text("2024-01-01".to_string()), TypeKind::Date), Some(Value::Date(19723)));
    assert_eq!(
        coerce_value(&Value::Text("1970-01-01T00:00:02".to_string()), TypeKind::Datetime),
        Some(Value::Datetime(2000))
    );
}

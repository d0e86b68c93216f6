use lac_to_lbrn2::json::{JsonNumber, JsonValue};
use lac_to_lbrn2::utils::id_str;

#[test]
fn id_str_from_string_value() {
    assert_eq!(id_str(&JsonValue::String("abc".to_string())), Some("abc".to_string()));
}

#[test]
fn id_str_from_unsigned_integer() {
    assert_eq!(id_str(&JsonValue::Number(JsonNumber::PosInt(42))), Some("42".to_string()));
}

#[test]
fn id_str_from_negative_integer() {
    let v = JsonValue::Number(JsonNumber::NegInt(-1));
    assert_eq!(id_str(&v), Some("-1".to_string()));
}

#[test]
fn id_str_from_null_returns_none() {
    assert_eq!(id_str(&JsonValue::Null), None);
}

#[test]
fn id_str_from_bool_returns_none() {
    assert_eq!(id_str(&JsonValue::Bool(true)), None);
}

#[test]
fn id_str_from_array_returns_none() {
    assert_eq!(id_str(&JsonValue::Array(vec![])), None);
}

#[test]
fn id_str_extreme_integers() {
    assert_eq!(
        id_str(&JsonValue::Number(JsonNumber::PosInt(u64::MAX))),
        Some("18446744073709551615".to_string())
    );
    assert_eq!(
        id_str(&JsonValue::Number(JsonNumber::NegInt(i64::MIN))),
        Some("-9223372036854775808".to_string())
    );
    assert_eq!(id_str(&JsonValue::Number(JsonNumber::PosInt(0))), Some("0".to_string()));
}

#[test]
fn id_str_from_fraction_returns_none() {
    assert_eq!(id_str(&JsonValue::Number(JsonNumber::Float(1.5f64.to_bits()))), None);
}

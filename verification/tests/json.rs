use lac_to_lbrn2::json::{JsonNumber, JsonValue};

fn st(s: &str) -> JsonValue {
    JsonValue::String(s.to_string())
}

fn obj(members: Vec<(&str, JsonValue)>) -> JsonValue {
    JsonValue::Object(members.into_iter().map(|(k, v)| (k.to_string(), v)).collect())
}

#[test]
fn member_and_element_lookup() {
    let v = obj(vec![("a", st("x")), ("b", JsonValue::Array(vec![JsonValue::Bool(true)]))]);
    assert_eq!(v.get("a").and_then(|x| x.as_str()), Some("x"));
    assert!(v.get("z").is_none());
    let b = v.get("b").unwrap();
    assert_eq!(b.at(0).and_then(|x| x.as_bool()), Some(true));
    assert!(b.at(1).is_none());
    assert!(st("s").get("a").is_none());
    assert!(v.at(0).is_none());
    assert_eq!(b.as_array().map(|a| a.len()), Some(1));
    assert!(JsonValue::Null.is_null());
    assert!(!st("").is_null());
}

#[test]
fn set_field_replaces_or_appends() {
    let mut v = obj(vec![("a", st("x"))]);
    v.set_field("a", st("y"));
    v.set_field("b", JsonValue::Number(JsonNumber::PosInt(1)));
    assert_eq!(v.get("a").and_then(|x| x.as_str()), Some("y"));
    assert!(matches!(v.get("b"), Some(JsonValue::Number(JsonNumber::PosInt(1)))));
    let mut n = JsonValue::Null;
    n.set_field("k", st("v"));
    assert_eq!(n.get("k").and_then(|x| x.as_str()), Some("v"));
}

#[test]
fn entry_index_finds_the_first_member() {
    let entries = vec![("a".to_string(), st("1")), ("b".to_string(), st("2"))];
    assert_eq!(JsonValue::entry_index(&entries, "b"), Some(1));
    assert_eq!(JsonValue::entry_index(&entries, "c"), None);
}

#[test]
fn copy_is_deep() {
    let v = obj(vec![("a", JsonValue::Array(vec![obj(vec![("b", st("c"))])]))]);
    let mut c = v.copy();
    c.set_field("d", st("e"));
    assert!(v.get("d").is_none());
    assert_eq!(
        c.get("a").and_then(|a| a.at(0)).and_then(|o| o.get("b")).and_then(|x| x.as_str()),
        Some("c")
    );
}

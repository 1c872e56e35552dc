use marquage::collections::ObjectMap;
use marquage::data::value::Value;
use marquage::error::CastError;
use marquage::fields::{put_field, take_field, take_field_or, take_optional_field};

fn object(pairs: Vec<(&str, Value)>) -> ObjectMap {
    let mut map = ObjectMap::new();
    for (k, v) in pairs {
        map.insert(k.to_string(), v);
    }
    map
}

#[test]
fn a_taken_field_leaves_the_map() {
    let mut map = object(vec![("a", Value::UnsignedIntegerNumber(1)), ("b", Value::Boolean(true)), ("c", Value::Void)]);
    let a: Result<u8, CastError> = take_field(&mut map, "a");
    assert!(matches!(a, Ok(1)));
    let keys: Vec<&str> = map.iter().into_iter().map(|(k, _)| k.as_str()).collect();
    assert_eq!(keys, vec!["c", "b"]);
    let b: Result<u8, CastError> = take_field(&mut map, "b");
    assert!(matches!(b, Err(CastError::IncompatibleType)));
}

#[test]
fn a_missing_field_is_named_as_a_string_literal() {
    let mut map = object(vec![]);
    let r: Result<u8, CastError> = take_field(&mut map, "tag");
    assert!(matches!(r, Err(CastError::FieldNotFound(name)) if name == "\"tag\""));
    let r: Result<u8, CastError> = take_field(&mut map, "a\"b\\c\nd");
    assert!(matches!(r, Err(CastError::FieldNotFound(name)) if name == "\"a\\\"b\\\\c\\nd\""));
}

#[test]
fn optional_fields_read_missing_and_void_as_none() {
    let mut map = object(vec![("a", Value::Void), ("b", Value::UnsignedIntegerNumber(3))]);
    let a: Result<Option<u8>, CastError> = take_optional_field(&mut map, "a");
    assert!(matches!(a, Ok(None)));
    let b: Result<Option<u8>, CastError> = take_optional_field(&mut map, "b");
    assert!(matches!(b, Ok(Some(3))));
    let c: Result<Option<u8>, CastError> = take_optional_field(&mut map, "c");
    assert!(matches!(c, Ok(None)));
    assert!(map.is_empty());
}

#[test]
fn defaults_fill_in_missing_fields_only() {
    let mut map = object(vec![("a", Value::UnsignedIntegerNumber(3))]);
    assert!(matches!(take_field_or(&mut map, "a", 9_u8), Ok(3)));
    assert!(matches!(take_field_or(&mut map, "a", 9_u8), Ok(9)));
    let mut map = object(vec![("a", Value::Boolean(false))]);
    assert!(matches!(take_field_or(&mut map, "a", 9_u8), Err(CastError::IncompatibleType)));
}

#[test]
fn written_fields_keep_their_place() {
    let mut map = ObjectMap::new();
    put_field(&mut map, "a", 1_u8);
    put_field(&mut map, "b", true);
    put_field(&mut map, "a", "x".to_string());
    assert_eq!(map.len(), 2);
    let entries = map.iter();
    assert_eq!(entries[0], (&"a".to_string(), &Value::QuotedString("x".to_string())));
    assert_eq!(map.get("b"), Some(&Value::Boolean(true)));
}

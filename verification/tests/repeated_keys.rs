use marquage::data::value::Value;
use marquage::error::{CastError, Error};
use marquage::fields::{take_field, take_field_or, take_optional_field};
use marquage::{from_str, Parseable};

/// A key occurring once stays a scalar, but a `Vec` field accepts it as a
/// one-element array.
#[derive(Debug, PartialEq)]
struct Tags {
    tag: Vec<String>,
}

impl Parseable for Tags {
    fn parse(v: Value) -> Result<Self, CastError> {
        match v {
            Value::Object(mut map) => Ok(Tags { tag: take_field(&mut map, "tag")? }),
            _ => Err(CastError::IncompatibleType),
        }
    }
}

#[test]
fn single_key_is_promoted_to_vec() {
    let parsed: Tags = from_str("tag = rust;").unwrap();
    assert_eq!(parsed, Tags { tag: vec!["rust".to_string()] });
}

#[test]
fn repeated_keys_are_collected_into_vec() {
    let parsed: Tags = from_str("tag = rust;\ntag = marquage;").unwrap();
    assert_eq!(parsed, Tags { tag: vec!["rust".to_string(), "marquage".to_string()] });
}

#[test]
fn array_literal_is_unchanged() {
    let parsed: Tags = from_str(r#"tag = ["rust", "marquage"];"#).unwrap();
    assert_eq!(parsed, Tags { tag: vec!["rust".to_string(), "marquage".to_string()] });
}

#[test]
fn repeated_keys_are_collected_by_the_parser() {
    let parsed: Value = from_str("key = 1;\nkey = 2;\nkey = 3;").unwrap();
    let map = parsed.as_object_ref().unwrap();
    assert_eq!(
        map.get("key"),
        Some(&Value::Array(vec![
            Value::UnsignedIntegerNumber(1),
            Value::UnsignedIntegerNumber(2),
            Value::UnsignedIntegerNumber(3),
        ]))
    );
}

#[test]
fn nested_arrays_are_not_flattened() {
    let parsed: Value = from_str("key = [1, 2];\nkey = [3];").unwrap();
    let map = parsed.as_object_ref().unwrap();
    assert_eq!(
        map.get("key"),
        Some(&Value::Array(vec![
            Value::Array(vec![Value::UnsignedIntegerNumber(1), Value::UnsignedIntegerNumber(2)]),
            Value::Array(vec![Value::UnsignedIntegerNumber(3)]),
        ]))
    );
}

#[test]
fn single_key_is_not_wrapped_for_scalar_fields() {
    let parsed: Value = from_str("key = 1;").unwrap();
    let map = parsed.as_object_ref().unwrap();
    assert_eq!(map.get("key"), Some(&Value::UnsignedIntegerNumber(1)));
}

#[derive(Debug, PartialEq)]
struct Scalar {
    key: String,
}

impl Parseable for Scalar {
    fn parse(v: Value) -> Result<Self, CastError> {
        match v {
            Value::Object(mut map) => Ok(Scalar { key: take_field(&mut map, "key")? }),
            _ => Err(CastError::IncompatibleType),
        }
    }
}

#[test]
fn repeated_keys_rejected_by_scalar_field() {
    let parsed = from_str::<Scalar>("key = first;\nkey = second;");
    match parsed {
        Err(Error::Cast(CastError::IncompatibleType)) => {},
        other => panic!("expected `IncompatibleType`, got {other:?}"),
    }
}

#[derive(Debug, PartialEq)]
struct Item {
    name: String,
}

impl Parseable for Item {
    fn parse(v: Value) -> Result<Self, CastError> {
        match v {
            Value::Object(mut map) => Ok(Item { name: take_field(&mut map, "name")? }),
            _ => Err(CastError::IncompatibleType),
        }
    }
}

#[derive(Debug, PartialEq)]
struct Items {
    item: Vec<Item>,
}

impl Parseable for Items {
    fn parse(v: Value) -> Result<Self, CastError> {
        match v {
            Value::Object(mut map) => Ok(Items { item: take_field(&mut map, "item")? }),
            _ => Err(CastError::IncompatibleType),
        }
    }
}

#[test]
fn repeated_object_keys_are_collected() {
    let data = r###"
item = {
  name = "first";
}
item = {
  name = "second";
}
"###;
    let parsed: Items = from_str(data).unwrap();
    assert_eq!(
        parsed,
        Items { item: vec![Item { name: "first".to_string() }, Item { name: "second".to_string() }] }
    );
}

#[derive(Debug, PartialEq)]
struct OptionalTags {
    tag: Option<Vec<String>>,
}

impl Parseable for OptionalTags {
    fn parse(v: Value) -> Result<Self, CastError> {
        match v {
            Value::Object(mut map) => Ok(OptionalTags { tag: take_optional_field(&mut map, "tag")? }),
            _ => Err(CastError::IncompatibleType),
        }
    }
}

#[test]
fn optional_vec_absent_is_none() {
    let parsed: OptionalTags = from_str("unused = 0;").unwrap();
    assert_eq!(parsed, OptionalTags { tag: None });
}

#[test]
fn optional_vec_accepts_single_key() {
    let parsed: OptionalTags = from_str("tag = rust;").unwrap();
    assert_eq!(parsed, OptionalTags { tag: Some(vec!["rust".to_string()]) });
}

#[test]
fn optional_vec_accepts_repeated_keys() {
    let parsed: OptionalTags = from_str("tag = rust;\ntag = marquage;").unwrap();
    assert_eq!(parsed, OptionalTags { tag: Some(vec!["rust".to_string(), "marquage".to_string()]) });
}

#[test]
fn optional_vec_reads_void_as_none() {
    let parsed: OptionalTags = from_str("tag = void;").unwrap();
    assert_eq!(parsed, OptionalTags { tag: None });
}

#[test]
fn vec_field_without_key_reports_missing_field() {
    let parsed = from_str::<Tags>("unused = 0;");
    match parsed {
        Err(Error::Cast(CastError::FieldNotFound(field))) => assert_eq!(field, "\"tag\""),
        other => panic!("expected `FieldNotFound`, got {other:?}"),
    }
}

#[derive(Debug, PartialEq)]
struct DefaultedTags {
    tag: Vec<String>,
}

impl Parseable for DefaultedTags {
    fn parse(v: Value) -> Result<Self, CastError> {
        match v {
            Value::Object(mut map) => Ok(DefaultedTags {
                tag: take_field_or(&mut map, "tag", Vec::new())?,
            }),
            _ => Err(CastError::IncompatibleType),
        }
    }
}

#[test]
fn vec_field_defaults_to_empty() {
    let parsed: DefaultedTags = from_str("unused = 0;").unwrap();
    assert_eq!(parsed, DefaultedTags { tag: Vec::new() });
}

#[derive(Debug, PartialEq)]
enum Message {
    Tags { tag: Vec<String> },
}

impl Parseable for Message {
    fn parse(v: Value) -> Result<Self, CastError> {
        match v {
            Value::Object(map) => {
                let mut map = map.clone();
                match take_field(&mut map, "tag") {
                    Ok(tag) => Ok(Message::Tags { tag }),
                    Err(_) => Err(CastError::IncompatibleType),
                }
            },
            _ => Err(CastError::IncompatibleType),
        }
    }
}

#[test]
fn enum_variant_vec_field_accepts_single_key() {
    let parsed: Message = from_str("tag = rust;").unwrap();
    assert_eq!(parsed, Message::Tags { tag: vec!["rust".to_string()] });
}

use marquage::derive::attribute::{AttrLit, AttrValue, FieldType, Segment};
use marquage::derive::bare::{get_default, get_rename, BareAttribute, BareItem, BareList, BareMeta};
use marquage::derive::directives::DefaultExpr;
use marquage::derive::variants::{pick_variant, VariantShape};
use marquage::collections::ObjectMap;
use marquage::data::value::Value;
use marquage::error::CastError;

fn attr(path: &str, meta: BareMeta) -> BareAttribute {
    BareAttribute { path: path.to_string(), meta }
}

fn item(path: &str, value: Result<AttrValue, String>) -> BareItem {
    BareItem { path: path.to_string(), value, after_value: "expected `=`".to_string() }
}

fn list(items: Vec<BareItem>) -> BareMeta {
    BareMeta::List(BareList { items, error: None })
}

fn str_lit(s: &str) -> AttrValue {
    AttrValue::Lit(AttrLit::Str(s.to_string()))
}

fn int_lit(d: &str) -> AttrLit {
    AttrLit::Int(d.to_string(), String::new())
}

fn plain(name: &str) -> FieldType {
    FieldType::Path {
        qualified: false,
        leading_colon: false,
        segments: vec![Segment { name: name.to_string(), has_arguments: false }],
    }
}

fn str_ref() -> FieldType {
    FieldType::Reference { mutable: false, elem: Box::new(plain("str")) }
}

#[test]
fn bare_rename_takes_the_first_rename_attribute() {
    assert_eq!(get_rename(&[], "field".to_string()), Ok("field".to_string()));
    let attrs = vec![
        attr("doc", BareMeta::NameValue(str_lit("x"))),
        attr("rename", BareMeta::Path),
        attr("rename", BareMeta::NameValue(str_lit("first"))),
        attr("rename", BareMeta::NameValue(str_lit("second"))),
    ];
    assert_eq!(get_rename(&attrs, "field".to_string()), Ok("first".to_string()));
    let attrs = vec![attr("rename", list(vec![item("value", Ok(str_lit("a"))), item("value", Ok(str_lit("b")))]))];
    assert_eq!(get_rename(&attrs, "field".to_string()), Ok("b".to_string()));
}

#[test]
fn bare_rename_errors() {
    let other = vec![attr("rename", BareMeta::NameValue(AttrValue::Lit(int_lit("1"))))];
    assert_eq!(get_rename(&other, "f".to_string()), Err("expect string literal, but found others".to_string()));
    let expr = vec![attr("rename", BareMeta::NameValue(AttrValue::Other))];
    assert_eq!(get_rename(&expr, "f".to_string()), Err("rename field only accept a string literal".to_string()));
    let wrong = vec![attr("rename", list(vec![item("name", Ok(str_lit("a")))]))];
    assert_eq!(get_rename(&wrong, "f".to_string()), Err("expecting `value` field".to_string()));
    let not_str = vec![attr("rename", list(vec![item("value", Ok(AttrValue::Lit(int_lit("1"))))]))];
    assert_eq!(get_rename(&not_str, "f".to_string()), Err("rename field must be a string literal".to_string()));
    let empty = vec![attr("rename", list(vec![]))];
    assert_eq!(get_rename(&empty, "f".to_string()), Err("no field in `rename`".to_string()));
    let unread = vec![attr("rename", list(vec![item("value", Err("expected literal".to_string()))]))];
    assert_eq!(get_rename(&unread, "f".to_string()), Err("expected literal".to_string()));
    let broken = vec![attr(
        "rename",
        BareMeta::List(BareList { items: vec![item("value", Ok(str_lit("a")))], error: Some("expected `,`".to_string()) }),
    )];
    assert_eq!(get_rename(&broken, "f".to_string()), Err("expected `,`".to_string()));
}

#[test]
fn bare_default_forms() {
    assert_eq!(get_default(&[], &plain("u32")), Ok(None));
    let trait_default = vec![attr("default", BareMeta::Path)];
    assert_eq!(get_default(&trait_default, &plain("u32")), Ok(Some(DefaultExpr::TraitDefault)));
    let lit = vec![attr("default", BareMeta::NameValue(AttrValue::Lit(int_lit("3"))))];
    assert_eq!(get_default(&lit, &plain("u32")), Ok(Some(DefaultExpr::Converted(int_lit("3")))));
    let s = vec![attr("default", BareMeta::NameValue(str_lit("x")))];
    assert_eq!(get_default(&s, &str_ref()), Ok(Some(DefaultExpr::Literal(AttrLit::Str("x".to_string())))));
    let listed = vec![
        attr("default", list(vec![item("value", Ok(AttrValue::Lit(int_lit("1")))), item("value", Ok(AttrValue::Lit(int_lit("2"))))])),
        attr("default", BareMeta::Path),
    ];
    assert_eq!(get_default(&listed, &plain("u8")), Ok(Some(DefaultExpr::Converted(int_lit("2")))));
    let empty = vec![attr("default", list(vec![]))];
    assert_eq!(get_default(&empty, &plain("u8")), Ok(None));
}

#[test]
fn bare_default_errors() {
    let neg = vec![attr("default", BareMeta::NameValue(AttrValue::Neg(Some(int_lit("1")))))];
    assert_eq!(get_default(&neg, &plain("i32")), Err("#[default = ...] only accept literal".to_string()));
    let listed = vec![attr("default", list(vec![item("value", Ok(AttrValue::Other))]))];
    assert_eq!(get_default(&listed, &plain("i32")), Err("expected `=`".to_string()));
    let wrong = vec![attr("default", list(vec![item("val", Ok(AttrValue::Lit(int_lit("1"))))]))];
    assert_eq!(get_default(&wrong, &plain("i32")), Err("expecting `value` field".to_string()));
}

#[test]
fn a_derived_parse_picks_the_first_variant_that_takes_the_value() {
    let names = vec!["Red".to_string(), "Pair".to_string(), "Single".to_string(), "Pair2".to_string(), "Rgb".to_string()];
    let shapes = vec![
        VariantShape::Unit,
        VariantShape::Tuple(2),
        VariantShape::Tuple(1),
        VariantShape::Tuple(2),
        VariantShape::Named,
    ];
    let red = Value::RawString("Red".to_string());
    assert!(matches!(pick_variant(&names, &shapes, &red, &vec![false; 5]), Ok(0)));
    let quoted = Value::QuotedString("Red".to_string());
    assert!(matches!(pick_variant(&names, &shapes, &quoted, &vec![false; 5]), Ok(0)));
    let blue = Value::RawString("Blue".to_string());
    assert!(matches!(pick_variant(&names, &shapes, &blue, &vec![true; 5]), Err(CastError::IncompatibleType)));
    let pair = Value::Array(vec![Value::Void, Value::Void]);
    assert!(matches!(pick_variant(&names, &shapes, &pair, &vec![true; 5]), Ok(1)));
    assert!(matches!(pick_variant(&names, &shapes, &pair, &vec![true, false, true, true, true]), Ok(3)));
    assert!(matches!(pick_variant(&names, &shapes, &pair, &vec![true, false, true, false, true]), Err(CastError::IncompatibleType)));
    let object = Value::Object(ObjectMap::new());
    assert!(matches!(pick_variant(&names, &shapes, &object, &vec![true; 5]), Ok(4)));
    assert!(matches!(pick_variant(&names, &shapes, &object, &vec![true, true, true, true, false]), Err(CastError::IncompatibleType)));
    assert!(matches!(pick_variant(&names, &shapes, &Value::Boolean(true), &vec![true; 5]), Err(CastError::IncompatibleType)));
}

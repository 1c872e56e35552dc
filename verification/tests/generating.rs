use marquage::collections::ObjectMap;
use marquage::data::value::Value;
use marquage::generate::{Config, Generator, PrettyConfig, PrettyGenerator};
use marquage::from_str;

fn object(pairs: Vec<(&str, Value)>) -> ObjectMap {
    ObjectMap::from_entries(pairs.into_iter().map(|(k, v)| (k.to_string(), v)).collect())
}

fn pretty(map: ObjectMap) -> String {
    PrettyGenerator::create(PrettyConfig).generate(map)
}

#[test]
fn pretty_config_values() {
    let c = PrettyConfig;
    assert_eq!(c.indent(), 2);
    assert!(c.following_comma());
    assert!(c.newline_in_object());
    assert!(!c.newline_in_array());
    assert_eq!(c.equal_space(), 1);
    assert_eq!(c.array_space(), 1);
    assert_eq!(c.object_space(), 0);
}

#[test]
fn generates_a_pretty_text() {
    let map = object(vec![
        ("a", Value::UnsignedIntegerNumber(1)),
        ("b", Value::QuotedString("x".to_string())),
        ("c", Value::Array(vec![Value::UnsignedIntegerNumber(1), Value::Boolean(true)])),
        ("d", Value::Object(object(vec![("e", Value::Void)]))),
    ]);
    assert_eq!(
        pretty(map),
        "\na = 1;\nb = \"x\";\nc = [ 1, true, ];\nd = {\n  e = void;\n}\n"
    );
}

#[test]
fn generates_scalars() {
    let map = object(vec![
        ("f", Value::FloatNumber("1.5".to_string())),
        ("n", Value::SignedIntegerNumber(-30)),
        ("r", Value::RawString("raw".to_string())),
        ("t", Value::Boolean(false)),
        ("u", Value::UnsignedIntegerNumber(4294967295)),
    ]);
    assert_eq!(pretty(map), "\nf = 1.5;\nn = -30;\nr = raw;\nt = false;\nu = 4294967295;\n");
}

#[test]
fn generates_empty_containers() {
    let map = object(vec![
        ("a", Value::Array(vec![])),
        ("o", Value::Object(ObjectMap::new())),
    ]);
    assert_eq!(pretty(map), "\na = [  ];\no = {\n}\n");
    assert_eq!(pretty(ObjectMap::new()), "\n");
}

#[test]
fn nested_objects_are_indented() {
    let inner = object(vec![("x", Value::UnsignedIntegerNumber(1))]);
    let middle = object(vec![("inner", Value::Object(inner))]);
    let map = object(vec![("outer", Value::Object(middle))]);
    assert_eq!(pretty(map), "\nouter = {\n  inner = {\n    x = 1;\n  }\n}\n");
}

#[test]
fn objects_inside_arrays() {
    let element = object(vec![("k", Value::Void)]);
    let map = object(vec![("a", Value::Array(vec![Value::Object(element)]))]);
    assert_eq!(pretty(map), "\na = [ {\n    k = void;\n  }, ];\n");
}

#[test]
fn generated_text_parses_back() {
    let map = object(vec![
        ("a", Value::UnsignedIntegerNumber(1)),
        ("b", Value::QuotedString("two words".to_string())),
        ("c", Value::Array(vec![Value::SignedIntegerNumber(-1), Value::Void])),
        ("d", Value::Object(object(vec![("e", Value::Boolean(true))]))),
        ("f", Value::RawString("word".to_string())),
        ("g", Value::Array(vec![])),
        (
            "h",
            Value::Array(vec![
                Value::Array(vec![Value::UnsignedIntegerNumber(2), Value::Array(vec![])]),
                Value::Object(object(vec![("i", Value::RawString("x".to_string()))])),
                Value::Object(object(vec![])),
            ]),
        ),
    ]);
    let text = pretty(map.clone());
    let back: Value = from_str(&text).unwrap();
    assert_eq!(back, Value::Object(map));
}

#[test]
fn writes_bytes_before_the_object() {
    let mut g = PrettyGenerator::create(PrettyConfig);
    g.write(b"# head");
    g.write_byte(b'!');
    g.write_space(2);
    assert_eq!(g.generate(ObjectMap::new()), "# head!  \n");
}

use marquage::collections::ObjectMap;
use marquage::data::value::Value;
use marquage::error::Error;
use marquage::from_str;
use marquage::parse::error::{LexerError, ParserError};
use marquage::parse::lexer::Lexer;
use marquage::parse::literal::Literal;
use marquage::parse::parser::{insert_entry, Parser};
use marquage::parse::span::Span;
use marquage::parser::position::Position;

fn parse(text: &str) -> Result<Value, ParserError> {
    Parser::new(Lexer::new(text)).parse()
}

fn object(pairs: Vec<(&str, Value)>) -> Value {
    Value::Object(ObjectMap::from_entries(
        pairs.into_iter().map(|(k, v)| (k.to_string(), v)).collect(),
    ))
}

#[test]
fn parses_scalars_objects_and_arrays() {
    let text = "a = 1;\nb = \"two\";\nc = [true, -3, void,];\nd = {\n  e = raw;\n}\n";
    assert_eq!(
        parse(text).unwrap(),
        object(vec![
            ("a", Value::UnsignedIntegerNumber(1)),
            ("b", Value::QuotedString("two".to_string())),
            (
                "c",
                Value::Array(vec![Value::Boolean(true), Value::SignedIntegerNumber(-3), Value::Void]),
            ),
            ("d", object(vec![("e", Value::RawString("raw".to_string()))])),
        ])
    );
}

#[test]
fn empty_text_is_an_empty_object() {
    assert_eq!(parse("").unwrap(), object(vec![]));
}

#[test]
fn repeated_keys_keep_the_first_place() {
    let parsed = parse("a = 1; b = 2; a = 3;").unwrap();
    let entries = parsed.as_object().unwrap().into_entries();
    assert_eq!(entries.len(), 2);
    assert_eq!(entries[0].0, "a");
    assert_eq!(
        entries[0].1,
        Value::Array(vec![Value::UnsignedIntegerNumber(1), Value::UnsignedIntegerNumber(3)])
    );
    assert_eq!(entries[1].0, "b");
    assert_eq!(entries[1].1, Value::UnsignedIntegerNumber(2));
}

#[test]
fn array_elements_can_be_objects() {
    let parsed = parse("array = [\n  {\n    hello = world;\n  }\n];").unwrap();
    assert_eq!(
        parsed,
        object(vec![(
            "array",
            Value::Array(vec![object(vec![("hello", Value::RawString("world".to_string()))])]),
        )])
    );
}

#[test]
fn missing_equal_is_reported() {
    match parse("a 1;") {
        Err(ParserError::ExpectEqual(l, s)) => {
            assert_eq!(l, Literal::UnsignedIntegerNumber(1));
            assert_eq!(s, Span::new(Position(1, 3), Position(1, 4), (2, 3)));
        },
        other => panic!("expected `ExpectEqual`, got {other:?}"),
    }
}

#[test]
fn missing_value_is_reported() {
    assert!(matches!(parse("a = ;"), Err(ParserError::ExpectValue(Literal::Semicolon, _))));
}

#[test]
fn value_on_another_line_is_rejected() {
    assert!(matches!(
        parse("a =\n1;"),
        Err(ParserError::ExpectValue(Literal::UnsignedIntegerNumber(1), _))
    ));
}

#[test]
fn missing_semicolon_is_reported() {
    assert!(matches!(parse("a = 1"), Err(ParserError::ExpectSemicolon(Literal::End, _))));
    assert!(matches!(
        parse("a = 1\nb = 2;"),
        Err(ParserError::ExpectSemicolon(Literal::RawString(_), _))
    ));
}

#[test]
fn stray_close_brace_is_reported() {
    assert!(matches!(parse("}"), Err(ParserError::UnexpectedCloseBrace(_))));
}

#[test]
fn key_must_be_a_string() {
    assert!(matches!(parse("= 1;"), Err(ParserError::ExpectKey(Literal::Equal, _))));
}

#[test]
fn array_needs_commas() {
    assert!(matches!(
        parse("a = [1 2];"),
        Err(ParserError::ExpectCommaOrCloseBracket(Literal::UnsignedIntegerNumber(2), _))
    ));
}

#[test]
fn unclosed_object_is_reported() {
    assert!(matches!(parse("a = {b = 1;"), Err(ParserError::ExpectBrace(Literal::End, _))));
}

#[test]
fn lexing_errors_pass_through() {
    assert!(matches!(
        parse("a = \"open"),
        Err(ParserError::LexingError(marquage::parse::error::LexerError::UnexpectedInterruption))
    ));
}

#[test]
fn parser_error_messages() {
    let span = Span::new(Position(1, 3), Position(1, 4), (2, 3));
    assert_eq!(
        ParserError::ExpectEqual(Literal::UnsignedIntegerNumber(1), span).to_string(),
        "Expect an equal mark, but found 1 in line 1, column 3"
    );
    assert_eq!(
        ParserError::ExpectKey(Literal::Equal, span).to_string(),
        "Expect a key, but found = in line 1, column 3 "
    );
    assert_eq!(
        ParserError::ExpectValue(Literal::Semicolon, span).to_string(),
        "Expect a key, but found ; in line 1, column 3"
    );
    assert_eq!(
        ParserError::ExpectBrace(Literal::End, span).to_string(),
        "Expect a close brace, but found <END OF LINE> in line 1, column 3"
    );
    assert_eq!(
        ParserError::ExpectSemicolon(Literal::End, span).to_string(),
        "Expect a semicolon, but found <END OF LINE> in line 1, column 3"
    );
    assert_eq!(
        ParserError::ExpectCommaOrCloseBracket(Literal::Boolean(false), span).to_string(),
        "Expect a comma or close bracket, but found false in line 1, column 3"
    );
    assert_eq!(
        ParserError::UnexpectedCloseBrace(span).to_string(),
        "Unexpected brace in line 1, column 3"
    );
    assert_eq!(
        ParserError::LexingError(marquage::parse::error::LexerError::UnexpectedInterruption)
            .to_string(),
        "Unexpected interruption occurred"
    );
}

#[test]
fn from_str_reports_parse_errors() {
    match from_str::<Value>("a = ;") {
        Err(Error::Parse(ParserError::ExpectValue(Literal::Semicolon, _))) => {},
        other => panic!("expected a parse error, got {other:?}"),
    }
}

#[test]
fn parsing_reports_integers_out_of_range() {
    match parse("a = 99999999999;") {
        Err(ParserError::LexingError(LexerError::UnexpectedLiteral { literal, span })) => {
            assert_eq!(literal, "99999999999");
            assert_eq!(span, Span::new(Position(1, 5), Position(1, 16), (4, 15)));
        },
        other => panic!("expected a lexing error, got {other:?}"),
    }
    assert!(matches!(parse("a = 1"), Err(ParserError::ExpectSemicolon(Literal::End, _))));
    assert!(parse("a = 1;").is_ok());
}

#[test]
fn semicolon_after_a_multiline_array_is_on_its_closing_line() {
    let parsed = parse("list = [\n  1,\n  2\n];").unwrap();
    assert_eq!(
        parsed,
        object(vec![(
            "list",
            Value::Array(vec![Value::UnsignedIntegerNumber(1), Value::UnsignedIntegerNumber(2)]),
        )])
    );
    assert!(matches!(
        parse("list = [\n  1\n]\n;"),
        Err(ParserError::ExpectSemicolon(Literal::Semicolon, _))
    ));
}

#[test]
fn insert_entry_collects_repeated_keys_in_order() {
    let mut map = ObjectMap::new();
    let mut duplicated: Vec<String> = Vec::new();
    let one = Value::UnsignedIntegerNumber(1);
    let two = Value::UnsignedIntegerNumber(2);
    let three = Value::UnsignedIntegerNumber(3);
    let pair = Value::Array(vec![one.clone(), two.clone()]);
    let single = Value::Array(vec![three.clone()]);
    insert_entry(&mut map, &mut duplicated, "a".to_string(), one.clone());
    insert_entry(&mut map, &mut duplicated, "b".to_string(), pair.clone());
    insert_entry(&mut map, &mut duplicated, "c".to_string(), two.clone());
    assert_eq!(map.get("a"), Some(&one));
    assert!(duplicated.is_empty());
    insert_entry(&mut map, &mut duplicated, "a".to_string(), two.clone());
    insert_entry(&mut map, &mut duplicated, "b".to_string(), single.clone());
    insert_entry(&mut map, &mut duplicated, "a".to_string(), three.clone());
    let keys: Vec<String> = map.iter().into_iter().map(|(k, _)| k.clone()).collect();
    assert_eq!(keys, vec!["a".to_string(), "b".to_string(), "c".to_string()]);
    assert_eq!(map.get("a"), Some(&Value::Array(vec![one, two.clone(), three])));
    assert_eq!(map.get("b"), Some(&Value::Array(vec![pair, single])));
    assert_eq!(map.get("c"), Some(&two));
    assert_eq!(duplicated, vec!["a".to_string(), "b".to_string()]);
}

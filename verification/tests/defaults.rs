use marquage::data::value::Value;
use marquage::error::CastError;
use marquage::fields::take_field_or;
use marquage::{from_str, Parseable};

/// An `f32` read from the text of a float number.
#[derive(Debug, PartialEq)]
struct F32(f32);

impl Parseable for F32 {
    fn parse(v: Value) -> Result<Self, CastError> {
        match v {
            Value::FloatNumber(text) => text.parse().map(F32).map_err(|_| CastError::IncompatibleType),
            _ => Err(CastError::IncompatibleType),
        }
    }
}

/// An `f64` read from the text of a float number.
#[derive(Debug, PartialEq)]
struct F64(f64);

impl Parseable for F64 {
    fn parse(v: Value) -> Result<Self, CastError> {
        match v {
            Value::FloatNumber(text) => text.parse().map(F64).map_err(|_| CastError::IncompatibleType),
            _ => Err(CastError::IncompatibleType),
        }
    }
}

/// Unsuffixed integer literals are typed by the field.
#[derive(Debug, PartialEq)]
struct UnsuffixedInts {
    count: usize,
    tiny: u8,
    seven: i32,
    big: u64,
}

impl Parseable for UnsuffixedInts {
    fn parse(v: Value) -> Result<Self, CastError> {
        match v {
            Value::Object(mut map) => Ok(UnsuffixedInts {
                count: take_field_or(&mut map, "count", 1024)?,
                tiny: take_field_or(&mut map, "tiny", 42)?,
                seven: take_field_or(&mut map, "seven", 7)?,
                big: take_field_or(&mut map, "big", 1000000000000)?,
            }),
            _ => Err(CastError::IncompatibleType),
        }
    }
}

#[test]
fn unsuffixed_int_defaults_are_typed_by_the_field() {
    let data = r###"
count = 5;
"###;
    let parsed: UnsuffixedInts = from_str(data).unwrap();
    assert_eq!(parsed, UnsuffixedInts { count: 5, tiny: 42, seven: 7, big: 1000000000000 });

    let parsed: UnsuffixedInts = from_str("unused = 0;").unwrap();
    assert_eq!(parsed, UnsuffixedInts { count: 1024, tiny: 42, seven: 7, big: 1000000000000 });
}

/// Literals suffixed with the field type are kept as they are.
#[derive(Debug, PartialEq)]
struct Suffixed {
    count: usize,
    tiny: u8,
    ratio: f64,
}

impl Parseable for Suffixed {
    fn parse(v: Value) -> Result<Self, CastError> {
        match v {
            Value::Object(mut map) => Ok(Suffixed {
                count: take_field_or(&mut map, "count", 1024_usize)?,
                tiny: take_field_or(&mut map, "tiny", 1_u8)?,
                ratio: take_field_or(&mut map, "ratio", F64(0.5_f64))?.0,
            }),
            _ => Err(CastError::IncompatibleType),
        }
    }
}

#[test]
fn suffixed_defaults_matching_the_field_type_work() {
    let parsed: Suffixed = from_str("unused = 0;").unwrap();
    assert_eq!(parsed, Suffixed { count: 1024, tiny: 1, ratio: 0.5 });
}

/// A literal with another suffix converts with `From`.
#[derive(Debug, PartialEq)]
struct FromConversion {
    wide: u64,
}

impl Parseable for FromConversion {
    fn parse(v: Value) -> Result<Self, CastError> {
        match v {
            Value::Object(mut map) => Ok(FromConversion { wide: take_field_or(&mut map, "wide", <u64>::from(1024_u32))? }),
            _ => Err(CastError::IncompatibleType),
        }
    }
}

#[test]
fn mismatched_suffix_defaults_still_convert() {
    let parsed: FromConversion = from_str("unused = 0;").unwrap();
    assert_eq!(parsed, FromConversion { wide: 1024 });
}

/// Unsuffixed float literals are typed by the field.
#[derive(Debug, PartialEq)]
struct Floats {
    a: f32,
    b: f64,
}

impl Parseable for Floats {
    fn parse(v: Value) -> Result<Self, CastError> {
        match v {
            Value::Object(mut map) => Ok(Floats {
                a: take_field_or(&mut map, "a", F32(0.5))?.0,
                b: take_field_or(&mut map, "b", F64(0.25))?.0,
            }),
            _ => Err(CastError::IncompatibleType),
        }
    }
}

#[test]
fn float_defaults_are_typed_by_the_field() {
    let parsed: Floats = from_str("unused = 0;").unwrap();
    assert_eq!(parsed, Floats { a: 0.5, b: 0.25 });
}

/// Negated numeric literals.
#[derive(Debug, PartialEq)]
struct Negatives {
    a: i32,
    b: i8,
    c: f32,
    d: i64,
}

impl Parseable for Negatives {
    fn parse(v: Value) -> Result<Self, CastError> {
        match v {
            Value::Object(mut map) => Ok(Negatives {
                a: take_field_or(&mut map, "a", -1)?,
                b: take_field_or(&mut map, "b", -128)?,
                c: take_field_or(&mut map, "c", F32(-0.5))?.0,
                d: take_field_or(&mut map, "d", -2_i64)?,
            }),
            _ => Err(CastError::IncompatibleType),
        }
    }
}

#[test]
fn negative_defaults_work() {
    let parsed: Negatives = from_str("unused = 0;").unwrap();
    assert_eq!(parsed, Negatives { a: -1, b: -128, c: -0.5, d: -2 });
}

#[derive(Debug, PartialEq)]
struct Flags {
    on: bool,
}

impl Parseable for Flags {
    fn parse(v: Value) -> Result<Self, CastError> {
        match v {
            Value::Object(mut map) => Ok(Flags { on: take_field_or(&mut map, "on", true)? }),
            _ => Err(CastError::IncompatibleType),
        }
    }
}

#[test]
fn bool_default_works() {
    let parsed: Flags = from_str("unused = 0;").unwrap();
    assert_eq!(parsed, Flags { on: true });
}

#[derive(Debug, PartialEq)]
struct Text {
    greeting: String,
}

impl Parseable for Text {
    fn parse(v: Value) -> Result<Self, CastError> {
        match v {
            Value::Object(mut map) => Ok(Text { greeting: take_field_or(&mut map, "greeting", <String>::from("hello"))? }),
            _ => Err(CastError::IncompatibleType),
        }
    }
}

#[test]
fn string_default_works() {
    let parsed: Text = from_str("unused = 0;").unwrap();
    assert_eq!(parsed, Text { greeting: "hello".to_string() });
}

#[derive(Debug, PartialEq)]
struct PathDefault {
    count: u32,
}

impl Parseable for PathDefault {
    fn parse(v: Value) -> Result<Self, CastError> {
        match v {
            Value::Object(mut map) => Ok(PathDefault { count: take_field_or(&mut map, "count", <u32 as Default>::default())? }),
            _ => Err(CastError::IncompatibleType),
        }
    }
}

#[test]
fn bare_default_uses_trait_default() {
    let parsed: PathDefault = from_str("unused = 0;").unwrap();
    assert_eq!(parsed, PathDefault { count: 0 });
}

/// Defaults also apply to named fields of enum variants.
#[derive(Debug, PartialEq)]
enum Message {
    Text { body: String, priority: u8 },
}

impl Parseable for Message {
    fn parse(v: Value) -> Result<Self, CastError> {
        match v {
            Value::Object(map) => {
                let attempt: Result<Self, CastError> = (|| {
                    let mut map = map.clone();
                    Ok(Message::Text {
                        body: take_field_or(&mut map, "body", <String>::from("hi"))?,
                        priority: take_field_or(&mut map, "priority", 0)?,
                    })
                })();
                if let Ok(value) = attempt {
                    return Ok(value);
                }
                Err(CastError::IncompatibleType)
            },
            _ => Err(CastError::IncompatibleType),
        }
    }
}

#[test]
fn enum_variant_defaults_work() {
    let data = r###"
body = "x";
"###;
    let parsed: Message = from_str(data).unwrap();
    assert_eq!(parsed, Message::Text { body: "x".to_string(), priority: 0 });
}

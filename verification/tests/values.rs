use marquage::collections::ObjectMap;
use marquage::data::value::Value;
use marquage::error::{CastError, Error};
use marquage::parse::error::{LexerError, ParserError};
use marquage::{from_slice, from_slice_unchecked, from_str, Generable, Parseable};

#[test]
fn value_kinds_and_contents() {
    let v = Value::UnsignedIntegerNumber(3);
    assert!(v.is_unsigned_number());
    assert!(!v.is_signed_number());
    assert_eq!(v.as_unsigned_number_ref(), Some(&3));
    assert_eq!(v.clone().as_unsigned_number(), Some(3));
    assert_eq!(v.as_boolean(), None);

    let s = Value::RawString("x".to_string());
    assert!(s.is_raw_string());
    assert!(!s.is_quoted_string());
    assert_eq!(s.as_string_ref(), Some(&"x".to_string()));
    assert_eq!(s.as_string(), Some("x".to_string()));

    let mut q = Value::QuotedString("a".to_string());
    if let Some(t) = q.as_string_mut() {
        t.push('b');
    }
    assert_eq!(q, Value::QuotedString("ab".to_string()));

    let mut a = Value::Array(vec![]);
    a.as_array_mut().unwrap().push(Value::Void);
    assert_eq!(a, Value::Array(vec![Value::Void]));
    assert!(Value::Void.is_void());
    assert!(Value::FloatNumber("0.5".to_string()).is_float_number());
    assert!(Value::Object(ObjectMap::new()).is_object());
    assert!(Value::Boolean(true).is_boolean());
    assert_eq!(Value::Boolean(true).as_boolean_ref(), Some(&true));
}

#[test]
fn integers_parse_with_truncation() {
    assert_eq!(u8::parse(Value::UnsignedIntegerNumber(300)).unwrap(), 44);
    assert_eq!(u64::parse(Value::UnsignedIntegerNumber(7)).unwrap(), 7);
    assert_eq!(i8::parse(Value::SignedIntegerNumber(-1)).unwrap(), -1);
    assert_eq!(i16::parse(Value::SignedIntegerNumber(70000)).unwrap(), 4464);
    assert!(matches!(u32::parse(Value::SignedIntegerNumber(-1)), Err(CastError::IncompatibleType)));
    assert!(matches!(i32::parse(Value::UnsignedIntegerNumber(1)), Err(CastError::IncompatibleType)));
}

#[test]
fn other_scalars_parse() {
    assert!(bool::parse(Value::Boolean(true)).unwrap());
    assert_eq!(String::parse(Value::QuotedString("q".to_string())).unwrap(), "q");
    assert_eq!(String::parse(Value::RawString("r".to_string())).unwrap(), "r");
    assert!(matches!(String::parse(Value::Void), Err(CastError::IncompatibleType)));
    assert_eq!(&*Box::<str>::parse(Value::RawString("b".to_string())).unwrap(), "b");
    assert_eq!(*Box::<u32>::parse(Value::UnsignedIntegerNumber(9)).unwrap(), 9);
    assert!(<()>::parse(Value::Void).is_ok());
    assert!(<()>::parse(Value::Array(vec![])).is_ok());
    assert!(<()>::parse(Value::Array(vec![Value::Void])).is_err());
}

#[test]
fn containers_parse() {
    let arr = Value::Array(vec![Value::UnsignedIntegerNumber(1), Value::UnsignedIntegerNumber(2)]);
    assert_eq!(Vec::<u32>::parse(arr).unwrap(), vec![1, 2]);
    assert_eq!(Vec::<u32>::parse(Value::UnsignedIntegerNumber(5)).unwrap(), vec![5]);
    assert!(matches!(Vec::<u32>::parse(Value::Void), Err(CastError::IncompatibleType)));
    let mixed = Value::Array(vec![Value::UnsignedIntegerNumber(1), Value::Boolean(true)]);
    assert!(matches!(Vec::<u32>::parse(mixed), Err(CastError::IncompatibleType)));
    assert_eq!(Option::<u32>::parse(Value::Void).unwrap(), None);
    assert_eq!(Option::<u32>::parse(Value::UnsignedIntegerNumber(4)).unwrap(), Some(4));
    let boxed = Box::<[u32]>::parse(Value::Array(vec![Value::UnsignedIntegerNumber(3)])).unwrap();
    assert_eq!(&*boxed, &[3]);
    assert!(Box::<[u32]>::parse(Value::UnsignedIntegerNumber(3)).is_err());
}

#[test]
fn values_generate() {
    assert_eq!(5u64.generate(), Value::UnsignedIntegerNumber(5));
    assert_eq!((1u64 << 33).generate(), Value::UnsignedIntegerNumber(0));
    assert_eq!((-2i64).generate_ref(), Value::SignedIntegerNumber(-2));
    assert_eq!(true.generate(), Value::Boolean(true));
    assert_eq!("s".generate(), Value::QuotedString("s".to_string()));
    assert_eq!("t".to_string().generate_ref(), Value::QuotedString("t".to_string()));
    assert_eq!(
        vec![1u8, 2].generate(),
        Value::Array(vec![Value::UnsignedIntegerNumber(1), Value::UnsignedIntegerNumber(2)])
    );
    assert_eq!(vec![Some(1u8), None].generate_ref(), Value::Array(vec![
        Value::UnsignedIntegerNumber(1),
        Value::Void,
    ]));
    assert_eq!(().generate(), Value::Void);
    assert_eq!(Box::new(3i32).generate(), Value::SignedIntegerNumber(3));
    let b: Box<str> = "boxed".into();
    assert_eq!(b.generate(), Value::QuotedString("boxed".to_string()));
}

#[test]
fn generated_values_parse_back() {
    assert_eq!(u32::parse(u32::MAX.generate()).unwrap(), u32::MAX);
    assert_eq!(i32::parse(i32::MIN.generate()).unwrap(), i32::MIN);
    assert_eq!(u128::parse(7u128.generate()).unwrap(), 7);
    assert_eq!(String::parse("text".to_string().generate()).unwrap(), "text");
    let v = vec![vec![1u16], vec![], vec![2, 3]];
    assert_eq!(Vec::<Vec<u16>>::parse(v.generate_ref()).unwrap(), v);
    assert_eq!(Option::<bool>::parse(Some(false).generate()).unwrap(), Some(false));
    assert_eq!(Option::<bool>::parse(None::<bool>.generate()).unwrap(), None);
}

#[test]
fn from_str_reads_typed_values() {
    let v: Value = from_str("n = 5;").unwrap();
    let mut map = v.as_object().unwrap();
    assert_eq!(u32::parse(map.swap_remove("n").unwrap()).unwrap(), 5);
    assert!(matches!(from_str::<bool>("n = 5;"), Err(Error::Cast(CastError::IncompatibleType))));
}

#[test]
fn from_slice_checks_utf8() {
    let v: Value = from_slice("k = é;".as_bytes()).unwrap();
    assert_eq!(v.as_object().unwrap().get("k"), Some(&Value::RawString("é".to_string())));
    assert!(matches!(from_slice::<Value>(&[0xff, 0x3d]), Err(Error::InvalidSlice)));
    let u: Value = from_slice_unchecked(b"k = 1;").unwrap();
    assert!(u.is_object());
}

#[test]
fn error_messages() {
    assert_eq!(CastError::IncompatibleType.to_string(), "Incompatible type");
    assert_eq!(CastError::FieldNotFound("name".to_string()).to_string(), "Field name is not found");
    assert_eq!(Error::InvalidSlice.to_string(), "Slice is not a valid UTF-8 dataset");
    assert_eq!(Error::Cast(CastError::IncompatibleType).to_string(), "Incompatible type");
    let e: Error = CastError::IncompatibleType.into();
    assert!(matches!(e, Error::Cast(CastError::IncompatibleType)));
}

#[test]
fn integers_out_of_range_are_reported_as_lexing_errors() {
    for (text, lit) in [("a = 4294967296;", "4294967296"), ("a = -2147483649;", "-2147483649"), ("a = -;", "-")] {
        match from_str::<Value>(text) {
            Err(Error::Parse(ParserError::LexingError(LexerError::UnexpectedLiteral { literal, .. }))) => {
                assert_eq!(literal, lit)
            },
            other => panic!("expected a lexing error, got {other:?}"),
        }
    }
    assert!(matches!(from_str::<Value>("= 4294967296;"), Err(Error::Parse(ParserError::ExpectKey(..)))));
    let ok = from_str::<Value>("a = -2147483648;").unwrap();
    assert_eq!(ok.as_object().unwrap().get("a"), Some(&Value::SignedIntegerNumber(-2147483648)));
    assert!(matches!(
        from_slice::<Value>(b"a = 4294967296;"),
        Err(Error::Parse(ParserError::LexingError(LexerError::UnexpectedLiteral { .. })))
    ));
}

#[test]
fn fixed_arrays_parse_with_the_right_length() {
    let two = Value::Array(vec![Value::UnsignedIntegerNumber(1), Value::UnsignedIntegerNumber(2)]);
    assert_eq!(<[u32; 2]>::parse(two).unwrap(), [1, 2]);
    let three = Value::Array(vec![Value::Void, Value::Void, Value::Void]);
    assert!(matches!(<[u32; 2]>::parse(three), Err(CastError::IncompatibleType)));
    let bad = Value::Array(vec![Value::Boolean(true)]);
    assert!(matches!(<[u32; 1]>::parse(bad), Err(CastError::IncompatibleType)));
    assert!(matches!(<[u32; 1]>::parse(Value::UnsignedIntegerNumber(1)), Err(CastError::IncompatibleType)));
    let twenty = Value::Array((0..20).map(|i| Value::SignedIntegerNumber(i)).collect());
    assert_eq!(<[i32; 20]>::parse(twenty).unwrap()[19], 19);
}

use marquage::derive::attribute::{
    AttrLit, AttrMeta, AttrValue, Attribute, Field, FieldType, GenericParam, Generics, Meta, Segment,
};
use marquage::derive::directives::{add_trait_bounds, generate_conversion, get_default, is_option, is_skip, DefaultExpr};
use marquage::derive::plan::{
    generate_field_parse, struct_field_key, struct_field_read, variant_field_key, variant_field_read, FieldRead,
    FieldSource,
};
use marquage::rename::RenameRule;

fn marquage(metas: Vec<Meta>) -> Attribute {
    Attribute { path: "marquage".to_string(), meta: AttrMeta::List(Ok(metas)) }
}

fn path(name: &str) -> Meta {
    Meta::Path(name.to_string())
}

fn default_is(value: AttrValue) -> Vec<Attribute> {
    vec![marquage(vec![Meta::NameValue("default".to_string(), value)])]
}

fn int_lit(digits: &str, suffix: &str) -> AttrLit {
    AttrLit::Int(digits.to_string(), suffix.to_string())
}

fn float(digits: &str, suffix: &str) -> AttrLit {
    AttrLit::Float(digits.to_string(), suffix.to_string())
}

/// The plain type `name`.
fn plain(name: &str) -> FieldType {
    FieldType::Path {
        qualified: false,
        leading_colon: false,
        segments: vec![Segment { name: name.to_string(), has_arguments: false }],
    }
}

fn option_of_path(names: &[&str], qualified: bool) -> FieldType {
    FieldType::Path {
        qualified,
        leading_colon: false,
        segments: names.iter().map(|n| Segment { name: n.to_string(), has_arguments: *n == "Option" }).collect(),
    }
}

fn str_ref(mutable: bool) -> FieldType {
    FieldType::Reference { mutable, elem: Box::new(plain("str")) }
}

#[test]
fn skip_is_found_among_the_directives() {
    assert_eq!(is_skip(&[marquage(vec![path("skip")])]), Ok(true));
    assert_eq!(is_skip(&[marquage(vec![path("default")]), marquage(vec![path("skip")])]), Ok(true));
    assert_eq!(is_skip(&[marquage(vec![path("default")])]), Ok(false));
    assert_eq!(is_skip(&[Attribute { path: "skip".to_string(), meta: AttrMeta::Path }]), Ok(false));
    assert_eq!(
        is_skip(&[Attribute { path: "marquage".to_string(), meta: AttrMeta::Path }]),
        Err("`marquage` field only accept a list".to_string())
    );
}

#[test]
fn option_is_told_by_the_last_segment() {
    assert!(is_option(&option_of_path(&["Option"], false)));
    assert!(is_option(&option_of_path(&["std", "option", "Option"], false)));
    assert!(!is_option(&option_of_path(&["Option"], true)));
    assert!(!is_option(&plain("Vec")));
    assert!(!is_option(&str_ref(false)));
}

#[test]
fn numeric_literals_keep_their_type_from_the_field() {
    assert_eq!(generate_conversion(&plain("usize"), int_lit("1024", "")), DefaultExpr::Literal(int_lit("1024", "")));
    assert_eq!(generate_conversion(&plain("usize"), int_lit("1024", "usize")), DefaultExpr::Literal(int_lit("1024", "usize")));
    assert_eq!(generate_conversion(&plain("u64"), int_lit("1024", "u32")), DefaultExpr::Converted(int_lit("1024", "u32")));
    assert_eq!(generate_conversion(&plain("f32"), float("0.5", "")), DefaultExpr::Literal(float("0.5", "")));
    assert_eq!(
        generate_conversion(&plain("u8"), AttrLit::Str("x".to_string())),
        DefaultExpr::Converted(AttrLit::Str("x".to_string()))
    );
}

#[test]
fn other_literals_convert_unless_the_field_takes_them() {
    let hello = AttrLit::Str("hello".to_string());
    assert_eq!(generate_conversion(&str_ref(false), AttrLit::Str("hello".to_string())), DefaultExpr::Literal(hello));
    assert_eq!(
        generate_conversion(&str_ref(true), AttrLit::Str("hello".to_string())),
        DefaultExpr::Converted(AttrLit::Str("hello".to_string()))
    );
    assert_eq!(
        generate_conversion(&plain("String"), AttrLit::Str("hello".to_string())),
        DefaultExpr::Converted(AttrLit::Str("hello".to_string()))
    );
    assert_eq!(generate_conversion(&plain("bool"), AttrLit::Bool(true)), DefaultExpr::Literal(AttrLit::Bool(true)));
    assert_eq!(generate_conversion(&plain("char"), AttrLit::Char('x')), DefaultExpr::Literal(AttrLit::Char('x')));
    assert_eq!(generate_conversion(&plain("bool"), int_lit("1", "")), DefaultExpr::Converted(int_lit("1", "")));
    assert_eq!(
        generate_conversion(&option_of_path(&["Option"], false), AttrLit::Bool(true)),
        DefaultExpr::Converted(AttrLit::Bool(true))
    );
}

#[test]
fn defaults_are_read_from_the_directives() {
    assert_eq!(get_default(&[], &plain("u8")), Ok(None));
    assert_eq!(get_default(&[marquage(vec![path("default")])], &plain("u32")), Ok(Some(DefaultExpr::TraitDefault)));
    assert_eq!(
        get_default(&default_is(AttrValue::Lit(int_lit("42", ""))), &plain("u8")),
        Ok(Some(DefaultExpr::Literal(int_lit("42", ""))))
    );
    assert_eq!(
        get_default(&[marquage(vec![path("default"), Meta::NameValue("default".to_string(), AttrValue::Lit(int_lit("3", "")))])], &plain("i32")),
        Ok(Some(DefaultExpr::Literal(int_lit("3", ""))))
    );
}

#[test]
fn negated_numbers_are_literals() {
    assert_eq!(
        get_default(&default_is(AttrValue::Neg(Some(int_lit("1", "")))), &plain("i32")),
        Ok(Some(DefaultExpr::Literal(int_lit("-1", ""))))
    );
    assert_eq!(
        get_default(&default_is(AttrValue::Neg(Some(float("0.5", "")))), &plain("f32")),
        Ok(Some(DefaultExpr::Literal(float("-0.5", ""))))
    );
    assert_eq!(
        get_default(&default_is(AttrValue::Neg(Some(int_lit("2", "i64")))), &plain("i64")),
        Ok(Some(DefaultExpr::Literal(int_lit("-2", "i64"))))
    );
}

#[test]
fn defaults_must_be_literals() {
    assert_eq!(
        get_default(&default_is(AttrValue::Neg(Some(AttrLit::Str("x".to_string())))), &plain("i32")),
        Err("`default` must be a numeric literal".to_string())
    );
    assert_eq!(
        get_default(&default_is(AttrValue::Neg(None)), &plain("i32")),
        Err("`default` must be a numeric literal".to_string())
    );
    assert_eq!(
        get_default(&default_is(AttrValue::Other), &plain("i32")),
        Err("`default` must be a literal".to_string())
    );
}

fn field(ident: &str, ty: FieldType, attrs: Vec<Attribute>) -> Field {
    Field { ident: ident.to_string(), ty, attrs }
}

#[test]
fn field_sources_follow_skip_then_default_then_option() {
    let skipped = field("a", plain("u8"), vec![marquage(vec![path("default"), path("skip")])]);
    assert_eq!(generate_field_parse(&skipped), Ok(FieldSource::Skipped));
    let defaulted = field("a", option_of_path(&["Option"], false), vec![marquage(vec![path("default")])]);
    assert_eq!(generate_field_parse(&defaulted), Ok(FieldSource::Defaulted(DefaultExpr::TraitDefault)));
    let optional = field("a", option_of_path(&["Option"], false), vec![]);
    assert_eq!(generate_field_parse(&optional), Ok(FieldSource::Optional));
    let required = field("a", plain("u8"), vec![]);
    assert_eq!(generate_field_parse(&required), Ok(FieldSource::Required));
    let broken = field("a", plain("u8"), vec![marquage(vec![Meta::NameValue("default".to_string(), AttrValue::Other)])]);
    assert_eq!(generate_field_parse(&broken), Err("`default` must be a literal".to_string()));
}

#[test]
fn struct_fields_take_the_rename_all_rule_but_variant_fields_do_not() {
    let f = field("my_field", plain("u8"), vec![]);
    assert_eq!(
        struct_field_read(&f, Some(RenameRule::CamelCase)),
        Ok(FieldRead { key: "myField".to_string(), source: FieldSource::Required })
    );
    assert_eq!(variant_field_read(&f), Ok(FieldRead { key: "my_field".to_string(), source: FieldSource::Required }));
    assert_eq!(struct_field_key(&f, Some(RenameRule::KebabCase)), Ok(Some("my-field".to_string())));
    assert_eq!(variant_field_key(&f), Ok(Some("my_field".to_string())));
}

#[test]
fn skipped_fields_are_not_written() {
    let f = field("my_field", plain("u8"), vec![marquage(vec![path("skip")])]);
    assert_eq!(struct_field_key(&f, None), Ok(None));
    assert_eq!(variant_field_key(&f), Ok(None));
    let renamed_badly = field(
        "my_field",
        plain("u8"),
        vec![marquage(vec![path("skip"), Meta::NameValue("rename".to_string(), AttrValue::Other)])],
    );
    assert_eq!(struct_field_key(&renamed_badly, None), Err("`rename` must be a string literal".to_string()));
    assert_eq!(variant_field_key(&renamed_badly), Ok(None));
}

#[test]
fn bounds_are_added_to_type_parameters_only() {
    let generics = Generics {
        params: vec![
            GenericParam::Lifetime("'a".to_string()),
            GenericParam::Type { name: "T".to_string(), bounds: vec!["Clone".to_string()] },
            GenericParam::Const("const N: usize".to_string()),
            GenericParam::Type { name: "U".to_string(), bounds: vec![] },
        ],
    };
    let bounded = add_trait_bounds(generics, "Parseable".to_string());
    assert_eq!(
        bounded,
        Generics {
            params: vec![
                GenericParam::Lifetime("'a".to_string()),
                GenericParam::Type { name: "T".to_string(), bounds: vec!["Clone".to_string(), "Parseable".to_string()] },
                GenericParam::Const("const N: usize".to_string()),
                GenericParam::Type { name: "U".to_string(), bounds: vec!["Parseable".to_string()] },
            ],
        }
    );
}

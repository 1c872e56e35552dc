use marquage::derive::attribute::{AttrLit, AttrMeta, AttrValue, Attribute, Meta};
use marquage::derive::directives::{get_rename, get_rename_all, get_rename_with};
use marquage::rename::{parse_rename_all, RenameRule};

/// `#[marquage(metas...)]`.
fn marquage(metas: Vec<Meta>) -> Attribute {
    Attribute { path: "marquage".to_string(), meta: AttrMeta::List(Ok(metas)) }
}

/// `name = "value"`.
fn text(name: &str, value: &str) -> Meta {
    Meta::NameValue(name.to_string(), AttrValue::Lit(AttrLit::Str(value.to_string())))
}

/// `name = 5`.
fn five(name: &str) -> Meta {
    Meta::NameValue(name.to_string(), AttrValue::Lit(AttrLit::Int("5".to_string(), String::new())))
}

#[test]
fn rename_rules_parse_by_name() {
    assert_eq!(parse_rename_all("lowercase"), Ok(RenameRule::Lowercase));
    assert_eq!(parse_rename_all("UPPERCASE"), Ok(RenameRule::Uppercase));
    assert_eq!(parse_rename_all("camelCase"), Ok(RenameRule::CamelCase));
    assert_eq!(parse_rename_all("snake_case"), Ok(RenameRule::SnakeCase));
    assert_eq!(parse_rename_all("kebab-case"), Ok(RenameRule::KebabCase));
    assert_eq!(parse_rename_all("PascalCase"), Ok(RenameRule::PascalCase));
    assert_eq!(parse_rename_all("SCREAMING_SNAKE_CASE"), Ok(RenameRule::ScreamingSnakeCase));
    assert_eq!(parse_rename_all("Snake"), Err("unknown rename rule: `Snake`".to_string()));
}

#[test]
fn rename_all_takes_the_last_rule_or_the_first_error() {
    assert_eq!(get_rename_all(&[]), Ok(None));
    let two = vec![marquage(vec![text("rename_all", "snake_case")]), marquage(vec![text("rename_all", "camelCase")])];
    assert_eq!(get_rename_all(&two), Ok(Some(RenameRule::CamelCase)));
    let bad = vec![marquage(vec![text("rename_all", "bad"), text("rename_all", "worse")])];
    assert_eq!(get_rename_all(&bad), Err("unknown rename rule: `bad`".to_string()));
    let number = vec![marquage(vec![five("rename_all")])];
    assert_eq!(get_rename_all(&number), Err("`rename_all` must be a string literal".to_string()));
}

#[test]
fn rules_convert_the_identifier() {
    let none: Vec<Attribute> = vec![];
    let name = |ident: &str, rule: Option<RenameRule>| get_rename_with(&none, ident, rule).unwrap();
    assert_eq!(name("my_field", Some(RenameRule::CamelCase)), "myField");
    assert_eq!(name("my_field", Some(RenameRule::PascalCase)), "MyField");
    assert_eq!(name("my_field", Some(RenameRule::KebabCase)), "my-field");
    assert_eq!(name("my_field", Some(RenameRule::ScreamingSnakeCase)), "MY_FIELD");
    assert_eq!(name("my_field", Some(RenameRule::Lowercase)), "myfield");
    assert_eq!(name("my_field", Some(RenameRule::Uppercase)), "MYFIELD");
    assert_eq!(name("MyVariant", Some(RenameRule::SnakeCase)), "my_variant");
    assert_eq!(name("my_field", None), "my_field");
}

#[test]
fn explicit_rename_takes_precedence() {
    let renames = vec![marquage(vec![text("rename", "first"), Meta::Path("skip".to_string())]), marquage(vec![text("rename", "second")])];
    assert_eq!(get_rename_with(&renames, "my_field", Some(RenameRule::CamelCase)), Ok("second".to_string()));
    assert_eq!(get_rename(&renames, "x".to_string()), Ok("second".to_string()));
    assert_eq!(get_rename(&[], "x".to_string()), Ok("x".to_string()));
}

#[test]
fn other_attributes_are_passed_over() {
    let attrs = vec![
        Attribute { path: "doc".to_string(), meta: AttrMeta::NameValue(AttrValue::Other) },
        Attribute { path: "rename".to_string(), meta: AttrMeta::Path },
    ];
    assert_eq!(get_rename(&attrs, "x".to_string()), Ok("x".to_string()));
}

#[test]
fn rename_must_be_a_string() {
    let attrs = vec![marquage(vec![five("rename")])];
    assert_eq!(get_rename(&attrs, "x".to_string()), Err("`rename` must be a string literal".to_string()));
    let attrs = vec![marquage(vec![Meta::NameValue("rename".to_string(), AttrValue::Other)])];
    assert_eq!(get_rename(&attrs, "x".to_string()), Err("`rename` must be a string literal".to_string()));
}

#[test]
fn marquage_attribute_must_be_a_list() {
    let attrs = vec![Attribute { path: "marquage".to_string(), meta: AttrMeta::Path }];
    assert_eq!(get_rename(&attrs, "x".to_string()), Err("`marquage` field only accept a list".to_string()));
    let attrs = vec![Attribute { path: "marquage".to_string(), meta: AttrMeta::List(Err("expected `,`".to_string())) }];
    assert_eq!(get_rename(&attrs, "x".to_string()), Err("expected `,`".to_string()));
}

#[test]
fn the_first_error_in_order_is_reported() {
    let attrs = vec![marquage(vec![five("rename")]), Attribute { path: "marquage".to_string(), meta: AttrMeta::Path }];
    assert_eq!(get_rename(&attrs, "x".to_string()), Err("`rename` must be a string literal".to_string()));
    let attrs = vec![Attribute { path: "marquage".to_string(), meta: AttrMeta::Path }, marquage(vec![five("rename")])];
    assert_eq!(get_rename(&attrs, "x".to_string()), Err("`marquage` field only accept a list".to_string()));
}

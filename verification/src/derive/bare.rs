//! The `rename` and `default` attributes written on a field by themselves,
//! outside `#[marquage(...)]`: `#[rename = "name"]` or
//! `#[rename(value = "name")]`, and `#[default]`, `#[default = literal]` or
//! `#[default(value = literal)]`. The first such attribute decides.
use vstd::prelude::*;

use crate::derive::attribute::{AttrLit, AttrValue, FieldType, SpecLit};
use crate::derive::directives::{default_view, str_ref, DefaultExpr, SpecDefault};
use crate::text::same_text;

verus! {

/// One item of a bare attribute's list, `path` or `path = value`.
#[derive(Debug, PartialEq)]
pub struct BareItem {
    /// The text of the item's path.
    pub path: String,
    /// What follows `=`, as the attribute's parser reads it (a literal for
    /// `rename`, an expression for `default`), or the message of that
    /// parser's error (an item without `=` among them).
    pub value: Result<AttrValue, String>,
    /// The parser's message on looking for `=` right after the value. The
    /// `default` reader asks for `=` a second time before it reports a value
    /// that is not a literal, and this message is what comes out.
    pub after_value: String,
}

/// The arguments of `#[name(...)]`: the items read, in order, and the
/// message of the syntax error that stopped the reading after them, if any.
#[derive(Debug, PartialEq)]
pub struct BareList {
    /// The items read, in order.
    pub items: Vec<BareItem>,
    /// The message of the syntax error met after them, if any.
    pub error: Option<String>,
}

/// What follows the path of a bare attribute.
#[derive(Debug, PartialEq)]
pub enum BareMeta {
    /// Nothing: `#[name]`.
    Path,
    /// `#[name = value]`.
    NameValue(AttrValue),
    /// `#[name(...)]`.
    List(BareList),
}

/// An attribute on a field, read as a bare `rename` or `default` attribute.
#[derive(Debug, PartialEq)]
pub struct BareAttribute {
    /// The text of the attribute's path.
    pub path: String,
    /// What follows the path.
    pub meta: BareMeta,
}

/// The message for an item of a list other than `value`.
pub open spec fn expecting_value_text() -> Seq<char> {
    "expecting `value` field"@
}

/// The message for `#[rename = literal]` whose literal is not a string.
pub open spec fn rename_other_literal_text() -> Seq<char> {
    "expect string literal, but found others"@
}

/// The message for `#[rename = expression]` whose expression is no literal.
pub open spec fn rename_not_literal_text() -> Seq<char> {
    "rename field only accept a string literal"@
}

/// The message for `#[rename(value = literal)]` whose literal is not a string.
pub open spec fn rename_item_not_str_text() -> Seq<char> {
    "rename field must be a string literal"@
}

/// The message for `#[rename()]` with no item.
pub open spec fn rename_no_field_text() -> Seq<char> {
    "no field in `rename`"@
}

/// The message for `#[default = expression]` whose expression is no literal.
pub open spec fn default_not_literal_text() -> Seq<char> {
    "#[default = ...] only accept literal"@
}

/// The name that the items of `#[rename(...)]` from index `i` on set, `acc`
/// being set so far: the last `value`; or the message for the first item
/// that is not a `value` with a string literal.
pub open spec fn renamed_items(items: Seq<BareItem>, i: int, acc: Option<Seq<char>>) -> Result<
    Option<Seq<char>>,
    Seq<char>,
>
    decreases items.len() - i,
{
    if i < 0 || i >= items.len() {
        Ok(acc)
    } else if items[i].path@ != "value"@ {
        Err(expecting_value_text())
    } else {
        match items[i].value {
            Err(m) => Err(m@),
            Ok(AttrValue::Lit(AttrLit::Str(s))) => renamed_items(items, i + 1, Some(s@)),
            Ok(_) => Err(rename_item_not_str_text()),
        }
    }
}

/// What `#[rename(...)]` with the list `l` gives.
pub open spec fn rename_of_list(l: BareList) -> Result<Seq<char>, Seq<char>> {
    match renamed_items(l.items@, 0, None) {
        Err(m) => Err(m),
        Ok(acc) => match l.error {
            Some(m) => Err(m@),
            None => match acc {
                Some(s) => Ok(s),
                None => Err(rename_no_field_text()),
            },
        },
    }
}

/// What [get_rename] gives for `attrs` from index `i` on: the first `rename`
/// attribute with a value decides; without one, `ident`.
pub open spec fn bare_rename_from(attrs: Seq<BareAttribute>, i: int, ident: Seq<char>) -> Result<
    Seq<char>,
    Seq<char>,
>
    decreases attrs.len() - i,
{
    if i < 0 || i >= attrs.len() {
        Ok(ident)
    } else if attrs[i].path@ != "rename"@ {
        bare_rename_from(attrs, i + 1, ident)
    } else {
        match attrs[i].meta {
            BareMeta::Path => bare_rename_from(attrs, i + 1, ident),
            BareMeta::NameValue(AttrValue::Lit(AttrLit::Str(s))) => Ok(s@),
            BareMeta::NameValue(AttrValue::Lit(_)) => Err(rename_other_literal_text()),
            BareMeta::NameValue(_) => Err(rename_not_literal_text()),
            BareMeta::List(l) => rename_of_list(l),
        }
    }
}

/// What [get_rename] gives for `attrs` and the name `ident`.
pub open spec fn bare_rename_of(attrs: Seq<BareAttribute>, ident: Seq<char>) -> Result<
    Seq<char>,
    Seq<char>,
> {
    bare_rename_from(attrs, 0, ident)
}

/// The names set by the items of a list, as `renamed_items` reads them.
fn rename_list(l: &BareList) -> (r: Result<String, String>)
    ensures
        match rename_of_list(*l) {
            Ok(s) => r is Ok && r->Ok_0@ == s,
            Err(m) => r is Err && r->Err_0@ == m,
        },
{
    let mut res: Option<String> = None;
    let mut i: usize = 0;
    while i < l.items.len()
        invariant
            i <= l.items@.len(),
            renamed_items(l.items@, 0, None) == renamed_items(
                l.items@,
                i as int,
                match res {
                    Some(s) => Some(s@),
                    None => None,
                },
            ),
        decreases l.items@.len() - i,
    {
        let item = &l.items[i];
        if !same_text(item.path.as_str(), "value") {
            return Err("expecting `value` field".to_owned());
        }
        match &item.value {
            Err(m) => {
                return Err(m.clone());
            },
            Ok(AttrValue::Lit(AttrLit::Str(s))) => {
                res = Some(s.clone());
            },
            Ok(_) => {
                return Err("rename field must be a string literal".to_owned());
            },
        }
        i += 1;
    }
    match &l.error {
        Some(m) => Err(m.clone()),
        None => match res {
            Some(s) => Ok(s),
            None => Err("no field in `rename`".to_owned()),
        },
    }
}

/// Get the name of a field: the value of its first `#[rename = "..."]` or
/// `#[rename(value = "...")]` (in the list, the last `value`), or
/// `ident_name`. A bare `#[rename]` is passed over.
///
/// # Errors
/// The message for the first `rename` attribute whose value is not a string
/// literal, whose list holds another item or fails to parse, or whose list
/// is empty.
pub fn get_rename(attrs: &[BareAttribute], ident_name: String) -> (r: Result<String, String>)
    ensures
        match bare_rename_of(attrs@, ident_name@) {
            Ok(s) => r is Ok && r->Ok_0@ == s,
            Err(m) => r is Err && r->Err_0@ == m,
        },
{
    let mut i: usize = 0;
    while i < attrs.len()
        invariant
            i <= attrs@.len(),
            bare_rename_of(attrs@, ident_name@) == bare_rename_from(attrs@, i as int, ident_name@),
        decreases attrs@.len() - i,
    {
        let a = &attrs[i];
        if same_text(a.path.as_str(), "rename") {
            match &a.meta {
                BareMeta::Path => {},
                BareMeta::NameValue(AttrValue::Lit(AttrLit::Str(s))) => {
                    return Ok(s.clone());
                },
                BareMeta::NameValue(AttrValue::Lit(_)) => {
                    return Err("expect string literal, but found others".to_owned());
                },
                BareMeta::NameValue(_) => {
                    return Err("rename field only accept a string literal".to_owned());
                },
                BareMeta::List(l) => {
                    return rename_list(l);
                },
            }
        }
        i += 1;
    }
    Ok(ident_name)
}

/// The default expression made of `lit` for a field of type `ty`: the
/// literal itself for a `&str` field, `<ty>::from(lit)` for any other.
pub open spec fn bare_conversion(ty: FieldType, lit: SpecLit) -> SpecDefault {
    if str_ref(ty) {
        SpecDefault::Literal(lit)
    } else {
        SpecDefault::Converted(lit)
    }
}

/// Whether `ty` is `&str`.
fn is_str_ref(ty: &FieldType) -> (r: bool)
    ensures
        r == str_ref(*ty),
{
    if let FieldType::Reference { mutable, elem } = ty {
        if !*mutable {
            if let FieldType::Path { leading_colon, segments, .. } = &**elem {
                return !*leading_colon && segments.len() == 1 && !segments[0].has_arguments
                    && same_text(segments[0].name.as_str(), "str");
            }
        }
    }
    false
}

/// Generate the default-value expression for a field of type `ty` from a
/// literal, as [bare_conversion] says.
pub fn generate_conversion(ty: &FieldType, lit: AttrLit) -> (r: DefaultExpr)
    ensures
        r@ == bare_conversion(*ty, lit@),
{
    if is_str_ref(ty) {
        DefaultExpr::Literal(lit)
    } else {
        DefaultExpr::Converted(lit)
    }
}

/// The default that the items of `#[default(...)]` from index `i` on set
/// for a field of type `ty`, `acc` being set so far: that of the last
/// `value`; or the message for the first item that is not a `value` with a
/// literal.
pub open spec fn defaulted_items(
    items: Seq<BareItem>,
    i: int,
    ty: FieldType,
    acc: Option<SpecDefault>,
) -> Result<Option<SpecDefault>, Seq<char>>
    decreases items.len() - i,
{
    if i < 0 || i >= items.len() {
        Ok(acc)
    } else if items[i].path@ != "value"@ {
        Err(expecting_value_text())
    } else {
        match items[i].value {
            Err(m) => Err(m@),
            Ok(AttrValue::Lit(l)) => defaulted_items(items, i + 1, ty, Some(bare_conversion(ty, l@))),
            Ok(_) => Err(items[i].after_value@),
        }
    }
}

/// What `#[default(...)]` with the list `l` gives for a field of type `ty`.
pub open spec fn default_of_list(l: BareList, ty: FieldType) -> Result<Option<SpecDefault>, Seq<char>> {
    match defaulted_items(l.items@, 0, ty, None) {
        Err(m) => Err(m),
        Ok(acc) => match l.error {
            Some(m) => Err(m@),
            None => Ok(acc),
        },
    }
}

/// What [get_default] gives for `attrs` from index `i` on, for a field of
/// type `ty`: the first `default` attribute decides; without one, no default.
pub open spec fn bare_default_from(attrs: Seq<BareAttribute>, i: int, ty: FieldType) -> Result<
    Option<SpecDefault>,
    Seq<char>,
>
    decreases attrs.len() - i,
{
    if i < 0 || i >= attrs.len() {
        Ok(None)
    } else if attrs[i].path@ != "default"@ {
        bare_default_from(attrs, i + 1, ty)
    } else {
        match attrs[i].meta {
            BareMeta::Path => Ok(Some(SpecDefault::TraitDefault)),
            BareMeta::NameValue(AttrValue::Lit(l)) => Ok(Some(bare_conversion(ty, l@))),
            BareMeta::NameValue(_) => Err(default_not_literal_text()),
            BareMeta::List(l) => default_of_list(l, ty),
        }
    }
}

/// What [get_default] gives for `attrs` on a field of type `ty`.
pub open spec fn bare_default_of(attrs: Seq<BareAttribute>, ty: FieldType) -> Result<
    Option<SpecDefault>,
    Seq<char>,
> {
    bare_default_from(attrs, 0, ty)
}

/// The default set by the items of a list, as `defaulted_items` reads them.
fn default_list(l: &BareList, ty: &FieldType) -> (r: Result<Option<DefaultExpr>, String>)
    ensures
        match default_of_list(*l, *ty) {
            Ok(d) => r is Ok && default_view(r->Ok_0) == d,
            Err(m) => r is Err && r->Err_0@ == m,
        },
{
    let mut res: Option<DefaultExpr> = None;
    let mut i: usize = 0;
    while i < l.items.len()
        invariant
            i <= l.items@.len(),
            defaulted_items(l.items@, 0, *ty, None) == defaulted_items(
                l.items@,
                i as int,
                *ty,
                default_view(res),
            ),
        decreases l.items@.len() - i,
    {
        let item = &l.items[i];
        if !same_text(item.path.as_str(), "value") {
            return Err("expecting `value` field".to_owned());
        }
        match &item.value {
            Err(m) => {
                return Err(m.clone());
            },
            Ok(AttrValue::Lit(lit)) => {
                res = Some(generate_conversion(ty, lit.clone()));
            },
            Ok(_) => {
                return Err(item.after_value.clone());
            },
        }
        i += 1;
    }
    match &l.error {
        Some(m) => Err(m.clone()),
        None => Ok(res),
    }
}

/// Get the expression that fills in a field of type `ty` left out of the
/// text, from its first `default` attribute: `#[default]` gives the type's
/// `Default`, `#[default = literal]` and `#[default(value = literal)]` (in
/// the list, the last `value`) the literal, converted as
/// [generate_conversion] says. Without one, there is no default.
///
/// # Errors
/// The message for the first `default` attribute whose value is not a
/// literal, or whose list holds another item or fails to parse.
pub fn get_default(attrs: &[BareAttribute], ty: &FieldType) -> (r: Result<Option<DefaultExpr>, String>)
    ensures
        match bare_default_of(attrs@, *ty) {
            Ok(d) => r is Ok && default_view(r->Ok_0) == d,
            Err(m) => r is Err && r->Err_0@ == m,
        },
{
    let mut i: usize = 0;
    while i < attrs.len()
        invariant
            i <= attrs@.len(),
            bare_default_of(attrs@, *ty) == bare_default_from(attrs@, i as int, *ty),
        decreases attrs@.len() - i,
    {
        let a = &attrs[i];
        if same_text(a.path.as_str(), "default") {
            match &a.meta {
                BareMeta::Path => {
                    return Ok(Some(DefaultExpr::TraitDefault));
                },
                BareMeta::NameValue(AttrValue::Lit(lit)) => {
                    return Ok(Some(generate_conversion(ty, lit.clone())));
                },
                BareMeta::NameValue(_) => {
                    return Err("#[default = ...] only accept literal".to_owned());
                },
                BareMeta::List(l) => {
                    return default_list(l, ty);
                },
            }
        }
        i += 1;
    }
    Ok(None)
}

} // verus!

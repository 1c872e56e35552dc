//! The directives of `#[marquage(...)]` attributes: `rename`, `rename_all`,
//! `skip` and `default`.
use vstd::prelude::*;

use crate::derive::attribute::{
    is_ident, AttrLit, AttrMeta, AttrValue, Attribute, FieldType, GenericParam, Generics, Meta, SpecLit,
};
use crate::rename::{cased, parse_rename_all, rule_named, to_case, unknown_rule_text, RenameRule};
use crate::text::{push_str, same_text, string_from_chars};

verus! {

/// The message for a `marquage` attribute that is not a list.
pub open spec fn not_a_list_text() -> Seq<char> {
    "`marquage` field only accept a list"@
}

/// The directives of the `#[marquage(...)]` attributes among `attrs` from
/// index `i` on, in order, up to the first such attribute that is not a
/// well-formed list; and the message for that one, if there is one.
pub open spec fn metas_from(attrs: Seq<Attribute>, i: int) -> (Seq<Meta>, Option<Seq<char>>)
    decreases attrs.len() - i,
{
    if i < 0 || i >= attrs.len() {
        (Seq::empty(), None)
    } else if attrs[i].path@ != "marquage"@ {
        metas_from(attrs, i + 1)
    } else {
        match attrs[i].meta {
            AttrMeta::List(Ok(ms)) => {
                let rest = metas_from(attrs, i + 1);
                (ms@ + rest.0, rest.1)
            },
            AttrMeta::List(Err(m)) => (Seq::empty(), Some(m@)),
            _ => (Seq::empty(), Some(not_a_list_text())),
        }
    }
}

/// The directives of the `#[marquage(...)]` attributes among `attrs`, and
/// the message for the first one that is not a well-formed list.
pub open spec fn marquage_metas(attrs: Seq<Attribute>) -> (Seq<Meta>, Option<Seq<char>>) {
    metas_from(attrs, 0)
}

/// Read the directives of every `#[marquage(...)]` attribute in `attrs`, in
/// order. Each such attribute must be a list: reading stops at the first
/// that is not, with its message. Attributes with other paths are passed
/// over.
pub fn each_marquage_meta(attrs: &[Attribute]) -> (r: (Vec<Meta>, Option<String>))
    ensures
        r.0@ == marquage_metas(attrs@).0,
        match marquage_metas(attrs@).1 {
            Some(m) => r.1 is Some && r.1->Some_0@ == m,
            None => r.1 is None,
        },
{
    let mut acc: Vec<Meta> = Vec::new();
    let mut i: usize = 0;
    while i < attrs.len()
        invariant
            i <= attrs@.len(),
            metas_from(attrs@, 0).0 == acc@ + metas_from(attrs@, i as int).0,
            metas_from(attrs@, 0).1 == metas_from(attrs@, i as int).1,
        decreases attrs@.len() - i,
    {
        let a = &attrs[i];
        if same_text(a.path.as_str(), "marquage") {
            match &a.meta {
                AttrMeta::List(Ok(ms)) => {
                    let ghost before = acc@;
                    let mut j: usize = 0;
                    while j < ms.len()
                        invariant
                            j <= ms@.len(),
                            acc@ == before + ms@.subrange(0, j as int),
                        decreases ms@.len() - j,
                    {
                        acc.push(ms[j].clone());
                        assert(acc@ =~= before + ms@.subrange(0, j + 1));
                        j += 1;
                    }
                    assert(ms@.subrange(0, ms@.len() as int) =~= ms@);
                    assert(before + (ms@ + metas_from(attrs@, i + 1).0) =~= acc@ + metas_from(
                        attrs@,
                        i + 1,
                    ).0);
                },
                AttrMeta::List(Err(m)) => {
                    assert(acc@ =~= acc@ + Seq::<Meta>::empty());
                    return (acc, Some(m.clone()));
                },
                _ => {
                    assert(acc@ =~= acc@ + Seq::<Meta>::empty());
                    return (acc, Some("`marquage` field only accept a list".to_owned()));
                },
            }
        }
        i += 1;
    }
    assert(acc@ =~= acc@ + Seq::<Meta>::empty());
    (acc, None)
}

/// The message for a `rename` whose value is not a string literal.
pub open spec fn rename_not_str_text() -> Seq<char> {
    "`rename` must be a string literal"@
}

/// The name that the `rename` directives among `metas` set, read from index
/// `i` on with `acc` set so far: the last one; or the message for the first
/// whose value is not a string literal.
pub open spec fn renamed(metas: Seq<Meta>, i: int, acc: Option<Seq<char>>) -> Result<
    Option<Seq<char>>,
    Seq<char>,
>
    decreases metas.len() - i,
{
    if i < 0 || i >= metas.len() {
        Ok(acc)
    } else {
        match metas[i] {
            Meta::NameValue(p, v) => if p@ == "rename"@ {
                match v {
                    AttrValue::Lit(AttrLit::Str(s)) => renamed(metas, i + 1, Some(s@)),
                    _ => Err(rename_not_str_text()),
                }
            } else {
                renamed(metas, i + 1, acc)
            },
            _ => renamed(metas, i + 1, acc),
        }
    }
}

/// What [get_rename] gives for `attrs` and the name `ident`: the error met
/// first, or the last `rename`, or `ident`.
pub open spec fn rename_of(attrs: Seq<Attribute>, ident: Seq<char>) -> Result<Seq<char>, Seq<char>> {
    let (metas, err) = marquage_metas(attrs);
    match renamed(metas, 0, None) {
        Err(m) => Err(m),
        Ok(acc) => match err {
            Some(m) => Err(m),
            None => Ok(
                match acc {
                    Some(s) => s,
                    None => ident,
                },
            ),
        },
    }
}

/// Get the name of a field or variant: the value of its last
/// `#[marquage(rename = "...")]`, or `ident_name`.
///
/// # Errors
/// The message for a `marquage` attribute that is not a list, or for a
/// `rename` whose value is not a string literal, whichever comes first.
pub fn get_rename(attrs: &[Attribute], ident_name: String) -> (r: Result<String, String>)
    ensures
        match rename_of(attrs@, ident_name@) {
            Ok(s) => r is Ok && r->Ok_0@ == s,
            Err(m) => r is Err && r->Err_0@ == m,
        },
{
    let (metas, err) = each_marquage_meta(attrs);
    let mut res: Option<String> = None;
    let mut i: usize = 0;
    while i < metas.len()
        invariant
            i <= metas@.len(),
            metas@ == marquage_metas(attrs@).0,
            renamed(metas@, 0, None) == renamed(
                metas@,
                i as int,
                match res {
                    Some(s) => Some(s@),
                    None => None,
                },
            ),
        decreases metas@.len() - i,
    {
        match &metas[i] {
            Meta::NameValue(p, v) => {
                if same_text(p.as_str(), "rename") {
                    match v {
                        AttrValue::Lit(AttrLit::Str(s)) => {
                            res = Some(s.clone());
                        },
                        _ => {
                            return Err("`rename` must be a string literal".to_owned());
                        },
                    }
                }
            },
            _ => {},
        }
        i += 1;
    }
    match err {
        Some(m) => Err(m),
        None => match res {
            Some(s) => Ok(s),
            None => Ok(ident_name),
        },
    }
}

/// The message for a `rename_all` whose value is not a string literal.
pub open spec fn rename_all_not_str_text() -> Seq<char> {
    "`rename_all` must be a string literal"@
}

/// The rule that the `rename_all` directives among `metas` set, read from
/// index `i` on with `acc` set so far: the last one; or the message for the
/// first whose value is not a string literal or names no rule.
pub open spec fn renamed_all(metas: Seq<Meta>, i: int, acc: Option<RenameRule>) -> Result<
    Option<RenameRule>,
    Seq<char>,
>
    decreases metas.len() - i,
{
    if i < 0 || i >= metas.len() {
        Ok(acc)
    } else {
        match metas[i] {
            Meta::NameValue(p, v) => if p@ == "rename_all"@ {
                match v {
                    AttrValue::Lit(AttrLit::Str(s)) => match rule_named(s@) {
                        Some(c) => renamed_all(metas, i + 1, Some(c)),
                        None => Err(unknown_rule_text(s@)),
                    },
                    _ => Err(rename_all_not_str_text()),
                }
            } else {
                renamed_all(metas, i + 1, acc)
            },
            _ => renamed_all(metas, i + 1, acc),
        }
    }
}

/// What [get_rename_all] gives for `attrs`: the error met first, or the
/// rule of the last `rename_all`, if any.
pub open spec fn rename_all_of(attrs: Seq<Attribute>) -> Result<Option<RenameRule>, Seq<char>> {
    let (metas, err) = marquage_metas(attrs);
    match renamed_all(metas, 0, None) {
        Err(m) => Err(m),
        Ok(acc) => match err {
            Some(m) => Err(m),
            None => Ok(acc),
        },
    }
}

/// Get the rule of the last `#[marquage(rename_all = "...")]` of a type.
///
/// # Errors
/// The message for a `marquage` attribute that is not a list, for a
/// `rename_all` whose value is not a string literal, or for one that names
/// no rule, whichever comes first.
pub fn get_rename_all(attrs: &[Attribute]) -> (r: Result<Option<RenameRule>, String>)
    ensures
        match rename_all_of(attrs@) {
            Ok(c) => r == Ok::<Option<RenameRule>, String>(c),
            Err(m) => r is Err && r->Err_0@ == m,
        },
{
    let (metas, err) = each_marquage_meta(attrs);
    let mut res: Option<RenameRule> = None;
    let mut i: usize = 0;
    while i < metas.len()
        invariant
            i <= metas@.len(),
            metas@ == marquage_metas(attrs@).0,
            renamed_all(metas@, 0, None) == renamed_all(metas@, i as int, res),
        decreases metas@.len() - i,
    {
        match &metas[i] {
            Meta::NameValue(p, v) => {
                if same_text(p.as_str(), "rename_all") {
                    match v {
                        AttrValue::Lit(AttrLit::Str(s)) => match parse_rename_all(s.as_str()) {
                            Ok(c) => {
                                res = Some(c);
                            },
                            Err(m) => {
                                return Err(m);
                            },
                        },
                        _ => {
                            return Err("`rename_all` must be a string literal".to_owned());
                        },
                    }
                }
            },
            _ => {},
        }
        i += 1;
    }
    match err {
        Some(m) => Err(m),
        None => Ok(res),
    }
}

/// Get the name of a field or variant: an explicit `rename` takes
/// precedence; otherwise the identifier converted by the `rename_all` rule,
/// if any; otherwise the identifier as it is.
///
/// # Errors
/// Those of [get_rename].
pub fn get_rename_with(attrs: &[Attribute], ident_name: &str, rename_all: Option<RenameRule>) -> (r:
    Result<String, String>)
    ensures
        match rename_of(
            attrs@,
            match rename_all {
                Some(rule) => cased(ident_name@, rule),
                None => ident_name@,
            },
        ) {
            Ok(s) => r is Ok && r->Ok_0@ == s,
            Err(m) => r is Err && r->Err_0@ == m,
        },
{
    let fallback = match rename_all {
        Some(case) => to_case(ident_name, case),
        None => ident_name.to_owned(),
    };
    get_rename(attrs, fallback)
}

/// Whether a directive among `metas` from index `i` on is `skip`.
pub open spec fn skipped(metas: Seq<Meta>, i: int) -> bool
    decreases metas.len() - i,
{
    if i < 0 || i >= metas.len() {
        false
    } else {
        (metas[i] matches Meta::Path(p) && p@ == "skip"@) || skipped(metas, i + 1)
    }
}

/// What [is_skip] gives for `attrs`.
pub open spec fn skip_of(attrs: Seq<Attribute>) -> Result<bool, Seq<char>> {
    let (metas, err) = marquage_metas(attrs);
    match err {
        Some(m) => Err(m),
        None => Ok(skipped(metas, 0)),
    }
}

/// Whether the directive `m` is the bare path `skip`.
pub open spec fn is_skip_directive(m: Meta) -> bool {
    m matches Meta::Path(p) && p@ == "skip"@
}

proof fn lemma_skipped_exists(metas: Seq<Meta>, i: int)
    requires
        0 <= i <= metas.len(),
    ensures
        skipped(metas, i) <==> exists|j: int| i <= j < metas.len() && is_skip_directive(#[trigger] metas[j]),
    decreases metas.len() - i,
{
    if i < metas.len() {
        lemma_skipped_exists(metas, i + 1);
        if exists|j: int| i <= j < metas.len() && is_skip_directive(#[trigger] metas[j]) {
            let j = choose|j: int| i <= j < metas.len() && is_skip_directive(#[trigger] metas[j]);
            if j > i {
                assert(i + 1 <= j < metas.len() && is_skip_directive(metas[j]));
            }
        }
        if skipped(metas, i + 1) {
            let j = choose|j: int| i + 1 <= j < metas.len() && is_skip_directive(#[trigger] metas[j]);
            assert(i <= j < metas.len() && is_skip_directive(metas[j]));
        }
        if is_skip_directive(metas[i]) {
            assert(i <= i < metas.len() && is_skip_directive(metas[i]));
        }
    }
}

/// A field is skipped exactly when one of its `marquage` directives is the
/// path `skip`, wherever it stands among the others and whatever else they
/// say; attributes that are not all well-formed lists give the message of
/// the first that is not, whatever their directives.
pub proof fn law_skip_anywhere(attrs: Seq<Attribute>)
    ensures
        marquage_metas(attrs).1 is None ==> skip_of(attrs) == Ok::<bool, Seq<char>>(
            exists|j: int|
                0 <= j < marquage_metas(attrs).0.len() && is_skip_directive(
                    #[trigger] marquage_metas(attrs).0[j],
                ),
        ),
        marquage_metas(attrs).1 matches Some(m) ==> skip_of(attrs) == Err::<bool, Seq<char>>(m),
{
    lemma_skipped_exists(marquage_metas(attrs).0, 0);
}

/// Adding directives before or after those of a field never unskips it: if
/// any of `a` or `b` is `skip`, so is their concatenation, in either order.
pub proof fn law_skip_kept(a: Seq<Meta>, b: Seq<Meta>)
    ensures
        skipped(a + b, 0) <==> (skipped(a, 0) || skipped(b, 0)),
        skipped(a + b, 0) == skipped(b + a, 0),
{
    lemma_skipped_exists(a, 0);
    lemma_skipped_exists(b, 0);
    lemma_skipped_exists(a + b, 0);
    lemma_skipped_exists(b + a, 0);
    let ab = a + b;
    let ba = b + a;
    if skipped(a, 0) {
        let j = choose|j: int| 0 <= j < a.len() && is_skip_directive(#[trigger] a[j]);
        assert(ab[j] == a[j]);
        assert(ba[b.len() + j] == a[j]);
    }
    if skipped(b, 0) {
        let j = choose|j: int| 0 <= j < b.len() && is_skip_directive(#[trigger] b[j]);
        assert(ab[a.len() + j] == b[j]);
        assert(ba[j] == b[j]);
    }
    if skipped(ab, 0) {
        let j = choose|j: int| 0 <= j < ab.len() && is_skip_directive(#[trigger] ab[j]);
        if j < a.len() {
            assert(a[j] == ab[j]);
        } else {
            assert(b[j - a.len()] == ab[j]);
        }
    }
    if skipped(ba, 0) {
        let j = choose|j: int| 0 <= j < ba.len() && is_skip_directive(#[trigger] ba[j]);
        if j < b.len() {
            assert(b[j] == ba[j]);
        } else {
            assert(a[j - b.len()] == ba[j]);
        }
    }
}

/// Whether a field has a `#[marquage(skip)]` directive.
///
/// # Errors
/// The message for a `marquage` attribute that is not a list.
pub fn is_skip(attrs: &[Attribute]) -> (r: Result<bool, String>)
    ensures
        match skip_of(attrs@) {
            Ok(b) => r == Ok::<bool, String>(b),
            Err(m) => r is Err && r->Err_0@ == m,
        },
{
    let (metas, err) = each_marquage_meta(attrs);
    let mut skip = false;
    let mut i: usize = 0;
    while i < metas.len()
        invariant
            i <= metas@.len(),
            metas@ == marquage_metas(attrs@).0,
            skipped(metas@, 0) == (skip || skipped(metas@, i as int)),
        decreases metas@.len() - i,
    {
        match &metas[i] {
            Meta::Path(p) => {
                if same_text(p.as_str(), "skip") {
                    skip = true;
                }
            },
            _ => {},
        }
        i += 1;
    }
    match err {
        Some(m) => Err(m),
        None => Ok(skip),
    }
}

/// Whether `ty` is `Option<T>`: a path, without a qualified self, whose last
/// segment is `Option`.
pub open spec fn option_type(ty: FieldType) -> bool {
    match ty {
        FieldType::Path { qualified, segments, .. } => !qualified && segments@.len() > 0
            && segments@.last().name@ == "Option"@,
        _ => false,
    }
}

/// Check if a type is `Option<T>`.
///
/// Only the last path segment is matched, so fully-qualified paths like
/// `std::option::Option<T>` are recognized as well.
pub fn is_option(ty: &FieldType) -> (r: bool)
    ensures
        r == option_type(*ty),
{
    match ty {
        FieldType::Path { qualified, segments, .. } => {
            !*qualified && segments.len() > 0 && same_text(
                segments[segments.len() - 1].name.as_str(),
                "Option",
            )
        },
        _ => false,
    }
}

/// Whether `ty` is a plain path, without a qualified self, of the bare
/// identifier `name`.
pub open spec fn primitive_ident(ty: FieldType, name: Seq<char>) -> bool {
    match ty {
        FieldType::Path { qualified, leading_colon, segments } => !qualified && is_ident(
            leading_colon,
            segments@,
            name,
        ),
        _ => false,
    }
}

/// Check if `ty` is a plain (unqualified, argument-free) path of the given
/// ident.
fn is_primitive_ident(ty: &FieldType, name: &str) -> (r: bool)
    ensures
        r == primitive_ident(*ty, name@),
{
    match ty {
        FieldType::Path { qualified, leading_colon, segments } => {
            !*qualified && !*leading_colon && segments.len() == 1 && !segments[0].has_arguments
                && same_text(segments[0].name.as_str(), name)
        },
        _ => false,
    }
}

/// The names of the primitive numeric types, which are also the suffixes of
/// numeric literals.
pub open spec fn numeric_name(n: Seq<char>) -> bool {
    n == "i8"@ || n == "i16"@ || n == "i32"@ || n == "i64"@ || n == "i128"@ || n == "isize"@ || n
        == "u8"@ || n == "u16"@ || n == "u32"@ || n == "u64"@ || n == "u128"@ || n == "usize"@ || n
        == "f32"@ || n == "f64"@
}

/// The literal suffix of `ty`, where it is a primitive numeric type.
pub open spec fn numeric_suffix(ty: FieldType) -> Option<Seq<char>> {
    match ty {
        FieldType::Path { qualified, leading_colon, segments } => if !qualified && is_ident(
            leading_colon,
            segments@,
            segments@[0].name@,
        ) && numeric_name(segments@[0].name@) {
            Some(segments@[0].name@)
        } else {
            None
        },
        _ => None,
    }
}

/// The literal suffix of a primitive numeric type (`i8`..`i128`, `isize`,
/// `u8`..`u128`, `usize`, `f32`, `f64`), if `ty` is one of them.
fn primitive_numeric_suffix(ty: &FieldType) -> (r: Option<&str>)
    ensures
        match numeric_suffix(*ty) {
            Some(s) => r is Some && r->Some_0@ == s,
            None => r is None,
        },
{
    match ty {
        FieldType::Path { qualified, leading_colon, segments } => {
            if *qualified || *leading_colon || segments.len() != 1 || segments[0].has_arguments {
                return None;
            }
            let name = segments[0].name.as_str();
            if same_text(name, "i8") || same_text(name, "i16") || same_text(name, "i32")
                || same_text(name, "i64") || same_text(name, "i128") || same_text(name, "isize")
                || same_text(name, "u8") || same_text(name, "u16") || same_text(name, "u32")
                || same_text(name, "u64") || same_text(name, "u128") || same_text(name, "usize")
                || same_text(name, "f32") || same_text(name, "f64") {
                Some(name)
            } else {
                None
            }
        },
        _ => None,
    }
}

/// The expression that fills in a field left out of the text.
#[derive(Debug, PartialEq)]
pub enum DefaultExpr {
    /// `<T as Default>::default()`.
    TraitDefault,
    /// The literal itself, typed by the field.
    Literal(AttrLit),
    /// `<T>::from(literal)`.
    Converted(AttrLit),
}

/// The model of a [DefaultExpr].
pub enum SpecDefault {
    TraitDefault,
    Literal(SpecLit),
    Converted(SpecLit),
}

impl View for DefaultExpr {
    type V = SpecDefault;

    open spec fn view(&self) -> SpecDefault {
        match self {
            DefaultExpr::TraitDefault => SpecDefault::TraitDefault,
            DefaultExpr::Literal(l) => SpecDefault::Literal(l@),
            DefaultExpr::Converted(l) => SpecDefault::Converted(l@),
        }
    }
}

/// Whether `ty` is `&str`.
pub open spec fn str_ref(ty: FieldType) -> bool {
    match ty {
        FieldType::Reference { mutable, elem } => !mutable && match *elem {
            FieldType::Path { leading_colon, segments, .. } => is_ident(
                leading_colon,
                segments@,
                "str"@,
            ),
            _ => false,
        },
        _ => false,
    }
}

/// The suffix of a numeric literal.
pub open spec fn lit_suffix(lit: SpecLit) -> Seq<char> {
    match lit {
        SpecLit::Int(_, x) => x,
        SpecLit::Float(_, x) => x,
        _ => Seq::empty(),
    }
}

/// The default expression made of `lit` for a field of type `ty`: `&str`
/// fields, primitive numeric fields given an unsuffixed literal or one with
/// their own suffix, and `bool` and `char` fields given a literal of their
/// kind keep the literal; everything else converts it with `From`.
pub open spec fn conversion(ty: FieldType, lit: SpecLit) -> SpecDefault {
    if str_ref(ty) {
        SpecDefault::Literal(lit)
    } else {
        match numeric_suffix(ty) {
            Some(suffix) => if (lit is Int || lit is Float) && (lit_suffix(lit).len() == 0
                || lit_suffix(lit) == suffix) {
                SpecDefault::Literal(lit)
            } else {
                SpecDefault::Converted(lit)
            },
            None => if (primitive_ident(ty, "bool"@) && lit is Bool) || (primitive_ident(
                ty,
                "char"@,
            ) && lit is Char) {
                SpecDefault::Literal(lit)
            } else {
                SpecDefault::Converted(lit)
            },
        }
    }
}

/// Generate the default-value expression for a field of type `ty` from a
/// literal.
///
/// Primitive numeric, `bool` and `char` fields keep the literal as-is: its
/// type is then inferred from the field, or taken from the suffix the user
/// wrote. Everything else falls back to `<ty>::from(lit)`.
pub fn generate_conversion(ty: &FieldType, lit: AttrLit) -> (r: DefaultExpr)
    ensures
        r@ == conversion(*ty, lit@),
{
    if let FieldType::Reference { mutable, elem } = ty {
        if !*mutable {
            if let FieldType::Path { leading_colon, segments, .. } = &**elem {
                if !*leading_colon && segments.len() == 1 && !segments[0].has_arguments
                    && same_text(segments[0].name.as_str(), "str") {
                    return DefaultExpr::Literal(lit);
                }
            }
        }
    }
    match primitive_numeric_suffix(ty) {
        Some(suffix) => {
            let keep = match &lit {
                AttrLit::Int(_, x) => x.as_str().is_empty() || same_text(x.as_str(), suffix),
                AttrLit::Float(_, x) => x.as_str().is_empty() || same_text(x.as_str(), suffix),
                _ => false,
            };
            if keep {
                DefaultExpr::Literal(lit)
            } else {
                DefaultExpr::Converted(lit)
            }
        },
        None => {
            let keep = match &lit {
                AttrLit::Bool(_) => is_primitive_ident(ty, "bool"),
                AttrLit::Char(_) => is_primitive_ident(ty, "char"),
                _ => false,
            };
            if keep {
                DefaultExpr::Literal(lit)
            } else {
                DefaultExpr::Converted(lit)
            }
        },
    }
}

/// `lit` with a minus sign before its digits, where it is numeric.
pub open spec fn negated(lit: SpecLit) -> SpecLit {
    match lit {
        SpecLit::Int(d, x) => SpecLit::Int(seq!['-'] + d, x),
        SpecLit::Float(d, x) => SpecLit::Float(seq!['-'] + d, x),
        _ => lit,
    }
}

/// `d` with a minus sign before it.
fn with_minus(d: &String) -> (r: String)
    ensures
        r@ == seq!['-'] + d@,
{
    let mut out: Vec<char> = Vec::new();
    out.push('-');
    push_str(&mut out, d.as_str());
    string_from_chars(out.as_slice())
}

/// Rebuild a numeric literal with a leading minus sign, e.g. `1` -> `-1`.
fn negate_literal(lit: AttrLit) -> (r: AttrLit)
    ensures
        r@ == negated(lit@),
{
    match lit {
        AttrLit::Int(d, x) => AttrLit::Int(with_minus(&d), x),
        AttrLit::Float(d, x) => AttrLit::Float(with_minus(&d), x),
        _ => lit,
    }
}

/// The message for a `default` whose value is a negated expression that is
/// not a numeric literal.
pub open spec fn default_not_numeric_text() -> Seq<char> {
    "`default` must be a numeric literal"@
}

/// The message for a `default` whose value is neither a literal nor a
/// negated one.
pub open spec fn default_not_literal_text() -> Seq<char> {
    "`default` must be a literal"@
}

/// The default that the `default` directives among `metas` set for a field
/// of type `ty`, read from index `i` on with `acc` set so far: that of the
/// last one; or the message for the first whose value is not a literal.
pub open spec fn defaulted(metas: Seq<Meta>, i: int, ty: FieldType, acc: Option<SpecDefault>) -> Result<
    Option<SpecDefault>,
    Seq<char>,
>
    decreases metas.len() - i,
{
    if i < 0 || i >= metas.len() {
        Ok(acc)
    } else {
        match metas[i] {
            Meta::NameValue(p, v) => if p@ == "default"@ {
                match v {
                    AttrValue::Lit(l) => defaulted(metas, i + 1, ty, Some(conversion(ty, l@))),
                    AttrValue::Neg(Some(l)) => if l is Int || l is Float {
                        defaulted(metas, i + 1, ty, Some(conversion(ty, negated(l@))))
                    } else {
                        Err(default_not_numeric_text())
                    },
                    AttrValue::Neg(None) => Err(default_not_numeric_text()),
                    AttrValue::Other => Err(default_not_literal_text()),
                }
            } else {
                defaulted(metas, i + 1, ty, acc)
            },
            Meta::Path(p) => if p@ == "default"@ {
                defaulted(metas, i + 1, ty, Some(SpecDefault::TraitDefault))
            } else {
                defaulted(metas, i + 1, ty, acc)
            },
            _ => defaulted(metas, i + 1, ty, acc),
        }
    }
}

/// What [get_default] gives for `attrs` on a field of type `ty`.
pub open spec fn default_of(attrs: Seq<Attribute>, ty: FieldType) -> Result<Option<SpecDefault>, Seq<char>> {
    let (metas, err) = marquage_metas(attrs);
    match defaulted(metas, 0, ty, None) {
        Err(m) => Err(m),
        Ok(acc) => match err {
            Some(m) => Err(m),
            None => Ok(acc),
        },
    }
}

/// The model of an optional default expression.
pub open spec fn default_view(d: Option<DefaultExpr>) -> Option<SpecDefault> {
    match d {
        Some(e) => Some(e@),
        None => None,
    }
}

/// Get the expression that fills in a field of type `ty` left out of the
/// text: `#[marquage(default)]` gives the type's `Default`, and
/// `#[marquage(default = literal)]` the literal, converted as
/// [generate_conversion] says; a negated numeric literal counts as one.
/// The last such directive counts.
///
/// # Errors
/// The message for a `marquage` attribute that is not a list, or for a
/// `default` whose value is not a (negated numeric) literal, whichever
/// comes first.
pub fn get_default(attrs: &[Attribute], ty: &FieldType) -> (r: Result<Option<DefaultExpr>, String>)
    ensures
        match default_of(attrs@, *ty) {
            Ok(d) => r is Ok && default_view(r->Ok_0) == d,
            Err(m) => r is Err && r->Err_0@ == m,
        },
{
    let (metas, err) = each_marquage_meta(attrs);
    let mut res: Option<DefaultExpr> = None;
    let mut i: usize = 0;
    while i < metas.len()
        invariant
            i <= metas@.len(),
            metas@ == marquage_metas(attrs@).0,
            defaulted(metas@, 0, *ty, None) == defaulted(metas@, i as int, *ty, default_view(res)),
        decreases metas@.len() - i,
    {
        match &metas[i] {
            Meta::NameValue(p, v) => {
                if same_text(p.as_str(), "default") {
                    match v {
                        AttrValue::Lit(l) => {
                            res = Some(generate_conversion(ty, l.clone()));
                        },
                        AttrValue::Neg(Some(l)) => {
                            match l {
                                AttrLit::Int(..) | AttrLit::Float(..) => {
                                    res = Some(generate_conversion(ty, negate_literal(l.clone())));
                                },
                                _ => {
                                    return Err("`default` must be a numeric literal".to_owned());
                                },
                            }
                        },
                        AttrValue::Neg(None) => {
                            return Err("`default` must be a numeric literal".to_owned());
                        },
                        AttrValue::Other => {
                            return Err("`default` must be a literal".to_owned());
                        },
                    }
                }
            },
            Meta::Path(p) => {
                if same_text(p.as_str(), "default") {
                    res = Some(DefaultExpr::TraitDefault);
                }
            },
            _ => {},
        }
        i += 1;
    }
    match err {
        Some(m) => Err(m),
        None => Ok(res),
    }
}

/// A copy of the texts `v`.
fn copy_texts(v: &Vec<String>) -> (r: Vec<String>)
    ensures
        r@ == v@,
{
    let mut out: Vec<String> = Vec::new();
    let mut i: usize = 0;
    while i < v.len()
        invariant
            i <= v@.len(),
            out@ == v@.subrange(0, i as int),
        decreases v@.len() - i,
    {
        out.push(v[i].clone());
        assert(out@ =~= v@.subrange(0, i + 1));
        i += 1;
    }
    assert(v@.subrange(0, v@.len() as int) =~= v@);
    out
}

/// Whether `q` is `p` with `bound` added last to its bounds where it is a
/// type parameter, and `p` itself otherwise.
pub open spec fn bounded(p: GenericParam, q: GenericParam, bound: String) -> bool {
    match p {
        GenericParam::Type { name, bounds } => q matches GenericParam::Type { name: n, bounds: b }
            && n == name && b@ == bounds@.push(bound),
        _ => q == p,
    }
}

/// Add `bound` to the bounds of every type parameter of `generics`.
pub fn add_trait_bounds(generics: Generics, bound: String) -> (r: Generics)
    ensures
        r.params@.len() == generics.params@.len(),
        forall|i: int|
            0 <= i < r.params@.len() ==> bounded(#[trigger] generics.params@[i], r.params@[i], bound),
{
    let mut out: Vec<GenericParam> = Vec::new();
    let mut i: usize = 0;
    while i < generics.params.len()
        invariant
            i <= generics.params@.len(),
            out@.len() == i,
            forall|j: int| 0 <= j < i ==> bounded(#[trigger] generics.params@[j], out@[j], bound),
        decreases generics.params@.len() - i,
    {
        let q = match &generics.params[i] {
            GenericParam::Type { name, bounds } => {
                let mut b = copy_texts(bounds);
                b.push(bound.clone());
                GenericParam::Type { name: name.clone(), bounds: b }
            },
            GenericParam::Lifetime(l) => GenericParam::Lifetime(l.clone()),
            GenericParam::Const(c) => GenericParam::Const(c.clone()),
        };
        out.push(q);
        i += 1;
    }
    Generics { params: out }
}

} // verus!

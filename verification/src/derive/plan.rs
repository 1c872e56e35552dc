//! What the derives do with each named field: the key it is read from and
//! written to, and how it is filled in when the key is missing.
use vstd::prelude::*;

use crate::derive::attribute::{Attribute, Field, FieldType};
use crate::derive::directives::{
    default_of, get_default, get_rename, get_rename_with, is_option, is_skip,
    option_type, rename_of, skip_of, DefaultExpr, SpecDefault,
};
use crate::rename::{cased, RenameRule};

verus! {

/// How a derived `Parse` fills in a field.
#[derive(Debug, PartialEq)]
pub enum FieldSource {
    /// Not read: the type's `Default`.
    Skipped,
    /// Read from its key where present, else this expression.
    Defaulted(DefaultExpr),
    /// Read from its key where present, else `None`.
    Optional,
    /// Read from its key, which must be present.
    Required,
}

/// The model of a [FieldSource].
pub enum SpecSource {
    Skipped,
    Defaulted(SpecDefault),
    Optional,
    Required,
}

impl View for FieldSource {
    type V = SpecSource;

    open spec fn view(&self) -> SpecSource {
        match self {
            FieldSource::Skipped => SpecSource::Skipped,
            FieldSource::Defaulted(e) => SpecSource::Defaulted(e@),
            FieldSource::Optional => SpecSource::Optional,
            FieldSource::Required => SpecSource::Required,
        }
    }
}

/// How a field with attributes `attrs` and type `ty` is filled in: skipped
/// fields first, then those with a default, then `Option` fields.
pub open spec fn source_of(attrs: Seq<Attribute>, ty: FieldType) -> Result<SpecSource, Seq<char>> {
    match skip_of(attrs) {
        Err(m) => Err(m),
        Ok(true) => Ok(SpecSource::Skipped),
        Ok(false) => match default_of(attrs, ty) {
            Err(m) => Err(m),
            Ok(Some(d)) => Ok(SpecSource::Defaulted(d)),
            Ok(None) => if option_type(ty) {
                Ok(SpecSource::Optional)
            } else {
                Ok(SpecSource::Required)
            },
        },
    }
}

/// Decide how the field `f` is read out of a map: a skipped field takes its type's default; a field with a default takes it
/// when the key is missing, as does an `Option` field with `None`; any
/// other field must be present.
///
/// # Errors
/// Those of [is_skip], then those of [get_default].
pub fn generate_field_parse(f: &Field) -> (r: Result<FieldSource, String>)
    ensures
        match source_of(f.attrs@, f.ty) {
            Ok(s) => r is Ok && r->Ok_0@ == s,
            Err(m) => r is Err && r->Err_0@ == m,
        },
{
    match is_skip(f.attrs.as_slice()) {
        Ok(true) => {
            return Ok(FieldSource::Skipped);
        },
        Ok(false) => {},
        Err(e) => {
            return Err(e);
        },
    }
    match get_default(f.attrs.as_slice(), &f.ty) {
        Ok(Some(expr)) => {
            return Ok(FieldSource::Defaulted(expr));
        },
        Ok(None) => {},
        Err(e) => {
            return Err(e);
        },
    }
    if is_option(&f.ty) {
        Ok(FieldSource::Optional)
    } else {
        Ok(FieldSource::Required)
    }
}

/// What a derived `Parse` reads for a field: its key and how it is filled
/// in.
#[derive(Debug, PartialEq)]
pub struct FieldRead {
    /// The key the field is read from.
    pub key: String,
    /// How the field is filled in.
    pub source: FieldSource,
}

/// The name of the field `f` of a struct whose `rename_all` rule is
/// `rename_all`, before its `rename` directives.
pub open spec fn fallback_name(f: Field, rename_all: Option<RenameRule>) -> Seq<char> {
    match rename_all {
        Some(rule) => cased(f.ident@, rule),
        None => f.ident@,
    }
}

/// What [struct_field_read] gives for the field `f`, its name falling back
/// to `fallback` where it has no `rename`.
pub open spec fn field_read_of(f: Field, fallback: Seq<char>) -> Result<(Seq<char>, SpecSource), Seq<char>> {
    match rename_of(f.attrs@, fallback) {
        Err(m) => Err(m),
        Ok(key) => match source_of(f.attrs@, f.ty) {
            Err(m) => Err(m),
            Ok(s) => Ok((key, s)),
        },
    }
}

/// Decide how a derived `Parse` reads the named field `f` of a struct whose
/// `rename_all` rule is `rename_all`: the key is its name as
/// [get_rename_with] gives it, and the way it is filled in as
/// [generate_field_parse] gives it.
///
/// # Errors
/// Those of [get_rename_with], then those of [generate_field_parse].
pub fn struct_field_read(f: &Field, rename_all: Option<RenameRule>) -> (r: Result<FieldRead, String>)
    ensures
        match field_read_of(*f, fallback_name(*f, rename_all)) {
            Ok((key, s)) => r is Ok && r->Ok_0.key@ == key && r->Ok_0.source@ == s,
            Err(m) => r is Err && r->Err_0@ == m,
        },
{
    let key = match get_rename_with(f.attrs.as_slice(), f.ident.as_str(), rename_all) {
        Ok(n) => n,
        Err(e) => {
            return Err(e);
        },
    };
    match generate_field_parse(f) {
        Ok(source) => Ok(FieldRead { key, source }),
        Err(e) => Err(e),
    }
}

/// Decide how a derived `Parse` reads the named field `f` of an enum
/// variant: as for a struct field, but the `rename_all` rule of the enum
/// does not apply to it.
///
/// # Errors
/// Those of [get_rename], then those of [generate_field_parse].
pub fn variant_field_read(f: &Field) -> (r: Result<FieldRead, String>)
    ensures
        match field_read_of(*f, f.ident@) {
            Ok((key, s)) => r is Ok && r->Ok_0.key@ == key && r->Ok_0.source@ == s,
            Err(m) => r is Err && r->Err_0@ == m,
        },
{
    let key = match get_rename(f.attrs.as_slice(), f.ident.clone()) {
        Ok(n) => n,
        Err(e) => {
            return Err(e);
        },
    };
    match generate_field_parse(f) {
        Ok(source) => Ok(FieldRead { key, source }),
        Err(e) => Err(e),
    }
}

/// The key a derived `Generate` writes the named field `f` of a struct
/// under, whose `rename_all` rule is `rename_all`: `None` for a skipped
/// field.
///
/// # Errors
/// Those of [get_rename_with], then those of [is_skip].
pub fn struct_field_key(f: &Field, rename_all: Option<RenameRule>) -> (r: Result<Option<String>, String>)
    ensures
        match rename_of(f.attrs@, fallback_name(*f, rename_all)) {
            Err(m) => r is Err && r->Err_0@ == m,
            Ok(key) => match skip_of(f.attrs@) {
                Err(m) => r is Err && r->Err_0@ == m,
                Ok(true) => r == Ok::<Option<String>, String>(None),
                Ok(false) => r is Ok && r->Ok_0 is Some && r->Ok_0->Some_0@ == key,
            },
        },
{
    let key = match get_rename_with(f.attrs.as_slice(), f.ident.as_str(), rename_all) {
        Ok(n) => n,
        Err(e) => {
            return Err(e);
        },
    };
    match is_skip(f.attrs.as_slice()) {
        Ok(true) => Ok(None),
        Ok(false) => Ok(Some(key)),
        Err(e) => Err(e),
    }
}

/// The key a derived `Generate` writes the named field `f` of an enum
/// variant under: `None` for a skipped field; the `rename_all` rule of the
/// enum does not apply to it.
///
/// # Errors
/// Those of [is_skip], then those of [get_rename].
pub fn variant_field_key(f: &Field) -> (r: Result<Option<String>, String>)
    ensures
        match skip_of(f.attrs@) {
            Err(m) => r is Err && r->Err_0@ == m,
            Ok(true) => r == Ok::<Option<String>, String>(None),
            Ok(false) => match rename_of(f.attrs@, f.ident@) {
                Err(m) => r is Err && r->Err_0@ == m,
                Ok(key) => r is Ok && r->Ok_0 is Some && r->Ok_0->Some_0@ == key,
            },
        },
{
    match is_skip(f.attrs.as_slice()) {
        Ok(true) => {
            return Ok(None);
        },
        Ok(false) => {},
        Err(e) => {
            return Err(e);
        },
    }
    match get_rename(f.attrs.as_slice(), f.ident.clone()) {
        Ok(n) => Ok(Some(n)),
        Err(e) => Err(e),
    }
}

} // verus!

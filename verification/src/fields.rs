//! Reading the fields of a Rust value out of an object, and writing them in,
//! as the impls that the `Parse` and `Generate` derives write do.
use vstd::prelude::*;

use crate::collections::{inserted, lookup, swap_removed, ObjectMap};
use crate::data::value::SpecValue;
use crate::error::{CastError, SpecCastError};
use crate::generable::Generable;
use crate::parseable::{outcome, Parseable};
use crate::text::string_from_chars;

verus! {

/// How the character `c` is written inside a string literal: `"`, `\` and
/// the line feed, carriage return, tab and nul characters are escaped with a
/// backslash.
pub open spec fn escaped_char(c: char) -> Seq<char> {
    if c == '"' {
        seq!['\\', '"']
    } else if c == '\\' {
        seq!['\\', '\\']
    } else if c == '\n' {
        seq!['\\', 'n']
    } else if c == '\r' {
        seq!['\\', 'r']
    } else if c == '\t' {
        seq!['\\', 't']
    } else if c == '\0' {
        seq!['\\', '0']
    } else {
        seq![c]
    }
}

/// The characters of `s` as written inside a string literal.
pub open spec fn escaped(s: Seq<char>) -> Seq<char>
    decreases s.len(),
{
    if s.len() == 0 {
        Seq::empty()
    } else {
        escaped(s.drop_last()) + escaped_char(s.last())
    }
}

/// The string literal of `s`, quotes included: how a missing field is named.
pub open spec fn quoted(s: Seq<char>) -> Seq<char> {
    seq!['"'] + escaped(s) + seq!['"']
}

/// Write `key` as a string literal.
fn quote_key(key: &str) -> (r: String)
    ensures
        r@ == quoted(key@),
{
    let mut out: Vec<char> = Vec::new();
    out.push('"');
    for c in it: key.chars()
        invariant
            it.seq() == key@,
            out@ == seq!['"'] + escaped(key@.subrange(0, it.index() as int)),
    {
        let ghost k = it.index() as int;
        let ghost before = out@;
        if c == '"' {
            out.push('\\');
            out.push('"');
        } else if c == '\\' {
            out.push('\\');
            out.push('\\');
        } else if c == '\n' {
            out.push('\\');
            out.push('n');
        } else if c == '\r' {
            out.push('\\');
            out.push('r');
        } else if c == '\t' {
            out.push('\\');
            out.push('t');
        } else if c == '\0' {
            out.push('\\');
            out.push('0');
        } else {
            out.push(c);
        }
        assert(out@ =~= before + escaped_char(c));
        assert(key@.subrange(0, k + 1).drop_last() =~= key@.subrange(0, k));
        assert(out@ =~= seq!['"'] + escaped(key@.subrange(0, k + 1)));
    }
    assert(key@.subrange(0, key@.len() as int) =~= key@);
    out.push('"');
    assert(out@ =~= quoted(key@));
    string_from_chars(out.as_slice())
}

/// Take the field `key` out of `map` and parse it.
///
/// # Errors
/// `FieldNotFound`, naming the key as a string literal, where `map` has no
/// such key; else the error of parsing its value.
pub fn take_field<T: Parseable>(map: &mut ObjectMap, key: &str) -> (r: Result<T, CastError>)
    ensures
        final(map)@ == swap_removed(old(map)@, key@),
        match lookup(old(map)@, key@) {
            Some(v) => T::parsed_from(v, outcome(r)),
            None => outcome(r) == Err::<T, SpecCastError>(SpecCastError::FieldNotFound(quoted(key@))),
        },
{
    match map.swap_remove(key) {
        Some(data) => T::parse(data),
        None => Err(CastError::FieldNotFound(quote_key(key))),
    }
}

/// Take the optional field `key` out of `map` and parse it: a missing key
/// reads as `None`, as does `void`.
///
/// # Errors
/// The error of parsing its value.
pub fn take_optional_field<T: Parseable>(map: &mut ObjectMap, key: &str) -> (r: Result<
    Option<T>,
    CastError,
>)
    ensures
        final(map)@ == swap_removed(old(map)@, key@),
        match lookup(old(map)@, key@) {
            Some(v) => Option::<T>::parsed_from(v, outcome(r)),
            None => r matches Ok(None),
        },
{
    match map.swap_remove(key) {
        Some(data) => Option::<T>::parse(data),
        None => Ok(None),
    }
}

/// Take the field `key` out of `map` and parse it, or give `default` where
/// `map` has no such key.
///
/// # Errors
/// The error of parsing its value.
pub fn take_field_or<T: Parseable>(map: &mut ObjectMap, key: &str, default: T) -> (r: Result<
    T,
    CastError,
>)
    ensures
        final(map)@ == swap_removed(old(map)@, key@),
        match lookup(old(map)@, key@) {
            Some(v) => T::parsed_from(v, outcome(r)),
            None => r == Ok::<T, CastError>(default),
        },
{
    match map.swap_remove(key) {
        Some(data) => T::parse(data),
        None => Ok(default),
    }
}

/// Write `value` into `map` under `key`: an existing key keeps its place and
/// takes the new value, a new key goes last.
pub fn put_field<T: Generable>(map: &mut ObjectMap, key: &str, value: T)
    ensures
        exists|v: SpecValue|
            {
                &&& final(map)@ == inserted(old(map)@, key@, v)
                &&& T::obeys_generated_spec() ==> v == value.generated()
            },
{
    let ghost g = value.generated();
    let data = value.generate();
    let ghost d = data@;
    map.insert(key.to_owned(), data);
    assert(map@ == inserted(old(map)@, key@, d) && (T::obeys_generated_spec() ==> d == g));
}

} // verus!

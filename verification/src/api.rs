//! Reading Rust values out of `Marquage` text.
use vstd::prelude::*;
use vstd::utf8::{decode_utf8, valid_utf8};

use crate::error::{CastError, Error, SpecError};
use crate::parse::{
    lexer::Lexer,
    parser::Parser,
    parsing::{parse_text, ParseStep},
};
use crate::parseable::Parseable;
use crate::text::{lemma_utf8_text, utf8_str};

verus! {

/// `r` is what reading a `T` out of the text `s` gives: the parse error, or
/// an outcome of parsing the value of the text into a `T`.
pub open spec fn read_from<T: Parseable>(s: Seq<char>, r: Result<T, Error>) -> bool {
    match parse_text(s) {
        ParseStep::Done(v, _, _) => match r {
            Ok(x) => T::parsed_from(v, Ok(x)),
            Err(Error::Cast(e)) => T::parsed_from(v, Err(e@)),
            Err(_) => false,
        },
        ParseStep::Fail(e) => r is Err && r->Err_0@ == SpecError::Parse(e),
        ParseStep::Stray => false,
    }
}

/// Parse from [str].
///
/// # Errors
/// [Error] will be returned when errors occur in parsing stage or type casting.
pub fn from_str<T: Parseable>(data: &str) -> (r: Result<T, Error>)
    requires
        data@.len() < usize::MAX,
    ensures
        read_from(data@, r),
{
    let lexer = Lexer::new(data);
    let parser = Parser::new(lexer);
    let value = match parser.parse() {
        Ok(v) => v,
        Err(e) => return Err(Error::Parse(e)),
    };
    match T::parse(value) {
        Ok(x) => Ok(x),
        Err(e) => Err(Error::Cast(e)),
    }
}

/// Parse from a [u8] slice.
///
/// # Errors
/// [Error] will be returned when errors occur in parsing stage, type casting or string building.
pub fn from_slice<T: Parseable>(data: &[u8]) -> (r: Result<T, Error>)
    requires
        valid_utf8(data@) ==> decode_utf8(data@).len() < usize::MAX,
    ensures
        valid_utf8(data@) ==> read_from(decode_utf8(data@), r),
        !valid_utf8(data@) ==> r is Err && r->Err_0@ == SpecError::InvalidSlice,
{
    match utf8_str(data) {
        Some(v) => {
            proof {
                lemma_utf8_text(v, data@);
            }
            from_str(v)
        },
        None => Err(Error::InvalidSlice),
    }
}

/// Parse from a [u8] slice that holds valid UTF-8 text.
///
/// # Errors
/// [Error] will be returned when errors occur in parsing stage and type casting.
pub fn from_slice_unchecked<T: Parseable>(data: &[u8]) -> (r: Result<T, Error>)
    requires
        valid_utf8(data@),
        decode_utf8(data@).len() < usize::MAX,
    ensures
        read_from(decode_utf8(data@), r),
{
    from_slice(data)
}

} // verus!

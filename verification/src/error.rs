//! Library error.
use vstd::prelude::*;

use crate::parse::error::{parser_error_text, ParserError, SpecParserError};
use crate::text::{push_str, string_from_chars};

verus! {

/// Type casting error.
///
/// Usually happens when [Value](crate::data::value::Value) converts to Rust data structures.
#[derive(Debug)]
pub enum CastError {
    /// Types are mismatched.
    IncompatibleType,
    /// Needed field is not found in a map collection.
    FieldNotFound(String),
}

/// The model of a [CastError].
pub enum SpecCastError {
    IncompatibleType,
    FieldNotFound(Seq<char>),
}

impl View for CastError {
    type V = SpecCastError;

    open spec fn view(&self) -> SpecCastError {
        match self {
            CastError::IncompatibleType => SpecCastError::IncompatibleType,
            CastError::FieldNotFound(f) => SpecCastError::FieldNotFound(f@),
        }
    }
}

/// The message of a casting error.
pub open spec fn cast_error_text(e: SpecCastError) -> Seq<char> {
    match e {
        SpecCastError::IncompatibleType => "Incompatible type"@,
        SpecCastError::FieldNotFound(field) => "Field "@ + field + " is not found"@,
    }
}

impl CastError {
    /// Append the message of the error to `out`.
    fn push_message(&self, out: &mut Vec<char>)
        ensures
            final(out)@ == old(out)@ + cast_error_text(self@),
    {
        let ghost before = out@;
        match self {
            CastError::IncompatibleType => push_str(out, "Incompatible type"),
            CastError::FieldNotFound(field) => {
                push_str(out, "Field ");
                push_str(out, field.as_str());
                push_str(out, " is not found");
            },
        }
        assert(out@ =~= before + cast_error_text(self@));
    }

    /// The message of the error.
    pub fn to_string(&self) -> (s: String)
        ensures
            s@ == cast_error_text(self@),
    {
        let mut out: Vec<char> = Vec::new();
        self.push_message(&mut out);
        assert(out@ =~= cast_error_text(self@));
        string_from_chars(out.as_slice())
    }
}

/// General library error.
#[derive(Debug)]
pub enum Error {
    /// Representing [CastError].
    Cast(CastError),
    /// Representing [ParserError].
    Parse(ParserError),
    /// A [u8] slice is an invalid UTF-8 string.
    InvalidSlice,
}

/// The model of an [Error].
pub enum SpecError {
    Cast(SpecCastError),
    Parse(SpecParserError),
    InvalidSlice,
}

impl View for Error {
    type V = SpecError;

    open spec fn view(&self) -> SpecError {
        match self {
            Error::Cast(c) => SpecError::Cast(c@),
            Error::Parse(p) => SpecError::Parse(p@),
            Error::InvalidSlice => SpecError::InvalidSlice,
        }
    }
}

/// The message of an error: that of the error it holds.
pub open spec fn error_text(e: SpecError) -> Seq<char> {
    match e {
        SpecError::Cast(c) => cast_error_text(c),
        SpecError::Parse(p) => parser_error_text(p),
        SpecError::InvalidSlice => "Slice is not a valid UTF-8 dataset"@,
    }
}

impl Error {
    /// The message of the error.
    pub fn to_string(&self) -> (s: String)
        ensures
            s@ == error_text(self@),
    {
        let mut out: Vec<char> = Vec::new();
        match self {
            Error::Cast(c) => c.push_message(&mut out),
            Error::Parse(p) => p.push_message(&mut out),
            Error::InvalidSlice => push_str(&mut out, "Slice is not a valid UTF-8 dataset"),
        }
        assert(out@ =~= error_text(self@));
        string_from_chars(out.as_slice())
    }
}

impl From<CastError> for Error {
    fn from(value: CastError) -> (r: Self) {
        Self::Cast(value)
    }
}

impl vstd::std_specs::convert::FromSpecImpl<CastError> for Error {
    open spec fn obeys_from_spec() -> bool {
        true
    }

    open spec fn from_spec(v: CastError) -> Error {
        Error::Cast(v)
    }
}

impl From<ParserError> for Error {
    fn from(value: ParserError) -> (r: Self) {
        Self::Parse(value)
    }
}

impl vstd::std_specs::convert::FromSpecImpl<ParserError> for Error {
    open spec fn obeys_from_spec() -> bool {
        true
    }

    open spec fn from_spec(v: ParserError) -> Error {
        Error::Parse(v)
    }
}

} // verus!

use vstd::prelude::*;

use crate::parse::error::{location_text, push_location};
use crate::parser::span::Span;
use crate::text::{push_str, string_from_chars};

verus! {

/// An error met while lexing, pointing into the text it was met in.
#[derive(Debug)]
pub enum LexerError<'a> {
    UnexpectedLiteral { literal: &'a str, span: Span },
    NonNumberAfterDot { span: Span },
    UnexpectedInterruption,
    UnexpectedNewline { span: Span },
    IncompleteEscape { span: Span },
    UndefinedEscape { span: Span },
}

/// The message of a lexing error.
pub open spec fn legacy_error_text(e: LexerError) -> Seq<char> {
    match e {
        LexerError::UnexpectedLiteral { literal, span } => "Unexpected literal "@ + literal@
            + " occurred in "@ + location_text(span.start),
        LexerError::NonNumberAfterDot { span } => "Non number after a dot occurred in "@
            + location_text(span.start),
        LexerError::UnexpectedInterruption => "Unexpected interruption occurred"@,
        LexerError::UnexpectedNewline { span } => "Unexpected newline occurred in "@
            + location_text(span.start),
        LexerError::IncompleteEscape { span } => "Incomplete escape occurred in "@ + location_text(
            span.start,
        ),
        LexerError::UndefinedEscape { span } => "Undefined escape occurred in "@ + location_text(
            span.start,
        ),
    }
}

impl<'a> LexerError<'a> {
    /// The message of the error.
    pub fn to_string(&self) -> (s: String)
        ensures
            s@ == legacy_error_text(*self),
    {
        let mut out: Vec<char> = Vec::new();
        match self {
            LexerError::UnexpectedLiteral { literal, span } => {
                push_str(&mut out, "Unexpected literal ");
                push_str(&mut out, literal);
                push_str(&mut out, " occurred in ");
                push_location(&mut out, span.start);
            },
            LexerError::NonNumberAfterDot { span } => {
                push_str(&mut out, "Non number after a dot occurred in ");
                push_location(&mut out, span.start);
            },
            LexerError::UnexpectedInterruption => {
                push_str(&mut out, "Unexpected interruption occurred");
            },
            LexerError::UnexpectedNewline { span } => {
                push_str(&mut out, "Unexpected newline occurred in ");
                push_location(&mut out, span.start);
            },
            LexerError::IncompleteEscape { span } => {
                push_str(&mut out, "Incomplete escape occurred in ");
                push_location(&mut out, span.start);
            },
            LexerError::UndefinedEscape { span } => {
                push_str(&mut out, "Undefined escape occurred in ");
                push_location(&mut out, span.start);
            },
        }
        assert(out@ =~= legacy_error_text(*self));
        string_from_chars(out.as_slice())
    }
}

} // verus!

use vstd::prelude::*;

use crate::parser::position::Position;
use crate::parse::{
    literal::{literal_text, push_literal, Literal, SpecLiteral},
    span::Span,
};
use crate::text::{decimal_text, push_decimal, push_str, string_from_chars};

verus! {

/// An error met while lexing.
#[derive(Debug)]
pub enum LexerError {
    UnexpectedLiteral { literal: String, span: Span },
    NonNumberAfterDot { span: Span },
    UnexpectedInterruption,
    UnexpectedNewline { span: Span },
    IncompleteEscape { span: Span },
    UndefinedEscape { span: Span },
}

/// The model of a [LexerError].
pub enum SpecLexerError {
    UnexpectedLiteral { literal: Seq<char>, span: Span },
    NonNumberAfterDot { span: Span },
    UnexpectedInterruption,
    UnexpectedNewline { span: Span },
    IncompleteEscape { span: Span },
    UndefinedEscape { span: Span },
}

impl View for LexerError {
    type V = SpecLexerError;

    open spec fn view(&self) -> SpecLexerError {
        match self {
            LexerError::UnexpectedLiteral { literal, span } => SpecLexerError::UnexpectedLiteral {
                literal: literal@,
                span: *span,
            },
            LexerError::NonNumberAfterDot { span } => SpecLexerError::NonNumberAfterDot {
                span: *span,
            },
            LexerError::UnexpectedInterruption => SpecLexerError::UnexpectedInterruption,
            LexerError::UnexpectedNewline { span } => SpecLexerError::UnexpectedNewline {
                span: *span,
            },
            LexerError::IncompleteEscape { span } => SpecLexerError::IncompleteEscape {
                span: *span,
            },
            LexerError::UndefinedEscape { span } => SpecLexerError::UndefinedEscape {
                span: *span,
            },
        }
    }
}

/// An error met while parsing.
#[derive(Debug)]
pub enum ParserError {
    LexingError(LexerError),
    ExpectKey(Literal, Span),
    ExpectValue(Literal, Span),
    ExpectBrace(Literal, Span),
    ExpectEqual(Literal, Span),
    ExpectSemicolon(Literal, Span),
    ExpectCommaOrCloseBracket(Literal, Span),
    UnexpectedCloseBrace(Span),
}

/// The model of a [ParserError].
pub enum SpecParserError {
    LexingError(SpecLexerError),
    ExpectKey(SpecLiteral, Span),
    ExpectValue(SpecLiteral, Span),
    ExpectBrace(SpecLiteral, Span),
    ExpectEqual(SpecLiteral, Span),
    ExpectSemicolon(SpecLiteral, Span),
    ExpectCommaOrCloseBracket(SpecLiteral, Span),
    UnexpectedCloseBrace(Span),
}

impl View for ParserError {
    type V = SpecParserError;

    open spec fn view(&self) -> SpecParserError {
        match self {
            ParserError::LexingError(e) => SpecParserError::LexingError(e@),
            ParserError::ExpectKey(l, s) => SpecParserError::ExpectKey(l@, *s),
            ParserError::ExpectValue(l, s) => SpecParserError::ExpectValue(l@, *s),
            ParserError::ExpectBrace(l, s) => SpecParserError::ExpectBrace(l@, *s),
            ParserError::ExpectEqual(l, s) => SpecParserError::ExpectEqual(l@, *s),
            ParserError::ExpectSemicolon(l, s) => SpecParserError::ExpectSemicolon(l@, *s),
            ParserError::ExpectCommaOrCloseBracket(l, s) => SpecParserError::ExpectCommaOrCloseBracket(
                l@,
                *s,
            ),
            ParserError::UnexpectedCloseBrace(s) => SpecParserError::UnexpectedCloseBrace(*s),
        }
    }
}

impl From<LexerError> for ParserError {
    fn from(value: LexerError) -> (r: Self) {
        Self::LexingError(value)
    }
}

impl vstd::std_specs::convert::FromSpecImpl<LexerError> for ParserError {
    open spec fn obeys_from_spec() -> bool {
        true
    }

    open spec fn from_spec(v: LexerError) -> ParserError {
        ParserError::LexingError(v)
    }
}

/// A position as shown in messages: `line L, column C`.
pub open spec fn location_text(p: Position) -> Seq<char> {
    "line "@ + decimal_text(p.0 as nat) + ", column "@ + decimal_text(p.1 as nat)
}

/// Append the position `p` to `out`.
pub(crate) fn push_location(out: &mut Vec<char>, p: Position)
    ensures
        final(out)@ == old(out)@ + location_text(p),
{
    let ghost before = out@;
    push_str(out, "line ");
    push_decimal(out, p.0 as u64);
    push_str(out, ", column ");
    push_decimal(out, p.1 as u64);
    assert(out@ =~= before + location_text(p));
}

/// The message of a lexing error.
pub open spec fn lexer_error_text(e: SpecLexerError) -> Seq<char> {
    match e {
        SpecLexerError::UnexpectedLiteral { literal, span } => "Unexpected literal "@ + literal
            + " occurred in "@ + location_text(span.start),
        SpecLexerError::NonNumberAfterDot { span } => "Non number after a dot occurred in "@
            + location_text(span.start),
        SpecLexerError::UnexpectedInterruption => "Unexpected interruption occurred"@,
        SpecLexerError::UnexpectedNewline { span } => "Unexpected newline occurred in "@
            + location_text(span.start),
        SpecLexerError::IncompleteEscape { span } => "Incomplete escape occurred in "@
            + location_text(span.start),
        SpecLexerError::UndefinedEscape { span } => "Undefined escape occurred in "@
            + location_text(span.start),
    }
}

/// The message of a parsing error. A lexing error keeps its own message.
pub open spec fn parser_error_text(e: SpecParserError) -> Seq<char> {
    match e {
        SpecParserError::LexingError(e) => lexer_error_text(e),
        SpecParserError::ExpectKey(l, s) => "Expect a key, but found "@ + literal_text(l) + " in "@
            + location_text(s.start) + " "@,
        SpecParserError::ExpectValue(l, s) => "Expect a key, but found "@ + literal_text(l)
            + " in "@ + location_text(s.start),
        SpecParserError::ExpectBrace(l, s) => "Expect a close brace, but found "@ + literal_text(l)
            + " in "@ + location_text(s.start),
        SpecParserError::ExpectEqual(l, s) => "Expect an equal mark, but found "@ + literal_text(l)
            + " in "@ + location_text(s.start),
        SpecParserError::ExpectSemicolon(l, s) => "Expect a semicolon, but found "@ + literal_text(
            l,
        ) + " in "@ + location_text(s.start),
        SpecParserError::ExpectCommaOrCloseBracket(l, s) => "Expect a comma or close bracket, but found "@
            + literal_text(l) + " in "@ + location_text(s.start),
        SpecParserError::UnexpectedCloseBrace(s) => "Unexpected brace in "@ + location_text(s.start),
    }
}

impl LexerError {
    /// Append the message of the error to `out`.
    pub(crate) fn push_message(&self, out: &mut Vec<char>)
        ensures
            final(out)@ == old(out)@ + lexer_error_text(self@),
    {
        let ghost before = out@;
        match self {
            LexerError::UnexpectedLiteral { literal, span } => {
                push_str(out, "Unexpected literal ");
                push_str(out, literal.as_str());
                push_str(out, " occurred in ");
                push_location(out, span.start);
            },
            LexerError::NonNumberAfterDot { span } => {
                push_str(out, "Non number after a dot occurred in ");
                push_location(out, span.start);
            },
            LexerError::UnexpectedInterruption => {
                push_str(out, "Unexpected interruption occurred");
            },
            LexerError::UnexpectedNewline { span } => {
                push_str(out, "Unexpected newline occurred in ");
                push_location(out, span.start);
            },
            LexerError::IncompleteEscape { span } => {
                push_str(out, "Incomplete escape occurred in ");
                push_location(out, span.start);
            },
            LexerError::UndefinedEscape { span } => {
                push_str(out, "Undefined escape occurred in ");
                push_location(out, span.start);
            },
        }
        assert(out@ =~= before + lexer_error_text(self@));
    }

    /// The message of the error.
    pub fn to_string(&self) -> (s: String)
        ensures
            s@ == lexer_error_text(self@),
    {
        let mut out: Vec<char> = Vec::new();
        self.push_message(&mut out);
        assert(out@ =~= lexer_error_text(self@));
        string_from_chars(out.as_slice())
    }
}

/// Append `prefix`, the literal `l` and where `s` starts to `out`.
fn push_found(out: &mut Vec<char>, prefix: &str, l: &Literal, s: &Span)
    ensures
        final(out)@ == old(out)@ + (prefix@ + literal_text(l@) + " in "@ + location_text(s.start)),
{
    let ghost before = out@;
    push_str(out, prefix);
    push_literal(out, l);
    push_str(out, " in ");
    push_location(out, s.start);
    assert(out@ =~= before + (prefix@ + literal_text(l@) + " in "@ + location_text(s.start)));
}

impl ParserError {
    /// Append the message of the error to `out`.
    pub(crate) fn push_message(&self, out: &mut Vec<char>)
        ensures
            final(out)@ == old(out)@ + parser_error_text(self@),
    {
        let ghost before = out@;
        match self {
            ParserError::LexingError(e) => e.push_message(out),
            ParserError::ExpectKey(l, s) => {
                push_found(out, "Expect a key, but found ", l, s);
                push_str(out, " ");
            },
            ParserError::ExpectValue(l, s) => push_found(out, "Expect a key, but found ", l, s),
            ParserError::ExpectBrace(l, s) => push_found(out, "Expect a close brace, but found ", l, s),
            ParserError::ExpectEqual(l, s) => push_found(out, "Expect an equal mark, but found ", l, s),
            ParserError::ExpectSemicolon(l, s) => push_found(out, "Expect a semicolon, but found ", l, s),
            ParserError::ExpectCommaOrCloseBracket(l, s) => push_found(
                out,
                "Expect a comma or close bracket, but found ",
                l,
                s,
            ),
            ParserError::UnexpectedCloseBrace(s) => {
                push_str(out, "Unexpected brace in ");
                push_location(out, s.start);
            },
        }
        assert(out@ =~= before + parser_error_text(self@));
    }

    /// The message of the error.
    pub fn to_string(&self) -> (s: String)
        ensures
            s@ == parser_error_text(self@),
    {
        let mut out: Vec<char> = Vec::new();
        self.push_message(&mut out);
        assert(out@ =~= parser_error_text(self@));
        string_from_chars(out.as_slice())
    }
}

} // verus!

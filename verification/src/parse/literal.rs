use vstd::prelude::*;

use crate::text::{decimal_text, push_decimal, push_signed_decimal, push_str, signed_decimal_text, string_from_chars};

verus! {

/// A lexeme of `Marquage`.
///
/// A float literal is kept as its text as written (`1.5`, `-0.25`).
#[derive(Debug, PartialEq, Clone)]
pub enum Literal {
    Void,
    RawString(String),
    QuotedString(String),
    Boolean(bool),
    FloatNumber(String),
    UnsignedIntegerNumber(u32),
    SignedIntegerNumber(i32),
    OpenBrace,
    CloseBrace,
    OpenParen,
    CloseParen,
    OpenBracket,
    CloseBracket,
    Semicolon,
    Comma,
    At,
    Equal,
    Comment(String),
    End,
}

/// The model of a [Literal], with texts as character sequences.
pub enum SpecLiteral {
    Void,
    RawString(Seq<char>),
    QuotedString(Seq<char>),
    Boolean(bool),
    FloatNumber(Seq<char>),
    UnsignedIntegerNumber(u32),
    SignedIntegerNumber(i32),
    OpenBrace,
    CloseBrace,
    OpenParen,
    CloseParen,
    OpenBracket,
    CloseBracket,
    Semicolon,
    Comma,
    At,
    Equal,
    Comment(Seq<char>),
    End,
}

impl View for Literal {
    type V = SpecLiteral;

    open spec fn view(&self) -> SpecLiteral {
        match self {
            Literal::Void => SpecLiteral::Void,
            Literal::RawString(s) => SpecLiteral::RawString(s@),
            Literal::QuotedString(s) => SpecLiteral::QuotedString(s@),
            Literal::Boolean(b) => SpecLiteral::Boolean(*b),
            Literal::FloatNumber(s) => SpecLiteral::FloatNumber(s@),
            Literal::UnsignedIntegerNumber(n) => SpecLiteral::UnsignedIntegerNumber(*n),
            Literal::SignedIntegerNumber(n) => SpecLiteral::SignedIntegerNumber(*n),
            Literal::OpenBrace => SpecLiteral::OpenBrace,
            Literal::CloseBrace => SpecLiteral::CloseBrace,
            Literal::OpenParen => SpecLiteral::OpenParen,
            Literal::CloseParen => SpecLiteral::CloseParen,
            Literal::OpenBracket => SpecLiteral::OpenBracket,
            Literal::CloseBracket => SpecLiteral::CloseBracket,
            Literal::Semicolon => SpecLiteral::Semicolon,
            Literal::Comma => SpecLiteral::Comma,
            Literal::At => SpecLiteral::At,
            Literal::Equal => SpecLiteral::Equal,
            Literal::Comment(s) => SpecLiteral::Comment(s@),
            Literal::End => SpecLiteral::End,
        }
    }
}

/// How a literal is shown in messages.
pub open spec fn literal_text(l: SpecLiteral) -> Seq<char> {
    match l {
        SpecLiteral::At => "@"@,
        SpecLiteral::Boolean(b) => if b {
            "true"@
        } else {
            "false"@
        },
        SpecLiteral::CloseBrace => "}"@,
        SpecLiteral::CloseBracket => "]"@,
        SpecLiteral::CloseParen => ")"@,
        SpecLiteral::Comma => ","@,
        SpecLiteral::Comment(c) => c,
        SpecLiteral::End => "<END OF LINE>"@,
        SpecLiteral::Equal => "="@,
        SpecLiteral::FloatNumber(t) => t,
        SpecLiteral::OpenBrace => "{"@,
        SpecLiteral::OpenBracket => "["@,
        SpecLiteral::OpenParen => "("@,
        SpecLiteral::QuotedString(s) => s,
        SpecLiteral::RawString(s) => s,
        SpecLiteral::Semicolon => ";"@,
        SpecLiteral::SignedIntegerNumber(n) => signed_decimal_text(n as int),
        SpecLiteral::UnsignedIntegerNumber(n) => decimal_text(n as nat),
        SpecLiteral::Void => "void"@,
    }
}

/// Append how `l` is shown in messages to `out`.
pub(crate) fn push_literal(out: &mut Vec<char>, l: &Literal)
    ensures
        final(out)@ == old(out)@ + literal_text(l@),
{
    match l {
        Literal::At => push_str(out, "@"),
        Literal::Boolean(b) => if *b {
            push_str(out, "true")
        } else {
            push_str(out, "false")
        },
        Literal::CloseBrace => push_str(out, "}"),
        Literal::CloseBracket => push_str(out, "]"),
        Literal::CloseParen => push_str(out, ")"),
        Literal::Comma => push_str(out, ","),
        Literal::Comment(c) => push_str(out, c.as_str()),
        Literal::End => push_str(out, "<END OF LINE>"),
        Literal::Equal => push_str(out, "="),
        Literal::FloatNumber(t) => push_str(out, t.as_str()),
        Literal::OpenBrace => push_str(out, "{"),
        Literal::OpenBracket => push_str(out, "["),
        Literal::OpenParen => push_str(out, "("),
        Literal::QuotedString(s) => push_str(out, s.as_str()),
        Literal::RawString(s) => push_str(out, s.as_str()),
        Literal::Semicolon => push_str(out, ";"),
        Literal::SignedIntegerNumber(n) => push_signed_decimal(out, *n),
        Literal::UnsignedIntegerNumber(n) => push_decimal(out, *n as u64),
        Literal::Void => push_str(out, "void"),
    }
}

impl Literal {
    /// How the literal is shown in messages: its text, `<END OF LINE>` for
    /// the end of the text.
    pub fn to_string(&self) -> (s: String)
        ensures
            s@ == literal_text(self@),
    {
        let mut out: Vec<char> = Vec::new();
        push_literal(&mut out, self);
        proof {
            assert(out@ =~= literal_text(self@));
        }
        string_from_chars(out.as_slice())
    }

    pub fn is_end(&self) -> (r: bool)
        ensures
            r == (self is End),
    {
        matches!(self, Self::End)
    }

    pub fn is_raw_string(&self) -> (r: bool)
        ensures
            r == (self is RawString),
    {
        matches!(self, Self::RawString(..))
    }

    /// The text of a raw or quoted string.
    pub fn get_string(self) -> (r: Option<String>)
        ensures
            r == (match self {
                Literal::RawString(s) => Some(s),
                Literal::QuotedString(s) => Some(s),
                _ => None,
            }),
    {
        match self {
            Self::RawString(s) => Some(s),
            Self::QuotedString(s) => Some(s),
            _ => None,
        }
    }

    pub fn is_quoted_string(&self) -> (r: bool)
        ensures
            r == (self is QuotedString),
    {
        matches!(self, Literal::QuotedString(..))
    }

    pub fn is_unsigned_int(&self) -> (r: bool)
        ensures
            r == (self is UnsignedIntegerNumber),
    {
        matches!(self, Self::UnsignedIntegerNumber(_))
    }

    pub fn is_signed_int(&self) -> (r: bool)
        ensures
            r == (self is SignedIntegerNumber),
    {
        matches!(self, Self::SignedIntegerNumber(_))
    }

    pub fn is_float(&self) -> (r: bool)
        ensures
            r == (self is FloatNumber),
    {
        matches!(self, Self::FloatNumber(_))
    }

    pub fn is_boolean(&self) -> (r: bool)
        ensures
            r == (self is Boolean),
    {
        matches!(self, Self::Boolean(_))
    }

    pub fn is_void(&self) -> (r: bool)
        ensures
            r == (self is Void),
    {
        matches!(self, Self::Void)
    }

    pub fn is_semicolon(&self) -> (r: bool)
        ensures
            r == (self is Semicolon),
    {
        matches!(self, Self::Semicolon)
    }

    pub fn is_equal(&self) -> (r: bool)
        ensures
            r == (self is Equal),
    {
        matches!(self, Self::Equal)
    }

    pub fn is_open_brace(&self) -> (r: bool)
        ensures
            r == (self is OpenBrace),
    {
        matches!(self, Self::OpenBrace)
    }

    pub fn is_close_brace(&self) -> (r: bool)
        ensures
            r == (self is CloseBrace),
    {
        matches!(self, Self::CloseBrace)
    }

    pub fn is_open_bracket(&self) -> (r: bool)
        ensures
            r == (self is OpenBracket),
    {
        matches!(self, Self::OpenBracket)
    }

    pub fn is_close_bracket(&self) -> (r: bool)
        ensures
            r == (self is CloseBracket),
    {
        matches!(self, Self::CloseBracket)
    }

    pub fn is_open_paren(&self) -> (r: bool)
        ensures
            r == (self is OpenParen),
    {
        matches!(self, Self::OpenParen)
    }

    pub fn is_close_paren(&self) -> (r: bool)
        ensures
            r == (self is CloseParen),
    {
        matches!(self, Self::CloseParen)
    }

    pub fn is_comma(&self) -> (r: bool)
        ensures
            r == (self is Comma),
    {
        matches!(self, Self::Comma)
    }

    pub fn is_at(&self) -> (r: bool)
        ensures
            r == (self is At),
    {
        matches!(self, Self::At)
    }

    pub fn is_comment(&self) -> (r: bool)
        ensures
            r == (self is Comment),
    {
        matches!(self, Self::Comment(_))
    }
}

} // verus!

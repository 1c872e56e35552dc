use vstd::prelude::*;

use crate::parse::{literal::{Literal, SpecLiteral}, span::Span};

verus! {

/// Containing a literal and a span.
#[derive(Debug)]
pub struct Token(Literal, Span);

impl View for Token {
    type V = (SpecLiteral, Span);

    closed spec fn view(&self) -> (SpecLiteral, Span) {
        (self.0@, self.1)
    }
}

impl Token {
    /// Create a new token.
    pub fn new(literal: Literal, span: Span) -> (t: Self)
        ensures
            t@ == (literal@, span),
    {
        Self(literal, span)
    }

    /// Get the ref of literal.
    pub fn get_literal_ref(&self) -> (r: &Literal)
        ensures
            r@ == self@.0,
    {
        &self.0
    }

    /// Get the literal.
    pub fn get_literal(self) -> (r: Literal)
        ensures
            r@ == self@.0,
    {
        self.0
    }

    /// Get span.
    pub fn get_span(&self) -> (r: Span)
        ensures
            r == self@.1,
    {
        self.1
    }

    /// Consume this token and split it into (literal, span).
    pub fn split(self) -> (r: (Literal, Span))
        ensures
            r.0@ == self@.0,
            r.1 == self@.1,
    {
        (self.0, self.1)
    }
}

} // verus!

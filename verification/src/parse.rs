//! Convert a string to [Value](crate::data::value::Value).
pub mod error;
pub mod lexer;
pub mod lexing;
pub mod literal;
pub mod parser;
pub mod parsing;
pub mod span;
pub mod token;

pub use lexer::Lexer;
pub use literal::Literal;
pub use parser::Parser;

pub use span::Span;
pub use token::Token;

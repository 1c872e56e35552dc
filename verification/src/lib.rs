//! Marquage: a small, readable markup language, with a verified lexer,
//! parser and pretty generator.
pub mod api;
pub mod collections;
pub mod data;
pub mod derive;
pub mod error;
pub mod fields;
pub mod generable;
pub mod generate;
pub mod parse;
pub mod parseable;
pub mod parser;
pub mod rename;

pub mod text;

pub use generable::Generable;
pub use parseable::Parseable;
pub use api::{from_slice, from_slice_unchecked, from_str};

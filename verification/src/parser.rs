//! Character-level building blocks of the lexers: positions, source maps,
//! spans and cursors.
pub mod error;
pub mod position;
pub mod source_map;
pub mod span;
pub mod str_cursor;
pub mod lexer;

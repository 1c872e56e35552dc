# marquage

Marquage is a small, readable markup language: entries `key = value;`,
quoted and raw strings, integers, floats, booleans, `void`, arrays and
objects, and `#` comments.

```marquage
name = "Alice";
age = 20;
tags = [rust, "markup",];
address = {
  city = Paris;
}
```

This crate is the library: a lexer, a parser, a pretty generator, and the
traits that read Rust values out of a parsed value (`Parseable`) and turn
Rust values into one (`Generable`). Each of them is written in Verus and
proved against a contract:

- `src/parse/lexing.rs` and `src/parse/parsing.rs` state, as functions over
  the characters of a text, what lexing and parsing give; the lexer
  (`src/parse/lexer.rs`) and the parser (`src/parse/parser.rs`) are proved to
  give exactly that.
- `src/generate/generator.rs` states the text a value is written as; the
  pretty generator (`src/generate/generators.rs`) is proved to write it.
- `src/collections.rs` holds the ordered map of an object, kept in an
  `indexmap::IndexMap`.
- `src/parser/` holds the character-level pieces: positions, source maps,
  spans and a cursor over the characters of a text with their byte offsets.
- `src/rename.rs` holds the case rules of `rename_all`.
- `src/derive/` holds what the `Parse` and `Generate` derives decide for a
  type, over plain-value models of the attributes and field types they read:
  the `#[marquage(rename, rename_all, skip, default)]` directives, the key of
  each field and how a field left out of the text is filled in;
  `src/derive/bare.rs` reads `rename` and `default` written as attributes of
  their own (`#[rename = "..."]`, `#[default(value = ...)]`), and
  `src/derive/variants.rs` chooses which variant of an enum a value is read
  as.
- `src/fields.rs` reads fields out of an object and writes them in, as the
  impls written by those derives do.
- `src/generate/round_trip.rs` proves that what the pretty generator writes
  for an object parses back into that object, for objects and arrays of
  plain values nested to any depth (plain words as keys; numbers that are
  unsigned or negative, booleans, `void`, strings that need no escape).

An integer literal that does not fit its type (an unsigned one above
`u32::MAX`, a negative one below `i32::MIN`), and a minus sign with no digit
after it, are reported as a lexing error (`UnexpectedLiteral`, with the whole
literal and its span), like any other literal the lexer cannot read.

Configuration files are read with `from_str` (or `from_file` in `app/`) like
any other text. There is no separate `Config` reader for a `key value;` form
without `=`: that form is not part of the grammar, which asks for `=` in
every entry.

A key defined more than once is collected into an array of all its values,
in order, so that `tag = a; tag = b;` reads as a vector of two tags, while a
key defined once keeps its own value.

Floats are kept as the text they are written with; `app/` reads them as
`f32`, reads files, and offers a `marquage!` macro that builds values.

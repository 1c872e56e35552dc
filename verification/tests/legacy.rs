use marquage::parser::error::LexerError;
use marquage::parser::lexer::Lexer;
use marquage::parser::position::Position;
use marquage::parser::span::Span;
use marquage::parser::str_cursor::StrCursor;

#[test]
fn str_cursor_gives_characters_with_byte_offsets() {
    let mut c = StrCursor::new("aé b");
    assert_eq!(c.advance_with_offsets(), Some(("a", (0, 1))));
    assert_eq!(c.advance_with_offsets(), Some(("é", (1, 3))));
    assert_eq!(c.advance(), Some(" "));
    assert!(!c.is_end());
    assert_eq!(c.advance_with_offsets(), Some(("b", (4, 5))));
    assert!(c.is_end());
    assert_eq!(c.advance_with_offsets(), None);
}

#[test]
fn str_cursor_on_empty_text() {
    let mut c = StrCursor::new("");
    assert!(c.is_end());
    assert_eq!(c.advance(), None);
}

#[test]
fn lexer_skips_blanks() {
    let mut l = Lexer::new(" \t\rx y");
    assert_eq!(l.skipping_advance(), Some(("x", (3, 4))));
    assert_eq!(l.advance(), Some((" ", (4, 5))));
    assert_eq!(l.skipping_advance(), Some(("y", (5, 6))));
    assert_eq!(l.skipping_advance(), None);
}

#[test]
fn lexer_on_blank_text() {
    let mut l = Lexer::new("  \t");
    assert_eq!(l.skipping_advance(), None);
}

#[test]
fn span_combines_when_the_first_reaches_the_second() {
    let mut a = Span::new(Position(1, 1), Position(1, 3), (0, 2));
    let b = Span::new(Position(1, 2), Position(1, 6), (1, 5));
    let c = a.combine(&b).unwrap();
    assert_eq!(c.start, Position(1, 1));
    assert_eq!(c.end, Position(1, 6));
    assert_eq!(c.offsets, (0, 5));
    let mut late = Span::new(Position(2, 1), Position(2, 2), (9, 10));
    assert!(late.combine(&a).is_some());
    assert!(a.combine(&late).is_none());
}

#[test]
fn legacy_error_messages() {
    let span = Span::new(Position(3, 2), Position(3, 3), (5, 6));
    assert_eq!(
        LexerError::UnexpectedLiteral { literal: "@", span }.to_string(),
        "Unexpected literal @ occurred in line 3, column 2"
    );
    assert_eq!(LexerError::UnexpectedInterruption.to_string(), "Unexpected interruption occurred");
    assert_eq!(
        LexerError::UndefinedEscape { span }.to_string(),
        "Undefined escape occurred in line 3, column 2"
    );
}

use marquage::parse::error::LexerError;
use marquage::parse::lexer::Lexer;
use marquage::parse::literal::Literal;
use marquage::parse::span::Span;
use marquage::parser::position::Position;

/// Lex every token of `text` up to its end, or to the first error.
fn tokens(text: &str) -> Result<Vec<(Literal, Span)>, LexerError> {
    let mut lexer = Lexer::new(text);
    let mut out = Vec::new();
    loop {
        let (literal, span) = lexer.lex()?.split();
        let end = literal == Literal::End;
        out.push((literal, span));
        if end {
            return Ok(out);
        }
    }
}

fn literals(text: &str) -> Vec<Literal> {
    tokens(text).unwrap().into_iter().map(|(l, _)| l).collect()
}

#[test]
fn lexes_an_entry_with_positions() {
    let toks = tokens("a = 1;").unwrap();
    assert_eq!(
        toks,
        vec![
            (Literal::RawString("a".to_string()), Span::new(Position(1, 1), Position(1, 2), (0, 1))),
            (Literal::Equal, Span::new(Position(1, 3), Position(1, 4), (2, 3))),
            (Literal::UnsignedIntegerNumber(1), Span::new(Position(1, 5), Position(1, 6), (4, 5))),
            (Literal::Semicolon, Span::new(Position(1, 6), Position(1, 7), (5, 6))),
            (Literal::End, Span::new(Position(1, 7), Position(1, 7), (0, 0))),
        ]
    );
}

#[test]
fn lexes_keywords_only_at_a_boundary() {
    assert_eq!(
        literals("true false void truex voi"),
        vec![
            Literal::Boolean(true),
            Literal::Boolean(false),
            Literal::Void,
            Literal::RawString("truex".to_string()),
            Literal::RawString("voi".to_string()),
            Literal::End,
        ]
    );
}

#[test]
fn lexes_numbers() {
    assert_eq!(
        literals("42 -7 1.5 -0.25 1.x 4294967295 -2147483648"),
        vec![
            Literal::UnsignedIntegerNumber(42),
            Literal::SignedIntegerNumber(-7),
            Literal::FloatNumber("1.5".to_string()),
            Literal::FloatNumber("-0.25".to_string()),
            Literal::RawString("1.x".to_string()),
            Literal::UnsignedIntegerNumber(4294967295),
            Literal::SignedIntegerNumber(-2147483648),
            Literal::End,
        ]
    );
}

#[test]
fn lexes_punctuation() {
    assert_eq!(
        literals("{}[](),;="),
        vec![
            Literal::OpenBrace,
            Literal::CloseBrace,
            Literal::OpenBracket,
            Literal::CloseBracket,
            Literal::OpenParen,
            Literal::CloseParen,
            Literal::Comma,
            Literal::Semicolon,
            Literal::Equal,
            Literal::End,
        ]
    );
}

#[test]
fn quoted_strings_read_escapes() {
    assert_eq!(
        literals(r#""a\nb\tc\rd" "plain""#),
        vec![
            Literal::QuotedString("a\nb\tc\rd".to_string()),
            Literal::QuotedString("plain".to_string()),
            Literal::End,
        ]
    );
}

#[test]
fn comments_are_skipped() {
    assert_eq!(
        literals("# a comment\nkey # another\n= 1;"),
        vec![
            Literal::RawString("key".to_string()),
            Literal::Equal,
            Literal::UnsignedIntegerNumber(1),
            Literal::Semicolon,
            Literal::End,
        ]
    );
}

#[test]
fn newlines_move_to_the_next_line() {
    let toks = tokens("a\n  b").unwrap();
    assert_eq!(toks[1].1, Span::new(Position(2, 3), Position(2, 4), (4, 5)));
}

#[test]
fn unterminated_string_is_an_interruption() {
    assert!(matches!(tokens("\"abc"), Err(LexerError::UnexpectedInterruption)));
}

#[test]
fn newline_inside_a_string_is_rejected() {
    match tokens("\"ab\ncd\"") {
        Err(LexerError::UnexpectedNewline { span }) => {
            assert_eq!(span.start, Position(1, 1));
        },
        other => panic!("expected `UnexpectedNewline`, got {other:?}"),
    }
}

#[test]
fn unknown_escape_is_rejected() {
    assert!(matches!(tokens(r#""a\qb""#), Err(LexerError::UndefinedEscape { .. })));
}

#[test]
fn open_mark_inside_a_raw_string_is_rejected() {
    match tokens("abc(") {
        Err(LexerError::UnexpectedLiteral { literal, .. }) => assert_eq!(literal, "("),
        other => panic!("expected `UnexpectedLiteral`, got {other:?}"),
    }
}

#[test]
fn end_is_lexed_again_and_again() {
    let mut lexer = Lexer::new("  ");
    let first = lexer.lex().unwrap().split();
    let second = lexer.lex().unwrap().split();
    assert_eq!(first.0, Literal::End);
    assert_eq!(second.0, Literal::End);
    assert_eq!(first.1, second.1);
}

#[test]
fn lexer_error_messages() {
    let span = Span::new(Position(2, 5), Position(2, 6), (7, 8));
    assert_eq!(
        LexerError::UnexpectedLiteral { literal: "(".to_string(), span }.to_string(),
        "Unexpected literal ( occurred in line 2, column 5"
    );
    assert_eq!(
        LexerError::NonNumberAfterDot { span }.to_string(),
        "Non number after a dot occurred in line 2, column 5"
    );
    assert_eq!(LexerError::UnexpectedInterruption.to_string(), "Unexpected interruption occurred");
    assert_eq!(
        LexerError::UnexpectedNewline { span }.to_string(),
        "Unexpected newline occurred in line 2, column 5"
    );
    assert_eq!(
        LexerError::IncompleteEscape { span }.to_string(),
        "Incomplete escape occurred in line 2, column 5"
    );
    assert_eq!(
        LexerError::UndefinedEscape { span }.to_string(),
        "Undefined escape occurred in line 2, column 5"
    );
}

#[test]
fn literal_texts() {
    assert_eq!(Literal::End.to_string(), "<END OF LINE>");
    assert_eq!(Literal::OpenBrace.to_string(), "{");
    assert_eq!(Literal::CloseBrace.to_string(), "}");
    assert_eq!(Literal::Boolean(true).to_string(), "true");
    assert_eq!(Literal::SignedIntegerNumber(-12).to_string(), "-12");
    assert_eq!(Literal::UnsignedIntegerNumber(0).to_string(), "0");
    assert_eq!(Literal::FloatNumber("0.5".to_string()).to_string(), "0.5");
    assert_eq!(Literal::RawString("abc".to_string()).to_string(), "abc");
    assert_eq!(Literal::Void.to_string(), "void");
}

#[test]
fn literal_kinds() {
    assert!(Literal::End.is_end());
    assert!(Literal::Comma.is_comma());
    assert!(!Literal::Comma.is_semicolon());
    assert!(Literal::QuotedString("x".to_string()).is_quoted_string());
    assert_eq!(Literal::QuotedString("x".to_string()).get_string(), Some("x".to_string()));
    assert_eq!(Literal::Void.get_string(), None);
}

#[test]
fn integers_out_of_range_are_unexpected_literals() {
    let mut lexer = Lexer::new("4294967296 1");
    match lexer.lex() {
        Err(LexerError::UnexpectedLiteral { literal, span }) => {
            assert_eq!(literal, "4294967296");
            assert_eq!(span, Span::new(Position(1, 1), Position(1, 11), (0, 10)));
        },
        other => panic!("expected an unexpected literal, got {other:?}"),
    }
    assert_eq!(lexer.lex().unwrap().split().0, Literal::UnsignedIntegerNumber(1));
    let mut lexer = Lexer::new("-2147483649;");
    match lexer.lex() {
        Err(LexerError::UnexpectedLiteral { literal, span }) => {
            assert_eq!(literal, "-2147483649");
            assert_eq!(span.offset, (0, 11));
        },
        other => panic!("expected an unexpected literal, got {other:?}"),
    }
    let mut lexer = Lexer::new("-2147483648");
    assert_eq!(lexer.lex().unwrap().split().0, Literal::SignedIntegerNumber(-2147483648));
    let mut lexer = Lexer::new("4294967295");
    assert_eq!(lexer.lex().unwrap().split().0, Literal::UnsignedIntegerNumber(4294967295));
    let mut lexer = Lexer::new("-x");
    assert_eq!(lexer.lex().unwrap().split().0, Literal::RawString("-x".to_string()));
}

#[test]
fn a_lone_minus_sign_is_an_unexpected_literal() {
    for text in ["-;", "- x", "-"] {
        let mut lexer = Lexer::new(text);
        match lexer.lex() {
            Err(LexerError::UnexpectedLiteral { literal, span }) => {
                assert_eq!(literal, "-");
                assert_eq!(span, Span::new(Position(1, 1), Position(1, 2), (0, 1)));
            },
            other => panic!("expected an unexpected literal, got {other:?}"),
        }
    }
    let mut lexer = Lexer::new("-;");
    lexer.lex().unwrap_err();
    assert_eq!(lexer.lex().unwrap().split().0, Literal::Semicolon);
}

#[test]
fn tokens_come_in_order_without_overlap() {
    let text = "name = \"Jé\"; # note\nlist = [1, -2, 3.5, raw, true, void,];\nobj = { k = v; }";
    let count = text.chars().count();
    let toks = tokens(text).unwrap();
    let mut last_end = 0;
    for (literal, span) in &toks[..toks.len() - 1] {
        assert!(*literal != Literal::End);
        assert!(last_end <= span.offset.0, "{literal:?} starts before the previous token ends");
        assert!(span.offset.0 < span.offset.1);
        assert!(span.offset.1 <= count);
        last_end = span.offset.1;
    }
    assert_eq!(toks[0].1.offset, (0, 4));
    assert_eq!(toks[2].1.offset, (7, 11));
    assert_eq!(toks.last().unwrap().0, Literal::End);
}

use vstd::prelude::*;

use crate::parse::{
    error::{LexerError, SpecLexerError},
    lexing::{
        at_col, digits_end, escaped, is_escape, is_open, is_stop, lemma_digits_end,
        lemma_line_end, lemma_raw_end, lemma_skip_ws, lex_at, lex_float, lex_keyword, lex_number,
        lex_quoted, lex_raw, line_end, prepend_quoted, raw_end, scan_quoted, skip_ws, LexStep,
        QuotedScan,
    },
    literal::{Literal, SpecLiteral},
    span::Span,
    token::Token,
};
use crate::parser::{position::{pos_le, Position}, source_map::SourceMap};
use crate::text::{all_digits, decimal_value, is_digit, parse_negative, parse_unsigned};

verus! {

/// A string lexer.
pub struct Lexer {
    map: SourceMap,
    pos: Position,
}

/// `r` is what a lexing step gives, and the lexer has moved to the offset and
/// position the step ends at.
pub open spec fn lexed(r: Result<Token, LexerError>, cursor: nat, pos: Position, step: LexStep) -> bool {
    match step {
        LexStep::Token(l, sp, o, p) => r is Ok && r->Ok_0@ == (l, sp) && cursor == o && pos == p,
        LexStep::Failure(e, o, p) => r is Err && r->Err_0@ == e && cursor == o && pos == p,
    }
}

impl Lexer {
    /// The characters being lexed.
    pub closed spec fn chars(&self) -> Seq<char> {
        self.map.chars()
    }

    /// How many characters have been read.
    pub closed spec fn cursor(&self) -> nat {
        self.map.cursor()
    }

    /// The line and column reached.
    pub closed spec fn position(&self) -> Position {
        self.pos
    }

    /// The cursor is within the text, and lines and columns count at most one
    /// per character read.
    pub closed spec fn wf(&self) -> bool {
        &&& self.map.wf()
        &&& 1 <= self.pos.0 <= self.map.cursor() + 1
        &&& 1 <= self.pos.1 <= self.map.cursor() + 1
    }

    /// A well-formed lexer stands within its text.
    pub proof fn lemma_cursor(&self)
        requires
            self.wf(),
        ensures
            self.cursor() <= self.chars().len(),
    {
    }

    /// What the next call of [Lexer::lex] gives.
    pub open spec fn next_step(&self) -> LexStep {
        lex_at(self.chars(), self.cursor() as int, self.position())
    }

    /// The line the lexer stands on.
    pub(crate) fn line(&self) -> (r: usize)
        ensures
            r == self.position().0,
    {
        self.pos.0
    }

    /// Create a lexer.
    pub fn new(raw: &str) -> (l: Self)
        requires
            raw@.len() < usize::MAX,
        ensures
            l.wf(),
            l.chars() == raw@,
            l.cursor() == 0,
            l.position() == Position(1, 1),
    {
        Self { map: SourceMap::new(raw), pos: Position(1, 1) }
    }

    /// Lex next token.
    ///
    /// This operation is lazy, which means [Lexer] only makes progress when called `lex`.
    ///
    /// # Errors
    /// [LexerError] will be returned if encounter an error when lexing.
    pub fn lex(&mut self) -> (r: Result<Token, LexerError>)
        requires
            old(self).wf(),
        ensures
            final(self).wf(),
            final(self).chars() == old(self).chars(),
            lexed(r, final(self).cursor(), final(self).position(), old(self).next_step()),
        decreases old(self).chars().len() - old(self).cursor(),
    {
        let ghost s = self.chars();
        let ghost o = self.cursor() as int;
        let ghost p0 = self.pos;
        proof {
            lemma_skip_ws(s, o, p0);
        }
        match self.skipping_advance() {
            Some((c, offset)) => {
                let legacy_pos = self.pos.add_column_by(1);
                let current_pos = self.pos;
                assert(offset + 1 <= s.len());
                if c == '{' {
                    Ok(Self::create_token(Literal::OpenBrace, legacy_pos, current_pos, (offset, offset + 1)))
                } else if c == '}' {
                    Ok(Self::create_token(Literal::CloseBrace, legacy_pos, current_pos, (offset, offset + 1)))
                } else if c == '[' {
                    Ok(Self::create_token(Literal::OpenBracket, legacy_pos, current_pos, (offset, offset + 1)))
                } else if c == ']' {
                    Ok(Self::create_token(Literal::CloseBracket, legacy_pos, current_pos, (offset, offset + 1)))
                } else if c == '(' {
                    Ok(Self::create_token(Literal::OpenParen, legacy_pos, current_pos, (offset, offset + 1)))
                } else if c == ')' {
                    Ok(Self::create_token(Literal::CloseParen, legacy_pos, current_pos, (offset, offset + 1)))
                } else if c == ';' {
                    Ok(Self::create_token(Literal::Semicolon, legacy_pos, current_pos, (offset, offset + 1)))
                } else if c == ',' {
                    Ok(Self::create_token(Literal::Comma, legacy_pos, current_pos, (offset, offset + 1)))
                } else if c == '=' {
                    Ok(Self::create_token(Literal::Equal, legacy_pos, current_pos, (offset, offset + 1)))
                } else if c == '-' {
                    self.handle_number(offset, legacy_pos, true)
                } else if c == '#' {
                    proof {
                        lemma_line_end(s, offset + 1);
                    }
                    self.handle_comment();
                    self.lex()
                } else if c == '"' {
                    self.handle_quoted_string(offset, legacy_pos)
                } else if Self::is_digital(c) {
                    self.handle_number(offset, legacy_pos, false)
                } else if c == 'v' {
                    self.handle_void(offset, legacy_pos)
                } else if c == 't' {
                    self.handle_true(offset, legacy_pos)
                } else if c == 'f' {
                    self.handle_false(offset, legacy_pos)
                } else {
                    self.handle_raw_string(offset, legacy_pos)
                }
            },
            None => Ok(Self::create_token(Literal::End, self.pos, self.pos, (0, 0))),
        }
    }

    fn handle_void(&mut self, start_offset: usize, start: Position) -> (r: Result<Token, LexerError>)
        requires
            old(self).wf(),
            start_offset < old(self).chars().len(),
            old(self).chars()[start_offset as int] == 'v',
            old(self).cursor() == start_offset + 1,
            1 <= start.0 <= start_offset + 1,
            1 <= start.1 <= start_offset + 1,
            old(self).position().0 == start.0,
            old(self).position().1 == start.1 + 1,
        ensures
            final(self).wf(),
            final(self).chars() == old(self).chars(),
            lexed(
                r,
                final(self).cursor(),
                final(self).position(),
                lex_keyword(old(self).chars(), start_offset as int, start, seq!['v', 'o', 'i', 'd'], SpecLiteral::Void),
            ),
    {
        let remains = vec!['o', 'i', 'd'];
        proof {
            assert(seq!['v'] + remains@ =~= seq!['v', 'o', 'i', 'd']);
        }
        self.handle_keyword(start_offset, start, &remains, Literal::Void)
    }

    fn handle_true(&mut self, start_offset: usize, start: Position) -> (r: Result<Token, LexerError>)
        requires
            old(self).wf(),
            start_offset < old(self).chars().len(),
            old(self).chars()[start_offset as int] == 't',
            old(self).cursor() == start_offset + 1,
            1 <= start.0 <= start_offset + 1,
            1 <= start.1 <= start_offset + 1,
            old(self).position().0 == start.0,
            old(self).position().1 == start.1 + 1,
        ensures
            final(self).wf(),
            final(self).chars() == old(self).chars(),
            lexed(
                r,
                final(self).cursor(),
                final(self).position(),
                lex_keyword(old(self).chars(), start_offset as int, start, seq!['t', 'r', 'u', 'e'], SpecLiteral::Boolean(true)),
            ),
    {
        let remains = vec!['r', 'u', 'e'];
        proof {
            assert(seq!['t'] + remains@ =~= seq!['t', 'r', 'u', 'e']);
        }
        self.handle_keyword(start_offset, start, &remains, Literal::Boolean(true))
    }

    fn handle_false(&mut self, start_offset: usize, start: Position) -> (r: Result<Token, LexerError>)
        requires
            old(self).wf(),
            start_offset < old(self).chars().len(),
            old(self).chars()[start_offset as int] == 'f',
            old(self).cursor() == start_offset + 1,
            1 <= start.0 <= start_offset + 1,
            1 <= start.1 <= start_offset + 1,
            old(self).position().0 == start.0,
            old(self).position().1 == start.1 + 1,
        ensures
            final(self).wf(),
            final(self).chars() == old(self).chars(),
            lexed(
                r,
                final(self).cursor(),
                final(self).position(),
                lex_keyword(old(self).chars(), start_offset as int, start, seq!['f', 'a', 'l', 's', 'e'], SpecLiteral::Boolean(false)),
            ),
    {
        let remains = vec!['a', 'l', 's', 'e'];
        proof {
            assert(seq!['f'] + remains@ =~= seq!['f', 'a', 'l', 's', 'e']);
        }
        self.handle_keyword(start_offset, start, &remains, Literal::Boolean(false))
    }

    /// Read the rest `remains` of a keyword whose first character was read;
    /// a mismatch or a missing boundary makes the token a raw string.
    fn handle_keyword(
        &mut self,
        start_offset: usize,
        start: Position,
        remains: &Vec<char>,
        literal: Literal,
    ) -> (r: Result<Token, LexerError>)
        requires
            old(self).wf(),
            start_offset < old(self).chars().len(),
            old(self).cursor() == start_offset + 1,
            1 <= start.0 <= start_offset + 1,
            1 <= start.1 <= start_offset + 1,
            old(self).position().0 == start.0,
            old(self).position().1 == start.1 + 1,
        ensures
            final(self).wf(),
            final(self).chars() == old(self).chars(),
            lexed(
                r,
                final(self).cursor(),
                final(self).position(),
                lex_keyword(
                    old(self).chars(),
                    start_offset as int,
                    start,
                    seq![old(self).chars()[start_offset as int]] + remains@,
                    literal@,
                ),
            ),
    {
        let ghost s = self.chars();
        let ghost i = start_offset as int;
        let ghost word = seq![s[i]] + remains@;
        let mut m: usize = 0;
        let mut mismatch = false;
        while m < remains.len()
            invariant_except_break
                self.wf(),
                self.chars() == s,
                i == start_offset,
                0 <= i < s.len(),
                m <= remains.len(),
                word == seq![s[i]] + remains@,
                self.cursor() == i + 1 + m,
                s.subrange(i + 1, i + 1 + m) == remains@.subrange(0, m as int),
                self.position().0 == start.0,
                self.position().1 == start.1 + 1 + m,
                !mismatch,
            ensures
                self.wf(),
                self.chars() == s,
                word == seq![s[i]] + remains@,
                0 <= i < s.len(),
                mismatch ==> !(i + word.len() <= s.len() && s.subrange(i, i + word.len()) == word),
                !mismatch ==> m == remains.len() && self.cursor() == i + word.len()
                    && self.position().0 == start.0 && self.position().1 == start.1 + word.len()
                    && s.subrange(i + 1, i + 1 + m) == remains@.subrange(0, m as int),
            decreases remains.len() - m,
        {
            let next = self.advance();
            let matched = match next {
                Some((c, _)) => c == remains[m],
                None => false,
            };
            if matched {
                self.pos.add_column();
                m += 1;
                proof {
                    assert(s.subrange(i + 1, i + 1 + m) =~= remains@.subrange(0, m as int));
                }
            } else {
                proof {
                    let n = word.len() as int;
                    if i + n <= s.len() && s.subrange(i, i + n) == word {
                        assert(s.subrange(i, i + n)[1 + m as int] == s[i + 1 + m]);
                        assert(word[1 + m as int] == remains@[m as int]);
                    }
                }
                mismatch = true;
                break;
            }
        }
        if mismatch {
            self.map.move_to(start_offset);
            self.pos = start;
            return self.handle_raw_string(start_offset, start);
        }
        proof {
            assert(s.subrange(i, i + word.len()) =~= seq![s[i]] + s.subrange(i + 1, i + 1 + m));
            assert(remains@.subrange(0, m as int) =~= remains@);
            assert(s.subrange(i, i + word.len()) =~= word);
        }
        if self.is_keyword_boundary() {
            let cur = self.current_offset();
            Ok(Self::create_token(literal, start, self.pos, (start_offset, cur)))
        } else {
            self.map.move_to(start_offset);
            self.pos = start;
            self.handle_raw_string(start_offset, start)
        }
    }

    fn handle_quoted_string(&mut self, start_offset: usize, start: Position) -> (r: Result<
        Token,
        LexerError,
    >)
        requires
            old(self).wf(),
            start_offset < old(self).chars().len(),
            old(self).cursor() == start_offset + 1,
            old(self).position().0 == start.0,
            old(self).position().1 == start.1 + 1,
        ensures
            final(self).wf(),
            final(self).chars() == old(self).chars(),
            lexed(
                r,
                final(self).cursor(),
                final(self).position(),
                lex_quoted(old(self).chars(), start_offset as int, start),
            ),
    {
        let ghost s = self.chars();
        let ghost i = start_offset as int;
        let mut buffer: Vec<char> = Vec::new();
        let mut res: Result<Token, LexerError> = Err(LexerError::UnexpectedInterruption);
        loop
            invariant_except_break
                self.wf(),
                self.chars() == s,
                i == start_offset,
                0 <= i < s.len(),
                i + 1 <= self.cursor() <= s.len(),
                self.position().0 == start.0,
                self.position().1 >= start.1 + 1,
                scan_quoted(s, i + 1) == prepend_quoted(
                    buffer@,
                    self.position().1 - (start.1 + 1),
                    scan_quoted(s, self.cursor() as int),
                ),
            ensures
                self.wf(),
                self.chars() == s,
                lexed(res, self.cursor(), self.position(), lex_quoted(s, i, start)),
            decreases s.len() - self.cursor(),
        {
            let ghost k = self.cursor() as int;
            let ghost cols = self.pos.1 - (start.1 + 1);
            let ghost before = buffer@;
            match self.advance() {
                None => {
                    res = Err(LexerError::UnexpectedInterruption);
                    break;
                },
                Some((c, offset)) => {
                    if c == '\r' || c == '\n' {
                        let cur = self.current_offset();
                        res = Err(LexerError::UnexpectedNewline {
                            span: Span::new(start, self.pos, (start_offset, cur)),
                        });
                        break;
                    } else if c == '"' {
                        self.pos.add_column();
                        let cur = self.current_offset();
                        let text = crate::text::string_from_chars(buffer.as_slice());
                        proof {
                            assert(buffer@ + Seq::<char>::empty() =~= buffer@);
                        }
                        res = Ok(Self::create_token(
                            Literal::QuotedString(text),
                            start,
                            self.pos,
                            (start_offset, cur),
                        ));
                        break;
                    } else if c == '\\' {
                        match self.peek() {
                            Some(e) => {
                                if e == 'n' || e == 'r' || e == 't' {
                                    self.consume();
                                    self.pos.add_column();
                                    let unescaped = if e == 'n' {
                                        '\n'
                                    } else if e == 'r' {
                                        '\r'
                                    } else {
                                        '\t'
                                    };
                                    proof {
                                        assert(e == s[k + 1]);
                                        assert(unescaped == escaped(s[k + 1]));
                                        assert(scan_quoted(s, k) == prepend_quoted(seq![unescaped], 1, scan_quoted(s, k + 2)));
                                        lemma_prepend_twice(
                                            buffer@,
                                            cols,
                                            seq![unescaped],
                                            1,
                                            scan_quoted(s, k + 2),
                                        );
                                    }
                                    buffer.push(unescaped);
                                    assert(buffer@ =~= before + seq![unescaped]);
                                } else {
                                    let cur = self.current_offset();
                                    res = Err(LexerError::UndefinedEscape {
                                        span: Span::new(start, self.pos, (cur - 1, cur)),
                                    });
                                    break;
                                }
                            },
                            None => {
                                res = Err(LexerError::UnexpectedInterruption);
                                break;
                            },
                        }
                    } else {
                        self.pos.add_column();
                        proof {
                            assert(c == s[k]);
                            assert(scan_quoted(s, k) == prepend_quoted(seq![c], 1, scan_quoted(s, k + 1)));
                            lemma_prepend_twice(buffer@, cols, seq![c], 1, scan_quoted(s, k + 1));
                        }
                        buffer.push(c);
                        assert(buffer@ =~= before + seq![c]);
                    }
                },
            }
        }
        res
    }

    /// Skip a comment starting at `#` up to (but not including) the newline.
    ///
    /// Comments are transparent to the parser: [Lexer::lex] re-lexes the next
    /// token instead of emitting a `Comment` literal.
    fn handle_comment(&mut self)
        requires
            old(self).wf(),
        ensures
            final(self).wf(),
            final(self).chars() == old(self).chars(),
            final(self).cursor() == line_end(old(self).chars(), old(self).cursor() as int),
            final(self).position() == at_col(
                old(self).position(),
                old(self).position().1 + (final(self).cursor() - old(self).cursor()),
            ),
    {
        let ghost s = self.chars();
        let ghost k0 = self.cursor() as int;
        let ghost p0 = self.pos;
        let ghost e = line_end(s, k0);
        proof {
            lemma_line_end(s, k0);
        }
        loop
            invariant_except_break
                self.wf(),
                self.chars() == s,
                k0 <= self.cursor() <= e,
                line_end(s, self.cursor() as int) == e,
                self.position().0 == p0.0,
                self.position().1 == p0.1 + (self.cursor() - k0),
            ensures
                self.wf(),
                self.chars() == s,
                self.cursor() == e,
                self.position().0 == p0.0,
                self.position().1 == p0.1 + (e - k0),
            decreases s.len() - self.cursor(),
        {
            let ghost m = self.cursor() as int;
            match self.advance() {
                None => {
                    break;
                },
                Some((c, _)) => {
                    if c == '\n' {
                        self.map.back();
                        break;
                    } else {
                        proof {
                            lemma_line_end(s, m + 1);
                        }
                        self.pos.add_column();
                    }
                },
            }
        }
    }

    /// The error for an integer literal from `start_offset` up to the cursor
    /// that is no integer of its type: the whole text, as an unexpected literal.
    fn out_of_range(&self, start_offset: usize, end_offset: usize, start: Position) -> (e: LexerError)
        requires
            self.wf(),
            start_offset <= end_offset,
            end_offset <= self.chars().len(),
            pos_le(start, self.position()),
        ensures
            e@ == (SpecLexerError::UnexpectedLiteral {
                literal: self.chars().subrange(start_offset as int, end_offset as int),
                span: (Span { start, end: self.position(), offset: (start_offset, end_offset) }),
            }),
    {
        LexerError::UnexpectedLiteral {
            literal: self.map.get_by_offset(start_offset, end_offset),
            span: Span::new(start, self.pos, (start_offset, end_offset)),
        }
    }

    fn handle_number(&mut self, start_offset: usize, start: Position, neg: bool) -> (r: Result<
        Token,
        LexerError,
    >)
        requires
            old(self).wf(),
            start_offset < old(self).chars().len(),
            old(self).cursor() == start_offset + 1,
            old(self).position().0 == start.0,
            old(self).position().1 == start.1 + 1,
            !neg ==> is_digit(old(self).chars()[start_offset as int]),
        ensures
            final(self).wf(),
            final(self).chars() == old(self).chars(),
            lexed(
                r,
                final(self).cursor(),
                final(self).position(),
                lex_number(old(self).chars(), start_offset as int, start, neg),
            ),
    {
        let ghost s = self.chars();
        let ghost i = start_offset as int;
        let ghost j = digits_end(s, i + 1);
        proof {
            lemma_digits_end(s, i + 1);
        }
        let mut exit = NumberExit::Boundary;
        loop
            invariant_except_break
                self.wf(),
                self.chars() == s,
                i == start_offset,
                0 <= i < s.len(),
                i + 1 <= self.cursor() <= j,
                digits_end(s, self.cursor() as int) == j,
                self.position().0 == start.0,
                self.position().1 == start.1 + (self.cursor() - i),
                exit == NumberExit::Boundary,
            ensures
                self.wf(),
                self.chars() == s,
                self.position().0 == start.0,
                self.position().1 == start.1 + (j - i),
                exit_matches(exit, s, j, self.cursor() as int),
                exit == NumberExit::Other ==> s[j] != '.',
            decreases s.len() - self.cursor(),
        {
            let ghost m = self.cursor() as int;
            match self.advance() {
                None => {
                    break;
                },
                Some((c, offset)) => {
                    if c == ' ' || c == '\r' || c == '\n' || c == '#' || c == ';' || c == ','
                        || c == ']' || c == '}' || c == ')' || c == '=' {
                        self.back();
                        break;
                    } else if c == '[' || c == '{' || c == '(' || c == '"' {
                        exit = NumberExit::Open(c);
                        break;
                    } else if c == '.' {
                        exit = NumberExit::Dot;
                        break;
                    } else if Self::is_digital(c) {
                        proof {
                            lemma_digits_end(s, m + 1);
                        }
                        self.pos.add_column();
                    } else {
                        exit = NumberExit::Other;
                        break;
                    }
                },
            }
        }
        match exit {
            NumberExit::Open(c) => {
                let cur = self.current_offset();
                Err(LexerError::UnexpectedLiteral {
                    literal: Self::char_string(c),
                    span: Span::new(start, self.pos, (cur - 1, cur)),
                })
            },
            NumberExit::Dot => {
                match self.peek() {
                    Some(p) => {
                        if Self::is_digital(p) {
                            self.handle_float_number(start_offset, start)
                        } else {
                            self.handle_raw_string(start_offset, start)
                        }
                    },
                    None => self.handle_raw_string(start_offset, start),
                }
            },
            NumberExit::Other => self.handle_raw_string(start_offset, start),
            NumberExit::Boundary => {
                let end_offset = self.current_offset();
                if neg {
                    let text = self.map.get_by_offset(start_offset + 1, end_offset);
                    let n = parse_negative(text.as_str());
                    match n {
                        Some(n) => Ok(Self::create_token(
                            Literal::SignedIntegerNumber(n),
                            start,
                            self.pos,
                            (start_offset, end_offset),
                        )),
                        None => Err(self.out_of_range(start_offset, end_offset, start)),
                    }
                } else {
                    let text = self.map.get_by_offset(start_offset, end_offset);
                    let n = parse_unsigned(text.as_str());
                    match n {
                        Some(n) => Ok(Self::create_token(
                            Literal::UnsignedIntegerNumber(n),
                            start,
                            self.pos,
                            (start_offset, end_offset),
                        )),
                        None => Err(self.out_of_range(start_offset, end_offset, start)),
                    }
                }
            },
        }
    }

    fn handle_float_number(&mut self, start_offset: usize, start: Position) -> (r: Result<
        Token,
        LexerError,
    >)
        requires
            old(self).wf(),
            start_offset + 2 <= old(self).cursor() < old(self).chars().len(),
            old(self).position().0 == start.0,
            start.1 <= old(self).position().1,
        ensures
            final(self).wf(),
            final(self).chars() == old(self).chars(),
            lexed(
                r,
                final(self).cursor(),
                final(self).position(),
                lex_float(
                    old(self).chars(),
                    start_offset as int,
                    old(self).cursor() as int,
                    start,
                    old(self).position().1 as int,
                ),
            ),
    {
        let ghost s = self.chars();
        let ghost i = start_offset as int;
        let ghost k = self.cursor() as int;
        let ghost p0 = self.pos;
        let ghost f = digits_end(s, k);
        proof {
            lemma_digits_end(s, k);
        }
        let mut exit = NumberExit::Boundary;
        loop
            invariant_except_break
                self.wf(),
                self.chars() == s,
                i == start_offset,
                i + 2 <= k <= self.cursor() <= f,
                digits_end(s, self.cursor() as int) == f,
                self.position().0 == p0.0,
                self.position().1 == p0.1 + (self.cursor() - k),
                exit == NumberExit::Boundary,
            ensures
                self.wf(),
                self.chars() == s,
                self.position().0 == p0.0,
                self.position().1 == p0.1 + (f - k),
                exit_matches(exit, s, f, self.cursor() as int),
                exit != NumberExit::Dot,
            decreases s.len() - self.cursor(),
        {
            let ghost m = self.cursor() as int;
            match self.advance() {
                None => {
                    break;
                },
                Some((c, offset)) => {
                    if c == ' ' || c == '\r' || c == '\n' || c == '#' || c == ';' || c == ','
                        || c == ']' || c == '}' || c == ')' || c == '=' {
                        self.back();
                        break;
                    } else if c == '[' || c == '{' || c == '(' || c == '"' {
                        exit = NumberExit::Open(c);
                        break;
                    } else if Self::is_digital(c) {
                        proof {
                            lemma_digits_end(s, m + 1);
                        }
                        self.pos.add_column();
                    } else {
                        exit = NumberExit::Other;
                        break;
                    }
                },
            }
        }
        match exit {
            NumberExit::Open(c) => {
                let cur = self.current_offset();
                Err(LexerError::UnexpectedLiteral {
                    literal: Self::char_string(c),
                    span: Span::new(start, self.pos, (cur - 1, cur)),
                })
            },
            NumberExit::Boundary => {
                let end_offset = self.current_offset();
                let text = self.map.get_by_offset(start_offset, end_offset);
                Ok(Self::create_token(
                    Literal::FloatNumber(text),
                    start,
                    self.pos,
                    (start_offset, end_offset),
                ))
            },
            _ => self.handle_raw_string(start_offset, start),
        }
    }

    fn handle_raw_string(&mut self, start_offset: usize, start: Position) -> (r: Result<
        Token,
        LexerError,
    >)
        requires
            old(self).wf(),
            start_offset <= old(self).cursor(),
            old(self).position().0 == start.0,
            start.1 <= old(self).position().1,
        ensures
            final(self).wf(),
            final(self).chars() == old(self).chars(),
            lexed(
                r,
                final(self).cursor(),
                final(self).position(),
                lex_raw(
                    old(self).chars(),
                    start_offset as int,
                    old(self).cursor() as int,
                    start,
                    old(self).position().1 as int,
                ),
            ),
    {
        let ghost s = self.chars();
        let ghost k = self.cursor() as int;
        let ghost p0 = self.pos;
        let ghost e = raw_end(s, k);
        proof {
            lemma_raw_end(s, k);
        }
        let mut opening: Option<char> = None;
        loop
            invariant_except_break
                self.wf(),
                self.chars() == s,
                start_offset <= k <= self.cursor() <= e,
                raw_end(s, self.cursor() as int) == e,
                self.position().0 == p0.0,
                self.position().1 == p0.1 + (self.cursor() - k),
                opening is None,
            ensures
                self.wf(),
                self.chars() == s,
                self.position().0 == p0.0,
                self.position().1 == p0.1 + (e - k),
                opening is None ==> self.cursor() == e && (e == s.len() || !is_open(s[e])),
                opening is Some ==> e < s.len() && opening == Some(s[e]) && is_open(s[e])
                    && self.cursor() == e + 1,
            decreases s.len() - self.cursor(),
        {
            let ghost m = self.cursor() as int;
            match self.advance() {
                None => {
                    break;
                },
                Some((c, offset)) => {
                    assert(c == s[m]);
                    if c == ' ' || c == '\r' || c == '\n' || c == '#' || c == ';' || c == ','
                        || c == ']' || c == '}' || c == ')' || c == '=' {
                        self.back();
                        break;
                    } else if c == '[' || c == '{' || c == '(' || c == '"' {
                        opening = Some(c);
                        break;
                    } else {
                        proof {
                            lemma_raw_end(s, m + 1);
                        }
                        self.pos.add_column();
                    }
                },
            }
        }
        match opening {
            Some(c) => {
                let cur = self.current_offset();
                Err(LexerError::UnexpectedLiteral {
                    literal: Self::char_string(c),
                    span: Span::new(start, self.pos, (cur - 1, cur)),
                })
            },
            None => {
                let end_offset = self.current_offset();
                let text = self.map.get_by_offset(start_offset, end_offset);
                Ok(Self::create_token(
                    Literal::RawString(text),
                    start,
                    self.pos,
                    (start_offset, end_offset),
                ))
            },
        }
    }

    fn create_token(literal: Literal, start: Position, end: Position, offsets: (usize, usize)) -> (t:
        Token)
        requires
            pos_le(start, end),
            offsets.0 <= offsets.1,
        ensures
            t@ == (literal@, Span { start, end, offset: offsets }),
    {
        Token::new(literal, Span::new(start, end, offsets))
    }

    /// A one-character string.
    fn char_string(c: char) -> (s: String)
        ensures
            s@ == seq![c],
    {
        let v = vec![c];
        crate::text::string_from_chars(v.as_slice())
    }

    #[inline]
    fn advance(&mut self) -> (r: Option<(char, usize)>)
        requires
            old(self).wf(),
        ensures
            final(self).wf(),
            final(self).chars() == old(self).chars(),
            final(self).position() == old(self).position(),
            old(self).cursor() < old(self).chars().len() ==> r == Some(
                (old(self).chars()[old(self).cursor() as int], old(self).cursor() as usize),
            ) && final(self).cursor() == old(self).cursor() + 1,
            old(self).cursor() >= old(self).chars().len() ==> r is None && final(self).cursor()
                == old(self).cursor(),
    {
        self.map.advance()
    }

    #[inline]
    fn back(&mut self)
        requires
            old(self).wf(),
            old(self).cursor() > 0,
            old(self).position().1 <= old(self).cursor(),
            old(self).position().0 <= old(self).cursor(),
        ensures
            final(self).wf(),
            final(self).chars() == old(self).chars(),
            final(self).position() == old(self).position(),
            final(self).cursor() == old(self).cursor() - 1,
    {
        self.map.back();
    }

    #[inline]
    fn current_offset(&self) -> (r: usize)
        ensures
            r == self.cursor(),
    {
        self.map.get_offset()
    }

    #[inline]
    fn peek(&self) -> (r: Option<char>)
        requires
            self.wf(),
        ensures
            self.cursor() < self.chars().len() ==> r == Some(self.chars()[self.cursor() as int]),
            self.cursor() >= self.chars().len() ==> r is None,
    {
        self.map.peek()
    }

    #[inline]
    fn consume(&mut self)
        requires
            old(self).wf(),
            old(self).cursor() < old(self).chars().len(),
        ensures
            final(self).wf(),
            final(self).chars() == old(self).chars(),
            final(self).position() == old(self).position(),
            final(self).cursor() == old(self).cursor() + 1,
    {
        self.map.consume();
    }

    /// Whether the next character is a boundary, i.e. the end of the text or
    /// one of the tokens a raw string cannot go on past (blanks but the tab,
    /// line breaks, and `# ; , ] } ) =`).
    #[allow(dead_code)]
    fn is_one(&self) -> (r: bool)
        requires
            self.wf(),
        ensures
            r == !(self.cursor() < self.chars().len() && ({
                let p = self.chars()[self.cursor() as int];
                p != ' ' && p != '\n' && p != '\r' && p != '\t' && p != '#' && p != ',' && p
                    != ';' && p != '-' && p != '@' && p != '[' && p != '{' && p != '(' && p != ']'
                    && p != '}' && p != ')' && p != '='
            })),
    {
        match self.peek() {
            Some(p) => !(p != ' ' && p != '\n' && p != '\r' && p != '\t' && p != '#' && p != ','
                && p != ';' && p != '-' && p != '@' && p != '[' && p != '{' && p != '(' && p
                != ']' && p != '}' && p != ')' && p != '='),
            None => true,
        }
    }

    fn skipping_advance(&mut self) -> (r: Option<(char, usize)>)
        requires
            old(self).wf(),
        ensures
            final(self).wf(),
            final(self).chars() == old(self).chars(),
            ({
                let (i, p) = skip_ws(old(self).chars(), old(self).cursor() as int, old(self).position());
                if i < old(self).chars().len() {
                    r == Some((old(self).chars()[i], i as usize)) && final(self).cursor() == i + 1
                        && final(self).position() == p
                } else {
                    r is None && final(self).cursor() == i && final(self).position() == p
                }
            }),
    {
        let ghost s = self.chars();
        let ghost o = self.cursor() as int;
        let ghost p0 = self.pos;
        let mut found: Option<(char, usize)> = None;
        loop
            invariant_except_break
                self.wf(),
                self.chars() == s,
                skip_ws(s, o, p0) == skip_ws(s, self.cursor() as int, self.position()),
                found is None,
            ensures
                self.wf(),
                self.chars() == s,
                skip_ws(s, o, p0).0 < s.len() ==> found == Some((s[skip_ws(s, o, p0).0], skip_ws(s, o, p0).0 as usize)) && self.cursor() == skip_ws(s, o, p0).0 + 1,
                skip_ws(s, o, p0).0 >= s.len() ==> found is None && self.cursor() == skip_ws(s, o, p0).0,
                self.position() == skip_ws(s, o, p0).1,
            decreases s.len() - self.cursor(),
        {
            let ghost k = self.cursor() as int;
            let ghost pk = self.pos;
            match self.map.advance() {
                Some((c, offset)) => {
                    assert(c == s[k] && offset == k);
                    if c == ' ' || c == '\t' {
                        self.pos.add_column();
                    } else if c == '\r' {
                        match self.peek() {
                            Some(n) => {
                                if n == '\n' {
                                    self.pos.add_line_by(1);
                                    self.consume();
                                }
                            },
                            None => {},
                        }
                    } else if c == '\n' {
                        self.pos.add_line_by(1);
                    } else {
                        assert(skip_ws(s, k, pk) == (k, pk));
                        assert(self.pos == pk);
                        assert(self.cursor() == k + 1);
                        found = Some((c, offset));
                        assert(skip_ws(s, o, p0) == (k, pk));
                        assert(k < s.len());
                        assert(found == Some((s[k], k as usize)));
                        assert(self.wf());
                        assert(self.chars() == s);
                        break;
                    }
                },
                None => {
                    break;
                },
            }
        }
        found
    }

    fn is_digital(s: char) -> (r: bool)
        ensures
            r == is_digit(s),
    {
        s == '0' || s == '1' || s == '2' || s == '3' || s == '4' || s == '5' || s == '6' || s
            == '7' || s == '8' || s == '9'
    }

    /// Check whether a keyword (`true`/`false`/`void`) is followed by a boundary.
    ///
    /// A keyword is only recognized when the next character terminates it: one of
    /// the structural tokens ` ` `\r` `\n` `#` `;` `,` `]` `}` `)` `=`, or the end
    /// of input. Anything else (e.g. a letter in `truefoo`) means the token is not
    /// a keyword and falls back to a raw string.
    fn is_keyword_boundary(&self) -> (r: bool)
        requires
            self.wf(),
        ensures
            r == (self.cursor() >= self.chars().len() || is_stop(
                self.chars()[self.cursor() as int],
            )),
    {
        match self.peek() {
            None => true,
            Some(p) => p == ' ' || p == '\r' || p == '\n' || p == '#' || p == ';' || p == ','
                || p == ']' || p == '}' || p == ')' || p == '=',
        }
    }
}

/// Why reading the digits of a number stopped.
#[derive(PartialEq, Eq, Structural)]
enum NumberExit {
    /// At a stop character (left unread) or the end.
    Boundary,
    /// At an opening character, read.
    Open(char),
    /// At a dot, read.
    Dot,
    /// At another character, read.
    Other,
}

/// The digits run up to offset `j`, and the cursor `cursor` stands as `exit` says.
spec fn exit_matches(exit: NumberExit, s: Seq<char>, j: int, cursor: int) -> bool {
    match exit {
        NumberExit::Boundary => cursor == j && (j == s.len() || is_stop(s[j])),
        NumberExit::Open(c) => j < s.len() && c == s[j] && is_open(c) && cursor == j + 1,
        NumberExit::Dot => j < s.len() && s[j] == '.' && cursor == j + 1,
        NumberExit::Other => j < s.len() && !is_stop(s[j]) && !is_open(s[j]) && !is_digit(s[j])
            && cursor == j + 1,
    }
}

/// Reading `t` over `c` columns then `u` over `d` columns is reading `t + u`
/// over `c + d` columns.
pub proof fn lemma_prepend_twice(t: Seq<char>, c: int, u: Seq<char>, d: int, r: QuotedScan)
    ensures
        prepend_quoted(t, c, prepend_quoted(u, d, r)) == prepend_quoted(t + u, c + d, r),
{
    match r {
        QuotedScan::Closed(v, q, n) => {
            assert(t + (u + v) =~= (t + u) + v);
        },
        _ => {},
    }
}

} // verus!

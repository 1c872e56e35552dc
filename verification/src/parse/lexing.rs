//! What lexing a text gives: the token that starts at a cursor, or the error
//! met there, and where the cursor and the line/column position end up.
use vstd::prelude::*;

use crate::parse::{error::SpecLexerError, literal::SpecLiteral, span::Span};
use crate::parser::position::Position;
use crate::text::{decimal_value, is_digit};

verus! {

/// Characters that end a number, a raw string or a keyword.
pub open spec fn is_stop(c: char) -> bool {
    c == ' ' || c == '\r' || c == '\n' || c == '#' || c == ';' || c == ',' || c == ']' || c == '}'
        || c == ')' || c == '='
}

/// Characters that may not appear inside a number or a raw string.
pub open spec fn is_open(c: char) -> bool {
    c == '[' || c == '{' || c == '(' || c == '"'
}

/// The first offset at or after `k` whose character ends a raw string
/// (a stop or an opening character), or the length of `s`.
pub open spec fn raw_end(s: Seq<char>, k: int) -> int
    decreases s.len() - k,
{
    if k >= s.len() {
        s.len() as int
    } else if is_stop(s[k]) || is_open(s[k]) {
        k
    } else {
        raw_end(s, k + 1)
    }
}

/// The first offset at or after `k` that does not hold a decimal digit, or
/// the length of `s`.
pub open spec fn digits_end(s: Seq<char>, k: int) -> int
    decreases s.len() - k,
{
    if k >= s.len() {
        s.len() as int
    } else if !is_digit(s[k]) {
        k
    } else {
        digits_end(s, k + 1)
    }
}

/// The first offset at or after `k` that holds a line feed, or the length of `s`.
pub open spec fn line_end(s: Seq<char>, k: int) -> int
    decreases s.len() - k,
{
    if k >= s.len() {
        s.len() as int
    } else if s[k] == '\n' {
        k
    } else {
        line_end(s, k + 1)
    }
}

/// `p` moved to column `col` of the same line.
pub open spec fn at_col(p: Position, col: int) -> Position {
    Position(p.0, col as usize)
}

/// Skip blanks (space, tab) and line breaks (`\n`, `\r\n`; a lone `\r` is
/// skipped without moving) from offset `o` at position `p`: the offset of the
/// first other character, or the end, with its position.
pub open spec fn skip_ws(s: Seq<char>, o: int, p: Position) -> (int, Position)
    decreases s.len() - o,
{
    if o >= s.len() {
        (o, p)
    } else if s[o] == ' ' || s[o] == '\t' {
        skip_ws(s, o + 1, at_col(p, p.1 + 1))
    } else if s[o] == '\r' {
        if o + 1 < s.len() && s[o + 1] == '\n' {
            skip_ws(s, o + 2, Position((p.0 + 1) as usize, 1))
        } else {
            skip_ws(s, o + 1, p)
        }
    } else if s[o] == '\n' {
        skip_ws(s, o + 1, Position((p.0 + 1) as usize, 1))
    } else {
        (o, p)
    }
}

/// The outcome of lexing one token: the token with the cursor and position
/// after it, or an error with the cursor and position where lexing stopped.
pub enum LexStep {
    Token(SpecLiteral, Span, int, Position),
    Failure(SpecLexerError, int, Position),
}

/// A one-character literal `lit` at offset `i`, position `p`.
pub open spec fn single(lit: SpecLiteral, i: int, p: Position) -> LexStep {
    let q = at_col(p, p.1 + 1);
    LexStep::Token(lit, Span { start: p, end: q, offset: (i as usize, (i + 1) as usize) }, i + 1, q)
}

/// An opening character met at offset `e` inside a token that starts at `p`,
/// the position having reached `q`.
pub open spec fn unexpected(s: Seq<char>, e: int, p: Position, q: Position) -> LexStep {
    LexStep::Failure(
        SpecLexerError::UnexpectedLiteral {
            literal: seq![s[e]],
            span: Span { start: p, end: q, offset: (e as usize, (e + 1) as usize) },
        },
        e + 1,
        q,
    )
}

/// A raw string that starts at offset `i`, position `p`, read on from offset
/// `k` with the column at `col`: it runs up to the first stop character, and
/// an opening character before any stop character is an error.
pub open spec fn lex_raw(s: Seq<char>, i: int, k: int, p: Position, col: int) -> LexStep {
    let e = raw_end(s, k);
    let q = at_col(p, col + (e - k));
    if e < s.len() && is_open(s[e]) {
        unexpected(s, e, p, q)
    } else {
        LexStep::Token(
            SpecLiteral::RawString(s.subrange(i, e)),
            Span { start: p, end: q, offset: (i as usize, e as usize) },
            e,
            q,
        )
    }
}

/// The fraction of a float that starts at offset `i`, position `p`; its
/// first fraction digit stands at `k`, reached with the column at `col` (the
/// dot is not counted). A character that is neither a digit, a stop nor an
/// opening character turns the whole token into a raw string.
pub open spec fn lex_float(s: Seq<char>, i: int, k: int, p: Position, col: int) -> LexStep {
    let f = digits_end(s, k);
    let q = at_col(p, col + (f - k));
    if f >= s.len() || is_stop(s[f]) {
        LexStep::Token(
            SpecLiteral::FloatNumber(s.subrange(i, f)),
            Span { start: p, end: q, offset: (i as usize, f as usize) },
            f,
            q,
        )
    } else if is_open(s[f]) {
        unexpected(s, f, p, q)
    } else {
        lex_raw(s, i, f + 1, p, col + (f - k))
    }
}

/// An integer literal from offset `i` to `j` (span `span`, ending at position
/// `q`) whose text is no integer of its type: a lone minus sign, or a value
/// out of range. The whole text is reported as an unexpected literal.
pub open spec fn out_of_range(s: Seq<char>, i: int, j: int, span: Span, q: Position) -> LexStep {
    LexStep::Failure(SpecLexerError::UnexpectedLiteral { literal: s.subrange(i, j), span }, j, q)
}

/// A number that starts at offset `i`, position `p`, with a leading minus
/// sign when `neg`. An integer is unsigned without the sign and signed with
/// it; a dot followed by a digit makes a float; anything else that is not a
/// stop or an opening character makes the token a raw string.
pub open spec fn lex_number(s: Seq<char>, i: int, p: Position, neg: bool) -> LexStep {
    let j = digits_end(s, i + 1);
    let q = at_col(p, p.1 + (j - i));
    if j >= s.len() || is_stop(s[j]) {
        let span = Span { start: p, end: q, offset: (i as usize, j as usize) };
        if neg {
            let v = decimal_value(s.subrange(i + 1, j));
            if j == i + 1 || v > 2147483648 {
                out_of_range(s, i, j, span, q)
            } else {
                LexStep::Token(SpecLiteral::SignedIntegerNumber((-v) as i32), span, j, q)
            }
        } else {
            let v = decimal_value(s.subrange(i, j));
            if v > u32::MAX {
                out_of_range(s, i, j, span, q)
            } else {
                LexStep::Token(SpecLiteral::UnsignedIntegerNumber(v as u32), span, j, q)
            }
        }
    } else if is_open(s[j]) {
        unexpected(s, j, p, q)
    } else if s[j] == '.' && j + 1 < s.len() && is_digit(s[j + 1]) {
        lex_float(s, i, j + 1, p, p.1 + (j - i))
    } else {
        lex_raw(s, i, j + 1, p, p.1 + (j - i))
    }
}

/// A keyword `word` meaning `lit` at offset `i`, position `p`: it must be
/// followed by a stop character or the end, or else it starts a raw string.
pub open spec fn lex_keyword(
    s: Seq<char>,
    i: int,
    p: Position,
    word: Seq<char>,
    lit: SpecLiteral,
) -> LexStep {
    let n = word.len() as int;
    if i + n <= s.len() && s.subrange(i, i + n) == word && (i + n == s.len() || is_stop(
        s[i + n],
    )) {
        let q = at_col(p, p.1 + n);
        LexStep::Token(lit, Span { start: p, end: q, offset: (i as usize, (i + n) as usize) }, i + n, q)
    } else {
        lex_raw(s, i, i, p, p.1 as int)
    }
}

/// Where scanning the inside of a quoted string stops.
pub enum QuotedScan {
    /// At the closing quote `q`, with the unescaped text and the columns read.
    Closed(Seq<char>, int, int),
    /// At a line break at offset `k`, with the columns read.
    Newline(int, int),
    /// At a backslash at offset `b` followed by an unknown escape.
    BadEscape(int, int),
    /// At the end of the text.
    Interrupted(int),
}

/// `r`, preceded by the text `t` read over `cols` columns.
pub open spec fn prepend_quoted(t: Seq<char>, cols: int, r: QuotedScan) -> QuotedScan {
    match r {
        QuotedScan::Closed(u, q, n) => QuotedScan::Closed(t + u, q, n + cols),
        QuotedScan::Newline(k, n) => QuotedScan::Newline(k, n + cols),
        QuotedScan::BadEscape(b, n) => QuotedScan::BadEscape(b, n + cols),
        QuotedScan::Interrupted(n) => QuotedScan::Interrupted(n + cols),
    }
}

/// The character that the escape `\c` stands for (`n`, `r`, `t`).
pub open spec fn escaped(c: char) -> char {
    if c == 'n' {
        '\n'
    } else if c == 'r' {
        '\r'
    } else {
        '\t'
    }
}

pub open spec fn is_escape(c: char) -> bool {
    c == 'n' || c == 'r' || c == 't'
}

/// Scan the inside of a quoted string from offset `k`. An escape is read as
/// one column, its backslash not counted.
pub open spec fn scan_quoted(s: Seq<char>, k: int) -> QuotedScan
    decreases s.len() - k,
{
    if k >= s.len() {
        QuotedScan::Interrupted(0)
    } else if s[k] == '\r' || s[k] == '\n' {
        QuotedScan::Newline(k, 0)
    } else if s[k] == '"' {
        QuotedScan::Closed(Seq::empty(), k, 0)
    } else if s[k] == '\\' {
        if k + 1 >= s.len() {
            QuotedScan::Interrupted(0)
        } else if is_escape(s[k + 1]) {
            prepend_quoted(seq![escaped(s[k + 1])], 1, scan_quoted(s, k + 2))
        } else {
            QuotedScan::BadEscape(k, 0)
        }
    } else {
        prepend_quoted(seq![s[k]], 1, scan_quoted(s, k + 1))
    }
}

/// A quoted string whose opening quote is at offset `i`, position `p`.
pub open spec fn lex_quoted(s: Seq<char>, i: int, p: Position) -> LexStep {
    match scan_quoted(s, i + 1) {
        QuotedScan::Closed(t, q, n) => {
            let e = at_col(p, p.1 + 1 + n + 1);
            LexStep::Token(
                SpecLiteral::QuotedString(t),
                Span { start: p, end: e, offset: (i as usize, (q + 1) as usize) },
                q + 1,
                e,
            )
        },
        QuotedScan::Newline(k, n) => {
            let e = at_col(p, p.1 + 1 + n);
            LexStep::Failure(
                SpecLexerError::UnexpectedNewline {
                    span: Span { start: p, end: e, offset: (i as usize, (k + 1) as usize) },
                },
                k + 1,
                e,
            )
        },
        QuotedScan::BadEscape(b, n) => {
            let e = at_col(p, p.1 + 1 + n);
            LexStep::Failure(
                SpecLexerError::UndefinedEscape {
                    span: Span { start: p, end: e, offset: (b as usize, (b + 1) as usize) },
                },
                b + 1,
                e,
            )
        },
        QuotedScan::Interrupted(n) => LexStep::Failure(
            SpecLexerError::UnexpectedInterruption,
            s.len() as int,
            at_col(p, p.1 + 1 + n),
        ),
    }
}

pub proof fn lemma_skip_forward(s: Seq<char>, o: int, p: Position)
    ensures
        skip_ws(s, o, p).0 >= o,
    decreases s.len() - o,
{
    if o < s.len() {
        if s[o] == ' ' || s[o] == '\t' {
            lemma_skip_forward(s, o + 1, at_col(p, p.1 + 1));
        } else if s[o] == '\r' {
            if o + 1 < s.len() && s[o + 1] == '\n' {
                lemma_skip_forward(s, o + 2, Position((p.0 + 1) as usize, 1));
            } else {
                lemma_skip_forward(s, o + 1, p);
            }
        } else if s[o] == '\n' {
            lemma_skip_forward(s, o + 1, Position((p.0 + 1) as usize, 1));
        }
    }
}

pub proof fn lemma_line_end_forward(s: Seq<char>, k: int)
    requires
        k <= s.len(),
    ensures
        k <= line_end(s, k) <= s.len(),
    decreases s.len() - k,
{
    if k < s.len() && s[k] != '\n' {
        lemma_line_end_forward(s, k + 1);
    }
}

/// Lex the token at offset `o`, position `pos` of `s`: skip blanks and line
/// breaks, then read one token. A comment (`#` up to the line feed) is skipped
/// and the next token is read; at the end of the text the token is `End`.
pub open spec fn lex_at(s: Seq<char>, o: int, pos: Position) -> LexStep
    decreases s.len() - o,
{
    let (i, p) = skip_ws(s, o, pos);
    if i >= s.len() {
        LexStep::Token(SpecLiteral::End, Span { start: p, end: p, offset: (0, 0) }, i, p)
    } else {
        let c = s[i];
        if c == '{' {
            single(SpecLiteral::OpenBrace, i, p)
        } else if c == '}' {
            single(SpecLiteral::CloseBrace, i, p)
        } else if c == '[' {
            single(SpecLiteral::OpenBracket, i, p)
        } else if c == ']' {
            single(SpecLiteral::CloseBracket, i, p)
        } else if c == '(' {
            single(SpecLiteral::OpenParen, i, p)
        } else if c == ')' {
            single(SpecLiteral::CloseParen, i, p)
        } else if c == ';' {
            single(SpecLiteral::Semicolon, i, p)
        } else if c == ',' {
            single(SpecLiteral::Comma, i, p)
        } else if c == '=' {
            single(SpecLiteral::Equal, i, p)
        } else if c == '-' {
            lex_number(s, i, p, true)
        } else if c == '#' {
            let j = line_end(s, i + 1);
            proof {
                lemma_skip_forward(s, o, pos);
                lemma_line_end_forward(s, i + 1);
            }
            lex_at(s, j, at_col(p, p.1 + (j - i)))
        } else if c == '"' {
            lex_quoted(s, i, p)
        } else if is_digit(c) {
            lex_number(s, i, p, false)
        } else if c == 'v' {
            lex_keyword(s, i, p, seq!['v', 'o', 'i', 'd'], SpecLiteral::Void)
        } else if c == 't' {
            lex_keyword(s, i, p, seq!['t', 'r', 'u', 'e'], SpecLiteral::Boolean(true))
        } else if c == 'f' {
            lex_keyword(s, i, p, seq!['f', 'a', 'l', 's', 'e'], SpecLiteral::Boolean(false))
        } else {
            lex_raw(s, i, i + 1, p, p.1 + 1)
        }
    }
}

pub proof fn lemma_raw_end(s: Seq<char>, k: int)
    requires
        0 <= k <= s.len(),
    ensures
        k <= raw_end(s, k) <= s.len(),
        raw_end(s, k) < s.len() ==> is_stop(s[raw_end(s, k)]) || is_open(s[raw_end(s, k)]),
        forall|m: int| k <= m < raw_end(s, k) ==> !is_stop(#[trigger] s[m]) && !is_open(s[m]),
    decreases s.len() - k,
{
    if k < s.len() && !(is_stop(s[k]) || is_open(s[k])) {
        lemma_raw_end(s, k + 1);
    }
}

pub proof fn lemma_digits_end(s: Seq<char>, k: int)
    requires
        0 <= k <= s.len(),
    ensures
        k <= digits_end(s, k) <= s.len(),
        digits_end(s, k) < s.len() ==> !is_digit(s[digits_end(s, k)]),
        forall|m: int| k <= m < digits_end(s, k) ==> is_digit(#[trigger] s[m]),
    decreases s.len() - k,
{
    if k < s.len() && is_digit(s[k]) {
        lemma_digits_end(s, k + 1);
    }
}

pub proof fn lemma_line_end(s: Seq<char>, k: int)
    requires
        0 <= k <= s.len(),
    ensures
        k <= line_end(s, k) <= s.len(),
        line_end(s, k) < s.len() ==> s[line_end(s, k)] == '\n',
        forall|m: int| k <= m < line_end(s, k) ==> #[trigger] s[m] != '\n',
    decreases s.len() - k,
{
    if k < s.len() && s[k] != '\n' {
        lemma_line_end(s, k + 1);
    }
}

/// Skipping blanks moves forward, never past the end, and keeps the position
/// within the offsets read (lines and columns count at most one per character).
pub proof fn lemma_skip_ws(s: Seq<char>, o: int, p: Position)
    requires
        0 <= o <= s.len(),
        1 <= p.0 <= o + 1,
        1 <= p.1 <= o + 1,
        s.len() < usize::MAX,
    ensures
        ({
            let (i, q) = skip_ws(s, o, p);
            &&& o <= i <= s.len()
            &&& 1 <= q.0 <= i + 1
            &&& 1 <= q.1 <= i + 1
            &&& q.0 >= p.0
            &&& i < s.len() ==> s[i] != ' ' && s[i] != '\t' && s[i] != '\r' && s[i] != '\n'
        }),
    decreases s.len() - o,
{
    if o < s.len() {
        if s[o] == ' ' || s[o] == '\t' {
            lemma_skip_ws(s, o + 1, at_col(p, p.1 + 1));
        } else if s[o] == '\r' {
            if o + 1 < s.len() && s[o + 1] == '\n' {
                lemma_skip_ws(s, o + 2, Position((p.0 + 1) as usize, 1));
            } else {
                lemma_skip_ws(s, o + 1, p);
            }
        } else if s[o] == '\n' {
            lemma_skip_ws(s, o + 1, Position((p.0 + 1) as usize, 1));
        }
    }
}

/// Lexing moves forward and never past the end; every token but `End` takes
/// at least one character.
pub proof fn lemma_lex_forward(s: Seq<char>, o: int, pos: Position)
    requires
        0 <= o <= s.len(),
    ensures
        lex_at(s, o, pos) matches LexStep::Token(l, _, o1, _) ==> o <= o1 <= s.len() && (
        !(l is End) ==> o1 > o),
    decreases s.len() - o,
{
    lemma_skip_forward(s, o, pos);
    let (i, p) = skip_ws(s, o, pos);
    lemma_skip_bound(s, o, pos);
    if i < s.len() {
        let c = s[i];
        lemma_raw_end(s, i);
        if i + 1 <= s.len() {
            lemma_raw_end(s, i + 1);
            lemma_digits_end(s, i + 1);
            lemma_line_end(s, i + 1);
        }
        if c == '-' || is_digit(c) {
            let j = digits_end(s, i + 1);
            if j + 1 <= s.len() {
                lemma_raw_end(s, j + 1);
                lemma_digits_end(s, j + 1);
                let f = digits_end(s, j + 1);
                if f + 1 <= s.len() {
                    lemma_raw_end(s, f + 1);
                }
            }
        } else if c == '#' {
            let j = line_end(s, i + 1);
            lemma_lex_forward(s, j, at_col(p, p.1 + (j - i)));
        } else if c == '"' {
            lemma_scan_quoted(s, i + 1);
        }
    }
}

proof fn lemma_skip_bound(s: Seq<char>, o: int, p: Position)
    requires
        0 <= o <= s.len(),
    ensures
        skip_ws(s, o, p).0 <= s.len(),
    decreases s.len() - o,
{
    if o < s.len() {
        if s[o] == ' ' || s[o] == '\t' {
            lemma_skip_bound(s, o + 1, at_col(p, p.1 + 1));
        } else if s[o] == '\r' {
            if o + 1 < s.len() && s[o + 1] == '\n' {
                lemma_skip_bound(s, o + 2, Position((p.0 + 1) as usize, 1));
            } else {
                lemma_skip_bound(s, o + 1, p);
            }
        } else if s[o] == '\n' {
            lemma_skip_bound(s, o + 1, Position((p.0 + 1) as usize, 1));
        }
    }
}

/// A closed quoted string ends at a quote within the text, after `k`.
pub proof fn lemma_scan_quoted(s: Seq<char>, k: int)
    requires
        0 <= k <= s.len(),
    ensures
        scan_quoted(s, k) matches QuotedScan::Closed(_, q, _) ==> k <= q < s.len(),
    decreases s.len() - k,
{
    if k < s.len() && s[k] != '\r' && s[k] != '\n' && s[k] != '"' {
        if s[k] == '\\' {
            if k + 1 < s.len() && is_escape(s[k + 1]) {
                lemma_scan_quoted(s, k + 2);
            }
        } else {
            lemma_scan_quoted(s, k + 1);
        }
    }
}

/// Once the text is exhausted, lexing gives the end again, at the same place,
/// without moving.
pub proof fn law_end_is_stable(s: Seq<char>, o: int, pos: Position)
    requires
        0 <= o <= s.len(),
        lex_at(s, o, pos) matches LexStep::Token(l, _, _, _) && l is End,
    ensures
        lex_at(s, o, pos) matches LexStep::Token(l, sp, o2, p2) && lex_at(s, o2, p2)
            == LexStep::Token(l, sp, o2, p2),
    decreases s.len() - o,
{
    lemma_skip_forward(s, o, pos);
    let (i, p) = skip_ws(s, o, pos);
    if i < s.len() {
        let c = s[i];
        if c == '#' {
            let j = line_end(s, i + 1);
            lemma_line_end_forward(s, i + 1);
            law_end_is_stable(s, j, at_col(p, p.1 + (j - i)));
        }
    }
}

/// The span of a token read from offset `o` covers at least one character,
/// starts at or after `o`, and ends where the cursor ends, within the text.
pub proof fn lemma_token_offsets(s: Seq<char>, o: int, pos: Position)
    requires
        0 <= o <= s.len(),
        s.len() <= usize::MAX,
    ensures
        lex_at(s, o, pos) matches LexStep::Token(l, sp, o1, _) ==> (l is End || (o <= sp.offset.0
            < sp.offset.1 && sp.offset.1 == o1 && o1 <= s.len())),
    decreases s.len() - o,
{
    lemma_skip_forward(s, o, pos);
    lemma_skip_bound(s, o, pos);
    let (i, p) = skip_ws(s, o, pos);
    if i < s.len() {
        let c = s[i];
        lemma_raw_end(s, i);
        lemma_raw_end(s, i + 1);
        lemma_digits_end(s, i + 1);
        if c == '-' || is_digit(c) {
            let j = digits_end(s, i + 1);
            if j + 1 <= s.len() {
                lemma_raw_end(s, j + 1);
                lemma_digits_end(s, j + 1);
                let f = digits_end(s, j + 1);
                if f + 1 <= s.len() {
                    lemma_raw_end(s, f + 1);
                }
            }
        } else if c == '#' {
            lemma_line_end(s, i + 1);
            let j = line_end(s, i + 1);
            lemma_token_offsets(s, j, at_col(p, p.1 + (j - i)));
        } else if c == '"' {
            lemma_scan_quoted(s, i + 1);
        }
    }
}

/// Tokens come in the order of the text and never overlap: every token but
/// `End` covers at least one character, from where the cursor stood, and the
/// token read next starts where it ends or later; neither runs past the text.
pub proof fn law_tokens_in_order(s: Seq<char>, o: int, pos: Position)
    requires
        0 <= o <= s.len(),
        s.len() <= usize::MAX,
    ensures
        lex_at(s, o, pos) matches LexStep::Token(l1, sp1, o1, p1) ==> !(l1 is End) ==> {
            &&& o <= sp1.offset.0 < sp1.offset.1 <= s.len()
            &&& lex_at(s, o1, p1) matches LexStep::Token(l2, sp2, _, _) ==> !(l2 is End) ==> sp1.offset.1
                <= sp2.offset.0 < sp2.offset.1 <= s.len()
        },
{
    lemma_token_offsets(s, o, pos);
    if let LexStep::Token(l1, sp1, o1, p1) = lex_at(s, o, pos) {
        if !(l1 is End) {
            lemma_token_offsets(s, o1, p1);
        }
    }
}

} // verus!

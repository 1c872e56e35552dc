//! Reading back what the pretty generator writes.
use vstd::prelude::*;

use crate::collections::{inserted, key_index, keys_distinct, lemma_key_index};
use crate::data::value::SpecValue;
use crate::generate::generator::{
    array_text, element_text, elements_text, entries_text, object_text, scalar_text, spaces,
};
use crate::generate::generators::pretty_layout;
use crate::parse::lexing::{
    digits_end, is_open, is_stop, lex_at, raw_end, scan_quoted, skip_ws, LexStep, QuotedScan,
};
use crate::parse::literal::SpecLiteral;
use crate::parse::parsing::{
    element_at, expect_value, parse_array_at, parse_entry, parse_object_at, parse_text, scalar_of, with_definition, ParseStep,
    ValueStep,
};
use crate::parser::position::Position;
use crate::text::{decimal_text, is_digit, lemma_decimal_round_trip, signed_decimal_text};

verus! {

/// A word that lexes as a raw string: some characters, none of them one
/// that ends a raw string or opens another token, the first not one that
/// starts a number, and not a keyword.
pub open spec fn plain_word(k: Seq<char>) -> bool {
    &&& k.len() > 0
    &&& forall|i: int| 0 <= i < k.len() ==> !is_stop(#[trigger] k[i]) && !is_open(k[i])
    &&& k[0] != '-' && k[0] != '\t' && !is_digit(k[0])
    &&& k != seq!['v', 'o', 'i', 'd']
    &&& k != seq!['t', 'r', 'u', 'e']
    &&& k != seq!['f', 'a', 'l', 's', 'e']
}

/// A text that a quoted string holds as it is: no quote, backslash or line
/// break in it (the generator writes the text between quotes unescaped).
pub open spec fn plain_text(t: Seq<char>) -> bool {
    forall|i: int|
        0 <= i < t.len() ==> #[trigger] t[i] != '"' && t[i] != '\\' && t[i] != '\r' && t[i] != '\n'
}

/// A value whose text reads back as the same value: an unsigned number, a
/// negative signed number (a signed number that is not negative is written
/// without a sign, and reads back as unsigned), a boolean, `void`, a quoted
/// string of plain text, or a raw string that is a plain word.
pub open spec fn plain_scalar(v: SpecValue) -> bool {
    match v {
        SpecValue::QuotedString(t) => plain_text(t),
        SpecValue::RawString(w) => plain_word(w),
        SpecValue::UnsignedIntegerNumber(_) => true,
        SpecValue::SignedIntegerNumber(n) => n < 0,
        SpecValue::Boolean(_) => true,
        SpecValue::Void => true,
        _ => false,
    }
}

/// The text the pretty generator writes for the value of a top-level entry.
#[verifier::opaque]
pub open spec fn value_text(v: SpecValue) -> Seq<char> {
    element_text(pretty_layout(), v, 0)
}

/// A raw string's characters run up to the first character that ends it.
proof fn lemma_raw_end_at(s: Seq<char>, a: int, b: int)
    requires
        0 <= a <= b < s.len(),
        forall|i: int| a <= i < b ==> !is_stop(#[trigger] s[i]) && !is_open(s[i]),
        is_stop(s[b]),
    ensures
        raw_end(s, a) == b,
    decreases b - a,
{
    if a < b {
        lemma_raw_end_at(s, a + 1, b);
    }
}

/// A run of digits ends at the first character that is not a digit.
proof fn lemma_digits_end_at(s: Seq<char>, a: int, b: int)
    requires
        0 <= a <= b < s.len(),
        forall|i: int| a <= i < b ==> is_digit(#[trigger] s[i]),
        !is_digit(s[b]),
    ensures
        digits_end(s, a) == b,
    decreases b - a,
{
    if a < b {
        lemma_digits_end_at(s, a + 1, b);
    }
}

/// The literal that the text of a plain scalar lexes as.
pub open spec fn scalar_literal(v: SpecValue) -> SpecLiteral {
    match v {
        SpecValue::UnsignedIntegerNumber(n) => SpecLiteral::UnsignedIntegerNumber(n),
        SpecValue::SignedIntegerNumber(n) => SpecLiteral::SignedIntegerNumber(n),
        SpecValue::Boolean(b) => SpecLiteral::Boolean(b),
        SpecValue::QuotedString(t) => SpecLiteral::QuotedString(t),
        SpecValue::RawString(w) => SpecLiteral::RawString(w),
        _ => SpecLiteral::Void,
    }
}

/// A word `k` followed by a stop character is not the keyword `w`.
proof fn lemma_not_keyword(s: Seq<char>, i: int, k: Seq<char>, w: Seq<char>)
    requires
        0 <= i,
        i + k.len() < s.len(),
        s.subrange(i, i + k.len() as int) == k,
        is_stop(s[i + k.len()]),
        k != w,
        forall|j: int| 0 <= j < k.len() ==> !is_stop(#[trigger] k[j]),
        forall|j: int| 0 <= j < w.len() ==> !is_stop(#[trigger] w[j]),
    ensures
        !(i + w.len() <= s.len() && s.subrange(i, i + w.len() as int) == w && (i + w.len()
            == s.len() || is_stop(s[i + w.len()]))),
{
    let n = w.len() as int;
    if i + n <= s.len() && s.subrange(i, i + n) == w {
        if k.len() < n {
            assert(s.subrange(i, i + n)[k.len() as int] == s[i + k.len()]);
            assert(!is_stop(w[k.len() as int]));
        } else if k.len() == n {
            assert(s.subrange(i, i + n) =~= k);
        } else {
            assert(s[i + n] == s.subrange(i, i + k.len() as int)[n]);
            assert(!is_stop(k[n]));
        }
    }
}

/// Blanks from `a` up to a plain word followed by a stop character: the word
/// lexes as a raw string.
#[verifier::rlimit(100)]
#[verifier::spinoff_prover]
proof fn lemma_lex_word(s: Seq<char>, a: int, p: Position, i: int, q: Position, k: Seq<char>)
    requires
        0 <= a <= i,
        i + k.len() < s.len(),
        skip_ws(s, a, p) == (i, q),
        s.subrange(i, i + k.len() as int) == k,
        is_stop(s[i + k.len()]),
        plain_word(k),
        q.1 + k.len() <= usize::MAX,
    ensures
        lex_at(s, a, p) == LexStep::Token(
            SpecLiteral::RawString(k),
            crate::parse::span::Span {
                start: q,
                end: Position(q.0, (q.1 + k.len()) as usize),
                offset: (i as usize, (i + k.len()) as usize),
            },
            i + k.len(),
            Position(q.0, (q.1 + k.len()) as usize),
        ),
{
    assert(s[i] == s.subrange(i, i + k.len() as int)[0]);
    assert forall|j: int| i <= j < i + k.len() implies !is_stop(#[trigger] s[j]) && !is_open(s[j]) by {
        assert(s[j] == s.subrange(i, i + k.len() as int)[j - i]);
    }
    lemma_raw_end_at(s, i, i + k.len());
    lemma_raw_end_at(s, i + 1, i + k.len());
    if k[0] == 'v' {
        lemma_not_keyword(s, i, k, seq!['v', 'o', 'i', 'd']);
    } else if k[0] == 't' {
        lemma_not_keyword(s, i, k, seq!['t', 'r', 'u', 'e']);
    } else if k[0] == 'f' {
        lemma_not_keyword(s, i, k, seq!['f', 'a', 'l', 's', 'e']);
    }
}

/// The inside of a quoted string made of plain characters up to a quote is
/// read as those characters.
proof fn lemma_scan_plain(s: Seq<char>, k: int, q: int)
    requires
        0 <= k <= q < s.len(),
        forall|m: int|
            k <= m < q ==> #[trigger] s[m] != '"' && s[m] != '\\' && s[m] != '\r' && s[m] != '\n',
        s[q] == '"',
    ensures
        scan_quoted(s, k) == QuotedScan::Closed(s.subrange(k, q), q, q - k),
    decreases q - k,
{
    if k == q {
        assert(s.subrange(k, q) =~= Seq::<char>::empty());
    } else {
        lemma_scan_plain(s, k + 1, q);
        assert(seq![s[k]] + s.subrange(k + 1, q) =~= s.subrange(k, q));
    }
}

/// A space then an equal mark: the mark lexes after the space.
proof fn lemma_lex_equal(s: Seq<char>, a: int, p: Position)
    requires
        0 <= a,
        a + 1 < s.len(),
        s[a] == ' ',
        s[a + 1] == '=',
        p.1 + 2 <= usize::MAX,
    ensures
        lex_at(s, a, p) == LexStep::Token(
            SpecLiteral::Equal,
            crate::parse::span::Span {
                start: Position(p.0, (p.1 + 1) as usize),
                end: Position(p.0, (p.1 + 2) as usize),
                offset: ((a + 1) as usize, (a + 2) as usize),
            },
            a + 2,
            Position(p.0, (p.1 + 2) as usize),
        ),
{
    let q = Position(p.0, (p.1 + 1) as usize);
    assert(skip_ws(s, a + 1, q) == (a + 1, q));
    assert(skip_ws(s, a, p) == (a + 1, q));
}

/// A semicolon lexes where it stands.
proof fn lemma_lex_semicolon(s: Seq<char>, a: int, p: Position)
    requires
        0 <= a < s.len(),
        s[a] == ';',
        p.1 + 1 <= usize::MAX,
    ensures
        lex_at(s, a, p) == LexStep::Token(
            SpecLiteral::Semicolon,
            crate::parse::span::Span {
                start: p,
                end: Position(p.0, (p.1 + 1) as usize),
                offset: (a as usize, (a + 1) as usize),
            },
            a + 1,
            Position(p.0, (p.1 + 1) as usize),
        ),
{
    assert(skip_ws(s, a, p) == (a, p));
}

/// A space then a quoted string of plain text: the string lexes after the
/// space.
#[verifier::rlimit(100)]
#[verifier::spinoff_prover]
proof fn lemma_lex_quoted_value(s: Seq<char>, a: int, p: Position, body: Seq<char>)
    requires
        plain_text(body),
        0 <= a,
        a + 3 + body.len() <= s.len(),
        s[a] == ' ',
        s.subrange(a + 1, a + 3 + body.len() as int) == seq!['"'] + body + seq!['"'],
        p.1 + 3 + body.len() <= usize::MAX,
    ensures
        lex_at(s, a, p) == LexStep::Token(
            SpecLiteral::QuotedString(body),
            crate::parse::span::Span {
                start: Position(p.0, (p.1 + 1) as usize),
                end: Position(p.0, (p.1 + 3 + body.len()) as usize),
                offset: ((a + 1) as usize, (a + 3 + body.len()) as usize),
            },
            a + 3 + body.len(),
            Position(p.0, (p.1 + 3 + body.len()) as usize),
        ),
{
    let t = seq!['"'] + body + seq!['"'];
    let i = a + 1;
    let j = i + t.len();
    let q = Position(p.0, (p.1 + 1) as usize);
    assert forall|m: int| i <= m < j implies s[m] == #[trigger] t[m - i] by {
        assert(s[m] == s.subrange(i, j)[m - i]);
    }
    assert(s[i] == t[0]);
    assert(skip_ws(s, i, q) == (i, q));
    assert(skip_ws(s, a, p) == (i, q));
    assert forall|m: int| i + 1 <= m < j - 1 implies #[trigger] s[m] != '"' && s[m] != '\\' && s[m]
        != '\r' && s[m] != '\n' by {
        assert(s[m] == t[m - i]);
        assert(t[m - i] == body[m - i - 1]);
    }
    assert(s[j - 1] == t[t.len() - 1]);
    lemma_scan_plain(s, i + 1, j - 1);
    assert(s.subrange(i + 1, j - 1) =~= body) by {
        assert forall|m: int| 0 <= m < body.len() implies s.subrange(i + 1, j - 1)[m] == body[m] by {
            assert(s[i + 1 + m] == t[1 + m]);
        }
    }
}

/// A space then the text of a plain scalar followed by a semicolon or a
/// comma: the scalar lexes as its literal after the space.
#[verifier::rlimit(100)]
#[verifier::spinoff_prover]
proof fn lemma_lex_value(s: Seq<char>, a: int, p: Position, v: SpecValue)
    requires
        plain_scalar(v),
        0 <= a,
        a + 1 + scalar_text(v).len() < s.len(),
        s[a] == ' ',
        s.subrange(a + 1, a + 1 + scalar_text(v).len() as int) == scalar_text(v),
        s[a + 1 + scalar_text(v).len()] == ';' || s[a + 1 + scalar_text(v).len()] == ',',
        p.1 + 1 + scalar_text(v).len() <= usize::MAX,
    ensures
        lex_at(s, a, p) == LexStep::Token(
            scalar_literal(v),
            crate::parse::span::Span {
                start: Position(p.0, (p.1 + 1) as usize),
                end: Position(p.0, (p.1 + 1 + scalar_text(v).len()) as usize),
                offset: ((a + 1) as usize, (a + 1 + scalar_text(v).len()) as usize),
            },
            a + 1 + scalar_text(v).len(),
            Position(p.0, (p.1 + 1 + scalar_text(v).len()) as usize),
        ),
{
    let t = scalar_text(v);
    let i = a + 1;
    let j = i + t.len();
    let q = Position(p.0, (p.1 + 1) as usize);
    assert(s[i] == t[0]);
    assert forall|m: int| i <= m < j implies s[m] == #[trigger] t[m - i] by {
        assert(s[m] == s.subrange(i, j)[m - i]);
    }
    match v {
        SpecValue::UnsignedIntegerNumber(n) => {
            lemma_decimal_round_trip(n as nat);
            assert(is_digit(t[0]));
            assert(skip_ws(s, i, q) == (i, q));
            assert(skip_ws(s, a, p) == (i, q));
            assert forall|m: int| i + 1 <= m < j implies is_digit(#[trigger] s[m]) by {
                assert(s[m] == t[m - i]);
            }
            lemma_digits_end_at(s, i + 1, j);
            assert(s.subrange(i, j) =~= t);
        },
        SpecValue::SignedIntegerNumber(n) => {
            let d = decimal_text((-n) as nat);
            lemma_decimal_round_trip((-n) as nat);
            assert(t == seq!['-'] + d);
            assert(t[0] == '-');
            assert(skip_ws(s, i, q) == (i, q));
            assert(skip_ws(s, a, p) == (i, q));
            assert forall|m: int| i + 1 <= m < j implies #[trigger] s[m] == d[m - i - 1] by {
                assert(s[m] == t[m - i]);
                assert(t[m - i] == d[m - i - 1]);
            }
            assert forall|m: int| i + 1 <= m < j implies is_digit(#[trigger] s[m]) by {
                assert(s[m] == d[m - i - 1]);
            }
            lemma_digits_end_at(s, i + 1, j);
            assert(s.subrange(i + 1, j) =~= d);
        },
        SpecValue::Boolean(b) => {
            assert(skip_ws(s, i, q) == (i, q));
            assert(skip_ws(s, a, p) == (i, q));
            assert(s.subrange(i, j) =~= t);
        },
        SpecValue::QuotedString(body) => {
            lemma_lex_quoted_value(s, a, p, body);
        },
        SpecValue::RawString(w) => {
            assert(skip_ws(s, i, q) == (i, q));
            assert(skip_ws(s, a, p) == (i, q));
            lemma_lex_word(s, a, p, i, q, w);
        },
        _ => {
            assert(skip_ws(s, i, q) == (i, q));
            assert(skip_ws(s, a, p) == (i, q));
            assert(s.subrange(i, j) =~= t);
        },
    }
}

/// A comma lexes where it stands.
proof fn lemma_lex_comma(s: Seq<char>, a: int, p: Position)
    requires
        0 <= a < s.len(),
        s[a] == ',',
        p.1 + 1 <= usize::MAX,
    ensures
        lex_at(s, a, p) == LexStep::Token(
            SpecLiteral::Comma,
            crate::parse::span::Span {
                start: p,
                end: Position(p.0, (p.1 + 1) as usize),
                offset: (a as usize, (a + 1) as usize),
            },
            a + 1,
            Position(p.0, (p.1 + 1) as usize),
        ),
{
    assert(skip_ws(s, a, p) == (a, p));
}

/// Blanks then a close bracket: the bracket lexes after the blanks.
#[verifier::rlimit(100)]
#[verifier::spinoff_prover]
proof fn lemma_lex_close(s: Seq<char>, a: int, b: int, p: Position)
    requires
        0 <= a <= b < s.len(),
        forall|m: int| a <= m < b ==> #[trigger] s[m] == ' ',
        s[b] == ']',
        p.1 + (b - a) + 1 <= usize::MAX,
    ensures
        lex_at(s, a, p) == LexStep::Token(
            SpecLiteral::CloseBracket,
            crate::parse::span::Span {
                start: Position(p.0, (p.1 + (b - a)) as usize),
                end: Position(p.0, (p.1 + (b - a) + 1) as usize),
                offset: (b as usize, (b + 1) as usize),
            },
            b + 1,
            Position(p.0, (p.1 + (b - a) + 1) as usize),
        ),
    decreases b - a,
{
    lemma_skip_blanks(s, a, b, p);
}

/// Blanks are skipped along the line.
proof fn lemma_skip_blanks(s: Seq<char>, a: int, b: int, p: Position)
    requires
        0 <= a <= b < s.len(),
        forall|m: int| a <= m < b ==> #[trigger] s[m] == ' ',
        s[b] != ' ' && s[b] != '\t' && s[b] != '\r' && s[b] != '\n',
        p.1 + (b - a) <= usize::MAX,
    ensures
        skip_ws(s, a, p) == (b, Position(p.0, (p.1 + (b - a)) as usize)),
    decreases b - a,
{
    if a < b {
        lemma_skip_blanks(s, a + 1, b, Position(p.0, (p.1 + 1) as usize));
    }
}

/// A plain scalar is written as its own text wherever it stands, and its
/// literal reads back as itself.
proof fn lemma_scalar_facts(v: SpecValue)
    requires
        plain_scalar(v),
    ensures
        element_text(pretty_layout(), v, 1) == scalar_text(v),
        scalar_of(scalar_literal(v)) == Some(v),
{
}

/// A space, a plain scalar and a comma: the scalar lexes after the space,
/// then the comma.
#[verifier::rlimit(100)]
#[verifier::spinoff_prover]
proof fn lemma_cell(s: Seq<char>, o: int, p: Position, v: SpecValue, rest: Seq<char>)
    requires
        plain_scalar(v),
        0 <= o,
        o + 2 + scalar_text(v).len() + rest.len() <= s.len(),
        s.subrange(o, o + 2 + scalar_text(v).len() + rest.len()) == seq![' '] + scalar_text(v) + seq![
            ',',
        ] + rest,
        p.1 + 2 + scalar_text(v).len() <= usize::MAX,
    ensures
        ({
            let len = scalar_text(v).len() as int;
            &&& lex_at(s, o, p) == LexStep::Token(
                scalar_literal(v),
                crate::parse::span::Span {
                    start: Position(p.0, (p.1 + 1) as usize),
                    end: Position(p.0, (p.1 + 1 + len) as usize),
                    offset: ((o + 1) as usize, (o + 1 + len) as usize),
                },
                o + 1 + len,
                Position(p.0, (p.1 + 1 + len) as usize),
            )
            &&& lex_at(s, o + 1 + len, Position(p.0, (p.1 + 1 + len) as usize)) == LexStep::Token(
                SpecLiteral::Comma,
                crate::parse::span::Span {
                    start: Position(p.0, (p.1 + 1 + len) as usize),
                    end: Position(p.0, (p.1 + 2 + len) as usize),
                    offset: ((o + 1 + len) as usize, (o + 2 + len) as usize),
                },
                o + 2 + len,
                Position(p.0, (p.1 + 2 + len) as usize),
            )
            &&& s.subrange(o + 2 + len, o + 2 + len + rest.len()) == rest
        }),
{
    let t = scalar_text(v);
    let len = t.len() as int;
    let c = seq![' '] + t + seq![','] + rest;
    assert forall|j: int| 0 <= j < c.len() implies #[trigger] s[o + j] == c[j] by {
        assert(s[o + j] == s.subrange(o, o + c.len() as int)[j]);
    }
    assert(s[o] == c[0]);
    assert(s.subrange(o + 1, o + 1 + len) =~= t) by {
        assert forall|j: int| 0 <= j < len implies s.subrange(o + 1, o + 1 + len)[j] == t[j] by {
            assert(s[o + (1 + j)] == c[1 + j]);
        }
    }
    assert(s[o + (1 + len)] == c[1 + len]);
    lemma_lex_value(s, o, p, v);
    lemma_lex_comma(s, o + 1 + len, Position(p.0, (p.1 + 1 + len) as usize));
    assert(s.subrange(o + 2 + len, o + 2 + len + rest.len()) =~= rest) by {
        assert forall|j: int| 0 <= j < rest.len() implies s.subrange(o + 2 + len, o + 2 + len + rest.len())[j]
            == rest[j] by {
            assert(s[o + (2 + len + j)] == c[2 + len + j]);
        }
    }
}

/// Reading an array goes on past a scalar element.
#[verifier::rlimit(100)]
#[verifier::spinoff_prover]
proof fn lemma_array_step_value(
    s: Seq<char>,
    o: int,
    p: Position,
    d: Seq<SpecValue>,
    lit: SpecLiteral,
    span: crate::parse::span::Span,
    o1: int,
    p1: Position,
    v: SpecValue,
)
    requires
        0 <= o <= o1 <= s.len(),
        lex_at(s, o, p) == LexStep::Token(lit, span, o1, p1),
        scalar_of(lit) == Some(v),
    ensures
        parse_array_at(s, o, p, false, d) == parse_array_at(s, o1, p1, true, d.push(v)),
{
    assert(element_at(s, lit, span, o1, p1) == ParseStep::Done(v, o1, p1));
}

/// Reading an array goes on past a comma.
#[verifier::rlimit(100)]
#[verifier::spinoff_prover]
proof fn lemma_array_step_comma(
    s: Seq<char>,
    o: int,
    p: Position,
    d: Seq<SpecValue>,
    span: crate::parse::span::Span,
    o1: int,
    p1: Position,
)
    requires
        0 <= o <= s.len(),
        lex_at(s, o, p) == LexStep::Token(SpecLiteral::Comma, span, o1, p1),
    ensures
        parse_array_at(s, o, p, true, d) == parse_array_at(s, o1, p1, false, d),
{
}

/// Reading an array ends at the close bracket.
#[verifier::rlimit(100)]
#[verifier::spinoff_prover]
proof fn lemma_array_step_close(
    s: Seq<char>,
    o: int,
    p: Position,
    d: Seq<SpecValue>,
    span: crate::parse::span::Span,
    o1: int,
    p1: Position,
)
    requires
        0 <= o <= s.len(),
        lex_at(s, o, p) == LexStep::Token(SpecLiteral::CloseBracket, span, o1, p1),
    ensures
        parse_array_at(s, o, p, false, d) == ParseStep::Done(SpecValue::Array(d), o1, p1),
{
}

/// A space then an open bracket: the bracket lexes after the space.
#[verifier::rlimit(100)]
#[verifier::spinoff_prover]
proof fn lemma_lex_open(s: Seq<char>, o: int, p: Position)
    requires
        0 <= o,
        o + 1 < s.len(),
        s[o] == ' ',
        s[o + 1] == '[',
        p.1 + 2 <= usize::MAX,
    ensures
        lex_at(s, o, p) == LexStep::Token(
            SpecLiteral::OpenBracket,
            crate::parse::span::Span {
                start: Position(p.0, (p.1 + 1) as usize),
                end: Position(p.0, (p.1 + 2) as usize),
                offset: ((o + 1) as usize, (o + 2) as usize),
            },
            o + 2,
            Position(p.0, (p.1 + 2) as usize),
        ),
{
    let q = Position(p.0, (p.1 + 1) as usize);
    assert(skip_ws(s, o + 1, q) == (o + 1, q));
    assert(skip_ws(s, o, p) == (o + 1, q));
}

/// The value of a generated top-level entry, after the space behind its
/// equal mark and before its semicolon, is read as that value.
#[verifier::rlimit(100)]
#[verifier::spinoff_prover]
proof fn lemma_value_read(
    s: Seq<char>,
    o: int,
    p: Position,
    kspan: crate::parse::span::Span,
    v: SpecValue,
)
    requires
        plain_scalar(v),
        0 <= o,
        o + 1 + value_text(v).len() < s.len(),
        s[o] == ' ',
        s.subrange(o + 1, o + 1 + value_text(v).len() as int) == value_text(v),
        s[o + 1 + value_text(v).len()] == ';',
        kspan.end.0 == p.0,
        p.1 + 1 + value_text(v).len() <= usize::MAX,
    ensures
        expect_value(s, o, p, kspan) == ValueStep::Done(
            v,
            true,
            o + 1 + value_text(v).len(),
            Position(p.0, (p.1 + 1 + value_text(v).len()) as usize),
        ),
{
    assert(value_text(v) == scalar_text(v)) by {
        reveal(value_text);
    }
    lemma_lex_value(s, o, p, v);
    lemma_value_step(s, o, p, kspan, v);
}

/// The value of a generated entry is read as that value.
#[verifier::rlimit(100)]
#[verifier::spinoff_prover]
proof fn lemma_value_step(
    s: Seq<char>,
    o: int,
    p: Position,
    kspan: crate::parse::span::Span,
    v: SpecValue,
)
    requires
        plain_scalar(v),
        0 <= o <= s.len(),
        kspan.end.0 == p.0,
        lex_at(s, o, p) == LexStep::Token(
            scalar_literal(v),
            crate::parse::span::Span {
                start: Position(p.0, (p.1 + 1) as usize),
                end: Position(p.0, (p.1 + 1 + scalar_text(v).len()) as usize),
                offset: ((o + 1) as usize, (o + 1 + scalar_text(v).len()) as usize),
            },
            o + 1 + scalar_text(v).len(),
            Position(p.0, (p.1 + 1 + scalar_text(v).len()) as usize),
        ),
    ensures
        expect_value(s, o, p, kspan) == ValueStep::Done(
            v,
            true,
            o + 1 + scalar_text(v).len(),
            Position(p.0, (p.1 + 1 + scalar_text(v).len()) as usize),
        ),
{
    assert(scalar_of(scalar_literal(v)) == Some(v));
}

/// The text written for a top-level object: a line break, then its entries.
proof fn lemma_top_text(e: Seq<(Seq<char>, SpecValue)>)
    ensures
        object_text(pretty_layout(), e, 0) == seq!['\n'] + entries_text(
            pretty_layout(),
            e,
            0,
            e.len() as int,
        ),
{
    assert(object_text(pretty_layout(), e, 0) =~= seq!['\n'] + entries_text(
        pretty_layout(),
        e,
        0,
        e.len() as int,
    ));
}

/// A value the pretty generator writes so that it reads back as itself at
/// any depth: a plain scalar, an array of plain trees, or an object of plain
/// trees whose keys are plain words, each used once.
pub open spec fn plain_tree(v: SpecValue) -> bool
    decreases v, 0int,
{
    match v {
        SpecValue::Object(e) => keys_distinct(e) && plain_members(e, e.len() as int),
        SpecValue::Array(a) => plain_elems(a, a.len() as int),
        _ => plain_scalar(v),
    }
}

/// Whether the first `n` elements of `a` are plain trees.
pub open spec fn plain_elems(a: Seq<SpecValue>, n: int) -> bool
    decreases a, n,
{
    if n <= 0 || n > a.len() {
        true
    } else {
        proof {
            assert(decreases_to!(a => a[n - 1]));
        }
        plain_elems(a, n - 1) && plain_tree(a[n - 1])
    }
}

/// The elements of a plain array are plain trees.
proof fn lemma_plain_elems(a: Seq<SpecValue>, n: int, i: int)
    requires
        plain_elems(a, n),
        0 <= i < n <= a.len(),
    ensures
        plain_tree(a[i]),
    decreases n,
{
    if i < n - 1 {
        lemma_plain_elems(a, n - 1, i);
    }
}

/// Whether the first `n` entries of `e` have plain words as keys and plain
/// trees as values.
pub open spec fn plain_members(e: Seq<(Seq<char>, SpecValue)>, n: int) -> bool
    decreases e, n,
{
    if n <= 0 || n > e.len() {
        true
    } else {
        proof {
            assert(decreases_to!(e => e[n - 1]));
        }
        plain_members(e, n - 1) && plain_word(e[n - 1].0) && plain_tree(e[n - 1].1)
    }
}

/// The entries of a plain object, each one: a plain word and a plain tree.
proof fn lemma_plain_members(e: Seq<(Seq<char>, SpecValue)>, n: int, i: int)
    requires
        plain_members(e, n),
        0 <= i < n <= e.len(),
    ensures
        plain_word(e[i].0),
        plain_tree(e[i].1),
    decreases n,
{
    if i < n - 1 {
        lemma_plain_members(e, n - 1, i);
    }
}

/// The text of the entry `k = v` in an object at depth `d`.
pub open spec fn entry_text(k: Seq<char>, v: SpecValue, d: int) -> Seq<char> {
    spaces(2 * d) + k + seq![' ', '=', ' '] + (if v is Object {
        element_text(pretty_layout(), v, d)
    } else {
        element_text(pretty_layout(), v, d) + seq![';']
    }) + seq!['\n']
}

/// The entries of an object at depth `d` are written one after the other.
proof fn lemma_entries_snoc(e: Seq<(Seq<char>, SpecValue)>, d: int, m: int)
    requires
        0 < m <= e.len(),
    ensures
        entries_text(pretty_layout(), e, d, m) == entries_text(pretty_layout(), e, d, m - 1) + entry_text(
            e[m - 1].0,
            e[m - 1].1,
            d,
        ),
{
    assert(spaces(1) =~= seq![' ']);
    assert(entries_text(pretty_layout(), e, d, m) =~= entries_text(pretty_layout(), e, d, m - 1)
        + entry_text(e[m - 1].0, e[m - 1].1, d));
}

/// The text written for the first `m` entries of an object at depth `d`
/// begins the text written for the first `n`.
proof fn lemma_entries_prefix_at(e: Seq<(Seq<char>, SpecValue)>, d: int, m: int, n: int)
    requires
        0 <= m <= n <= e.len(),
    ensures
        entries_text(pretty_layout(), e, d, m).len() <= entries_text(pretty_layout(), e, d, n).len(),
        entries_text(pretty_layout(), e, d, m) == entries_text(pretty_layout(), e, d, n).subrange(
            0,
            entries_text(pretty_layout(), e, d, m).len() as int,
        ),
    decreases n - m,
{
    let l = pretty_layout();
    if m < n {
        lemma_entries_prefix_at(e, d, m, n - 1);
        lemma_entries_snoc(e, d, n);
        let a = entries_text(l, e, d, m);
        let b = entries_text(l, e, d, n - 1);
        assert(entries_text(l, e, d, n).subrange(0, b.len() as int) =~= b);
        assert(entries_text(l, e, d, n).subrange(0, a.len() as int) =~= b.subrange(0, a.len() as int));
    } else {
        assert(entries_text(l, e, d, n).subrange(0, entries_text(l, e, d, n).len() as int)
            =~= entries_text(l, e, d, n));
    }
}

/// A plain scalar is written as its text at any depth.
proof fn lemma_scalar_layer(v: SpecValue, d: int)
    requires
        plain_scalar(v),
    ensures
        element_text(pretty_layout(), v, d) == scalar_text(v),
{
}

/// A plain scalar is written the same at any depth.
proof fn lemma_value_layer(v: SpecValue, d: int)
    requires
        plain_scalar(v),
    ensures
        element_text(pretty_layout(), v, d) == value_text(v),
{
    reveal(value_text);
}

/// The span of the key `k` of an entry whose line, `line_no`, starts at
/// offset `c + 1` and is indented by `w` spaces.
pub open spec fn key_span_at(c: int, line_no: usize, w: int, k: Seq<char>) -> crate::parse::span::Span {
    crate::parse::span::Span {
        start: Position(line_no, (1 + w) as usize),
        end: Position(line_no, (1 + w + k.len()) as usize),
        offset: ((c + 1 + w) as usize, (c + 1 + w + k.len()) as usize),
    }
}

/// The start of an entry: indentation, key, equal mark, each after a space.
pub open spec fn entry_head(w: int, k: Seq<char>) -> Seq<char> {
    spaces(w) + k + seq![' ', '=', ' ']
}

/// The characters of an entry's head standing at offset `c + 1`.
proof fn lemma_head_chars(s: Seq<char>, c: int, w: int, k: Seq<char>)
    requires
        0 <= c,
        0 <= w,
        c + 1 + entry_head(w, k).len() <= s.len(),
        s.subrange(c + 1, c + 1 + entry_head(w, k).len() as int) == entry_head(w, k),
    ensures
        forall|j: int| c + 1 <= j < c + 1 + w ==> #[trigger] s[j] == ' ',
        s.subrange(c + 1 + w, c + 1 + w + k.len()) == k,
        s[c + 1 + w + k.len()] == ' ',
        s[c + 2 + w + k.len()] == '=',
        s[c + 3 + w + k.len()] == ' ',
{
    let h = entry_head(w, k);
    let n = k.len() as int;
    assert forall|j: int| 0 <= j < h.len() implies #[trigger] s[c + 1 + j] == h[j] by {
        assert(s[c + 1 + j] == s.subrange(c + 1, c + 1 + h.len() as int)[j]);
    }
    assert forall|j: int| c + 1 <= j < c + 1 + w implies #[trigger] s[j] == ' ' by {
        assert(s[c + 1 + (j - c - 1)] == h[j - c - 1]);
    }
    assert(s[c + 1 + (w + n)] == h[w + n]);
    assert(s[c + 1 + (w + n + 1)] == h[w + n + 1]);
    assert(s[c + 1 + (w + n + 2)] == h[w + n + 2]);
    assert(s.subrange(c + 1 + w, c + 1 + w + n) =~= k) by {
        assert forall|j: int| 0 <= j < n implies s.subrange(c + 1 + w, c + 1 + w + n)[j] == k[j] by {
            assert(s[c + 1 + (w + j)] == h[w + j]);
        }
    }
}

/// A raw string read as a key goes on with the rest of its entry.
#[verifier::rlimit(100)]
#[verifier::spinoff_prover]
proof fn lemma_key_goes_on(
    s: Seq<char>,
    c: int,
    p: Position,
    braced: bool,
    d: Seq<(Seq<char>, SpecValue)>,
    k: Seq<char>,
    kspan: crate::parse::span::Span,
    o1: int,
    p1: Position,
)
    requires
        0 <= c <= s.len(),
        lex_at(s, c, p) == LexStep::Token(SpecLiteral::RawString(k), kspan, o1, p1),
    ensures
        parse_object_at(s, c, p, braced, d, Seq::empty()) == parse_entry(
            s,
            o1,
            p1,
            braced,
            d,
            Seq::empty(),
            k,
            kspan,
        ),
{
}

/// The head of an entry after the line break at `c`: its key, then its
/// equal mark, are read.
#[verifier::rlimit(100)]
#[verifier::spinoff_prover]
proof fn lemma_head_read(
    s: Seq<char>,
    c: int,
    p: Position,
    w: int,
    k: Seq<char>,
    braced: bool,
    d: Seq<(Seq<char>, SpecValue)>,
)
    requires
        0 <= c,
        0 <= w,
        c + 1 + entry_head(w, k).len() < s.len(),
        s[c] == '\n',
        s.subrange(c + 1, c + 1 + entry_head(w, k).len() as int) == entry_head(w, k),
        plain_word(k),
        p.0 + 1 <= usize::MAX,
        entry_head(w, k).len() + 1 <= usize::MAX,
    ensures
        ({
            let line_no = (p.0 + 1) as usize;
            let n = k.len() as int;
            let o1 = c + 1 + w + n;
            let p1 = Position(line_no, (1 + w + n) as usize);
            &&& parse_object_at(s, c, p, braced, d, Seq::empty()) == parse_entry(
                s,
                o1,
                p1,
                braced,
                d,
                Seq::empty(),
                k,
                key_span_at(c, line_no, w, k),
            )
            &&& lex_at(s, o1, p1) == LexStep::Token(
                SpecLiteral::Equal,
                crate::parse::span::Span {
                    start: Position(line_no, (2 + w + n) as usize),
                    end: Position(line_no, (3 + w + n) as usize),
                    offset: ((o1 + 1) as usize, (o1 + 2) as usize),
                },
                o1 + 2,
                Position(line_no, (3 + w + n) as usize),
            )
        }),
{
    let n = k.len() as int;
    lemma_head_chars(s, c, w, k);
    let line_no = (p.0 + 1) as usize;
    let q0 = Position(line_no, 1);
    let i = c + 1 + w;
    let q = Position(line_no, (1 + w) as usize);
    assert(s[i] == s.subrange(c + 1 + w, c + 1 + w + n)[0]);
    lemma_skip_blanks(s, c + 1, i, q0);
    assert(skip_ws(s, c, p) == skip_ws(s, c + 1, q0));
    lemma_lex_word(s, c, p, i, q, k);
    let o1 = c + 1 + w + n;
    let p1 = Position(line_no, (1 + w + n) as usize);
    lemma_key_goes_on(s, c, p, braced, d, k, key_span_at(c, line_no, w, k), o1, p1);
    lemma_lex_equal(s, o1, p1);
}

/// The line of the entry `k = v`, indented by `w`, for a value written on
/// one line.
pub open spec fn line_at(w: int, k: Seq<char>, v: SpecValue) -> Seq<char> {
    entry_head(w, k) + value_text(v) + seq![';', '\n']
}

/// The pieces of an entry line standing at offset `c + 1`.
proof fn lemma_line_pieces(s: Seq<char>, c: int, w: int, k: Seq<char>, v: SpecValue)
    requires
        0 <= c,
        0 <= w,
        c + 1 + line_at(w, k, v).len() <= s.len(),
        s.subrange(c + 1, c + 1 + line_at(w, k, v).len() as int) == line_at(w, k, v),
    ensures
        ({
            let h = entry_head(w, k).len() as int;
            let t = value_text(v);
            &&& s.subrange(c + 1, c + 1 + h) == entry_head(w, k)
            &&& s.subrange(c + 1 + h, c + 1 + h + t.len()) == t
            &&& s[c + 1 + h + t.len()] == ';'
            &&& s[c + 2 + h + t.len()] == '\n'
        }),
{
    let line = line_at(w, k, v);
    let h = entry_head(w, k).len() as int;
    let t = value_text(v);
    let whole = s.subrange(c + 1, c + 1 + line.len() as int);
    assert(s.subrange(c + 1, c + 1 + h) =~= whole.subrange(0, h));
    assert(line.subrange(0, h) =~= entry_head(w, k));
    assert(s.subrange(c + 1 + h, c + 1 + h + t.len()) =~= whole.subrange(h, h + t.len()));
    assert(line.subrange(h, h + t.len()) =~= t);
    assert(s[c + 1 + (h + t.len())] == whole[h + t.len()]);
    assert(s[c + 1 + (h + t.len() + 1)] == whole[h + t.len() + 1]);
}

/// After the key of an entry, the equal mark, the value and the semicolon
/// are read, and the entry is added.
#[verifier::rlimit(100)]
#[verifier::spinoff_prover]
proof fn lemma_rest_read(
    s: Seq<char>,
    o1: int,
    p1: Position,
    braced: bool,
    d: Seq<(Seq<char>, SpecValue)>,
    k: Seq<char>,
    kspan: crate::parse::span::Span,
    v: SpecValue,
    sp2: crate::parse::span::Span,
    p2: Position,
    o3: int,
    p3: Position,
    sp4: crate::parse::span::Span,
    o4: int,
    p4: Position,
)
    requires
        0 <= o1 <= s.len(),
        o1 + 2 <= o3 < s.len(),
        kspan.end.0 == p1.0,
        sp2.end.0 == p1.0,
        lex_at(s, o1, p1) == LexStep::Token(SpecLiteral::Equal, sp2, o1 + 2, p2),
        expect_value(s, o1 + 2, p2, kspan) == ValueStep::Done(v, true, o3, p3),
        lex_at(s, o3, p3) == LexStep::Token(SpecLiteral::Semicolon, sp4, o4, p4),
        sp4.end.0 == p3.0,
        key_index(d, k) < 0,
    ensures
        parse_entry(s, o1, p1, braced, d, Seq::empty(), k, kspan) == parse_object_at(
            s,
            o4,
            p4,
            braced,
            d.push((k, v)),
            Seq::empty(),
        ),
{
    lemma_key_index(d, k);
    assert(with_definition(d, Seq::empty(), k, v) == (d.push((k, v)), Seq::<Seq<char>>::empty()));
}

/// The value of an entry line and the semicolon after it are read.
#[verifier::rlimit(100)]
#[verifier::spinoff_prover]
proof fn lemma_line_value_read(s: Seq<char>, c: int, p: Position, w: int, k: Seq<char>, v: SpecValue)
    requires
        0 <= c,
        0 <= w,
        c + 1 + line_at(w, k, v).len() <= s.len(),
        s.subrange(c + 1, c + 1 + line_at(w, k, v).len() as int) == line_at(w, k, v),
        plain_scalar(v),
        p.0 + 1 <= usize::MAX,
        line_at(w, k, v).len() + 1 <= usize::MAX,
    ensures
        ({
            let line_no = (p.0 + 1) as usize;
            let n = k.len() as int;
            let t = value_text(v).len() as int;
            let o2 = c + 3 + w + n;
            let p2 = Position(line_no, (3 + w + n) as usize);
            let o3 = o2 + 1 + t;
            let p3 = Position(line_no, (4 + w + n + t) as usize);
            &&& expect_value(s, o2, p2, key_span_at(c, line_no, w, k)) == ValueStep::Done(v, true, o3, p3)
            &&& lex_at(s, o3, p3) == LexStep::Token(
                SpecLiteral::Semicolon,
                crate::parse::span::Span {
                    start: p3,
                    end: Position(line_no, (p3.1 + 1) as usize),
                    offset: (o3 as usize, (o3 + 1) as usize),
                },
                o3 + 1,
                Position(line_no, (p3.1 + 1) as usize),
            )
        }),
{
    let n = k.len() as int;
    let t = value_text(v).len() as int;
    lemma_line_pieces(s, c, w, k, v);
    lemma_head_chars(s, c, w, k);
    let line_no = (p.0 + 1) as usize;
    let o2 = c + 3 + w + n;
    let p2 = Position(line_no, (3 + w + n) as usize);
    lemma_value_read(s, o2, p2, key_span_at(c, line_no, w, k), v);
    let o3 = o2 + 1 + t;
    let p3 = Position(line_no, (4 + w + n + t) as usize);
    lemma_lex_semicolon(s, o3, p3);
}

/// Parsing an entry line, indented by `w`, adds the entry and goes on at the
/// line break that ends it.
#[verifier::rlimit(100)]
#[verifier::spinoff_prover]
proof fn lemma_line_step(
    s: Seq<char>,
    c: int,
    p: Position,
    w: int,
    k: Seq<char>,
    v: SpecValue,
    braced: bool,
    d: Seq<(Seq<char>, SpecValue)>,
)
    requires
        0 <= c,
        0 <= w,
        c + 1 + line_at(w, k, v).len() <= s.len(),
        s[c] == '\n',
        s.subrange(c + 1, c + 1 + line_at(w, k, v).len() as int) == line_at(w, k, v),
        plain_word(k),
        plain_scalar(v),
        key_index(d, k) < 0,
        p.0 + 1 <= usize::MAX,
        line_at(w, k, v).len() + 1 <= usize::MAX,
    ensures
        parse_object_at(s, c, p, braced, d, Seq::empty()) == parse_object_at(
            s,
            c + line_at(w, k, v).len(),
            Position((p.0 + 1) as usize, line_at(w, k, v).len() as usize),
            braced,
            d.push((k, v)),
            Seq::empty(),
        ),
{
    let n = k.len() as int;
    let t = value_text(v).len() as int;
    let line_no = (p.0 + 1) as usize;
    assert(line_at(w, k, v).len() == w + n + t + 5);
    lemma_line_pieces(s, c, w, k, v);
    lemma_head_read(s, c, p, w, k, braced, d);
    lemma_line_value_read(s, c, p, w, k, v);
    let o1 = c + 1 + w + n;
    let p1 = Position(line_no, (1 + w + n) as usize);
    let o3 = c + 4 + w + n + t;
    let p3 = Position(line_no, (4 + w + n + t) as usize);
    lemma_rest_read(
        s,
        o1,
        p1,
        braced,
        d,
        k,
        key_span_at(c, line_no, w, k),
        v,
        crate::parse::span::Span {
            start: Position(line_no, (2 + w + n) as usize),
            end: Position(line_no, (3 + w + n) as usize),
            offset: ((o1 + 1) as usize, (o1 + 2) as usize),
        },
        Position(line_no, (3 + w + n) as usize),
        o3,
        p3,
        crate::parse::span::Span {
            start: p3,
            end: Position(line_no, (p3.1 + 1) as usize),
            offset: (o3 as usize, (o3 + 1) as usize),
        },
        o3 + 1,
        Position(line_no, (p3.1 + 1) as usize),
    );
    assert(Position(line_no, (p3.1 + 1) as usize) == Position(line_no, (w + n + t + 5) as usize));
}

/// A space then an open brace: the brace lexes after the space.
#[verifier::rlimit(100)]
#[verifier::spinoff_prover]
proof fn lemma_lex_open_brace(s: Seq<char>, o: int, p: Position)
    requires
        0 <= o,
        o + 1 < s.len(),
        s[o] == ' ',
        s[o + 1] == '{',
        p.1 + 2 <= usize::MAX,
    ensures
        lex_at(s, o, p) == LexStep::Token(
            SpecLiteral::OpenBrace,
            crate::parse::span::Span {
                start: Position(p.0, (p.1 + 1) as usize),
                end: Position(p.0, (p.1 + 2) as usize),
                offset: ((o + 1) as usize, (o + 2) as usize),
            },
            o + 2,
            Position(p.0, (p.1 + 2) as usize),
        ),
{
    let q = Position(p.0, (p.1 + 1) as usize);
    assert(skip_ws(s, o + 1, q) == (o + 1, q));
    assert(skip_ws(s, o, p) == (o + 1, q));
}

/// Whether reading an object's entries from offset `o`, position `p`, after
/// its open brace, gives `v`, ending at offset `o3`, position `p3`.
#[verifier::opaque]
pub open spec fn reads_object(s: Seq<char>, o: int, p: Position, v: SpecValue, o3: int, p3: Position) -> bool {
    parse_object_at(s, o, p, true, Seq::empty(), Seq::empty()) == ParseStep::Done(v, o3, p3)
}

/// The value of an entry that opens with a brace is the object read after
/// it, and no semicolon is looked for after it.
#[verifier::rlimit(100)]
#[verifier::spinoff_prover]
proof fn lemma_expect_object(
    s: Seq<char>,
    o: int,
    p: Position,
    kspan: crate::parse::span::Span,
    span: crate::parse::span::Span,
    o1: int,
    p1: Position,
    v: SpecValue,
    o2: int,
    p2: Position,
)
    requires
        0 <= o <= s.len(),
        lex_at(s, o, p) == LexStep::Token(SpecLiteral::OpenBrace, span, o1, p1),
        reads_object(s, o1, p1, v, o2, p2),
    ensures
        expect_value(s, o, p, kspan) == ValueStep::Done(v, false, o2, p2),
{
    reveal(reads_object);
}

/// After the key of an entry whose value is an object, the equal mark and
/// the object are read, and the entry is added.
#[verifier::rlimit(100)]
#[verifier::spinoff_prover]
proof fn lemma_rest_object(
    s: Seq<char>,
    o1: int,
    p1: Position,
    braced: bool,
    d: Seq<(Seq<char>, SpecValue)>,
    k: Seq<char>,
    kspan: crate::parse::span::Span,
    v: SpecValue,
    sp2: crate::parse::span::Span,
    p2: Position,
    o3: int,
    p3: Position,
)
    requires
        0 <= o1 <= o3 <= s.len(),
        kspan.end.0 == p1.0,
        sp2.end.0 == p1.0,
        lex_at(s, o1, p1) == LexStep::Token(SpecLiteral::Equal, sp2, o1 + 2, p2),
        expect_value(s, o1 + 2, p2, kspan) == ValueStep::Done(v, false, o3, p3),
        key_index(d, k) < 0,
    ensures
        parse_entry(s, o1, p1, braced, d, Seq::empty(), k, kspan) == parse_object_at(
            s,
            o3,
            p3,
            braced,
            d.push((k, v)),
            Seq::empty(),
        ),
{
    lemma_key_index(d, k);
    assert(with_definition(d, Seq::empty(), k, v) == (d.push((k, v)), Seq::<Seq<char>>::empty()));
}

/// The object value of an entry, after the space behind its equal mark, is
/// read as the object read after its open brace.
#[verifier::rlimit(100)]
#[verifier::spinoff_prover]
proof fn lemma_object_value_read(
    s: Seq<char>,
    c: int,
    p: Position,
    w: int,
    k: Seq<char>,
    v: SpecValue,
    o3: int,
    p3: Position,
)
    requires
        0 <= c,
        0 <= w,
        c + 2 + entry_head(w, k).len() <= s.len(),
        s.subrange(c + 1, c + 1 + entry_head(w, k).len() as int) == entry_head(w, k),
        s[c + 1 + entry_head(w, k).len()] == '{',
        p.0 + 1 <= usize::MAX,
        entry_head(w, k).len() + 2 <= usize::MAX,
        reads_object(
            s,
            c + 2 + entry_head(w, k).len(),
            Position((p.0 + 1) as usize, (entry_head(w, k).len() + 2) as usize),
            v,
            o3,
            p3,
        ),
    ensures
        expect_value(
            s,
            c + 3 + w + k.len(),
            Position((p.0 + 1) as usize, (3 + w + k.len()) as usize),
            key_span_at(c, (p.0 + 1) as usize, w, k),
        ) == ValueStep::Done(v, false, o3, p3),
{
    let n = k.len() as int;
    assert(entry_head(w, k).len() == w + n + 3);
    lemma_head_chars(s, c, w, k);
    let line_no = (p.0 + 1) as usize;
    let o2 = c + 3 + w + n;
    let p2 = Position(line_no, (3 + w + n) as usize);
    lemma_lex_open_brace(s, o2, p2);
    lemma_expect_object(
        s,
        o2,
        p2,
        key_span_at(c, line_no, w, k),
        crate::parse::span::Span {
            start: Position(line_no, (4 + w + n) as usize),
            end: Position(line_no, (5 + w + n) as usize),
            offset: ((o2 + 1) as usize, (o2 + 2) as usize),
        },
        o2 + 2,
        Position(line_no, (5 + w + n) as usize),
        v,
        o3,
        p3,
    );
}

/// Parsing an entry, indented by `w`, whose value is the object read after
/// its open brace, adds the entry and goes on after the object.
#[verifier::rlimit(100)]
#[verifier::spinoff_prover]
proof fn lemma_object_step(
    s: Seq<char>,
    c: int,
    p: Position,
    w: int,
    k: Seq<char>,
    braced: bool,
    d: Seq<(Seq<char>, SpecValue)>,
    v: SpecValue,
    o3: int,
    p3: Position,
)
    requires
        0 <= c,
        0 <= w,
        c + 2 + entry_head(w, k).len() <= o3 <= s.len(),
        s[c] == '\n',
        s.subrange(c + 1, c + 1 + entry_head(w, k).len() as int) == entry_head(w, k),
        s[c + 1 + entry_head(w, k).len()] == '{',
        plain_word(k),
        key_index(d, k) < 0,
        p.0 + 1 <= usize::MAX,
        entry_head(w, k).len() + 2 <= usize::MAX,
        reads_object(
            s,
            c + 2 + entry_head(w, k).len(),
            Position((p.0 + 1) as usize, (entry_head(w, k).len() + 2) as usize),
            v,
            o3,
            p3,
        ),
    ensures
        parse_object_at(s, c, p, braced, d, Seq::empty()) == parse_object_at(
            s,
            o3,
            p3,
            braced,
            d.push((k, v)),
            Seq::empty(),
        ),
{
    let n = k.len() as int;
    let line_no = (p.0 + 1) as usize;
    lemma_head_read(s, c, p, w, k, braced, d);
    lemma_object_value_read(s, c, p, w, k, v, o3, p3);
    let o1 = c + 1 + w + n;
    let p1 = Position(line_no, (1 + w + n) as usize);
    lemma_rest_object(
        s,
        o1,
        p1,
        braced,
        d,
        k,
        key_span_at(c, line_no, w, k),
        v,
        crate::parse::span::Span {
            start: Position(line_no, (2 + w + n) as usize),
            end: Position(line_no, (3 + w + n) as usize),
            offset: ((o1 + 1) as usize, (o1 + 2) as usize),
        },
        Position(line_no, (3 + w + n) as usize),
        o3,
        p3,
    );
}

/// The last line break of a top-level object's text: the object ends there.
#[verifier::rlimit(100)]
#[verifier::spinoff_prover]
proof fn lemma_end_top(s: Seq<char>, c: int, p: Position, d: Seq<(Seq<char>, SpecValue)>)
    requires
        0 <= c,
        c + 1 == s.len(),
        s[c] == '\n',
    ensures
        parse_object_at(s, c, p, false, d, Seq::empty()) == ParseStep::Done(
            SpecValue::Object(d),
            s.len() as int,
            Position((p.0 + 1) as usize, 1),
        ),
{
    let q = Position((p.0 + 1) as usize, 1);
    assert(skip_ws(s, c + 1, q) == (c + 1, q));
    assert(skip_ws(s, c, p) == (c + 1, q));
}

/// A line break, blanks, then a close brace: the brace lexes on the next
/// line after the blanks.
#[verifier::rlimit(100)]
#[verifier::spinoff_prover]
proof fn lemma_lex_close_brace(s: Seq<char>, c: int, p: Position, w: int)
    requires
        0 <= c,
        0 <= w,
        c + 2 + w <= s.len(),
        s[c] == '\n',
        forall|j: int| c + 1 <= j < c + 1 + w ==> #[trigger] s[j] == ' ',
        s[c + 1 + w] == '}',
        w + 2 <= usize::MAX,
    ensures
        lex_at(s, c, p) == LexStep::Token(
            SpecLiteral::CloseBrace,
            crate::parse::span::Span {
                start: Position((p.0 + 1) as usize, (1 + w) as usize),
                end: Position((p.0 + 1) as usize, (2 + w) as usize),
                offset: ((c + 1 + w) as usize, (c + 2 + w) as usize),
            },
            c + 2 + w,
            Position((p.0 + 1) as usize, (2 + w) as usize),
        ),
{
    let q0 = Position((p.0 + 1) as usize, 1);
    lemma_skip_blanks(s, c + 1, c + 1 + w, q0);
    assert(skip_ws(s, c, p) == skip_ws(s, c + 1, q0));
}

/// Reading an object ends at its close brace.
#[verifier::rlimit(100)]
#[verifier::spinoff_prover]
proof fn lemma_object_step_close(
    s: Seq<char>,
    c: int,
    p: Position,
    d: Seq<(Seq<char>, SpecValue)>,
    span: crate::parse::span::Span,
    o1: int,
    p1: Position,
)
    requires
        0 <= c <= s.len(),
        lex_at(s, c, p) == LexStep::Token(SpecLiteral::CloseBrace, span, o1, p1),
    ensures
        parse_object_at(s, c, p, true, d, Seq::empty()) == ParseStep::Done(SpecValue::Object(d), o1, p1),
{
}

/// The last line break of a nested object's entries, then its indentation
/// and close brace: the object ends after the brace.
#[verifier::rlimit(100)]
#[verifier::spinoff_prover]
proof fn lemma_end_nested(s: Seq<char>, c: int, p: Position, w: int, d: Seq<(Seq<char>, SpecValue)>)
    requires
        0 <= c,
        0 <= w,
        c + 2 + w <= s.len(),
        s[c] == '\n',
        s.subrange(c + 1, c + 2 + w) == spaces(w) + seq!['}'],
        w + 2 <= usize::MAX,
    ensures
        parse_object_at(s, c, p, true, d, Seq::empty()) == ParseStep::Done(
            SpecValue::Object(d),
            c + 2 + w,
            Position((p.0 + 1) as usize, (w + 2) as usize),
        ),
{
    let u = spaces(w) + seq!['}'];
    assert forall|j: int| c + 1 <= j < c + 1 + w implies #[trigger] s[j] == ' ' by {
        assert(s[j] == s.subrange(c + 1, c + 2 + w)[j - c - 1]);
    }
    assert(s[c + 1 + w] == s.subrange(c + 1, c + 2 + w)[w]);
    assert(u[w] == '}');
    lemma_lex_close_brace(s, c, p, w);
    lemma_object_step_close(
        s,
        c,
        p,
        d,
        crate::parse::span::Span {
            start: Position((p.0 + 1) as usize, (1 + w) as usize),
            end: Position((p.0 + 1) as usize, (2 + w) as usize),
            offset: ((c + 1 + w) as usize, (c + 2 + w) as usize),
        },
        c + 2 + w,
        Position((p.0 + 1) as usize, (2 + w) as usize),
    );
}

/// The names of the entries before `m` are not the name of entry `m`.
proof fn lemma_fresh_key_at(e: Seq<(Seq<char>, SpecValue)>, m: int)
    requires
        keys_distinct(e),
        0 <= m < e.len(),
    ensures
        key_index(e.subrange(0, m), e[m].0) < 0,
{
    let d = e.subrange(0, m);
    assert forall|j: int| 0 <= j < d.len() implies d[j].0 != e[m].0 by {
        assert(d[j] == e[j]);
    }
    lemma_key_index(d, e[m].0);
}

/// Where the text holding the entries of `e` at depth `d` after a line
/// break at `c0` ends: at the end of the entries for the top level, after
/// the close brace below.
pub open spec fn entries_end(c0: int, e: Seq<(Seq<char>, SpecValue)>, d: int) -> int {
    c0 + 1 + entries_text(pretty_layout(), e, d, e.len() as int).len() + if d > 0 {
        2 * (d - 1) + 1
    } else {
        0
    }
}

/// Whether `s` holds, from `c0`, a line break then the entries of `e` at
/// depth `d`: the text ends there at the top level, and below it goes on
/// with the indentation and the close brace.
pub open spec fn holds_entries(s: Seq<char>, c0: int, e: Seq<(Seq<char>, SpecValue)>, d: int) -> bool {
    let t = entries_text(pretty_layout(), e, d, e.len() as int);
    &&& 0 <= c0
    &&& 0 <= d
    &&& entries_end(c0, e, d) <= s.len()
    &&& s.subrange(c0, c0 + 1 + t.len()) == seq!['\n'] + t
    &&& d == 0 ==> s.len() == c0 + 1 + t.len()
    &&& d > 0 ==> s.subrange(c0 + 1 + t.len(), entries_end(c0, e, d)) == spaces(2 * (d - 1)) + seq!['}']
}

/// In a text holding the entries of `e`, a line break stands before each
/// entry and at the end, and each entry's text follows its line break.
proof fn lemma_region_entry(s: Seq<char>, c0: int, e: Seq<(Seq<char>, SpecValue)>, d: int, m: int)
    requires
        holds_entries(s, c0, e, d),
        0 <= m <= e.len(),
    ensures
        ({
            let c = c0 + entries_text(pretty_layout(), e, d, m).len();
            &&& s[c] == '\n'
            &&& m < e.len() ==> c + 1 + entry_text(e[m].0, e[m].1, d).len() <= s.len() && s.subrange(
                c + 1,
                c + 1 + entry_text(e[m].0, e[m].1, d).len(),
            ) == entry_text(e[m].0, e[m].1, d)
        }),
{
    let l = pretty_layout();
    let n = e.len() as int;
    let t = entries_text(l, e, d, n);
    let a = entries_text(l, e, d, m);
    let c = c0 + a.len();
    let whole = seq!['\n'] + t;
    lemma_entries_prefix_at(e, d, m, n);
    assert forall|j: int| 0 <= j < whole.len() implies #[trigger] s[c0 + j] == whole[j] by {
        assert(s[c0 + j] == s.subrange(c0, c0 + 1 + t.len())[j]);
    }
    if m > 0 {
        lemma_entries_snoc(e, d, m);
        let last = entry_text(e[m - 1].0, e[m - 1].1, d);
        assert(a[a.len() - 1] == last[last.len() - 1]);
        assert(t[a.len() - 1] == a[a.len() - 1]);
        assert(s[c0 + a.len()] == whole[a.len() as int]);
    } else {
        assert(s[c0 + 0] == whole[0]);
    }
    if m < n {
        lemma_entries_snoc(e, d, m + 1);
        lemma_entries_prefix_at(e, d, m + 1, n);
        let et = entry_text(e[m].0, e[m].1, d);
        let b = entries_text(l, e, d, m + 1);
        assert(b == a + et);
        assert(s.subrange(c + 1, c + 1 + et.len()) =~= et) by {
            assert forall|j: int| 0 <= j < et.len() implies s.subrange(c + 1, c + 1 + et.len())[j] == et[j] by {
                assert(s[c0 + (1 + a.len() + j)] == whole[1 + a.len() + j]);
                assert(t[a.len() + j] == b[a.len() + j]);
            }
        }
    }
}

/// The text of an entry whose value is an object: its head, the open brace,
/// the object's entries after a line break, then its indentation and close
/// brace, and a line break.
proof fn lemma_object_region(
    s: Seq<char>,
    c: int,
    k: Seq<char>,
    e2: Seq<(Seq<char>, SpecValue)>,
    d: int,
)
    requires
        0 <= c,
        0 <= d,
        c + 1 + entry_text(k, SpecValue::Object(e2), d).len() <= s.len(),
        s.subrange(c + 1, c + 1 + entry_text(k, SpecValue::Object(e2), d).len()) == entry_text(
            k,
            SpecValue::Object(e2),
            d,
        ),
    ensures
        ({
            let h = entry_head(2 * d, k).len() as int;
            &&& s.subrange(c + 1, c + 1 + h) == entry_head(2 * d, k)
            &&& s[c + 1 + h] == '{'
            &&& holds_entries(s, c + 2 + h, e2, d + 1)
            &&& entries_end(c + 2 + h, e2, d + 1) == c + entry_text(k, SpecValue::Object(e2), d).len()
        }),
{
    let l = pretty_layout();
    let h = entry_head(2 * d, k).len() as int;
    let t2 = entries_text(l, e2, d + 1, e2.len() as int);
    let et = entry_text(k, SpecValue::Object(e2), d);
    let tail = spaces(2 * d) + seq!['}'];
    assert(element_text(l, SpecValue::Object(e2), d) == object_text(l, e2, d + 1));
    assert(object_text(l, e2, d + 1) =~= seq!['{'] + (seq!['\n'] + t2) + tail);
    assert(et =~= entry_head(2 * d, k) + seq!['{'] + (seq!['\n'] + t2) + tail + seq!['\n']);
    let whole = s.subrange(c + 1, c + 1 + et.len());
    assert(s.subrange(c + 1, c + 1 + h) =~= whole.subrange(0, h));
    assert(et.subrange(0, h) =~= entry_head(2 * d, k));
    assert(s[c + 1 + h] == whole[h]);
    let c0 = c + 2 + h;
    assert(s.subrange(c0, c0 + 1 + t2.len()) =~= whole.subrange(h + 1, h + 2 + t2.len()));
    assert(et.subrange(h + 1, h + 2 + t2.len()) =~= seq!['\n'] + t2);
    assert(s.subrange(c0 + 1 + t2.len(), c0 + 1 + t2.len() + tail.len()) =~= whole.subrange(
        h + 2 + t2.len(),
        h + 2 + t2.len() + tail.len(),
    ));
    assert(et.subrange(h + 2 + t2.len(), h + 2 + t2.len() + tail.len()) =~= tail);
}

/// The text of the entry `k = v`, for a value written on one line, is the
/// line of that entry.
proof fn lemma_entry_is_line(k: Seq<char>, v: SpecValue, d: int)
    requires
        plain_scalar(v),
    ensures
        entry_text(k, v, d) == line_at(2 * d, k, v),
{
    lemma_value_layer(v, d);
    assert(entry_text(k, v, d) =~= line_at(2 * d, k, v));
}

/// The text of an entry whose value is an array: its head, the array, a
/// semicolon and a line break.
proof fn lemma_array_region(s: Seq<char>, c: int, k: Seq<char>, a: Seq<SpecValue>, d: int)
    requires
        0 <= c,
        0 <= d,
        c + 1 + entry_text(k, SpecValue::Array(a), d).len() <= s.len(),
        s.subrange(c + 1, c + 1 + entry_text(k, SpecValue::Array(a), d).len()) == entry_text(
            k,
            SpecValue::Array(a),
            d,
        ),
    ensures
        ({
            let h = entry_head(2 * d, k).len() as int;
            let t = array_text(pretty_layout(), a, d + 1);
            &&& t.len() >= 4
            &&& s.subrange(c + 1, c + 1 + h) == entry_head(2 * d, k)
            &&& s[c + 1 + h] == '['
            &&& s.subrange(c + 2 + h, c + 1 + h + t.len()) == t.subrange(1, t.len() as int)
            &&& s[c + 1 + h + t.len()] == ';'
            &&& c + entry_text(k, SpecValue::Array(a), d).len() == c + 2 + h + t.len()
        }),
{
    let l = pretty_layout();
    let h = entry_head(2 * d, k).len() as int;
    let t = array_text(l, a, d + 1);
    lemma_array_text_shape(a, d + 1);
    let et = entry_text(k, SpecValue::Array(a), d);
    assert(element_text(l, SpecValue::Array(a), d) == t);
    assert(et =~= entry_head(2 * d, k) + t + seq![';', '\n']);
    let whole = s.subrange(c + 1, c + 1 + et.len());
    assert(s.subrange(c + 1, c + 1 + h) =~= whole.subrange(0, h));
    assert(et.subrange(0, h) =~= entry_head(2 * d, k));
    assert(s[c + 1 + h] == whole[h]);
    assert(et[h] == t[0]);
    assert(s.subrange(c + 2 + h, c + 1 + h + t.len()) =~= whole.subrange(h + 1, h + t.len()));
    assert(et.subrange(h + 1, h + t.len()) =~= t.subrange(1, t.len() as int));
    assert(s[c + 1 + h + t.len()] == whole[h + t.len()]);
}

/// What reading the entries of `e` at depth `d` from the line break before
/// entry `m` needs: the text holding them, plain entries, room for the
/// positions, and a line number no greater than the lines so far.
pub open spec fn entries_ready(
    s: Seq<char>,
    c0: int,
    e: Seq<(Seq<char>, SpecValue)>,
    d: int,
    m: int,
    p: Position,
) -> bool {
    &&& holds_entries(s, c0, e, d)
    &&& 0 <= m <= e.len()
    &&& keys_distinct(e)
    &&& plain_members(e, e.len() as int)
    &&& s.len() + 2 <= usize::MAX
    &&& p.0 <= c0 + entries_text(pretty_layout(), e, d, m).len() + 1
}

/// Whether reading the entries of `e` at depth `d` from the line break
/// before entry `m` gives the whole object and ends where their text ends.
pub open spec fn entries_read(
    s: Seq<char>,
    c0: int,
    e: Seq<(Seq<char>, SpecValue)>,
    d: int,
    m: int,
    p: Position,
) -> bool {
    parse_object_at(
        s,
        c0 + entries_text(pretty_layout(), e, d, m).len(),
        p,
        d > 0,
        e.subrange(0, m),
        Seq::empty(),
    ) matches ParseStep::Done(v, o_end, p_end) && v == SpecValue::Object(e) && o_end == entries_end(
        c0,
        e,
        d,
    ) && p_end.0 <= o_end + 1 && p_end.1 <= o_end + 1
}

/// What holds of entry `m` of entries ready to be read.
proof fn lemma_entry_facts(
    s: Seq<char>,
    c0: int,
    e: Seq<(Seq<char>, SpecValue)>,
    d: int,
    m: int,
    p: Position,
)
    requires
        entries_ready(s, c0, e, d, m, p),
        m < e.len(),
    ensures
        ({
            let l = pretty_layout();
            let c = c0 + entries_text(l, e, d, m).len();
            let et = entry_text(e[m].0, e[m].1, d);
            &&& s[c] == '\n'
            &&& c + 1 + et.len() <= s.len()
            &&& s.subrange(c + 1, c + 1 + et.len()) == et
            &&& plain_word(e[m].0)
            &&& plain_tree(e[m].1)
            &&& key_index(e.subrange(0, m), e[m].0) < 0
            &&& c0 + entries_text(l, e, d, m + 1).len() == c + et.len()
            &&& e.subrange(0, m).push(e[m]) == e.subrange(0, m + 1)
        }),
{
    let l = pretty_layout();
    let n = e.len() as int;
    lemma_region_entry(s, c0, e, d, m);
    lemma_plain_members(e, n, m);
    lemma_fresh_key_at(e, m);
    lemma_entries_snoc(e, d, m + 1);
    assert(e.subrange(0, m).push(e[m]) =~= e.subrange(0, m + 1));
}

/// Parsing the entries of `e` at depth `d`, from the line break before
/// entry `m`, reads the rest of them and ends where their text ends.
#[verifier::rlimit(100)]
#[verifier::spinoff_prover]
proof fn lemma_read_entries(
    s: Seq<char>,
    c0: int,
    e: Seq<(Seq<char>, SpecValue)>,
    d: int,
    m: int,
    p: Position,
)
    requires
        entries_ready(s, c0, e, d, m, p),
    ensures
        entries_read(s, c0, e, d, m, p),
    decreases e, e.len() - m, 1int,
{
    let l = pretty_layout();
    let n = e.len() as int;
    if m < n {
        if e[m].1 is Object {
            lemma_entry_object(s, c0, e, d, m, p);
        } else if e[m].1 is Array {
            lemma_entry_array(s, c0, e, d, m, p);
        } else {
            lemma_entry_scalar(s, c0, e, d, m, p);
        }
    } else {
        let c = c0 + entries_text(l, e, d, m).len();
        lemma_region_entry(s, c0, e, d, m);
        assert(e.subrange(0, m) =~= e);
        if d == 0 {
            lemma_end_top(s, c, p, e);
        } else {
            lemma_end_nested(s, c, p, 2 * (d - 1), e);
        }
    }
}

/// Reading entry `m`, whose value is an object, then the rest.
#[verifier::rlimit(100)]
#[verifier::spinoff_prover]
proof fn lemma_entry_object(
    s: Seq<char>,
    c0: int,
    e: Seq<(Seq<char>, SpecValue)>,
    d: int,
    m: int,
    p: Position,
)
    requires
        entries_ready(s, c0, e, d, m, p),
        m < e.len(),
        e[m].1 is Object,
    ensures
        entries_read(s, c0, e, d, m, p),
    decreases e, e.len() - m, 0int,
{
    let l = pretty_layout();
    let n = e.len() as int;
    lemma_entry_facts(s, c0, e, d, m, p);
    lemma_entries_prefix_at(e, d, m + 1, n);
    let c = c0 + entries_text(l, e, d, m).len();
    let k = e[m].0;
    let v = e[m].1;
    let e2 = v->Object_0;
    let h = entry_head(2 * d, k).len() as int;
    let pb = Position((p.0 + 1) as usize, (h + 2) as usize);
    assert(decreases_to!(e => e[m]));
    assert(decreases_to!(e[m] => e[m].1));
    lemma_object_region(s, c, k, e2, d);
    let c0b = c + 2 + h;
    assert(entries_text(l, e2, d + 1, 0).len() == 0);
    assert(e2.subrange(0, 0) =~= Seq::<(Seq<char>, SpecValue)>::empty());
    lemma_read_entries(s, c0b, e2, d + 1, 0, pb);
    let r = parse_object_at(s, c0b, pb, true, Seq::empty(), Seq::empty());
    let o3 = r->Done_1;
    let p3 = r->Done_2;
    assert(reads_object(s, c0b, pb, v, o3, p3)) by {
        reveal(reads_object);
    }
    lemma_object_step(s, c, p, 2 * d, k, d > 0, e.subrange(0, m), v, o3, p3);
    lemma_read_entries(s, c0, e, d, m + 1, p3);
}

/// Reading entry `m`, whose value is an array, then the rest.
#[verifier::rlimit(100)]
#[verifier::spinoff_prover]
proof fn lemma_entry_array(
    s: Seq<char>,
    c0: int,
    e: Seq<(Seq<char>, SpecValue)>,
    d: int,
    m: int,
    p: Position,
)
    requires
        entries_ready(s, c0, e, d, m, p),
        m < e.len(),
        e[m].1 is Array,
    ensures
        entries_read(s, c0, e, d, m, p),
    decreases e, e.len() - m, 0int,
{
    let l = pretty_layout();
    let n = e.len() as int;
    lemma_entry_facts(s, c0, e, d, m, p);
    lemma_entries_prefix_at(e, d, m + 1, n);
    let c = c0 + entries_text(l, e, d, m).len();
    let k = e[m].0;
    let v = e[m].1;
    let a2 = v->Array_0;
    let h = entry_head(2 * d, k).len() as int;
    let pb = Position((p.0 + 1) as usize, (h + 2) as usize);
    assert(decreases_to!(e => e[m]));
    assert(decreases_to!(e[m] => e[m].1));
    lemma_array_region(s, c, k, a2, d);
    let ob = c + 2 + h;
    lemma_read_array(s, ob, a2, d + 1, pb);
    let r = parse_array_at(s, ob, pb, false, Seq::empty());
    let o3 = r->Done_1;
    let p3 = r->Done_2;
    assert(reads_array(s, ob, pb, v, o3, p3)) by {
        reveal(reads_array);
    }
    lemma_array_entry_step(s, c, p, 2 * d, k, d > 0, e.subrange(0, m), v, o3, p3);
    lemma_read_entries(s, c0, e, d, m + 1, Position(p3.0, (p3.1 + 1) as usize));
}

/// Reading entry `m`, whose value is a scalar on its line, then the rest.
#[verifier::rlimit(100)]
#[verifier::spinoff_prover]
proof fn lemma_entry_scalar(
    s: Seq<char>,
    c0: int,
    e: Seq<(Seq<char>, SpecValue)>,
    d: int,
    m: int,
    p: Position,
)
    requires
        entries_ready(s, c0, e, d, m, p),
        m < e.len(),
        !(e[m].1 is Object),
        !(e[m].1 is Array),
    ensures
        entries_read(s, c0, e, d, m, p),
    decreases e, e.len() - m, 0int,
{
    let l = pretty_layout();
    let n = e.len() as int;
    lemma_entry_facts(s, c0, e, d, m, p);
    lemma_entries_prefix_at(e, d, m + 1, n);
    let c = c0 + entries_text(l, e, d, m).len();
    let k = e[m].0;
    let v = e[m].1;
    assert(plain_scalar(v));
    lemma_entry_is_line(k, v, d);
    let len = line_at(2 * d, k, v).len();
    lemma_line_step(s, c, p, 2 * d, k, v, d > 0, e.subrange(0, m));
    lemma_read_entries(s, c0, e, d, m + 1, Position((p.0 + 1) as usize, len as usize));
}

/// Parsing an array at depth `d` after its open bracket reads it to its
/// close bracket.
#[verifier::rlimit(100)]
#[verifier::spinoff_prover]
proof fn lemma_read_array(s: Seq<char>, o: int, a: Seq<SpecValue>, d: int, q: Position)
    requires
        0 <= o,
        1 <= d,
        plain_elems(a, a.len() as int),
        o + array_text(pretty_layout(), a, d).len() - 1 <= s.len(),
        s.subrange(o, o + array_text(pretty_layout(), a, d).len() - 1) == array_text(
            pretty_layout(),
            a,
            d,
        ).subrange(1, array_text(pretty_layout(), a, d).len() as int),
        s.len() + 2 <= usize::MAX,
        q.0 <= o + 1,
        q.1 <= o + 1,
    ensures
        parse_array_at(s, o, q, false, Seq::empty()) matches ParseStep::Done(v, o3, p3) && v
            == SpecValue::Array(a) && o3 == o + array_text(pretty_layout(), a, d).len() - 1 && p3.0
            <= o3 + 1 && p3.1 <= o3 + 1,
    decreases a, a.len() + 1, 0int,
{
    let t = array_text(pretty_layout(), a, d);
    lemma_array_text_shape(a, d);
    let u = t.subrange(1, t.len() as int);
    if a.len() == 0 {
        assert(s[o] == u[0]);
        assert(s[o + 1] == u[1]);
        assert(s[o + 2] == u[2]);
        lemma_lex_close(s, o, o + 2, q);
        lemma_array_step_close(
            s,
            o,
            q,
            Seq::empty(),
            crate::parse::span::Span {
                start: Position(q.0, (q.1 + 2) as usize),
                end: Position(q.0, (q.1 + 3) as usize),
                offset: ((o + 2) as usize, (o + 3) as usize),
            },
            o + 3,
            Position(q.0, (q.1 + 3) as usize),
        );
        assert(a =~= Seq::<SpecValue>::empty());
    } else {
        assert(u =~= elems_rest(a, d, 0));
        assert(a.subrange(0, 0) =~= Seq::<SpecValue>::empty());
        lemma_read_elems(s, o, a, d, 0, q);
    }
}

/// What reading the elements of an array at depth `d` from element `m` on
/// needs: the text holding them, plain elements, room for the positions,
/// and a position no greater than the characters so far.
pub open spec fn elems_ready(s: Seq<char>, o: int, a: Seq<SpecValue>, d: int, m: int, q: Position) -> bool {
    &&& 0 <= o
    &&& 1 <= d
    &&& 0 <= m <= a.len()
    &&& plain_elems(a, a.len() as int)
    &&& o + elems_rest(a, d, m).len() <= s.len()
    &&& s.subrange(o, o + elems_rest(a, d, m).len()) == elems_rest(a, d, m)
    &&& s.len() + 2 <= usize::MAX
    &&& q.0 <= o + 1
    &&& q.1 <= o + 1
}

/// Whether reading the elements of an array at depth `d` from element `m`
/// on gives the whole array and ends after its close bracket.
pub open spec fn elems_read(s: Seq<char>, o: int, a: Seq<SpecValue>, d: int, m: int, q: Position) -> bool {
    parse_array_at(s, o, q, false, a.subrange(0, m)) matches ParseStep::Done(v, o3, p3) && v
        == SpecValue::Array(a) && o3 == o + elems_rest(a, d, m).len() && p3.0 <= o3 + 1 && p3.1 <= o3
        + 1
}

/// What holds of element `m` of elements ready to be read.
proof fn lemma_elem_facts(s: Seq<char>, o: int, a: Seq<SpecValue>, d: int, m: int, q: Position)
    requires
        elems_ready(s, o, a, d, m, q),
        m < a.len(),
    ensures
        ({
            let t = element_text(pretty_layout(), a[m], d);
            let rest = elems_rest(a, d, m + 1);
            &&& plain_tree(a[m])
            &&& elems_rest(a, d, m) == seq![' '] + t + seq![','] + rest
            &&& s[o] == ' '
            &&& s.subrange(o + 1, o + 1 + t.len()) == t
            &&& s[o + 1 + t.len()] == ','
            &&& s.subrange(o + 2 + t.len(), o + 2 + t.len() + rest.len()) == rest
            &&& a.subrange(0, m).push(a[m]) == a.subrange(0, m + 1)
        }),
{
    let l = pretty_layout();
    let r = elems_rest(a, d, m);
    let t = element_text(l, a[m], d);
    let rest = elems_rest(a, d, m + 1);
    lemma_plain_elems(a, a.len() as int, m);
    assert(r == seq![' '] + t + seq![','] + rest);
    let tl = t.len() as int;
    let whole = s.subrange(o, o + r.len());
    assert(s[o] == whole[0]);
    assert(s.subrange(o + 1, o + 1 + tl) =~= whole.subrange(1, 1 + tl));
    assert(r.subrange(1, 1 + tl) =~= t);
    assert(s[o + 1 + tl] == whole[1 + tl]);
    assert(s.subrange(o + 2 + tl, o + 2 + tl + rest.len()) =~= whole.subrange(2 + tl, r.len() as int));
    assert(r.subrange(2 + tl, r.len() as int) =~= rest);
    assert(a.subrange(0, m).push(a[m]) =~= a.subrange(0, m + 1));
}

/// A comma after an element: reading goes on after it.
proof fn lemma_after_comma(s: Seq<char>, oc: int, pc: Position, acc: Seq<SpecValue>)
    requires
        0 <= oc < s.len(),
        s[oc] == ',',
        pc.1 + 1 <= usize::MAX,
    ensures
        parse_array_at(s, oc, pc, true, acc) == parse_array_at(
            s,
            oc + 1,
            Position(pc.0, (pc.1 + 1) as usize),
            false,
            acc,
        ),
{
    lemma_lex_comma(s, oc, pc);
    lemma_array_step_comma(
        s,
        oc,
        pc,
        acc,
        crate::parse::span::Span {
            start: pc,
            end: Position(pc.0, (pc.1 + 1) as usize),
            offset: (oc as usize, (oc + 1) as usize),
        },
        oc + 1,
        Position(pc.0, (pc.1 + 1) as usize),
    );
}

/// Parsing the elements of an array at depth `d` from element `m` on reads
/// the rest of them and the close bracket.
#[verifier::rlimit(100)]
#[verifier::spinoff_prover]
proof fn lemma_read_elems(s: Seq<char>, o: int, a: Seq<SpecValue>, d: int, m: int, q: Position)
    requires
        elems_ready(s, o, a, d, m, q),
    ensures
        elems_read(s, o, a, d, m, q),
    decreases a, a.len() - m, 1int,
{
    let r = elems_rest(a, d, m);
    if m == a.len() {
        assert(s[o] == s.subrange(o, o + r.len())[0]);
        assert(s[o + 1] == s.subrange(o, o + r.len())[1]);
        lemma_lex_close(s, o, o + 1, q);
        lemma_array_step_close(
            s,
            o,
            q,
            a.subrange(0, m),
            crate::parse::span::Span {
                start: Position(q.0, (q.1 + 1) as usize),
                end: Position(q.0, (q.1 + 2) as usize),
                offset: ((o + 1) as usize, (o + 2) as usize),
            },
            o + 2,
            Position(q.0, (q.1 + 2) as usize),
        );
        assert(a.subrange(0, m) =~= a);
    } else if a[m] is Array {
        lemma_elem_array(s, o, a, d, m, q);
    } else if a[m] is Object {
        lemma_elem_object(s, o, a, d, m, q);
    } else {
        lemma_elem_scalar(s, o, a, d, m, q);
    }
}

/// Reading element `m`, an array, then the rest.
#[verifier::rlimit(100)]
#[verifier::spinoff_prover]
proof fn lemma_elem_array(s: Seq<char>, o: int, a: Seq<SpecValue>, d: int, m: int, q: Position)
    requires
        elems_ready(s, o, a, d, m, q),
        m < a.len(),
        a[m] is Array,
    ensures
        elems_read(s, o, a, d, m, q),
    decreases a, a.len() - m, 0int,
{
    let l = pretty_layout();
    lemma_elem_facts(s, o, a, d, m, q);
    let v = a[m];
    let a2 = v->Array_0;
    let t = element_text(l, v, d);
    let tl = t.len() as int;
    lemma_array_text_shape(a2, d + 1);
    assert(t == array_text(l, a2, d + 1));
    assert(decreases_to!(a => a[m]));
    assert(s[o + 1] == s.subrange(o + 1, o + 1 + tl)[0]);
    lemma_lex_open(s, o, q);
    let q1 = Position(q.0, (q.1 + 2) as usize);
    assert(s.subrange(o + 2, o + 1 + tl) =~= s.subrange(o + 1, o + 1 + tl).subrange(1, tl));
    lemma_read_array(s, o + 2, a2, d + 1, q1);
    let rr = parse_array_at(s, o + 2, q1, false, Seq::empty());
    let o3 = rr->Done_1;
    let p3 = rr->Done_2;
    assert(reads_array(s, o + 2, q1, v, o3, p3)) by {
        reveal(reads_array);
    }
    lemma_elem_array_step(
        s,
        o,
        q,
        a.subrange(0, m),
        crate::parse::span::Span {
            start: Position(q.0, (q.1 + 1) as usize),
            end: q1,
            offset: ((o + 1) as usize, (o + 2) as usize),
        },
        o + 2,
        q1,
        v,
        o3,
        p3,
    );
    lemma_after_comma(s, o3, p3, a.subrange(0, m + 1));
    lemma_read_elems(s, o3 + 1, a, d, m + 1, Position(p3.0, (p3.1 + 1) as usize));
}

/// Reading element `m`, an object, then the rest.
#[verifier::rlimit(100)]
#[verifier::spinoff_prover]
proof fn lemma_elem_object(s: Seq<char>, o: int, a: Seq<SpecValue>, d: int, m: int, q: Position)
    requires
        elems_ready(s, o, a, d, m, q),
        m < a.len(),
        a[m] is Object,
    ensures
        elems_read(s, o, a, d, m, q),
    decreases a, a.len() - m, 0int,
{
    let l = pretty_layout();
    lemma_elem_facts(s, o, a, d, m, q);
    let v = a[m];
    let e2 = v->Object_0;
    let t = element_text(l, v, d);
    let tl = t.len() as int;
    let b = entries_text(l, e2, d + 1, e2.len() as int);
    let bl = b.len() as int;
    assert(t == object_text(l, e2, d + 1));
    assert(t =~= seq!['{'] + (seq!['\n'] + b) + (spaces(2 * d) + seq!['}']));
    assert(decreases_to!(a => a[m]));
    let inner = s.subrange(o + 1, o + 1 + tl);
    assert(s[o + 1] == inner[0]);
    lemma_lex_open_brace(s, o, q);
    let q1 = Position(q.0, (q.1 + 2) as usize);
    assert(s.subrange(o + 2, o + 3 + bl) =~= inner.subrange(1, 2 + bl));
    assert(t.subrange(1, 2 + bl) =~= seq!['\n'] + b);
    assert(s.subrange(o + 3 + bl, o + 4 + bl + 2 * d) =~= inner.subrange(2 + bl, 3 + bl + 2 * d));
    assert(t.subrange(2 + bl, 3 + bl + 2 * d) =~= spaces(2 * d) + seq!['}']);
    assert(holds_entries(s, o + 2, e2, d + 1));
    assert(entries_text(l, e2, d + 1, 0).len() == 0);
    assert(e2.subrange(0, 0) =~= Seq::<(Seq<char>, SpecValue)>::empty());
    lemma_read_entries(s, o + 2, e2, d + 1, 0, q1);
    let rr = parse_object_at(s, o + 2, q1, true, Seq::empty(), Seq::empty());
    let o3 = rr->Done_1;
    let p3 = rr->Done_2;
    assert(reads_object(s, o + 2, q1, v, o3, p3)) by {
        reveal(reads_object);
    }
    lemma_elem_object_step(
        s,
        o,
        q,
        a.subrange(0, m),
        crate::parse::span::Span {
            start: Position(q.0, (q.1 + 1) as usize),
            end: q1,
            offset: ((o + 1) as usize, (o + 2) as usize),
        },
        o + 2,
        q1,
        v,
        o3,
        p3,
    );
    lemma_after_comma(s, o3, p3, a.subrange(0, m + 1));
    lemma_read_elems(s, o3 + 1, a, d, m + 1, Position(p3.0, (p3.1 + 1) as usize));
}

/// Reading element `m`, a scalar, then the rest.
#[verifier::rlimit(100)]
#[verifier::spinoff_prover]
proof fn lemma_elem_scalar(s: Seq<char>, o: int, a: Seq<SpecValue>, d: int, m: int, q: Position)
    requires
        elems_ready(s, o, a, d, m, q),
        m < a.len(),
        !(a[m] is Array),
        !(a[m] is Object),
    ensures
        elems_read(s, o, a, d, m, q),
    decreases a, a.len() - m, 0int,
{
    let l = pretty_layout();
    lemma_elem_facts(s, o, a, d, m, q);
    let v = a[m];
    let t = element_text(l, v, d);
    let len = t.len() as int;
    let rest = elems_rest(a, d, m + 1);
    lemma_scalar_layer(v, d);
    lemma_scalar_facts(v);
    assert(s.subrange(o, o + 2 + len + rest.len()) =~= seq![' '] + scalar_text(v) + seq![','] + rest);
    lemma_cell(s, o, q, v, rest);
    let o1 = o + 1 + len;
    let p1 = Position(q.0, (q.1 + 1 + len) as usize);
    lemma_array_step_value(
        s,
        o,
        q,
        a.subrange(0, m),
        scalar_literal(v),
        crate::parse::span::Span {
            start: Position(q.0, (q.1 + 1) as usize),
            end: p1,
            offset: ((o + 1) as usize, o1 as usize),
        },
        o1,
        p1,
        v,
    );
    lemma_after_comma(s, o1, p1, a.subrange(0, m + 1));
    lemma_read_elems(s, o1 + 1, a, d, m + 1, Position(p1.0, (p1.1 + 1) as usize));
}

/// The text of the array `a` at depth `d` after its open bracket, from
/// element `m` on: each element after a space and before a comma, then a
/// space and the close bracket.
pub open spec fn elems_rest(a: Seq<SpecValue>, d: int, m: int) -> Seq<char>
    decreases a.len() - m,
{
    if m < 0 || m >= a.len() {
        seq![' ', ']']
    } else {
        seq![' '] + element_text(pretty_layout(), a[m], d) + seq![','] + elems_rest(a, d, m + 1)
    }
}

/// The first `k` elements of the array `a` at depth `d`, each after a space
/// and before a comma.
pub open spec fn elems_cells(a: Seq<SpecValue>, d: int, k: int) -> Seq<char>
    decreases k,
{
    if k <= 0 || k > a.len() {
        Seq::empty()
    } else {
        elems_cells(a, d, k - 1) + seq![' '] + element_text(pretty_layout(), a[k - 1], d) + seq![',']
    }
}

/// The elements written so far, after the space that opens the array, are
/// the cells read so far: followed by a space before the last element, and
/// without it after.
proof fn lemma_cells_at(a: Seq<SpecValue>, d: int, k: int)
    requires
        0 <= k <= a.len(),
    ensures
        k < a.len() ==> seq![' '] + elements_text(pretty_layout(), a, d, k) == elems_cells(a, d, k) + seq![' '],
        k == a.len() && k > 0 ==> seq![' '] + elements_text(pretty_layout(), a, d, k) == elems_cells(a, d, k),
    decreases k,
{
    let l = pretty_layout();
    if k > 0 {
        lemma_cells_at(a, d, k - 1);
        assert(spaces(1) =~= seq![' ']);
        assert(seq![' '] + elements_text(l, a, d, k) =~= seq![' '] + elements_text(l, a, d, k - 1)
            + element_text(l, a[k - 1], d) + (if k == a.len() {
            seq![',']
        } else {
            seq![','] + seq![' ']
        }));
        if k < a.len() {
            assert(seq![' '] + elements_text(l, a, d, k) =~= elems_cells(a, d, k) + seq![' ']);
        } else {
            assert(seq![' '] + elements_text(l, a, d, k) =~= elems_cells(a, d, k));
        }
    } else {
        assert(seq![' '] + elements_text(l, a, d, k) =~= elems_cells(a, d, k) + seq![' ']);
    }
}

/// The cells before `k` and the rest from `k` make the whole rest.
proof fn lemma_cells_rest_at(a: Seq<SpecValue>, d: int, k: int)
    requires
        0 <= k <= a.len(),
    ensures
        elems_cells(a, d, k) + elems_rest(a, d, k) == elems_rest(a, d, 0),
    decreases k,
{
    if k > 0 {
        lemma_cells_rest_at(a, d, k - 1);
        assert(elems_cells(a, d, k) + elems_rest(a, d, k) =~= elems_cells(a, d, k - 1) + elems_rest(a, d, k - 1));
    } else {
        assert(elems_cells(a, d, 0) + elems_rest(a, d, 0) =~= elems_rest(a, d, 0));
    }
}

/// The text of an array at depth `d`: the open bracket and two spaces
/// before the close bracket where it is empty; else the open bracket and
/// the rest.
proof fn lemma_array_text_shape(a: Seq<SpecValue>, d: int)
    ensures
        a.len() == 0 ==> array_text(pretty_layout(), a, d) == seq!['[', ' ', ' ', ']'],
        a.len() > 0 ==> array_text(pretty_layout(), a, d) == seq!['['] + elems_rest(a, d, 0),
{
    let l = pretty_layout();
    let n = a.len() as int;
    assert(spaces(1) =~= seq![' ']);
    if n == 0 {
        assert(array_text(l, a, d) =~= seq!['[', ' ', ' ', ']']);
    } else {
        lemma_cells_at(a, d, n);
        lemma_cells_rest_at(a, d, n);
        assert(array_text(l, a, d) =~= seq!['['] + (seq![' '] + elements_text(l, a, d, n)) + seq![' ', ']']);
        assert(elems_rest(a, d, n) == seq![' ', ']']);
    }
}

/// Whether reading an array's elements from offset `o`, position `p`, after
/// its open bracket, gives `v`, ending at offset `o3`, position `p3`.
#[verifier::opaque]
pub open spec fn reads_array(s: Seq<char>, o: int, p: Position, v: SpecValue, o3: int, p3: Position) -> bool {
    parse_array_at(s, o, p, false, Seq::empty()) == ParseStep::Done(v, o3, p3)
}

/// Reading an array goes on past an element that is an array.
proof fn lemma_elem_array_step(
    s: Seq<char>,
    o: int,
    p: Position,
    acc: Seq<SpecValue>,
    span: crate::parse::span::Span,
    o1: int,
    p1: Position,
    v: SpecValue,
    o2: int,
    p2: Position,
)
    requires
        0 <= o <= o1 <= o2 <= s.len(),
        lex_at(s, o, p) == LexStep::Token(SpecLiteral::OpenBracket, span, o1, p1),
        reads_array(s, o1, p1, v, o2, p2),
    ensures
        parse_array_at(s, o, p, false, acc) == parse_array_at(s, o2, p2, true, acc.push(v)),
{
    reveal(reads_array);
    assert(element_at(s, SpecLiteral::OpenBracket, span, o1, p1) == ParseStep::Done(v, o2, p2));
}

/// Reading an array goes on past an element that is an object.
proof fn lemma_elem_object_step(
    s: Seq<char>,
    o: int,
    p: Position,
    acc: Seq<SpecValue>,
    span: crate::parse::span::Span,
    o1: int,
    p1: Position,
    v: SpecValue,
    o2: int,
    p2: Position,
)
    requires
        0 <= o <= o1 <= o2 <= s.len(),
        lex_at(s, o, p) == LexStep::Token(SpecLiteral::OpenBrace, span, o1, p1),
        reads_object(s, o1, p1, v, o2, p2),
    ensures
        parse_array_at(s, o, p, false, acc) == parse_array_at(s, o2, p2, true, acc.push(v)),
{
    reveal(reads_object);
    assert(element_at(s, SpecLiteral::OpenBrace, span, o1, p1) == ParseStep::Done(v, o2, p2));
}

/// The value of an entry that opens with a bracket is the array read after
/// it.
proof fn lemma_expect_array_read(
    s: Seq<char>,
    o: int,
    p: Position,
    kspan: crate::parse::span::Span,
    span: crate::parse::span::Span,
    o1: int,
    p1: Position,
    v: SpecValue,
    o2: int,
    p2: Position,
)
    requires
        0 <= o <= s.len(),
        lex_at(s, o, p) == LexStep::Token(SpecLiteral::OpenBracket, span, o1, p1),
        reads_array(s, o1, p1, v, o2, p2),
    ensures
        expect_value(s, o, p, kspan) == ValueStep::Done(v, true, o2, p2),
{
    reveal(reads_array);
}

/// The array value of an entry, after the space behind its equal mark, is
/// read as the array read after its open bracket.
#[verifier::rlimit(100)]
#[verifier::spinoff_prover]
proof fn lemma_array_value_read(
    s: Seq<char>,
    c: int,
    p: Position,
    w: int,
    k: Seq<char>,
    v: SpecValue,
    o3: int,
    p3: Position,
)
    requires
        0 <= c,
        0 <= w,
        c + 2 + entry_head(w, k).len() <= o3 <= s.len(),
        s.subrange(c + 1, c + 1 + entry_head(w, k).len() as int) == entry_head(w, k),
        s[c + 1 + entry_head(w, k).len()] == '[',
        p.0 + 1 <= usize::MAX,
        entry_head(w, k).len() + 2 <= usize::MAX,
        reads_array(
            s,
            c + 2 + entry_head(w, k).len(),
            Position((p.0 + 1) as usize, (entry_head(w, k).len() + 2) as usize),
            v,
            o3,
            p3,
        ),
    ensures
        expect_value(
            s,
            c + 3 + w + k.len(),
            Position((p.0 + 1) as usize, (3 + w + k.len()) as usize),
            key_span_at(c, (p.0 + 1) as usize, w, k),
        ) == ValueStep::Done(v, true, o3, p3),
{
    let n = k.len() as int;
    assert(entry_head(w, k).len() == w + n + 3);
    lemma_head_chars(s, c, w, k);
    let line_no = (p.0 + 1) as usize;
    let o2 = c + 3 + w + n;
    let p2 = Position(line_no, (3 + w + n) as usize);
    lemma_lex_open(s, o2, p2);
    lemma_expect_array_read(
        s,
        o2,
        p2,
        key_span_at(c, line_no, w, k),
        crate::parse::span::Span {
            start: Position(line_no, (4 + w + n) as usize),
            end: Position(line_no, (5 + w + n) as usize),
            offset: ((o2 + 1) as usize, (o2 + 2) as usize),
        },
        o2 + 2,
        Position(line_no, (5 + w + n) as usize),
        v,
        o3,
        p3,
    );
}

/// After the key of an entry, the equal mark, a value whose reading ends
/// before a semicolon, and the semicolon are read, and the entry is added.
#[verifier::rlimit(100)]
#[verifier::spinoff_prover]
proof fn lemma_rest_semicolon(
    s: Seq<char>,
    o1: int,
    p1: Position,
    braced: bool,
    d: Seq<(Seq<char>, SpecValue)>,
    k: Seq<char>,
    kspan: crate::parse::span::Span,
    v: SpecValue,
    sp2: crate::parse::span::Span,
    p2: Position,
    o3: int,
    p3: Position,
)
    requires
        0 <= o1,
        o1 + 2 <= o3 < s.len(),
        s[o3] == ';',
        p3.1 + 1 <= usize::MAX,
        kspan.end.0 == p1.0,
        sp2.end.0 == p1.0,
        lex_at(s, o1, p1) == LexStep::Token(SpecLiteral::Equal, sp2, o1 + 2, p2),
        expect_value(s, o1 + 2, p2, kspan) == ValueStep::Done(v, true, o3, p3),
        key_index(d, k) < 0,
    ensures
        parse_entry(s, o1, p1, braced, d, Seq::empty(), k, kspan) == parse_object_at(
            s,
            o3 + 1,
            Position(p3.0, (p3.1 + 1) as usize),
            braced,
            d.push((k, v)),
            Seq::empty(),
        ),
{
    lemma_lex_semicolon(s, o3, p3);
    lemma_rest_read(
        s,
        o1,
        p1,
        braced,
        d,
        k,
        kspan,
        v,
        sp2,
        p2,
        o3,
        p3,
        crate::parse::span::Span {
            start: p3,
            end: Position(p3.0, (p3.1 + 1) as usize),
            offset: (o3 as usize, (o3 + 1) as usize),
        },
        o3 + 1,
        Position(p3.0, (p3.1 + 1) as usize),
    );
}

/// Parsing an entry, indented by `w`, whose value is the array read after
/// its open bracket and followed by a semicolon, adds the entry and goes on
/// after the semicolon.
#[verifier::rlimit(100)]
#[verifier::spinoff_prover]
proof fn lemma_array_entry_step(
    s: Seq<char>,
    c: int,
    p: Position,
    w: int,
    k: Seq<char>,
    braced: bool,
    d: Seq<(Seq<char>, SpecValue)>,
    v: SpecValue,
    o3: int,
    p3: Position,
)
    requires
        0 <= c,
        0 <= w,
        c + 2 + entry_head(w, k).len() <= o3 < s.len(),
        s[c] == '\n',
        s.subrange(c + 1, c + 1 + entry_head(w, k).len() as int) == entry_head(w, k),
        s[c + 1 + entry_head(w, k).len()] == '[',
        s[o3] == ';',
        plain_word(k),
        key_index(d, k) < 0,
        p.0 + 1 <= usize::MAX,
        entry_head(w, k).len() + 2 <= usize::MAX,
        p3.1 + 1 <= usize::MAX,
        reads_array(
            s,
            c + 2 + entry_head(w, k).len(),
            Position((p.0 + 1) as usize, (entry_head(w, k).len() + 2) as usize),
            v,
            o3,
            p3,
        ),
    ensures
        parse_object_at(s, c, p, braced, d, Seq::empty()) == parse_object_at(
            s,
            o3 + 1,
            Position(p3.0, (p3.1 + 1) as usize),
            braced,
            d.push((k, v)),
            Seq::empty(),
        ),
{
    let n = k.len() as int;
    let line_no = (p.0 + 1) as usize;
    lemma_head_read(s, c, p, w, k, braced, d);
    lemma_array_value_read(s, c, p, w, k, v, o3, p3);
    let o1 = c + 1 + w + n;
    let p1 = Position(line_no, (1 + w + n) as usize);
    lemma_rest_semicolon(
        s,
        o1,
        p1,
        braced,
        d,
        k,
        key_span_at(c, line_no, w, k),
        v,
        crate::parse::span::Span {
            start: Position(line_no, (2 + w + n) as usize),
            end: Position(line_no, (3 + w + n) as usize),
            offset: ((o1 + 1) as usize, (o1 + 2) as usize),
        },
        Position(line_no, (3 + w + n) as usize),
        o3,
        p3,
    );
}

/// What the pretty generator writes for an object parses back into that
/// object, when the object is a plain tree: every key is a plain word, used
/// once in its object, and every value is an unsigned number, a negative
/// signed number, a boolean, `void`, a quoted string with no quote,
/// backslash or line break in it, a raw string that is a plain word, or an
/// array or object of such values, nested to any depth; and the text is not
/// too long for the machine's positions.
pub proof fn law_generated_text_parses_back(e: Seq<(Seq<char>, SpecValue)>)
    requires
        plain_tree(SpecValue::Object(e)),
        object_text(pretty_layout(), e, 0).len() + 2 <= usize::MAX,
    ensures
        parse_text(object_text(pretty_layout(), e, 0)) matches ParseStep::Done(v, _, _) && v
            == SpecValue::Object(e),
{
    let l = pretty_layout();
    let t = object_text(l, e, 0);
    lemma_top_text(e);
    assert(t.subrange(0, t.len() as int) =~= t);
    assert(holds_entries(t, 0, e, 0));
    assert(entries_text(l, e, 0, 0).len() == 0);
    lemma_read_entries(t, 0, e, 0, 0, Position(1, 1));
    assert(e.subrange(0, 0) =~= Seq::<(Seq<char>, SpecValue)>::empty());
}







/// A float literal `a.b`, its digits `a` and `b` both present.
pub open spec fn float_literal_text(a: Seq<char>, b: Seq<char>) -> Seq<char> {
    a + seq!['.'] + b
}

/// Some digits, at least one.
pub open spec fn digit_run(d: Seq<char>) -> bool {
    d.len() > 0 && forall|m: int| 0 <= m < d.len() ==> is_digit(#[trigger] d[m])
}

/// From `o`, blanks up to `i` and then a float literal followed by a stop
/// character: the literal lexes as a float holding its text (the dot is not
/// counted in the columns).
#[verifier::rlimit(100)]
#[verifier::spinoff_prover]
proof fn lemma_lex_float_literal(
    s: Seq<char>,
    o: int,
    p: Position,
    i: int,
    q: Position,
    a: Seq<char>,
    b: Seq<char>,
)
    requires
        0 <= o <= i,
        digit_run(a),
        digit_run(b),
        i + float_literal_text(a, b).len() < s.len(),
        skip_ws(s, o, p) == (i, q),
        s.subrange(i, i + float_literal_text(a, b).len() as int) == float_literal_text(a, b),
        is_stop(s[i + float_literal_text(a, b).len()]),
        q.1 + float_literal_text(a, b).len() <= usize::MAX,
    ensures
        ({
            let t = float_literal_text(a, b);
            let e = Position(q.0, (q.1 + t.len() - 1) as usize);
            lex_at(s, o, p) == LexStep::Token(
                SpecLiteral::FloatNumber(t),
                crate::parse::span::Span { start: q, end: e, offset: (i as usize, (i + t.len()) as usize) },
                i + t.len(),
                e,
            )
        }),
{
    let t = float_literal_text(a, b);
    let j = i + a.len();
    let f = i + t.len();
    assert forall|m: int| i <= m < f implies #[trigger] s[m] == t[m - i] by {
        assert(s[m] == s.subrange(i, f)[m - i]);
    }
    assert(t[0] == a[0]);
    assert(is_digit(s[i]));
    assert(s[j] == t[a.len() as int]);
    assert(s[j] == '.');
    assert forall|m: int| i + 1 <= m < j implies is_digit(#[trigger] s[m]) by {
        assert(s[m] == t[m - i]);
        assert(t[m - i] == a[m - i]);
    }
    lemma_digits_end_at(s, i + 1, j);
    assert(s[j + 1] == t[a.len() as int + 1]);
    assert(t[a.len() as int + 1] == b[0]);
    assert forall|m: int| j + 1 <= m < f implies is_digit(#[trigger] s[m]) by {
        assert(s[m] == t[m - i]);
        assert(t[m - i] == b[m - i - a.len() - 1]);
    }
    lemma_digits_end_at(s, j + 1, f);
    assert(s.subrange(i, f) =~= t);
}

/// An entry `k = a.b;` whose value is a float literal parses into an object
/// whose one entry holds that float, by the literal's own text: a float is
/// read as a float, not as a string or a number of another kind.
#[verifier::rlimit(100)]
#[verifier::spinoff_prover]
pub proof fn law_float_entry_parses(k: Seq<char>, a: Seq<char>, b: Seq<char>)
    requires
        plain_word(k),
        digit_run(a),
        digit_run(b),
        k.len() + float_literal_text(a, b).len() + 8 <= usize::MAX,
    ensures
        parse_text(k + seq![' ', '=', ' '] + float_literal_text(a, b) + seq![';']) matches ParseStep::Done(
            v,
            _,
            _,
        ) && v == SpecValue::Object(seq![(k, SpecValue::FloatNumber(float_literal_text(a, b)))]),
{
    let t = float_literal_text(a, b);
    let s = k + seq![' ', '=', ' '] + t + seq![';'];
    let n = k.len() as int;
    let len = t.len() as int;
    assert(s.len() == n + 4 + len);
    assert forall|m: int| 0 <= m < n implies #[trigger] s[m] == k[m] by {}
    assert(s.subrange(0, n) =~= k);
    assert(s[n] == ' ');
    assert(s[n + 1] == '=');
    assert(s[n + 2] == ' ');
    assert forall|m: int| n + 3 <= m < n + 3 + len implies #[trigger] s[m] == t[m - n - 3] by {}
    assert(s.subrange(n + 3, n + 3 + len) =~= t);
    assert(s[n + 3 + len] == ';');
    let p0 = Position(1, 1);
    assert(s[0] == k[0]);
    assert(skip_ws(s, 0, p0) == (0int, p0));
    lemma_lex_word(s, 0, p0, 0, p0, k);
    let kspan = crate::parse::span::Span {
        start: p0,
        end: Position(1, (1 + n) as usize),
        offset: (0usize, n as usize),
    };
    let p1 = Position(1, (1 + n) as usize);
    lemma_lex_equal(s, n, p1);
    let p2 = Position(1, (n + 3) as usize);
    let q = Position(1, (n + 4) as usize);
    assert(s[n + 3] == t[0]);
    assert(t[0] == a[0]);
    assert(skip_ws(s, n + 3, q) == (n + 3, q));
    assert(skip_ws(s, n + 2, p2) == (n + 3, q));
    lemma_lex_float_literal(s, n + 2, p2, n + 3, q, a, b);
    let o3 = n + 3 + len;
    let p3 = Position(1, (n + 3 + len) as usize);
    assert(expect_value(s, n + 2, p2, kspan) == ValueStep::Done(SpecValue::FloatNumber(t), true, o3, p3));
    lemma_lex_semicolon(s, o3, p3);
    let p4 = Position(1, (n + 4 + len) as usize);
    let e2 = seq![(k, SpecValue::FloatNumber(t))];
    lemma_key_index(Seq::<(Seq<char>, SpecValue)>::empty(), k);
    assert(with_definition(Seq::empty(), Seq::empty(), k, SpecValue::FloatNumber(t)) == (
        e2,
        Seq::<Seq<char>>::empty(),
    )) by {
        assert(Seq::<(Seq<char>, SpecValue)>::empty().push((k, SpecValue::FloatNumber(t))) =~= e2);
    }
    assert(skip_ws(s, o3 + 1, p4) == (o3 + 1, p4));
    assert(parse_object_at(s, o3 + 1, p4, false, e2, Seq::empty()) == ParseStep::Done(
        SpecValue::Object(e2),
        o3 + 1,
        p4,
    ));
    assert(parse_entry(s, n, p1, false, Seq::empty(), Seq::empty(), k, kspan) == ParseStep::Done(
        SpecValue::Object(e2),
        o3 + 1,
        p4,
    ));
}

/// An entry `k = [a.b];` whose array holds a float literal parses into an
/// object whose one entry is the array of that float, by the literal's own
/// text: an array element that is a float is read as a float.
#[verifier::rlimit(100)]
#[verifier::spinoff_prover]
pub proof fn law_float_element_parses(k: Seq<char>, a: Seq<char>, b: Seq<char>)
    requires
        plain_word(k),
        digit_run(a),
        digit_run(b),
        k.len() + float_literal_text(a, b).len() + 10 <= usize::MAX,
    ensures
        parse_text(k + seq![' ', '=', ' ', '['] + float_literal_text(a, b) + seq![']', ';']) matches ParseStep::Done(
            v,
            _,
            _,
        ) && v == SpecValue::Object(
            seq![(k, SpecValue::Array(seq![SpecValue::FloatNumber(float_literal_text(a, b))]))],
        ),
{
    let t = float_literal_text(a, b);
    let s = k + seq![' ', '=', ' ', '['] + t + seq![']', ';'];
    let n = k.len() as int;
    let len = t.len() as int;
    assert(s.len() == n + 6 + len);
    assert forall|m: int| 0 <= m < n implies #[trigger] s[m] == k[m] by {}
    assert(s.subrange(0, n) =~= k);
    assert(s[n] == ' ');
    assert(s[n + 1] == '=');
    assert(s[n + 2] == ' ');
    assert(s[n + 3] == '[');
    assert forall|m: int| n + 4 <= m < n + 4 + len implies #[trigger] s[m] == t[m - n - 4] by {}
    assert(s.subrange(n + 4, n + 4 + len) =~= t);
    assert(s[n + 4 + len] == ']');
    assert(s[n + 5 + len] == ';');
    let p0 = Position(1, 1);
    assert(s[0] == k[0]);
    assert(skip_ws(s, 0, p0) == (0int, p0));
    lemma_lex_word(s, 0, p0, 0, p0, k);
    let kspan = crate::parse::span::Span {
        start: p0,
        end: Position(1, (1 + n) as usize),
        offset: (0usize, n as usize),
    };
    let p1 = Position(1, (1 + n) as usize);
    lemma_lex_equal(s, n, p1);
    let p2 = Position(1, (n + 3) as usize);
    lemma_lex_open(s, n + 2, p2);
    let q = Position(1, (n + 5) as usize);
    assert(s[n + 4] == t[0]);
    assert(t[0] == a[0]);
    assert(skip_ws(s, n + 4, q) == (n + 4, q));
    lemma_lex_float_literal(s, n + 4, q, n + 4, q, a, b);
    let o3 = n + 4 + len;
    let p3 = Position(1, (n + 4 + len) as usize);
    let v = SpecValue::FloatNumber(t);
    let fspan = crate::parse::span::Span {
        start: q,
        end: p3,
        offset: ((n + 4) as usize, (n + 4 + len) as usize),
    };
    assert(element_at(s, SpecLiteral::FloatNumber(t), fspan, o3, p3) == ParseStep::Done(v, o3, p3));
    lemma_lex_close(s, o3, o3, p3);
    let p4 = Position(1, (n + 5 + len) as usize);
    assert(parse_array_at(s, o3, p3, true, seq![v]) == ParseStep::Done(
        SpecValue::Array(seq![v]),
        o3 + 1,
        p4,
    ));
    assert(Seq::<SpecValue>::empty().push(v) =~= seq![v]);
    assert(parse_array_at(s, n + 4, q, false, Seq::empty()) == ParseStep::Done(
        SpecValue::Array(seq![v]),
        o3 + 1,
        p4,
    ));
    let av = SpecValue::Array(seq![v]);
    assert(expect_value(s, n + 2, p2, kspan) == ValueStep::Done(av, true, o3 + 1, p4));
    lemma_lex_semicolon(s, o3 + 1, p4);
    let p5 = Position(1, (n + 6 + len) as usize);
    let e2 = seq![(k, av)];
    lemma_key_index(Seq::<(Seq<char>, SpecValue)>::empty(), k);
    assert(with_definition(Seq::empty(), Seq::empty(), k, av) == (e2, Seq::<Seq<char>>::empty())) by {
        assert(Seq::<(Seq<char>, SpecValue)>::empty().push((k, av)) =~= e2);
    }
    assert(skip_ws(s, o3 + 2, p5) == (o3 + 2, p5));
    assert(parse_object_at(s, o3 + 2, p5, false, e2, Seq::empty()) == ParseStep::Done(
        SpecValue::Object(e2),
        o3 + 2,
        p5,
    ));
    assert(parse_entry(s, n, p1, false, Seq::empty(), Seq::empty(), k, kspan) == ParseStep::Done(
        SpecValue::Object(e2),
        o3 + 2,
        p5,
    ));
}

/// The decimal text of `n` has at most `n + 1` digits.
proof fn lemma_decimal_len(n: nat)
    ensures
        decimal_text(n).len() <= n + 1,
    decreases n,
{
    if n >= 10 {
        lemma_decimal_len(n / 10);
    }
}

/// The text written for a signed number reads back as that number: followed
/// by a stop, a negative number lexes as the signed literal of the same
/// value, and any other (written without a sign) as the unsigned literal of
/// the same value. So a sign is written exactly when the number is negative.
pub proof fn law_signed_text_reads_back(n: i32)
    ensures
        ({
            let t = scalar_text(SpecValue::SignedIntegerNumber(n));
            let s = seq![' '] + t + seq![';'];
            &&& lex_at(s, 0, Position(1, 1)) matches LexStep::Token(l, _, o, _) && o == t.len() + 1 && l == if n
                < 0 {
                SpecLiteral::SignedIntegerNumber(n)
            } else {
                SpecLiteral::UnsignedIntegerNumber(n as u32)
            }
            &&& (t[0] == '-' <==> n < 0)
        }),
{
    let t = scalar_text(SpecValue::SignedIntegerNumber(n));
    let s = seq![' '] + t + seq![';'];
    let v = if n < 0 {
        SpecValue::SignedIntegerNumber(n)
    } else {
        SpecValue::UnsignedIntegerNumber(n as u32)
    };
    if n < 0 {
        lemma_decimal_len((-n) as nat);
        assert(t == seq!['-'] + decimal_text((-n) as nat));
    } else {
        lemma_decimal_len(n as nat);
        lemma_decimal_round_trip(n as nat);
        assert(scalar_text(v) == t);
        assert(is_digit(t[0]));
    }
    assert(scalar_text(v) == t);
    assert(s.subrange(1, 1 + t.len() as int) =~= t);
    assert(s[1 + t.len() as int] == ';');
    lemma_lex_value(s, 0, Position(1, 1), v);
}

} // verus!

//! What parsing a text gives: the grammar of `Marquage` over the tokens that
//! [lex_at] reads.
use vstd::prelude::*;

use crate::collections::{
    inserted, key_index, keys_distinct, law_lookup_after_insert, lemma_key_index, lookup,
};
use crate::data::value::SpecValue;
use crate::parse::{
    error::SpecParserError,
    lexing::{lemma_lex_forward, lex_at, LexStep},
    literal::SpecLiteral,
    span::Span,
};
use crate::parser::position::Position;

verus! {

/// Entries of an object being built, keys by their characters.
pub type Entries = Seq<(Seq<char>, SpecValue)>;

/// The outcome of parsing an object or an array: the value with the cursor
/// and position after it, or an error. `Stray` stands for a cursor outside
/// the text, where the grammar is not defined; parsing that starts within the
/// text never reaches it (the lemmas below show that it only moves forward).
pub enum ParseStep {
    Done(SpecValue, int, Position),
    Fail(SpecParserError),
    Stray,
}

/// The outcome of parsing the value of an entry; the flag tells whether a
/// semicolon must follow (every value but an object).
pub enum ValueStep {
    Done(SpecValue, bool, int, Position),
    Fail(SpecParserError),
    Stray,
}

/// The value a scalar literal stands for.
pub open spec fn scalar_of(l: SpecLiteral) -> Option<SpecValue> {
    match l {
        SpecLiteral::Boolean(b) => Some(SpecValue::Boolean(b)),
        SpecLiteral::FloatNumber(t) => Some(SpecValue::FloatNumber(t)),
        SpecLiteral::QuotedString(t) => Some(SpecValue::QuotedString(t)),
        SpecLiteral::RawString(t) => Some(SpecValue::RawString(t)),
        SpecLiteral::SignedIntegerNumber(n) => Some(SpecValue::SignedIntegerNumber(n)),
        SpecLiteral::UnsignedIntegerNumber(n) => Some(SpecValue::UnsignedIntegerNumber(n)),
        SpecLiteral::Void => Some(SpecValue::Void),
        _ => None,
    }
}

/// Add the definition `k = v` to the entries `e`, where `dup` lists the keys
/// already defined more than once. A first definition adds the entry; a
/// second one turns the value into the array of both values; later ones
/// append to that array. The entry keeps the place of the key's first
/// definition.
pub open spec fn with_definition(e: Entries, dup: Seq<Seq<char>>, k: Seq<char>, v: SpecValue) -> (
    Entries,
    Seq<Seq<char>>,
) {
    let i = key_index(e, k);
    if i < 0 {
        (inserted(e, k, v), dup)
    } else if dup.contains(k) {
        match e[i].1 {
            SpecValue::Array(a) => (inserted(e, k, SpecValue::Array(a.push(v))), dup),
            _ => (e, dup),
        }
    } else {
        (inserted(e, k, SpecValue::Array(seq![e[i].1, v])), dup.push(k))
    }
}

/// Parse the entries of an object from offset `o`, position `pos`, having
/// read the entries `e` so far. Inside braces (`braced`) the object ends at
/// a close brace; at the top level it ends at the end of the text.
pub open spec fn parse_object_at(
    s: Seq<char>,
    o: int,
    pos: Position,
    braced: bool,
    e: Entries,
    dup: Seq<Seq<char>>,
) -> ParseStep
    decreases s.len() - o, 0int,
{
    if !(0 <= o <= s.len()) {
        ParseStep::Stray
    } else {
        match lex_at(s, o, pos) {
            LexStep::Failure(err, _, _) => ParseStep::Fail(SpecParserError::LexingError(err)),
            LexStep::Token(lit, span, o1, p1) => {
                proof {
                    lemma_lex_forward(s, o, pos);
                }
                match lit {
                    SpecLiteral::QuotedString(key) => parse_entry(s, o1, p1, braced, e, dup, key, span),
                    SpecLiteral::RawString(key) => parse_entry(s, o1, p1, braced, e, dup, key, span),
                    SpecLiteral::End => {
                        if braced {
                            match lex_at(s, o1, p1) {
                                LexStep::Failure(err, _, _) => ParseStep::Fail(
                                    SpecParserError::LexingError(err),
                                ),
                                LexStep::Token(l2, sp2, o2, p2) => {
                                    if l2 is CloseBrace {
                                        ParseStep::Done(SpecValue::Object(e), o2, p2)
                                    } else {
                                        ParseStep::Fail(SpecParserError::ExpectBrace(l2, sp2))
                                    }
                                },
                            }
                        } else {
                            ParseStep::Done(SpecValue::Object(e), o1, p1)
                        }
                    },
                    SpecLiteral::CloseBrace => {
                        if braced {
                            ParseStep::Done(SpecValue::Object(e), o1, p1)
                        } else {
                            ParseStep::Fail(SpecParserError::UnexpectedCloseBrace(span))
                        }
                    },
                    _ => ParseStep::Fail(SpecParserError::ExpectKey(lit, span)),
                }
            },
        }
    }
}

/// Parse the rest of an entry whose key `key` (spanning `kspan`) was read:
/// `=` on the key's line, the value, a semicolon on the line where the value
/// ends unless the value is an object; then go on with the next entry.
pub open spec fn parse_entry(
    s: Seq<char>,
    o: int,
    pos: Position,
    braced: bool,
    e: Entries,
    dup: Seq<Seq<char>>,
    key: Seq<char>,
    kspan: Span,
) -> ParseStep
    decreases s.len() - o, 1int,
{
    if !(0 <= o <= s.len()) {
        ParseStep::Stray
    } else {
        match lex_at(s, o, pos) {
            LexStep::Failure(err, _, _) => ParseStep::Fail(SpecParserError::LexingError(err)),
            LexStep::Token(l2, sp2, o2, p2) => {
                proof {
                    lemma_lex_forward(s, o, pos);
                }
                if l2 is Equal && sp2.end.0 == kspan.end.0 {
                    match expect_value(s, o2, p2, kspan) {
                        ValueStep::Stray => ParseStep::Stray,
                        ValueStep::Fail(err) => ParseStep::Fail(err),
                        ValueStep::Done(v, check, o3, p3) => {
                            if !(o <= o3 <= s.len()) {
                                ParseStep::Stray
                            } else if check {
                                match lex_at(s, o3, p3) {
                                    LexStep::Failure(err, _, _) => ParseStep::Fail(
                                        SpecParserError::LexingError(err),
                                    ),
                                    LexStep::Token(l4, sp4, o4, p4) => {
                                        proof {
                                            lemma_lex_forward(s, o3, p3);
                                        }
                                        if l4 is Semicolon && sp4.end.0 == p3.0 {
                                            let (e2, d2) = with_definition(e, dup, key, v);
                                            parse_object_at(s, o4, p4, braced, e2, d2)
                                        } else {
                                            ParseStep::Fail(SpecParserError::ExpectSemicolon(l4, sp4))
                                        }
                                    },
                                }
                            } else {
                                let (e2, d2) = with_definition(e, dup, key, v);
                                parse_object_at(s, o3, p3, braced, e2, d2)
                            }
                        },
                    }
                } else {
                    ParseStep::Fail(SpecParserError::ExpectEqual(l2, sp2))
                }
            },
        }
    }
}

/// Parse the value of an entry whose key spans `kspan`: a scalar on the
/// key's line, an object or an array.
pub open spec fn expect_value(s: Seq<char>, o: int, pos: Position, kspan: Span) -> ValueStep
    decreases s.len() - o, 2int,
{
    if !(0 <= o <= s.len()) {
        ValueStep::Stray
    } else {
        match lex_at(s, o, pos) {
            LexStep::Failure(err, _, _) => ValueStep::Fail(SpecParserError::LexingError(err)),
            LexStep::Token(lit, span, o1, p1) => {
                proof {
                    lemma_lex_forward(s, o, pos);
                }
                if scalar_of(lit) is Some && span.end.0 == kspan.end.0 {
                    ValueStep::Done(scalar_of(lit)->Some_0, true, o1, p1)
                } else if lit is OpenBrace {
                    match parse_object_at(s, o1, p1, true, Seq::empty(), Seq::empty()) {
                        ParseStep::Done(v, o2, p2) => ValueStep::Done(v, false, o2, p2),
                        ParseStep::Fail(err) => ValueStep::Fail(err),
                        ParseStep::Stray => ValueStep::Stray,
                    }
                } else if lit is OpenBracket {
                    match parse_array_at(s, o1, p1, false, Seq::empty()) {
                        ParseStep::Done(v, o2, p2) => ValueStep::Done(v, true, o2, p2),
                        ParseStep::Fail(err) => ValueStep::Fail(err),
                        ParseStep::Stray => ValueStep::Stray,
                    }
                } else {
                    ValueStep::Fail(SpecParserError::ExpectValue(lit, span))
                }
            },
        }
    }
}

/// Parse the elements of an array from offset `o`, having read `arr`; `comma`
/// tells whether a comma (or the close bracket) is expected next. A trailing
/// comma is allowed.
pub open spec fn parse_array_at(
    s: Seq<char>,
    o: int,
    pos: Position,
    comma: bool,
    arr: Seq<SpecValue>,
) -> ParseStep
    decreases s.len() - o, 0int,
{
    if !(0 <= o <= s.len()) {
        ParseStep::Stray
    } else {
        match lex_at(s, o, pos) {
            LexStep::Failure(err, _, _) => ParseStep::Fail(SpecParserError::LexingError(err)),
            LexStep::Token(lit, span, o1, p1) => {
                proof {
                    lemma_lex_forward(s, o, pos);
                }
                if lit is CloseBracket {
                    ParseStep::Done(SpecValue::Array(arr), o1, p1)
                } else if comma {
                    if lit is Comma {
                        parse_array_at(s, o1, p1, false, arr)
                    } else {
                        ParseStep::Fail(SpecParserError::ExpectCommaOrCloseBracket(lit, span))
                    }
                } else if lit is End {
                    ParseStep::Fail(SpecParserError::ExpectValue(lit, span))
                } else {
                    match element_at(s, lit, span, o1, p1) {
                        ParseStep::Done(v, o2, p2) => {
                            if !(o1 <= o2 <= s.len()) {
                                ParseStep::Stray
                            } else {
                                parse_array_at(s, o2, p2, true, arr.push(v))
                            }
                        },
                        ParseStep::Fail(err) => ParseStep::Fail(err),
                        ParseStep::Stray => ParseStep::Stray,
                    }
                }
            },
        }
    }
}

/// The array element that starts with the token `lit` (spanning `span`),
/// read up to offset `o`.
pub open spec fn element_at(s: Seq<char>, lit: SpecLiteral, span: Span, o: int, pos: Position) -> ParseStep
    decreases s.len() - o, 1int,
{
    if scalar_of(lit) is Some {
        ParseStep::Done(scalar_of(lit)->Some_0, o, pos)
    } else if lit is OpenBrace {
        parse_object_at(s, o, pos, true, Seq::empty(), Seq::empty())
    } else if lit is OpenBracket {
        parse_array_at(s, o, pos, false, Seq::empty())
    } else {
        ParseStep::Fail(SpecParserError::ExpectValue(lit, span))
    }
}

/// Parsing a whole text: its entries form the top-level object.
pub open spec fn parse_text(s: Seq<char>) -> ParseStep {
    parse_object_at(s, 0, Position(1, 1), false, Seq::empty(), Seq::empty())
}

/// Parsing moves forward and never past the end: so the offset checks in the
/// grammar above always pass.
pub proof fn lemma_object_forward(
    s: Seq<char>,
    o: int,
    pos: Position,
    braced: bool,
    e: Entries,
    dup: Seq<Seq<char>>,
)
    requires
        0 <= o <= s.len(),
    ensures
        parse_object_at(s, o, pos, braced, e, dup) matches ParseStep::Done(_, o2, _) ==> o <= o2
            <= s.len(),
    decreases s.len() - o, 0int,
{
    lemma_lex_forward(s, o, pos);
    if let LexStep::Token(lit, span, o1, p1) = lex_at(s, o, pos) {
        match lit {
            SpecLiteral::QuotedString(key) => lemma_entry_forward(s, o1, p1, braced, e, dup, key, span),
            SpecLiteral::RawString(key) => lemma_entry_forward(s, o1, p1, braced, e, dup, key, span),
            SpecLiteral::End => {
                if braced {
                    lemma_lex_forward(s, o1, p1);
                }
            },
            _ => {},
        }
    }
}

pub proof fn lemma_entry_forward(
    s: Seq<char>,
    o: int,
    pos: Position,
    braced: bool,
    e: Entries,
    dup: Seq<Seq<char>>,
    key: Seq<char>,
    kspan: Span,
)
    requires
        0 <= o <= s.len(),
    ensures
        parse_entry(s, o, pos, braced, e, dup, key, kspan) matches ParseStep::Done(_, o2, _) ==> o
            <= o2 <= s.len(),
    decreases s.len() - o, 1int,
{
    lemma_lex_forward(s, o, pos);
    if let LexStep::Token(l2, sp2, o2, p2) = lex_at(s, o, pos) {
        if l2 is Equal && sp2.end.0 == kspan.end.0 {
            lemma_value_forward(s, o2, p2, kspan);
            if let ValueStep::Done(v, check, o3, p3) = expect_value(s, o2, p2, kspan) {
                if o <= o3 <= s.len() {
                    let (e2, d2) = with_definition(e, dup, key, v);
                    if check {
                        lemma_lex_forward(s, o3, p3);
                        if let LexStep::Token(l4, sp4, o4, p4) = lex_at(s, o3, p3) {
                            lemma_object_forward(s, o4, p4, braced, e2, d2);
                        }
                    } else {
                        lemma_object_forward(s, o3, p3, braced, e2, d2);
                    }
                }
            }
        }
    }
}

pub proof fn lemma_value_forward(s: Seq<char>, o: int, pos: Position, kspan: Span)
    requires
        0 <= o <= s.len(),
    ensures
        expect_value(s, o, pos, kspan) matches ValueStep::Done(_, _, o2, _) ==> o <= o2 <= s.len(),
    decreases s.len() - o, 2int,
{
    lemma_lex_forward(s, o, pos);
    if let LexStep::Token(lit, span, o1, p1) = lex_at(s, o, pos) {
        if lit is OpenBrace {
            lemma_object_forward(s, o1, p1, true, Seq::empty(), Seq::empty());
        } else if lit is OpenBracket {
            lemma_array_forward(s, o1, p1, false, Seq::empty());
        }
    }
}

pub proof fn lemma_array_forward(s: Seq<char>, o: int, pos: Position, comma: bool, arr: Seq<SpecValue>)
    requires
        0 <= o <= s.len(),
    ensures
        parse_array_at(s, o, pos, comma, arr) matches ParseStep::Done(_, o2, _) ==> o <= o2 <= s.len(),
    decreases s.len() - o, 0int,
{
    lemma_lex_forward(s, o, pos);
    if let LexStep::Token(lit, span, o1, p1) = lex_at(s, o, pos) {
        if !(lit is CloseBracket) {
            if comma {
                if lit is Comma {
                    lemma_array_forward(s, o1, p1, false, arr);
                }
            } else if !(lit is End) {
                lemma_element_forward(s, lit, span, o1, p1);
                if let ParseStep::Done(v, o2, p2) = element_at(s, lit, span, o1, p1) {
                    if o1 <= o2 <= s.len() {
                        lemma_array_forward(s, o2, p2, true, arr.push(v));
                    }
                }
            }
        }
    }
}

pub proof fn lemma_element_forward(s: Seq<char>, lit: SpecLiteral, span: Span, o: int, pos: Position)
    requires
        0 <= o <= s.len(),
    ensures
        element_at(s, lit, span, o, pos) matches ParseStep::Done(_, o2, _) ==> o <= o2 <= s.len(),
    decreases s.len() - o, 1int,
{
    if scalar_of(lit) is None {
        if lit is OpenBrace {
            lemma_object_forward(s, o, pos, true, Seq::empty(), Seq::empty());
        } else if lit is OpenBracket {
            lemma_array_forward(s, o, pos, false, Seq::empty());
        }
    }
}

/// The entries, and the keys defined more than once, after the definitions
/// `defs` in their order, starting from no entry.
pub open spec fn define_all(defs: Seq<(Seq<char>, SpecValue)>) -> (Entries, Seq<Seq<char>>)
    decreases defs.len(),
{
    if defs.len() == 0 {
        (Seq::empty(), Seq::empty())
    } else {
        let (e, d) = define_all(defs.drop_last());
        with_definition(e, d, defs.last().0, defs.last().1)
    }
}

/// The values given to `k` by the definitions `defs`, in their order.
pub open spec fn definitions_of(defs: Seq<(Seq<char>, SpecValue)>, k: Seq<char>) -> Seq<SpecValue>
    decreases defs.len(),
{
    if defs.len() == 0 {
        Seq::empty()
    } else if defs.last().0 == k {
        definitions_of(defs.drop_last(), k).push(defs.last().1)
    } else {
        definitions_of(defs.drop_last(), k)
    }
}

/// What a key defined with the values `vs` holds: nothing for no value, the
/// value itself for one, the array of all of them for more.
pub open spec fn collected(vs: Seq<SpecValue>) -> Option<SpecValue> {
    if vs.len() == 0 {
        None
    } else if vs.len() == 1 {
        Some(vs[0])
    } else {
        Some(SpecValue::Array(vs))
    }
}

/// The keys of `defs`, each once, in the order of their first definition.
pub open spec fn first_keys(defs: Seq<(Seq<char>, SpecValue)>) -> Seq<Seq<char>>
    decreases defs.len(),
{
    if defs.len() == 0 {
        Seq::empty()
    } else if first_keys(defs.drop_last()).contains(defs.last().0) {
        first_keys(defs.drop_last())
    } else {
        first_keys(defs.drop_last()).push(defs.last().0)
    }
}

/// The keys of the entries `e`, in their order.
pub open spec fn keys_of(e: Entries) -> Seq<Seq<char>> {
    e.map_values(|p: (Seq<char>, SpecValue)| p.0)
}

/// Repeated keys are collected into an array: after any definitions, a key
/// defined once holds its value, a key defined several times holds the array
/// of all its values in the order they were given (an array given as a
/// value stays one element, never flattened), and an undefined key is
/// absent. The keys stand in the order of their first definition, each once,
/// and the keys recorded as repeated are those defined more than once.
pub proof fn law_repeated_keys(defs: Seq<(Seq<char>, SpecValue)>, k: Seq<char>)
    ensures
        lookup(define_all(defs).0, k) == collected(definitions_of(defs, k)),
        define_all(defs).1.contains(k) <==> definitions_of(defs, k).len() >= 2,
        keys_distinct(define_all(defs).0),
        keys_of(define_all(defs).0) == first_keys(defs),
    decreases defs.len(),
{
    lemma_define_all(defs);
}

proof fn lemma_define_all(defs: Seq<(Seq<char>, SpecValue)>)
    ensures
        forall|k: Seq<char>| #[trigger]
            lookup(define_all(defs).0, k) == collected(definitions_of(defs, k)),
        forall|k: Seq<char>| #[trigger]
            define_all(defs).1.contains(k) <==> definitions_of(defs, k).len() >= 2,
        keys_distinct(define_all(defs).0),
        keys_of(define_all(defs).0) == first_keys(defs),
    decreases defs.len(),
{
    if defs.len() == 0 {
        assert(keys_of(Seq::<(Seq<char>, SpecValue)>::empty()) =~= Seq::<Seq<char>>::empty());
        assert forall|k: Seq<char>| #[trigger]
            lookup(define_all(defs).0, k) == collected(definitions_of(defs, k)) by {
            lemma_key_index(Seq::<(Seq<char>, SpecValue)>::empty(), k);
        }
    } else {
        let prefix = defs.drop_last();
        lemma_define_all(prefix);
        let (e, d) = define_all(prefix);
        let k0 = defs.last().0;
        let v = defs.last().1;
        lemma_key_index(e, k0);
        let i = key_index(e, k0);
        let (e2, d2) = define_all(defs);
        assert((e2, d2) == with_definition(e, d, k0, v));
        let vs0 = definitions_of(prefix, k0);
        assert(lookup(e, k0) == collected(vs0));
        let nv = if i < 0 {
            v
        } else if d.contains(k0) {
            SpecValue::Array(vs0.push(v))
        } else {
            SpecValue::Array(seq![e[i].1, v])
        };
        if i >= 0 && !d.contains(k0) {
            assert(vs0.len() == 1);
            assert(seq![e[i].1, v] =~= vs0.push(v));
        }
        assert(e2 == inserted(e, k0, nv));
        assert forall|k: Seq<char>| #[trigger]
            lookup(e2, k) == collected(definitions_of(defs, k)) by {
            law_lookup_after_insert(e, k0, nv, k);
            assert(lookup(define_all(prefix).0, k) == collected(definitions_of(prefix, k)));
        }
        assert forall|k: Seq<char>| #[trigger]
            d2.contains(k) <==> definitions_of(defs, k).len() >= 2 by {
            assert(d.contains(k) <==> definitions_of(prefix, k).len() >= 2);
            if i >= 0 && !d.contains(k0) {
                assert(d2 == d.push(k0));
                assert(d2.contains(k) <==> (d.contains(k) || k == k0)) by {
                    if k == k0 {
                        assert(d2[d.len() as int] == k0);
                    }
                    if d2.contains(k) {
                        let j = choose|j: int| 0 <= j < d2.len() && d2[j] == k;
                        if j < d.len() {
                            assert(d[j] == k);
                        }
                    }
                    if d.contains(k) {
                        let j = choose|j: int| 0 <= j < d.len() && d[j] == k;
                        assert(d2[j] == k);
                    }
                }
            }
        }
        law_lookup_after_insert(e, k0, nv, k0);
        lemma_keys_after_insert(e, k0, nv);
        let fk = first_keys(prefix);
        assert(fk.contains(k0) <==> i >= 0) by {
            if i >= 0 {
                assert(keys_of(e)[i] == k0);
            }
            if fk.contains(k0) {
                let j = choose|j: int| 0 <= j < fk.len() && fk[j] == k0;
                assert(keys_of(e)[j] == e[j].0);
            }
        }
    }
}

/// Inserting keeps the keys in place, adding a new key last.
proof fn lemma_keys_after_insert(e: Entries, k: Seq<char>, v: SpecValue)
    ensures
        keys_of(inserted(e, k, v)) == if key_index(e, k) >= 0 {
            keys_of(e)
        } else {
            keys_of(e).push(k)
        },
{
    lemma_key_index(e, k);
    let i = key_index(e, k);
    if i >= 0 {
        assert(keys_of(inserted(e, k, v)) =~= keys_of(e));
    } else {
        assert(keys_of(inserted(e, k, v)) =~= keys_of(e).push(k));
    }
}

} // verus!

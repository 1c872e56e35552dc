use vstd::prelude::*;

use crate::collections::{
    inserted, key_index, lemma_inserted_twice, lemma_key_index, lookup, object_entries, ObjectMap,
};
use crate::data::value::{lemma_values_view, lemma_values_view_push, values_view, SpecValue, Value};
use crate::parse::{
    error::{ParserError, SpecParserError},
    lexer::Lexer,
    lexing::{lemma_lex_forward, lex_at, LexStep},
    literal::{Literal, SpecLiteral},
    parsing::{
        element_at, expect_value, with_definition, lemma_array_forward, lemma_element_forward,
        lemma_object_forward, lemma_value_forward, parse_array_at, parse_entry, parse_object_at,
        scalar_of, Entries, ParseStep, ValueStep,
    },
    span::Span,
};
use crate::parser::position::Position;

verus! {

/// A parser parsing tokens from [Lexer].
pub struct Parser {
    lexer: Lexer,
}

/// The keys of `dup`, by their characters.
pub open spec fn key_views(dup: Seq<String>) -> Seq<Seq<char>> {
    dup.map_values(|k: String| k@)
}

/// `r` is what parsing step `step` gives, and the parser has moved to where
/// the step ends.
pub(crate) open spec fn parsed(r: Result<Value, ParserError>, cursor: nat, pos: Position, step: ParseStep) -> bool {
    match step {
        ParseStep::Done(v, o, p) => r is Ok && r->Ok_0@ == v && cursor == o && pos == p,
        ParseStep::Fail(e) => r matches Err(x) && x@ == e,
        ParseStep::Stray => false,
    }
}

/// `r` reports the token of lexing step `step`: success when the token is
/// what `want` accepts on the line `line`, the error `mk_err` of the token
/// otherwise.
pub(crate) open spec fn checked(
    r: Result<(), ParserError>,
    cursor: nat,
    pos: Position,
    step: LexStep,
    want: spec_fn(SpecLiteral) -> bool,
    line: usize,
    mk_err: spec_fn(SpecLiteral, Span) -> SpecParserError,
) -> bool {
    match step {
        LexStep::Token(l, sp, o, p) => if want(l) && sp.end.0 == line {
            r is Ok && cursor == o && pos == p
        } else {
            r matches Err(x) && x@ == mk_err(l, sp)
        },
        LexStep::Failure(e, _, _) => r matches Err(x) && x@ == SpecParserError::LexingError(e),
    }
}

impl Parser {
    pub closed spec fn chars(&self) -> Seq<char> {
        self.lexer.chars()
    }

    pub closed spec fn cursor(&self) -> nat {
        self.lexer.cursor()
    }

    pub closed spec fn position(&self) -> Position {
        self.lexer.position()
    }

    pub closed spec fn wf(&self) -> bool {
        self.lexer.wf()
    }

    /// A well-formed parser stands within its text.
    proof fn lemma_cursor(&self)
        requires
            self.wf(),
        ensures
            self.cursor() <= self.chars().len(),
    {
        self.lexer.lemma_cursor();
    }

    /// Create a parser.
    pub fn new(lexer: Lexer) -> (p: Self)
        requires
            lexer.wf(),
        ensures
            p.wf(),
            p.chars() == lexer.chars(),
            p.cursor() == lexer.cursor(),
            p.position() == lexer.position(),
    {
        Self { lexer }
    }

    /// Parse token stream.
    ///
    /// # Errors
    /// [ParserError] will be returned if encounter errors when parsing.
    pub fn parse(self) -> (r: Result<Value, ParserError>)
        requires
            self.wf(),
        ensures
            match parse_object_at(
                self.chars(),
                self.cursor() as int,
                self.position(),
                false,
                Seq::empty(),
                Seq::empty(),
            ) {
                ParseStep::Done(v, _, _) => r is Ok && r->Ok_0@ == v,
                ParseStep::Fail(e) => r is Err && r->Err_0@ == e,
                ParseStep::Stray => false,
            },
    {
        let mut this = self;
        this.parse_object(false)
    }

    fn lex_token(&mut self) -> (r: Result<(Literal, Span), ParserError>)
        requires
            old(self).wf(),
        ensures
            final(self).wf(),
            final(self).chars() == old(self).chars(),
            match lex_at(old(self).chars(), old(self).cursor() as int, old(self).position()) {
                LexStep::Token(l, sp, o, p) => r is Ok && r->Ok_0.0@ == l && r->Ok_0.1 == sp
                    && final(self).cursor() == o && final(self).position() == p,
                LexStep::Failure(e, _, _) => r matches Err(x) && x@
                    == SpecParserError::LexingError(e),
            },
    {
        match self.lexer.lex() {
            Ok(token) => Ok(token.split()),
            Err(e) => Err(ParserError::LexingError(e)),
        }
    }

    #[verifier::rlimit(40)]
    fn parse_object(&mut self, check_brace: bool) -> (r: Result<Value, ParserError>)
        requires
            old(self).wf(),
        ensures
            final(self).wf(),
            final(self).chars() == old(self).chars(),
            parsed(
                r,
                final(self).cursor(),
                final(self).position(),
                parse_object_at(
                    old(self).chars(),
                    old(self).cursor() as int,
                    old(self).position(),
                    check_brace,
                    Seq::empty(),
                    Seq::empty(),
                ),
            ),
        decreases self.chars().len() - self.cursor(), 0int,
    {
        proof {
            self.lemma_cursor();
        }
        let ghost s = self.chars();
        let ghost c0 = self.cursor() as int;
        let ghost target = parse_object_at(s, c0, self.position(), check_brace, Seq::empty(), Seq::empty());
        let mut map = ObjectMap::new();
        // Keys defined more than once. Their values are collected into an array, so
        // an array written by the user is never confused with the array built here.
        let mut duplicated: Vec<String> = Vec::new();
        let mut res: Result<Value, ParserError> = Ok(Value::Void);
        proof {
            assert(key_views(duplicated@) =~= Seq::<Seq<char>>::empty());
        }
        loop
            invariant_except_break
                self.wf(),
                self.chars() == s,
                old(self).chars() == s,
                old(self).cursor() == c0,
                c0 <= self.cursor() <= s.len(),
                target == parse_object_at(
                    s,
                    self.cursor() as int,
                    self.position(),
                    check_brace,
                    object_entries(map),
                    key_views(duplicated@),
                ),
            ensures
                self.wf(),
                self.chars() == s,
                parsed(res, self.cursor(), self.position(), target),
            decreases s.len() - self.cursor(),
        {
            let ghost c = self.cursor() as int;
            let ghost p = self.position();
            let ghost e = object_entries(map);
            let ghost d = key_views(duplicated@);
            proof {
                lemma_lex_forward(s, c, p);
            }
            let (literal, span) = match self.lex_token() {
                Ok(t) => t,
                Err(err) => {
                    res = Err(err);
                    break;
                },
            };
            match literal {
                Literal::QuotedString(key) | Literal::RawString(key) => {
                    match self.entry(check_brace, &mut map, &mut duplicated, key, span) {
                        Ok(()) => {
                            proof {
                                self.lemma_cursor();
                            }
                        },
                        Err(err) => {
                            res = Err(err);
                            break;
                        },
                    }
                },
                Literal::End => {
                    if check_brace {
                        match self.check_brace() {
                            Ok(()) => {},
                            Err(err) => {
                                res = Err(err);
                                break;
                            },
                        }
                    }
                    res = Ok(Value::Object(map));
                    break;
                },
                Literal::CloseBrace => {
                    if check_brace {
                        res = Ok(Value::Object(map));
                    } else {
                        res = Err(ParserError::UnexpectedCloseBrace(span));
                    }
                    break;
                },
                other => {
                    res = Err(ParserError::ExpectKey(other, span));
                    break;
                },
            }
        }
        res
    }

    /// Read the rest of an entry whose key `key` was read: `=`, the value,
    /// and the semicolon that follows every value but an object; then record it.
    fn entry(
        &mut self,
        check_brace: bool,
        map: &mut ObjectMap,
        duplicated: &mut Vec<String>,
        key: String,
        span: Span,
    ) -> (r: Result<(), ParserError>)
        requires
            old(self).wf(),
        ensures
            final(self).wf(),
            final(self).chars() == old(self).chars(),
            r is Ok ==> final(self).cursor() > old(self).cursor() && parse_entry(
                old(self).chars(),
                old(self).cursor() as int,
                old(self).position(),
                check_brace,
                object_entries(*old(map)),
                key_views(old(duplicated)@),
                key@,
                span,
            ) == parse_object_at(
                old(self).chars(),
                final(self).cursor() as int,
                final(self).position(),
                check_brace,
                object_entries(*final(map)),
                key_views(final(duplicated)@),
            ),
            r matches Err(x) ==> parse_entry(
                old(self).chars(),
                old(self).cursor() as int,
                old(self).position(),
                check_brace,
                object_entries(*old(map)),
                key_views(old(duplicated)@),
                key@,
                span,
            ) == ParseStep::Fail(x@),
        decreases self.chars().len() - self.cursor(), 1int,
    {
        proof {
            self.lemma_cursor();
        }
        let ghost s = self.chars();
        let ghost o1 = self.cursor() as int;
        let ghost p1 = self.position();
        proof {
            lemma_lex_forward(s, o1, p1);
        }
        self.check_equal(&span)?;
        let ghost o2 = self.cursor() as int;
        let ghost p2 = self.position();
        proof {
            lemma_value_forward(s, o2, p2, span);
        }
        let (val, check) = self.expect_value(&span)?;
        if check {
            let ghost o3 = self.cursor() as int;
            let ghost p3 = self.position();
            proof {
                lemma_lex_forward(s, o3, p3);
            }
            let line = self.lexer.line();
            self.check_semicolon(line)?;
        }
        insert_entry(map, duplicated, key, val);
        Ok(())
    }

    fn parse_array(&mut self) -> (r: Result<Value, ParserError>)
        requires
            old(self).wf(),
        ensures
            final(self).wf(),
            final(self).chars() == old(self).chars(),
            parsed(
                r,
                final(self).cursor(),
                final(self).position(),
                parse_array_at(
                    old(self).chars(),
                    old(self).cursor() as int,
                    old(self).position(),
                    false,
                    Seq::empty(),
                ),
            ),
        decreases self.chars().len() - self.cursor(), 0int,
    {
        proof {
            self.lemma_cursor();
        }
        let ghost s = self.chars();
        let ghost c0 = self.cursor() as int;
        let ghost target = parse_array_at(s, c0, self.position(), false, Seq::empty());
        let mut arr = Vec::<Value>::new();
        let mut expect_comma = false;
        let mut res: Result<Value, ParserError> = Ok(Value::Void);
        proof {
            assert(values_view(arr@) =~= Seq::<SpecValue>::empty());
        }
        loop
            invariant_except_break
                self.wf(),
                self.chars() == s,
                old(self).chars() == s,
                old(self).cursor() == c0,
                c0 <= self.cursor() <= s.len(),
                target == parse_array_at(
                    s,
                    self.cursor() as int,
                    self.position(),
                    expect_comma,
                    values_view(arr@),
                ),
            ensures
                self.wf(),
                self.chars() == s,
                parsed(res, self.cursor(), self.position(), target),
            decreases s.len() - self.cursor(),
        {
            let ghost c = self.cursor() as int;
            let ghost p = self.position();
            proof {
                lemma_lex_forward(s, c, p);
            }
            let (literal, span) = match self.lex_token() {
                Ok(t) => t,
                Err(err) => {
                    res = Err(err);
                    break;
                },
            };
            if !expect_comma {
                match literal {
                    Literal::CloseBracket => {
                        res = Ok(Value::Array(arr));
                        break;
                    },
                    other => {
                        let ghost o1 = self.cursor() as int;
                        let ghost p1 = self.position();
                        if other.is_end() {
                            res = Err(ParserError::ExpectValue(other, span));
                            break;
                        }
                        let ghost lit = other@;
                        proof {
                            lemma_element_forward(s, lit, span, o1, p1);
                        }
                        assert(self.cursor() > c0);
                        let val = match self.check_element(other, span) {
                            Ok(v) => v,
                            Err(err) => {
                                res = Err(err);
                                break;
                            },
                        };
                        let ghost before = arr@;
                        arr.push(val);
                        proof {
                            lemma_values_view_push(before, val);
                        }
                        expect_comma = true;
                    },
                }
            } else {
                match literal {
                    Literal::CloseBracket => {
                        res = Ok(Value::Array(arr));
                        break;
                    },
                    Literal::Comma => {
                        expect_comma = false;
                    },
                    _ => {
                        res = Err(ParserError::ExpectCommaOrCloseBracket(literal, span));
                        break;
                    },
                }
            }
        }
        res
    }

    fn check_element(&mut self, literal: Literal, span: Span) -> (r: Result<Value, ParserError>)
        requires
            old(self).wf(),
        ensures
            final(self).wf(),
            final(self).chars() == old(self).chars(),
            parsed(
                r,
                final(self).cursor(),
                final(self).position(),
                element_at(old(self).chars(), literal@, span, old(self).cursor() as int, old(self).position()),
            ),
        decreases self.chars().len() - self.cursor(), 1int,
    {
        proof {
            self.lemma_cursor();
        }
        match literal {
            Literal::Boolean(b) => Ok(Value::Boolean(b)),
            Literal::FloatNumber(f) => Ok(Value::FloatNumber(f)),
            Literal::QuotedString(s) => Ok(Value::QuotedString(s)),
            Literal::RawString(s) => Ok(Value::RawString(s)),
            Literal::SignedIntegerNumber(n) => Ok(Value::SignedIntegerNumber(n)),
            Literal::UnsignedIntegerNumber(n) => Ok(Value::UnsignedIntegerNumber(n)),
            Literal::Void => Ok(Value::Void),
            Literal::OpenBrace => self.parse_object(true),
            Literal::OpenBracket => self.parse_array(),
            other => Err(ParserError::ExpectValue(other, span)),
        }
    }

    fn expect_value(&mut self, other: &Span) -> (r: Result<(Value, bool), ParserError>)
        requires
            old(self).wf(),
        ensures
            final(self).wf(),
            final(self).chars() == old(self).chars(),
            match expect_value(old(self).chars(), old(self).cursor() as int, old(self).position(), *other) {
                ValueStep::Done(v, check, o, p) => r is Ok && r->Ok_0.0@ == v && r->Ok_0.1 == check
                    && final(self).cursor() == o && final(self).position() == p,
                ValueStep::Fail(e) => r matches Err(x) && x@ == e,
                ValueStep::Stray => false,
            },
        decreases self.chars().len() - self.cursor(), 2int,
    {
        proof {
            self.lemma_cursor();
        }
        let ghost s = self.chars();
        let ghost c = self.cursor() as int;
        let ghost p = self.position();
        proof {
            lemma_lex_forward(s, c, p);
        }
        let (literal, span) = self.lex_token()?;
        if span.is_same_line(other) {
            match literal {
                Literal::Boolean(b) => {
                    return Ok((Value::Boolean(b), true));
                },
                Literal::FloatNumber(f) => {
                    return Ok((Value::FloatNumber(f), true));
                },
                Literal::QuotedString(s) => {
                    return Ok((Value::QuotedString(s), true));
                },
                Literal::RawString(s) => {
                    return Ok((Value::RawString(s), true));
                },
                Literal::SignedIntegerNumber(n) => {
                    return Ok((Value::SignedIntegerNumber(n), true));
                },
                Literal::UnsignedIntegerNumber(n) => {
                    return Ok((Value::UnsignedIntegerNumber(n), true));
                },
                Literal::Void => {
                    return Ok((Value::Void, true));
                },
                _ => {},
            }
        }
        match literal {
            Literal::OpenBrace => Ok((self.parse_object(true)?, false)),
            Literal::OpenBracket => Ok((self.parse_array()?, true)),
            other => Err(ParserError::ExpectValue(other, span)),
        }
    }

    fn check_brace(&mut self) -> (r: Result<(), ParserError>)
        requires
            old(self).wf(),
        ensures
            final(self).wf(),
            final(self).chars() == old(self).chars(),
            match lex_at(old(self).chars(), old(self).cursor() as int, old(self).position()) {
                LexStep::Token(l, sp, o, p) => if l is CloseBrace {
                    r is Ok && final(self).cursor() == o && final(self).position() == p
                } else {
                    r matches Err(x) && x@ == SpecParserError::ExpectBrace(l, sp)
                },
                LexStep::Failure(e, _, _) => r matches Err(x) && x@
                    == SpecParserError::LexingError(e),
            },
    {
        let (literal, span) = self.lex_token()?;
        if literal.is_close_brace() {
            Ok(())
        } else {
            Err(ParserError::ExpectBrace(literal, span))
        }
    }

    /// Read the semicolon that ends an entry, on the line `line` where its
    /// value ends.
    fn check_semicolon(&mut self, line: usize) -> (r: Result<(), ParserError>)
        requires
            old(self).wf(),
        ensures
            final(self).wf(),
            final(self).chars() == old(self).chars(),
            checked(
                r,
                final(self).cursor(),
                final(self).position(),
                lex_at(old(self).chars(), old(self).cursor() as int, old(self).position()),
                |l: SpecLiteral| l is Semicolon,
                line,
                |l: SpecLiteral, sp: Span| SpecParserError::ExpectSemicolon(l, sp),
            ),
    {
        let (literal, span) = self.lex_token()?;
        if literal.is_semicolon() && span.end.0 == line {
            Ok(())
        } else {
            Err(ParserError::ExpectSemicolon(literal, span))
        }
    }

    fn check_equal(&mut self, other: &Span) -> (r: Result<(), ParserError>)
        requires
            old(self).wf(),
        ensures
            final(self).wf(),
            final(self).chars() == old(self).chars(),
            checked(
                r,
                final(self).cursor(),
                final(self).position(),
                lex_at(old(self).chars(), old(self).cursor() as int, old(self).position()),
                |l: SpecLiteral| l is Equal,
                other.end.0,
                |l: SpecLiteral, sp: Span| SpecParserError::ExpectEqual(l, sp),
            ),
    {
        let (literal, span) = self.lex_token()?;
        if literal.is_equal() && span.is_same_line(other) {
            Ok(())
        } else {
            Err(ParserError::ExpectEqual(literal, span))
        }
    }
}

/// Whether `key` is one of `keys`.
fn contains_key(keys: &Vec<String>, key: &String) -> (r: bool)
    ensures
        r == key_views(keys@).contains(key@),
{
    let mut i: usize = 0;
    while i < keys.len()
        invariant
            i <= keys.len(),
            forall|j: int| 0 <= j < i ==> keys@[j]@ != key@,
        decreases keys.len() - i,
    {
        if keys[i] == *key {
            proof {
                assert(key_views(keys@)[i as int] == key@);
            }
            return true;
        }
        i += 1;
    }
    proof {
        if key_views(keys@).contains(key@) {
            let j = choose|j: int| 0 <= j < key_views(keys@).len() && key_views(keys@)[j] == key@;
            assert(keys@[j]@ == key@);
        }
    }
    false
}

/// Insert an entry into `map`.
///
/// `Marquage` allows a key to be defined more than once. Every occurrence is
/// collected into a [`Value::Array`], so `a = 1; a = 2;` gives `Array([1, 2])`
/// and can be parsed into a `Vec<T>`. A key defined only once keeps its own
/// value.
///
/// An array written by the user is never flattened, so the array's length always
/// equals the count of the key's definitions: `a = [1, 2]; a = [3];` gives
/// `Array([Array([1, 2]), Array([3])])`. `duplicated` records the keys whose
/// value has already been turned into an array, telling them apart from the
/// arrays written by the user.
///
/// Each call is one step of [with_definition]; calls made in turn from an
/// empty map build [define_all](crate::parse::parsing::define_all) of the
/// definitions, of which [law_repeated_keys](crate::parse::parsing::law_repeated_keys)
/// states what every key holds.
pub fn insert_entry(map: &mut ObjectMap, duplicated: &mut Vec<String>, key: String, value: Value)
    ensures
        (object_entries(*final(map)), key_views(final(duplicated)@)) == with_definition(
            object_entries(*old(map)),
            key_views(old(duplicated)@),
            key@,
            value@,
        ),
{
    let ghost e = object_entries(*map);
    let ghost d = key_views(duplicated@);
    proof {
        lemma_key_index(e, key@);
    }
    // The first occurrence.
    if map.get(key.as_str()).is_none() {
        map.insert(key, value);
        return;
    }
    let ghost i = key_index(e, key@);
    if contains_key(duplicated, &key) {
        // The third and later occurrences. The value is an array here.
        let slot = map.insert(key.clone(), Value::Void);
        match slot {
            Some(Value::Array(mut arr)) => {
                let ghost before = arr@;
                arr.push(value);
                proof {
                    lemma_values_view_push(before, value);
                }
                let ghost after = SpecValue::Array(values_view(arr@));
                map.insert(key, Value::Array(arr));
                proof {
                    lemma_inserted_twice(e, key@, SpecValue::Void, after);
                }
            },
            Some(other) => {
                let ghost back = other@;
                map.insert(key, other);
                proof {
                    lemma_inserted_twice(e, key@, SpecValue::Void, back);
                    assert(inserted(e, key@, back) =~= e);
                }
            },
            None => {},
        }
    } else {
        // The second occurrence turns the value into an array.
        let first = map.insert(key.clone(), Value::Void);
        match first {
            Some(first) => {
                let pair = vec![first, value];
                proof {
                    lemma_values_view(pair@);
                    assert(values_view(pair@) =~= seq![e[i].1, value@]);
                }
                map.insert(key.clone(), Value::Array(pair));
                duplicated.push(key);
                proof {
                    lemma_inserted_twice(e, key@, SpecValue::Void, SpecValue::Array(seq![e[i].1, value@]));
                    assert(key_views(duplicated@) =~= d.push(key@));
                }
            },
            None => {},
        }
    }
}

} // verus!

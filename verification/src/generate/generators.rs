use vstd::prelude::*;
use vstd::utf8::{
    decode_utf8, encode_utf8, encode_utf8_decode_utf8, encode_utf8_valid_utf8,
    length_of_first_scalar, pop_first_scalar, valid_utf8, valid_utf8_concat,
};

use crate::collections::ObjectMap;
use crate::data::value::{lemma_values_view, values_view, SpecValue, Value};
use crate::generate::config::Config;
use crate::generate::generator::{
    array_text, element_text, elements_text, entries_text, lemma_ascii_char, lemma_encode_concat,
    lemma_entries_depth, lemma_spaces_bytes, lemma_values_depth, object_text, scalar_text, spaces,
    value_depth, Generator, Layout,
};
use crate::text::{decimal_chars, decimal_text, signed_decimal_text, string_from_chars, utf8_str, lemma_utf8_text};

verus! {

const SPACE: u8 = 32;
const OPEN_BRACKET: u8 = 91;
const CLOSE_BRACKET: u8 = 93;
const OPEN_BRACE: u8 = 123;
const CLOSE_BRACE: u8 = 125;
const QUOTE: u8 = 34;
const MINUS: u8 = 45;
const COMMA: u8 = 44;
const SEMICOLON: u8 = 59;
const EQUAL: u8 = 61;
const NEWLINE: u8 = 10;

/// The layout of [PrettyConfig]: two spaces of indentation, a trailing comma,
/// each entry of an object on its own line, arrays on one line.
pub open spec fn pretty_layout() -> Layout {
    Layout {
        indent: 2,
        following_comma: true,
        newline_in_object: true,
        newline_in_array: false,
        equal_space: 1,
        array_space: 1,
        object_space: 0,
    }
}

/// A built-in config of [PrettyGenerator].
#[derive(Default)]
pub struct PrettyConfig;

impl Config for PrettyConfig {
    fn equal_space(&self) -> (r: usize)
        ensures
            r == pretty_layout().equal_space,
    {
        1
    }

    fn following_comma(&self) -> (r: bool)
        ensures
            r == pretty_layout().following_comma,
    {
        true
    }

    fn indent(&self) -> (r: usize)
        ensures
            r == pretty_layout().indent,
    {
        2
    }

    fn newline_in_array(&self) -> (r: bool)
        ensures
            r == pretty_layout().newline_in_array,
    {
        false
    }

    fn newline_in_object(&self) -> (r: bool)
        ensures
            r == pretty_layout().newline_in_object,
    {
        true
    }

    fn array_space(&self) -> (r: usize)
        ensures
            r == pretty_layout().array_space,
    {
        1
    }

    fn object_space(&self) -> (r: usize)
        ensures
            r == pretty_layout().object_space,
    {
        0
    }
}

/// Decoding two valid UTF-8 sequences one after the other gives the two
/// texts one after the other.
pub proof fn lemma_decode_concat(a: Seq<u8>, b: Seq<u8>)
    requires
        valid_utf8(a),
        valid_utf8(b),
    ensures
        valid_utf8(a + b),
        decode_utf8(a + b) == decode_utf8(a) + decode_utf8(b),
    decreases a.len(),
{
    valid_utf8_concat(a, b);
    if a.len() == 0 {
        assert(a + b =~= b);
        assert(decode_utf8(a) + decode_utf8(b) =~= decode_utf8(b));
    } else {
        let rest = pop_first_scalar(a);
        assert(rest.len() < a.len());
        lemma_decode_concat(rest, b);
        assert(pop_first_scalar(a + b) =~= rest + b);
        assert(decode_utf8(a + b) =~= decode_utf8(a) + decode_utf8(b));
    }
}

/// Appending the encoding of `piece` to the encoding of `t` encodes `t`
/// followed by `piece`.
proof fn lemma_extend(base: Seq<u8>, t: Seq<char>, piece: Seq<char>)
    ensures
        base + encode_utf8(t) + encode_utf8(piece) == base + encode_utf8(t + piece),
{
    lemma_encode_concat(t, piece);
    assert(base + encode_utf8(t) + encode_utf8(piece) =~= base + (encode_utf8(t) + encode_utf8(piece)));
}

/// A built-in generator that output a pretty format.
pub struct PrettyGenerator {
    config: PrettyConfig,
    data: Vec<u8>,
}

impl PrettyGenerator {
    /// Create a [PrettyGenerator]
    pub fn create(c: PrettyConfig) -> (g: Self)
        ensures
            g.written() == Seq::<u8>::empty(),
    {
        Self { config: c, data: Vec::new() }
    }

    /// Write the bytes of the text `s`.
    fn write_str(&mut self, s: &str)
        ensures
            final(self).written() == old(self).written() + encode_utf8(s@),
    {
        self.write(s.as_bytes());
    }
}

impl Generator for PrettyGenerator {
    closed spec fn written(&self) -> Seq<u8> {
        self.data@
    }

    fn generate(self, v: ObjectMap) -> (s: String)
        ensures
            s@ == decode_utf8(self.written()) + object_text(pretty_layout(), v@, 0),
    {
        let ghost before = self.written();
        let mut this = self;
        this.write_object(v, 0);
        let ghost t = object_text(pretty_layout(), v@, 0);
        proof {
            encode_utf8_valid_utf8(t);
            lemma_decode_concat(before, encode_utf8(t));
            encode_utf8_decode_utf8(t);
        }
        match utf8_str(this.data.as_slice()) {
            Some(s) => {
                proof {
                    lemma_utf8_text(s, this.data@);
                }
                s.to_owned()
            },
            None => String::new(),
        }
    }

    fn write(&mut self, data: &[u8]) {
        let mut i: usize = 0;
        while i < data.len()
            invariant
                i <= data@.len(),
                self.data@ == old(self).data@ + data@.subrange(0, i as int),
            decreases data@.len() - i,
        {
            self.data.push(data[i]);
            i += 1;
            assert(self.data@ =~= old(self).data@ + data@.subrange(0, i as int));
        }
        assert(data@.subrange(0, i as int) =~= data@);
    }

    fn write_byte(&mut self, one: u8) {
        self.data.push(one);
    }

    fn write_space(&mut self, repeat: usize) {
        let mut i: usize = 0;
        while i < repeat
            invariant
                i <= repeat,
                self.data@ == old(self).data@ + Seq::new(i as nat, |_j: int| 32u8),
            decreases repeat - i,
        {
            self.write_byte(SPACE);
            i += 1;
            assert(self.data@ =~= old(self).data@ + Seq::new(i as nat, |_j: int| 32u8));
        }
        proof {
            lemma_spaces_bytes(repeat as int);
        }
    }

    fn write_array(&mut self, v: Vec<Value>, layer: usize)
        ensures
            final(self).written() == old(self).written() + encode_utf8(
                array_text(pretty_layout(), values_view(v@), layer as int),
            ),
        decreases value_depth(SpecValue::Array(values_view(v@))),
    {
        let ghost l = pretty_layout();
        let ghost a = values_view(v@);
        let ghost base = self.written();
        proof {
            lemma_values_view(v@);
        }
        let len = v.len();
        self.write_byte(OPEN_BRACKET);
        if !self.config.newline_in_array() {
            self.write_space(self.config.array_space());
        } else {
            self.write_byte(NEWLINE);
        }
        let ghost open_text = seq!['['] + spaces(l.array_space as int);
        proof {
            lemma_ascii_char('[');
            lemma_extend(base, seq!['['], spaces(l.array_space as int));
            assert(base + encode_utf8(seq!['[']) =~= base.push(91u8));
            assert(self.written() == base + encode_utf8(open_text));
            assert(elements_text(l, a, layer as int, 0) =~= Seq::<char>::empty());
            assert(open_text + elements_text(l, a, layer as int, 0) =~= open_text);
        }
        let mut index: usize = 0;
        for val in it: v.into_iter()
            invariant
                it.seq() == v@,
                index == it.index(),
                len == v@.len(),
                a == values_view(v@),
                a.len() == v@.len(),
                forall|i: int| 0 <= i < v@.len() ==> #[trigger] a[i] == v@[i]@,
                l == pretty_layout(),
                layer + value_depth(SpecValue::Array(a)) <= usize::MAX / 2,
                self.written() == base + encode_utf8(
                    open_text + elements_text(l, a, layer as int, index as int),
                ),
        {
            let ghost mid = self.written();
            let ghost prefix = open_text + elements_text(l, a, layer as int, index as int);
            let ghost i = index as int;
            proof {
                lemma_values_depth(a, a.len() as int, i);
                assert(val@ == a[i]);
            }
            if self.config.newline_in_array() {
                self.write_space(self.config.indent() * layer);
            }
            match val {
                Value::Array(arr) => {
                    self.write_array(arr, layer + 1);
                },
                Value::Boolean(b) => self.write_bool(b),
                Value::FloatNumber(f) => self.write_float(f),
                Value::Object(obj) => {
                    self.write_object(obj, layer + 1);
                },
                Value::QuotedString(s) => self.write_quoted_string(s),
                Value::RawString(s) => self.write_raw_string(s),
                Value::SignedIntegerNumber(n) => self.write_signed_integer(n),
                Value::UnsignedIntegerNumber(n) => self.write_unsigned_integer(n),
                Value::Void => self.write_void(),
            }
            let ghost item = element_text(l, a[i], layer as int);
            proof {
                lemma_extend(base, prefix, item);
            }
            let ghost sep = if i == a.len() - 1 {
                seq![',']
            } else {
                seq![','] + spaces(l.array_space as int)
            };
            if index == len - 1 {
                if self.config.following_comma() {
                    self.write_byte(COMMA);
                }
            } else {
                self.write_byte(COMMA);
                if self.config.newline_in_array() {
                    self.write_byte(NEWLINE);
                } else {
                    self.write_space(self.config.array_space());
                }
            }
            proof {
                lemma_ascii_char(',');
                let w = base + encode_utf8(prefix + item);
                assert(w + encode_utf8(seq![',']) =~= w.push(44u8));
                if i != a.len() - 1 {
                    lemma_extend(w, seq![','], spaces(l.array_space as int));
                    assert(w + encode_utf8(seq![',']) + encode_utf8(spaces(l.array_space as int))
                        =~= w + encode_utf8(sep));
                }
                lemma_extend(base, prefix + item, sep);
                assert(elements_text(l, a, layer as int, i + 1) =~= elements_text(
                    l,
                    a,
                    layer as int,
                    i,
                ) + item + sep);
                assert(open_text + elements_text(l, a, layer as int, i + 1) =~= prefix + item + sep);
            }
            index += 1;
        }
        let ghost body = open_text + elements_text(l, a, layer as int, a.len() as int);
        if !self.config.newline_in_array() {
            self.write_space(self.config.array_space());
        } else {
            self.write_space(self.config.indent() * (layer - 1));
        }
        self.write_byte(CLOSE_BRACKET);
        proof {
            lemma_extend(base, body, spaces(l.array_space as int));
            lemma_ascii_char(']');
            let w = base + encode_utf8(body + spaces(l.array_space as int));
            assert(w + encode_utf8(seq![']']) =~= w.push(93u8));
            lemma_extend(base, body + spaces(l.array_space as int), seq![']']);
            assert(body + spaces(l.array_space as int) + seq![']'] =~= array_text(
                l,
                a,
                layer as int,
            ));
        }
    }

    #[verifier::rlimit(60)]
    fn write_object(&mut self, v: ObjectMap, layer: usize)
        ensures
            final(self).written() == old(self).written() + encode_utf8(
                object_text(pretty_layout(), v@, layer as int),
            ),
        decreases value_depth(SpecValue::Object(v@)),
    {
        let ghost l = pretty_layout();
        let ghost e = v@;
        let ghost base = self.written();
        if layer != 0 {
            self.write_byte(OPEN_BRACE);
        }
        if self.config.newline_in_object() {
            self.write_byte(NEWLINE);
        } else {
            self.write_space(self.config.object_space());
        }
        let ghost brace: Seq<char> = if layer != 0 {
            seq!['{']
        } else {
            Seq::empty()
        };
        let ghost open_text = brace + seq!['\n'];
        proof {
            lemma_ascii_char('{');
            lemma_ascii_char('\n');
            if layer != 0 {
                assert(base + encode_utf8(seq!['{']) =~= base.push(123u8));
                lemma_extend(base, seq!['{'], seq!['\n']);
                assert(base + encode_utf8(seq!['{']) + encode_utf8(seq!['\n']) =~= base.push(
                    123u8,
                ).push(10u8));
            } else {
                assert(open_text =~= seq!['\n']);
                assert(base + encode_utf8(seq!['\n']) =~= base.push(10u8));
            }
            assert(self.written() == base + encode_utf8(open_text));
            assert(entries_text(l, e, layer as int, 0) =~= Seq::<char>::empty());
            assert(open_text + entries_text(l, e, layer as int, 0) =~= open_text);
        }
        let entries = v.into_entries();
        let count = entries.len();
        let mut index: usize = 0;
        for pair in it: entries.into_iter()
            invariant
                it.seq() == entries@,
                index == it.index(),
                entries@.len() == e.len(),
                count == e.len(),
                e == v@,
                forall|i: int|
                    0 <= i < entries@.len() ==> (#[trigger] entries@[i]).0@ == e[i].0
                        && entries@[i].1@ == e[i].1,
                l == pretty_layout(),
                layer + value_depth(SpecValue::Object(e)) <= usize::MAX / 2,
                self.written() == base + encode_utf8(
                    open_text + entries_text(l, e, layer as int, index as int),
                ),
        {
            let ghost i = index as int;
            let ghost prefix = open_text + entries_text(l, e, layer as int, i);
            proof {
                lemma_entries_depth(e, e.len() as int, i);
                assert(pair == entries@[i]);
            }
            let (key, val) = pair;
            proof {
                assert(val@ == e[i].1);
                assert(key@ == e[i].0);
                assert(value_depth(val@) < value_depth(SpecValue::Object(e)));
            }
            if self.config.newline_in_object() {
                self.write_space(self.config.indent() * layer);
            }
            self.write_raw_string(key);
            self.write_space(self.config.equal_space());
            self.write_byte(EQUAL);
            self.write_space(self.config.equal_space());
            let ghost head = spaces(l.indent * layer) + e[i].0 + spaces(1) + seq!['='] + spaces(1);
            proof {
                lemma_extend(base, prefix, spaces(l.indent * layer));
                lemma_extend(base, prefix + spaces(l.indent * layer), e[i].0);
                lemma_extend(base, prefix + spaces(l.indent * layer) + e[i].0, spaces(1));
                lemma_ascii_char('=');
                let w = base + encode_utf8(prefix + spaces(l.indent * layer) + e[i].0 + spaces(1));
                assert(w + encode_utf8(seq!['=']) =~= w.push(61u8));
                lemma_extend(base, prefix + spaces(l.indent * layer) + e[i].0 + spaces(1), seq!['=']);
                lemma_extend(
                    base,
                    prefix + spaces(l.indent * layer) + e[i].0 + spaces(1) + seq!['='],
                    spaces(1),
                );
                assert(prefix + spaces(l.indent * layer) + e[i].0 + spaces(1) + seq!['=']
                    + spaces(1) =~= prefix + head);
            }
            let ghost at_value = self.written();
            let ghost vt = element_text(l, e[i].1, layer as int);
            proof {
                lemma_ascii_char(';');
            }
            match val {
                Value::Array(arr) => {
                    self.write_array(arr, layer + 1);
                    self.write_byte(SEMICOLON);
                },
                Value::Boolean(b) => {
                    self.write_bool(b);
                    self.write_byte(SEMICOLON);
                },
                Value::FloatNumber(f) => {
                    self.write_float(f);
                    self.write_byte(SEMICOLON);
                },
                Value::Object(obj) => {
                    self.write_object(obj, layer + 1);
                },
                Value::QuotedString(s) => {
                    self.write_quoted_string(s);
                    self.write_byte(SEMICOLON);
                },
                Value::RawString(s) => {
                    self.write_raw_string(s);
                    self.write_byte(SEMICOLON);
                },
                Value::SignedIntegerNumber(n) => {
                    self.write_signed_integer(n);
                    self.write_byte(SEMICOLON);
                },
                Value::UnsignedIntegerNumber(n) => {
                    self.write_unsigned_integer(n);
                    self.write_byte(SEMICOLON);
                },
                Value::Void => {
                    self.write_void();
                    self.write_byte(SEMICOLON);
                },
            }
            let ghost member = if e[i].1 is Object {
                vt
            } else {
                vt + seq![';']
            };
            proof {
                lemma_extend(base, prefix + head, vt);
                if !(e[i].1 is Object) {
                    let w = base + encode_utf8(prefix + head + vt);
                    assert(w + encode_utf8(seq![';']) =~= w.push(59u8));
                    lemma_extend(base, prefix + head + vt, seq![';']);
                    assert(prefix + head + vt + seq![';'] =~= prefix + head + member);
                }
                assert(self.written() == base + encode_utf8(prefix + head + member));
            }
            if self.config.newline_in_object() {
                self.write_byte(NEWLINE);
            } else {
                self.write_space(self.config.object_space());
            }
            proof {
                lemma_ascii_char('\n');
                let w = base + encode_utf8(prefix + head + member);
                assert(w + encode_utf8(seq!['\n']) =~= w.push(10u8));
                lemma_extend(base, prefix + head + member, seq!['\n']);
                assert(entries_text(l, e, layer as int, i + 1) =~= entries_text(
                    l,
                    e,
                    layer as int,
                    i,
                ) + head + member + seq!['\n']);
                assert(open_text + entries_text(l, e, layer as int, i + 1) =~= prefix + head + member
                    + seq!['\n']);
            }
            index += 1;
        }
        let ghost body = open_text + entries_text(l, e, layer as int, e.len() as int);
        if layer != 0 {
            if self.config.newline_in_object() {
                self.write_space(self.config.indent() * (layer - 1));
            }
            self.write_byte(CLOSE_BRACE);
        }
        proof {
            if layer != 0 {
                lemma_extend(base, body, spaces(l.indent * (layer - 1)));
                lemma_ascii_char('}');
                let w = base + encode_utf8(body + spaces(l.indent * (layer - 1)));
                assert(w + encode_utf8(seq!['}']) =~= w.push(125u8));
                lemma_extend(base, body + spaces(l.indent * (layer - 1)), seq!['}']);
                assert(body + spaces(l.indent * (layer - 1)) + seq!['}'] =~= object_text(
                    l,
                    e,
                    layer as int,
                ));
            } else {
                assert(body =~= object_text(l, e, layer as int));
            }
        }
    }

    fn write_bool(&mut self, v: bool)
        ensures
            final(self).written() == old(self).written() + encode_utf8(
                scalar_text(SpecValue::Boolean(v)),
            ),
    {
        if v {
            let t = "true";
            proof {
                reveal_strlit("true");
                assert(t@ =~= seq!['t', 'r', 'u', 'e']);
            }
            self.write_str(t);
        } else {
            let t = "false";
            proof {
                reveal_strlit("false");
                assert(t@ =~= seq!['f', 'a', 'l', 's', 'e']);
            }
            self.write_str(t);
        }
    }

    fn write_float(&mut self, v: String)
        ensures
            final(self).written() == old(self).written() + encode_utf8(
                scalar_text(SpecValue::FloatNumber(v@)),
            ),
    {
        self.write_str(v.as_str());
    }

    fn write_quoted_string(&mut self, v: String)
        ensures
            final(self).written() == old(self).written() + encode_utf8(
                scalar_text(SpecValue::QuotedString(v@)),
            ),
    {
        let mut bytes: Vec<u8> = Vec::new();
        bytes.push(QUOTE);
        let body = v.as_str().as_bytes();
        let mut i: usize = 0;
        while i < body.len()
            invariant
                i <= body@.len(),
                bytes@ == seq![34u8] + body@.subrange(0, i as int),
            decreases body@.len() - i,
        {
            bytes.push(body[i]);
            i += 1;
            assert(bytes@ =~= seq![34u8] + body@.subrange(0, i as int));
        }
        bytes.push(QUOTE);
        proof {
            lemma_ascii_char('"');
            lemma_encode_concat(seq!['"'], v@);
            lemma_encode_concat(seq!['"'] + v@, seq!['"']);
            assert(bytes@ =~= encode_utf8(seq!['"'] + v@ + seq!['"']));
        }
        self.write(bytes.as_slice());
    }

    fn write_raw_string(&mut self, v: String)
        ensures
            final(self).written() == old(self).written() + encode_utf8(v@),
    {
        self.write_str(v.as_str());
    }

    fn write_signed_integer(&mut self, v: i32)
        ensures
            final(self).written() == old(self).written() + encode_utf8(
                scalar_text(SpecValue::SignedIntegerNumber(v)),
            ),
    {
        let ghost base = self.written();
        if v < 0 {
            self.write_byte(MINUS);
            let m: i64 = -(v as i64);
            let digits = decimal_chars(m as u64);
            let text = string_from_chars(digits.as_slice());
            self.write_str(text.as_str());
            proof {
                lemma_ascii_char('-');
                assert(base + encode_utf8(seq!['-']) =~= base.push(45u8));
                lemma_extend(base, seq!['-'], decimal_text(m as nat));
            }
        } else {
            let digits = decimal_chars(v as u64);
            let text = string_from_chars(digits.as_slice());
            self.write_str(text.as_str());
        }
    }

    fn write_unsigned_integer(&mut self, v: u32)
        ensures
            final(self).written() == old(self).written() + encode_utf8(
                scalar_text(SpecValue::UnsignedIntegerNumber(v)),
            ),
    {
        let digits = decimal_chars(v as u64);
        let text = string_from_chars(digits.as_slice());
        self.write_str(text.as_str());
    }

    fn write_void(&mut self)
        ensures
            final(self).written() == old(self).written() + encode_utf8(scalar_text(SpecValue::Void)),
    {
        let t = "void";
        proof {
            reveal_strlit("void");
            assert(t@ =~= seq!['v', 'o', 'i', 'd']);
        }
        self.write_str(t);
    }
}

} // verus!

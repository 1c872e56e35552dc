//! What a generator writes: the text of a value under a layout, and the
//! operations every generator offers.
use vstd::prelude::*;
use vstd::utf8::{encode_utf8, is_ascii_chars, is_ascii_chars_encode_utf8, valid_utf8};

use crate::collections::ObjectMap;
use crate::data::value::{values_view, SpecValue, Value};
use crate::text::{decimal_text, signed_decimal_text};

verus! {

/// The choices of a [Config](crate::generate::Config), as numbers and flags.
pub struct Layout {
    pub indent: usize,
    pub following_comma: bool,
    pub newline_in_object: bool,
    pub newline_in_array: bool,
    pub equal_space: usize,
    pub array_space: usize,
    pub object_space: usize,
}

/// `n` spaces.
pub open spec fn spaces(n: int) -> Seq<char> {
    Seq::new(n as nat, |_i: int| ' ')
}

/// The text of a value that holds no other value.
pub open spec fn scalar_text(v: SpecValue) -> Seq<char> {
    match v {
        SpecValue::Boolean(b) => if b {
            seq!['t', 'r', 'u', 'e']
        } else {
            seq!['f', 'a', 'l', 's', 'e']
        },
        SpecValue::FloatNumber(t) => t,
        SpecValue::QuotedString(s) => seq!['"'] + s + seq!['"'],
        SpecValue::RawString(s) => s,
        SpecValue::SignedIntegerNumber(n) => signed_decimal_text(n as int),
        SpecValue::UnsignedIntegerNumber(n) => decimal_text(n as nat),
        SpecValue::Void => seq!['v', 'o', 'i', 'd'],
        _ => Seq::empty(),
    }
}

/// The text of a value standing as an element of an array at depth `layer`:
/// a nested array or object goes one layer deeper.
pub open spec fn element_text(l: Layout, v: SpecValue, layer: int) -> Seq<char>
    decreases v, 0int,
{
    match v {
        SpecValue::Array(a) => array_text(l, a, layer + 1),
        SpecValue::Object(e) => object_text(l, e, layer + 1),
        _ => scalar_text(v),
    }
}

/// The text of an array at depth `layer`.
pub open spec fn array_text(l: Layout, a: Seq<SpecValue>, layer: int) -> Seq<char>
    decreases a, a.len() + 1,
{
    seq!['['] + (if l.newline_in_array {
        seq!['\n']
    } else {
        spaces(l.array_space as int)
    }) + elements_text(l, a, layer, a.len() as int) + (if l.newline_in_array {
        spaces(l.indent * (layer - 1))
    } else {
        spaces(l.array_space as int)
    }) + seq![']']
}

/// The text of the first `n` elements of the array `a` at depth `layer`: each
/// is followed by a comma and a separator, the last one by a comma only
/// where the layout asks for a trailing comma.
pub open spec fn elements_text(l: Layout, a: Seq<SpecValue>, layer: int, n: int) -> Seq<char>
    decreases a, n,
{
    if n <= 0 || n > a.len() {
        Seq::empty()
    } else {
        elements_text(l, a, layer, n - 1) + (if l.newline_in_array {
            spaces(l.indent * layer)
        } else {
            Seq::empty()
        }) + element_text(l, a[n - 1], layer) + (if n == a.len() {
            if l.following_comma {
                seq![',']
            } else {
                Seq::empty()
            }
        } else {
            seq![','] + if l.newline_in_array {
                seq!['\n']
            } else {
                spaces(l.array_space as int)
            }
        })
    }
}

/// The text of an object at depth `layer`. The top-level object (depth 0)
/// has no braces.
pub open spec fn object_text(l: Layout, e: Seq<(Seq<char>, SpecValue)>, layer: int) -> Seq<char>
    decreases e, e.len() + 1,
{
    (if layer != 0 {
        seq!['{']
    } else {
        Seq::empty()
    }) + (if l.newline_in_object {
        seq!['\n']
    } else {
        spaces(l.object_space as int)
    }) + entries_text(l, e, layer, e.len() as int) + (if layer != 0 {
        (if l.newline_in_object {
            spaces(l.indent * (layer - 1))
        } else {
            Seq::empty()
        }) + seq!['}']
    } else {
        Seq::empty()
    })
}

/// The text of the first `n` entries of an object at depth `layer`:
/// `key = value` with the layout's spaces, each entry on its own line where
/// the layout asks for newlines.
pub open spec fn entries_text(l: Layout, e: Seq<(Seq<char>, SpecValue)>, layer: int, n: int) -> Seq<
    char,
>
    decreases e, n,
{
    if n <= 0 || n > e.len() {
        Seq::empty()
    } else {
        proof {
            assert(decreases_to!(e => e[n - 1]));
        }
        entries_text(l, e, layer, n - 1) + (if l.newline_in_object {
            spaces(l.indent * layer)
        } else {
            Seq::empty()
        }) + e[n - 1].0 + spaces(l.equal_space as int) + seq!['='] + spaces(l.equal_space as int)
            + (if e[n - 1].1 is Object {
            element_text(l, e[n - 1].1, layer)
        } else {
            element_text(l, e[n - 1].1, layer) + seq![';']
        }) + (if l.newline_in_object {
            seq!['\n']
        } else {
            spaces(l.object_space as int)
        })
    }
}

/// How deeply arrays and objects nest in `v`: `0` for a value that holds no
/// other value.
pub open spec fn value_depth(v: SpecValue) -> nat
    decreases v, 0int,
{
    match v {
        SpecValue::Array(a) => 1 + values_depth(a, a.len() as int),
        SpecValue::Object(e) => 1 + entries_depth(e, e.len() as int),
        _ => 0,
    }
}

/// The greatest depth among the first `n` values of `a`.
pub open spec fn values_depth(a: Seq<SpecValue>, n: int) -> nat
    decreases a, n,
{
    if n <= 0 || n > a.len() {
        0
    } else {
        let d = value_depth(a[n - 1]);
        let rest = values_depth(a, n - 1);
        if d > rest {
            d
        } else {
            rest
        }
    }
}

/// The greatest depth among the values of the first `n` entries of `e`.
pub open spec fn entries_depth(e: Seq<(Seq<char>, SpecValue)>, n: int) -> nat
    decreases e, n,
{
    if n <= 0 || n > e.len() {
        0
    } else {
        proof {
            assert(decreases_to!(e => e[n - 1]));
        }
        let d = value_depth(e[n - 1].1);
        let rest = entries_depth(e, n - 1);
        if d > rest {
            d
        } else {
            rest
        }
    }
}

/// Every value among the first `n` of `a` is at most as deep as all of them.
pub proof fn lemma_values_depth(a: Seq<SpecValue>, n: int, i: int)
    requires
        0 <= i < n <= a.len(),
    ensures
        value_depth(a[i]) <= values_depth(a, n),
    decreases n,
{
    if i < n - 1 {
        lemma_values_depth(a, n - 1, i);
    }
}

/// Every value among the first `n` entries of `e` is at most as deep as all
/// of them.
pub proof fn lemma_entries_depth(e: Seq<(Seq<char>, SpecValue)>, n: int, i: int)
    requires
        0 <= i < n <= e.len(),
    ensures
        value_depth(e[i].1) <= entries_depth(e, n),
    decreases n,
{
    if i < n - 1 {
        lemma_entries_depth(e, n - 1, i);
    }
}

/// Encoding two texts one after the other gives the encoding of the whole.
pub proof fn lemma_encode_concat(a: Seq<char>, b: Seq<char>)
    ensures
        encode_utf8(a + b) == encode_utf8(a) + encode_utf8(b),
    decreases a.len(),
{
    if a.len() == 0 {
        assert(a + b =~= b);
        assert(encode_utf8(a) =~= Seq::<u8>::empty());
        assert(encode_utf8(a) + encode_utf8(b) =~= encode_utf8(b));
    } else {
        lemma_encode_concat(a.drop_first(), b);
        assert((a + b).drop_first() =~= a.drop_first() + b);
        assert((a + b)[0] == a[0]);
        assert(encode_utf8(a + b) =~= encode_utf8(a) + encode_utf8(b));
    }
}

/// An ASCII character is encoded as the one byte of its code.
pub proof fn lemma_ascii_char(c: char)
    requires
        c <= '\u{7f}',
    ensures
        encode_utf8(seq![c]) == seq![c as u8],
{
    let t = seq![c];
    assert(is_ascii_chars(t));
    is_ascii_chars_encode_utf8(t);
    assert(encode_utf8(t)[0] == t[0] as u8);
    assert(encode_utf8(t) =~= seq![c as u8]);
}

/// `n` spaces are encoded as `n` space bytes.
pub proof fn lemma_spaces_bytes(n: int)
    requires
        n >= 0,
    ensures
        encode_utf8(spaces(n)) == Seq::new(n as nat, |_i: int| 32u8),
{
    let t = spaces(n);
    assert(is_ascii_chars(t));
    is_ascii_chars_encode_utf8(t);
    assert(encode_utf8(t) =~= Seq::new(n as nat, |_i: int| 32u8));
}

/// A generator: it writes the text of values into a buffer of bytes.
pub trait Generator: Sized {
    /// The bytes written so far.
    spec fn written(&self) -> Seq<u8>;

    /// Generate a string.
    ///
    /// # Returns
    /// Content is determined on exact map data.
    fn generate(self, v: ObjectMap) -> String
        requires
            valid_utf8(self.written()),
            value_depth(SpecValue::Object(v@)) <= usize::MAX / 2,
    ;

    /// Write bytes.
    fn write(&mut self, data: &[u8])
        ensures
            final(self).written() == old(self).written() + data@,
    ;

    /// Write one byte.
    fn write_byte(&mut self, one: u8)
        ensures
            final(self).written() == old(self).written().push(one),
    ;

    /// Write spaces.
    fn write_space(&mut self, repeat: usize)
        ensures
            final(self).written() == old(self).written() + encode_utf8(spaces(repeat as int)),
    ;

    /// Write an array.
    fn write_array(&mut self, v: Vec<Value>, layer: usize)
        requires
            layer + value_depth(SpecValue::Array(values_view(v@))) <= usize::MAX / 2,
    ;

    /// Write an object.
    fn write_object(&mut self, v: ObjectMap, layer: usize)
        requires
            layer + value_depth(SpecValue::Object(v@)) <= usize::MAX / 2,
    ;

    /// Write a raw string.
    fn write_raw_string(&mut self, v: String);

    /// Write a quoted string.
    fn write_quoted_string(&mut self, v: String);

    /// Write an unsigned number.
    fn write_unsigned_integer(&mut self, v: u32);

    /// Write a signed number.
    fn write_signed_integer(&mut self, v: i32);

    /// Write a float number, given as its text.
    fn write_float(&mut self, v: String);

    /// Write a boolean.
    fn write_bool(&mut self, v: bool);

    /// Write void.
    fn write_void(&mut self);
}

} // verus!

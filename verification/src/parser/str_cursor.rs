use vstd::prelude::*;
use vstd::string::StringSliceAdditionalSpecFns;
use vstd::utf8::{
    encode_utf8_valid_utf8, is_char_boundary, is_char_boundary_iff_not_is_continuation_byte,
    is_char_boundary_start_end_of_seq, is_continuation_byte, is_leading_byte_width_1,
    is_leading_byte_width_2, is_leading_byte_width_3, is_leading_byte_width_4,
    length_of_first_scalar, pop_first_scalar, valid_first_scalar, valid_utf8, valid_utf8_split,
};

verus! {

/// The width of the character whose UTF-8 encoding starts with `b`, read
/// from the bit pattern of that byte.
pub open spec fn lead_width(b: u8) -> int {
    if b <= 0x7f {
        1
    } else if 0xc0 <= b <= 0xdf {
        2
    } else if 0xe0 <= b <= 0xef {
        3
    } else if 0xf0 <= b <= 0xf7 {
        4
    } else {
        1
    }
}

/// The offsets of the characters of `bytes` from offset `c` on, each found
/// from the width of the one before, and then the length of `bytes`.
pub open spec fn offsets_from(bytes: Seq<u8>, c: int) -> Seq<usize>
    decreases bytes.len() + 4 - c,
{
    if c < 0 || c >= bytes.len() {
        seq![bytes.len() as usize]
    } else {
        proof {
            assert(lead_width(bytes[c]) >= 1);
        }
        seq![c as usize] + offsets_from(bytes, c + lead_width(bytes[c]))
    }
}

/// In valid UTF-8, a character starting at a boundary ends at the next
/// boundary, where its width says.
proof fn lemma_next_boundary(bytes: Seq<u8>, c: int)
    requires
        valid_utf8(bytes),
        0 <= c < bytes.len(),
        is_char_boundary(bytes, c),
    ensures
        c + lead_width(bytes[c]) <= bytes.len(),
        is_char_boundary(bytes, c + lead_width(bytes[c])),
{
    valid_utf8_split(bytes, c);
    let tail = bytes.subrange(c, bytes.len() as int);
    assert(tail[0] == bytes[c]);
    assert(valid_first_scalar(tail));
    let w = length_of_first_scalar(tail);
    assert(w == lead_width(bytes[c]));
    let rest = pop_first_scalar(tail);
    if c + w < bytes.len() {
        assert(rest.len() > 0);
        assert(valid_utf8(rest));
        assert(valid_first_scalar(rest));
        assert(rest[0] == bytes[c + w]);
        assert(!is_continuation_byte(bytes[c + w]));
        is_char_boundary_iff_not_is_continuation_byte(bytes, c + w);
    } else {
        is_char_boundary_start_end_of_seq(bytes);
    }
}

/// In valid UTF-8, the offsets found from a boundary are boundaries, rise
/// strictly, and end at the length.
proof fn lemma_offsets(bytes: Seq<u8>, c: int)
    requires
        valid_utf8(bytes),
        0 <= c <= bytes.len(),
        is_char_boundary(bytes, c),
        bytes.len() <= usize::MAX,
    ensures
        offsets_from(bytes, c).len() >= 1,
        offsets_from(bytes, c)[0] == c,
        offsets_from(bytes, c).last() == bytes.len(),
        forall|k: int|
            0 <= k < offsets_from(bytes, c).len() ==> c <= #[trigger] offsets_from(bytes, c)[k]
                <= bytes.len() && is_char_boundary(bytes, offsets_from(bytes, c)[k] as int),
        forall|k: int|
            0 <= k < offsets_from(bytes, c).len() - 1 ==> #[trigger] offsets_from(bytes, c)[k]
                < offsets_from(bytes, c)[k + 1],
    decreases bytes.len() - c,
{
    if c < bytes.len() {
        lemma_next_boundary(bytes, c);
        let n = c + lead_width(bytes[c]);
        lemma_offsets(bytes, n);
        let rest = offsets_from(bytes, n);
        let all = offsets_from(bytes, c);
        assert(all == seq![c as usize] + rest);
        assert forall|k: int| 0 <= k < all.len() implies c <= #[trigger] all[k] <= bytes.len()
            && is_char_boundary(bytes, all[k] as int) by {
            if k > 0 {
                assert(all[k] == rest[k - 1]);
            }
        }
        assert forall|k: int| 0 <= k < all.len() - 1 implies #[trigger] all[k] < all[k + 1] by {
            assert(all[k + 1] == rest[k]);
            if k > 0 {
                assert(all[k] == rest[k - 1]);
            }
        }
    } else {
        is_char_boundary_start_end_of_seq(bytes);
    }
}

/// The offsets a cursor finds in a text start at `0`, rise strictly to the
/// length of the text, and each falls on a character boundary.
pub proof fn law_offsets(text: &str)
    requires
        text.spec_bytes().len() <= usize::MAX,
    ensures
        ({
            let b = text.spec_bytes();
            let o = offsets_from(b, 0);
            &&& o.len() >= 1
            &&& o[0] == 0
            &&& o.last() == b.len()
            &&& forall|k: int| 0 <= k < o.len() ==> is_char_boundary(b, #[trigger] o[k] as int)
            &&& forall|k: int| 0 <= k < o.len() - 1 ==> #[trigger] o[k] < o[k + 1]
        }),
{
    let b = text.spec_bytes();
    encode_utf8_valid_utf8(text@);
    is_char_boundary_start_end_of_seq(b);
    lemma_offsets(b, 0);
}

/// The bytes between two consecutive offsets can be cut out of the text:
/// both ends are boundaries, the start one also within the text cut at the
/// end.
proof fn lemma_piece(bytes: Seq<u8>, k: int)
    requires
        valid_utf8(bytes),
        bytes.len() <= usize::MAX,
        0 <= k < offsets_from(bytes, 0).len() - 1,
    ensures
        ({
            let o = offsets_from(bytes, 0);
            &&& o[k] < o[k + 1] <= bytes.len()
            &&& is_char_boundary(bytes, o[k + 1] as int)
            &&& valid_utf8(bytes.subrange(0, o[k + 1] as int))
            &&& is_char_boundary(bytes.subrange(0, o[k + 1] as int), o[k] as int)
        }),
{
    is_char_boundary_start_end_of_seq(bytes);
    lemma_offsets(bytes, 0);
    let o = offsets_from(bytes, 0);
    let a = o[k] as int;
    let b = o[k + 1] as int;
    assert(o[k] < o[k + 1]);
    assert(is_char_boundary(bytes, b));
    assert(is_char_boundary(bytes, a));
    valid_utf8_split(bytes, b);
    let head = bytes.subrange(0, b);
    assert(head[a] == bytes[a]);
    is_char_boundary_iff_not_is_continuation_byte(bytes, a);
    is_char_boundary_iff_not_is_continuation_byte(head, a);
}

/// A cursor walking over the characters of a text, giving each one with its
/// byte offsets.
pub struct StrCursor<'cursor> {
    text: &'cursor str,
    pos: usize,
    offsets: Vec<usize>,
}

impl<'cursor> StrCursor<'cursor> {
    /// The bytes of the text.
    pub closed spec fn bytes(&self) -> Seq<u8> {
        self.text.spec_bytes()
    }

    /// The offsets of the characters, then the length of the text.
    pub closed spec fn offsets(&self) -> Seq<usize> {
        self.offsets@
    }

    /// How many characters have been walked over.
    pub closed spec fn index(&self) -> nat {
        self.pos as nat
    }

    pub closed spec fn wf(&self) -> bool {
        &&& self.offsets@ == offsets_from(self.bytes(), 0)
        &&& valid_utf8(self.bytes())
        &&& self.pos < self.offsets@.len()
        &&& self.bytes().len() <= usize::MAX
        &&& self.offsets@.len() <= usize::MAX
    }

    /// A well-formed cursor stands at one of its offsets.
    pub proof fn lemma_wf(&self)
        requires
            self.wf(),
        ensures
            self.index() < self.offsets().len(),
            self.offsets() == offsets_from(self.bytes(), 0),
    {
    }

    /// Create a cursor at the start of `raw`.
    pub fn new(raw: &'cursor str) -> (c: Self)
        ensures
            c.wf(),
            c.bytes() == raw.spec_bytes(),
            c.offsets() == offsets_from(raw.spec_bytes(), 0),
            c.index() == 0,
    {
        let bytes = raw.as_bytes();
        let ghost b = raw.spec_bytes();
        proof {
            encode_utf8_valid_utf8(raw@);
            is_char_boundary_start_end_of_seq(b);
        }
        let n = bytes.len();
        assert(b.len() == n);
        let mut offsets: Vec<usize> = Vec::with_capacity(raw.len() / 2);
        let mut cursor: usize = 0;
        while cursor < raw.len()
            invariant
                bytes@ == b,
                valid_utf8(b),
                raw.spec_bytes() == b,
                b.len() <= usize::MAX,
                cursor <= b.len(),
                is_char_boundary(b, cursor as int),
                offsets@ + offsets_from(b, cursor as int) == offsets_from(b, 0),
            decreases b.len() - cursor,
        {
            proof {
                lemma_next_boundary(b, cursor as int);
            }
            offsets.push(cursor);
            let w: usize = if bytes[cursor] <= 0x7f {
                1
            } else if 0xc0 <= bytes[cursor] && bytes[cursor] <= 0xdf {
                2
            } else if 0xe0 <= bytes[cursor] && bytes[cursor] <= 0xef {
                3
            } else if 0xf0 <= bytes[cursor] && bytes[cursor] <= 0xf7 {
                4
            } else {
                1
            };
            let ghost before = offsets_from(b, cursor as int);
            cursor += w;
            proof {
                assert(before == seq![(cursor - w) as usize] + offsets_from(b, cursor as int));
                assert(offsets@ + offsets_from(b, cursor as int) =~= offsets_from(b, 0));
            }
        }
        offsets.push(raw.len());
        let count = offsets.len();
        proof {
            assert(offsets_from(b, cursor as int) == seq![b.len() as usize]);
            assert(offsets@ =~= offsets_from(b, 0));
            lemma_offsets(b, 0);
        }
        Self { text: raw, pos: 0, offsets }
    }

    /// Move to the next character.
    ///
    /// # Returns
    /// The next character, or `None` at the end of the text.
    #[allow(dead_code)]
    pub fn advance(&mut self) -> (r: Option<&'cursor str>)
        requires
            old(self).wf(),
        ensures
            final(self).wf(),
            final(self).bytes() == old(self).bytes(),
            final(self).offsets() == old(self).offsets(),
            old(self).index() >= old(self).offsets().len() - 1 ==> r is None && final(self).index()
                == old(self).index(),
            old(self).index() < old(self).offsets().len() - 1 ==> final(self).index() == old(
                self,
            ).index() + 1,
            old(self).index() < old(self).offsets().len() - 1 ==> (r matches Some(s)
                && s.spec_bytes() == old(self).bytes().subrange(
                old(self).offsets()[old(self).index() as int] as int,
                old(self).offsets()[old(self).index() + 1int] as int,
            )),
    {
        match self.advance_with_offsets() {
            Some((s, _)) => Some(s),
            None => None,
        }
    }

    /// Move to the next character, with its byte offsets.
    ///
    /// # Returns
    /// The next character and the offsets of its first byte and of the byte
    /// after it, or `None` at the end of the text.
    pub fn advance_with_offsets(&mut self) -> (r: Option<(&'cursor str, (usize, usize))>)
        requires
            old(self).wf(),
        ensures
            final(self).wf(),
            final(self).bytes() == old(self).bytes(),
            final(self).offsets() == old(self).offsets(),
            old(self).index() >= old(self).offsets().len() - 1 ==> r is None && final(self).index()
                == old(self).index(),
            old(self).index() < old(self).offsets().len() - 1 ==> final(self).index() == old(
                self,
            ).index() + 1,
            old(self).index() < old(self).offsets().len() - 1 ==> (r matches Some((s, (a, b)))
                && a == old(self).offsets()[old(self).index() as int] && b == old(self).offsets()[old(
                self,
            ).index() + 1int] && s.spec_bytes() == old(self).bytes().subrange(a as int, b as int)),
    {
        if self.is_end() {
            return None;
        }
        let ghost bytes = self.bytes();
        proof {
            lemma_piece(bytes, self.pos as int);
        }
        let legacy_pos = self.offsets[self.pos];
        self.pos += 1;
        let next_pos = self.offsets[self.pos];
        let (head, _) = self.text.split_at(next_pos);
        let (_, piece) = head.split_at(legacy_pos);
        proof {
            assert(piece.spec_bytes() =~= bytes.subrange(legacy_pos as int, next_pos as int));
        }
        Some((piece, (legacy_pos, next_pos)))
    }

    /// Whether every character has been walked over.
    pub fn is_end(&self) -> (r: bool)
        requires
            self.wf(),
        ensures
            r == (self.index() >= self.offsets().len() - 1),
    {
        self.pos >= self.offsets.len() - 1
    }
}

} // verus!

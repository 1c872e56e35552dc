use vstd::prelude::*;
use vstd::string::StringSliceAdditionalSpecFns;

use crate::parser::{position::Position, str_cursor::StrCursor};

verus! {

/// The bytes of the `k`-th character, between its offset and the next one.
pub open spec fn piece(bytes: Seq<u8>, offsets: Seq<usize>, k: int) -> Seq<u8> {
    bytes.subrange(offsets[k] as int, offsets[k + 1] as int)
}

/// A space, a tab or a carriage return: characters skipped between tokens.
pub open spec fn is_blank(p: Seq<u8>) -> bool {
    p == seq![32u8] || p == seq![9u8] || p == seq![13u8]
}

/// The index of the first character from index `k` on that is not blank, or
/// the number of characters when there is none.
pub open spec fn next_solid(bytes: Seq<u8>, offsets: Seq<usize>, k: int) -> int
    decreases offsets.len() - k,
{
    if k < 0 || k >= offsets.len() - 1 {
        k
    } else if is_blank(piece(bytes, offsets, k)) {
        next_solid(bytes, offsets, k + 1)
    } else {
        k
    }
}

/// The text `s` is the one character whose code is `byte`.
fn is_byte_str(s: &str, byte: u8) -> (r: bool)
    ensures
        r == (s.spec_bytes() == seq![byte]),
{
    let b = s.as_bytes();
    if b.len() == 1 {
        let r = b[0] == byte;
        assert(r ==> b@ =~= seq![byte]);
        r
    } else {
        false
    }
}

/// A lexer walking over the characters of a text.
pub struct Lexer<'lex> {
    cursor: StrCursor<'lex>,
    pos: Position,
    offset: usize,
    checkpoint: Option<usize>,
}

impl<'lex> Lexer<'lex> {
    /// The bytes of the text.
    pub closed spec fn bytes(&self) -> Seq<u8> {
        self.cursor.bytes()
    }

    /// The offsets of the characters, then the length of the text.
    pub closed spec fn offsets(&self) -> Seq<usize> {
        self.cursor.offsets()
    }

    /// How many characters have been walked over.
    pub closed spec fn index(&self) -> nat {
        self.cursor.index()
    }

    pub closed spec fn wf(&self) -> bool {
        self.cursor.wf()
    }

    /// Create a lexer at the start of `raw`.
    pub fn new<'raw>(raw: &'raw str) -> (l: Self) where 'raw: 'lex
        ensures
            l.wf(),
            l.bytes() == raw.spec_bytes(),
            l.index() == 0,
    {
        Self { cursor: StrCursor::new(raw), pos: Position(1, 1), offset: 0, checkpoint: None }
    }

    /// Move to the next character.
    ///
    /// # Returns
    /// The next character with the offsets of its first byte and of the byte
    /// after it, or `None` at the end of the text.
    #[inline]
    pub fn advance(&mut self) -> (r: Option<(&'lex str, (usize, usize))>)
        requires
            old(self).wf(),
        ensures
            final(self).wf(),
            final(self).bytes() == old(self).bytes(),
            final(self).offsets() == old(self).offsets(),
            old(self).index() >= old(self).offsets().len() - 1 ==> r is None && final(self).index()
                == old(self).index(),
            old(self).index() < old(self).offsets().len() - 1 ==> final(self).index() == old(
                self,
            ).index() + 1,
            old(self).index() < old(self).offsets().len() - 1 ==> (r matches Some((s, (a, b)))
                && a == old(self).offsets()[old(self).index() as int] && b == old(self).offsets()[old(
                self,
            ).index() + 1int] && s.spec_bytes() == piece(
                old(self).bytes(),
                old(self).offsets(),
                old(self).index() as int,
            )),
    {
        self.cursor.advance_with_offsets()
    }

    /// Move past spaces, tabs and carriage returns to the next other
    /// character.
    ///
    /// # Returns
    /// That character with its offsets, or `None` when the text ends first.
    pub fn skipping_advance(&mut self) -> (r: Option<(&'lex str, (usize, usize))>)
        requires
            old(self).wf(),
        ensures
            final(self).wf(),
            final(self).bytes() == old(self).bytes(),
            final(self).offsets() == old(self).offsets(),
            ({
                let j = next_solid(old(self).bytes(), old(self).offsets(), old(self).index() as int);
                if j >= old(self).offsets().len() - 1 {
                    r is None && final(self).index() == j
                } else {
                    &&& final(self).index() == j + 1
                    &&& r matches Some((s, (a, b)))
                    &&& a == old(self).offsets()[j]
                    &&& b == old(self).offsets()[j + 1]
                    &&& s.spec_bytes() == piece(old(self).bytes(), old(self).offsets(), j)
                }
            }),
    {
        let ghost bytes = self.bytes();
        let ghost offsets = self.offsets();
        let ghost target = next_solid(bytes, offsets, self.index() as int);
        proof {
            self.cursor.lemma_wf();
        }
        let mut res: Option<(&'lex str, (usize, usize))> = None;
        loop
            invariant_except_break
                self.wf(),
                self.bytes() == bytes,
                self.offsets() == offsets,
                old(self).index() <= self.index(),
                self.index() <= offsets.len() - 1,
                next_solid(bytes, offsets, self.index() as int) == target,
            ensures
                self.wf(),
                self.bytes() == bytes,
                self.offsets() == offsets,
                if target >= offsets.len() - 1 {
                    res is None && self.index() == target
                } else {
                    &&& self.index() == target + 1
                    &&& res matches Some((s, (a, b)))
                    &&& a == offsets[target]
                    &&& b == offsets[target + 1]
                    &&& s.spec_bytes() == piece(bytes, offsets, target)
                },
            decreases offsets.len() - self.index(),
        {
            let ghost k = self.index() as int;
            proof {
                self.cursor.lemma_wf();
            }
            match self.cursor.advance_with_offsets() {
                Some((s, offsets_of)) => {
                    if is_byte_str(s, 32) || is_byte_str(s, 9) || is_byte_str(s, 13) {
                        continue;
                    } else {
                        res = Some((s, offsets_of));
                        break;
                    }
                },
                None => {
                    res = None;
                    break;
                },
            }
        }
        res
    }

    /// Whether `s` is a decimal digit.
    fn is_digital(&self, s: &'lex str) -> (r: bool)
        ensures
            r == (s.spec_bytes().len() == 1 && 48 <= s.spec_bytes()[0] <= 57),
    {
        let b = s.as_bytes();
        b.len() == 1 && 48 <= b[0] && b[0] <= 57
    }
}

} // verus!

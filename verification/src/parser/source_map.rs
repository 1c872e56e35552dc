use vstd::prelude::*;

verus! {

/// The characters of a source text and a cursor into them.
///
/// Offsets count characters: offset `i` stands before the `i`-th character of
/// the text, so a text of `n` characters has offsets `0` to `n`.
#[derive(Debug)]
pub struct SourceMap {
    pub(crate) code: Vec<char>,
    pub(crate) offset: usize,
}

impl SourceMap {
    /// The characters of the source text.
    pub closed spec fn chars(&self) -> Seq<char> {
        self.code@
    }

    /// The cursor: how many characters have been consumed.
    pub closed spec fn cursor(&self) -> nat {
        self.offset as nat
    }

    /// The cursor stands within the text, and the text leaves room for one
    /// more offset.
    pub open spec fn wf(&self) -> bool {
        &&& self.cursor() <= self.chars().len()
        &&& self.chars().len() < usize::MAX
    }

    pub fn new(code: &str) -> (m: Self)
        requires
            code@.len() < usize::MAX,
        ensures
            m.wf(),
            m.chars() == code@,
            m.cursor() == 0,
    {
        let mut chars: Vec<char> = Vec::new();
        for c in it: code.chars()
            invariant
                chars@ == it.seq().take(it.index() as int),
        {
            chars.push(c);
        }
        SourceMap { code: chars, offset: 0 }
    }

    /// Take the character under the cursor and move past it.
    ///
    /// # Returns
    /// The character and its offset, or `None` at the end of the text.
    pub fn advance(&mut self) -> (r: Option<(char, usize)>)
        requires
            old(self).wf(),
        ensures
            final(self).wf(),
            final(self).chars() == old(self).chars(),
            r == step_char(old(self).chars(), old(self).cursor()),
            final(self).cursor() == step_cursor(old(self).chars(), old(self).cursor()),
    {
        if self.is_end() {
            return None;
        }
        let c = self.code[self.offset];
        self.offset += 1;
        Some((c, self.offset - 1))
    }

    /// The characters from offset `start` up to offset `end`.
    pub fn get_by_offset(&self, start: usize, end: usize) -> (s: String)
        requires
            self.wf(),
            start <= end,
            end <= self.chars().len(),
        ensures
            s@ == self.chars().subrange(start as int, end as int),
    {
        let mut part: Vec<char> = Vec::new();
        let mut i: usize = start;
        while i < end
            invariant
                self.wf(),
                start <= i <= end,
                end <= self.chars().len(),
                part@ == self.chars().subrange(start as int, i as int),
            decreases end - i,
        {
            part.push(self.code[i]);
            i += 1;
            assert(part@ =~= self.chars().subrange(start as int, i as int));
        }
        crate::text::string_from_chars(part.as_slice())
    }

    /// The character under the cursor, if any, without moving.
    pub fn peek(&self) -> (r: Option<char>)
        requires
            self.wf(),
        ensures
            r == peek_char(self.chars(), self.cursor()),
    {
        if self.is_end() {
            return None;
        }
        Some(self.code[self.offset])
    }

    /// Move past the character under the cursor, if any.
    pub fn consume(&mut self)
        requires
            old(self).wf(),
        ensures
            final(self).wf(),
            final(self).chars() == old(self).chars(),
            final(self).cursor() == step_cursor(old(self).chars(), old(self).cursor()),
    {
        if !self.is_end() {
            self.offset += 1;
        }
    }

    /// The cursor.
    pub fn get_offset(&self) -> (r: usize)
        ensures
            r == self.cursor(),
    {
        self.offset
    }

    /// Put the cursor before the character at `dest`; an offset that is not
    /// the one of a character is ignored.
    pub fn move_to(&mut self, dest: usize)
        requires
            old(self).wf(),
        ensures
            final(self).wf(),
            final(self).chars() == old(self).chars(),
            final(self).cursor() == (if dest < old(self).chars().len() {
                dest as nat
            } else {
                old(self).cursor()
            }),
    {
        if dest < self.code.len() {
            self.offset = dest;
        }
    }

    /// Step the cursor back by one character, unless it is at the start.
    pub fn back(&mut self)
        requires
            old(self).wf(),
        ensures
            final(self).wf(),
            final(self).chars() == old(self).chars(),
            final(self).cursor() == back_cursor(old(self).cursor()),
    {
        if self.offset != 0 {
            self.offset -= 1;
        }
    }

    /// Whether every character has been consumed.
    pub fn is_end(&self) -> (r: bool)
        requires
            self.wf(),
        ensures
            r == (self.cursor() >= self.chars().len()),
    {
        self.offset >= self.code.len()
    }
}

/// What `advance` hands out at cursor `at`.
pub open spec fn step_char(chars: Seq<char>, at: nat) -> Option<(char, usize)> {
    if at < chars.len() {
        Some((chars[at as int], at as usize))
    } else {
        None
    }
}

/// Where the cursor stands after `advance` or `consume` from `at`.
pub open spec fn step_cursor(chars: Seq<char>, at: nat) -> nat {
    if at < chars.len() {
        at + 1
    } else {
        at
    }
}

/// What `peek` sees at cursor `at`.
pub open spec fn peek_char(chars: Seq<char>, at: nat) -> Option<char> {
    if at < chars.len() {
        Some(chars[at as int])
    } else {
        None
    }
}

/// Where the cursor stands after `back` from `at`.
pub open spec fn back_cursor(at: nat) -> nat {
    if at > 0 {
        (at - 1) as nat
    } else {
        0
    }
}

/// Stepping back right after a successful `advance` returns the cursor to
/// where it was, and `peek` saw the character that `advance` handed out.
pub proof fn law_advance_back(chars: Seq<char>, at: nat)
    requires
        at < chars.len(),
    ensures
        back_cursor(step_cursor(chars, at)) == at,
        step_char(chars, at) == Some((peek_char(chars, at).unwrap(), at as usize)),
{
}

} // verus!

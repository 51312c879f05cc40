//! A cursor over the characters of a query that keeps track of line and column.

use crate::text::chars_of;
use vstd::prelude::*;

verus! {

/// `n + 1`, held at the largest value the counter can take.
pub open spec fn bump(n: usize) -> usize {
    if n < usize::MAX {
        (n + 1) as usize
    } else {
        n
    }
}

/// The line (from 1) of the character at index `i`: one more than the number
/// of line feeds before it.
pub open spec fn line_at(s: Seq<char>, i: int) -> usize
    decreases i,
{
    if i <= 0 {
        1
    } else if s[i - 1] == '\n' {
        bump(line_at(s, i - 1))
    } else {
        line_at(s, i - 1)
    }
}

/// The column (from 1) of the character at index `i`: one more than the
/// number of characters since the last line feed before it.
pub open spec fn col_at(s: Seq<char>, i: int) -> usize
    decreases i,
{
    if i <= 0 {
        1
    } else if s[i - 1] == '\n' {
        1
    } else {
        bump(col_at(s, i - 1))
    }
}

/// A cursor over the characters of a text that knows its line and column.
#[derive(Debug)]
pub struct StringReader {
    chars: Vec<char>,
    idx: usize,
    line: usize,
    pos: usize,
}

impl StringReader {
    /// The text being read.
    pub closed spec fn source(&self) -> Seq<char> {
        self.chars@
    }

    /// How many characters have been consumed.
    pub closed spec fn offset(&self) -> int {
        self.idx as int
    }

    pub closed spec fn wf(&self) -> bool {
        &&& self.idx <= self.chars@.len()
        &&& self.line == line_at(self.chars@, self.idx as int)
        &&& self.pos == col_at(self.chars@, self.idx as int)
    }

    /// The cursor stands within the text, or right behind it.
    pub proof fn lemma_offset_in_bounds(&self)
        requires
            self.wf(),
        ensures
            0 <= self.offset() <= self.source().len(),
    {
    }

    pub fn new(src: &str) -> (r: Self)
        ensures
            r.wf(),
            r.source() == src@,
            r.offset() == 0,
    {
        StringReader { chars: chars_of(src), idx: 0, line: 1, pos: 1 }
    }

    /// The character under the cursor, if any is left.
    pub fn peek(&self) -> (c: Option<char>)
        requires
            self.wf(),
        ensures
            c == if self.offset() < self.source().len() {
                Some(self.source()[self.offset()])
            } else {
                None
            },
    {
        if self.idx < self.chars.len() {
            Some(self.chars[self.idx])
        } else {
            None
        }
    }

    /// The character after the one under the cursor, if there is one.
    pub fn peek_next(&self) -> (c: Option<char>)
        requires
            self.wf(),
        ensures
            c == if self.offset() + 1 < self.source().len() {
                Some(self.source()[self.offset() + 1])
            } else {
                None
            },
    {
        if self.idx < self.chars.len() && self.idx + 1 < self.chars.len() {
            Some(self.chars[self.idx + 1])
        } else {
            None
        }
    }

    /// Steps over one character; at the end of the text nothing changes.
    pub fn advance(&mut self)
        requires
            old(self).wf(),
        ensures
            final(self).wf(),
            final(self).source() == old(self).source(),
            final(self).offset() == if old(self).offset() < old(self).source().len() {
                old(self).offset() + 1
            } else {
                old(self).offset()
            },
    {
        if self.idx < self.chars.len() {
            let sym = self.chars[self.idx];
            if sym == '\n' {
                if self.line < usize::MAX {
                    self.line += 1;
                }
                self.pos = 1;
            } else {
                if self.pos < usize::MAX {
                    self.pos += 1;
                }
            }
            self.idx += 1;
        }
    }

    /// Line and column of the cursor, both counted from 1.
    pub fn position(&self) -> (p: (usize, usize))
        requires
            self.wf(),
        ensures
            p.0 == line_at(self.source(), self.offset()),
            p.1 == col_at(self.source(), self.offset()),
    {
        (self.line, self.pos)
    }
}

} // verus!

use vstd::prelude::*;
use crate::token::TokenType;

verus! {

/// A cursor over the characters of a document: the only way by which the
/// matchers read their input. It never moves backwards and never passes the
/// end of the document.
pub struct CharsWithPosition<'a> {
    pub chars: &'a Vec<char>,
    pub pos: usize,
}

/// An open list level: the kind of token that closes it, and its depth.
#[derive(Debug, Clone, Copy)]
pub struct List(pub TokenType, pub usize);

impl<'a> CharsWithPosition<'a> {
    /// The document that the cursor reads.
    pub open spec fn text(&self) -> Seq<char> {
        self.chars@
    }

    /// The index of the next character to be read.
    pub open spec fn position(&self) -> int {
        self.pos as int
    }

    /// The cursor stands within the document or at its end.
    pub open spec fn wf(&self) -> bool {
        self.pos <= self.chars@.len()
    }

    /// The cursor has just read the character `c.1` at index `c.0` of `text`.
    pub open spec fn just_read(&self, text: Seq<char>, c: (usize, char)) -> bool {
        &&& self.text() == text
        &&& c.0 < text.len()
        &&& text[c.0 as int] == c.1
        &&& self.position() == c.0 + 1
    }

    /// A cursor at the first character of `chars`.
    pub fn new(chars: &'a Vec<char>) -> (iter: Self)
        ensures
            iter.wf(),
            iter.text() == chars@,
            iter.position() == 0,
    {
        CharsWithPosition { chars, pos: 0 }
    }

    /// The next character with its index, without reading it.
    pub fn peek(&self) -> (r: Option<(usize, char)>)
        requires
            self.wf(),
        ensures
            self.position() < self.text().len() ==> r == Some(
                (self.pos, self.text()[self.position()]),
            ),
            self.position() >= self.text().len() ==> r.is_none(),
    {
        if self.pos < self.chars.len() {
            Some((self.pos, self.chars[self.pos]))
        } else {
            None
        }
    }

    /// Reads the next character and returns it with its index; `None` at the
    /// end of the document, where the cursor stays.
    pub fn next(&mut self) -> (r: Option<(usize, char)>)
        requires
            old(self).wf(),
        ensures
            final(self).wf(),
            final(self).text() == old(self).text(),
            old(self).position() < old(self).text().len() ==> r == Some(
                (old(self).pos, old(self).text()[old(self).position()]),
            ) && final(self).position() == old(self).position() + 1,
            old(self).position() >= old(self).text().len() ==> r.is_none()
                && final(self).position() == old(self).position(),
    {
        if self.pos < self.chars.len() {
            let c: char = self.chars[self.pos];
            let at: usize = self.pos;
            self.pos = self.pos + 1;
            Some((at, c))
        } else {
            None
        }
    }

    /// Reads `n` characters, or as many as are left, and discards them.
    pub fn skip(&mut self, n: usize)
        requires
            old(self).wf(),
        ensures
            final(self).wf(),
            final(self).text() == old(self).text(),
            final(self).position() == if old(self).position() + n <= old(self).text().len() {
                old(self).position() + n
            } else {
                old(self).text().len() as int
            },
    {
        if n <= self.chars.len() - self.pos {
            self.pos = self.pos + n;
        } else {
            self.pos = self.chars.len();
        }
    }

    /// The index of the next character to be read.
    pub fn index(&self) -> (i: usize)
        ensures
            i == self.position(),
    {
        self.pos
    }

    /// The index of the character read last; 0 where none was read yet.
    pub fn last(&self) -> (i: usize)
        ensures
            i == if self.position() == 0 {
                0
            } else {
                self.position() - 1
            },
    {
        if self.pos == 0 {
            0
        } else {
            self.pos - 1
        }
    }
}

} // verus!

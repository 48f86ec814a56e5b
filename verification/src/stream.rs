//! A read-only cursor over the characters of a document.

use vstd::prelude::*;
use crate::text::chars_of;

verus! {

/// A cursor over a document: the characters, and how many of them have been consumed.
pub struct Stream {
    chars: Vec<char>,
    pos: usize,
}

impl Stream {
    #[verifier::type_invariant]
    spec fn in_bounds(&self) -> bool {
        self.pos <= self.chars.len()
    }

    /// The characters of the whole document.
    pub closed spec fn text(&self) -> Seq<char> {
        self.chars@
    }

    /// The number of characters consumed so far. It is written so that it lies inside the
    /// document by its form, for every value of the type that a specification may speak of.
    pub closed spec fn offset(&self) -> nat {
        if self.pos <= self.chars.len() {
            self.pos as nat
        } else {
            self.chars@.len()
        }
    }

    /// The cursor never lies beyond the end of its document.
    pub proof fn lemma_offset_in_text(&self)
        ensures
            self.offset() <= self.text().len(),
    {
    }

    /// A cursor at the start of the document `text`.
    pub fn new(text: String) -> (stream: Stream)
        ensures
            stream.text() == text@,
            stream.offset() == 0,
    {
        Stream { chars: chars_of(text.as_str()), pos: 0 }
    }

    /// A cursor at the start of `chars`.
    pub fn from_chars(chars: Vec<char>) -> (stream: Stream)
        ensures
            stream.text() == chars@,
            stream.offset() == 0,
    {
        Stream { chars, pos: 0 }
    }

    /// Whether every character has been consumed.
    pub fn at_end(&self) -> (done: bool)
        ensures
            done == (self.offset() == self.text().len()),
    {
        proof {
            use_type_invariant(self);
        }
        self.pos == self.chars.len()
    }

    /// The next character, which stays unconsumed; `None` at the end.
    pub fn peek(&self) -> (next: Option<char>)
        ensures
            next == if self.offset() < self.text().len() {
                Some(self.text()[self.offset() as int])
            } else {
                None
            },
    {
        if self.pos < self.chars.len() {
            Some(self.chars[self.pos])
        } else {
            None
        }
    }

    /// Consumes the next character and returns it; `None` at the end, where nothing changes.
    pub fn advance(&mut self) -> (next: Option<char>)
        ensures
            final(self).text() == old(self).text(),
            next == if old(self).offset() < old(self).text().len() {
                Some(old(self).text()[old(self).offset() as int])
            } else {
                None
            },
            final(self).offset() == if next is Some {
                old(self).offset() + 1
            } else {
                old(self).offset()
            },
    {
        if self.pos < self.chars.len() {
            let c = self.chars[self.pos];
            self.pos = self.pos + 1;
            Some(c)
        } else {
            None
        }
    }

    /// Consumes the next character if it is `c`, and says whether it did.
    pub fn match_char(&mut self, c: char) -> (matched: bool)
        ensures
            final(self).text() == old(self).text(),
            matched == (old(self).offset() < old(self).text().len()
                && old(self).text()[old(self).offset() as int] == c),
            final(self).offset() == if matched {
                old(self).offset() + 1
            } else {
                old(self).offset()
            },
    {
        if self.pos < self.chars.len() && self.chars[self.pos] == c {
            self.pos = self.pos + 1;
            true
        } else {
            false
        }
    }

    /// The number of characters consumed so far, which never exceeds the document's length.
    pub fn pos(&self) -> (pos: usize)
        ensures
            pos == self.offset(),
            pos <= self.text().len(),
    {
        proof {
            use_type_invariant(self);
        }
        self.pos
    }

    /// The characters from `start` up to, and without, `end`.
    pub fn slice(&self, start: usize, end: usize) -> (chars: Vec<char>)
        requires
            start <= end <= self.text().len(),
        ensures
            chars@ == self.text().subrange(start as int, end as int),
    {
        let mut chars: Vec<char> = Vec::new();
        let mut i: usize = start;
        while i < end
            invariant
                start <= i <= end <= self.chars.len(),
                chars@ == self.chars@.subrange(start as int, i as int),
            decreases end - i,
        {
            chars.push(self.chars[i]);
            i = i + 1;
        }
        chars
    }
}

} // verus!

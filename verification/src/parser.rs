//! The reader: the source text, how far it has been read, and the line and
//! column reached.

use std::rc::Rc;
use vstd::prelude::*;
use crate::position::{Position, Source, line_at, column_at, lemma_position_bounded};
use crate::text::{is_whitespace, string_of, to_chars, whitespace};

verus! {

/// The offset of the first character at or after `at` that is not white
/// space, or the length of `text` where there is none.
pub open spec fn whitespace_end(text: Seq<char>, at: nat) -> nat
    decreases text.len() - at,
{
    if at < text.len() && is_whitespace(text[at as int]) {
        whitespace_end(text, at + 1)
    } else {
        at
    }
}

/// The offset of the first character at or after `at` that is `c`, or the
/// length of `text` where there is none.
pub open spec fn find_char(text: Seq<char>, at: nat, c: char) -> nat
    decreases text.len() - at,
{
    if at < text.len() && text[at as int] != c {
        find_char(text, at + 1, c)
    } else {
        at
    }
}

/// Whether `literal` stands in `text` at `at`.
pub open spec fn at_literal(text: Seq<char>, at: nat, literal: Seq<char>) -> bool {
    &&& at + literal.len() <= text.len()
    &&& text.subrange(at as int, (at + literal.len()) as int) == literal
}

/// `Rc::clone` gives another pointer to the same value.
#[verifier::external_body]
fn share(chars: &Rc<Vec<char>>) -> (shared: Rc<Vec<char>>)
    ensures
        shared == chars,
{
    Rc::clone(chars)
}

/// A reader over one source text. A copy of it is cheap: it shares the text
/// and holds the offset, the line and the column of its own.
pub struct Parser<'a> {
    chars: Rc<Vec<char>>,
    offset: usize,
    position: Position<'a>,
}

impl<'a> Clone for Parser<'a> {
    /// A reader at the same place in the same text. Reading with the one
    /// leaves the other where it is.
    fn clone(&self) -> (copy: Self)
        ensures
            copy.source() == self.source(),
            copy.offset() == self.offset(),
            copy.wf() == self.wf(),
    {
        Parser { chars: share(&self.chars), offset: self.offset, position: self.position }
    }
}

impl<'a> Parser<'a> {
    /// The text that is read and the file it came from.
    pub closed spec fn source(&self) -> Source {
        Source { path: self.position.path@, text: self.position.src@ }
    }

    /// The number of characters read so far.
    pub closed spec fn offset(&self) -> nat {
        self.offset as nat
    }

    /// The reader's invariant: it has read no further than the text goes,
    /// and its line and column are those of its offset.
    pub closed spec fn wf(&self) -> bool {
        &&& self.chars@ == self.position.src@
        &&& self.offset <= self.chars.len()
        &&& self.position.line == line_at(self.chars@, self.offset as nat)
        &&& self.position.char == column_at(self.chars@, self.offset as nat)
    }

    /// The text that is not read yet.
    pub open spec fn tail(&self) -> Seq<char> {
        self.source().tail(self.offset())
    }

    /// A reader has read no further than its text goes, and the text's length
    /// is one that the machine can count.
    pub proof fn lemma_offset_bounded(&self)
        requires
            self.wf(),
        ensures
            self.offset() <= self.source().text.len() <= usize::MAX,
    {
    }

    /// A reader at the start of `src`, which came from the file `path`.
    pub fn new(path: &'a str, src: &'a str) -> (parser: Self)
        ensures
            parser.wf(),
            parser.offset() == 0,
            parser.source() == (Source { path: path@, text: src@ }),
    {
        Self { chars: Rc::new(to_chars(src)), offset: 0, position: Position { src, path, line: 0, char: 0 } }
    }

    /// The position reached.
    pub fn position(&self) -> (position: Position<'a>)
        requires
            self.wf(),
        ensures
            position@ == self.source().position(self.offset()),
    {
        self.position
    }

    /// Whether everything is read.
    pub fn is_empty(&self) -> (empty: bool)
        requires
            self.wf(),
        ensures
            empty == (self.offset() == self.source().text.len()),
    {
        self.offset == self.chars.len()
    }

    /// The next character, which stays unread.
    pub fn peek(&self) -> (next: Option<char>)
        requires
            self.wf(),
        ensures
            next == if self.offset() < self.source().text.len() {
                Some(self.source().text[self.offset() as int])
            } else {
                None
            },
    {
        if self.offset < self.chars.len() {
            Some(self.chars[self.offset])
        } else {
            None
        }
    }

    /// The character `ahead` places after the next one, which stays unread.
    pub fn peek_at(&self, ahead: usize) -> (next: Option<char>)
        requires
            self.wf(),
        ensures
            next == if self.offset() + ahead < self.source().text.len() {
                Some(self.source().text[self.offset() + ahead])
            } else {
                None
            },
    {
        if ahead < self.chars.len() - self.offset {
            Some(self.chars[self.offset + ahead])
        } else {
            None
        }
    }

    /// Whether the unread text starts with `literal`.
    pub fn starts_with(&self, literal: &str) -> (found: bool)
        requires
            self.wf(),
        ensures
            found == at_literal(self.source().text, self.offset(), literal@),
    {
        let wanted = to_chars(literal);
        if wanted.len() > self.chars.len() - self.offset {
            return false;
        }
        let mut i: usize = 0;
        while i < wanted.len()
            invariant
                self.wf(),
                wanted@ == literal@,
                i <= wanted.len(),
                self.offset + wanted.len() <= self.chars.len(),
                self.chars@.subrange(self.offset as int, self.offset + i) == wanted@.take(i as int),
            decreases wanted.len() - i,
        {
            if self.chars[self.offset + i] != wanted[i] {
                proof {
                    let found = self.chars@.subrange(
                        self.offset as int,
                        (self.offset as nat + wanted@.len()) as int,
                    );
                    assert(found[i as int] != wanted@[i as int]);
                }
                return false;
            }
            assert(self.chars@.subrange(self.offset as int, self.offset + i + 1)
                == self.chars@.subrange(self.offset as int, self.offset + i).push(
                self.chars@[self.offset + i],
            ));
            assert(wanted@.take(i + 1) == wanted@.take(i as int).push(wanted@[i as int]));
            i += 1;
        }
        assert(wanted@.take(wanted.len() as int) == wanted@);
        true
    }

    /// Reads one character, if there is one left. A line break starts a new
    /// line at column zero; any other character moves one column on.
    pub fn take_char(&mut self) -> (taken: Option<char>)
        requires
            old(self).wf(),
        ensures
            final(self).wf(),
            final(self).source() == old(self).source(),
            old(self).offset() < old(self).source().text.len() ==> {
                &&& taken == Some(old(self).source().text[old(self).offset() as int])
                &&& final(self).offset() == old(self).offset() + 1
            },
            old(self).offset() >= old(self).source().text.len() ==> {
                &&& taken is None
                &&& final(self).offset() == old(self).offset()
            },
    {
        if self.offset >= self.chars.len() {
            return None;
        }
        let c = self.chars[self.offset];
        proof {
            lemma_position_bounded(self.chars@, self.offset as nat);
        }
        if c == '\n' {
            self.position.line += 1;
            self.position.char = 0;
        } else {
            self.position.char += 1;
        }
        self.offset += 1;
        Some(c)
    }

    /// Reads `n` characters and returns them.
    pub fn take(&mut self, n: usize) -> (taken: String)
        requires
            old(self).wf(),
            old(self).offset() + n <= old(self).source().text.len(),
        ensures
            final(self).wf(),
            final(self).source() == old(self).source(),
            final(self).offset() == old(self).offset() + n,
            taken@ == old(self).source().text.subrange(
                old(self).offset() as int,
                old(self).offset() + n,
            ),
    {
        let start = self.offset;
        self.skip(n);
        string_of(&self.chars, start, self.offset)
    }

    /// Reads `n` characters.
    pub fn skip(&mut self, n: usize)
        requires
            old(self).wf(),
            old(self).offset() + n <= old(self).source().text.len(),
        ensures
            final(self).wf(),
            final(self).source() == old(self).source(),
            final(self).offset() == old(self).offset() + n,
    {
        let mut i: usize = 0;
        while i < n
            invariant
                self.wf(),
                self.source() == old(self).source(),
                i <= n,
                self.offset == old(self).offset + i,
                old(self).offset + n <= self.chars.len(),
            decreases n - i,
        {
            let _ = self.take_char();
            i += 1;
        }
    }

    /// Reads the white space that the unread text starts with.
    pub fn take_whitespace(&mut self)
        requires
            old(self).wf(),
        ensures
            final(self).wf(),
            final(self).source() == old(self).source(),
            final(self).offset() == whitespace_end(old(self).source().text, old(self).offset()),
    {
        while self.offset < self.chars.len() && whitespace(self.chars[self.offset])
            invariant
                self.wf(),
                self.source() == old(self).source(),
                old(self).offset <= self.offset,
                whitespace_end(self.chars@, self.offset as nat) == whitespace_end(
                    self.chars@,
                    old(self).offset as nat,
                ),
            decreases self.chars.len() - self.offset,
        {
            let _ = self.take_char();
        }
    }

    /// Goes back to `offset`, where the reader stood at `position`.
    pub(crate) fn restore(&mut self, offset: usize, position: Position<'a>)
        requires
            old(self).wf(),
            offset <= old(self).source().text.len(),
            position@ == old(self).source().position(offset as nat),
        ensures
            final(self).wf(),
            final(self).source() == old(self).source(),
            final(self).offset() == offset,
    {
        self.offset = offset;
        self.position.line = position.line;
        self.position.char = position.char;
    }

    /// The number of characters read so far.
    pub fn consumed(&self) -> (n: usize)
        requires
            self.wf(),
        ensures
            n == self.offset(),
    {
        self.offset
    }
}

} // verus!

//! A character reader over the source text that tracks byte offsets for spans.
use vstd::prelude::*;

use super::token::{
    byte_len, char_width, chars_of, lemma_byte_len_prefix, lemma_byte_len_push,
    lemma_char_index_of_prefix, on_char, Span,
};

verus! {

/// The character at index `i` of `s`, or the end-of-input sentinel outside of it.
pub open spec fn char_at(s: Seq<char>, i: int) -> char {
    if 0 <= i < s.len() {
        s[i]
    } else {
        '\0'
    }
}

/// Reads the characters of a source text one at a time, and keeps the byte offset at
/// which the current span began.
#[derive(Debug)]
pub struct Cursor<'a> {
    input: &'a str,
    chars: Vec<char>,
    pos: usize,
    offset: usize,
    start: usize,
    start_pos: usize,
}

impl<'a> Cursor<'a> {
    /// Returned in place of a character once the input is exhausted.
    pub const EOF_CHAR: char = '\0';

    /// The whole source text.
    pub closed spec fn text(self) -> Seq<char> {
        self.input@
    }

    /// How many characters have been consumed.
    pub closed spec fn pos(self) -> int {
        self.pos as int
    }

    /// The byte offset at which the current span began.
    pub closed spec fn start(self) -> int {
        self.start as int
    }

    /// How many characters had been consumed when the current span began.
    pub closed spec fn start_pos(self) -> int {
        self.start_pos as int
    }

    /// The byte offset of the next character.
    pub open spec fn current(self) -> int {
        byte_len(self.text().take(self.pos()))
    }

    pub closed spec fn inv(self) -> bool {
        &&& self.chars@ == self.input@
        &&& self.offset == byte_len(self.chars@.take(self.pos as int))
        &&& byte_len(self.chars@) <= usize::MAX
    }

    pub open spec fn wf(self) -> bool {
        &&& self.inv()
        &&& 0 <= self.start_pos() <= self.pos() <= self.text().len()
        &&& self.start() == byte_len(self.text().take(self.start_pos()))
    }

    pub fn new(input: &'a str) -> (r: Cursor<'a>)
        ensures
            r.wf(),
            r.text() == input@,
            r.pos() == 0,
            r.start() == 0,
            r.start_pos() == 0,
    {
        let byte_count: usize = input.as_bytes().len();
        let chars = chars_of(input);
        assert(byte_len(chars@) == byte_count);
        assert(chars@.take(0) =~= Seq::<char>::empty());
        Cursor { input, chars, pos: 0, offset: 0, start: 0, start_pos: 0 }
    }

    /// Consumes and returns the next character, or returns the sentinel at the end.
    pub fn advance(&mut self) -> (r: char)
        requires
            old(self).wf(),
        ensures
            final(self).wf(),
            final(self).text() == old(self).text(),
            final(self).start() == old(self).start(),
            final(self).start_pos() == old(self).start_pos(),
            r == char_at(old(self).text(), old(self).pos()),
            final(self).pos() == if old(self).pos() < old(self).text().len() {
                old(self).pos() + 1
            } else {
                old(self).pos()
            },
    {
        if self.pos < self.chars.len() {
            let c = self.chars[self.pos];
            proof {
                lemma_byte_len_push(self.chars@, self.pos as int);
                lemma_byte_len_prefix(self.chars@, self.pos + 1);
            }
            self.offset = self.offset + char_width(c);
            self.pos = self.pos + 1;
            c
        } else {
            Self::EOF_CHAR
        }
    }

    /// The character `n` places ahead, without consuming anything.
    pub fn lookahead(&self, n: usize) -> (r: char)
        requires
            self.wf(),
        ensures
            r == char_at(self.text(), self.pos() + n),
    {
        if n < self.chars.len() - self.pos {
            self.chars[self.pos + n]
        } else {
            Self::EOF_CHAR
        }
    }

    /// The number of bytes not yet consumed.
    pub fn bytes_remaining(&self) -> (r: usize)
        requires
            self.wf(),
        ensures
            r == byte_len(self.text()) - self.current(),
    {
        proof {
            lemma_byte_len_prefix(self.chars@, self.pos as int);
        }
        self.input.as_bytes().len() - self.offset
    }

    pub fn is_at_end(&self) -> (r: bool)
        requires
            self.wf(),
        ensures
            r == (self.pos() >= self.text().len()),
    {
        self.pos >= self.chars.len()
    }

    pub fn start_index(&self) -> (r: usize)
        requires
            self.wf(),
        ensures
            r == self.start(),
    {
        self.start
    }

    /// The byte offset of the next character, which is where the current span ends.
    pub fn current_index(&self) -> (r: usize)
        requires
            self.wf(),
        ensures
            r == self.current(),
    {
        self.offset
    }

    /// Starts a new span at the current position and returns where the old one began.
    pub fn reset_start_index(&mut self) -> (r: usize)
        requires
            old(self).wf(),
        ensures
            final(self).wf(),
            final(self).text() == old(self).text(),
            final(self).pos() == old(self).pos(),
            final(self).start() == old(self).current(),
            final(self).start_pos() == old(self).pos(),
            r == old(self).start(),
    {
        let offset = self.start;
        self.start = self.offset;
        self.start_pos = self.pos;
        offset
    }

    /// The characters consumed since the last reset.
    pub fn span_chars(&self) -> (r: Vec<char>)
        requires
            self.wf(),
        ensures
            r@ == self.text().subrange(self.start_pos(), self.pos()),
    {
        let mut r: Vec<char> = Vec::new();
        let mut i: usize = self.start_pos;
        while i < self.pos
            invariant
                self.wf(),
                self.start_pos <= i <= self.pos,
                r@ == self.chars@.subrange(self.start_pos as int, i as int),
            decreases self.pos - i,
        {
            r.push(self.chars[i]);
            i += 1;
            assert(r@ =~= self.chars@.subrange(self.start_pos as int, i as int));
        }
        r
    }

    /// The span consumed since the last reset.
    pub fn span(&self) -> (r: Span<'a>)
        requires
            self.wf(),
        ensures
            r.spec_source() == self.text(),
            r.spec_start() == self.start(),
            r.spec_end() == self.current(),
            r.wf(),
    {
        proof {
            self.lemma_start_le_current();
        }
        Span::new(self.input, self.start, self.offset)
    }

    proof fn lemma_start_le_current(self)
        requires
            self.wf(),
        ensures
            self.start() <= self.current(),
            on_char(self.text(), self.start()),
            on_char(self.text(), self.current()),
    {
        lemma_char_index_of_prefix(self.text(), self.start_pos());
        lemma_char_index_of_prefix(self.text(), self.pos());
        let s = self.chars@;
        assert(s.take(self.pos as int).take(self.start_pos as int) =~= s.take(
            self.start_pos as int,
        ));
        lemma_byte_len_prefix(s.take(self.pos as int), self.start_pos as int);
    }

    /// The span consumed since the last reset; a new span starts here.
    pub fn reset_span(&mut self) -> (r: Span<'a>)
        requires
            old(self).wf(),
        ensures
            final(self).wf(),
            final(self).text() == old(self).text(),
            final(self).pos() == old(self).pos(),
            final(self).start() == old(self).current(),
            final(self).start_pos() == old(self).pos(),
            r.spec_source() == old(self).text(),
            r.spec_start() == old(self).start(),
            r.spec_end() == old(self).current(),
            r.wf(),
    {
        proof {
            self.lemma_start_le_current();
        }
        let start = self.reset_start_index();
        Span::new(self.input, start, self.offset)
    }
}

} // verus!

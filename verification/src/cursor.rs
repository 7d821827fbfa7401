//! The cursor over the input and the lexical probes. A probe takes a whole
//! token and moves the cursor behind it, or leaves the cursor where it was.

use crate::grammar::{
    at_terminator, byte_is, lemma_run_is_maximal, run_len, skip_ws, spec_string_body, starts_with,
    token, ByteClass, Parsed, BACKSLASH, CLOSE_BRACE, CLOSE_BRACKET, CLOSE_PAREN, COMMA, QUOTE,
};
use crate::text::{lemma_boundary_before_ascii, lemma_boundary_behind_ascii, substr};
use bumpalo::Bump;
use vstd::prelude::*;
use vstd::string::StringSliceAdditionalSpecFns;
use vstd::utf8::encode_utf8_valid_utf8;

verus! {

/// A violation of the grammar: what was expected, and the offset of the byte
/// at which it was missed.
#[derive(Debug, PartialEq, Eq)]
pub struct ParseError<E> {
    pub kind: E,
    pub offset: usize,
}

/// A forward-only cursor over an input text, with the arena that receives
/// what a parse builds.
pub struct Parser<'a> {
    input: &'a str,
    text: &'a [u8],
    offset: usize,
    bump: &'a Bump,
}

impl<'a> Parser<'a> {
    /// The bytes of the input.
    pub closed spec fn text(&self) -> Seq<u8> {
        self.text@
    }

    /// The offset of the next byte to read.
    pub closed spec fn pos(&self) -> int {
        self.offset as int
    }

    /// The arena.
    pub closed spec fn arena(&self) -> &'a Bump {
        self.bump
    }

    /// The bytes that the cursor walks are those of the input.
    pub closed spec fn sound(&self) -> bool {
        self.text@ == self.input.spec_bytes()
    }

    /// The cursor lies inside the text or at its end.
    pub open spec fn wf(&self) -> bool {
        self.sound() && 0 <= self.pos() <= self.text().len()
    }

    /// This cursor is `before` moved on: same text, same arena, an offset
    /// that is no smaller and still inside the text.
    pub open spec fn follows(self, before: Self) -> bool {
        &&& self.wf()
        &&& self.text() == before.text()
        &&& self.arena() == before.arena()
        &&& self.pos() >= before.pos()
    }

    /// This cursor is `before` moved to `pos`.
    pub open spec fn moved_to(self, before: Self, pos: int) -> bool {
        self.follows(before) && self.pos() == pos
    }

    /// A cursor at the start of `input`.
    pub fn new(input: &'a str, bump: &'a Bump) -> (p: Self)
        ensures
            p.wf(),
            p.pos() == 0,
            p.text() == input.spec_bytes(),
            p.arena() == bump,
    {
        Parser { input, text: input.as_bytes(), offset: 0, bump }
    }

    /// The arena that this parser builds in.
    pub fn bump(&self) -> (r: &'a Bump)
        ensures
            r == self.arena(),
    {
        self.bump
    }

    /// Takes the byte `next` if it stands at the cursor.
    pub fn check_u8(&mut self, next: u8) -> (hit: bool)
        requires
            old(self).wf(),
        ensures
            hit == byte_is(old(self).text(), old(self).pos(), next),
            final(self).moved_to(*old(self), old(self).pos() + if hit { 1int } else { 0int }),
    {
        if self.offset < self.text.len() && self.text[self.offset] == next {
            self.offset += 1;
            true
        } else {
            false
        }
    }

    /// Takes the byte `next`, or fails with `err` at the cursor.
    pub fn expect_u8<E>(&mut self, next: u8, err: E) -> (r: Result<(), ParseError<E>>)
        requires
            old(self).wf(),
        ensures
            r is Ok == byte_is(old(self).text(), old(self).pos(), next),
            final(self).moved_to(*old(self), old(self).pos() + if r is Ok { 1int } else { 0int }),
            r matches Err(e) ==> e.kind == err && e.offset == old(self).pos(),
    {
        if self.check_u8(next) {
            Ok(())
        } else {
            Err(ParseError { kind: err, offset: self.offset })
        }
    }

    /// Whether the byte `next` stands at the cursor.
    pub fn peek_u8(&self, next: u8) -> (hit: bool)
        requires
            self.wf(),
        ensures
            hit == byte_is(self.text(), self.pos(), next),
    {
        self.offset < self.text.len() && self.text[self.offset] == next
    }

    /// Takes the bytes `pat` if they stand at the cursor.
    pub fn check_bytes(&mut self, pat: &[u8]) -> (hit: bool)
        requires
            old(self).wf(),
        ensures
            hit == starts_with(old(self).text(), old(self).pos(), pat@),
            final(self).moved_to(
                *old(self),
                old(self).pos() + if hit { pat@.len() as int } else { 0int },
            ),
    {
        let n = pat.len();
        if n > self.text.len() - self.offset {
            return false;
        }
        let mut i: usize = 0;
        while i < n
            invariant
                self.sound(),
                n == pat@.len(),
                i <= n,
                self.offset + n <= self.text@.len() <= usize::MAX,
                forall|j: int| 0 <= j < i ==> self.text@[self.offset + j] == pat@[j],
            decreases n - i,
        {
            if self.text[self.offset + i] != pat[i] {
                assert(self.text@.subrange(self.offset as int, self.offset + n)[i as int]
                    != pat@[i as int]);
                return false;
            }
            i += 1;
        }
        assert(self.text@.subrange(self.offset as int, self.offset + n) =~= pat@);
        self.offset += n;
        true
    }

    /// Takes the bytes of `next` if they stand at the cursor.
    pub fn check_str(&mut self, next: &str) -> (hit: bool)
        requires
            old(self).wf(),
        ensures
            hit == starts_with(old(self).text(), old(self).pos(), next.spec_bytes()),
            final(self).moved_to(
                *old(self),
                old(self).pos() + if hit { next.spec_bytes().len() as int } else { 0int },
            ),
    {
        self.check_bytes(next.as_bytes())
    }

    /// Takes the bytes of `next`, or fails with `err` at the cursor.
    pub fn expect_str<E>(&mut self, next: &str, err: E) -> (r: Result<(), ParseError<E>>)
        requires
            old(self).wf(),
        ensures
            r is Ok == starts_with(old(self).text(), old(self).pos(), next.spec_bytes()),
            final(self).moved_to(
                *old(self),
                old(self).pos() + if r is Ok { next.spec_bytes().len() as int } else { 0int },
            ),
            r matches Err(e) ==> e.kind == err && e.offset == old(self).pos(),
    {
        if self.check_str(next) {
            Ok(())
        } else {
            Err(ParseError { kind: err, offset: self.offset })
        }
    }

    /// The offset behind the run of `class` that starts at the cursor.
    fn run_end(&self, class: ByteClass) -> (end: usize)
        requires
            self.wf(),
        ensures
            end == self.pos() + run_len(self.text(), self.pos(), class),
            end <= self.text().len(),
    {
        let mut end: usize = self.offset;
        while end < self.text.len() && class.contains(self.text[end])
            invariant
                self.offset <= end <= self.text@.len(),
                run_len(self.text@, self.offset as int, class) == (end - self.offset) + run_len(
                    self.text@,
                    end as int,
                    class,
                ),
            decreases self.text@.len() - end,
        {
            end += 1;
        }
        end
    }

    /// Takes the run of `class` at the cursor, if it is not empty.
    fn take_run(&mut self, class: ByteClass) -> (r: Option<&'a str>)
        requires
            old(self).wf(),
        ensures
            final(self).moved_to(
                *old(self),
                old(self).pos() + run_len(old(self).text(), old(self).pos(), class),
            ),
            match token(old(self).text(), old(self).pos(), class) {
                Some(t) => r matches Some(s) && s.spec_bytes() == t,
                None => r is None,
            },
    {
        let end = self.run_end(class);
        if end > self.offset {
            proof {
                lemma_run_is_maximal(self.text@, self.offset as int, class);
                assert(class.has(self.text@[self.offset as int]));
                assert(class.has(self.text@[end - 1]));
                encode_utf8_valid_utf8(self.input@);
                lemma_boundary_before_ascii(self.text@, self.offset as int);
                lemma_boundary_behind_ascii(self.text@, end - 1);
            }
            let run = substr(self.input, self.offset, end);
            self.offset = end;
            Some(run)
        } else {
            None
        }
    }

    /// Takes an identifier: the longest run of ASCII letters, digits and
    /// underscores at the cursor, if there is one.
    pub fn check_ident(&mut self) -> (r: Option<&'a str>)
        requires
            old(self).wf(),
        ensures
            final(self).moved_to(
                *old(self),
                old(self).pos() + run_len(old(self).text(), old(self).pos(), ByteClass::Ident),
            ),
            match token(old(self).text(), old(self).pos(), ByteClass::Ident) {
                Some(t) => r matches Some(s) && s.spec_bytes() == t,
                None => r is None,
            },
    {
        self.take_run(ByteClass::Ident)
    }

    /// Whether the input ends at the cursor, or the byte there is one of
    /// `,`, `)`, `]` and `}`.
    pub fn at_terminator(&self) -> (r: bool)
        requires
            self.wf(),
        ensures
            r == at_terminator(self.text(), self.pos()),
    {
        self.peek_u8(COMMA) || self.peek_u8(CLOSE_PAREN) || self.peek_u8(CLOSE_BRACKET)
            || self.peek_u8(CLOSE_BRACE) || self.is_eof()
    }

    /// Takes an identifier, or fails with `err` at the cursor.
    pub fn expect_ident<E>(&mut self, err: E) -> (r: Result<&'a str, ParseError<E>>)
        requires
            old(self).wf(),
        ensures
            final(self).moved_to(
                *old(self),
                old(self).pos() + run_len(old(self).text(), old(self).pos(), ByteClass::Ident),
            ),
            match token(old(self).text(), old(self).pos(), ByteClass::Ident) {
                Some(t) => r matches Ok(s) && s.spec_bytes() == t,
                None => r matches Err(e) && e.kind == err && e.offset == old(self).pos(),
            },
    {
        match self.check_ident() {
            Some(s) => Ok(s),
            None => Err(ParseError { kind: err, offset: self.offset }),
        }
    }

    /// Takes a path identifier: the longest run of identifier bytes and
    /// colons at the cursor, if there is one.
    pub fn check_path_ident(&mut self) -> (r: Option<&'a str>)
        requires
            old(self).wf(),
        ensures
            final(self).moved_to(
                *old(self),
                old(self).pos() + run_len(old(self).text(), old(self).pos(), ByteClass::Path),
            ),
            match token(old(self).text(), old(self).pos(), ByteClass::Path) {
                Some(t) => r matches Some(s) && s.spec_bytes() == t,
                None => r is None,
            },
    {
        self.take_run(ByteClass::Path)
    }

    /// Takes a path identifier, or fails with `err` at the cursor.
    pub fn expect_path_ident<E>(&mut self, err: E) -> (r: Result<&'a str, ParseError<E>>)
        requires
            old(self).wf(),
        ensures
            final(self).moved_to(
                *old(self),
                old(self).pos() + run_len(old(self).text(), old(self).pos(), ByteClass::Path),
            ),
            match token(old(self).text(), old(self).pos(), ByteClass::Path) {
                Some(t) => r matches Ok(s) && s.spec_bytes() == t,
                None => r matches Err(e) && e.kind == err && e.offset == old(self).pos(),
            },
    {
        match self.check_path_ident() {
            Some(s) => Ok(s),
            None => Err(ParseError { kind: err, offset: self.offset }),
        }
    }

    /// Takes an unsigned integer: the longest run of ASCII digits at the
    /// cursor, if there is one.
    pub fn check_int(&mut self) -> (r: Option<&'a str>)
        requires
            old(self).wf(),
        ensures
            final(self).moved_to(
                *old(self),
                old(self).pos() + run_len(old(self).text(), old(self).pos(), ByteClass::Digit),
            ),
            match token(old(self).text(), old(self).pos(), ByteClass::Digit) {
                Some(t) => r matches Some(s) && s.spec_bytes() == t,
                None => r is None,
            },
    {
        self.take_run(ByteClass::Digit)
    }

    /// Takes an unsigned integer, or fails with `err` at the cursor.
    pub fn expect_int<E>(&mut self, err: E) -> (r: Result<&'a str, ParseError<E>>)
        requires
            old(self).wf(),
        ensures
            final(self).moved_to(
                *old(self),
                old(self).pos() + run_len(old(self).text(), old(self).pos(), ByteClass::Digit),
            ),
            match token(old(self).text(), old(self).pos(), ByteClass::Digit) {
                Some(t) => r matches Ok(s) && s.spec_bytes() == t,
                None => r matches Err(e) && e.kind == err && e.offset == old(self).pos(),
            },
    {
        match self.check_int() {
            Some(s) => Ok(s),
            None => Err(ParseError { kind: err, offset: self.offset }),
        }
    }

    /// Moves the cursor behind the whitespace that stands at it.
    pub fn consume_ws(&mut self)
        requires
            old(self).wf(),
        ensures
            final(self).moved_to(*old(self), skip_ws(old(self).text(), old(self).pos())),
    {
        self.offset = self.run_end(ByteClass::Space);
    }

    /// The offset of the cursor.
    pub fn current_offset(&self) -> (r: usize)
        ensures
            r == self.pos(),
    {
        self.offset
    }

    /// Whether the input ends at the cursor.
    pub fn is_eof(&self) -> (r: bool)
        ensures
            r == (self.pos() >= self.text().len()),
    {
        self.offset >= self.text.len()
    }

    /// The text from `start` up to the cursor, where both lie beside ASCII
    /// bytes of that text.
    pub(crate) fn since(&self, start: usize) -> (r: &'a str)
        requires
            self.wf(),
            start < self.pos(),
            self.text()[start as int] < 128,
            self.text()[self.pos() - 1] < 128,
        ensures
            r.spec_bytes() == self.text().subrange(start as int, self.pos()),
    {
        proof {
            encode_utf8_valid_utf8(self.input@);
            lemma_boundary_before_ascii(self.text@, start as int);
            lemma_boundary_behind_ascii(self.text@, self.offset - 1);
        }
        substr(self.input, start, self.offset)
    }

    /// Reads the rest of a string literal whose opening quote lies just
    /// before the cursor, and hands out the text between the quotes as it
    /// stands. A backslash takes a quote or a backslash behind it along; before
    /// any other byte it stands alone.
    pub(crate) fn string_body(&mut self) -> (r: Result<&'a str, ParseError<&'static str>>)
        requires
            old(self).wf(),
            byte_is(old(self).text(), old(self).pos() - 1, QUOTE),
        ensures
            final(self).follows(*old(self)),
            match spec_string_body(old(self).text(), old(self).pos(), old(self).pos()) {
                Parsed::Done { value, next } => r matches Ok(s) && s.spec_bytes() == value
                    && final(self).pos() == next,
                Parsed::Failed { tag, at } => r matches Err(e) && e.kind@ == tag && e.offset == at
                    && final(self).pos() == at,
            },
    {
        let start = self.offset;
        while self.offset < self.text.len()
            invariant
                self.input == old(self).input,
                self.text == old(self).text,
                self.bump == old(self).bump,
                self.sound(),
                start == old(self).offset,
                byte_is(self.text@, start - 1, QUOTE),
                start <= self.offset <= self.text@.len(),
                spec_string_body(self.text@, start as int, self.offset as int) == spec_string_body(
                    self.text@,
                    start as int,
                    start as int,
                ),
            decreases self.text@.len() - self.offset,
        {
            let b: u8 = self.text[self.offset];
            if b == BACKSLASH {
                if self.offset + 1 < self.text.len() {
                    let c: u8 = self.text[self.offset + 1];
                    if c == QUOTE || c == BACKSLASH {
                        self.offset += 2;
                    } else {
                        self.offset += 1;
                    }
                } else {
                    return Err(
                        ParseError { kind: "Unterminated string escape", offset: self.offset },
                    );
                }
            } else if b == QUOTE {
                proof {
                    encode_utf8_valid_utf8(self.input@);
                    lemma_boundary_behind_ascii(self.text@, start - 1);
                    lemma_boundary_before_ascii(self.text@, self.offset as int);
                }
                let body = substr(self.input, start, self.offset);
                self.offset += 1;
                return Ok(body);
            } else {
                self.offset += 1;
            }
        }
        Err(ParseError { kind: "Unterminated string literal", offset: self.offset })
    }
}

} // verus!

//! The scanner: a cursor over an immutable buffer of Unicode scalars, with
//! lookahead, literal matching and consumption by predicate.
//!
//! The cursor counts scalars, never moves backwards and never passes the end
//! of the buffer.

use crate::error::ParseError;
use crate::parser::facts::lemma_scan_stops;
use crate::parser::grammar::{blank_line_at, mismatch, peek, scan_while, starts_with, Class};
use crate::text::{decode, digit, encode, is_digit_scalar, is_whitespace_scalar, whitespace};
use vstd::prelude::*;
use vstd::slice::slice_subrange;

verus! {

/// A scanner over `input`, positioned at `cursor`. Its only state is the
/// cursor; the buffer is borrowed and never changed. The productions of the
/// grammar are further methods of this type.
pub struct MdxParser<'a> {
    pub input: &'a [char],
    pub cursor: usize,
}

impl<'a> MdxParser<'a> {
    /// The cursor lies inside the buffer or at its end.
    pub open spec fn wf(&self) -> bool {
        self.cursor <= self.input@.len()
    }

    /// The scanner after an operation that read `old`: over the same buffer,
    /// with a cursor that did not move backwards and is still inside it.
    pub open spec fn follows(&self, old: &Self) -> bool {
        &&& self.input@ == old.input@
        &&& old.cursor <= self.cursor <= self.input@.len()
    }

    /// A scanner at the start of `input`.
    pub fn new(input: &'a [char]) -> (scanner: MdxParser<'a>)
        ensures
            scanner.input@ == input@,
            scanner.cursor == 0,
            scanner.wf(),
    {
        MdxParser { input, cursor: 0 }
    }

    /// The scalar at the cursor.
    pub fn peek_one(&self) -> (c: char)
        requires
            self.cursor < self.input@.len(),
        ensures
            c == self.input@[self.cursor as int],
    {
        self.input[self.cursor]
    }

    /// Up to `count` scalars from the cursor on, without moving.
    pub fn peek_many(&self, count: usize) -> (seen: String)
        requires
            self.wf(),
        ensures
            seen@ == peek(self.input@, self.cursor as int, count as nat),
    {
        let rest = self.input.len() - self.cursor;
        let end = if count <= rest {
            self.cursor + count
        } else {
            self.input.len()
        };
        encode(slice_subrange(self.input, self.cursor, end))
    }

    /// Whether `literal` stands at the cursor.
    pub fn starts_with(&self, literal: &str) -> (b: bool)
        requires
            self.wf(),
        ensures
            b == starts_with(self.input@, self.cursor as int, literal@),
    {
        let wanted = decode(literal);
        let rest = self.input.len() - self.cursor;
        if wanted.len() > rest {
            return false;
        }
        let ghost s = self.input@;
        let ghost at = self.cursor as int;
        let mut k: usize = 0;
        while k < wanted.len()
            invariant
                k <= wanted.len(),
                wanted@ == literal@,
                at == self.cursor,
                s == self.input@,
                at + wanted.len() <= s.len() <= usize::MAX,
                forall|j: int| 0 <= j < k ==> s[at + j] == wanted@[j],
            decreases wanted.len() - k,
        {
            if self.input[self.cursor + k] != wanted[k] {
                assert(s.subrange(at, at + wanted@.len())[k as int] != wanted@[k as int]);
                return false;
            }
            k += 1;
        }
        assert(s.subrange(at, at + wanted@.len()) =~= wanted@);
        true
    }

    /// Whether the cursor has reached the end of the buffer.
    pub fn is_end(&self) -> (b: bool)
        ensures
            b == (self.cursor >= self.input@.len()),
    {
        self.cursor >= self.input.len()
    }

    /// Moves past one scalar, if one is left.
    pub fn advance_one(&mut self)
        requires
            old(self).wf(),
        ensures
            final(self).follows(old(self)),
            final(self).cursor == if old(self).cursor < old(self).input@.len() {
                old(self).cursor + 1
            } else {
                old(self).cursor as int
            },
    {
        if self.cursor < self.input.len() {
            self.cursor += 1;
        }
    }

    /// Moves past `count` scalars, or to the end if fewer are left.
    pub fn advance_many(&mut self, count: usize)
        requires
            old(self).wf(),
        ensures
            final(self).follows(old(self)),
            final(self).cursor == if old(self).cursor + count <= old(self).input@.len() {
                old(self).cursor + count
            } else {
                old(self).input@.len() as int
            },
    {
        let rest = self.input.len() - self.cursor;
        if count <= rest {
            self.cursor += count;
        } else {
            self.cursor = self.input.len();
        }
    }

    /// Returns the scalar at the cursor and moves past it.
    pub fn consume(&mut self) -> (c: char)
        requires
            old(self).cursor < old(self).input@.len(),
        ensures
            final(self).follows(old(self)),
            final(self).cursor == old(self).cursor + 1,
            c == old(self).input@[old(self).cursor as int],
    {
        let c = self.input[self.cursor];
        self.cursor += 1;
        c
    }

    /// The failure of not finding `expected` at the cursor.
    pub fn mismatch(&self, expected: &str) -> (e: ParseError)
        requires
            self.wf(),
        ensures
            e@ == mismatch(self.input@, self.cursor as int, expected@),
    {
        let wanted = decode(expected);
        ParseError::ScanMismatch {
            offset: self.cursor,
            expected: encode(wanted.as_slice()),
            found: self.peek_many(wanted.len()),
        }
    }

    /// Moves past `literal` if it stands at the cursor; fails without moving
    /// if it does not.
    pub fn consume_expect(&mut self, literal: &str) -> (res: Result<(), ParseError>)
        requires
            old(self).wf(),
        ensures
            final(self).follows(old(self)),
            starts_with(old(self).input@, old(self).cursor as int, literal@) ==> res is Ok
                && final(self).cursor == old(self).cursor + literal@.len(),
            !starts_with(old(self).input@, old(self).cursor as int, literal@) ==> res is Err
                && final(self).cursor == old(self).cursor && res->Err_0@ == mismatch(
                old(self).input@,
                old(self).cursor as int,
                literal@,
            ),
    {
        if self.starts_with(literal) {
            let wanted = decode(literal);
            let rest = self.input.len() - self.cursor;
            assert(wanted.len() <= rest);
            self.cursor += wanted.len();
            Ok(())
        } else {
            Err(self.mismatch(literal))
        }
    }

    /// Moves past one white-space scalar; fails without moving if none
    /// stands at the cursor.
    pub fn consume_expect_whitespace(&mut self) -> (res: Result<(), ParseError>)
        requires
            old(self).wf(),
        ensures
            final(self).follows(old(self)),
            old(self).cursor < old(self).input@.len() && whitespace(
                old(self).input@[old(self).cursor as int],
            ) ==> res is Ok && final(self).cursor == old(self).cursor + 1,
            !(old(self).cursor < old(self).input@.len() && whitespace(
                old(self).input@[old(self).cursor as int],
            )) ==> res is Err && final(self).cursor == old(self).cursor && res->Err_0@ == mismatch(
                old(self).input@,
                old(self).cursor as int,
                seq![' '],
            ),
    {
        if self.is_whitespace() {
            let rest = self.input.len() - self.cursor;
            assert(1 <= rest);
            self.cursor += 1;
            Ok(())
        } else {
            proof {
                reveal_strlit(" ");
                assert(" "@ =~= seq![' ']);
            }
            Err(self.mismatch(" "))
        }
    }

    /// Whether one of the literals stands at the cursor.
    pub fn contains(&self, literals: Vec<&str>) -> (b: bool)
        requires
            self.wf(),
        ensures
            b == exists|k: int|
                0 <= k < literals@.len() && starts_with(
                    self.input@,
                    self.cursor as int,
                    (#[trigger] literals@[k])@,
                ),
    {
        let mut k: usize = 0;
        while k < literals.len()
            invariant
                k <= literals.len(),
                self.wf(),
                forall|j: int|
                    0 <= j < k ==> !starts_with(
                        self.input@,
                        self.cursor as int,
                        (#[trigger] literals@[j])@,
                    ),
            decreases literals.len() - k,
        {
            if self.starts_with(literals[k]) {
                return true;
            }
            k += 1;
        }
        false
    }

    /// Moves past one line terminator; fails without moving if none stands
    /// at the cursor.
    pub fn consume_expect_newline(&mut self) -> (res: Result<(), ParseError>)
        requires
            old(self).wf(),
        ensures
            final(self).follows(old(self)),
            starts_with(old(self).input@, old(self).cursor as int, seq!['\n']) ==> res is Ok
                && final(self).cursor == old(self).cursor + 1,
            !starts_with(old(self).input@, old(self).cursor as int, seq!['\n']) ==> res is Err
                && final(self).cursor == old(self).cursor && res->Err_0@ == mismatch(
                old(self).input@,
                old(self).cursor as int,
                seq!['\n'],
            ),
    {
        proof {
            reveal_strlit("\n");
            assert("\n"@ =~= seq!['\n']);
        }
        self.consume_expect("\n")
    }

    /// Moves past a blank line, two line terminators; fails without moving
    /// if none stands at the cursor.
    pub fn consume_expect_double_newline(&mut self) -> (res: Result<(), ParseError>)
        requires
            old(self).wf(),
        ensures
            final(self).follows(old(self)),
            blank_line_at(old(self).input@, old(self).cursor as int) ==> res is Ok && final(self).cursor == old(self).cursor + 2,
            !blank_line_at(old(self).input@, old(self).cursor as int) ==> res is Err && final(self).cursor == old(self).cursor && res->Err_0@ == mismatch(
                old(self).input@,
                old(self).cursor as int,
                seq!['\n', '\n'],
            ),
    {
        proof {
            reveal_strlit("\n\n");
            assert("\n\n"@ =~= seq!['\n', '\n']);
            let s = self.input@;
            let i = self.cursor as int;
            if i + 2 <= s.len() {
                assert(s.subrange(i, i + 2)[0] == s[i]);
                assert(s.subrange(i, i + 2)[1] == s[i + 1]);
                if blank_line_at(s, i) {
                    assert(s.subrange(i, i + 2) =~= seq!['\n', '\n']);
                }
            }
        }
        self.consume_expect("\n\n")
    }

    /// Moves past the longest run of scalars that `test` accepts and returns
    /// the run.
    pub fn consume_while<F: Fn(char) -> bool>(&mut self, test: F) -> (span: String)
        requires
            old(self).wf(),
            forall|c: char| call_requires(test, (c,)),
        ensures
            final(self).follows(old(self)),
            span@ == old(self).input@.subrange(old(self).cursor as int, final(self).cursor as int),
            forall|k: int|
                old(self).cursor <= k < final(self).cursor ==> call_ensures(
                    test,
                    (#[trigger] old(self).input@[k],),
                    true,
                ),
            final(self).cursor < final(self).input@.len() ==> call_ensures(
                test,
                (old(self).input@[final(self).cursor as int],),
                false,
            ),
    {
        let start = self.cursor;
        loop
            invariant
                self.input@ == old(self).input@,
                start == old(self).cursor,
                start <= self.cursor <= self.input@.len(),
                forall|c: char| call_requires(test, (c,)),
                forall|k: int|
                    start <= k < self.cursor ==> call_ensures(
                        test,
                        (#[trigger] self.input@[k],),
                        true,
                    ),
            ensures
                self.cursor < self.input@.len() ==> call_ensures(
                    test,
                    (self.input@[self.cursor as int],),
                    false,
                ),
            decreases self.input@.len() - self.cursor,
        {
            if self.cursor >= self.input.len() {
                break;
            }
            if !test(self.input[self.cursor]) {
                break;
            }
            self.cursor += 1;
        }
        encode(slice_subrange(self.input, start, self.cursor))
    }

    /// Moves past the longest run of white space.
    pub fn skip_whitespace(&mut self)
        requires
            old(self).wf(),
        ensures
            final(self).follows(old(self)),
            final(self).cursor == scan_while(
                old(self).input@,
                old(self).cursor as int,
                Class::Whitespace,
            ),
    {
        let ghost from = self.cursor as int;
        while self.cursor < self.input.len() && is_whitespace_scalar(self.input[self.cursor])
            invariant
                self.input@ == old(self).input@,
                from == old(self).cursor,
                from <= self.cursor <= self.input@.len(),
                forall|k: int| from <= k < self.cursor ==> whitespace(#[trigger] self.input@[k]),
            decreases self.input@.len() - self.cursor,
        {
            self.cursor += 1;
        }
        proof {
            lemma_scan_stops(self.input@, from, self.cursor as int, Class::Whitespace);
        }
    }

    /// Whether a white-space scalar stands at the cursor.
    pub fn is_whitespace(&self) -> (b: bool)
        ensures
            b == (self.cursor < self.input@.len() && whitespace(self.input@[self.cursor as int])),
    {
        self.cursor < self.input.len() && is_whitespace_scalar(self.input[self.cursor])
    }

    /// Whether a line terminator stands at the cursor.
    pub fn is_newline(&self) -> (b: bool)
        ensures
            b == (self.cursor < self.input@.len() && self.input@[self.cursor as int] == '\n'),
    {
        self.cursor < self.input.len() && self.input[self.cursor] == '\n'
    }

    /// Whether a blank line, two line terminators, stands at the cursor.
    pub fn is_doble_newline(&self) -> (b: bool)
        requires
            self.wf(),
        ensures
            b == blank_line_at(self.input@, self.cursor as int),
    {
        let rest = self.input.len() - self.cursor;
        rest >= 2 && self.input[self.cursor] == '\n' && self.input[self.cursor + 1] == '\n'
    }

    /// Whether a decimal digit stands at the cursor.
    pub fn is_digit(&self) -> (b: bool)
        ensures
            b == (self.cursor < self.input@.len() && digit(self.input@[self.cursor as int])),
    {
        self.cursor < self.input.len() && is_digit_scalar(self.input[self.cursor])
    }

    /// Moves past what carries no meaning between blocks: white space.
    pub fn skip_trivial(&mut self)
        requires
            old(self).wf(),
        ensures
            final(self).follows(old(self)),
            final(self).cursor == scan_while(
                old(self).input@,
                old(self).cursor as int,
                Class::Whitespace,
            ),
    {
        self.skip_whitespace();
    }
}

} // verus!

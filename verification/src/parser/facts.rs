//! Facts about the scans and literal matches that the grammar is built from.

use crate::parser::grammar::{
    blank_line_at, closing_fence, decimal, fence_line_at, run, scan_while, starts_with, text_end,
    without_whitespace, Class,
};
use crate::text::{digit_value, special, whitespace};
use vstd::prelude::*;

verus! {

/// A scan from `i` that ran over scalars of `class` and stopped at `j`, at
/// the end of the input or before a scalar outside `class`, is the longest
/// such run.
pub proof fn lemma_scan_stops(s: Seq<char>, i: int, j: int, class: Class)
    requires
        0 <= i <= j <= s.len(),
        forall|k: int| i <= k < j ==> class.holds(#[trigger] s[k]),
        j == s.len() || !class.holds(s[j]),
    ensures
        scan_while(s, i, class) == j,
    decreases j - i,
{
    if i < j {
        lemma_scan_stops(s, i + 1, j, class);
    }
}

/// The longest run from `i` ends inside the input, holds only scalars of
/// `class`, and is followed by none.
pub proof fn lemma_scan_run(s: Seq<char>, i: int, class: Class)
    requires
        0 <= i <= s.len(),
    ensures
        i <= scan_while(s, i, class) <= s.len(),
        forall|k: int| i <= k < scan_while(s, i, class) ==> class.holds(#[trigger] s[k]),
        scan_while(s, i, class) < s.len() ==> !class.holds(s[scan_while(s, i, class)]),
    decreases s.len() - i,
{
    if i < s.len() && class.holds(s[i]) {
        lemma_scan_run(s, i + 1, class);
    }
}

/// A scan over a literal that stands at a position, whose scalars are all
/// of the class, runs to the literal's end if the class ends there.
pub proof fn lemma_scan_over(s: Seq<char>, i: int, a: Seq<char>, class: Class)
    requires
        0 <= i,
        starts_with(s, i, a),
        forall|k: int| 0 <= k < a.len() ==> class.holds(#[trigger] a[k]),
        i + a.len() == s.len() || !class.holds(s[i + a.len()]),
    ensures
        scan_while(s, i, class) == i + a.len(),
{
    lemma_starts_with_index(s, i, a);
    assert forall|k: int| i <= k < i + a.len() implies class.holds(#[trigger] s[k]) by {
        assert(s[k] == a[k - i]);
    }
    lemma_scan_stops(s, i, i + a.len(), class);
}

/// White space before a position is passed on the way to it.
pub proof fn lemma_scan_skip(s: Seq<char>, a: int, b: int)
    requires
        0 <= a <= b <= s.len(),
        forall|k: int| a <= k < b ==> whitespace(#[trigger] s[k]),
    ensures
        scan_while(s, a, Class::Whitespace) == scan_while(s, b, Class::Whitespace),
    decreases b - a,
{
    if a < b {
        lemma_scan_skip(s, a + 1, b);
    }
}

/// Whether a single scalar stands at a position, as a literal match.
pub proof fn lemma_starts_with_one(s: Seq<char>, i: int, c: char)
    requires
        0 <= i,
    ensures
        starts_with(s, i, seq![c]) <==> (i < s.len() && s[i] == c),
{
    if i < s.len() {
        assert(s.subrange(i, i + 1)[0] == s[i]);
        if s[i] == c {
            assert(s.subrange(i, i + 1) =~= seq![c]);
        }
    }
}

/// Whether two equal scalars stand at a position, as a literal match.
pub proof fn lemma_starts_with_two(s: Seq<char>, i: int, c: char)
    requires
        0 <= i,
    ensures
        starts_with(s, i, run(c, 2)) <==> (i + 1 < s.len() && s[i] == c && s[i + 1] == c),
{
    if i + 1 < s.len() {
        assert(s.subrange(i, i + 2)[0] == s[i]);
        assert(s.subrange(i, i + 2)[1] == s[i + 1]);
        if s[i] == c && s[i + 1] == c {
            assert(s.subrange(i, i + 2) =~= run(c, 2));
        }
    }
}

/// Whether three given scalars stand at a position, as a literal match.
pub proof fn lemma_starts_with_three(s: Seq<char>, i: int, a: char, b: char, c: char)
    requires
        0 <= i,
    ensures
        starts_with(s, i, seq![a, b, c]) <==> (i + 2 < s.len() && s[i] == a && s[i + 1] == b && s[i
            + 2] == c),
{
    if i + 2 < s.len() {
        assert(s.subrange(i, i + 3)[0] == s[i]);
        assert(s.subrange(i, i + 3)[1] == s[i + 1]);
        assert(s.subrange(i, i + 3)[2] == s[i + 2]);
        if s[i] == a && s[i + 1] == b && s[i + 2] == c {
            assert(s.subrange(i, i + 3) =~= seq![a, b, c]);
        }
    }
}

/// A literal that stands at a position, part by part.
pub proof fn lemma_starts_with_parts(s: Seq<char>, i: int, a: Seq<char>, b: Seq<char>)
    requires
        0 <= i,
        starts_with(s, i, a + b),
    ensures
        starts_with(s, i, a),
        starts_with(s, i + a.len(), b),
{
    let whole = s.subrange(i, i + (a + b).len());
    assert(s.subrange(i, i + a.len()) =~= whole.subrange(0, a.len() as int));
    assert(whole.subrange(0, a.len() as int) =~= a);
    assert(s.subrange(i + a.len(), i + a.len() + b.len()) =~= whole.subrange(
        a.len() as int,
        (a + b).len() as int,
    ));
    assert(whole.subrange(a.len() as int, (a + b).len() as int) =~= b);
}

/// The scalars of a literal that stands at a position.
pub proof fn lemma_starts_with_index(s: Seq<char>, i: int, a: Seq<char>)
    requires
        0 <= i,
        starts_with(s, i, a),
    ensures
        forall|k: int| 0 <= k < a.len() ==> s[i + k] == #[trigger] a[k],
{
    assert forall|k: int| 0 <= k < a.len() implies s[i + k] == #[trigger] a[k] by {
        assert(s.subrange(i, i + a.len())[k] == s[i + k]);
    }
}

/// A text run from `i` that passed only plain scalars and stopped at `j`
/// ends where the grammar says.
pub proof fn lemma_text_stops(s: Seq<char>, i: int, j: int)
    requires
        0 <= i <= j <= s.len(),
        forall|k: int| i <= k < j ==> !special(#[trigger] s[k]) && !blank_line_at(s, k),
        j == s.len() || special(s[j]) || blank_line_at(s, j),
    ensures
        text_end(s, i) == j,
    decreases j - i,
{
    if i < j {
        lemma_text_stops(s, i + 1, j);
    }
}

/// A run of literal text ends inside the input.
pub proof fn lemma_text_end(s: Seq<char>, i: int)
    requires
        0 <= i <= s.len(),
    ensures
        i <= text_end(s, i) <= s.len(),
        i < s.len() && !special(s[i]) && !blank_line_at(s, i) ==> i < text_end(s, i),
    decreases s.len() - i,
{
    if i < s.len() && !special(s[i]) && !blank_line_at(s, i) {
        lemma_text_end(s, i + 1);
    }
}

/// Dropping white space from a range that grows by one scalar.
pub proof fn lemma_without_whitespace_step(s: Seq<char>, from: int, to: int)
    requires
        0 <= from <= to < s.len(),
    ensures
        without_whitespace(s.subrange(from, to + 1)) == if whitespace(s[to]) {
            without_whitespace(s.subrange(from, to))
        } else {
            without_whitespace(s.subrange(from, to)).push(s[to])
        },
{
    assert(s.subrange(from, to + 1).drop_last() =~= s.subrange(from, to));
}

/// Text without white space stays as it is when white space is dropped.
pub proof fn lemma_without_whitespace_same(a: Seq<char>)
    requires
        forall|k: int| 0 <= k < a.len() ==> !whitespace(#[trigger] a[k]),
    ensures
        without_whitespace(a) == a,
    decreases a.len(),
{
    if a.len() > 0 {
        lemma_without_whitespace_same(a.drop_last());
        assert(a.drop_last().push(a.last()) =~= a);
    }
}

/// The value of a digit run that grows by one digit.
pub proof fn lemma_decimal_step(s: Seq<char>, from: int, to: int)
    requires
        0 <= from <= to < s.len(),
    ensures
        decimal(s.subrange(from, to + 1)) == decimal(s.subrange(from, to)) * 10 + digit_value(
            s[to],
        ),
{
    assert(s.subrange(from, to + 1).drop_last() =~= s.subrange(from, to));
}

/// The closing fence of a code block lies at the start of a line, at or
/// after the start of the body.
pub proof fn lemma_closing_fence(s: Seq<char>, p: int)
    requires
        0 <= p <= s.len(),
    ensures
        match closing_fence(s, p) {
            Some(close) => p <= close && close + 3 <= s.len() && fence_line_at(s, close) && (close
                == p || s[close - 1] == '\n'),
            None => true,
        },
    decreases s.len() - p,
{
    if 0 <= p < s.len() && !fence_line_at(s, p) {
        let e = scan_while(s, p, Class::Not('\n'));
        lemma_scan_run(s, p, Class::Not('\n'));
        if e < s.len() {
            lemma_closing_fence(s, e + 1);
        }
    }
}

} // verus!

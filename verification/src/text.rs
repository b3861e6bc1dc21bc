//! Character classes of the markup dialect and conversions between strings and
//! sequences of Unicode scalars.

use vstd::prelude::*;

verus! {

/// `String::push` appends exactly one scalar to the end of the string and
/// leaves what was there before untouched.
pub assume_specification[ String::push ](s: &mut String, c: char)
    ensures
        final(s)@ == old(s)@.push(c),
;

/// Scalars with the Unicode `White_Space` property.
pub open spec fn whitespace(c: char) -> bool {
    let n = c as u32;
    (0x09 <= n <= 0x0d) || n == 0x20 || n == 0x85 || n == 0xa0 || n == 0x1680 || (0x2000 <= n
        <= 0x200a) || n == 0x2028 || n == 0x2029 || n == 0x202f || n == 0x205f || n == 0x3000
}

/// ASCII letters.
pub open spec fn letter(c: char) -> bool {
    ('a' <= c <= 'z') || ('A' <= c <= 'Z')
}

/// ASCII decimal digits.
pub open spec fn digit(c: char) -> bool {
    '0' <= c <= '9'
}

/// Scalars that interrupt a run of literal text inside a line: each opens
/// a text-level production of its own.
pub open spec fn special(c: char) -> bool {
    c == '`' || c == '*' || c == '_' || c == '['
}

/// The value of a decimal digit.
pub open spec fn digit_value(c: char) -> nat
    recommends
        digit(c),
{
    (c as u32 - '0' as u32) as nat
}

/// Whether a scalar is white space.
pub fn is_whitespace_scalar(c: char) -> (b: bool)
    ensures
        b == whitespace(c),
{
    let n: u32 = c as u32;
    (0x09 <= n && n <= 0x0d) || n == 0x20 || n == 0x85 || n == 0xa0 || n == 0x1680 || (0x2000 <= n
        && n <= 0x200a) || n == 0x2028 || n == 0x2029 || n == 0x202f || n == 0x205f || n == 0x3000
}

/// Whether a scalar is an ASCII letter.
pub fn is_letter_scalar(c: char) -> (b: bool)
    ensures
        b == letter(c),
{
    let n: u32 = c as u32;
    (0x61 <= n && n <= 0x7a) || (0x41 <= n && n <= 0x5a)
}

/// Whether a scalar is an ASCII decimal digit.
pub fn is_digit_scalar(c: char) -> (b: bool)
    ensures
        b == digit(c),
{
    let n: u32 = c as u32;
    0x30 <= n && n <= 0x39
}

/// Whether a scalar interrupts a run of literal text.
pub fn is_special_scalar(c: char) -> (b: bool)
    ensures
        b == special(c),
{
    c == '`' || c == '*' || c == '_' || c == '['
}

/// Decodes a string into its scalars, in order.
pub fn decode(s: &str) -> (v: Vec<char>)
    ensures
        v@ == s@,
{
    let mut v: Vec<char> = Vec::new();
    for c in it: s.chars()
        invariant
            v@ == it.seq().take(it.index@),
    {
        v.push(c);
    }
    v
}

/// Encodes a run of scalars as a string.
pub fn encode(v: &[char]) -> (s: String)
    ensures
        s@ == v@,
{
    let mut s = String::new();
    let mut i: usize = 0;
    while i < v.len()
        invariant
            i <= v.len(),
            s@ == v@.take(i as int),
        decreases v.len() - i,
    {
        s.push(v[i]);
        i += 1;
        assert(v@.take(i as int) == v@.take(i - 1).push(v@[i - 1]));
    }
    assert(v@.take(i as int) == v@);
    s
}

/// The decimal digit that writes `d`.
pub open spec fn digit_of(d: nat) -> char
    recommends
        d < 10,
{
    (0x30 + d) as char
}

/// The decimal digits that write `n`, without leading zeros.
pub open spec fn digits(n: nat) -> Seq<char>
    decreases n,
{
    if n < 10 {
        seq![digit_of(n)]
    } else {
        digits(n / 10).push(digit_of(n % 10))
    }
}

/// The decimal digits of a number, as a string.
pub fn decimal_digits(n: usize) -> (out: String)
    ensures
        out@ == digits(n as nat),
    decreases n,
{
    let last: char = ((0x30 + (n % 10)) as u8) as char;
    if n < 10 {
        let mut out = String::new();
        out.push(last);
        assert(out@ =~= seq![digit_of(n as nat)]);
        out
    } else {
        let mut out = decimal_digits(n / 10);
        out.push(last);
        out
    }
}

} // verus!

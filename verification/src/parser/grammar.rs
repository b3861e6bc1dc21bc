//! The grammar of the dialect, stated over sequences of scalars.
//!
//! Every production is a function from the input and a start position to
//! either a node model with the position just after it, or a failure. The
//! executable productions are proved to return the views of these results.
//!
//! The productions that repeat others (`children`, `line_nodes`, `blocks`)
//! go on only from a position after the one they started at and inside the
//! input. That test is there for the sake of termination: every node ends
//! after its start and inside the input, as the lemmas on content
//! preservation show, so the branch that fails the test is never taken. The
//! same holds of the test on the end of the line in `quoted`, and of the
//! tests on positions outside the input with which `line_node`, `list` and
//! `block` begin: the executable productions are not called there.

use crate::ast::{LinkModel, NodeModel};
use crate::error::ParseErrorModel;
use crate::text::{digit, digit_value, letter, special, whitespace};
use vstd::prelude::*;

verus! {

/// What a production yields: a value and the position after it, or a failure.
pub type Parsed<T> = Result<(T, int), ParseErrorModel>;

/// The classes of scalars that a scan may run over.
pub enum Class {
    /// Exactly this scalar.
    Is(char),
    /// Every scalar but this one.
    Not(char),
    /// Unicode white space.
    Whitespace,
    /// ASCII decimal digits.
    Digit,
    /// Every scalar that belongs to a link target: neither quote nor `)`.
    Target,
}

impl Class {
    /// Whether `c` belongs to the class.
    pub open spec fn holds(self, c: char) -> bool {
        match self {
            Class::Is(x) => c == x,
            Class::Not(x) => c != x,
            Class::Whitespace => whitespace(c),
            Class::Digit => digit(c),
            Class::Target => c != '"' && c != '\'' && c != ')',
        }
    }
}

/// The end of the longest run of scalars of `class` that starts at `i`.
pub open spec fn scan_while(s: Seq<char>, i: int, class: Class) -> int
    decreases s.len() - i,
{
    if 0 <= i < s.len() && class.holds(s[i]) {
        scan_while(s, i + 1, class)
    } else {
        i
    }
}

/// Up to `n` scalars from position `i`.
pub open spec fn peek(s: Seq<char>, i: int, n: nat) -> Seq<char> {
    if i + n <= s.len() {
        s.subrange(i, i + n)
    } else {
        s.subrange(i, s.len() as int)
    }
}

/// Whether the input from position `i` begins with `literal`.
pub open spec fn starts_with(s: Seq<char>, i: int, literal: Seq<char>) -> bool {
    i + literal.len() <= s.len() && s.subrange(i, i + literal.len()) == literal
}

/// The failure of not finding `expected` at position `i`.
pub open spec fn mismatch(s: Seq<char>, i: int, expected: Seq<char>) -> ParseErrorModel {
    ParseErrorModel::ScanMismatch {
        offset: i as nat,
        expected,
        found: peek(s, i, expected.len()),
    }
}

/// The failure of a construct that was opened at `open` and never closed.
pub open spec fn unterminated(open: int) -> ParseErrorModel {
    ParseErrorModel::UnterminatedConstruct { offset: open as nat }
}

/// Whether an empty line starts at `i`: two line terminators in a row.
pub open spec fn blank_line_at(s: Seq<char>, i: int) -> bool {
    i + 1 < s.len() && s[i] == '\n' && s[i + 1] == '\n'
}

/// Where a line's content ends, given the end `e` of its text: after the
/// terminator if there is one.
pub open spec fn after_line(s: Seq<char>, e: int) -> int {
    if e < s.len() {
        e + 1
    } else {
        e
    }
}

/// The scalars of `s` that are not white space, in order.
pub open spec fn without_whitespace(s: Seq<char>) -> Seq<char>
    decreases s.len(),
{
    if s.len() == 0 {
        s
    } else if whitespace(s.last()) {
        without_whitespace(s.drop_last())
    } else {
        without_whitespace(s.drop_last()).push(s.last())
    }
}

/// The number that a run of decimal digits writes.
pub open spec fn decimal(digits: Seq<char>) -> nat
    decreases digits.len(),
{
    if digits.len() == 0 {
        0
    } else {
        decimal(digits.drop_last()) * 10 + digit_value(digits.last())
    }
}

/// The marker of a fenced code block.
pub open spec fn fence() -> Seq<char> {
    seq!['`', '`', '`']
}

/// `width` copies of `mark`.
pub open spec fn run(mark: char, width: int) -> Seq<char> {
    Seq::new(width as nat, |k: int| mark)
}

// ---------------------------------------------------------------------------
// Text-level productions
// ---------------------------------------------------------------------------

/// The end of the literal text that starts at `i`: the next special scalar,
/// blank line, or the end of the input.
pub open spec fn text_end(s: Seq<char>, i: int) -> int
    decreases s.len() - i,
{
    if 0 <= i < s.len() && !special(s[i]) && !blank_line_at(s, i) {
        text_end(s, i + 1)
    } else {
        i
    }
}

/// A run of literal text.
pub open spec fn text(s: Seq<char>, i: int) -> Parsed<NodeModel> {
    Ok((NodeModel::Text(s.subrange(i, text_end(s, i))), text_end(s, i)))
}

/// A code span between two backticks.
pub open spec fn inline_code(s: Seq<char>, i: int) -> Parsed<NodeModel> {
    if !starts_with(s, i, seq!['`']) {
        Err(mismatch(s, i, seq!['`']))
    } else {
        let close = scan_while(s, i + 1, Class::Not('`'));
        if close >= s.len() {
            Err(unterminated(i))
        } else {
            Ok((NodeModel::InlineCode(s.subrange(i + 1, close)), close + 1))
        }
    }
}

/// The part of a link or image from its opening bracket on:
/// `[alt](url)` or `[alt](url "title")`.
pub open spec fn link_parts(s: Seq<char>, i: int) -> Parsed<LinkModel> {
    if !starts_with(s, i, seq!['[']) {
        Err(mismatch(s, i, seq!['[']))
    } else {
        let bracket = scan_while(s, i + 1, Class::Not(']'));
        if bracket >= s.len() {
            Err(unterminated(i))
        } else {
            let alt = s.subrange(i + 1, bracket);
            let paren = bracket + 1;
            if !starts_with(s, paren, seq!['(']) {
                Err(mismatch(s, paren, seq!['(']))
            } else {
                let stop = scan_while(s, paren + 1, Class::Target);
                if stop >= s.len() {
                    Err(unterminated(paren))
                } else {
                    let url = without_whitespace(s.subrange(paren + 1, stop));
                    if s[stop] == ')' {
                        Ok((LinkModel { url, alt, title: None }, stop + 1))
                    } else {
                        let unquote = scan_while(s, stop + 1, Class::Not(s[stop]));
                        if unquote >= s.len() {
                            Err(unterminated(stop))
                        } else {
                            let title = s.subrange(stop + 1, unquote);
                            let close = scan_while(s, unquote + 1, Class::Whitespace);
                            if close >= s.len() {
                                Err(unterminated(paren))
                            } else if s[close] != ')' {
                                Err(mismatch(s, close, seq![')']))
                            } else {
                                Ok((LinkModel { url, alt, title: Some(title) }, close + 1))
                            }
                        }
                    }
                }
            }
        }
    }
}

/// A link.
pub open spec fn link(s: Seq<char>, i: int) -> Parsed<NodeModel> {
    match link_parts(s, i) {
        Ok((parts, end)) => Ok((NodeModel::Link(parts), end)),
        Err(e) => Err(e),
    }
}

/// An image: a link behind `!`.
pub open spec fn image(s: Seq<char>, i: int) -> Parsed<NodeModel> {
    if !starts_with(s, i, seq!['!', '[']) {
        Err(mismatch(s, i, seq!['!', '[']))
    } else {
        match link_parts(s, i + 1) {
            Ok((parts, end)) => Ok((NodeModel::Image(parts), end)),
            Err(e) => Err(e),
        }
    }
}

/// One text-level node, chosen by the scalar at `i`.
pub open spec fn line_node(s: Seq<char>, i: int) -> Parsed<NodeModel>
    decreases s.len() - i, 2int,
{
    if !(0 <= i < s.len()) {
        Err(unterminated(i))
    } else if s[i] == '`' {
        inline_code(s, i)
    } else if s[i] == '*' {
        if starts_with(s, i, run('*', 2)) {
            strong(s, i)
        } else {
            emphasis(s, i)
        }
    } else if s[i] == '_' {
        emphasis(s, i)
    } else if s[i] == '[' {
        link(s, i)
    } else {
        text(s, i)
    }
}

/// Strong text: `**`, text-level nodes, and a closing run of exactly `**`.
pub open spec fn strong(s: Seq<char>, i: int) -> Parsed<NodeModel>
    decreases s.len() - i, 1int,
{
    if !starts_with(s, i, run('*', 2)) || i < 0 {
        Err(mismatch(s, i, run('*', 2)))
    } else {
        match children(s, i + 2, '*', 2, i) {
            Err(e) => Err(e),
            Ok((kids, close)) => Ok((NodeModel::Bold(kids), close + 2)),
        }
    }
}

/// Emphasised text: a single `*` or `_`, text-level nodes, and a closing
/// run of exactly that scalar.
pub open spec fn emphasis(s: Seq<char>, i: int) -> Parsed<NodeModel>
    decreases s.len() - i, 1int,
{
    if !(0 <= i < s.len() && (s[i] == '*' || s[i] == '_')) {
        Err(mismatch(s, i, seq!['*']))
    } else {
        match children(s, i + 1, s[i], 1, i) {
            Err(e) => Err(e),
            Ok((kids, close)) => Ok((NodeModel::Italic(kids), close + 1)),
        }
    }
}

/// Whether a closing delimiter stands at `i`: the whole run of `mark`
/// there is exactly `width` long.
pub open spec fn closes_at(s: Seq<char>, i: int, mark: char, width: int) -> bool {
    scan_while(s, i, Class::Is(mark)) - i == width
}

/// The nodes between an opening delimiter and its closing delimiter: the
/// next run of `mark` that is exactly `width` long. A run of `mark` of
/// another length opens a node of its own. The delimiter was opened at
/// `open`; running into a blank line or the end of the input leaves it
/// unterminated.
pub open spec fn children(s: Seq<char>, i: int, mark: char, width: int, open: int) -> Parsed<
    Seq<NodeModel>,
>
    decreases s.len() - i, 3int,
{
    if !(0 <= i < s.len()) || blank_line_at(s, i) {
        Err(unterminated(open))
    } else if s[i] == mark && closes_at(s, i, mark, width) {
        Ok((Seq::empty(), i))
    } else {
        match line_node(s, i) {
            Err(e) => Err(e),
            Ok((node, next)) => if !(i < next <= s.len()) {
                Err(unterminated(open))
            } else {
                match children(s, next, mark, width, open) {
                    Err(e) => Err(e),
                    Ok((rest, close)) => Ok((seq![node] + rest, close)),
                }
            },
        }
    }
}

/// The text-level nodes from `i` to the next blank line or the end of the
/// input.
pub open spec fn line_nodes(s: Seq<char>, i: int) -> Parsed<Seq<NodeModel>>
    decreases s.len() - i,
{
    if !(0 <= i < s.len()) || blank_line_at(s, i) {
        Ok((Seq::empty(), i))
    } else {
        match line_node(s, i) {
            Err(e) => Err(e),
            Ok((node, next)) => if !(i < next <= s.len()) {
                Err(unterminated(i))
            } else {
                match line_nodes(s, next) {
                    Err(e) => Err(e),
                    Ok((rest, end)) => Ok((seq![node] + rest, end)),
                }
            },
        }
    }
}

// ---------------------------------------------------------------------------
// Block-level productions
// ---------------------------------------------------------------------------

/// A heading: a run of `#`, one white-space scalar, the rest of the line.
pub open spec fn heading(s: Seq<char>, i: int) -> Parsed<NodeModel> {
    let marks = scan_while(s, i, Class::Is('#'));
    if marks == i {
        Err(mismatch(s, i, seq!['#']))
    } else if !(marks < s.len() && whitespace(s[marks])) {
        Err(mismatch(s, marks, seq![' ']))
    } else {
        let e = scan_while(s, marks + 1, Class::Not('\n'));
        Ok(
            (
                NodeModel::Heading { level: (marks - i) as nat, text: s.subrange(marks + 1, e) },
                after_line(s, e),
            ),
        )
    }
}

/// The opening line of a fenced code block: the fence and the language tag.
pub open spec fn language_line(s: Seq<char>, i: int) -> Parsed<Seq<char>> {
    if !starts_with(s, i, fence()) {
        Err(mismatch(s, i, fence()))
    } else {
        let e = scan_while(s, i + 3, Class::Not('\n'));
        if e >= s.len() {
            Err(unterminated(i))
        } else {
            Ok((s.subrange(i + 3, e), e + 1))
        }
    }
}

/// Whether the line that starts at `p` consists of the fence alone.
pub open spec fn fence_line_at(s: Seq<char>, p: int) -> bool {
    starts_with(s, p, fence()) && (p + 3 == s.len() || s[p + 3] == '\n')
}

/// The start of the first line at or after the line start `p` that consists
/// of the fence alone.
pub open spec fn closing_fence(s: Seq<char>, p: int) -> Option<int>
    decreases s.len() - p,
{
    if !(0 <= p < s.len()) {
        None
    } else if fence_line_at(s, p) {
        Some(p)
    } else {
        let e = scan_while(s, p, Class::Not('\n'));
        if p <= e < s.len() {
            closing_fence(s, e + 1)
        } else {
            None
        }
    }
}

/// A fenced code block. The body is the raw text of the lines between the
/// two fences, without the terminator of its last line.
pub open spec fn code_block(s: Seq<char>, i: int) -> Parsed<NodeModel> {
    match language_line(s, i) {
        Err(e) => Err(e),
        Ok((language, body)) => match closing_fence(s, body) {
            None => Err(unterminated(i)),
            Some(close) => Ok(
                (
                    NodeModel::CodeBlock {
                        language,
                        code: if close == body {
                            Seq::empty()
                        } else {
                            s.subrange(body, close - 1)
                        },
                        meta: None,
                    },
                    close + 3,
                ),
            ),
        },
    }
}

/// A code construct at block level: fenced if the fence is there, a code
/// span otherwise.
pub open spec fn code(s: Seq<char>, i: int) -> Parsed<NodeModel> {
    if starts_with(s, i, fence()) {
        code_block(s, i)
    } else {
        inline_code(s, i)
    }
}

/// A paragraph: text-level nodes up to a blank line or the end of the input.
pub open spec fn paragraph(s: Seq<char>, i: int) -> Parsed<NodeModel> {
    match line_nodes(s, i) {
        Err(e) => Err(e),
        Ok((kids, end)) => Ok((NodeModel::Paragraph(kids), end)),
    }
}

/// Whether a thematic break starts at `i`: three equal scalars out of
/// `-`, `*` and `_`.
pub open spec fn rule_at(s: Seq<char>, i: int) -> bool {
    0 <= i && i + 2 < s.len() && (s[i] == '-' || s[i] == '*' || s[i] == '_') && s[i + 1] == s[i]
        && s[i + 2] == s[i]
}

/// A thematic break: a line that is one run of its marker.
pub open spec fn thematic_break(s: Seq<char>, i: int) -> Parsed<NodeModel> {
    if !rule_at(s, i) {
        Err(mismatch(s, i, run('-', 3)))
    } else {
        let e = scan_while(s, i, Class::Is(s[i]));
        if e < s.len() && s[e] != '\n' {
            Err(mismatch(s, e, seq!['\n']))
        } else {
            Ok((NodeModel::ThematicBreak, after_line(s, e)))
        }
    }
}

/// The content of a list item: the text-level nodes of the rest of the
/// line, as one paragraph.
pub open spec fn item_body(s: Seq<char>, i: int) -> Parsed<NodeModel> {
    let e = scan_while(s, i, Class::Not('\n'));
    match line_nodes(s.take(e), i) {
        Err(x) => Err(x),
        Ok((kids, _)) => Ok((NodeModel::Paragraph(kids), after_line(s, e))),
    }
}

/// One item of an unordered list: its marker, one white-space scalar, its
/// content.
pub open spec fn bullet_item(s: Seq<char>, i: int, bullet: Seq<char>) -> Parsed<NodeModel> {
    if !starts_with(s, i, bullet) {
        Err(mismatch(s, i, bullet))
    } else {
        let sep = i + bullet.len();
        if !(sep < s.len() && whitespace(s[sep])) {
            Err(mismatch(s, sep, seq![' ']))
        } else {
            item_body(s, sep + 1)
        }
    }
}

/// The items of an unordered list: one for each line in a row that starts
/// with the marker.
pub open spec fn bullet_items(s: Seq<char>, i: int, bullet: char) -> Parsed<Seq<NodeModel>>
    decreases s.len() - i,
{
    match bullet_item(s, i, seq![bullet]) {
        Err(e) => Err(e),
        Ok((item, next)) => if i < next < s.len() && s[next] == bullet {
            match bullet_items(s, next, bullet) {
                Err(e) => Err(e),
                Ok((rest, end)) => Ok((seq![item] + rest, end)),
            }
        } else {
            Ok((seq![item], next))
        },
    }
}

/// An unordered list. The scalar at `i` is its marker.
pub open spec fn bullet_list(s: Seq<char>, i: int) -> Parsed<NodeModel> {
    match bullet_items(s, i, s[i]) {
        Err(e) => Err(e),
        Ok((items, end)) => Ok((NodeModel::List { ordered: false, start: None, items }, end)),
    }
}

/// The number at the head of an ordered item: a run of digits that is not
/// empty and whose value fits a machine integer.
pub open spec fn number(s: Seq<char>, i: int) -> Parsed<nat> {
    let e = scan_while(s, i, Class::Digit);
    if e == i || decimal(s.subrange(i, e)) > usize::MAX {
        Err(ParseErrorModel::MalformedNumber { offset: i as nat })
    } else {
        Ok((decimal(s.subrange(i, e)), e))
    }
}

/// What follows the number of an ordered item: `.`, one white-space
/// scalar, the item's content.
pub open spec fn numbered_rest(s: Seq<char>, dot: int) -> Parsed<NodeModel> {
    if !starts_with(s, dot, seq!['.']) {
        Err(mismatch(s, dot, seq!['.']))
    } else if !(dot + 1 < s.len() && whitespace(s[dot + 1])) {
        Err(mismatch(s, dot + 1, seq![' ']))
    } else {
        item_body(s, dot + 2)
    }
}

/// One item of an ordered list: its number and what follows it.
pub open spec fn numbered_item(s: Seq<char>, i: int) -> Parsed<NodeModel> {
    match number(s, i) {
        Err(e) => Err(e),
        Ok((_, dot)) => numbered_rest(s, dot),
    }
}

/// The items of an ordered list: one for each line in a row that starts
/// with a digit.
pub open spec fn numbered_items(s: Seq<char>, i: int) -> Parsed<Seq<NodeModel>>
    decreases s.len() - i,
{
    match numbered_item(s, i) {
        Err(e) => Err(e),
        Ok((item, next)) => if i < next < s.len() && digit(s[next]) {
            match numbered_items(s, next) {
                Err(e) => Err(e),
                Ok((rest, end)) => Ok((seq![item] + rest, end)),
            }
        } else {
            Ok((seq![item], next))
        },
    }
}

/// An ordered list. It starts at the number of its first item.
pub open spec fn numbered_list(s: Seq<char>, i: int) -> Parsed<NodeModel> {
    match number(s, i) {
        Err(e) => Err(e),
        Ok((first, _)) => match numbered_items(s, i) {
            Err(e) => Err(e),
            Ok((items, end)) => Ok(
                (NodeModel::List { ordered: true, start: Some(first), items }, end),
            ),
        },
    }
}

/// A list, ordered or not by the scalar at `i`.
pub open spec fn list(s: Seq<char>, i: int) -> Parsed<NodeModel> {
    if !(0 <= i < s.len()) {
        Err(unterminated(i))
    } else if s[i] == '+' || s[i] == '-' || s[i] == '*' || s[i] == '_' {
        bullet_list(s, i)
    } else if digit(s[i]) {
        numbered_list(s, i)
    } else {
        Err(ParseErrorModel::UnexpectedScalar { offset: i as nat, found: s[i] })
    }
}

/// Where the content of a quoted line begins, given the position `i` of its
/// `>`: after the marker and one optional space.
pub open spec fn quoted_from(s: Seq<char>, i: int) -> int {
    if i + 1 < s.len() && s[i + 1] == ' ' {
        i + 2
    } else {
        i + 1
    }
}

/// The blocks of the quoted lines that start at `i`: for each line in a row
/// that starts with `>`, the blocks of the rest of that line.
pub open spec fn quoted(s: Seq<char>, i: int) -> Parsed<Seq<NodeModel>>
    decreases s.len() - i, 0int,
{
    if !starts_with(s, i, seq!['>']) || i < 0 {
        Err(mismatch(s, i, seq!['>']))
    } else {
        let from = quoted_from(s, i);
        let e = scan_while(s, from, Class::Not('\n'));
        if !(from <= e <= s.len()) {
            Err(unterminated(i))
        } else {
            match blocks(s.take(e), from) {
                Err(x) => Err(x),
                Ok(kids) => {
                    let next = after_line(s, e);
                    if next < s.len() && s[next] == '>' {
                        match quoted(s, next) {
                            Err(x) => Err(x),
                            Ok((rest, end)) => Ok((kids + rest, end)),
                        }
                    } else {
                        Ok((kids, next))
                    }
                },
            }
        }
    }
}

/// A block quote: the blocks of all its quoted lines.
pub open spec fn blockquote(s: Seq<char>, i: int) -> Parsed<NodeModel>
    decreases s.len() - i, 1int,
{
    match quoted(s, i) {
        Err(e) => Err(e),
        Ok((kids, end)) => Ok((NodeModel::Blockquote(kids), end)),
    }
}

/// One block, chosen by the scalar at `i`.
pub open spec fn block(s: Seq<char>, i: int) -> Parsed<NodeModel>
    decreases s.len() - i, 2int,
{
    if !(0 <= i < s.len()) {
        Err(unterminated(i))
    } else if s[i] == '#' {
        heading(s, i)
    } else if s[i] == '`' {
        code(s, i)
    } else if s[i] == '>' {
        blockquote(s, i)
    } else if s[i] == '!' {
        image(s, i)
    } else if s[i] == '[' {
        link(s, i)
    } else if letter(s[i]) {
        paragraph(s, i)
    } else if rule_at(s, i) {
        thematic_break(s, i)
    } else if digit(s[i]) || s[i] == '*' || s[i] == '_' || s[i] == '+' || s[i] == '-' {
        list(s, i)
    } else {
        Err(ParseErrorModel::UnexpectedScalar { offset: i as nat, found: s[i] })
    }
}

/// The blocks from `i` to the end of the input. White space between blocks
/// carries no meaning.
pub open spec fn blocks(s: Seq<char>, i: int) -> Result<Seq<NodeModel>, ParseErrorModel>
    decreases s.len() - i, 3int,
{
    let start = scan_while(s, i, Class::Whitespace);
    if !(0 <= i <= start < s.len()) {
        Ok(Seq::empty())
    } else {
        match block(s, start) {
            Err(e) => Err(e),
            Ok((node, next)) => if !(start < next <= s.len()) {
                Err(unterminated(start))
            } else {
                match blocks(s, next) {
                    Err(e) => Err(e),
                    Ok(rest) => Ok(seq![node] + rest),
                }
            },
        }
    }
}

/// The next block at or after `i`, if one is left: white space is passed
/// first, and at the end of the input there is none.
pub open spec fn next_block(s: Seq<char>, i: int) -> Parsed<Option<NodeModel>> {
    let start = scan_while(s, i, Class::Whitespace);
    if start >= s.len() {
        Ok((None, start))
    } else {
        match block(s, start) {
            Err(e) => Err(e),
            Ok((node, end)) => Ok((Some(node), end)),
        }
    }
}

/// The document that an input denotes: its blocks, in order.
pub open spec fn document(s: Seq<char>) -> Result<Seq<NodeModel>, ParseErrorModel> {
    blocks(s, 0)
}

} // verus!

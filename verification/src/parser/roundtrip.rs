//! Round trip: a document of the faithful subset, written in the source
//! dialect and parsed again, is the same document.

use crate::ast::{LinkModel, NodeModel};
use crate::error::ParseErrorModel;
use crate::format::{item_marker, item_source, item_sources, link_source, source, sources};
use crate::parser::facts::{
    lemma_scan_over, lemma_scan_run, lemma_scan_skip, lemma_scan_stops, lemma_starts_with_index,
    lemma_starts_with_one, lemma_starts_with_parts, lemma_starts_with_three, lemma_starts_with_two,
    lemma_text_stops, lemma_without_whitespace_same,
};
use crate::parser::grammar::{
    blank_line_at, block, blocks, bullet_item, bullet_items, children, closes_at, closing_fence,
    decimal, document, fence, fence_line_at, item_body, language_line, line_node, line_nodes,
    link_parts, number, numbered_item, numbered_items, rule_at, run, scan_while, starts_with,
    Class,
};
use crate::text::{digit, digit_of, digit_value, digits, letter, special, whitespace};
use vstd::prelude::*;

verus! {

/// Whether `c` does not occur in `t`.
pub open spec fn lacks(t: Seq<char>, c: char) -> bool {
    forall|k: int| 0 <= k < t.len() ==> #[trigger] t[k] != c
}

/// Literal text that a line can carry as it is: no special scalar and no
/// line terminator.
pub open spec fn plain(t: Seq<char>) -> bool {
    forall|k: int| 0 <= k < t.len() ==> !special(#[trigger] t[k]) && t[k] != '\n'
}

/// A link whose parts can be written and read back: no `]` between the
/// brackets, a target without white space, quotes and `)`, and a title
/// without `"`.
pub open spec fn faithful_link(l: LinkModel) -> bool {
    &&& lacks(l.alt, ']')
    &&& forall|k: int|
        0 <= k < l.url.len() ==> Class::Target.holds(#[trigger] l.url[k]) && !whitespace(l.url[k])
    &&& match l.title {
        Some(t) => lacks(t, '"'),
        None => true,
    }
}

/// The first scalar of the source of a text-level node.
pub open spec fn head(node: NodeModel) -> char {
    match node {
        NodeModel::Text(t) => t[0],
        NodeModel::InlineCode(_) => '`',
        NodeModel::Bold(_) => '*',
        NodeModel::Italic(_) => '_',
        NodeModel::Link(_) => '[',
        _ => ' ',
    }
}

/// Whether a text-level node is read back whole when `next` is the scalar
/// after its source: text ends only at a special scalar or a line
/// terminator, and a closing run must not be made longer.
pub open spec fn may_precede(node: NodeModel, next: char) -> bool {
    match node {
        NodeModel::Text(_) => special(next) || next == '\n',
        NodeModel::Bold(_) => next != '*',
        NodeModel::Italic(_) => next != '_',
        _ => true,
    }
}

/// The text-level nodes of the faithful subset: text that is plain and not
/// empty; code without a backtick; faithful links; strong and emphasised
/// text over faithful nodes.
pub open spec fn faithful_line(node: NodeModel) -> bool
    decreases node, 0int,
{
    match node {
        NodeModel::Text(t) => t.len() > 0 && plain(t),
        NodeModel::InlineCode(c) => lacks(c, '`'),
        NodeModel::Bold(kids) => faithful_lines(kids, '*'),
        NodeModel::Italic(kids) => faithful_lines(kids, '_'),
        NodeModel::Link(l) => faithful_link(l),
        _ => false,
    }
}

/// A sequence of faithful text-level nodes that `closer` follows: none
/// starts with the closer, and each may precede what comes after it.
pub open spec fn faithful_lines(kids: Seq<NodeModel>, closer: char) -> bool
    decreases kids, 0int,
{
    kids.len() == 0 || {
        &&& faithful_line(kids.first())
        &&& head(kids.first()) != closer
        &&& may_precede(
            kids.first(),
            if kids.len() > 1 {
                head(kids[1])
            } else {
                closer
            },
        )
        &&& faithful_lines(kids.drop_first(), closer)
    }
}

/// Whether no line of `code` consists of the fence alone.
pub open spec fn fence_free(code: Seq<char>) -> bool {
    forall|p: int|
        0 <= p < code.len() && (p == 0 || code[p - 1] == '\n') ==> !#[trigger] fence_line_at(
            code,
            p,
        )
}

/// The items of the faithful subset: paragraphs over faithful nodes whose
/// source stays on one line.
pub open spec fn faithful_item(item: NodeModel) -> bool {
    match item {
        NodeModel::Paragraph(kids) => faithful_lines(kids, '\n') && lacks(sources(kids), '\n'),
        _ => false,
    }
}

/// The blocks of the faithful subset: headings of level one or more with a
/// one-line text; paragraphs that start with a letter, over faithful nodes;
/// code blocks with a one-line language tag, no metadata and a fence-free
/// body; thematic breaks; faithful links and images; lists of one or more
/// faithful items, ordered ones with a start that fits a machine integer,
/// unordered ones without a start.
pub open spec fn faithful_block(node: NodeModel) -> bool {
    match node {
        NodeModel::Heading { level, text } => level >= 1 && lacks(text, '\n'),
        NodeModel::Paragraph(kids) => kids.len() > 0 && kids.first() is Text && letter(
            head(kids.first()),
        ) && faithful_lines(kids, '\n'),
        NodeModel::CodeBlock { language, code, meta } => lacks(language, '\n') && meta is None
            && fence_free(code),
        NodeModel::ThematicBreak => true,
        NodeModel::Link(l) => faithful_link(l),
        NodeModel::Image(l) => faithful_link(l),
        NodeModel::List { ordered, start, items } => {
            &&& items.len() > 0
            &&& forall|k: int| 0 <= k < items.len() ==> faithful_item(#[trigger] items[k])
            &&& if ordered {
                start is Some && start->Some_0 <= usize::MAX
            } else {
                start is None
            }
        },
        _ => false,
    }
}

/// The first scalar of the source of a faithful block.
pub open spec fn opener(node: NodeModel) -> char {
    match node {
        NodeModel::Heading { .. } => '#',
        NodeModel::Paragraph(kids) => head(kids.first()),
        NodeModel::CodeBlock { .. } => '`',
        NodeModel::ThematicBreak => '-',
        NodeModel::Link(_) => '[',
        NodeModel::Image(_) => '!',
        NodeModel::List { ordered, start, .. } => if ordered {
            digits(start->Some_0)[0]
        } else {
            '-'
        },
        _ => ' ',
    }
}

/// Whether `next` can follow `node` without being taken for one more item
/// of it: a list goes on with every line that starts like its items.
pub open spec fn apart(node: NodeModel, next: NodeModel) -> bool {
    match node {
        NodeModel::List { ordered, .. } => if ordered {
            !digit(opener(next))
        } else {
            opener(next) != '-'
        },
        _ => true,
    }
}

/// The documents of the faithful subset: every block is faithful, and
/// every block is apart from the one before it.
pub open spec fn faithful(nodes: Seq<NodeModel>) -> bool {
    forall|k: int|
        0 <= k < nodes.len() ==> faithful_block(#[trigger] nodes[k]) && (k + 1 < nodes.len()
            ==> apart(nodes[k], nodes[k + 1]))
}

/// The source of a faithful text-level node starts with its head, which is
/// no line terminator.
pub proof fn lemma_head(node: NodeModel)
    requires
        faithful_line(node),
    ensures
        source(node).len() > 0,
        source(node)[0] == head(node),
        head(node) != '\n',
{
    match node {
        NodeModel::Link(l) => {
            assert(link_source(l)[0] == '[');
        },
        _ => {},
    }
}

/// What must hold at the position `e` after the source of a text-level
/// node for the node to be read back whole.
pub open spec fn closed_at(s: Seq<char>, e: int, node: NodeModel) -> bool {
    match node {
        NodeModel::Text(_) => e == s.len() || special(s[e]) || blank_line_at(s, e),
        NodeModel::Bold(_) => !(e < s.len() && s[e] == '*'),
        NodeModel::Italic(_) => !(e < s.len() && s[e] == '_'),
        _ => true,
    }
}

/// The part of a faithful link up to its target is read back from its
/// source.
pub proof fn lemma_link_head_back(s: Seq<char>, i: int, alt: Seq<char>, url: Seq<char>)
    requires
        0 <= i,
        starts_with(s, i, seq!['['] + alt + seq![']', '('] + url),
        lacks(alt, ']'),
    ensures
        starts_with(s, i, seq!['[']),
        scan_while(s, i + 1, Class::Not(']')) == i + 1 + alt.len(),
        i + 1 + alt.len() < s.len(),
        s.subrange(i + 1, i + 1 + alt.len()) == alt,
        starts_with(s, i + 2 + alt.len(), seq!['(']),
        starts_with(s, i + 3 + alt.len(), url),
{
    let a1 = seq!['['] + alt;
    let a2 = a1 + seq![']', '('];
    lemma_starts_with_parts(s, i, a2, url);
    lemma_starts_with_parts(s, i, a1, seq![']', '(']);
    lemma_starts_with_parts(s, i, seq!['['], alt);
    let bracket = i + 1 + alt.len();
    lemma_starts_with_index(s, bracket, seq![']', '(']);
    assert(s[bracket] == seq![']', '('][0]);
    assert(s[bracket + 1] == seq![']', '('][1]);
    lemma_scan_over(s, i + 1, alt, Class::Not(']'));
    lemma_starts_with_one(s, bracket + 1, '(');
}

/// A faithful link without a title is read back from its source.
pub proof fn lemma_link_plain_back(s: Seq<char>, i: int, l: LinkModel)
    requires
        0 <= i,
        starts_with(s, i, link_source(l)),
        faithful_link(l),
        l.title is None,
    ensures
        link_parts(s, i) == Ok::<(LinkModel, int), ParseErrorModel>(
            (l, i + link_source(l).len()),
        ),
{
    let head = seq!['['] + l.alt + seq![']', '('] + l.url;
    assert(link_source(l) =~= head + seq![')']);
    lemma_starts_with_parts(s, i, head, seq![')']);
    lemma_link_head_back(s, i, l.alt, l.url);
    let from = i + 3 + l.alt.len();
    let stop = from + l.url.len();
    lemma_starts_with_index(s, stop, seq![')']);
    assert(s[stop] == seq![')'][0]);
    lemma_scan_over(s, from, l.url, Class::Target);
    lemma_without_whitespace_same(l.url);
}

/// A faithful link with a title is read back from its source.
pub proof fn lemma_link_titled_back(s: Seq<char>, i: int, l: LinkModel, t: Seq<char>)
    requires
        0 <= i,
        starts_with(s, i, link_source(l)),
        faithful_link(l),
        l.title == Some(t),
    ensures
        link_parts(s, i) == Ok::<(LinkModel, int), ParseErrorModel>(
            (l, i + link_source(l).len()),
        ),
{
    let head = seq!['['] + l.alt + seq![']', '('] + l.url;
    let tail = seq![' ', '"'] + t + seq!['"'] + seq![')'];
    assert(link_source(l) =~= head + tail);
    lemma_starts_with_parts(s, i, head, tail);
    lemma_link_head_back(s, i, l.alt, l.url);
    let from = i + 3 + l.alt.len();
    let url_end = from + l.url.len();
    let stop = url_end + 1;
    let unquote = stop + 1 + t.len();
    lemma_starts_with_parts(s, url_end, seq![' ', '"'] + t + seq!['"'], seq![')']);
    lemma_starts_with_parts(s, url_end, seq![' ', '"'] + t, seq!['"']);
    lemma_starts_with_parts(s, url_end, seq![' ', '"'], t);
    lemma_starts_with_index(s, url_end, seq![' ', '"']);
    assert(s[url_end] == seq![' ', '"'][0]);
    assert(s[stop] == seq![' ', '"'][1]);
    lemma_starts_with_index(s, unquote, seq!['"']);
    assert(s[unquote] == seq!['"'][0]);
    lemma_starts_with_index(s, unquote + 1, seq![')']);
    assert(s[unquote + 1] == seq![')'][0]);
    lemma_starts_with_index(s, from, l.url);
    assert forall|k: int| from <= k < stop implies Class::Target.holds(#[trigger] s[k]) by {
        if k < url_end {
            assert(s[k] == l.url[k - from]);
        }
    }
    lemma_scan_stops(s, from, stop, Class::Target);
    lemma_without_whitespace_same(l.url);
    assert(s.subrange(from, stop).drop_last() =~= l.url);
    assert(s.subrange(from, stop).last() == ' ');
    lemma_scan_over(s, stop + 1, t, Class::Not('"'));
    lemma_scan_stops(s, unquote + 1, unquote + 1, Class::Whitespace);
}

/// A faithful link is read back from its source.
pub proof fn lemma_link_back(s: Seq<char>, i: int, l: LinkModel)
    requires
        0 <= i,
        starts_with(s, i, link_source(l)),
        faithful_link(l),
    ensures
        link_parts(s, i) == Ok::<(LinkModel, int), ParseErrorModel>(
            (l, i + link_source(l).len()),
        ),
{
    match l.title {
        None => lemma_link_plain_back(s, i, l),
        Some(t) => lemma_link_titled_back(s, i, l, t),
    }
}

/// A faithful text-level node is read back from its source, if what
/// follows the source closes it.
pub proof fn lemma_line_node_back(s: Seq<char>, i: int, node: NodeModel)
    requires
        0 <= i,
        starts_with(s, i, source(node)),
        faithful_line(node),
        closed_at(s, i + source(node).len(), node),
    ensures
        line_node(s, i) == Ok::<(NodeModel, int), ParseErrorModel>(
            (node, i + source(node).len()),
        ),
    decreases node, 1int,
{
    let src = source(node);
    let e = i + src.len();
    lemma_head(node);
    lemma_starts_with_index(s, i, src);
    assert(s[i] == src[0]);
    match node {
        NodeModel::Text(t) => {
            assert forall|k: int| i <= k < e implies !special(#[trigger] s[k]) && !blank_line_at(
                s,
                k,
            ) by {
                assert(s[k] == t[k - i]);
            }
            lemma_text_stops(s, i, e);
            assert(s.subrange(i, e) =~= t);
        },
        NodeModel::InlineCode(c) => {
            lemma_starts_with_one(s, i, '`');
            lemma_starts_with_parts(s, i, seq!['`'] + c, seq!['`']);
            lemma_starts_with_parts(s, i, seq!['`'], c);
            lemma_starts_with_index(s, e - 1, seq!['`']);
            assert(s[e - 1] == seq!['`'][0]);
            lemma_scan_over(s, i + 1, c, Class::Not('`'));
        },
        NodeModel::Bold(kids) => {
            let inner = sources(kids);
            assert(src =~= run('*', 2) + (inner + run('*', 2)));
            lemma_starts_with_parts(s, i, run('*', 2), inner + run('*', 2));
            lemma_starts_with_parts(s, i + 2, inner, run('*', 2));
            let close = i + 2 + inner.len();
            lemma_starts_with_two(s, close, '*');
            lemma_scan_stops(s, close, close + 2, Class::Is('*'));
            lemma_children_back(s, i + 2, kids, '*', 2, i);
        },
        NodeModel::Italic(kids) => {
            let inner = sources(kids);
            assert(src =~= seq!['_'] + (inner + seq!['_']));
            lemma_starts_with_parts(s, i, seq!['_'], inner + seq!['_']);
            lemma_starts_with_parts(s, i + 1, inner, seq!['_']);
            let close = i + 1 + inner.len();
            lemma_starts_with_one(s, close, '_');
            lemma_scan_stops(s, close, close + 1, Class::Is('_'));
            lemma_children_back(s, i + 1, kids, '_', 1, i);
        },
        NodeModel::Link(l) => {
            lemma_link_back(s, i, l);
        },
        _ => {},
    }
}

/// The faithful nodes between two delimiters are read back from their
/// sources, up to the closing delimiter that follows them.
pub proof fn lemma_children_back(
    s: Seq<char>,
    i: int,
    kids: Seq<NodeModel>,
    mark: char,
    width: int,
    open: int,
)
    requires
        0 <= i,
        starts_with(s, i, sources(kids)),
        i + sources(kids).len() < s.len(),
        s[i + sources(kids).len()] == mark,
        closes_at(s, i + sources(kids).len(), mark, width),
        mark == '*' || mark == '_',
        faithful_lines(kids, mark),
    ensures
        children(s, i, mark, width, open) == Ok::<(Seq<NodeModel>, int), ParseErrorModel>(
            (kids, i + sources(kids).len()),
        ),
    decreases kids, 0int,
{
    if kids.len() == 0 {
        assert(kids =~= Seq::<NodeModel>::empty());
    } else {
        reveal_with_fuel(faithful_lines, 2);
        let first = kids.first();
        let rest = kids.drop_first();
        let src = source(first);
        lemma_head(first);
        lemma_starts_with_parts(s, i, src, sources(rest));
        lemma_starts_with_index(s, i, src);
        assert(s[i] == src[0]);
        let next = i + src.len();
        if rest.len() > 0 {
            lemma_head(rest.first());
            lemma_starts_with_parts(
                s,
                next,
                source(rest.first()),
                sources(rest.drop_first()),
            );
            lemma_starts_with_index(s, next, source(rest.first()));
            assert(s[next] == source(rest.first())[0]);
            assert(rest.first() == kids[1]);
        } else {
            assert(sources(rest) =~= Seq::<char>::empty());
        }
        lemma_line_node_back(s, i, first);
        lemma_children_back(s, next, rest, mark, width, open);
        assert(seq![first] + rest =~= kids);
    }
}

/// The faithful nodes of a paragraph are read back from their sources, up
/// to the blank line or the end of the input that follows them.
pub proof fn lemma_line_nodes_back(s: Seq<char>, i: int, kids: Seq<NodeModel>)
    requires
        0 <= i,
        starts_with(s, i, sources(kids)),
        i + sources(kids).len() == s.len() || blank_line_at(s, i + sources(kids).len()),
        faithful_lines(kids, '\n'),
    ensures
        line_nodes(s, i) == Ok::<(Seq<NodeModel>, int), ParseErrorModel>(
            (kids, i + sources(kids).len()),
        ),
    decreases kids.len(),
{
    if kids.len() == 0 {
        assert(kids =~= Seq::<NodeModel>::empty());
    } else {
        reveal_with_fuel(faithful_lines, 2);
        let first = kids.first();
        let rest = kids.drop_first();
        let src = source(first);
        lemma_head(first);
        lemma_starts_with_parts(s, i, src, sources(rest));
        lemma_starts_with_index(s, i, src);
        assert(s[i] == src[0]);
        let next = i + src.len();
        if rest.len() > 0 {
            lemma_head(rest.first());
            lemma_starts_with_parts(
                s,
                next,
                source(rest.first()),
                sources(rest.drop_first()),
            );
            lemma_starts_with_index(s, next, source(rest.first()));
            assert(s[next] == source(rest.first())[0]);
            assert(rest.first() == kids[1]);
        } else {
            assert(sources(rest) =~= Seq::<char>::empty());
        }
        lemma_line_node_back(s, i, first);
        lemma_line_nodes_back(s, next, rest);
        assert(seq![first] + rest =~= kids);
    }
}

/// The closing fence behind a fence-free body is found from every line
/// start of the body.
pub proof fn lemma_fence_back(s: Seq<char>, body: int, text: Seq<char>, p: int)
    requires
        0 <= body <= p <= body + text.len(),
        starts_with(s, body, text),
        body + text.len() < s.len(),
        s[body + text.len()] == '\n',
        fence_line_at(s, body + text.len() + 1),
        fence_free(text),
        p == body || s[p - 1] == '\n',
    ensures
        closing_fence(s, p) == Some(body + text.len() + 1),
    decreases body + text.len() - p,
{
    let end = body + text.len();
    lemma_starts_with_index(s, body, text);
    if fence_line_at(s, p) {
        lemma_starts_with_three(s, p, '`', '`', '`');
        assert(fence() =~= seq!['`', '`', '`']);
        if p + 3 <= end {
            let q = p - body;
            assert(text.subrange(q, q + 3) =~= s.subrange(p, p + 3));
            if p + 3 < end {
                assert(s[p + 3] == text[q + 3]);
            }
            if q > 0 {
                assert(s[p - 1] == text[q - 1]);
            }
            assert(fence_line_at(text, q));
            assert(false);
        } else {
            assert(s[end] == '\n');
            assert(false);
        }
    }
    let e = scan_while(s, p, Class::Not('\n'));
    lemma_scan_run(s, p, Class::Not('\n'));
    if e > end {
        assert(Class::Not('\n').holds(s[end]));
    }
    if e < end {
        lemma_fence_back(s, body, text, e + 1);
    } else {
        assert(closing_fence(s, end + 1) == Some(end + 1));
    }
}

/// White space before a position changes nothing in the blocks that are
/// read from there on.
pub proof fn lemma_blocks_skip(s: Seq<char>, a: int, b: int)
    requires
        0 <= a <= b <= s.len(),
        forall|k: int| a <= k < b ==> whitespace(#[trigger] s[k]),
    ensures
        blocks(s, a) == blocks(s, b),
{
    lemma_scan_skip(s, a, b);
    lemma_scan_run(s, b, Class::Whitespace);
}

/// The digits of a number are digits, at least one, and write that number.
pub proof fn lemma_digits(n: nat)
    ensures
        digits(n).len() >= 1,
        forall|k: int| 0 <= k < digits(n).len() ==> digit(#[trigger] digits(n)[k]),
        decimal(digits(n)) == n,
    decreases n,
{
    let last = digit_of(n % 10);
    assert(digit(last) && digit_value(last) == n % 10);
    if n < 10 {
        assert(digits(n).drop_last() =~= Seq::<char>::empty());
        assert(decimal(digits(n).drop_last()) == 0);
    } else {
        lemma_digits(n / 10);
        assert(digits(n).drop_last() =~= digits(n / 10));
    }
}

/// The content of a faithful item is read back from its source, which
/// ends with the line.
pub proof fn lemma_item_back(s: Seq<char>, i: int, kids: Seq<NodeModel>)
    requires
        0 <= i,
        starts_with(s, i, sources(kids)),
        i + sources(kids).len() < s.len(),
        s[i + sources(kids).len()] == '\n',
        faithful_item(NodeModel::Paragraph(kids)),
    ensures
        item_body(s, i) == Ok::<(NodeModel, int), ParseErrorModel>(
            (NodeModel::Paragraph(kids), i + sources(kids).len() + 1),
        ),
{
    let e = i + sources(kids).len();
    lemma_scan_over(s, i, sources(kids), Class::Not('\n'));
    let line = s.take(e);
    assert(line.subrange(i, e) =~= s.subrange(i, e));
    lemma_line_nodes_back(line, i, kids);
}

/// The source of a list's items, at a position, falls into the line of
/// the first item and the source of the other items.
pub proof fn lemma_items_split(s: Seq<char>, i: int, items: Seq<NodeModel>, marker: Seq<char>)
    requires
        0 <= i,
        items.len() > 0,
        items.first() is Paragraph,
        starts_with(s, i, item_sources(items, marker)),
    ensures
        ({
            let line = marker + sources(items.first()->Paragraph_0) + seq!['\n'];
            let others = item_sources(items.drop_first(), marker);
            &&& starts_with(s, i, line)
            &&& starts_with(s, i + line.len(), others)
            &&& item_sources(items, marker).len() == line.len() + others.len()
        }),
{
    let line = marker + sources(items.first()->Paragraph_0) + seq!['\n'];
    let others = item_sources(items.drop_first(), marker);
    assert(item_source(items.first()) == sources(items.first()->Paragraph_0));
    assert(item_sources(items, marker) == line + others);
    lemma_starts_with_parts(s, i, line, others);
}

/// A faithful item of an unordered list is read back from its source.
pub proof fn lemma_bullet_item_back(s: Seq<char>, i: int, kids: Seq<NodeModel>)
    requires
        0 <= i,
        starts_with(s, i, seq!['-', ' '] + sources(kids) + seq!['\n']),
        faithful_item(NodeModel::Paragraph(kids)),
    ensures
        bullet_item(s, i, seq!['-']) == Ok::<(NodeModel, int), ParseErrorModel>(
            (NodeModel::Paragraph(kids), i + 2 + sources(kids).len() + 1),
        ),
        s[i] == '-',
        s[i + 1] == ' ',
{
    let marker = seq!['-', ' '];
    let body = sources(kids);
    lemma_starts_with_parts(s, i, marker + body, seq!['\n']);
    lemma_starts_with_parts(s, i, marker, body);
    lemma_starts_with_index(s, i, marker);
    assert(s[i] == marker[0]);
    assert(s[i + 1] == marker[1]);
    lemma_starts_with_index(s, i + 2 + body.len(), seq!['\n']);
    assert(s[i + 2 + body.len()] == seq!['\n'][0]);
    lemma_starts_with_one(s, i, '-');
    lemma_item_back(s, i + 2, kids);
}

/// The faithful items of an unordered list are read back from their
/// sources, if no further marker follows them.
pub proof fn lemma_bullet_items_back(s: Seq<char>, i: int, items: Seq<NodeModel>)
    requires
        0 <= i,
        starts_with(s, i, item_sources(items, seq!['-', ' '])),
        items.len() > 0,
        forall|k: int| 0 <= k < items.len() ==> faithful_item(#[trigger] items[k]),
        i + item_sources(items, seq!['-', ' ']).len() == s.len() || s[i + item_sources(
            items,
            seq!['-', ' '],
        ).len()] != '-',
    ensures
        bullet_items(s, i, '-') == Ok::<(Seq<NodeModel>, int), ParseErrorModel>(
            (items, i + item_sources(items, seq!['-', ' ']).len()),
        ),
        s[i] == '-',
        s[i + 1] == ' ',
    decreases items.len(),
{
    let marker = seq!['-', ' '];
    let first = items.first();
    let rest = items.drop_first();
    assert(faithful_item(items[0]));
    let kids = first->Paragraph_0;
    let line = marker + sources(kids) + seq!['\n'];
    lemma_items_split(s, i, items, marker);
    lemma_bullet_item_back(s, i, kids);
    let next = i + line.len();
    if rest.len() > 0 {
        assert forall|k: int| 0 <= k < rest.len() implies faithful_item(#[trigger] rest[k]) by {
            assert(rest[k] == items[k + 1]);
        }
        lemma_bullet_items_back(s, next, rest);
        assert(seq![first] + rest =~= items);
    } else {
        assert(item_sources(rest, marker) =~= Seq::<char>::empty());
        assert(seq![first] =~= items);
    }
}

/// The marker of an ordered item is read back as the number it writes.
pub proof fn lemma_number_back(s: Seq<char>, i: int, n: nat)
    requires
        0 <= i,
        starts_with(s, i, digits(n) + seq!['.', ' ']),
        n <= usize::MAX,
    ensures
        number(s, i) == Ok::<(nat, int), ParseErrorModel>((n, i + digits(n).len())),
        starts_with(s, i + digits(n).len(), seq!['.']),
        s[i + digits(n).len() + 1] == ' ',
        digit(s[i]),
{
    let d = digits(n);
    lemma_digits(n);
    lemma_starts_with_parts(s, i, d, seq!['.', ' ']);
    lemma_starts_with_index(s, i + d.len(), seq!['.', ' ']);
    assert(s[i + d.len()] == seq!['.', ' '][0]);
    assert(s[i + d.len() + 1] == seq!['.', ' '][1]);
    lemma_starts_with_one(s, i + d.len(), '.');
    lemma_starts_with_index(s, i, d);
    assert(s[i] == d[0]);
    lemma_scan_over(s, i, d, Class::Digit);
}

/// A faithful item of an ordered list is read back from its source.
pub proof fn lemma_numbered_item_back(s: Seq<char>, i: int, kids: Seq<NodeModel>, n: nat)
    requires
        0 <= i,
        n <= usize::MAX,
        starts_with(s, i, digits(n) + seq!['.', ' '] + sources(kids) + seq!['\n']),
        faithful_item(NodeModel::Paragraph(kids)),
    ensures
        numbered_item(s, i) == Ok::<(NodeModel, int), ParseErrorModel>(
            (
                NodeModel::Paragraph(kids),
                i + (digits(n) + seq!['.', ' ']).len() + sources(kids).len() + 1,
            ),
        ),
        number(s, i) is Ok,
        number(s, i)->Ok_0.0 == n,
        digit(s[i]),
{
    let marker = digits(n) + seq!['.', ' '];
    let body = sources(kids);
    lemma_starts_with_parts(s, i, marker + body, seq!['\n']);
    lemma_starts_with_parts(s, i, marker, body);
    lemma_number_back(s, i, n);
    let from = i + marker.len();
    lemma_starts_with_index(s, from + body.len(), seq!['\n']);
    assert(s[from + body.len()] == seq!['\n'][0]);
    lemma_item_back(s, from, kids);
}

/// The faithful items of an ordered list are read back from their
/// sources, if no further digit follows them.
pub proof fn lemma_numbered_items_back(s: Seq<char>, i: int, items: Seq<NodeModel>, n: nat)
    requires
        0 <= i,
        n <= usize::MAX,
        starts_with(s, i, item_sources(items, digits(n) + seq!['.', ' '])),
        items.len() > 0,
        forall|k: int| 0 <= k < items.len() ==> faithful_item(#[trigger] items[k]),
        i + item_sources(items, digits(n) + seq!['.', ' ']).len() == s.len() || !digit(
            s[i + item_sources(items, digits(n) + seq!['.', ' ']).len()],
        ),
    ensures
        numbered_items(s, i) == Ok::<(Seq<NodeModel>, int), ParseErrorModel>(
            (items, i + item_sources(items, digits(n) + seq!['.', ' ']).len()),
        ),
        number(s, i) is Ok,
        number(s, i)->Ok_0.0 == n,
        digit(s[i]),
    decreases items.len(),
{
    let marker = digits(n) + seq!['.', ' '];
    let first = items.first();
    let rest = items.drop_first();
    assert(faithful_item(items[0]));
    let kids = first->Paragraph_0;
    let line = marker + sources(kids) + seq!['\n'];
    lemma_items_split(s, i, items, marker);
    lemma_numbered_item_back(s, i, kids, n);
    let next = i + line.len();
    if rest.len() > 0 {
        assert forall|k: int| 0 <= k < rest.len() implies faithful_item(#[trigger] rest[k]) by {
            assert(rest[k] == items[k + 1]);
        }
        lemma_numbered_items_back(s, next, rest, n);
        assert(seq![first] + rest =~= items);
    } else {
        assert(item_sources(rest, marker) =~= Seq::<char>::empty());
        assert(seq![first] =~= items);
    }
}

/// What must hold at the position `e` after the source of a block for the
/// block to be read back whole: a list must not go on.
pub open spec fn settled(s: Seq<char>, e: int, node: NodeModel) -> bool {
    match node {
        NodeModel::List { ordered, .. } => e >= s.len() || if ordered {
            !digit(s[e])
        } else {
            s[e] != '-'
        },
        _ => true,
    }
}

/// The source of a faithful block starts with its opener, which is no
/// white space.
pub proof fn lemma_opener(node: NodeModel)
    requires
        faithful_block(node),
    ensures
        source(node).len() > 0,
        source(node)[0] == opener(node),
{
    match node {
        NodeModel::Heading { level, text } => {
            assert(run('#', level as int)[0] == '#');
        },
        NodeModel::Paragraph(kids) => {
            lemma_head(kids.first());
        },
        NodeModel::CodeBlock { .. } => {
            assert(fence()[0] == '`');
        },
        NodeModel::ThematicBreak => {
            assert(run('-', 3)[0] == '-');
        },
        NodeModel::Link(l) => {
            assert(link_source(l)[0] == '[');
        },
        NodeModel::Image(l) => {},
        NodeModel::List { ordered, start, items } => {
            if ordered {
                lemma_digits(start->Some_0);
            }
        },
        _ => {},
    }
}

/// A block is read back at a position from its source there. Of the source,
/// only line terminators at its end may be left behind.
pub open spec fn read_back(s: Seq<char>, i: int, node: NodeModel) -> bool {
    &&& block(s, i) is Ok
    &&& block(s, i)->Ok_0.0 == node
    &&& i < block(s, i)->Ok_0.1 <= i + source(node).len()
    &&& forall|k: int| block(s, i)->Ok_0.1 <= k < i + source(node).len() ==> #[trigger] s[k] == '\n'
    &&& !whitespace(s[i])
}

/// A faithful heading is read back from its source.
pub proof fn lemma_heading_back(s: Seq<char>, i: int, level: nat, text: Seq<char>)
    requires
        0 <= i,
        starts_with(s, i, source(NodeModel::Heading { level, text })),
        faithful_block(NodeModel::Heading { level, text }),
    ensures
        read_back(s, i, NodeModel::Heading { level, text }),
{
    let marks = run('#', level as int);
    lemma_starts_with_parts(s, i, marks + seq![' '] + text, seq!['\n']);
    lemma_starts_with_parts(s, i, marks + seq![' '], text);
    lemma_starts_with_parts(s, i, marks, seq![' ']);
    let sep = i + level;
    let e = sep + 1 + text.len();
    lemma_starts_with_index(s, i, marks);
    assert(s[i] == marks[0]);
    lemma_starts_with_index(s, sep, seq![' ']);
    assert(s[sep] == seq![' '][0]);
    lemma_starts_with_index(s, e, seq!['\n']);
    assert(s[e] == seq!['\n'][0]);
    lemma_scan_over(s, i, marks, Class::Is('#'));
    lemma_scan_over(s, sep + 1, text, Class::Not('\n'));
}

/// A faithful paragraph is read back from its source; the blank line
/// after it is left behind.
pub proof fn lemma_paragraph_back(s: Seq<char>, i: int, kids: Seq<NodeModel>)
    requires
        0 <= i,
        starts_with(s, i, source(NodeModel::Paragraph(kids))),
        faithful_block(NodeModel::Paragraph(kids)),
    ensures
        read_back(s, i, NodeModel::Paragraph(kids)),
{
    let inner = sources(kids);
    let e = i + inner.len();
    lemma_starts_with_parts(s, i, inner, seq!['\n', '\n']);
    lemma_starts_with_index(s, e, seq!['\n', '\n']);
    assert(s[e] == seq!['\n', '\n'][0]);
    assert(s[e + 1] == seq!['\n', '\n'][1]);
    lemma_head(kids.first());
    lemma_starts_with_parts(s, i, source(kids.first()), sources(kids.drop_first()));
    lemma_starts_with_index(s, i, source(kids.first()));
    assert(s[i] == source(kids.first())[0]);
    lemma_line_nodes_back(s, i, kids);
    assert(!rule_at(s, i));
}

/// The opening line of a code block is read back from its source.
pub proof fn lemma_language_line_back(s: Seq<char>, i: int, language: Seq<char>)
    requires
        0 <= i,
        starts_with(s, i, fence() + language + seq!['\n']),
        lacks(language, '\n'),
    ensures
        language_line(s, i) == Ok::<(Seq<char>, int), ParseErrorModel>(
            (language, i + 3 + language.len() + 1),
        ),
        starts_with(s, i, fence()),
        s[i] == '`',
{
    lemma_starts_with_parts(s, i, fence() + language, seq!['\n']);
    lemma_starts_with_parts(s, i, fence(), language);
    let e = i + 3 + language.len();
    lemma_starts_with_index(s, i, fence());
    assert(s[i] == fence()[0]);
    lemma_starts_with_index(s, e, seq!['\n']);
    assert(s[e] == seq!['\n'][0]);
    lemma_scan_over(s, i + 3, language, Class::Not('\n'));
}

/// The body of a faithful code block is read back from its source, up to
/// the closing fence behind it.
pub proof fn lemma_body_back(s: Seq<char>, body: int, text: Seq<char>)
    requires
        0 <= body,
        starts_with(s, body, text + seq!['\n'] + fence() + seq!['\n']),
        fence_free(text),
    ensures
        closing_fence(s, body) == Some(body + text.len() + 1),
        s.subrange(body, body + text.len()) == text,
        body + text.len() + 5 <= s.len(),
        s[body + text.len() + 4] == '\n',
{
    let close = body + text.len() + 1;
    lemma_starts_with_parts(s, body, text + seq!['\n'] + fence(), seq!['\n']);
    lemma_starts_with_parts(s, body, text + seq!['\n'], fence());
    lemma_starts_with_parts(s, body, text, seq!['\n']);
    lemma_starts_with_index(s, close - 1, seq!['\n']);
    assert(s[close - 1] == seq!['\n'][0]);
    lemma_starts_with_index(s, close + 3, seq!['\n']);
    assert(s[close + 3] == seq!['\n'][0]);
    lemma_fence_back(s, body, text, body);
}

/// A faithful code block is read back from its source; the terminator of
/// the closing fence's line is left behind.
pub proof fn lemma_code_block_back(
    s: Seq<char>,
    i: int,
    language: Seq<char>,
    text: Seq<char>,
    meta: Option<Seq<Seq<char>>>,
)
    requires
        0 <= i,
        starts_with(s, i, source(NodeModel::CodeBlock { language, code: text, meta })),
        faithful_block(NodeModel::CodeBlock { language, code: text, meta }),
    ensures
        read_back(s, i, NodeModel::CodeBlock { language, code: text, meta }),
{
    let head = fence() + language + seq!['\n'];
    let tail = text + seq!['\n'] + fence() + seq!['\n'];
    assert(source(NodeModel::CodeBlock { language, code: text, meta }) =~= head + tail);
    lemma_starts_with_parts(s, i, head, tail);
    lemma_language_line_back(s, i, language);
    lemma_body_back(s, i + head.len(), text);
}

/// A thematic break is read back from its source.
pub proof fn lemma_break_back(s: Seq<char>, i: int)
    requires
        0 <= i,
        starts_with(s, i, source(NodeModel::ThematicBreak)),
    ensures
        read_back(s, i, NodeModel::ThematicBreak),
{
    let marks = run('-', 3);
    lemma_starts_with_parts(s, i, marks, seq!['\n']);
    lemma_starts_with_index(s, i, marks);
    assert(s[i] == marks[0]);
    assert(s[i + 1] == marks[1]);
    assert(s[i + 2] == marks[2]);
    lemma_starts_with_index(s, i + 3, seq!['\n']);
    assert(s[i + 3] == seq!['\n'][0]);
    lemma_scan_over(s, i, marks, Class::Is('-'));
}

/// A faithful link at block level is read back from its source.
pub proof fn lemma_link_block_back(s: Seq<char>, i: int, l: LinkModel)
    requires
        0 <= i,
        starts_with(s, i, source(NodeModel::Link(l))),
        faithful_link(l),
    ensures
        read_back(s, i, NodeModel::Link(l)),
{
    lemma_starts_with_index(s, i, link_source(l));
    assert(link_source(l)[0] == '[');
    assert(s[i] == link_source(l)[0]);
    lemma_link_back(s, i, l);
}

/// A faithful image is read back from its source.
pub proof fn lemma_image_back(s: Seq<char>, i: int, l: LinkModel)
    requires
        0 <= i,
        starts_with(s, i, source(NodeModel::Image(l))),
        faithful_link(l),
    ensures
        read_back(s, i, NodeModel::Image(l)),
{
    lemma_starts_with_parts(s, i, seq!['!'], link_source(l));
    lemma_starts_with_index(s, i, seq!['!']);
    assert(s[i] == seq!['!'][0]);
    assert(link_source(l)[0] == '[');
    lemma_starts_with_index(s, i + 1, link_source(l));
    assert(s[i + 1] == link_source(l)[0]);
    assert(s.subrange(i, i + 2) =~= seq!['!', '[']);
    lemma_link_back(s, i + 1, l);
}

/// A faithful unordered list is read back from its source, if no further
/// marker follows it.
pub proof fn lemma_bullet_list_back(s: Seq<char>, i: int, items: Seq<NodeModel>)
    requires
        0 <= i,
        starts_with(s, i, source(NodeModel::List { ordered: false, start: None, items })),
        faithful_block(NodeModel::List { ordered: false, start: None, items }),
        settled(
            s,
            i + source(NodeModel::List { ordered: false, start: None, items }).len(),
            NodeModel::List { ordered: false, start: None, items },
        ),
    ensures
        read_back(s, i, NodeModel::List { ordered: false, start: None, items }),
{
    assert(item_marker(false, None) =~= seq!['-', ' ']);
    lemma_bullet_items_back(s, i, items);
    assert(!rule_at(s, i));
}

/// A faithful ordered list is read back from its source, if no further
/// digit follows it.
pub proof fn lemma_numbered_list_back(s: Seq<char>, i: int, n: nat, items: Seq<NodeModel>)
    requires
        0 <= i,
        starts_with(s, i, source(NodeModel::List { ordered: true, start: Some(n), items })),
        faithful_block(NodeModel::List { ordered: true, start: Some(n), items }),
        settled(
            s,
            i + source(NodeModel::List { ordered: true, start: Some(n), items }).len(),
            NodeModel::List { ordered: true, start: Some(n), items },
        ),
    ensures
        read_back(s, i, NodeModel::List { ordered: true, start: Some(n), items }),
{
    assert(item_marker(true, Some(n)) =~= digits(n) + seq!['.', ' ']);
    lemma_numbered_items_back(s, i, items, n);
    assert(!rule_at(s, i));
}

/// A faithful block is read back from its source, if what follows the
/// source settles it.
pub proof fn lemma_block_back(s: Seq<char>, i: int, node: NodeModel)
    requires
        0 <= i,
        starts_with(s, i, source(node)),
        faithful_block(node),
        settled(s, i + source(node).len(), node),
    ensures
        read_back(s, i, node),
{
    match node {
        NodeModel::Heading { level, text } => lemma_heading_back(s, i, level, text),
        NodeModel::Paragraph(kids) => lemma_paragraph_back(s, i, kids),
        NodeModel::CodeBlock { language, code, meta } => lemma_code_block_back(
            s,
            i,
            language,
            code,
            meta,
        ),
        NodeModel::ThematicBreak => lemma_break_back(s, i),
        NodeModel::Link(l) => lemma_link_block_back(s, i, l),
        NodeModel::Image(l) => lemma_image_back(s, i, l),
        NodeModel::List { ordered, start, items } => {
            if ordered {
                lemma_numbered_list_back(s, i, start->Some_0, items);
            } else {
                lemma_bullet_list_back(s, i, items);
            }
        },
        _ => {},
    }
}

/// The faithful blocks of a document are read back from their sources.
pub proof fn lemma_blocks_back(s: Seq<char>, i: int, nodes: Seq<NodeModel>)
    requires
        0 <= i <= s.len(),
        s.subrange(i, s.len() as int) == sources(nodes),
        faithful(nodes),
    ensures
        blocks(s, i) == Ok::<Seq<NodeModel>, ParseErrorModel>(nodes),
    decreases nodes.len(),
{
    if nodes.len() == 0 {
        assert(nodes =~= Seq::<NodeModel>::empty());
        assert(s.subrange(i, s.len() as int).len() == 0);
    } else {
        let first = nodes.first();
        let rest = nodes.drop_first();
        let src = source(first);
        assert(faithful_block(nodes[0]));
        assert(starts_with(s, i, src + sources(rest)));
        lemma_starts_with_parts(s, i, src, sources(rest));
        let next = i + src.len();
        assert(s.subrange(next, s.len() as int) =~= sources(rest));
        assert forall|k: int| 0 <= k < rest.len() implies faithful_block(#[trigger] rest[k]) && (k
            + 1 < rest.len() ==> apart(rest[k], rest[k + 1])) by {
            assert(rest[k] == nodes[k + 1]);
            if k + 1 < rest.len() {
                assert(rest[k + 1] == nodes[k + 2]);
            }
        }
        if rest.len() > 0 {
            assert(rest.first() == nodes[1]);
            lemma_opener(rest.first());
            lemma_starts_with_parts(s, next, source(rest.first()), sources(rest.drop_first()));
            lemma_starts_with_index(s, next, source(rest.first()));
            assert(s[next] == source(rest.first())[0]);
        } else {
            assert(sources(rest) =~= Seq::<char>::empty());
        }
        lemma_block_back(s, i, first);
        let end = block(s, i)->Ok_0.1;
        lemma_blocks_back(s, next, rest);
        assert forall|k: int| end <= k < next implies whitespace(#[trigger] s[k]) by {
            assert(s[k] == '\n');
        }
        lemma_blocks_skip(s, end, next);
        assert(scan_while(s, i, Class::Whitespace) == i);
        assert(seq![first] + rest =~= nodes);
    }
}

/// Round trip. A document of the faithful subset, written in the source
/// dialect and parsed again, yields the same document.
pub proof fn lemma_round_trip(nodes: Seq<NodeModel>)
    requires
        faithful(nodes),
    ensures
        document(sources(nodes)) == Ok::<Seq<NodeModel>, ParseErrorModel>(nodes),
{
    let s = sources(nodes);
    assert(s.subrange(0, s.len() as int) =~= s);
    lemma_blocks_back(s, 0, nodes);
}

} // verus!

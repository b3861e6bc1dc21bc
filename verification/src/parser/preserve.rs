//! Content preservation: the literal text of a parsed document is its input
//! with nothing but structural scalars taken out.

use crate::ast::{LinkModel, NodeModel};
use crate::parser::facts::{
    lemma_closing_fence, lemma_scan_run, lemma_starts_with_one, lemma_starts_with_three,
    lemma_starts_with_two, lemma_text_end,
};
use crate::parser::grammar::{
    after_line, blank_line_at, block, blockquote, blocks, bullet_item, bullet_items, children,
    closes_at, closing_fence, code, code_block, document, emphasis, fence, heading, image,
    inline_code, item_body, line_node, line_nodes, link, link_parts, list, number, numbered_item,
    numbered_items, numbered_rest, paragraph, quoted, quoted_from, rule_at, run, scan_while,
    starts_with, strong, text, text_end, thematic_break, without_whitespace, Class, Parsed,
};
use crate::text::{digit, letter, whitespace};
use vstd::prelude::*;

verus! {

/// The scalars that markup may take out of the text: white space, digits,
/// and the punctuation of the dialect's delimiters.
pub open spec fn structural(c: char) -> bool {
    whitespace(c) || digit(c) || c == '#' || c == '`' || c == '*' || c == '_' || c == '[' || c
        == ']' || c == '(' || c == ')' || c == '"' || c == '\'' || c == '>' || c == '+' || c == '-'
        || c == '!' || c == '.'
}

/// Whether `t` is `s` with some structural scalars taken out and nothing
/// else changed.
pub open spec fn reduces_to(s: Seq<char>, t: Seq<char>) -> bool
    decreases s.len(),
{
    if s.len() == 0 {
        t.len() == 0
    } else {
        (t.len() > 0 && t[0] == s[0] && reduces_to(s.drop_first(), t.drop_first())) || (structural(
            s[0],
        ) && reduces_to(s.drop_first(), t))
    }
}

/// The literal text of a link or image: what stands between the brackets,
/// the target, and the title.
pub open spec fn link_literal(l: LinkModel) -> Seq<char> {
    l.alt + l.url + match l.title {
        Some(t) => t,
        None => Seq::empty(),
    }
}

/// The literal text that a node carries, in document order.
pub open spec fn literal(node: NodeModel) -> Seq<char>
    decreases node,
{
    match node {
        NodeModel::Text(t) => t,
        NodeModel::CodeBlock { language, code, .. } => language + code,
        NodeModel::Html(h) => h,
        NodeModel::Heading { text, .. } => text,
        NodeModel::Paragraph(kids) => literals(kids),
        NodeModel::List { items, .. } => literals(items),
        NodeModel::Blockquote(kids) => literals(kids),
        NodeModel::Table { header, rows } => header.flatten() + rows.flatten().flatten(),
        NodeModel::ThematicBreak => Seq::empty(),
        NodeModel::SoftBreak => Seq::empty(),
        NodeModel::HardBreak => Seq::empty(),
        NodeModel::Bold(kids) => literals(kids),
        NodeModel::Italic(kids) => literals(kids),
        NodeModel::Link(l) => link_literal(l),
        NodeModel::Image(l) => link_literal(l),
        NodeModel::InlineCode(c) => c,
        NodeModel::ReactComponent { name, props, children } => name + props.flatten() + literals(
            children,
        ),
        NodeModel::VueComponent { name, props, children } => name + props.flatten() + literals(
            children,
        ),
    }
}

/// The literal text of a sequence of nodes, in order.
pub open spec fn literals(nodes: Seq<NodeModel>) -> Seq<char>
    decreases nodes,
{
    if nodes.len() == 0 {
        Seq::empty()
    } else {
        literal(nodes.first()) + literals(nodes.drop_first())
    }
}

/// The literal text of a node in front of others.
pub proof fn lemma_literals_first(node: NodeModel, rest: Seq<NodeModel>)
    ensures
        literals(seq![node] + rest) == literal(node) + literals(rest),
{
    assert((seq![node] + rest).drop_first() =~= rest);
}

/// The literal text of one node alone.
pub proof fn lemma_literals_one(node: NodeModel)
    ensures
        literals(seq![node]) == literal(node),
{
    let rest = seq![node].drop_first();
    assert(rest =~= Seq::<NodeModel>::empty());
    assert(literals(rest) =~= Seq::<char>::empty());
    assert(seq![node].first() == node);
    assert(literal(node) + Seq::<char>::empty() =~= literal(node));
}

/// The literal text of two sequences of nodes in a row.
pub proof fn lemma_literals_concat(a: Seq<NodeModel>, b: Seq<NodeModel>)
    ensures
        literals(a + b) == literals(a) + literals(b),
    decreases a.len(),
{
    if a.len() == 0 {
        assert(a + b =~= b);
        assert(Seq::<char>::empty() + literals(b) =~= literals(b));
    } else {
        assert((a + b).drop_first() =~= a.drop_first() + b);
        lemma_literals_concat(a.drop_first(), b);
        assert(literal(a.first()) + (literals(a.drop_first()) + literals(b)) =~= (literal(
            a.first(),
        ) + literals(a.drop_first())) + literals(b));
    }
}

/// Reductions compose: two texts in a row reduce to their reductions in a
/// row.
pub proof fn lemma_reduces_concat(a: Seq<char>, x: Seq<char>, b: Seq<char>, y: Seq<char>)
    requires
        reduces_to(a, x),
        reduces_to(b, y),
    ensures
        reduces_to(a + b, x + y),
    decreases a.len(),
{
    if a.len() == 0 {
        assert(a + b =~= b);
        assert(x + y =~= y);
    } else {
        assert((a + b).drop_first() =~= a.drop_first() + b);
        if x.len() > 0 && x[0] == a[0] && reduces_to(a.drop_first(), x.drop_first()) {
            lemma_reduces_concat(a.drop_first(), x.drop_first(), b, y);
            assert((x + y).drop_first() =~= x.drop_first() + y);
        } else {
            lemma_reduces_concat(a.drop_first(), x, b, y);
        }
    }
}

/// Every text reduces to itself.
pub proof fn lemma_reduces_same(a: Seq<char>)
    ensures
        reduces_to(a, a),
    decreases a.len(),
{
    if a.len() > 0 {
        lemma_reduces_same(a.drop_first());
    }
}

/// A text of structural scalars reduces to nothing.
pub proof fn lemma_reduces_nothing(a: Seq<char>)
    requires
        forall|k: int| 0 <= k < a.len() ==> structural(#[trigger] a[k]),
    ensures
        reduces_to(a, Seq::empty()),
    decreases a.len(),
{
    if a.len() > 0 {
        assert(structural(a[0]));
        assert forall|k: int| 0 <= k < a.drop_first().len() implies structural(
            #[trigger] a.drop_first()[k],
        ) by {
            assert(a.drop_first()[k] == a[k + 1]);
        }
        lemma_reduces_nothing(a.drop_first());
    }
}

/// A text reduces to what is left of it without its white space.
pub proof fn lemma_reduces_without_whitespace(a: Seq<char>)
    ensures
        reduces_to(a, without_whitespace(a)),
    decreases a.len(),
{
    if a.len() > 0 {
        lemma_reduces_without_whitespace(a.drop_last());
        assert(a =~= a.drop_last() + seq![a.last()]);
        if whitespace(a.last()) {
            lemma_reduces_nothing(seq![a.last()]);
            lemma_reduces_concat(
                a.drop_last(),
                without_whitespace(a.drop_last()),
                seq![a.last()],
                Seq::empty(),
            );
            assert(without_whitespace(a.drop_last()) + Seq::<char>::empty() =~= without_whitespace(
                a,
            ));
        } else {
            lemma_reduces_same(seq![a.last()]);
            lemma_reduces_concat(
                a.drop_last(),
                without_whitespace(a.drop_last()),
                seq![a.last()],
                seq![a.last()],
            );
            assert(without_whitespace(a.drop_last()) + seq![a.last()] =~= without_whitespace(a));
        }
    }
}

/// A part of the input that reduces to `x`, followed by a part of
/// structural scalars, reduces to `x`.
pub proof fn lemma_reduces_then_nothing(s: Seq<char>, i: int, j: int, k: int, x: Seq<char>)
    requires
        0 <= i <= j <= k <= s.len(),
        reduces_to(s.subrange(i, j), x),
        forall|m: int| j <= m < k ==> structural(#[trigger] s[m]),
    ensures
        reduces_to(s.subrange(i, k), x),
{
    lemma_reduces_nothing(s.subrange(j, k));
    lemma_reduces_concat(s.subrange(i, j), x, s.subrange(j, k), Seq::empty());
    assert(s.subrange(i, j) + s.subrange(j, k) =~= s.subrange(i, k));
    assert(x + Seq::<char>::empty() =~= x);
}

/// A part of structural scalars, followed by a part of the input that
/// reduces to `x`, reduces to `x`.
pub proof fn lemma_reduces_nothing_then(s: Seq<char>, i: int, j: int, k: int, x: Seq<char>)
    requires
        0 <= i <= j <= k <= s.len(),
        forall|m: int| i <= m < j ==> structural(#[trigger] s[m]),
        reduces_to(s.subrange(j, k), x),
    ensures
        reduces_to(s.subrange(i, k), x),
{
    lemma_reduces_nothing(s.subrange(i, j));
    lemma_reduces_concat(s.subrange(i, j), Seq::empty(), s.subrange(j, k), x);
    assert(s.subrange(i, j) + s.subrange(j, k) =~= s.subrange(i, k));
    assert(Seq::<char>::empty() + x =~= x);
}

/// Two parts of the input in a row reduce to their reductions in a row.
pub proof fn lemma_reduces_parts(s: Seq<char>, i: int, j: int, k: int, x: Seq<char>, y: Seq<char>)
    requires
        0 <= i <= j <= k <= s.len(),
        reduces_to(s.subrange(i, j), x),
        reduces_to(s.subrange(j, k), y),
    ensures
        reduces_to(s.subrange(i, k), x + y),
{
    lemma_reduces_concat(s.subrange(i, j), x, s.subrange(j, k), y);
    assert(s.subrange(i, j) + s.subrange(j, k) =~= s.subrange(i, k));
}

/// A part of the input reduces to itself.
pub proof fn lemma_reduces_span(s: Seq<char>, i: int, j: int)
    requires
        0 <= i <= j <= s.len(),
    ensures
        reduces_to(s.subrange(i, j), s.subrange(i, j)),
{
    lemma_reduces_same(s.subrange(i, j));
}

/// What a production that yields a node says of the input it passed: the
/// node ends inside the input, and its literal text is the passed part with
/// only structural scalars taken out.
pub open spec fn preserves(s: Seq<char>, i: int, r: Parsed<NodeModel>) -> bool {
    match r {
        Ok((node, end)) => i <= end <= s.len() && reduces_to(s.subrange(i, end), literal(node)),
        Err(_) => true,
    }
}

/// As [`preserves`], for a production that yields a sequence of nodes.
pub open spec fn preserve_all(s: Seq<char>, i: int, r: Parsed<Seq<NodeModel>>) -> bool {
    match r {
        Ok((nodes, end)) => i <= end <= s.len() && reduces_to(s.subrange(i, end), literals(nodes)),
        Err(_) => true,
    }
}

/// Literal text is kept whole.
pub proof fn lemma_preserves_text(s: Seq<char>, i: int)
    requires
        0 <= i <= s.len(),
    ensures
        preserves(s, i, text(s, i)),
{
    lemma_text_end(s, i);
    lemma_reduces_span(s, i, text_end(s, i));
}

/// A code span loses its two backticks.
pub proof fn lemma_preserves_inline_code(s: Seq<char>, i: int)
    requires
        0 <= i <= s.len(),
    ensures
        preserves(s, i, inline_code(s, i)),
        inline_code(s, i) is Ok ==> i < inline_code(s, i)->Ok_0.1,
{
    lemma_starts_with_one(s, i, '`');
    if starts_with(s, i, seq!['`']) {
        let close = scan_while(s, i + 1, Class::Not('`'));
        lemma_scan_run(s, i + 1, Class::Not('`'));
        if close < s.len() {
            lemma_reduces_span(s, i + 1, close);
            lemma_reduces_nothing_then(s, i, i + 1, close, s.subrange(i + 1, close));
            lemma_reduces_then_nothing(s, i, close, close + 1, s.subrange(i + 1, close));
        }
    }
}

/// A link or image loses its brackets, parentheses and quotes, and the
/// white space in and after its target.
pub proof fn lemma_preserves_link_parts(s: Seq<char>, i: int)
    requires
        0 <= i <= s.len(),
    ensures
        match link_parts(s, i) {
            Ok((parts, end)) => i < end <= s.len() && reduces_to(
                s.subrange(i, end),
                link_literal(parts),
            ),
            Err(_) => true,
        },
{
    lemma_starts_with_one(s, i, '[');
    if starts_with(s, i, seq!['[']) {
        let bracket = scan_while(s, i + 1, Class::Not(']'));
        lemma_scan_run(s, i + 1, Class::Not(']'));
        if bracket < s.len() {
            let alt = s.subrange(i + 1, bracket);
            let paren = bracket + 1;
            lemma_starts_with_one(s, paren, '(');
            if starts_with(s, paren, seq!['(']) {
                let stop = scan_while(s, paren + 1, Class::Target);
                lemma_scan_run(s, paren + 1, Class::Target);
                if stop < s.len() {
                    let url = without_whitespace(s.subrange(paren + 1, stop));
                    // "[" alt "](" url
                    lemma_reduces_span(s, i + 1, bracket);
                    lemma_reduces_nothing_then(s, i, i + 1, bracket, alt);
                    lemma_reduces_then_nothing(s, i, bracket, paren + 1, alt);
                    lemma_reduces_without_whitespace(s.subrange(paren + 1, stop));
                    lemma_reduces_parts(s, i, paren + 1, stop, alt, url);
                    if s[stop] == ')' {
                        lemma_reduces_then_nothing(s, i, stop, stop + 1, alt + url);
                        assert(alt + url + Seq::<char>::empty() =~= alt + url);
                    } else {
                        let unquote = scan_while(s, stop + 1, Class::Not(s[stop]));
                        lemma_scan_run(s, stop + 1, Class::Not(s[stop]));
                        if unquote < s.len() {
                            let title = s.subrange(stop + 1, unquote);
                            let close = scan_while(s, unquote + 1, Class::Whitespace);
                            lemma_scan_run(s, unquote + 1, Class::Whitespace);
                            if close < s.len() && s[close] == ')' {
                                lemma_reduces_then_nothing(s, i, stop, stop + 1, alt + url);
                                lemma_reduces_span(s, stop + 1, unquote);
                                lemma_reduces_parts(s, i, stop + 1, unquote, alt + url, title);
                                lemma_reduces_then_nothing(
                                    s,
                                    i,
                                    unquote,
                                    close + 1,
                                    alt + url + title,
                                );
                            }
                        }
                    }
                }
            }
        }
    }
}

/// A link keeps its literal text.
pub proof fn lemma_preserves_link(s: Seq<char>, i: int)
    requires
        0 <= i <= s.len(),
    ensures
        preserves(s, i, link(s, i)),
        link(s, i) is Ok ==> i < link(s, i)->Ok_0.1,
{
    lemma_preserves_link_parts(s, i);
}

/// An image keeps its literal text.
pub proof fn lemma_preserves_image(s: Seq<char>, i: int)
    requires
        0 <= i <= s.len(),
    ensures
        preserves(s, i, image(s, i)),
        image(s, i) is Ok ==> i < image(s, i)->Ok_0.1,
{
    if starts_with(s, i, seq!['!', '[']) {
        assert(s.subrange(i, i + 2)[0] == s[i]);
        lemma_preserves_link_parts(s, i + 1);
        match link_parts(s, i + 1) {
            Ok((parts, end)) => {
                lemma_reduces_nothing_then(s, i, i + 1, end, link_literal(parts));
            },
            Err(_) => {},
        }
    }
}

/// Every text-level node keeps its literal text.
pub proof fn lemma_preserves_line_node(s: Seq<char>, i: int)
    requires
        0 <= i <= s.len(),
    ensures
        preserves(s, i, line_node(s, i)),
        line_node(s, i) is Ok && i < s.len() && !blank_line_at(s, i) ==> i < line_node(
            s,
            i,
        )->Ok_0.1,
    decreases s.len() - i, 2int,
{
    if 0 <= i < s.len() {
        if s[i] == '`' {
            lemma_preserves_inline_code(s, i);
        } else if s[i] == '*' {
            if starts_with(s, i, run('*', 2)) {
                lemma_preserves_strong(s, i);
            } else {
                lemma_preserves_emphasis(s, i);
            }
        } else if s[i] == '_' {
            lemma_preserves_emphasis(s, i);
        } else if s[i] == '[' {
            lemma_preserves_link(s, i);
        } else {
            lemma_preserves_text(s, i);
            lemma_text_end(s, i);
        }
    }
}

/// Strong text loses its two delimiter runs.
pub proof fn lemma_preserves_strong(s: Seq<char>, i: int)
    requires
        0 <= i <= s.len(),
    ensures
        preserves(s, i, strong(s, i)),
        strong(s, i) is Ok ==> i < strong(s, i)->Ok_0.1,
    decreases s.len() - i, 1int,
{
    lemma_starts_with_two(s, i, '*');
    if starts_with(s, i, run('*', 2)) {
        lemma_preserves_children(s, i + 2, '*', 2, i);
        match children(s, i + 2, '*', 2, i) {
            Err(_) => {},
            Ok((kids, close)) => {
                lemma_scan_run(s, close, Class::Is('*'));
                lemma_reduces_nothing_then(s, i, i + 2, close, literals(kids));
                lemma_reduces_then_nothing(s, i, close, close + 2, literals(kids));
            },
        }
    }
}

/// Emphasised text loses its two marks.
pub proof fn lemma_preserves_emphasis(s: Seq<char>, i: int)
    requires
        0 <= i <= s.len(),
    ensures
        preserves(s, i, emphasis(s, i)),
        emphasis(s, i) is Ok ==> i < emphasis(s, i)->Ok_0.1,
    decreases s.len() - i, 1int,
{
    if 0 <= i < s.len() && (s[i] == '*' || s[i] == '_') {
        lemma_preserves_children(s, i + 1, s[i], 1, i);
        match children(s, i + 1, s[i], 1, i) {
            Err(_) => {},
            Ok((kids, close)) => {
                lemma_scan_run(s, close, Class::Is(s[i]));
                lemma_reduces_nothing_then(s, i, i + 1, close, literals(kids));
                lemma_reduces_then_nothing(s, i, close, close + 1, literals(kids));
            },
        }
    }
}

/// The nodes between two delimiters keep their literal text, and end at a
/// closing delimiter.
pub proof fn lemma_preserves_children(s: Seq<char>, i: int, mark: char, width: int, open: int)
    requires
        0 <= i <= s.len(),
    ensures
        preserve_all(s, i, children(s, i, mark, width, open)),
        children(s, i, mark, width, open) is Ok ==> closes_at(
            s,
            children(s, i, mark, width, open)->Ok_0.1,
            mark,
            width,
        ),
    decreases s.len() - i, 3int,
{
    if 0 <= i < s.len() && !blank_line_at(s, i) {
        if s[i] == mark && closes_at(s, i, mark, width) {
            assert(s.subrange(i, i) =~= Seq::<char>::empty());
            assert(literals(Seq::<NodeModel>::empty()) =~= Seq::<char>::empty());
        } else {
            lemma_preserves_line_node(s, i);
            match line_node(s, i) {
                Err(_) => {},
                Ok((node, next)) => {
                    if i < next <= s.len() {
                        lemma_preserves_children(s, next, mark, width, open);
                        match children(s, next, mark, width, open) {
                            Err(_) => {},
                            Ok((rest, close)) => {
                                lemma_literals_first(node, rest);
                                lemma_reduces_parts(
                                    s,
                                    i,
                                    next,
                                    close,
                                    literal(node),
                                    literals(rest),
                                );
                            },
                        }
                    }
                },
            }
        }
    }
}

/// The nodes of a line or paragraph keep their literal text, and end at a
/// blank line or at the end of the input.
pub proof fn lemma_preserves_line_nodes(s: Seq<char>, i: int)
    requires
        0 <= i <= s.len(),
    ensures
        preserve_all(s, i, line_nodes(s, i)),
        match line_nodes(s, i) {
            Ok((_, end)) => end == s.len() || blank_line_at(s, end),
            Err(_) => true,
        },
        line_nodes(s, i) is Ok && i < s.len() && !blank_line_at(s, i) ==> i < line_nodes(
            s,
            i,
        )->Ok_0.1,
    decreases s.len() - i,
{
    if 0 <= i < s.len() && !blank_line_at(s, i) {
        lemma_preserves_line_node(s, i);
        match line_node(s, i) {
            Err(_) => {},
            Ok((node, next)) => {
                if i < next <= s.len() {
                    lemma_preserves_line_nodes(s, next);
                    match line_nodes(s, next) {
                        Err(_) => {},
                        Ok((rest, end)) => {
                            lemma_literals_first(node, rest);
                            lemma_reduces_parts(s, i, next, end, literal(node), literals(rest));
                        },
                    }
                }
            },
        }
    } else {
        assert(s.subrange(i, i) =~= Seq::<char>::empty());
        assert(literals(Seq::<NodeModel>::empty()) =~= Seq::<char>::empty());
    }
}

/// A heading loses its markers, the separator and the line terminator.
pub proof fn lemma_preserves_heading(s: Seq<char>, i: int)
    requires
        0 <= i <= s.len(),
    ensures
        preserves(s, i, heading(s, i)),
        heading(s, i) is Ok ==> i < heading(s, i)->Ok_0.1,
{
    let marks = scan_while(s, i, Class::Is('#'));
    lemma_scan_run(s, i, Class::Is('#'));
    if marks != i && marks < s.len() && whitespace(s[marks]) {
        let e = scan_while(s, marks + 1, Class::Not('\n'));
        lemma_scan_run(s, marks + 1, Class::Not('\n'));
        let body = s.subrange(marks + 1, e);
        lemma_reduces_span(s, marks + 1, e);
        lemma_reduces_nothing_then(s, i, marks + 1, e, body);
        lemma_reduces_then_nothing(s, i, e, after_line(s, e), body);
    }
}

/// A fenced code block loses its fences and the terminators of the opening
/// line and of the last line of its body.
pub proof fn lemma_preserves_code_block(s: Seq<char>, i: int)
    requires
        0 <= i <= s.len(),
    ensures
        preserves(s, i, code_block(s, i)),
        code_block(s, i) is Ok ==> i < code_block(s, i)->Ok_0.1,
{
    lemma_starts_with_three(s, i, '`', '`', '`');
    assert(fence() =~= seq!['`', '`', '`']);
    if starts_with(s, i, fence()) {
        let e = scan_while(s, i + 3, Class::Not('\n'));
        lemma_scan_run(s, i + 3, Class::Not('\n'));
        if e < s.len() {
            let language = s.subrange(i + 3, e);
            let body = e + 1;
            lemma_closing_fence(s, body);
            match closing_fence(s, body) {
                None => {},
                Some(close) => {
                    lemma_starts_with_three(s, close, '`', '`', '`');
                    lemma_reduces_span(s, i + 3, e);
                    lemma_reduces_nothing_then(s, i, i + 3, e, language);
                    lemma_reduces_then_nothing(s, i, e, body, language);
                    if close == body {
                        lemma_reduces_then_nothing(s, i, body, close + 3, language);
                        assert(language + Seq::<char>::empty() =~= language);
                    } else {
                        let text = s.subrange(body, close - 1);
                        lemma_reduces_span(s, body, close - 1);
                        lemma_reduces_parts(s, i, body, close - 1, language, text);
                        lemma_reduces_then_nothing(s, i, close - 1, close + 3, language + text);
                    }
                },
            }
        }
    }
}

/// A code construct at block level keeps its literal text.
pub proof fn lemma_preserves_code(s: Seq<char>, i: int)
    requires
        0 <= i <= s.len(),
    ensures
        preserves(s, i, code(s, i)),
        code(s, i) is Ok ==> i < code(s, i)->Ok_0.1,
{
    lemma_preserves_code_block(s, i);
    lemma_preserves_inline_code(s, i);
}

/// A paragraph keeps the literal text of its nodes.
pub proof fn lemma_preserves_paragraph(s: Seq<char>, i: int)
    requires
        0 <= i <= s.len(),
    ensures
        preserves(s, i, paragraph(s, i)),
        paragraph(s, i) is Ok && i < s.len() && !blank_line_at(s, i) ==> i < paragraph(
            s,
            i,
        )->Ok_0.1,
{
    lemma_preserves_line_nodes(s, i);
}

/// A thematic break carries no text.
pub proof fn lemma_preserves_thematic_break(s: Seq<char>, i: int)
    requires
        0 <= i <= s.len(),
    ensures
        preserves(s, i, thematic_break(s, i)),
        thematic_break(s, i) is Ok ==> i < thematic_break(s, i)->Ok_0.1,
{
    if rule_at(s, i) {
        let e = scan_while(s, i, Class::Is(s[i]));
        lemma_scan_run(s, i, Class::Is(s[i]));
        if !(e < s.len() && s[e] != '\n') {
            assert(s.subrange(i, i) =~= Seq::<char>::empty());
            lemma_reduces_same(s.subrange(i, i));
            lemma_reduces_then_nothing(s, i, i, after_line(s, e), Seq::empty());
        }
    }
}

/// The content of a list item keeps its literal text and loses the line
/// terminator.
pub proof fn lemma_preserves_item_body(s: Seq<char>, i: int)
    requires
        0 <= i <= s.len(),
    ensures
        preserves(s, i, item_body(s, i)),
{
    let e = scan_while(s, i, Class::Not('\n'));
    lemma_scan_run(s, i, Class::Not('\n'));
    let line = s.take(e);
    lemma_preserves_line_nodes(line, i);
    match line_nodes(line, i) {
        Err(_) => {},
        Ok((kids, end)) => {
            if end < e {
                assert(line[end] == s[end]);
                assert(Class::Not('\n').holds(s[end]));
            }
            assert(line.subrange(i, end) =~= s.subrange(i, e));
            lemma_reduces_then_nothing(s, i, e, after_line(s, e), literals(kids));
        },
    }
}

/// An item of an unordered list loses its marker and the separator.
pub proof fn lemma_preserves_bullet_item(s: Seq<char>, i: int, bullet: char)
    requires
        0 <= i <= s.len(),
        structural(bullet),
    ensures
        preserves(s, i, bullet_item(s, i, seq![bullet])),
        bullet_item(s, i, seq![bullet]) is Ok ==> i < bullet_item(s, i, seq![bullet])->Ok_0.1,
{
    lemma_starts_with_one(s, i, bullet);
    if starts_with(s, i, seq![bullet]) {
        let sep = i + 1;
        if sep < s.len() && whitespace(s[sep]) {
            lemma_preserves_item_body(s, sep + 1);
            match item_body(s, sep + 1) {
                Err(_) => {},
                Ok((item, end)) => {
                    lemma_reduces_nothing_then(s, i, sep + 1, end, literal(item));
                },
            }
        }
    }
}

/// The items of an unordered list keep their literal text.
pub proof fn lemma_preserves_bullet_items(s: Seq<char>, i: int, bullet: char)
    requires
        0 <= i <= s.len(),
        structural(bullet),
    ensures
        preserve_all(s, i, bullet_items(s, i, bullet)),
        bullet_items(s, i, bullet) is Ok ==> i < bullet_items(s, i, bullet)->Ok_0.1,
    decreases s.len() - i,
{
    lemma_preserves_bullet_item(s, i, bullet);
    match bullet_item(s, i, seq![bullet]) {
        Err(_) => {},
        Ok((item, next)) => {
            if i < next < s.len() && s[next] == bullet {
                lemma_preserves_bullet_items(s, next, bullet);
                match bullet_items(s, next, bullet) {
                    Err(_) => {},
                    Ok((rest, end)) => {
                        lemma_literals_first(item, rest);
                        lemma_reduces_parts(s, i, next, end, literal(item), literals(rest));
                    },
                }
            } else {
                lemma_literals_one(item);
            }
        },
    }
}

/// What follows the number of an ordered item loses `.` and the
/// separator.
pub proof fn lemma_preserves_numbered_rest(s: Seq<char>, dot: int)
    requires
        0 <= dot <= s.len(),
    ensures
        preserves(s, dot, numbered_rest(s, dot)),
{
    lemma_starts_with_one(s, dot, '.');
    if starts_with(s, dot, seq!['.']) && dot + 1 < s.len() && whitespace(s[dot + 1]) {
        lemma_preserves_item_body(s, dot + 2);
        match item_body(s, dot + 2) {
            Err(_) => {},
            Ok((item, end)) => {
                lemma_reduces_nothing_then(s, dot, dot + 2, end, literal(item));
            },
        }
    }
}

/// An item of an ordered list loses its number.
pub proof fn lemma_preserves_numbered_item(s: Seq<char>, i: int)
    requires
        0 <= i <= s.len(),
    ensures
        preserves(s, i, numbered_item(s, i)),
        numbered_item(s, i) is Ok ==> i < numbered_item(s, i)->Ok_0.1,
{
    lemma_scan_run(s, i, Class::Digit);
    match number(s, i) {
        Err(_) => {},
        Ok((_, dot)) => {
            lemma_preserves_numbered_rest(s, dot);
            match numbered_rest(s, dot) {
                Err(_) => {},
                Ok((item, end)) => {
                    lemma_reduces_nothing_then(s, i, dot, end, literal(item));
                },
            }
        },
    }
}

/// The items of an ordered list keep their literal text.
pub proof fn lemma_preserves_numbered_items(s: Seq<char>, i: int)
    requires
        0 <= i <= s.len(),
    ensures
        preserve_all(s, i, numbered_items(s, i)),
        numbered_items(s, i) is Ok ==> i < numbered_items(s, i)->Ok_0.1,
    decreases s.len() - i,
{
    lemma_preserves_numbered_item(s, i);
    match numbered_item(s, i) {
        Err(_) => {},
        Ok((item, next)) => {
            if i < next < s.len() && digit(s[next]) {
                lemma_preserves_numbered_items(s, next);
                match numbered_items(s, next) {
                    Err(_) => {},
                    Ok((rest, end)) => {
                        lemma_literals_first(item, rest);
                        lemma_reduces_parts(s, i, next, end, literal(item), literals(rest));
                    },
                }
            } else {
                lemma_literals_one(item);
            }
        },
    }
}

/// A list keeps the literal text of its items.
pub proof fn lemma_preserves_list(s: Seq<char>, i: int)
    requires
        0 <= i <= s.len(),
    ensures
        preserves(s, i, list(s, i)),
        list(s, i) is Ok ==> i < list(s, i)->Ok_0.1,
{
    if 0 <= i < s.len() {
        if s[i] == '+' || s[i] == '-' || s[i] == '*' || s[i] == '_' {
            lemma_preserves_bullet_items(s, i, s[i]);
        } else if digit(s[i]) {
            lemma_preserves_numbered_items(s, i);
        }
    }
}

/// Quoted lines lose their markers, the space after each, and their line
/// terminators.
pub proof fn lemma_preserves_quoted(s: Seq<char>, i: int)
    requires
        0 <= i <= s.len(),
    ensures
        preserve_all(s, i, quoted(s, i)),
        quoted(s, i) is Ok ==> i < quoted(s, i)->Ok_0.1,
    decreases s.len() - i, 0int,
{
    lemma_starts_with_one(s, i, '>');
    if starts_with(s, i, seq!['>']) {
        let from = quoted_from(s, i);
        let e = scan_while(s, from, Class::Not('\n'));
        lemma_scan_run(s, from, Class::Not('\n'));
        let line = s.take(e);
        lemma_preserves_blocks(line, from);
        match blocks(line, from) {
            Err(_) => {},
            Ok(kids) => {
                assert(line.subrange(from, line.len() as int) =~= s.subrange(from, e));
                let next = after_line(s, e);
                lemma_reduces_nothing_then(s, i, from, e, literals(kids));
                lemma_reduces_then_nothing(s, i, e, next, literals(kids));
                if next < s.len() && s[next] == '>' {
                    lemma_preserves_quoted(s, next);
                    match quoted(s, next) {
                        Err(_) => {},
                        Ok((rest, end)) => {
                            lemma_literals_concat(kids, rest);
                            lemma_reduces_parts(s, i, next, end, literals(kids), literals(rest));
                        },
                    }
                }
            },
        }
    }
}

/// A block quote keeps the literal text of its blocks.
pub proof fn lemma_preserves_blockquote(s: Seq<char>, i: int)
    requires
        0 <= i <= s.len(),
    ensures
        preserves(s, i, blockquote(s, i)),
        blockquote(s, i) is Ok ==> i < blockquote(s, i)->Ok_0.1,
    decreases s.len() - i, 1int,
{
    lemma_preserves_quoted(s, i);
}

/// Every block keeps its literal text, and ends after its start.
pub proof fn lemma_preserves_block(s: Seq<char>, i: int)
    requires
        0 <= i <= s.len(),
    ensures
        preserves(s, i, block(s, i)),
        block(s, i) is Ok ==> i < block(s, i)->Ok_0.1,
    decreases s.len() - i, 2int,
{
    if 0 <= i < s.len() {
        if s[i] == '#' {
            lemma_preserves_heading(s, i);
        } else if s[i] == '`' {
            lemma_preserves_code(s, i);
        } else if s[i] == '>' {
            lemma_preserves_blockquote(s, i);
        } else if s[i] == '!' {
            lemma_preserves_image(s, i);
        } else if s[i] == '[' {
            lemma_preserves_link(s, i);
        } else if letter(s[i]) {
            lemma_preserves_paragraph(s, i);
        } else if rule_at(s, i) {
            lemma_preserves_thematic_break(s, i);
        } else if digit(s[i]) || s[i] == '*' || s[i] == '_' || s[i] == '+' || s[i] == '-' {
            lemma_preserves_list(s, i);
        }
    }
}

/// The blocks of an input keep its literal text; what is lost between them
/// is white space.
pub proof fn lemma_preserves_blocks(s: Seq<char>, i: int)
    requires
        0 <= i <= s.len(),
    ensures
        match blocks(s, i) {
            Ok(nodes) => reduces_to(s.subrange(i, s.len() as int), literals(nodes)),
            Err(_) => true,
        },
    decreases s.len() - i, 3int,
{
    let start = scan_while(s, i, Class::Whitespace);
    lemma_scan_run(s, i, Class::Whitespace);
    let len = s.len() as int;
    if start < s.len() {
        lemma_preserves_block(s, start);
        match block(s, start) {
            Err(_) => {},
            Ok((node, next)) => {
                if start < next <= s.len() {
                    lemma_preserves_blocks(s, next);
                    match blocks(s, next) {
                        Err(_) => {},
                        Ok(rest) => {
                            lemma_literals_first(node, rest);
                            lemma_reduces_parts(s, start, next, len, literal(node), literals(rest));
                            lemma_reduces_nothing_then(
                                s,
                                i,
                                start,
                                len,
                                literal(node) + literals(rest),
                            );
                        },
                    }
                }
            },
        }
    } else {
        assert(literals(Seq::<NodeModel>::empty()) =~= Seq::<char>::empty());
        lemma_reduces_nothing(s.subrange(i, len));
    }
}

/// Content preservation. Whenever an input parses, the literal text of its
/// document, read in document order, is the input with nothing but
/// structural scalars taken out: every other scalar of the input is in the
/// text, in its place, and the text holds nothing that the input does not.
pub proof fn lemma_content_preserved(input: Seq<char>)
    requires
        document(input) is Ok,
    ensures
        reduces_to(input, literals(document(input)->Ok_0)),
{
    lemma_preserves_blocks(input, 0);
    assert(input.subrange(0, input.len() as int) =~= input);
}

} // verus!

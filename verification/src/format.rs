//! Writing a document tree as text: back in the source dialect, and as the
//! short display text of a single node.
//!
//! Every node kind is written: kinds that the dialect has a syntax for in
//! that syntax, raw markup as it is, line breaks as line terminators, and
//! tables and embedded components, for which the dialect has no syntax, as
//! nothing.

use crate::ast::{models, Ast, Link, LinkModel, Node, NodeModel, Root};
use crate::parser::grammar::{fence, run};
use crate::text::{decimal_digits, digits};
use vstd::prelude::*;
use vstd::string::StringExecFns;

verus! {

/// The source of a link: `[alt](url)`, or `[alt](url "title")`.
pub open spec fn link_source(l: LinkModel) -> Seq<char> {
    seq!['['] + l.alt + seq![']', '('] + l.url + match l.title {
        Some(t) => seq![' ', '"'] + t + seq!['"'],
        None => Seq::empty(),
    } + seq![')']
}

/// The marker of an item of a list: `- `, or the list's number, `.` and a
/// space.
pub open spec fn item_marker(ordered: bool, start: Option<nat>) -> Seq<char> {
    if ordered {
        digits(
            match start {
                Some(n) => n,
                None => 1,
            },
        ) + seq!['.', ' ']
    } else {
        seq!['-', ' ']
    }
}

/// The source of a node.
pub open spec fn source(node: NodeModel) -> Seq<char>
    decreases node, 0int,
{
    match node {
        NodeModel::Text(t) => t,
        NodeModel::CodeBlock { language, code, .. } => fence() + language + seq!['\n'] + code
            + seq!['\n'] + fence() + seq!['\n'],
        NodeModel::Html(h) => h,
        NodeModel::Heading { level, text } => run('#', level as int) + seq![' '] + text
            + seq!['\n'],
        NodeModel::Paragraph(kids) => sources(kids) + seq!['\n', '\n'],
        NodeModel::List { ordered, start, items } => item_sources(
            items,
            item_marker(ordered, start),
        ),
        NodeModel::Blockquote(kids) => quoted_sources(kids),
        NodeModel::Table { .. } => Seq::empty(),
        NodeModel::ThematicBreak => run('-', 3) + seq!['\n'],
        NodeModel::SoftBreak => seq!['\n'],
        NodeModel::HardBreak => seq!['\n'],
        NodeModel::Bold(kids) => run('*', 2) + sources(kids) + run('*', 2),
        NodeModel::Italic(kids) => seq!['_'] + sources(kids) + seq!['_'],
        NodeModel::Link(l) => link_source(l),
        NodeModel::Image(l) => seq!['!'] + link_source(l),
        NodeModel::InlineCode(c) => seq!['`'] + c + seq!['`'],
        NodeModel::ReactComponent { .. } => Seq::empty(),
        NodeModel::VueComponent { .. } => Seq::empty(),
    }
}

/// The sources of a sequence of nodes, one after the other.
pub open spec fn sources(nodes: Seq<NodeModel>) -> Seq<char>
    decreases nodes, 0int,
{
    if nodes.len() == 0 {
        Seq::empty()
    } else {
        source(nodes.first()) + sources(nodes.drop_first())
    }
}

/// The source of the content of a list item: of a paragraph its nodes, of
/// another node that node.
pub open spec fn item_source(item: NodeModel) -> Seq<char>
    decreases item, 1int,
{
    match item {
        NodeModel::Paragraph(kids) => sources(kids),
        _ => source(item),
    }
}

/// The sources of the items of a list: each on a line of its own, behind
/// the marker.
pub open spec fn item_sources(items: Seq<NodeModel>, marker: Seq<char>) -> Seq<char>
    decreases items, 0int,
{
    if items.len() == 0 {
        Seq::empty()
    } else {
        marker + item_source(items.first()) + seq!['\n'] + item_sources(items.drop_first(), marker)
    }
}

/// The sources of the blocks of a block quote, each behind `> `.
pub open spec fn quoted_sources(kids: Seq<NodeModel>) -> Seq<char>
    decreases kids, 0int,
{
    if kids.len() == 0 {
        Seq::empty()
    } else {
        seq!['>', ' '] + source(kids.first()) + quoted_sources(kids.drop_first())
    }
}

/// The sources of a sequence that grows by one node at its end.
pub proof fn lemma_sources_push(nodes: Seq<NodeModel>, node: NodeModel)
    ensures
        sources(nodes.push(node)) == sources(nodes) + source(node),
    decreases nodes.len(),
{
    if nodes.len() == 0 {
        assert(nodes.push(node).drop_first() =~= Seq::<NodeModel>::empty());
        assert(sources(nodes.push(node).drop_first()) =~= Seq::<char>::empty());
        assert(source(node) + Seq::<char>::empty() =~= Seq::<char>::empty() + source(node));
    } else {
        assert(nodes.push(node).drop_first() =~= nodes.drop_first().push(node));
        lemma_sources_push(nodes.drop_first(), node);
        assert(source(nodes.first()) + (sources(nodes.drop_first()) + source(node)) =~= (source(
            nodes.first(),
        ) + sources(nodes.drop_first())) + source(node));
    }
}

/// The sources of the items of a list that grows by one item at its end.
pub proof fn lemma_item_sources_push(items: Seq<NodeModel>, item: NodeModel, marker: Seq<char>)
    ensures
        item_sources(items.push(item), marker) == item_sources(items, marker) + (marker
            + item_source(item) + seq!['\n']),
    decreases items.len(),
{
    if items.len() == 0 {
        assert(items.push(item).drop_first() =~= Seq::<NodeModel>::empty());
        assert(item_sources(items.push(item).drop_first(), marker) =~= Seq::<char>::empty());
        assert(marker + item_source(item) + seq!['\n'] + Seq::<char>::empty() =~= Seq::<
            char,
        >::empty() + (marker + item_source(item) + seq!['\n']));
    } else {
        assert(items.push(item).drop_first() =~= items.drop_first().push(item));
        lemma_item_sources_push(items.drop_first(), item, marker);
        assert(marker + item_source(items.first()) + seq!['\n'] + (item_sources(
            items.drop_first(),
            marker,
        ) + (marker + item_source(item) + seq!['\n'])) =~= (marker + item_source(items.first())
            + seq!['\n'] + item_sources(items.drop_first(), marker)) + (marker + item_source(item)
            + seq!['\n']));
    }
}

/// The sources of a block quote that grows by one block at its end.
pub proof fn lemma_quoted_sources_push(kids: Seq<NodeModel>, kid: NodeModel)
    ensures
        quoted_sources(kids.push(kid)) == quoted_sources(kids) + (seq!['>', ' '] + source(kid)),
    decreases kids.len(),
{
    if kids.len() == 0 {
        assert(kids.push(kid).drop_first() =~= Seq::<NodeModel>::empty());
        assert(quoted_sources(kids.push(kid).drop_first()) =~= Seq::<char>::empty());
        assert(seq!['>', ' '] + source(kid) + Seq::<char>::empty() =~= Seq::<char>::empty() + (
        seq!['>', ' '] + source(kid)));
    } else {
        assert(kids.push(kid).drop_first() =~= kids.drop_first().push(kid));
        lemma_quoted_sources_push(kids.drop_first(), kid);
        assert(seq!['>', ' '] + source(kids.first()) + (quoted_sources(kids.drop_first()) + (
        seq!['>', ' '] + source(kid))) =~= (seq!['>', ' '] + source(kids.first()) + quoted_sources(
            kids.drop_first(),
        )) + (seq!['>', ' '] + source(kid)));
    }
}

/// Appends the source of a link to `out`.
pub fn write_link(link: &Link, out: &mut String)
    ensures
        final(out)@ == old(out)@ + link_source(link@),
{
    out.push('[');
    out.append(link.alt.as_str());
    out.push(']');
    out.push('(');
    out.append(link.url.as_str());
    match &link.title {
        Some(t) => {
            out.push(' ');
            out.push('"');
            out.append(t.as_str());
            out.push('"');
        },
        None => {},
    }
    out.push(')');
    assert(out@ =~= old(out)@ + link_source(link@));
}

/// Appends `width` copies of `mark` to `out`.
pub fn write_run(mark: char, width: usize, out: &mut String)
    ensures
        final(out)@ == old(out)@ + run(mark, width as int),
{
    let mut k: usize = 0;
    assert(out@ =~= old(out)@ + run(mark, 0));
    while k < width
        invariant
            k <= width,
            out@ == old(out)@ + run(mark, k as int),
        decreases width - k,
    {
        out.push(mark);
        assert(out@ =~= old(out)@ + run(mark, k + 1));
        k += 1;
    }
}

/// Appends the sources of a sequence of nodes to `out`.
pub fn write_sources(nodes: &Vec<Node>, out: &mut String)
    ensures
        final(out)@ == old(out)@ + sources(models(nodes@)),
    decreases nodes,
{
    let ghost all = models(nodes@);
    let mut i: usize = 0;
    assert(all.take(0) =~= Seq::<NodeModel>::empty());
    assert(out@ =~= old(out)@ + sources(all.take(0)));
    while i < nodes.len()
        invariant
            i <= nodes.len(),
            all == models(nodes@),
            out@ == old(out)@ + sources(all.take(i as int)),
        decreases nodes.len() - i,
    {
        write_source(&nodes[i], out);
        proof {
            assert(all.take(i + 1) =~= all.take(i as int).push(nodes@[i as int]@));
            lemma_sources_push(all.take(i as int), nodes@[i as int]@);
            assert(out@ =~= old(out)@ + sources(all.take(i + 1)));
        }
        i += 1;
    }
    assert(all.take(i as int) =~= all);
}

/// Appends the sources of the items of a list to `out`, each behind
/// `marker`.
pub fn write_items(items: &Vec<Node>, marker: &str, out: &mut String)
    ensures
        final(out)@ == old(out)@ + item_sources(models(items@), marker@),
    decreases items,
{
    let ghost all = models(items@);
    let mut i: usize = 0;
    assert(all.take(0) =~= Seq::<NodeModel>::empty());
    assert(out@ =~= old(out)@ + item_sources(all.take(0), marker@));
    while i < items.len()
        invariant
            i <= items.len(),
            all == models(items@),
            out@ == old(out)@ + item_sources(all.take(i as int), marker@),
        decreases items.len() - i,
    {
        let ghost before = out@;
        out.append(marker);
        match &items[i] {
            Node::Paragraph(paragraph) => write_sources(&paragraph.children, out),
            other => write_source(other, out),
        }
        out.push('\n');
        proof {
            let item = items@[i as int]@;
            assert(all.take(i + 1) =~= all.take(i as int).push(item));
            lemma_item_sources_push(all.take(i as int), item, marker@);
            assert(out@ =~= before + (marker@ + item_source(item) + seq!['\n']));
            assert(out@ =~= old(out)@ + item_sources(all.take(i + 1), marker@));
        }
        i += 1;
    }
    assert(all.take(i as int) =~= all);
}

/// Appends the sources of the blocks of a block quote to `out`.
pub fn write_quoted(kids: &Vec<Node>, out: &mut String)
    ensures
        final(out)@ == old(out)@ + quoted_sources(models(kids@)),
    decreases kids,
{
    let ghost all = models(kids@);
    let mut i: usize = 0;
    assert(all.take(0) =~= Seq::<NodeModel>::empty());
    assert(out@ =~= old(out)@ + quoted_sources(all.take(0)));
    while i < kids.len()
        invariant
            i <= kids.len(),
            all == models(kids@),
            out@ == old(out)@ + quoted_sources(all.take(i as int)),
        decreases kids.len() - i,
    {
        let ghost before = out@;
        out.push('>');
        out.push(' ');
        write_source(&kids[i], out);
        proof {
            let kid = kids@[i as int]@;
            assert(all.take(i + 1) =~= all.take(i as int).push(kid));
            lemma_quoted_sources_push(all.take(i as int), kid);
            assert(out@ =~= before + (seq!['>', ' '] + source(kid)));
            assert(out@ =~= old(out)@ + quoted_sources(all.take(i + 1)));
        }
        i += 1;
    }
    assert(all.take(i as int) =~= all);
}

/// Appends the source of a node to `out`.
pub fn write_source(node: &Node, out: &mut String)
    ensures
        final(out)@ == old(out)@ + source(node@),
    decreases node,
{
    match node {
        Node::Text(t) => {
            out.append(t.text.as_str());
        },
        Node::CodeBlock(c) => {
            write_run('`', 3, out);
            out.append(c.language.as_str());
            out.push('\n');
            out.append(c.code.as_str());
            out.push('\n');
            write_run('`', 3, out);
            out.push('\n');
            assert(fence() =~= run('`', 3));
            assert(out@ =~= old(out)@ + source(node@));
        },
        Node::Html(h) => {
            out.append(h.as_str());
        },
        Node::Heading(h) => {
            write_run('#', h.level, out);
            out.push(' ');
            out.append(h.text.as_str());
            out.push('\n');
            assert(out@ =~= old(out)@ + source(node@));
        },
        Node::Paragraph(p) => {
            write_sources(&p.children, out);
            out.push('\n');
            out.push('\n');
            assert(out@ =~= old(out)@ + source(node@));
        },
        Node::List(l) => {
            let mut marker = String::new();
            if l.ordered {
                let n: usize = match l.start {
                    Some(n) => n,
                    None => 1,
                };
                marker = decimal_digits(n);
                marker.push('.');
                marker.push(' ');
            } else {
                marker.push('-');
                marker.push(' ');
            }
            assert(marker@ =~= item_marker(
                l.ordered,
                match l.start {
                    Some(n) => Some(n as nat),
                    None => None,
                },
            ));
            write_items(&l.children, marker.as_str(), out);
        },
        Node::Blockquote(b) => {
            write_quoted(&b.children, out);
        },
        Node::Table(_) => {
            assert(out@ =~= old(out)@ + Seq::<char>::empty());
        },
        Node::ThematicBreak => {
            write_run('-', 3, out);
            out.push('\n');
            assert(out@ =~= old(out)@ + source(node@));
        },
        Node::SoftBreak => {
            out.push('\n');
            assert(out@ =~= old(out)@ + source(node@));
        },
        Node::HardBreak => {
            out.push('\n');
            assert(out@ =~= old(out)@ + source(node@));
        },
        Node::Bold(b) => {
            write_run('*', 2, out);
            write_sources(&b.children, out);
            write_run('*', 2, out);
            assert(out@ =~= old(out)@ + source(node@));
        },
        Node::Italic(i) => {
            out.push('_');
            write_sources(&i.children, out);
            out.push('_');
            assert(out@ =~= old(out)@ + source(node@));
        },
        Node::Link(l) => {
            write_link(l, out);
        },
        Node::Image(l) => {
            out.push('!');
            write_link(l, out);
            assert(out@ =~= old(out)@ + source(node@));
        },
        Node::InlineCode(c) => {
            out.push('`');
            out.append(c.code.as_str());
            out.push('`');
            assert(out@ =~= old(out)@ + source(node@));
        },
        Node::ReactComponent(_) => {
            assert(out@ =~= old(out)@ + Seq::<char>::empty());
        },
        Node::VueComponent(_) => {
            assert(out@ =~= old(out)@ + Seq::<char>::empty());
        },
    }
}

/// The text of a node kind that has no display text of its own.
pub open spec fn unknown_text() -> Seq<char> {
    "Unknown node"@
}

/// The display text of a node, for the kinds whose text is made of their
/// own fields: `h` and the level before a heading's text, `p` before
/// literal text, and code, code blocks, links and images as in the source
/// dialect, a link without its title. Paragraphs, lists and block quotes
/// have none: their text is the debug rendering of their children. Every
/// other kind is an unknown node.
pub open spec fn display_text(node: NodeModel) -> Option<Seq<char>> {
    match node {
        NodeModel::Heading { level, text } => Some(seq!['h'] + digits(level) + seq![' '] + text),
        NodeModel::Text(t) => Some(seq!['p', ' '] + t),
        NodeModel::InlineCode(c) => Some(seq!['`'] + c + seq!['`']),
        NodeModel::CodeBlock { language, code, .. } => Some(
            fence() + language + seq!['\n'] + code + seq!['\n'] + fence(),
        ),
        NodeModel::Link(l) => Some(seq!['['] + l.alt + seq![']', '('] + l.url + seq![')']),
        NodeModel::Image(l) => Some(seq!['!', '['] + l.alt + seq![']', '('] + l.url + seq![')']),
        NodeModel::Paragraph(_) => None,
        NodeModel::List { .. } => None,
        NodeModel::Blockquote(_) => None,
        _ => Some(unknown_text()),
    }
}

impl Node {
    /// The display text of the node, if its kind has one that is made of its
    /// own fields.
    pub fn to_text(&self) -> (out: Option<String>)
        ensures
            match display_text(self@) {
                Some(text) => out is Some && out->Some_0@ == text,
                None => out is None,
            },
    {
        let mut out = String::new();
        match self {
            Node::Heading(h) => {
                let level = decimal_digits(h.level);
                out.push('h');
                out.append(level.as_str());
                out.push(' ');
                out.append(h.text.as_str());
                assert(out@ =~= seq!['h'] + digits(h.level as nat) + seq![' '] + h.text@);
            },
            Node::Text(t) => {
                out.push('p');
                out.push(' ');
                out.append(t.text.as_str());
                assert(out@ =~= seq!['p', ' '] + t.text@);
            },
            Node::InlineCode(c) => {
                out.push('`');
                out.append(c.code.as_str());
                out.push('`');
                assert(out@ =~= seq!['`'] + c.code@ + seq!['`']);
            },
            Node::CodeBlock(c) => {
                write_run('`', 3, &mut out);
                out.append(c.language.as_str());
                out.push('\n');
                out.append(c.code.as_str());
                out.push('\n');
                write_run('`', 3, &mut out);
                assert(fence() =~= run('`', 3));
                assert(out@ =~= fence() + c.language@ + seq!['\n'] + c.code@ + seq!['\n']
                    + fence());
            },
            Node::Link(l) => {
                out.push('[');
                out.append(l.alt.as_str());
                out.push(']');
                out.push('(');
                out.append(l.url.as_str());
                out.push(')');
                assert(out@ =~= seq!['['] + l.alt@ + seq![']', '('] + l.url@ + seq![')']);
            },
            Node::Image(l) => {
                out.push('!');
                out.push('[');
                out.append(l.alt.as_str());
                out.push(']');
                out.push('(');
                out.append(l.url.as_str());
                out.push(')');
                assert(out@ =~= seq!['!', '['] + l.alt@ + seq![']', '('] + l.url@ + seq![')']);
            },
            Node::Paragraph(_) => {
                return None;
            },
            Node::List(_) => {
                return None;
            },
            Node::Blockquote(_) => {
                return None;
            },
            _ => {
                out.append("Unknown node");
                assert(out@ =~= unknown_text());
            },
        }
        Some(out)
    }

    /// The node in the source dialect.
    pub fn to_source(&self) -> (out: String)
        ensures
            out@ == source(self@),
    {
        let mut out = String::new();
        write_source(self, &mut out);
        assert(Seq::<char>::empty() + source(self@) =~= source(self@));
        out
    }
}

impl Ast {
    /// The document in the source dialect: the sources of its blocks.
    pub fn to_source(&self) -> (out: String)
        ensures
            out@ == sources(self@),
    {
        let mut out = String::new();
        match self {
            Ast::Root(root) => write_sources(&root.children, &mut out),
        }
        assert(Seq::<char>::empty() + sources(self@) =~= sources(self@));
        out
    }
}

} // verus!

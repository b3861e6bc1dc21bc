//! The HTML renderer.
//!
//! Rendering is a total function of the tree. A node kind that a context has
//! no markup for is rendered as a fixed comment, so that nothing is lost
//! without a trace in the output.

use crate::ast::{
    models, Ast, Blockquote, Bold, CodeBlock, Heading, InlineCode, Italic, Link, LinkModel, List,
    Node, NodeModel, Paragraph, Root, Text,
};
use crate::parser::facts::lemma_scan_stops;
use crate::parser::grammar::{scan_while, Class};
use crate::text::{decimal_digits, decode, digits, encode, is_whitespace_scalar, whitespace};
use vstd::prelude::*;
use vstd::slice::slice_subrange;
use vstd::string::StringExecFns;

verus! {

/// What stands for a node that a context has no markup for.
pub open spec fn fallback() -> Seq<char> {
    "<!-- unsupported node -->"@
}

/// The markup of a link.
pub open spec fn link_html(l: LinkModel) -> Seq<char> {
    "<a href=\""@ + l.url + "\">"@ + l.alt + "</a>"@
}

/// The markup of an image, with the blank line after it.
pub open spec fn image_html(l: LinkModel) -> Seq<char> {
    "<img src=\""@ + l.url + "\" alt=\""@ + l.alt + "\" />"@ + "\n\n"@
}

/// The markup of a code block.
pub open spec fn code_block_html(code: Seq<char>) -> Seq<char> {
    "\n      <pre>\n        <code>"@ + code + "</code>\n      </pre>"@
}

/// The markup of a code span.
pub open spec fn inline_code_html(code: Seq<char>) -> Seq<char> {
    "<code>"@ + code + "</code>"@
}

/// The markup of a heading, with the blank line after it.
pub open spec fn heading_html(level: nat, text: Seq<char>) -> Seq<char> {
    "<h"@ + digits(level) + ">"@ + text + "</h"@ + digits(level) + ">"@ + "\n\n"@
}

/// The name of a list's element.
pub open spec fn list_tag(ordered: bool) -> Seq<char> {
    if ordered {
        "ol"@
    } else {
        "ul"@
    }
}

/// The markup of a node inside a line: text, code, links, images, strong
/// and emphasised text. Every other kind is rendered as the fallback.
pub open spec fn line_html(node: NodeModel) -> Seq<char>
    decreases node,
{
    match node {
        NodeModel::Text(t) => t,
        NodeModel::InlineCode(c) => inline_code_html(c),
        NodeModel::CodeBlock { code, .. } => code_block_html(code),
        NodeModel::Bold(kids) => "<b>"@ + lines_html(kids) + "</b>"@,
        NodeModel::Italic(kids) => "<i>"@ + lines_html(kids) + "</i>"@,
        NodeModel::Link(l) => link_html(l),
        NodeModel::Image(l) => image_html(l),
        _ => fallback(),
    }
}

/// The markup of a sequence of nodes inside a line, in order.
pub open spec fn lines_html(nodes: Seq<NodeModel>) -> Seq<char>
    decreases nodes,
{
    if nodes.len() == 0 {
        Seq::empty()
    } else {
        lines_html(nodes.drop_last()) + line_html(nodes.last())
    }
}

/// The markup of a list item: the markup of the item's line nodes, not the
/// item's display text, between `<li>` and `</li>`.
pub open spec fn item_html(item: NodeModel) -> Seq<char>
    decreases item,
{
    match item {
        NodeModel::Paragraph(kids) => "<li>"@ + lines_html(kids) + "</li>"@,
        _ => "<li>"@ + line_html(item) + "</li>"@,
    }
}

/// The markup of the items of a list, in order.
pub open spec fn items_html(items: Seq<NodeModel>) -> Seq<char>
    decreases items,
{
    if items.len() == 0 {
        Seq::empty()
    } else {
        items_html(items.drop_last()) + item_html(items.last())
    }
}

/// The markup of a list, on lines of its own and with a blank line after it.
pub open spec fn list_html(ordered: bool, items: Seq<NodeModel>) -> Seq<char> {
    "\n"@ + "<"@ + list_tag(ordered) + ">\n      "@ + items_html(items) + "\n    </"@ + list_tag(
        ordered,
    ) + ">"@ + "\n\n"@
}

/// The markup of a node at block level: headings, paragraphs, lists, block
/// quotes, code, links, images and text. Every other kind is rendered as
/// the fallback. A block quote holds the markup of its blocks, not their
/// display text.
pub open spec fn block_html(node: NodeModel) -> Seq<char>
    decreases node,
{
    match node {
        NodeModel::Heading { level, text } => heading_html(level, text),
        NodeModel::Text(t) => t,
        NodeModel::InlineCode(c) => inline_code_html(c),
        NodeModel::CodeBlock { code, .. } => code_block_html(code),
        NodeModel::List { ordered, items, .. } => list_html(ordered, items),
        NodeModel::Blockquote(kids) => "<blockquote>"@ + blocks_html(kids) + "</blockquote>"@,
        NodeModel::Link(l) => link_html(l),
        NodeModel::Image(l) => image_html(l),
        NodeModel::Paragraph(kids) => "<p>"@ + lines_html(kids) + "</p>"@ + "\n\n"@,
        _ => fallback(),
    }
}

/// The markup of a sequence of blocks, in order.
pub open spec fn blocks_html(nodes: Seq<NodeModel>) -> Seq<char>
    decreases nodes,
{
    if nodes.len() == 0 {
        Seq::empty()
    } else {
        blocks_html(nodes.drop_last()) + block_html(nodes.last())
    }
}

/// `s` without the white space at its end.
pub open spec fn trim_end(s: Seq<char>) -> Seq<char>
    decreases s.len(),
{
    if s.len() > 0 && whitespace(s.last()) {
        trim_end(s.drop_last())
    } else {
        s
    }
}

/// `s` without the white space at its start and at its end.
pub open spec fn trimmed(s: Seq<char>) -> Seq<char> {
    trim_end(s.subrange(scan_while(s, 0, Class::Whitespace), s.len() as int))
}

/// The page that a document renders to: the markup of its blocks, trimmed.
pub open spec fn page(document: Seq<NodeModel>) -> Seq<char> {
    trimmed(blocks_html(document))
}

/// A string without the white space at its start and at its end.
pub fn trim(text: &str) -> (out: String)
    ensures
        out@ == trimmed(text@),
{
    let scalars = decode(text);
    let mut from: usize = 0;
    while from < scalars.len() && is_whitespace_scalar(scalars[from])
        invariant
            from <= scalars.len(),
            forall|k: int| 0 <= k < from ==> whitespace(#[trigger] scalars@[k]),
        decreases scalars.len() - from,
    {
        from += 1;
    }
    proof {
        lemma_scan_stops(scalars@, 0, from as int, Class::Whitespace);
    }
    let ghost rest = scalars@.subrange(from as int, scalars.len() as int);
    let mut to: usize = scalars.len();
    assert(scalars@.subrange(from as int, to as int) =~= rest);
    while to > from && is_whitespace_scalar(scalars[to - 1])
        invariant
            from <= to <= scalars.len(),
            rest == scalars@.subrange(from as int, scalars.len() as int),
            trim_end(rest) == trim_end(scalars@.subrange(from as int, to as int)),
        decreases to,
    {
        assert(scalars@.subrange(from as int, to as int).drop_last() =~= scalars@.subrange(
            from as int,
            to - 1,
        ));
        to -= 1;
    }
    encode(slice_subrange(scalars.as_slice(), from, to))
}

/// Renders a document tree as HTML, piece by piece, into one output text.
pub struct HtmlCompiler {
    output: String,
}

impl View for HtmlCompiler {
    type V = Seq<char>;

    /// The output written so far.
    closed spec fn view(&self) -> Seq<char> {
        self.output@
    }
}

impl HtmlCompiler {
    /// A renderer that has written nothing yet.
    pub fn new() -> (compiler: Self)
        ensures
            compiler@ == Seq::<char>::empty(),
    {
        Self { output: String::new() }
    }

    /// Renders a whole document after what is already written, and returns
    /// all that is written, trimmed.
    pub fn compile(&mut self, ast: &Ast) -> (out: String)
        ensures
            final(self)@ == old(self)@ + blocks_html(ast@),
            out@ == trimmed(final(self)@),
            old(self)@.len() == 0 ==> out@ == page(ast@),
    {
        assert(old(self)@.len() == 0 ==> old(self)@ + blocks_html(ast@) =~= blocks_html(ast@));
        match ast {
            Ast::Root(root) => self.compile_root(root),
        }
        trim(self.output.as_str())
    }

    /// Renders the blocks of a root, in order.
    pub fn compile_root(&mut self, root: &Root)
        ensures
            final(self)@ == old(self)@ + blocks_html(root@),
    {
        self.compile_nodes(&root.children);
    }

    /// Renders a sequence of blocks, in order.
    pub fn compile_nodes(&mut self, nodes: &Vec<Node>)
        ensures
            final(self)@ == old(self)@ + blocks_html(models(nodes@)),
        decreases nodes,
    {
        let ghost all = models(nodes@);
        let mut i: usize = 0;
        assert(all.take(0) =~= Seq::<NodeModel>::empty());
        assert(old(self)@ + Seq::<char>::empty() =~= old(self)@);
        while i < nodes.len()
            invariant
                i <= nodes.len(),
                all == models(nodes@),
                self@ == old(self)@ + blocks_html(all.take(i as int)),
            decreases nodes.len() - i,
        {
            self.compile_node(&nodes[i]);
            proof {
                assert(all.take(i + 1).drop_last() =~= all.take(i as int));
                assert(all.take(i + 1).last() == nodes@[i as int]@);
                assert(self@ =~= old(self)@ + blocks_html(all.take(i + 1)));
            }
            i += 1;
        }
        assert(all.take(i as int) =~= all);
    }

    /// Renders one node at block level.
    pub fn compile_node(&mut self, node: &Node)
        ensures
            final(self)@ == old(self)@ + block_html(node@),
        decreases node,
    {
        match node {
            Node::Heading(heading) => self.compile_heading(heading),
            Node::Text(text) => self.compile_text(text),
            Node::InlineCode(inline_code) => self.compile_inline_code(inline_code),
            Node::CodeBlock(code_block) => self.compile_code_block(code_block),
            Node::List(list) => self.compile_list(list),
            Node::Blockquote(blockquote) => self.compile_blockquote(blockquote),
            Node::Link(link) => self.compile_link(link),
            Node::Image(image) => self.compile_image(image),
            Node::Paragraph(paragraph) => self.compile_paragraph(paragraph),
            _ => self.push("<!-- unsupported node -->"),
        }
    }

    /// Renders one node inside a line.
    pub fn compile_line_node(&mut self, node: &Node)
        ensures
            final(self)@ == old(self)@ + line_html(node@),
        decreases node,
    {
        match node {
            Node::Text(text) => self.compile_text(text),
            Node::InlineCode(inline_code) => self.compile_inline_code(inline_code),
            Node::CodeBlock(code_block) => self.compile_code_block(code_block),
            Node::Bold(bold) => self.compile_bold(bold),
            Node::Italic(italic) => self.compile_italic(italic),
            Node::Link(link) => self.compile_link(link),
            Node::Image(image) => self.compile_image(image),
            _ => self.push("<!-- unsupported node -->"),
        }
    }

    /// Renders a sequence of nodes inside a line, in order.
    pub fn compile_line_nodes(&mut self, nodes: &Vec<Node>)
        ensures
            final(self)@ == old(self)@ + lines_html(models(nodes@)),
        decreases nodes,
    {
        let ghost all = models(nodes@);
        let mut i: usize = 0;
        assert(all.take(0) =~= Seq::<NodeModel>::empty());
        assert(old(self)@ + Seq::<char>::empty() =~= old(self)@);
        while i < nodes.len()
            invariant
                i <= nodes.len(),
                all == models(nodes@),
                self@ == old(self)@ + lines_html(all.take(i as int)),
            decreases nodes.len() - i,
        {
            self.compile_line_node(&nodes[i]);
            proof {
                assert(all.take(i + 1).drop_last() =~= all.take(i as int));
                assert(all.take(i + 1).last() == nodes@[i as int]@);
                assert(self@ =~= old(self)@ + lines_html(all.take(i + 1)));
            }
            i += 1;
        }
        assert(all.take(i as int) =~= all);
    }

    /// Renders strong text.
    pub fn compile_bold(&mut self, bold: &Bold)
        ensures
            final(self)@ == old(self)@ + line_html(Node::Bold(*bold)@),
        decreases bold,
    {
        self.push("<b>");
        self.compile_line_nodes(&bold.children);
        self.push("</b>");
        assert(self@ =~= old(self)@ + line_html(Node::Bold(*bold)@));
    }

    /// Renders emphasised text.
    pub fn compile_italic(&mut self, italic: &Italic)
        ensures
            final(self)@ == old(self)@ + line_html(Node::Italic(*italic)@),
        decreases italic,
    {
        self.push("<i>");
        self.compile_line_nodes(&italic.children);
        self.push("</i>");
        assert(self@ =~= old(self)@ + line_html(Node::Italic(*italic)@));
    }

    /// Renders a heading, with a blank line after it.
    pub fn compile_heading(&mut self, heading: &Heading)
        ensures
            final(self)@ == old(self)@ + heading_html(heading.level as nat, heading.text@),
    {
        let level = decimal_digits(heading.level);
        self.push("<h");
        self.push(level.as_str());
        self.push(">");
        self.push(heading.text.as_str());
        self.push("</h");
        self.push(level.as_str());
        self.push(">");
        self.double_new_line();
        assert(self@ =~= old(self)@ + heading_html(heading.level as nat, heading.text@));
    }

    /// Writes literal text as it is.
    pub fn compile_text(&mut self, text: &Text)
        ensures
            final(self)@ == old(self)@ + text.text@,
    {
        self.push(text.text.as_str());
    }

    /// Renders a code span.
    pub fn compile_inline_code(&mut self, inline_code: &InlineCode)
        ensures
            final(self)@ == old(self)@ + inline_code_html(inline_code.code@),
    {
        self.push("<code>");
        self.push(inline_code.code.as_str());
        self.push("</code>");
        assert(self@ =~= old(self)@ + inline_code_html(inline_code.code@));
    }

    /// Renders a code block.
    pub fn compile_code_block(&mut self, code_block: &CodeBlock)
        ensures
            final(self)@ == old(self)@ + code_block_html(code_block.code@),
    {
        self.push("\n      <pre>\n        <code>");
        self.push(code_block.code.as_str());
        self.push("</code>\n      </pre>");
        assert(self@ =~= old(self)@ + code_block_html(code_block.code@));
    }

    /// Renders the items of a list, in order.
    pub fn compile_items(&mut self, items: &Vec<Node>)
        ensures
            final(self)@ == old(self)@ + items_html(models(items@)),
        decreases items,
    {
        let ghost all = models(items@);
        let mut i: usize = 0;
        assert(all.take(0) =~= Seq::<NodeModel>::empty());
        assert(old(self)@ + Seq::<char>::empty() =~= old(self)@);
        while i < items.len()
            invariant
                i <= items.len(),
                all == models(items@),
                self@ == old(self)@ + items_html(all.take(i as int)),
            decreases items.len() - i,
        {
            let ghost before = self@;
            self.push("<li>");
            match &items[i] {
                Node::Paragraph(paragraph) => self.compile_line_nodes(&paragraph.children),
                other => self.compile_line_node(other),
            }
            self.push("</li>");
            proof {
                assert(all.take(i + 1).drop_last() =~= all.take(i as int));
                assert(all.take(i + 1).last() == items@[i as int]@);
                assert(self@ =~= before + item_html(items@[i as int]@));
                assert(self@ =~= old(self)@ + items_html(all.take(i + 1)));
            }
            i += 1;
        }
        assert(all.take(i as int) =~= all);
    }

    /// Renders a list, on lines of its own and with a blank line after it.
    /// Each item is rendered as the markup of its line nodes.
    pub fn compile_list(&mut self, list: &List)
        ensures
            final(self)@ == old(self)@ + list_html(list.ordered, models(list.children@)),
        decreases list,
    {
        let tag = if list.ordered {
            "ol"
        } else {
            "ul"
        };
        self.new_line();
        self.push("<");
        self.push(tag);
        self.push(">\n      ");
        self.compile_items(&list.children);
        self.push("\n    </");
        self.push(tag);
        self.push(">");
        self.double_new_line();
        assert(self@ =~= old(self)@ + list_html(list.ordered, models(list.children@)));
    }

    /// Renders a block quote around the markup of its blocks.
    pub fn compile_blockquote(&mut self, blockquote: &Blockquote)
        ensures
            final(self)@ == old(self)@ + block_html(Node::Blockquote(*blockquote)@),
        decreases blockquote,
    {
        self.push("<blockquote>");
        self.compile_nodes(&blockquote.children);
        self.push("</blockquote>");
        assert(self@ =~= old(self)@ + block_html(Node::Blockquote(*blockquote)@));
    }

    /// Renders a link.
    pub fn compile_link(&mut self, link: &Link)
        ensures
            final(self)@ == old(self)@ + link_html(link@),
    {
        self.push("<a href=\"");
        self.push(link.url.as_str());
        self.push("\">");
        self.push(link.alt.as_str());
        self.push("</a>");
        assert(self@ =~= old(self)@ + link_html(link@));
    }

    /// Renders an image, with a blank line after it.
    pub fn compile_image(&mut self, image: &Link)
        ensures
            final(self)@ == old(self)@ + image_html(image@),
    {
        self.push("<img src=\"");
        self.push(image.url.as_str());
        self.push("\" alt=\"");
        self.push(image.alt.as_str());
        self.push("\" />");
        self.double_new_line();
        assert(self@ =~= old(self)@ + image_html(image@));
    }

    /// Renders a paragraph, with a blank line after it.
    pub fn compile_paragraph(&mut self, paragraph: &Paragraph)
        ensures
            final(self)@ == old(self)@ + block_html(Node::Paragraph(*paragraph)@),
        decreases paragraph,
    {
        self.push("<p>");
        self.compile_line_nodes(&paragraph.children);
        self.push("</p>");
        self.double_new_line();
        assert(self@ =~= old(self)@ + block_html(Node::Paragraph(*paragraph)@));
    }

    /// Writes a line terminator.
    pub fn new_line(&mut self)
        ensures
            final(self)@ == old(self)@ + "\n"@,
    {
        self.output.append("\n");
    }

    /// Writes a blank line: two line terminators.
    pub fn double_new_line(&mut self)
        ensures
            final(self)@ == old(self)@ + "\n\n"@,
    {
        self.output.append("\n\n");
    }

    /// Writes one space.
    pub fn white_space(&mut self)
        ensures
            final(self)@ == old(self)@ + " "@,
    {
        self.output.append(" ");
    }

    /// Writes `text` as it is.
    pub fn push(&mut self, text: &str)
        ensures
            final(self)@ == old(self)@ + text@,
    {
        self.output.append(text);
    }
}

} // verus!

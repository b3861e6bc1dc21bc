//! The document tree: the node taxonomy that parsing produces and renderers
//! consume, together with its mathematical model.
//!
//! Every composite node owns its children; the tree has no sharing and no
//! back references. The model of a node replaces strings by sequences of
//! scalars and child vectors by sequences of child models.

use vstd::prelude::*;

verus! {

/// The result of parsing one input buffer.
#[derive(Debug, PartialEq, Eq)]
pub enum Ast {
    Root(Root),
}

/// The single root of a document: its block nodes in document order.
#[derive(Debug, PartialEq, Eq)]
pub struct Root {
    pub children: Box<Vec<Node>>,
}

impl Default for Root {
    fn default() -> (root: Self)
        ensures
            root@ == Seq::<NodeModel>::empty(),
    {
        let root = Root { children: Box::new(Vec::new()) };
        assert(models(root.children@) =~= Seq::<NodeModel>::empty());
        root
    }
}

/// A node of the document tree: a block, or a text-level node inside one.
#[derive(Debug, PartialEq, Eq)]
pub enum Node {
    Text(Text),
    CodeBlock(CodeBlock),
    Html(String),
    Heading(Heading),
    Paragraph(Paragraph),
    List(List),
    Blockquote(Blockquote),
    Table(Table),
    ThematicBreak,
    SoftBreak,
    HardBreak,
    Bold(Bold),
    Italic(Italic),
    Link(Link),
    Image(Link),
    InlineCode(InlineCode),
    ReactComponent(ReactComponent),
    VueComponent(VueComponent),
}

/// A code span inside a line.
#[derive(Debug, PartialEq, Eq)]
pub struct InlineCode {
    pub code: String,
}

/// A fenced code block: its language tag, its raw body, and metadata
/// tokens if there are any.
#[derive(Debug, PartialEq, Eq)]
pub struct CodeBlock {
    pub language: String,
    pub code: String,
    pub meta: Option<Vec<String>>,
}

/// A run of literal text.
#[derive(Debug, PartialEq, Eq)]
pub struct Text {
    pub text: String,
}

/// The target of a link or image: where it points, the text between its
/// brackets, and its title if it has one.
#[derive(Debug, PartialEq, Eq)]
pub struct Link {
    pub url: String,
    pub alt: String,
    pub title: Option<String>,
}

/// Strong text: a wrapper around further text-level nodes.
#[derive(Debug, PartialEq, Eq)]
pub struct Bold {
    pub children: Box<Vec<Node>>,
}

/// Emphasised text: a wrapper around further text-level nodes.
#[derive(Debug, PartialEq, Eq)]
pub struct Italic {
    pub children: Box<Vec<Node>>,
}

/// A heading: its level, one or more, and its literal text.
#[derive(Debug, PartialEq, Eq)]
pub struct Heading {
    pub level: usize,
    pub text: String,
}

/// A paragraph: text-level nodes in order.
#[derive(Debug, PartialEq, Eq)]
pub struct Paragraph {
    pub children: Box<Vec<Node>>,
}

/// A list: whether it is ordered, the number it starts at if it is, and
/// its items.
#[derive(Debug, PartialEq, Eq)]
pub struct List {
    pub ordered: bool,
    pub start: Option<usize>,
    pub children: Box<Vec<Node>>,
}

/// A block quote: the blocks it quotes.
#[derive(Debug, PartialEq, Eq)]
pub struct Blockquote {
    pub children: Box<Vec<Node>>,
}

/// An embedded component of the React dialect.
#[derive(Debug, PartialEq, Eq)]
pub struct ReactComponent {
    pub name: String,
    pub props: Vec<String>,
    pub children: Box<Vec<Node>>,
}

/// An embedded component of the Vue dialect.
#[derive(Debug, PartialEq, Eq)]
pub struct VueComponent {
    pub name: String,
    pub props: Vec<String>,
    pub children: Box<Vec<Node>>,
}

/// A table: its header cells and its rows of cells.
#[derive(Debug, PartialEq, Eq)]
pub struct Table {
    pub header: Vec<String>,
    pub rows: Vec<Vec<String>>,
}

/// The model of a link or image target.
pub struct LinkModel {
    pub url: Seq<char>,
    pub alt: Seq<char>,
    pub title: Option<Seq<char>>,
}

/// The model of a node.
pub enum NodeModel {
    Text(Seq<char>),
    CodeBlock { language: Seq<char>, code: Seq<char>, meta: Option<Seq<Seq<char>>> },
    Html(Seq<char>),
    Heading { level: nat, text: Seq<char> },
    Paragraph(Seq<NodeModel>),
    List { ordered: bool, start: Option<nat>, items: Seq<NodeModel> },
    Blockquote(Seq<NodeModel>),
    Table { header: Seq<Seq<char>>, rows: Seq<Seq<Seq<char>>> },
    ThematicBreak,
    SoftBreak,
    HardBreak,
    Bold(Seq<NodeModel>),
    Italic(Seq<NodeModel>),
    Link(LinkModel),
    Image(LinkModel),
    InlineCode(Seq<char>),
    ReactComponent { name: Seq<char>, props: Seq<Seq<char>>, children: Seq<NodeModel> },
    VueComponent { name: Seq<char>, props: Seq<Seq<char>>, children: Seq<NodeModel> },
}

/// The scalars of each string of a vector.
pub open spec fn strings(v: Seq<String>) -> Seq<Seq<char>> {
    Seq::new(v.len(), |i: int| v[i]@)
}

/// The scalars of each cell of each row.
pub open spec fn rows(v: Seq<Vec<String>>) -> Seq<Seq<Seq<char>>> {
    Seq::new(v.len(), |i: int| strings(v[i]@))
}

/// The models of a sequence of nodes, in order.
pub open spec fn models(nodes: Seq<Node>) -> Seq<NodeModel>
    decreases nodes,
{
    Seq::new(
        nodes.len(),
        |i: int|
            if 0 <= i < nodes.len() {
                model(nodes[i])
            } else {
                NodeModel::ThematicBreak
            },
    )
}

/// The model of one node.
pub open spec fn model(node: Node) -> NodeModel
    decreases node,
{
    match node {
        Node::Text(t) => NodeModel::Text(t.text@),
        Node::CodeBlock(c) => NodeModel::CodeBlock {
            language: c.language@,
            code: c.code@,
            meta: match c.meta {
                Some(m) => Some(strings(m@)),
                None => None,
            },
        },
        Node::Html(h) => NodeModel::Html(h@),
        Node::Heading(h) => NodeModel::Heading { level: h.level as nat, text: h.text@ },
        Node::Paragraph(p) => NodeModel::Paragraph(models(p.children@)),
        Node::List(l) => NodeModel::List {
            ordered: l.ordered,
            start: match l.start {
                Some(n) => Some(n as nat),
                None => None,
            },
            items: models(l.children@),
        },
        Node::Blockquote(b) => NodeModel::Blockquote(models(b.children@)),
        Node::Table(t) => NodeModel::Table { header: strings(t.header@), rows: rows(t.rows@) },
        Node::ThematicBreak => NodeModel::ThematicBreak,
        Node::SoftBreak => NodeModel::SoftBreak,
        Node::HardBreak => NodeModel::HardBreak,
        Node::Bold(b) => NodeModel::Bold(models(b.children@)),
        Node::Italic(i) => NodeModel::Italic(models(i.children@)),
        Node::Link(l) => NodeModel::Link(l@),
        Node::Image(l) => NodeModel::Image(l@),
        Node::InlineCode(c) => NodeModel::InlineCode(c.code@),
        Node::ReactComponent(c) => NodeModel::ReactComponent {
            name: c.name@,
            props: strings(c.props@),
            children: models(c.children@),
        },
        Node::VueComponent(c) => NodeModel::VueComponent {
            name: c.name@,
            props: strings(c.props@),
            children: models(c.children@),
        },
    }
}

impl View for Link {
    type V = LinkModel;

    open spec fn view(&self) -> LinkModel {
        LinkModel {
            url: self.url@,
            alt: self.alt@,
            title: match self.title {
                Some(t) => Some(t@),
                None => None,
            },
        }
    }
}

impl View for Node {
    type V = NodeModel;

    open spec fn view(&self) -> NodeModel {
        model(*self)
    }
}

impl View for Root {
    type V = Seq<NodeModel>;

    open spec fn view(&self) -> Seq<NodeModel> {
        models(self.children@)
    }
}

impl View for Ast {
    type V = Seq<NodeModel>;

    open spec fn view(&self) -> Seq<NodeModel> {
        match self {
            Ast::Root(root) => root@,
        }
    }
}

/// Copies a vector of nodes, subtree by subtree.
pub fn clone_nodes(nodes: &Vec<Node>) -> (copy: Vec<Node>)
    ensures
        models(copy@) == models(nodes@),
    decreases nodes,
{
    let mut copy: Vec<Node> = Vec::new();
    let mut i: usize = 0;
    while i < nodes.len()
        invariant
            i <= nodes.len(),
            copy@.len() == i,
            forall|k: int| 0 <= k < i ==> model(#[trigger] copy@[k]) == model(nodes@[k]),
        decreases nodes.len() - i,
    {
        let node = clone_node(&nodes[i]);
        copy.push(node);
        i += 1;
    }
    assert(models(copy@) =~= models(nodes@));
    copy
}

/// Copies a vector of strings.
pub fn clone_strings(v: &Vec<String>) -> (copy: Vec<String>)
    ensures
        strings(copy@) == strings(v@),
{
    let mut copy: Vec<String> = Vec::new();
    let mut i: usize = 0;
    while i < v.len()
        invariant
            i <= v.len(),
            copy@.len() == i,
            forall|k: int| 0 <= k < i ==> (#[trigger] copy@[k])@ == v@[k]@,
        decreases v.len() - i,
    {
        copy.push(v[i].clone());
        i += 1;
    }
    assert(strings(copy@) =~= strings(v@));
    copy
}

/// Copies the rows of a table.
pub fn clone_rows(v: &Vec<Vec<String>>) -> (copy: Vec<Vec<String>>)
    ensures
        rows(copy@) == rows(v@),
{
    let mut copy: Vec<Vec<String>> = Vec::new();
    let mut i: usize = 0;
    while i < v.len()
        invariant
            i <= v.len(),
            copy@.len() == i,
            forall|k: int| 0 <= k < i ==> strings((#[trigger] copy@[k])@) == strings(v@[k]@),
        decreases v.len() - i,
    {
        copy.push(clone_strings(&v[i]));
        i += 1;
    }
    assert(rows(copy@) =~= rows(v@));
    copy
}

/// Copies a node with everything below it.
pub fn clone_node(node: &Node) -> (copy: Node)
    ensures
        model(copy) == model(*node),
    decreases node,
{
    match node {
        Node::Text(t) => Node::Text(Text { text: t.text.clone() }),
        Node::CodeBlock(c) => Node::CodeBlock(
            CodeBlock {
                language: c.language.clone(),
                code: c.code.clone(),
                meta: match &c.meta {
                    Some(m) => Some(clone_strings(m)),
                    None => None,
                },
            },
        ),
        Node::Html(h) => Node::Html(h.clone()),
        Node::Heading(h) => Node::Heading(Heading { level: h.level, text: h.text.clone() }),
        Node::Paragraph(p) => Node::Paragraph(
            Paragraph { children: Box::new(clone_nodes(&p.children)) },
        ),
        Node::List(l) => Node::List(
            List { ordered: l.ordered, start: l.start, children: Box::new(clone_nodes(&l.children)) },
        ),
        Node::Blockquote(b) => Node::Blockquote(
            Blockquote { children: Box::new(clone_nodes(&b.children)) },
        ),
        Node::Table(t) => Node::Table(
            Table { header: clone_strings(&t.header), rows: clone_rows(&t.rows) },
        ),
        Node::ThematicBreak => Node::ThematicBreak,
        Node::SoftBreak => Node::SoftBreak,
        Node::HardBreak => Node::HardBreak,
        Node::Bold(b) => Node::Bold(Bold { children: Box::new(clone_nodes(&b.children)) }),
        Node::Italic(i) => Node::Italic(Italic { children: Box::new(clone_nodes(&i.children)) }),
        Node::Link(l) => Node::Link(clone_link(l)),
        Node::Image(l) => Node::Image(clone_link(l)),
        Node::InlineCode(c) => Node::InlineCode(InlineCode { code: c.code.clone() }),
        Node::ReactComponent(c) => Node::ReactComponent(
            ReactComponent {
                name: c.name.clone(),
                props: clone_strings(&c.props),
                children: Box::new(clone_nodes(&c.children)),
            },
        ),
        Node::VueComponent(c) => Node::VueComponent(
            VueComponent {
                name: c.name.clone(),
                props: clone_strings(&c.props),
                children: Box::new(clone_nodes(&c.children)),
            },
        ),
    }
}

/// Copies a link target.
pub fn clone_link(link: &Link) -> (copy: Link)
    ensures
        copy@ == link@,
{
    Link {
        url: link.url.clone(),
        alt: link.alt.clone(),
        title: match &link.title {
            Some(t) => Some(t.clone()),
            None => None,
        },
    }
}

impl Clone for InlineCode {
    fn clone(&self) -> (copy: Self)
        ensures
            copy.code@ == self.code@,
    {
        InlineCode { code: self.code.clone() }
    }
}

impl Clone for CodeBlock {
    fn clone(&self) -> (copy: Self)
        ensures
            model(Node::CodeBlock(copy)) == model(Node::CodeBlock(*self)),
    {
        CodeBlock {
            language: self.language.clone(),
            code: self.code.clone(),
            meta: match &self.meta {
                Some(m) => Some(clone_strings(m)),
                None => None,
            },
        }
    }
}

impl Clone for Text {
    fn clone(&self) -> (copy: Self)
        ensures
            copy.text@ == self.text@,
    {
        Text { text: self.text.clone() }
    }
}

impl Clone for Link {
    fn clone(&self) -> (copy: Self)
        ensures
            copy@ == self@,
    {
        clone_link(self)
    }
}

impl Clone for Bold {
    fn clone(&self) -> (copy: Self)
        ensures
            models(copy.children@) == models(self.children@),
    {
        Bold { children: Box::new(clone_nodes(&self.children)) }
    }
}

impl Clone for Italic {
    fn clone(&self) -> (copy: Self)
        ensures
            models(copy.children@) == models(self.children@),
    {
        Italic { children: Box::new(clone_nodes(&self.children)) }
    }
}

impl Clone for Heading {
    fn clone(&self) -> (copy: Self)
        ensures
            copy.level == self.level,
            copy.text@ == self.text@,
    {
        Heading { level: self.level, text: self.text.clone() }
    }
}

impl Clone for Paragraph {
    fn clone(&self) -> (copy: Self)
        ensures
            models(copy.children@) == models(self.children@),
    {
        Paragraph { children: Box::new(clone_nodes(&self.children)) }
    }
}

impl Clone for List {
    fn clone(&self) -> (copy: Self)
        ensures
            copy.ordered == self.ordered,
            copy.start == self.start,
            models(copy.children@) == models(self.children@),
    {
        List {
            ordered: self.ordered,
            start: self.start,
            children: Box::new(clone_nodes(&self.children)),
        }
    }
}

impl Clone for Blockquote {
    fn clone(&self) -> (copy: Self)
        ensures
            models(copy.children@) == models(self.children@),
    {
        Blockquote { children: Box::new(clone_nodes(&self.children)) }
    }
}

impl Clone for ReactComponent {
    fn clone(&self) -> (copy: Self)
        ensures
            copy.name@ == self.name@,
            strings(copy.props@) == strings(self.props@),
            models(copy.children@) == models(self.children@),
    {
        ReactComponent {
            name: self.name.clone(),
            props: clone_strings(&self.props),
            children: Box::new(clone_nodes(&self.children)),
        }
    }
}

impl Clone for VueComponent {
    fn clone(&self) -> (copy: Self)
        ensures
            copy.name@ == self.name@,
            strings(copy.props@) == strings(self.props@),
            models(copy.children@) == models(self.children@),
    {
        VueComponent {
            name: self.name.clone(),
            props: clone_strings(&self.props),
            children: Box::new(clone_nodes(&self.children)),
        }
    }
}

impl Clone for Table {
    fn clone(&self) -> (copy: Self)
        ensures
            strings(copy.header@) == strings(self.header@),
            rows(copy.rows@) == rows(self.rows@),
    {
        Table { header: clone_strings(&self.header), rows: clone_rows(&self.rows) }
    }
}

impl Clone for Node {
    fn clone(&self) -> (copy: Self)
        ensures
            copy@ == self@,
    {
        clone_node(self)
    }
}

impl Clone for Root {
    fn clone(&self) -> (copy: Self)
        ensures
            copy@ == self@,
    {
        Root { children: Box::new(clone_nodes(&self.children)) }
    }
}

impl Clone for Ast {
    fn clone(&self) -> (copy: Self)
        ensures
            copy@ == self@,
    {
        match self {
            Ast::Root(root) => Ast::Root(root.clone()),
        }
    }
}

/// Appending a node to a vector appends its model to the vector's models.
pub proof fn lemma_models_push(nodes: Seq<Node>, node: Node)
    ensures
        models(nodes.push(node)) == models(nodes).push(model(node)),
{
    assert(models(nodes.push(node)) =~= models(nodes).push(model(node)));
}

/// The models of a concatenation are the concatenation of the models.
pub proof fn lemma_models_concat(a: Seq<Node>, b: Seq<Node>)
    ensures
        models(a + b) == models(a) + models(b),
{
    assert(models(a + b) =~= models(a) + models(b));
}

} // verus!

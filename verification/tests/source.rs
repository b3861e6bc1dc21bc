use scc::ast::{
    Ast, Blockquote, Bold, CodeBlock, Heading, InlineCode, Italic, Link, List, Node, Paragraph,
    Root, Table, Text,
};
use scc::parser::scanner::MdxParser;

fn document(nodes: Vec<Node>) -> Ast {
    Ast::Root(Root { children: Box::new(nodes) })
}

fn text(t: &str) -> Node {
    Node::Text(Text { text: t.to_string() })
}

fn paragraph(kids: Vec<Node>) -> Node {
    Node::Paragraph(Paragraph { children: Box::new(kids) })
}

fn bold(kids: Vec<Node>) -> Node {
    Node::Bold(Bold { children: Box::new(kids) })
}

fn italic(kids: Vec<Node>) -> Node {
    Node::Italic(Italic { children: Box::new(kids) })
}

fn code(c: &str) -> Node {
    Node::InlineCode(InlineCode { code: c.to_string() })
}

fn link(alt: &str, url: &str, title: Option<&str>) -> Node {
    Node::Link(Link {
        url: url.to_string(),
        alt: alt.to_string(),
        title: title.map(|t| t.to_string()),
    })
}

fn literal(node: &Node) -> String {
    fn all(nodes: &[Node]) -> String {
        nodes.iter().map(literal).collect()
    }
    fn of_link(l: &Link) -> String {
        format!("{}{}{}", l.alt, l.url, l.title.clone().unwrap_or_default())
    }
    match node {
        Node::Text(t) => t.text.clone(),
        Node::CodeBlock(c) => format!("{}{}", c.language, c.code),
        Node::Html(h) => h.clone(),
        Node::Heading(h) => h.text.clone(),
        Node::Paragraph(p) => all(&p.children),
        Node::List(l) => all(&l.children),
        Node::Blockquote(b) => all(&b.children),
        Node::Bold(b) => all(&b.children),
        Node::Italic(i) => all(&i.children),
        Node::Link(l) => of_link(l),
        Node::Image(l) => of_link(l),
        Node::InlineCode(c) => c.code.clone(),
        _ => String::new(),
    }
}

fn structural(c: char) -> bool {
    c.is_whitespace() || c.is_ascii_digit() || "#`*_[]()\"'>+-!.".contains(c)
}

fn reduces_to(s: &[char], t: &[char]) -> bool {
    if s.is_empty() {
        return t.is_empty();
    }
    (!t.is_empty() && t[0] == s[0] && reduces_to(&s[1..], &t[1..]))
        || (structural(s[0]) && reduces_to(&s[1..], t))
}

fn preserved(input: &str) -> bool {
    let Ast::Root(root) = MdxParser::parse(input).expect("input parses");
    let found: String = root.children.iter().map(literal).collect();
    let s: Vec<char> = input.chars().collect();
    let t: Vec<char> = found.chars().collect();
    reduces_to(&s, &t)
}

#[test]
fn sources_of_text_level_nodes() {
    assert_eq!(text("plain").to_source(), "plain");
    assert_eq!(code("x*y").to_source(), "`x*y`");
    assert_eq!(bold(vec![text("b")]).to_source(), "**b**");
    assert_eq!(italic(vec![text("i"), bold(vec![])]).to_source(), "_i****_");
    assert_eq!(link("a", "u", None).to_source(), "[a](u)");
    assert_eq!(link("a", "u", Some("t")).to_source(), "[a](u \"t\")");
    assert_eq!(
        Node::Image(Link { url: "u".to_string(), alt: "a".to_string(), title: None }).to_source(),
        "![a](u)"
    );
}

#[test]
fn display_text_of_nodes() {
    assert_eq!(
        Node::Heading(Heading { level: 12, text: "T t".to_string() }).to_text(),
        Some("h12 T t".to_string())
    );
    assert_eq!(text("body").to_text(), Some("p body".to_string()));
    assert_eq!(code("x").to_text(), Some("`x`".to_string()));
    assert_eq!(
        Node::CodeBlock(CodeBlock {
            language: "rs".to_string(),
            code: "a\nb".to_string(),
            meta: None
        })
        .to_text(),
        Some("```rs\na\nb\n```".to_string())
    );
    assert_eq!(link("a", "u", Some("t")).to_text(), Some("[a](u)".to_string()));
    assert_eq!(
        Node::Image(Link { url: "u".to_string(), alt: "a".to_string(), title: None }).to_text(),
        Some("![a](u)".to_string())
    );
    assert_eq!(Node::ThematicBreak.to_text(), Some("Unknown node".to_string()));
    assert_eq!(bold(vec![text("b")]).to_text(), Some("Unknown node".to_string()));
    assert_eq!(Node::Html("<p>".to_string()).to_text(), Some("Unknown node".to_string()));
    assert_eq!(paragraph(vec![text("a")]).to_text(), None);
    assert_eq!(
        Node::List(List { ordered: false, start: None, children: Box::new(vec![]) }).to_text(),
        None
    );
    assert_eq!(Node::Blockquote(Blockquote { children: Box::new(vec![]) }).to_text(), None);
}

#[test]
fn sources_of_blocks() {
    assert_eq!(
        Node::Heading(Heading { level: 3, text: "T".to_string() }).to_source(),
        "### T\n"
    );
    assert_eq!(paragraph(vec![text("a"), code("b")]).to_source(), "a`b`\n\n");
    assert_eq!(
        Node::CodeBlock(CodeBlock {
            language: "rs".to_string(),
            code: "x\ny".to_string(),
            meta: None
        })
        .to_source(),
        "```rs\nx\ny\n```\n"
    );
    assert_eq!(Node::ThematicBreak.to_source(), "---\n");
    assert_eq!(
        Node::List(List {
            ordered: false,
            start: None,
            children: Box::new(vec![paragraph(vec![text("a")]), text("b")]),
        })
        .to_source(),
        "- a\n- b\n"
    );
    assert_eq!(
        Node::List(List {
            ordered: true,
            start: Some(12),
            children: Box::new(vec![paragraph(vec![text("a")]), paragraph(vec![text("b")])]),
        })
        .to_source(),
        "12. a\n12. b\n"
    );
    assert_eq!(
        Node::List(List { ordered: true, start: None, children: Box::new(vec![text("a")]) })
            .to_source(),
        "1. a\n"
    );
    assert_eq!(
        Node::Blockquote(Blockquote {
            children: Box::new(vec![
                Node::Heading(Heading { level: 1, text: "h".to_string() }),
                Node::ThematicBreak,
            ]),
        })
        .to_source(),
        "> # h\n> ---\n"
    );
}

#[test]
fn sources_of_kinds_without_syntax() {
    assert_eq!(Node::Html("<div/>".to_string()).to_source(), "<div/>");
    assert_eq!(Node::SoftBreak.to_source(), "\n");
    assert_eq!(Node::HardBreak.to_source(), "\n");
    assert_eq!(Node::Table(Table { header: vec!["h".to_string()], rows: vec![] }).to_source(), "");
}

#[test]
fn document_source_joins_its_blocks() {
    let ast = document(vec![
        Node::Heading(Heading { level: 1, text: "T".to_string() }),
        paragraph(vec![text("body")]),
        Node::ThematicBreak,
    ]);
    assert_eq!(ast.to_source(), "# T\nbody\n\n---\n");
    assert_eq!(document(vec![]).to_source(), "");
}

#[test]
fn faithful_documents_survive_the_round_trip() {
    let ast = document(vec![
        Node::Heading(Heading { level: 2, text: " A **title** with `marks` ".to_string() }),
        paragraph(vec![
            text("Some text "),
            bold(vec![
                text("strong "),
                italic(vec![text("and "), bold(vec![text("deep")]), code("c_o*de")]),
                link("docs", "https://example.org", Some("Reference")),
            ]),
            text(" then "),
            code("a * b"),
            italic(vec![]),
            link("x y", "u", None),
            text(" and text before a link "),
            link("z", "v", None),
        ]),
        Node::CodeBlock(CodeBlock {
            language: "rust".to_string(),
            code: "fn main() {\n    ```not a fence\n}\n".to_string(),
            meta: None,
        }),
        Node::ThematicBreak,
        Node::CodeBlock(CodeBlock { language: "".to_string(), code: "".to_string(), meta: None }),
        paragraph(vec![text("end")]),
    ]);
    let source = ast.to_source();
    assert_eq!(MdxParser::parse(&source), Ok(ast));
}

#[test]
fn faithful_lists_links_and_images_survive_the_round_trip() {
    let item = |kids: Vec<Node>| paragraph(kids);
    let ast = document(vec![
        Node::List(List {
            ordered: false,
            start: None,
            children: Box::new(vec![
                item(vec![text("one "), bold(vec![text("two")])]),
                item(vec![]),
                item(vec![code("x"), text(" - y")]),
            ]),
        }),
        Node::Heading(Heading { level: 1, text: "".to_string() }),
        Node::List(List {
            ordered: true,
            start: Some(7),
            children: Box::new(vec![item(vec![text("seven")]), item(vec![text("more")])]),
        }),
        paragraph(vec![text("text")]),
        link("a", "u", Some("t")),
        Node::Image(Link { url: "i.png".to_string(), alt: "".to_string(), title: None }),
        Node::List(List {
            ordered: true,
            start: Some(0),
            children: Box::new(vec![item(vec![link("b", "", None)])]),
        }),
        Node::ThematicBreak,
    ]);
    let source = ast.to_source();
    assert_eq!(
        source,
        "- one **two**\n- \n- `x` - y\n# \n7. seven\n7. more\ntext\n\n[a](u \"t\")![](i.png)0. [b]()\n---\n"
    );
    assert_eq!(MdxParser::parse(&source), Ok(ast));
}

#[test]
fn a_list_takes_in_what_starts_like_its_items() {
    let ast = document(vec![
        Node::List(List {
            ordered: false,
            start: None,
            children: Box::new(vec![paragraph(vec![text("a")])]),
        }),
        Node::ThematicBreak,
    ]);
    assert!(MdxParser::parse(&ast.to_source()).is_err());
}

#[test]
fn round_trip_of_parsed_inputs() {
    for input in ["# Title\n", "one **two** three\n\n", "```lang\nbody\n```\n", "---\n"] {
        let ast = MdxParser::parse(input).expect("input parses");
        assert_eq!(ast.to_source(), input);
        assert_eq!(MdxParser::parse(&ast.to_source()), Ok(ast));
    }
}

#[test]
fn outside_the_faithful_subset_the_round_trip_may_change_the_tree() {
    let ast = document(vec![paragraph(vec![text("a"), text("b")])]);
    assert_eq!(
        MdxParser::parse(&ast.to_source()),
        Ok(document(vec![paragraph(vec![text("ab")])]))
    );
}

#[test]
fn literal_text_is_the_input_without_structural_scalars() {
    assert!(preserved("# Title"));
    assert!(preserved("one **two** three"));
    assert!(preserved("[Docs](https://example.org \"Reference\")"));
    assert!(preserved("```lang\nbody\n```"));
    assert!(preserved(
        "# Guide\n\nSome _nested **text**_ with `code` (and more).\n\n- item one\n- item [a](b)\n\n12. x\n13. y\n\n> quoted\n> # lines\n\n---\n\n![img]( u r l 'title' )\n"
    ));
}

#[test]
fn literal_text_of_a_known_input() {
    let Ast::Root(root) = MdxParser::parse("## A b\n\nc **d**[e](f \"g\")").expect("parses");
    let found: String = root.children.iter().map(literal).collect();
    assert_eq!(found, "A bc defg");
}

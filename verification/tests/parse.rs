use scc::ast::{Ast, Bold, CodeBlock, Heading, Link, Node, Paragraph, Text};
use scc::error::ParseError;
use scc::parser::scanner::MdxParser;

fn blocks(input: &str) -> Vec<Node> {
    match MdxParser::parse(input) {
        Ok(Ast::Root(root)) => *root.children,
        Err(e) => panic!("parse failed: {:?}", e),
    }
}

fn text(t: &str) -> Node {
    Node::Text(Text { text: t.to_string() })
}

#[test]
fn heading_level_one() {
    assert_eq!(
        blocks("# Title"),
        vec![Node::Heading(Heading { level: 1, text: "Title".to_string() })]
    );
}

#[test]
fn heading_level_three() {
    assert_eq!(
        blocks("### Sub"),
        vec![Node::Heading(Heading { level: 3, text: "Sub".to_string() })]
    );
}

#[test]
fn strong_inside_paragraph() {
    assert_eq!(
        blocks("one **two** three"),
        vec![Node::Paragraph(Paragraph {
            children: Box::new(vec![
                text("one "),
                Node::Bold(Bold { children: Box::new(vec![text("two")]) }),
                text(" three"),
            ]),
        })]
    );
}

#[test]
fn link_with_title() {
    assert_eq!(
        blocks("[Docs](https://example.org \"Reference\")"),
        vec![Node::Link(Link {
            url: "https://example.org".to_string(),
            alt: "Docs".to_string(),
            title: Some("Reference".to_string()),
        })]
    );
}

#[test]
fn fenced_code_block_terminates() {
    assert_eq!(
        blocks("```lang\nbody\n```"),
        vec![Node::CodeBlock(CodeBlock {
            language: "lang".to_string(),
            code: "body".to_string(),
            meta: None,
        })]
    );
}

#[test]
fn unterminated_link_is_an_error() {
    assert_eq!(
        MdxParser::parse("[broken](unterminated"),
        Err(ParseError::UnterminatedConstruct { offset: 8 })
    );
}

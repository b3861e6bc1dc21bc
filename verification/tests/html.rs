use scc::ast::{Ast, Bold, Heading, Italic, Link, List, Node, Paragraph, Root, Table, Text};
use scc::compiler::html::{trim, HtmlCompiler};
use scc::parser::scanner::MdxParser;
use scc::text::decimal_digits;

fn render(input: &str) -> String {
    let ast = MdxParser::parse(input).expect("input parses");
    HtmlCompiler::new().compile(&ast)
}

fn document(nodes: Vec<Node>) -> Ast {
    Ast::Root(Root { children: Box::new(nodes) })
}

fn text(t: &str) -> Node {
    Node::Text(Text { text: t.to_string() })
}

#[test]
fn empty_document_renders_to_nothing() {
    assert_eq!(render(""), "");
}

#[test]
fn heading_markup() {
    assert_eq!(render("# Title"), "<h1>Title</h1>");
    assert_eq!(render("### Sub\n"), "<h3>Sub</h3>");
}

#[test]
fn heading_level_is_written_in_decimal() {
    let ast = document(vec![Node::Heading(Heading { level: 120, text: "x".to_string() })]);
    assert_eq!(HtmlCompiler::new().compile(&ast), "<h120>x</h120>");
}

#[test]
fn paragraph_with_strong_and_emphasis() {
    assert_eq!(render("one **two** three"), "<p>one <b>two</b> three</p>");
    assert_eq!(render("a _b **c**_"), "<p>a <i>b <b>c</b></i></p>");
}

#[test]
fn blocks_are_separated_by_blank_lines() {
    assert_eq!(render("# T\n\nbody"), "<h1>T</h1>\n\n<p>body</p>");
}

#[test]
fn code_markup() {
    assert_eq!(render("a `b` c"), "<p>a <code>b</code> c</p>");
    assert_eq!(
        render("```rs\nlet x;\n```"),
        "<pre>\n        <code>let x;</code>\n      </pre>"
    );
}

#[test]
fn list_markup() {
    assert_eq!(
        render("- a\n- b *c*"),
        "<ul>\n      <li>a</li><li>b <i>c</i></li>\n    </ul>"
    );
    assert_eq!(render("1. x"), "<ol>\n      <li>x</li>\n    </ol>");
}

#[test]
fn list_item_that_is_no_paragraph() {
    let ast = document(vec![Node::List(List {
        ordered: false,
        start: None,
        children: Box::new(vec![text("bare")]),
    })]);
    assert_eq!(
        HtmlCompiler::new().compile(&ast),
        "<ul>\n      <li>bare</li>\n    </ul>"
    );
}

#[test]
fn blockquote_markup() {
    assert_eq!(
        render("> # H\n> a"),
        "<blockquote><h1>H</h1>\n\n<p>a</p>\n\n</blockquote>"
    );
}

#[test]
fn link_and_image_markup() {
    assert_eq!(render("[a](u \"t\")"), "<a href=\"u\">a</a>");
    assert_eq!(render("![a](u)"), "<img src=\"u\" alt=\"a\" />");
}

#[test]
fn unsupported_kinds_leave_a_trace() {
    assert_eq!(render("---"), "<!-- unsupported node -->");
    let ast = document(vec![
        Node::Table(Table { header: vec![], rows: vec![] }),
        Node::Paragraph(Paragraph {
            children: Box::new(vec![text("a"), Node::HardBreak, text("b")]),
        }),
        Node::Bold(Bold { children: Box::new(vec![]) }),
    ]);
    assert_eq!(
        HtmlCompiler::new().compile(&ast),
        "<!-- unsupported node --><p>a<!-- unsupported node -->b</p>\n\n<!-- unsupported node -->"
    );
}

#[test]
fn line_context_renders_strong_and_emphasis() {
    let mut compiler = HtmlCompiler::new();
    compiler.compile_line_node(&Node::Bold(Bold { children: Box::new(vec![text("b")]) }));
    compiler.compile_line_node(&Node::Italic(Italic { children: Box::new(vec![text("i")]) }));
    compiler.compile_line_node(&Node::Heading(Heading { level: 1, text: "h".to_string() }));
    assert_eq!(
        compiler.compile(&document(vec![])),
        "<b>b</b><i>i</i><!-- unsupported node -->"
    );
}

#[test]
fn output_accumulates_over_calls() {
    let mut compiler = HtmlCompiler::new();
    compiler.push("a");
    compiler.white_space();
    compiler.push("b");
    compiler.new_line();
    compiler.push("c");
    compiler.double_new_line();
    compiler.compile_link(&Link { url: "u".to_string(), alt: "d".to_string(), title: None });
    compiler.double_new_line();
    assert_eq!(
        compiler.compile(&document(vec![text("e")])),
        "a b\nc\n\n<a href=\"u\">d</a>\n\ne"
    );
    assert_eq!(
        compiler.compile(&document(vec![text("f  ")])),
        "a b\nc\n\n<a href=\"u\">d</a>\n\nef"
    );
}

#[test]
fn text_is_written_as_it_is() {
    assert_eq!(render("a <b> & c"), "<p>a <b> & c</p>");
}

#[test]
fn trim_drops_white_space_at_both_ends_only() {
    assert_eq!(trim("  a b \n"), "a b");
    assert_eq!(trim("\u{3000}x\u{a0}"), "x");
    assert_eq!(trim(" \t\n"), "");
    assert_eq!(trim(""), "");
    assert_eq!(trim("x"), "x");
    assert_eq!(trim("\u{200b} "), "\u{200b}");
}

#[test]
fn decimal_digits_of_numbers() {
    assert_eq!(decimal_digits(0), "0");
    assert_eq!(decimal_digits(9), "9");
    assert_eq!(decimal_digits(10), "10");
    assert_eq!(decimal_digits(4096), "4096");
    assert_eq!(decimal_digits(usize::MAX), usize::MAX.to_string());
}

use scc::ast::{Ast, Bold, InlineCode, Italic, Link, Node, Paragraph, Text};
use scc::error::ParseError;
use scc::parser::scanner::MdxParser;
use scc::parser::spans::repeat;

fn scalars(s: &str) -> Vec<char> {
    s.chars().collect()
}

fn text(t: &str) -> Node {
    Node::Text(Text { text: t.to_string() })
}

fn paragraph(kids: Vec<Node>) -> Node {
    Node::Paragraph(Paragraph { children: Box::new(kids) })
}

fn bold(kids: Vec<Node>) -> Node {
    Node::Bold(Bold { children: Box::new(kids) })
}

fn italic(kids: Vec<Node>) -> Node {
    Node::Italic(Italic { children: Box::new(kids) })
}

fn blocks(input: &str) -> Vec<Node> {
    match MdxParser::parse(input) {
        Ok(Ast::Root(root)) => *root.children,
        Err(e) => panic!("parse failed: {:?}", e),
    }
}

#[test]
fn text_stops_at_special_scalars() {
    let input = scalars("plain (x) text*rest");
    let mut scanner = MdxParser::new(&input);
    assert_eq!(scanner.parse_text(), text("plain (x) text"));
    assert_eq!(scanner.cursor, 14);
    for stop in ['`', '*', '_', '['] {
        let input = scalars(&format!("ab]{}cd", stop));
        let mut scanner = MdxParser::new(&input);
        assert_eq!(scanner.parse_text(), text("ab]"));
        assert_eq!(scanner.cursor, 3);
    }
}

#[test]
fn text_stops_at_a_blank_line_but_not_at_a_line_end() {
    let input = scalars("one\ntwo\n\nthree");
    let mut scanner = MdxParser::new(&input);
    assert_eq!(scanner.parse_text(), text("one\ntwo"));
    assert_eq!(scanner.cursor, 7);
}

#[test]
fn inline_code_keeps_its_body_raw() {
    let input = scalars("`a *b* _c_`x");
    let mut scanner = MdxParser::new(&input);
    assert_eq!(
        scanner.parse_inline_code(),
        Ok(Node::InlineCode(InlineCode { code: "a *b* _c_".to_string() }))
    );
    assert_eq!(scanner.cursor, 11);
}

#[test]
fn inline_code_without_closing_backtick_is_unterminated() {
    let input = scalars("ab `code");
    let mut scanner = MdxParser::new(&input);
    scanner.advance_many(3);
    assert_eq!(
        scanner.parse_inline_code(),
        Err(ParseError::UnterminatedConstruct { offset: 3 })
    );
}

#[test]
fn inline_code_needs_its_opening_backtick() {
    let input = scalars("code`");
    let mut scanner = MdxParser::new(&input);
    assert_eq!(
        scanner.parse_inline_code(),
        Err(ParseError::ScanMismatch {
            offset: 0,
            expected: "`".to_string(),
            found: "c".to_string(),
        })
    );
}

#[test]
fn strong_and_emphasis_nest() {
    assert_eq!(
        blocks("a **b _c_ d** e"),
        vec![paragraph(vec![
            text("a "),
            bold(vec![text("b "), italic(vec![text("c")]), text(" d")]),
            text(" e"),
        ])]
    );
}

#[test]
fn emphasis_with_star_and_with_underscore() {
    assert_eq!(
        blocks("x *a* _b_"),
        vec![paragraph(vec![
            text("x "),
            italic(vec![text("a")]),
            text(" "),
            italic(vec![text("b")]),
        ])]
    );
}

#[test]
fn emphasis_does_not_close_on_the_other_mark() {
    assert_eq!(
        blocks("x _a *b* c_"),
        vec![paragraph(vec![
            text("x "),
            italic(vec![text("a "), italic(vec![text("b")]), text(" c")]),
        ])]
    );
}

#[test]
fn strong_never_closed_is_unterminated() {
    assert_eq!(
        MdxParser::parse("x **bold"),
        Err(ParseError::UnterminatedConstruct { offset: 2 })
    );
}

#[test]
fn strong_is_cut_by_a_blank_line() {
    assert_eq!(
        MdxParser::parse("x **bold\n\nmore**"),
        Err(ParseError::UnterminatedConstruct { offset: 2 })
    );
}

#[test]
fn emphasis_nests_inside_strong_with_the_same_mark() {
    let input = scalars("**a *b* c**");
    let mut scanner = MdxParser::new(&input);
    assert_eq!(
        scanner.parse_strong(),
        Ok(bold(vec![text("a "), italic(vec![text("b")]), text(" c")]))
    );
    assert_eq!(scanner.cursor, 11);
}

#[test]
fn strong_nests_inside_emphasis_with_the_same_mark() {
    let input = scalars("*a **b** c*");
    let mut scanner = MdxParser::new(&input);
    assert_eq!(
        scanner.parse_italic(),
        Ok(italic(vec![text("a "), bold(vec![text("b")]), text(" c")]))
    );
    assert_eq!(scanner.cursor, 11);
}

#[test]
fn a_run_of_another_length_does_not_close() {
    assert_eq!(
        MdxParser::parse("x **a*"),
        Err(ParseError::UnterminatedConstruct { offset: 5 })
    );
    assert_eq!(
        MdxParser::parse("x *a** b"),
        Err(ParseError::UnterminatedConstruct { offset: 4 })
    );
    assert_eq!(
        MdxParser::parse("x __a__"),
        Ok(scc::ast::Ast::Root(scc::ast::Root {
            children: Box::new(vec![paragraph(vec![
                text("x "),
                italic(vec![]),
                text("a"),
                italic(vec![]),
            ])]),
        }))
    );
}

#[test]
fn run_length_counts_without_moving() {
    let input = scalars("***a*");
    let mut scanner = MdxParser::new(&input);
    assert_eq!(scanner.run_length('*'), 3);
    assert_eq!(scanner.run_length('_'), 0);
    assert_eq!(scanner.cursor, 0);
    scanner.advance_many(4);
    assert_eq!(scanner.run_length('*'), 1);
    scanner.advance_one();
    assert_eq!(scanner.run_length('*'), 0);
}

#[test]
fn children_stop_at_the_closing_run() {
    let input = scalars("a *b* c** d");
    let mut scanner = MdxParser::new(&input);
    assert_eq!(
        scanner.parse_children('*', 2, 0),
        Ok(vec![text("a "), italic(vec![text("b")]), text(" c")])
    );
    assert_eq!(scanner.cursor, 7);
}

#[test]
fn italic_needs_a_mark() {
    let input = scalars("abc");
    let mut scanner = MdxParser::new(&input);
    assert_eq!(
        scanner.parse_italic(),
        Err(ParseError::ScanMismatch {
            offset: 0,
            expected: "*".to_string(),
            found: "a".to_string(),
        })
    );
}

#[test]
fn link_without_title() {
    let input = scalars("[a b](http://x.y/z)!");
    let mut scanner = MdxParser::new(&input);
    assert_eq!(
        scanner.parse_link(),
        Ok(Node::Link(Link { url: "http://x.y/z".to_string(), alt: "a b".to_string(), title: None }))
    );
    assert_eq!(scanner.cursor, 19);
}

#[test]
fn link_target_loses_its_white_space() {
    let input = scalars("[a]( u r\tl )");
    let mut scanner = MdxParser::new(&input);
    assert_eq!(
        scanner.parse_link(),
        Ok(Node::Link(Link { url: "url".to_string(), alt: "a".to_string(), title: None }))
    );
}

#[test]
fn link_title_in_single_quotes_and_empty_title() {
    let input = scalars("[a](u 'it\"s' )");
    let mut scanner = MdxParser::new(&input);
    assert_eq!(
        scanner.parse_link(),
        Ok(Node::Link(Link {
            url: "u".to_string(),
            alt: "a".to_string(),
            title: Some("it\"s".to_string()),
        }))
    );
    let input = scalars("[a](u \"\")");
    let mut scanner = MdxParser::new(&input);
    assert_eq!(
        scanner.parse_link(),
        Ok(Node::Link(Link {
            url: "u".to_string(),
            alt: "a".to_string(),
            title: Some("".to_string()),
        }))
    );
}

#[test]
fn link_errors() {
    assert_eq!(
        MdxParser::parse("[never closed"),
        Err(ParseError::UnterminatedConstruct { offset: 0 })
    );
    assert_eq!(
        MdxParser::parse("[a] (u)"),
        Err(ParseError::ScanMismatch {
            offset: 3,
            expected: "(".to_string(),
            found: " ".to_string(),
        })
    );
    assert_eq!(
        MdxParser::parse("[a]"),
        Err(ParseError::ScanMismatch {
            offset: 3,
            expected: "(".to_string(),
            found: "".to_string(),
        })
    );
    assert_eq!(
        MdxParser::parse("[a](u \"title"),
        Err(ParseError::UnterminatedConstruct { offset: 6 })
    );
    assert_eq!(
        MdxParser::parse("[a](u \"t\" x)"),
        Err(ParseError::ScanMismatch {
            offset: 10,
            expected: ")".to_string(),
            found: "x".to_string(),
        })
    );
    assert_eq!(
        MdxParser::parse("[a](u \"t\"  "),
        Err(ParseError::UnterminatedConstruct { offset: 3 })
    );
}

#[test]
fn image_is_a_link_behind_a_bang() {
    assert_eq!(
        blocks("![logo](logo.png \"The logo\")"),
        vec![Node::Image(Link {
            url: "logo.png".to_string(),
            alt: "logo".to_string(),
            title: Some("The logo".to_string()),
        })]
    );
    assert_eq!(
        MdxParser::parse("!logo"),
        Err(ParseError::ScanMismatch {
            offset: 0,
            expected: "![".to_string(),
            found: "!l".to_string(),
        })
    );
}

#[test]
fn link_after_literal_text() {
    let input = scalars("see [a](b) now");
    let mut scanner = MdxParser::new(&input);
    assert_eq!(
        scanner.parse_paragraphs(),
        Ok(paragraph(vec![
            text("see "),
            Node::Link(Link { url: "b".to_string(), alt: "a".to_string(), title: None }),
            text(" now"),
        ]))
    );
    assert_eq!(scanner.cursor, 14);
}

#[test]
fn bracket_in_a_line_must_open_a_link() {
    assert_eq!(
        MdxParser::parse("a[1]"),
        Err(ParseError::ScanMismatch {
            offset: 4,
            expected: "(".to_string(),
            found: "".to_string(),
        })
    );
}

#[test]
fn link_inside_strong() {
    assert_eq!(
        blocks("see **[a](b)**"),
        vec![paragraph(vec![
            text("see "),
            bold(vec![Node::Link(Link {
                url: "b".to_string(),
                alt: "a".to_string(),
                title: None,
            })]),
        ])]
    );
}

#[test]
fn code_span_inside_a_paragraph() {
    assert_eq!(
        blocks("use `x` now"),
        vec![paragraph(vec![
            text("use "),
            Node::InlineCode(InlineCode { code: "x".to_string() }),
            text(" now"),
        ])]
    );
}

#[test]
fn line_nodes_stop_at_a_blank_line() {
    let input = scalars("a *b*\n\nc");
    let mut scanner = MdxParser::new(&input);
    assert_eq!(
        scanner.parse_line_nodes(),
        Ok(vec![text("a "), italic(vec![text("b")])])
    );
    assert_eq!(scanner.cursor, 5);
}

#[test]
fn repeat_writes_the_mark() {
    assert_eq!(repeat('*', 2), "**");
    assert_eq!(repeat('#', 0), "");
}

use scc::ast::{
    Ast, Blockquote, CodeBlock, Heading, InlineCode, Italic, List, Node, Paragraph, Text,
};
use scc::error::ParseError;
use scc::parser::scanner::MdxParser;

fn scalars(s: &str) -> Vec<char> {
    s.chars().collect()
}

fn text(t: &str) -> Node {
    Node::Text(Text { text: t.to_string() })
}

fn paragraph(kids: Vec<Node>) -> Node {
    Node::Paragraph(Paragraph { children: Box::new(kids) })
}

fn heading(level: usize, t: &str) -> Node {
    Node::Heading(Heading { level, text: t.to_string() })
}

fn blocks(input: &str) -> Vec<Node> {
    match MdxParser::parse(input) {
        Ok(Ast::Root(root)) => *root.children,
        Err(e) => panic!("parse failed: {:?}", e),
    }
}

#[test]
fn empty_and_blank_inputs_have_no_blocks() {
    assert_eq!(blocks(""), vec![]);
    assert_eq!(blocks(" \n\t\n  "), vec![]);
}

#[test]
fn heading_level_counts_the_markers() {
    assert_eq!(blocks("######## deep"), vec![heading(8, "deep")]);
}

#[test]
fn heading_text_is_literal() {
    assert_eq!(blocks("## a **b** `c`\n"), vec![heading(2, "a **b** `c`")]);
}

#[test]
fn heading_takes_one_separator_only() {
    assert_eq!(blocks("#  two"), vec![heading(1, " two")]);
}

#[test]
fn heading_needs_a_separator() {
    assert_eq!(
        MdxParser::parse("#Title"),
        Err(ParseError::ScanMismatch {
            offset: 1,
            expected: " ".to_string(),
            found: "T".to_string(),
        })
    );
    assert_eq!(
        MdxParser::parse("##"),
        Err(ParseError::ScanMismatch {
            offset: 2,
            expected: " ".to_string(),
            found: "".to_string(),
        })
    );
}

#[test]
fn heading_production_needs_a_marker() {
    let input = scalars("Title");
    let mut scanner = MdxParser::new(&input);
    assert_eq!(
        scanner.parse_heading(),
        Err(ParseError::ScanMismatch {
            offset: 0,
            expected: "#".to_string(),
            found: "T".to_string(),
        })
    );
}

#[test]
fn heading_level_production_counts_from_the_cursor() {
    let input = scalars("x### y");
    let mut scanner = MdxParser::new(&input);
    assert_eq!(scanner.parse_heading_level(), 0);
    scanner.advance_one();
    assert_eq!(scanner.parse_heading_level(), 3);
    assert_eq!(scanner.cursor, 4);
}

#[test]
fn blocks_follow_in_document_order() {
    assert_eq!(
        blocks("# One\n\nfirst\n\n## Two\nsecond\n"),
        vec![
            heading(1, "One"),
            paragraph(vec![text("first")]),
            heading(2, "Two"),
            paragraph(vec![text("second\n")]),
        ]
    );
}

#[test]
fn paragraph_runs_over_single_line_ends() {
    assert_eq!(blocks("a\nb\n\nc"), vec![paragraph(vec![text("a\nb")]), paragraph(vec![text("c")])]);
}

#[test]
fn code_block_with_several_lines() {
    assert_eq!(
        blocks("```rust\nfn main() {\n\n}\n```\nafter"),
        vec![
            Node::CodeBlock(CodeBlock {
                language: "rust".to_string(),
                code: "fn main() {\n\n}".to_string(),
                meta: None,
            }),
            paragraph(vec![text("after")]),
        ]
    );
}

#[test]
fn code_block_with_empty_body_and_empty_language() {
    assert_eq!(
        blocks("```\n```"),
        vec![Node::CodeBlock(CodeBlock {
            language: "".to_string(),
            code: "".to_string(),
            meta: None,
        })]
    );
}

#[test]
fn code_block_body_is_raw() {
    assert_eq!(
        blocks("```md\n# not a heading\n**raw**\n``` not a fence\n```"),
        vec![Node::CodeBlock(CodeBlock {
            language: "md".to_string(),
            code: "# not a heading\n**raw**\n``` not a fence".to_string(),
            meta: None,
        })]
    );
}

#[test]
fn code_block_without_closing_fence_is_unterminated() {
    assert_eq!(
        MdxParser::parse("x\n\n```rust\ncode\n"),
        Err(ParseError::UnterminatedConstruct { offset: 3 })
    );
    assert_eq!(
        MdxParser::parse("```rust"),
        Err(ParseError::UnterminatedConstruct { offset: 0 })
    );
}

#[test]
fn code_span_at_block_level() {
    assert_eq!(
        blocks("`x`"),
        vec![Node::InlineCode(InlineCode { code: "x".to_string() })]
    );
}

#[test]
fn fence_search_stops_at_the_first_fence_line() {
    let input = scalars("a\n```\nb\n```");
    let mut scanner = MdxParser::new(&input);
    assert!(scanner.find_closing_fence());
    assert_eq!(scanner.cursor, 2);
    let input = scalars("a\nb");
    let mut scanner = MdxParser::new(&input);
    assert!(!scanner.find_closing_fence());
}

#[test]
fn unordered_list_items() {
    assert_eq!(
        blocks("- one\n- two *x*\n- three"),
        vec![Node::List(List {
            ordered: false,
            start: None,
            children: Box::new(vec![
                paragraph(vec![text("one")]),
                paragraph(vec![
                    text("two "),
                    Node::Italic(Italic { children: Box::new(vec![text("x")]) }),
                ]),
                paragraph(vec![text("three")]),
            ]),
        })]
    );
}

#[test]
fn unordered_list_ends_where_the_marker_is_missing() {
    assert_eq!(
        blocks("+ a\n+ b\n\ntext"),
        vec![
            Node::List(List {
                ordered: false,
                start: None,
                children: Box::new(vec![paragraph(vec![text("a")]), paragraph(vec![text("b")])]),
            }),
            paragraph(vec![text("text")]),
        ]
    );
    assert_eq!(
        blocks("+ a\n- b"),
        vec![
            Node::List(List {
                ordered: false,
                start: None,
                children: Box::new(vec![paragraph(vec![text("a")])]),
            }),
            Node::List(List {
                ordered: false,
                start: None,
                children: Box::new(vec![paragraph(vec![text("b")])]),
            }),
        ]
    );
}

#[test]
fn ordered_list_starts_at_its_first_number() {
    assert_eq!(
        blocks("3. x\n4. y\n10. z\n"),
        vec![Node::List(List {
            ordered: true,
            start: Some(3),
            children: Box::new(vec![
                paragraph(vec![text("x")]),
                paragraph(vec![text("y")]),
                paragraph(vec![text("z")]),
            ]),
        })]
    );
}

#[test]
fn ordered_list_number_with_leading_zeros() {
    assert_eq!(
        blocks("007. bond"),
        vec![Node::List(List {
            ordered: true,
            start: Some(7),
            children: Box::new(vec![paragraph(vec![text("bond")])]),
        })]
    );
}

#[test]
fn list_errors() {
    assert_eq!(
        MdxParser::parse("-item"),
        Err(ParseError::ScanMismatch {
            offset: 1,
            expected: " ".to_string(),
            found: "i".to_string(),
        })
    );
    assert_eq!(
        MdxParser::parse("1) x"),
        Err(ParseError::ScanMismatch {
            offset: 1,
            expected: ".".to_string(),
            found: ")".to_string(),
        })
    );
    assert_eq!(
        MdxParser::parse("1.x"),
        Err(ParseError::ScanMismatch {
            offset: 2,
            expected: " ".to_string(),
            found: "x".to_string(),
        })
    );
    assert_eq!(
        MdxParser::parse("a\n\n1. x\n99999999999999999999999999999999999999999. y"),
        Err(ParseError::MalformedNumber { offset: 8 })
    );
}

#[test]
fn number_production() {
    let input = scalars("42.");
    let mut scanner = MdxParser::new(&input);
    assert_eq!(scanner.parse_number(), Ok(42));
    assert_eq!(scanner.cursor, 2);
    assert_eq!(scanner.parse_number(), Err(ParseError::MalformedNumber { offset: 2 }));
    let big = usize::MAX.to_string();
    let input = scalars(&big);
    let mut scanner = MdxParser::new(&input);
    assert_eq!(scanner.parse_number(), Ok(usize::MAX));
    let too_big = format!("{}0", usize::MAX);
    let input = scalars(&too_big);
    let mut scanner = MdxParser::new(&input);
    assert_eq!(scanner.parse_number(), Err(ParseError::MalformedNumber { offset: 0 }));
    let one_more = format!("{}", usize::MAX as u128 + 1);
    let input = scalars(&one_more);
    let mut scanner = MdxParser::new(&input);
    assert_eq!(scanner.parse_number(), Err(ParseError::MalformedNumber { offset: 0 }));
}

#[test]
fn list_production_rejects_other_scalars() {
    let input = scalars("x");
    let mut scanner = MdxParser::new(&input);
    assert_eq!(
        scanner.parse_list(),
        Err(ParseError::UnexpectedScalar { offset: 0, found: 'x' })
    );
}

#[test]
fn blockquote_joins_its_lines() {
    assert_eq!(
        blocks("> # Hi\n> text\n>more\n\nafter"),
        vec![
            Node::Blockquote(Blockquote {
                children: Box::new(vec![
                    heading(1, "Hi"),
                    paragraph(vec![text("text")]),
                    paragraph(vec![text("more")]),
                ]),
            }),
            paragraph(vec![text("after")]),
        ]
    );
}

#[test]
fn blockquote_nests() {
    assert_eq!(
        blocks("> > deep"),
        vec![Node::Blockquote(Blockquote {
            children: Box::new(vec![Node::Blockquote(Blockquote {
                children: Box::new(vec![paragraph(vec![text("deep")])]),
            })]),
        })]
    );
}

#[test]
fn blockquote_with_an_empty_line() {
    assert_eq!(
        blocks(">\n> a"),
        vec![Node::Blockquote(Blockquote {
            children: Box::new(vec![paragraph(vec![text("a")])]),
        })]
    );
}

#[test]
fn blockquote_errors_keep_their_offset_in_the_input() {
    assert_eq!(
        MdxParser::parse("> ok\n> #bad"),
        Err(ParseError::ScanMismatch {
            offset: 8,
            expected: " ".to_string(),
            found: "b".to_string(),
        })
    );
}

#[test]
fn thematic_breaks() {
    assert_eq!(blocks("---"), vec![Node::ThematicBreak]);
    assert_eq!(blocks("*****\n"), vec![Node::ThematicBreak]);
    assert_eq!(
        blocks("a\n\n___\n\nb"),
        vec![paragraph(vec![text("a")]), Node::ThematicBreak, paragraph(vec![text("b")])]
    );
}

#[test]
fn thematic_break_must_fill_its_line() {
    assert_eq!(
        MdxParser::parse("--- x"),
        Err(ParseError::ScanMismatch {
            offset: 3,
            expected: "\n".to_string(),
            found: " ".to_string(),
        })
    );
    let input = scalars("--");
    let mut scanner = MdxParser::new(&input);
    assert_eq!(
        scanner.parse_thematic_break(),
        Err(ParseError::ScanMismatch {
            offset: 0,
            expected: "---".to_string(),
            found: "--".to_string(),
        })
    );
}

#[test]
fn scalars_without_a_production_are_errors() {
    assert_eq!(
        MdxParser::parse("~~x~~"),
        Err(ParseError::UnexpectedScalar { offset: 0, found: '~' })
    );
    assert_eq!(
        MdxParser::parse("ok\n\n  é"),
        Err(ParseError::UnexpectedScalar { offset: 6, found: 'é' })
    );
}

#[test]
fn first_error_wins() {
    assert_eq!(
        MdxParser::parse("#bad\n\n[worse"),
        Err(ParseError::ScanMismatch {
            offset: 1,
            expected: " ".to_string(),
            found: "b".to_string(),
        })
    );
}

#[test]
fn root_passes_the_whole_input() {
    let input = scalars("# A\nbody text");
    let mut scanner = MdxParser::new(&input);
    let root = scanner.parse_root().expect("input parses");
    assert_eq!(*root.children, vec![heading(1, "A"), paragraph(vec![text("body text")])]);
    assert_eq!(scanner.cursor, input.len());
    let input = scalars("x\n\n  \n");
    let mut scanner = MdxParser::new(&input);
    assert_eq!(scanner.parse_blocks(), Ok(vec![paragraph(vec![text("x")])]));
    assert_eq!(scanner.cursor, input.len());
}

#[test]
fn parse_node_returns_none_at_the_end() {
    let input = scalars("  # a\n  ");
    let mut scanner = MdxParser::new(&input);
    assert_eq!(scanner.parse_node(), Ok(Some(heading(1, "a"))));
    assert_eq!(scanner.cursor, 6);
    assert_eq!(scanner.parse_node(), Ok(None));
    assert_eq!(scanner.cursor, 8);
}

#[test]
fn error_offset_accessor() {
    assert_eq!(ParseError::MalformedNumber { offset: 4 }.offset(), 4);
    assert_eq!(ParseError::UnterminatedConstruct { offset: 5 }.offset(), 5);
    assert_eq!(ParseError::UnexpectedScalar { offset: 6, found: 'x' }.offset(), 6);
    assert_eq!(
        ParseError::ScanMismatch { offset: 7, expected: String::new(), found: String::new() }
            .offset(),
        7
    );
}

use scc::ast::{Ast, Heading, Node, Root, Text};
use scc::error::ParseError;
use scc::parser::scanner::MdxParser;
use scc::pipeline::Core;
use scc::text::{decode, encode};
use scc::transformer::{PassThrough, Transformer};

// Appends one text node. `apply` is ghost code of the trait: it is never run.
struct Append(&'static str);

impl Transformer for Append {
    fn apply(
        &self,
        document: vstd::seq::Seq<scc::ast::NodeModel>,
    ) -> vstd::seq::Seq<scc::ast::NodeModel> {
        document
    }

    fn transform(&self, ast: &mut Ast) -> Ast {
        let Ast::Root(root) = ast;
        let mut children = (*root.children).clone();
        children.push(Node::Text(Text { text: self.0.to_string() }));
        Ast::Root(Root { children: Box::new(children) })
    }
}

fn heading(level: usize, t: &str) -> Node {
    Node::Heading(Heading { level, text: t.to_string() })
}

#[test]
fn new_core_holds_nothing() {
    assert_eq!(Core::new().ast(), None);
    assert_eq!(Core::default().ast(), None);
}

#[test]
fn core_parse_is_the_parser() {
    let core = Core::new();
    assert_eq!(core.parse("# a"), MdxParser::parse("# a"));
    assert_eq!(core.parse("~"), Err(ParseError::UnexpectedScalar { offset: 0, found: '~' }));
}

#[test]
fn compile_without_transformers_holds_the_parsed_tree() {
    let mut core = Core::new();
    assert_eq!(core.compile("# a"), Ok(()));
    assert_eq!(core.ast(), Some(&Ast::Root(Root { children: Box::new(vec![heading(1, "a")]) })));
}

#[test]
fn pass_through_changes_nothing() {
    let mut core = Core::new().use_transformer(Box::new(PassThrough));
    assert_eq!(core.compile("## b"), Ok(()));
    assert_eq!(core.ast(), Some(&Ast::Root(Root { children: Box::new(vec![heading(2, "b")]) })));
    let mut tree = MdxParser::parse("x").expect("parses");
    let copy = tree.clone();
    assert_eq!(PassThrough.transform(&mut tree), copy);
    assert_eq!(tree, copy);
}

#[test]
fn transformers_run_in_the_order_of_registration() {
    let mut core = Core::new()
        .use_transformer(Box::new(Append("first")))
        .use_transformer(Box::new(PassThrough))
        .use_transformer(Box::new(Append("second")));
    assert_eq!(core.compile("# a"), Ok(()));
    assert_eq!(
        core.ast(),
        Some(&Ast::Root(Root {
            children: Box::new(vec![
                heading(1, "a"),
                Node::Text(Text { text: "first".to_string() }),
                Node::Text(Text { text: "second".to_string() }),
            ]),
        }))
    );
    core.transform();
    let Some(Ast::Root(root)) = core.ast() else { panic!("a tree is held") };
    assert_eq!(root.children.len(), 5);
}

#[test]
fn failed_compile_keeps_the_tree_held_before() {
    let mut core = Core::new();
    assert_eq!(core.compile("# kept"), Ok(()));
    assert_eq!(
        core.compile("#broken"),
        Err(ParseError::ScanMismatch {
            offset: 1,
            expected: " ".to_string(),
            found: "b".to_string(),
        })
    );
    assert_eq!(core.ast(), Some(&Ast::Root(Root { children: Box::new(vec![heading(1, "kept")]) })));
}

#[test]
fn transform_without_a_tree_does_nothing() {
    let mut core = Core::new().use_transformer(Box::new(Append("x")));
    core.transform();
    assert_eq!(core.ast(), None);
}

#[test]
fn clone_copies_the_whole_tree() {
    let tree = MdxParser::parse("# a\n\n- b **c**\n\n> d\n\n```e\nf\n```").expect("parses");
    assert_eq!(tree.clone(), tree);
    assert_eq!(Root::default(), Root { children: Box::new(vec![]) });
}

#[test]
fn decode_and_encode_are_inverse() {
    let scalars = decode("héllo 😀");
    assert_eq!(scalars, vec!['h', 'é', 'l', 'l', 'o', ' ', '😀']);
    assert_eq!(encode(&scalars), "héllo 😀");
    assert_eq!(encode(&[]), "");
}

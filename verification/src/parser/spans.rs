//! The text-level productions: literal text, code spans, links, images,
//! strong and emphasised text.

use crate::ast::{lemma_models_push, models, Bold, InlineCode, Italic, Link, Node, NodeModel, Text};
use crate::error::ParseError;
use crate::parser::facts::{
    lemma_scan_stops, lemma_starts_with_one, lemma_text_stops, lemma_without_whitespace_step,
};
use crate::parser::grammar::{
    blank_line_at, children, closes_at, emphasis, image, inline_code, line_node, line_nodes, link,
    link_parts, run, scan_while, starts_with, strong, text, without_whitespace, Class,
};
use crate::parser::outcome::{
    after, lemma_after_end, lemma_after_nothing, lemma_after_step, yields_link, yields_node,
    yields_nodes,
};
use crate::parser::scanner::MdxParser;
use crate::text::{encode, is_special_scalar, is_whitespace_scalar, special};
use vstd::prelude::*;
use vstd::slice::slice_subrange;

verus! {

impl<'a> MdxParser<'a> {
    /// Moves to the next `stop` scalar, or to the end if there is none, and
    /// returns what was passed.
    pub fn consume_until(&mut self, stop: char) -> (span: String)
        requires
            old(self).wf(),
        ensures
            final(self).follows(old(self)),
            final(self).cursor == scan_while(
                old(self).input@,
                old(self).cursor as int,
                Class::Not(stop),
            ),
            span@ == old(self).input@.subrange(old(self).cursor as int, final(self).cursor as int),
    {
        let test = |c: char| -> (b: bool)
            ensures
                b == (c != stop),
            { c != stop };
        let span = self.consume_while(test);
        proof {
            lemma_scan_stops(
                self.input@,
                old(self).cursor as int,
                self.cursor as int,
                Class::Not(stop),
            );
        }
        span
    }

    /// A run of literal text, up to the next special scalar, blank line or
    /// the end of the input.
    pub fn parse_text(&mut self) -> (node: Node)
        requires
            old(self).wf(),
        ensures
            final(self).follows(old(self)),
            yields_node(
                Ok(node),
                final(self).cursor,
                text(old(self).input@, old(self).cursor as int),
            ),
            old(self).cursor < old(self).input@.len() && !special(
                old(self).input@[old(self).cursor as int],
            ) && !blank_line_at(old(self).input@, old(self).cursor as int) ==> old(self).cursor
                < final(self).cursor,
    {
        let start = self.cursor;
        loop
            invariant
                self.input@ == old(self).input@,
                start == old(self).cursor,
                start <= self.cursor <= self.input@.len(),
                forall|k: int|
                    start <= k < self.cursor ==> !special(#[trigger] self.input@[k])
                        && !blank_line_at(self.input@, k),
            ensures
                self.cursor == self.input@.len() || special(self.input@[self.cursor as int])
                    || blank_line_at(self.input@, self.cursor as int),
            decreases self.input@.len() - self.cursor,
        {
            if self.is_end() || self.is_doble_newline() {
                break;
            }
            if is_special_scalar(self.peek_one()) {
                break;
            }
            self.advance_one();
        }
        proof {
            lemma_text_stops(self.input@, start as int, self.cursor as int);
        }
        Node::Text(Text { text: encode(slice_subrange(self.input, start, self.cursor)) })
    }

    /// A code span: a backtick, the literal text up to the next backtick,
    /// and that backtick.
    pub fn parse_inline_code(&mut self) -> (res: Result<Node, ParseError>)
        requires
            old(self).wf(),
        ensures
            final(self).follows(old(self)),
            yields_node(
                res,
                final(self).cursor,
                inline_code(old(self).input@, old(self).cursor as int),
            ),
            res is Ok ==> old(self).cursor < final(self).cursor,
    {
        let open = self.cursor;
        proof {
            reveal_strlit("`");
            assert("`"@ =~= seq!['`']);
        }
        match self.consume_expect("`") {
            Err(e) => {
                return Err(e);
            },
            Ok(()) => {},
        }
        let code = self.consume_until('`');
        if self.is_end() {
            return Err(ParseError::UnterminatedConstruct { offset: open });
        }
        self.advance_one();
        Ok(Node::InlineCode(InlineCode { code }))
    }
}

/// A string of `width` copies of `mark`.
pub fn repeat(mark: char, width: usize) -> (text: String)
    ensures
        text@ == run(mark, width as int),
{
    let mut text = String::new();
    let mut k: usize = 0;
    while k < width
        invariant
            k <= width,
            text@ == run(mark, k as int),
        decreases width - k,
    {
        text.push(mark);
        assert(run(mark, k as int).push(mark) =~= run(mark, k + 1));
        k += 1;
    }
    text
}

impl<'a> MdxParser<'a> {
    /// The target of a link: the scalars up to the next quote or closing
    /// parenthesis, without the white space among them.
    pub fn parse_target(&mut self) -> (url: String)
        requires
            old(self).wf(),
        ensures
            final(self).follows(old(self)),
            final(self).cursor == scan_while(
                old(self).input@,
                old(self).cursor as int,
                Class::Target,
            ),
            url@ == without_whitespace(
                old(self).input@.subrange(old(self).cursor as int, final(self).cursor as int),
            ),
    {
        let mut url = String::new();
        let ghost from = self.cursor as int;
        assert(self.input@.subrange(from, from) =~= Seq::<char>::empty());
        loop
            invariant
                self.input@ == old(self).input@,
                from == old(self).cursor,
                from <= self.cursor <= self.input@.len(),
                url@ == without_whitespace(self.input@.subrange(from, self.cursor as int)),
                forall|k: int| from <= k < self.cursor ==> Class::Target.holds(#[trigger] self.input@[k]),
            ensures
                self.cursor == self.input@.len() || !Class::Target.holds(
                    self.input@[self.cursor as int],
                ),
            decreases self.input@.len() - self.cursor,
        {
            if self.is_end() {
                break;
            }
            let c = self.peek_one();
            if c == '"' || c == '\'' || c == ')' {
                break;
            }
            proof {
                lemma_without_whitespace_step(self.input@, from, self.cursor as int);
            }
            if !is_whitespace_scalar(c) {
                url.push(c);
            }
            self.advance_one();
        }
        proof {
            lemma_scan_stops(self.input@, from, self.cursor as int, Class::Target);
        }
        url
    }

    /// The parts of a link or image from the opening bracket on: the text
    /// between the brackets, the target, and the title if one is quoted.
    pub fn parse_link_parts(&mut self) -> (res: Result<Link, ParseError>)
        requires
            old(self).wf(),
        ensures
            final(self).follows(old(self)),
            yields_link(
                res,
                final(self).cursor,
                link_parts(old(self).input@, old(self).cursor as int),
            ),
            res is Ok ==> old(self).cursor < final(self).cursor,
    {
        let open = self.cursor;
        proof {
            reveal_strlit("[");
            reveal_strlit("(");
            reveal_strlit(")");
            assert("["@ =~= seq!['[']);
            assert("("@ =~= seq!['(']);
            assert(")"@ =~= seq![')']);
        }
        match self.consume_expect("[") {
            Err(e) => {
                return Err(e);
            },
            Ok(()) => {},
        }
        let alt = self.consume_until(']');
        if self.is_end() {
            return Err(ParseError::UnterminatedConstruct { offset: open });
        }
        self.advance_one();
        let paren = self.cursor;
        match self.consume_expect("(") {
            Err(e) => {
                return Err(e);
            },
            Ok(()) => {},
        }
        let url = self.parse_target();
        if self.is_end() {
            return Err(ParseError::UnterminatedConstruct { offset: paren });
        }
        let stop = self.cursor;
        let c = self.peek_one();
        self.advance_one();
        if c == ')' {
            return Ok(Link { url, alt, title: None });
        }
        let title = self.consume_until(c);
        if self.is_end() {
            return Err(ParseError::UnterminatedConstruct { offset: stop });
        }
        self.advance_one();
        self.skip_whitespace();
        if self.is_end() {
            return Err(ParseError::UnterminatedConstruct { offset: paren });
        }
        proof {
            lemma_starts_with_one(self.input@, self.cursor as int, ')');
        }
        match self.consume_expect(")") {
            Err(e) => Err(e),
            Ok(()) => Ok(Link { url, alt, title: Some(title) }),
        }
    }

    /// A link: `[alt](url)` or `[alt](url "title")`.
    pub fn parse_link(&mut self) -> (res: Result<Node, ParseError>)
        requires
            old(self).wf(),
        ensures
            final(self).follows(old(self)),
            yields_node(res, final(self).cursor, link(old(self).input@, old(self).cursor as int)),
            res is Ok ==> old(self).cursor < final(self).cursor,
    {
        match self.parse_link_parts() {
            Err(e) => Err(e),
            Ok(parts) => Ok(Node::Link(parts)),
        }
    }

    /// An image: `![alt](url)` or `![alt](url "title")`.
    pub fn parse_image(&mut self) -> (res: Result<Node, ParseError>)
        requires
            old(self).wf(),
        ensures
            final(self).follows(old(self)),
            yields_node(res, final(self).cursor, image(old(self).input@, old(self).cursor as int)),
            res is Ok ==> old(self).cursor < final(self).cursor,
    {
        proof {
            reveal_strlit("![");
            assert("!["@ =~= seq!['!', '[']);
        }
        if !self.starts_with("![") {
            return Err(self.mismatch("!["));
        }
        self.advance_one();
        match self.parse_link_parts() {
            Err(e) => Err(e),
            Ok(parts) => Ok(Node::Image(parts)),
        }
    }

    /// The length of the run of `mark` at the cursor, without moving.
    pub fn run_length(&self, mark: char) -> (n: usize)
        requires
            self.wf(),
        ensures
            n == scan_while(self.input@, self.cursor as int, Class::Is(mark)) - self.cursor,
            self.cursor + n <= self.input@.len(),
    {
        let mut e = self.cursor;
        while e < self.input.len() && self.input[e] == mark
            invariant
                self.cursor <= e <= self.input@.len(),
                forall|k: int| self.cursor <= k < e ==> self.input@[k] == mark,
            decreases self.input@.len() - e,
        {
            e += 1;
        }
        proof {
            lemma_scan_stops(self.input@, self.cursor as int, e as int, Class::Is(mark));
        }
        e - self.cursor
    }

    /// The nodes between an opening delimiter, which stands at `open`, and
    /// its closing delimiter: the next run of `mark` that is exactly `width`
    /// long. The cursor is left at the closing delimiter.
    pub fn parse_children(&mut self, mark: char, width: usize, open: usize) -> (res: Result<
        Vec<Node>,
        ParseError,
    >)
        requires
            old(self).wf(),
        ensures
            final(self).follows(old(self)),
            yields_nodes(
                res,
                final(self).cursor,
                children(
                    old(self).input@,
                    old(self).cursor as int,
                    mark,
                    width as int,
                    open as int,
                ),
            ),
            res is Ok ==> closes_at(final(self).input@, final(self).cursor as int, mark, width as int)
                && final(self).cursor + width <= final(self).input@.len(),
        decreases old(self).input@.len() - old(self).cursor, 3int,
    {
        let mut kids: Vec<Node> = Vec::new();
        let ghost s = self.input@;
        let ghost from = self.cursor as int;
        proof {
            assert(models(kids@) =~= Seq::<NodeModel>::empty());
            lemma_after_nothing(children(s, from, mark, width as int, open as int));
        }
        loop
            invariant
                self.input@ == s,
                s == old(self).input@,
                from == old(self).cursor,
                from <= self.cursor <= s.len(),
                children(s, from, mark, width as int, open as int) == after(
                    models(kids@),
                    children(s, self.cursor as int, mark, width as int, open as int),
                ),
            decreases s.len() - self.cursor,
        {
            if self.is_end() || self.is_doble_newline() {
                return Err(ParseError::UnterminatedConstruct { offset: open });
            }
            if self.peek_one() == mark && self.run_length(mark) == width {
                proof {
                    lemma_after_end(models(kids@), self.cursor as int);
                }
                return Ok(kids);
            }
            match self.parse_line_node() {
                Err(e) => {
                    return Err(e);
                },
                Ok(node) => {
                    proof {
                        lemma_models_push(kids@, node);
                        lemma_after_step(
                            models(kids@),
                            node@,
                            children(s, self.cursor as int, mark, width as int, open as int),
                        );
                    }
                    kids.push(node);
                },
            }
        }
    }

    /// Strong text: `**`, text-level nodes, and a closing run of exactly
    /// `**`.
    pub fn parse_strong(&mut self) -> (res: Result<Node, ParseError>)
        requires
            old(self).wf(),
        ensures
            final(self).follows(old(self)),
            yields_node(res, final(self).cursor, strong(old(self).input@, old(self).cursor as int)),
            res is Ok ==> old(self).cursor < final(self).cursor,
        decreases old(self).input@.len() - old(self).cursor, 1int,
    {
        let open = self.cursor;
        proof {
            reveal_strlit("**");
            assert("**"@ =~= run('*', 2));
        }
        match self.consume_expect("**") {
            Err(e) => {
                return Err(e);
            },
            Ok(()) => {},
        }
        match self.parse_children('*', 2, open) {
            Err(e) => Err(e),
            Ok(kids) => {
                self.advance_many(2);
                Ok(Node::Bold(Bold { children: Box::new(kids) }))
            },
        }
    }

    /// Emphasised text: a single `*` or `_`, text-level nodes, and a closing
    /// run of exactly that scalar.
    pub fn parse_italic(&mut self) -> (res: Result<Node, ParseError>)
        requires
            old(self).wf(),
        ensures
            final(self).follows(old(self)),
            yields_node(
                res,
                final(self).cursor,
                emphasis(old(self).input@, old(self).cursor as int),
            ),
            res is Ok ==> old(self).cursor < final(self).cursor,
        decreases old(self).input@.len() - old(self).cursor, 1int,
    {
        let open = self.cursor;
        proof {
            reveal_strlit("*");
            reveal_strlit("_");
            assert("*"@ =~= seq!['*']);
            assert("_"@ =~= seq!['_']);
            lemma_starts_with_one(self.input@, open as int, '*');
            lemma_starts_with_one(self.input@, open as int, '_');
        }
        if !self.starts_with("*") && !self.starts_with("_") {
            return Err(self.mismatch("*"));
        }
        let mark = self.consume();
        match self.parse_children(mark, 1, open) {
            Err(e) => Err(e),
            Ok(kids) => {
                self.advance_one();
                Ok(Node::Italic(Italic { children: Box::new(kids) }))
            },
        }
    }

    /// One text-level node, chosen by the scalar at the cursor.
    pub fn parse_line_node(&mut self) -> (res: Result<Node, ParseError>)
        requires
            old(self).wf(),
            old(self).cursor < old(self).input@.len(),
        ensures
            final(self).follows(old(self)),
            yields_node(
                res,
                final(self).cursor,
                line_node(old(self).input@, old(self).cursor as int),
            ),
            res is Ok && !blank_line_at(old(self).input@, old(self).cursor as int) ==> old(self).cursor < final(self).cursor,
        decreases old(self).input@.len() - old(self).cursor, 2int,
    {
        let c = self.peek_one();
        if c == '`' {
            self.parse_inline_code()
        } else if c == '*' {
            proof {
                reveal_strlit("**");
                assert("**"@ =~= run('*', 2));
            }
            if self.starts_with("**") {
                self.parse_strong()
            } else {
                self.parse_italic()
            }
        } else if c == '_' {
            self.parse_italic()
        } else if c == '[' {
            self.parse_link()
        } else {
            Ok(self.parse_text())
        }
    }

    /// The text-level nodes up to the next blank line or the end of the
    /// input.
    pub fn parse_line_nodes(&mut self) -> (res: Result<Vec<Node>, ParseError>)
        requires
            old(self).wf(),
        ensures
            final(self).follows(old(self)),
            yields_nodes(
                res,
                final(self).cursor,
                line_nodes(old(self).input@, old(self).cursor as int),
            ),
            res is Ok && old(self).cursor < old(self).input@.len() && !blank_line_at(
                old(self).input@,
                old(self).cursor as int,
            ) ==> old(self).cursor < final(self).cursor,
    {
        let mut kids: Vec<Node> = Vec::new();
        let ghost s = self.input@;
        let ghost from = self.cursor as int;
        proof {
            assert(models(kids@) =~= Seq::<NodeModel>::empty());
            lemma_after_nothing(line_nodes(s, from));
        }
        loop
            invariant
                self.input@ == s,
                s == old(self).input@,
                from == old(self).cursor,
                from <= self.cursor <= s.len(),
                kids@.len() == 0 ==> self.cursor == from,
                kids@.len() > 0 ==> from < self.cursor,
                line_nodes(s, from) == after(models(kids@), line_nodes(s, self.cursor as int)),
            decreases s.len() - self.cursor,
        {
            if self.is_end() || self.is_doble_newline() {
                proof {
                    lemma_after_end(models(kids@), self.cursor as int);
                }
                return Ok(kids);
            }
            match self.parse_line_node() {
                Err(e) => {
                    return Err(e);
                },
                Ok(node) => {
                    proof {
                        lemma_models_push(kids@, node);
                        lemma_after_step(
                            models(kids@),
                            node@,
                            line_nodes(s, self.cursor as int),
                        );
                    }
                    kids.push(node);
                },
            }
        }
    }
}

} // verus!

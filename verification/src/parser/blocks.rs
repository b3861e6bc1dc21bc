//! The block-level productions: headings, code blocks, block quotes, lists,
//! paragraphs and thematic breaks, and the dispatcher that chooses among
//! them.

use crate::ast::{
    lemma_models_concat, lemma_models_push, models, Ast, Blockquote, CodeBlock, Heading, List, Node,
    NodeModel, Paragraph, Root,
};
use crate::error::ParseError;
use crate::parser::facts::{
    lemma_decimal_step, lemma_scan_run, lemma_scan_stops, lemma_starts_with_one,
};
use crate::parser::grammar::{
    blank_line_at, blockquote, blocks, bullet_item, bullet_items, bullet_list, closing_fence, code,
    code_block, decimal, document, fence, fence_line_at, heading, item_body, language_line, list,
    mismatch, next_block, number, numbered_item, numbered_items, numbered_list, numbered_rest,
    paragraph, quoted, quoted_from, rule_at, run, scan_while, starts_with, thematic_break, Class,
};
use crate::parser::outcome::{
    after, lemma_after_concat, lemma_after_end, lemma_after_nothing, lemma_after_step,
    lemma_rest_nothing, lemma_rest_step, rest_after, yields_node, yields_nodes, yields_number,
    yields_string,
};
use crate::parser::scanner::MdxParser;
use crate::parser::spans::repeat;
use crate::text::{decode, digit, encode, is_digit_scalar, is_letter_scalar};
use vstd::prelude::*;
use vstd::slice::slice_subrange;

verus! {

impl<'a> MdxParser<'a> {
    /// The level of a heading: the length of the run of `#` at the cursor,
    /// which is passed.
    pub fn parse_heading_level(&mut self) -> (level: usize)
        requires
            old(self).wf(),
        ensures
            final(self).follows(old(self)),
            final(self).cursor == scan_while(
                old(self).input@,
                old(self).cursor as int,
                Class::Is('#'),
            ),
            level == final(self).cursor - old(self).cursor,
    {
        let start = self.cursor;
        let test = |c: char| -> (b: bool)
            ensures
                b == (c == '#'),
            { c == '#' };
        let _ = self.consume_while(test);
        proof {
            lemma_scan_stops(self.input@, start as int, self.cursor as int, Class::Is('#'));
        }
        self.cursor - start
    }

    /// A heading: its markers, one white-space scalar, and the rest of the
    /// line as its text.
    pub fn parse_heading(&mut self) -> (res: Result<Node, ParseError>)
        requires
            old(self).wf(),
        ensures
            final(self).follows(old(self)),
            yields_node(
                res,
                final(self).cursor,
                heading(old(self).input@, old(self).cursor as int),
            ),
            res is Ok ==> old(self).cursor < final(self).cursor,
    {
        let level = self.parse_heading_level();
        if level == 0 {
            proof {
                reveal_strlit("#");
                assert("#"@ =~= seq!['#']);
            }
            return Err(self.mismatch("#"));
        }
        match self.consume_expect_whitespace() {
            Err(e) => {
                return Err(e);
            },
            Ok(()) => {},
        }
        let text = self.consume_until('\n');
        self.advance_one();
        Ok(Node::Heading(Heading { level, text }))
    }

    /// The opening line of a fenced code block: the fence, the language tag
    /// and the line terminator.
    pub fn parse_code_block_language(&mut self) -> (res: Result<String, ParseError>)
        requires
            old(self).wf(),
        ensures
            final(self).follows(old(self)),
            yields_string(
                res,
                final(self).cursor,
                language_line(old(self).input@, old(self).cursor as int),
            ),
    {
        let open = self.cursor;
        proof {
            reveal_strlit("```");
            assert("```"@ =~= fence());
        }
        match self.consume_expect("```") {
            Err(e) => {
                return Err(e);
            },
            Ok(()) => {},
        }
        let language = self.consume_until('\n');
        if self.is_end() {
            return Err(ParseError::UnterminatedConstruct { offset: open });
        }
        self.advance_one();
        Ok(language)
    }

    /// Whether the line that starts at the cursor consists of the fence
    /// alone.
    pub fn is_fence_line(&self) -> (b: bool)
        requires
            self.wf(),
        ensures
            b == fence_line_at(self.input@, self.cursor as int),
    {
        proof {
            reveal_strlit("```");
            assert("```"@ =~= fence());
        }
        if !self.starts_with("```") {
            return false;
        }
        let rest = self.input.len() - self.cursor;
        rest == 3 || self.input[self.cursor + 3] == '\n'
    }

    /// Moves to the first line, from the line at the cursor on, that
    /// consists of the fence alone, and says whether there is one.
    pub fn find_closing_fence(&mut self) -> (found: bool)
        requires
            old(self).wf(),
        ensures
            final(self).follows(old(self)),
            match closing_fence(old(self).input@, old(self).cursor as int) {
                Some(close) => found && final(self).cursor == close,
                None => !found,
            },
            found ==> fence_line_at(final(self).input@, final(self).cursor as int),
    {
        let ghost s = self.input@;
        let ghost from = self.cursor as int;
        loop
            invariant
                self.input@ == s,
                s == old(self).input@,
                from == old(self).cursor,
                from <= self.cursor <= s.len(),
                closing_fence(s, from) == closing_fence(s, self.cursor as int),
            decreases s.len() - self.cursor,
        {
            if self.is_end() {
                return false;
            }
            if self.is_fence_line() {
                return true;
            }
            let _ = self.consume_until('\n');
            if self.is_end() {
                return false;
            }
            self.advance_one();
        }
    }

    /// A fenced code block: the opening line, the raw lines of the body, and
    /// the closing fence.
    pub fn parse_code_block(&mut self) -> (res: Result<Node, ParseError>)
        requires
            old(self).wf(),
        ensures
            final(self).follows(old(self)),
            yields_node(
                res,
                final(self).cursor,
                code_block(old(self).input@, old(self).cursor as int),
            ),
            res is Ok ==> old(self).cursor < final(self).cursor,
    {
        let open = self.cursor;
        let language = match self.parse_code_block_language() {
            Err(e) => {
                return Err(e);
            },
            Ok(language) => language,
        };
        let body = self.cursor;
        if !self.find_closing_fence() {
            return Err(ParseError::UnterminatedConstruct { offset: open });
        }
        let close = self.cursor;
        let code = if close == body {
            String::new()
        } else {
            encode(slice_subrange(self.input, body, close - 1))
        };
        self.advance_many(3);
        Ok(Node::CodeBlock(CodeBlock { language, code, meta: None }))
    }

    /// A code construct at block level: a fenced block if the fence stands
    /// at the cursor, a code span otherwise.
    pub fn parse_code(&mut self) -> (res: Result<Node, ParseError>)
        requires
            old(self).wf(),
        ensures
            final(self).follows(old(self)),
            yields_node(res, final(self).cursor, code(old(self).input@, old(self).cursor as int)),
            res is Ok ==> old(self).cursor < final(self).cursor,
    {
        proof {
            reveal_strlit("```");
            assert("```"@ =~= fence());
        }
        if self.starts_with("```") {
            self.parse_code_block()
        } else {
            self.parse_inline_code()
        }
    }

    /// A paragraph: text-level nodes up to a blank line or the end of the
    /// input.
    pub fn parse_paragraphs(&mut self) -> (res: Result<Node, ParseError>)
        requires
            old(self).wf(),
        ensures
            final(self).follows(old(self)),
            yields_node(
                res,
                final(self).cursor,
                paragraph(old(self).input@, old(self).cursor as int),
            ),
            res is Ok && old(self).cursor < old(self).input@.len() && !blank_line_at(
                old(self).input@,
                old(self).cursor as int,
            ) ==> old(self).cursor < final(self).cursor,
    {
        match self.parse_line_nodes() {
            Err(e) => Err(e),
            Ok(kids) => Ok(Node::Paragraph(Paragraph { children: Box::new(kids) })),
        }
    }

    /// Whether a thematic break starts at the cursor.
    pub fn is_thematic_break(&self) -> (b: bool)
        requires
            self.wf(),
        ensures
            b == rule_at(self.input@, self.cursor as int),
    {
        let rest = self.input.len() - self.cursor;
        if rest < 3 {
            return false;
        }
        let c = self.input[self.cursor];
        (c == '-' || c == '*' || c == '_') && self.input[self.cursor + 1] == c && self.input[self.cursor
            + 2] == c
    }

    /// A thematic break: a line that is one run of three or more `-`, `*`
    /// or `_`.
    pub fn parse_thematic_break(&mut self) -> (res: Result<Node, ParseError>)
        requires
            old(self).wf(),
        ensures
            final(self).follows(old(self)),
            yields_node(
                res,
                final(self).cursor,
                thematic_break(old(self).input@, old(self).cursor as int),
            ),
            res is Ok ==> old(self).cursor < final(self).cursor,
    {
        if !self.is_thematic_break() {
            proof {
                reveal_strlit("---");
                assert("---"@ =~= run('-', 3));
            }
            return Err(self.mismatch("---"));
        }
        let start = self.cursor;
        let mark = self.peek_one();
        let test = |c: char| -> (b: bool)
            ensures
                b == (c == mark),
            { c == mark };
        let _ = self.consume_while(test);
        proof {
            lemma_scan_stops(self.input@, start as int, self.cursor as int, Class::Is(mark));
        }
        if !self.is_end() && !self.is_newline() {
            proof {
                reveal_strlit("\n");
                assert("\n"@ =~= seq!['\n']);
            }
            return Err(self.mismatch("\n"));
        }
        self.advance_one();
        Ok(Node::ThematicBreak)
    }

    /// Where the line at the cursor ends: the position of its terminator,
    /// or the end of the input.
    pub fn line_end(&self) -> (e: usize)
        requires
            self.wf(),
        ensures
            e == scan_while(self.input@, self.cursor as int, Class::Not('\n')),
            self.cursor <= e <= self.input@.len(),
    {
        let mut e = self.cursor;
        while e < self.input.len() && self.input[e] != '\n'
            invariant
                self.cursor <= e <= self.input@.len(),
                forall|k: int| self.cursor <= k < e ==> self.input@[k] != '\n',
            decreases self.input@.len() - e,
        {
            e += 1;
        }
        proof {
            lemma_scan_stops(self.input@, self.cursor as int, e as int, Class::Not('\n'));
        }
        e
    }

    /// The content of a list item: the text-level nodes of the rest of the
    /// line, as one paragraph. The line's terminator is passed.
    pub fn parse_item_body(&mut self) -> (res: Result<Node, ParseError>)
        requires
            old(self).wf(),
        ensures
            final(self).follows(old(self)),
            yields_node(
                res,
                final(self).cursor,
                item_body(old(self).input@, old(self).cursor as int),
            ),
    {
        let e = self.line_end();
        let mut line = MdxParser { input: slice_subrange(self.input, 0, e), cursor: self.cursor };
        assert(line.input@ == self.input@.take(e as int));
        match line.parse_line_nodes() {
            Err(e) => Err(e),
            Ok(kids) => {
                self.cursor = e;
                self.advance_one();
                Ok(Node::Paragraph(Paragraph { children: Box::new(kids) }))
            },
        }
    }

    /// One item of an unordered list: the marker, one white-space scalar,
    /// and the item's content.
    pub fn parse_unordered_list_item(&mut self, indicator: &str) -> (res: Result<Node, ParseError>)
        requires
            old(self).wf(),
        ensures
            final(self).follows(old(self)),
            yields_node(
                res,
                final(self).cursor,
                bullet_item(old(self).input@, old(self).cursor as int, indicator@),
            ),
            res is Ok ==> old(self).cursor < final(self).cursor,
    {
        match self.consume_expect(indicator) {
            Err(e) => {
                return Err(e);
            },
            Ok(()) => {},
        }
        match self.consume_expect_whitespace() {
            Err(e) => {
                return Err(e);
            },
            Ok(()) => {},
        }
        self.parse_item_body()
    }

    /// An unordered list: one item for each line in a row that starts with
    /// the marker, which is the scalar at the cursor.
    pub fn parse_unordered_list(&mut self) -> (res: Result<Node, ParseError>)
        requires
            old(self).wf(),
            old(self).cursor < old(self).input@.len(),
        ensures
            final(self).follows(old(self)),
            yields_node(
                res,
                final(self).cursor,
                bullet_list(old(self).input@, old(self).cursor as int),
            ),
            res is Ok ==> old(self).cursor < final(self).cursor,
    {
        let bullet = self.peek_one();
        let indicator = repeat(bullet, 1);
        assert(indicator@ =~= seq![bullet]);
        let mut items: Vec<Node> = Vec::new();
        let ghost s = self.input@;
        let ghost from = self.cursor as int;
        proof {
            assert(models(items@) =~= Seq::<NodeModel>::empty());
            lemma_after_nothing(bullet_items(s, from, bullet));
        }
        loop
            invariant
                self.input@ == s,
                s == old(self).input@,
                from == old(self).cursor,
                from <= self.cursor <= s.len(),
                indicator@ == seq![bullet],
                from < s.len(),
                bullet == s[from],
                items@.len() > 0 ==> from < self.cursor,
                bullet_items(s, from, bullet) == after(
                    models(items@),
                    bullet_items(s, self.cursor as int, bullet),
                ),
            decreases s.len() - self.cursor,
        {
            let ghost done = models(items@);
            match self.parse_unordered_list_item(indicator.as_str()) {
                Err(e) => {
                    return Err(e);
                },
                Ok(item) => {
                    proof {
                        lemma_models_push(items@, item);
                    }
                    items.push(item);
                    if self.is_end() || self.peek_one() != bullet {
                        proof {
                            assert(done + seq![item@] =~= done.push(item@));
                        }
                        return Ok(
                            Node::List(
                                List { ordered: false, start: None, children: Box::new(items) },
                            ),
                        );
                    }
                    proof {
                        lemma_after_step(done, item@, bullet_items(s, self.cursor as int, bullet));
                    }
                },
            }
        }
    }

    /// The number at the head of an ordered item: the run of digits at the
    /// cursor, which is passed.
    pub fn parse_number(&mut self) -> (res: Result<usize, ParseError>)
        requires
            old(self).wf(),
        ensures
            final(self).follows(old(self)),
            yields_number(
                res,
                final(self).cursor,
                number(old(self).input@, old(self).cursor as int),
            ),
            res is Ok ==> old(self).cursor < final(self).cursor,
    {
        let start = self.cursor;
        let mut value: usize = 0;
        let mut fits = true;
        let ghost s = self.input@;
        assert(s.subrange(start as int, start as int) =~= Seq::<char>::empty());
        while self.is_digit()
            invariant
                self.input@ == s,
                s == old(self).input@,
                start == old(self).cursor,
                start <= self.cursor <= s.len(),
                forall|k: int| start <= k < self.cursor ==> digit(#[trigger] s[k]),
                fits ==> value == decimal(s.subrange(start as int, self.cursor as int)),
                !fits ==> decimal(s.subrange(start as int, self.cursor as int)) > usize::MAX,
            decreases s.len() - self.cursor,
        {
            let c = self.peek_one();
            let d: usize = (c as u32 - 0x30) as usize;
            proof {
                lemma_decimal_step(s, start as int, self.cursor as int);
            }
            if fits {
                if value > (usize::MAX - d) / 10 {
                    fits = false;
                } else {
                    value = value * 10 + d;
                }
            }
            self.advance_one();
        }
        proof {
            lemma_scan_stops(s, start as int, self.cursor as int, Class::Digit);
        }
        if self.cursor == start || !fits {
            Err(ParseError::MalformedNumber { offset: start })
        } else {
            Ok(value)
        }
    }

    /// What follows the number of an ordered item: `.`, one white-space
    /// scalar, and the item's content.
    pub fn parse_numbered_rest(&mut self) -> (res: Result<Node, ParseError>)
        requires
            old(self).wf(),
        ensures
            final(self).follows(old(self)),
            yields_node(
                res,
                final(self).cursor,
                numbered_rest(old(self).input@, old(self).cursor as int),
            ),
    {
        proof {
            reveal_strlit(".");
            assert("."@ =~= seq!['.']);
        }
        match self.consume_expect(".") {
            Err(e) => {
                return Err(e);
            },
            Ok(()) => {},
        }
        match self.consume_expect_whitespace() {
            Err(e) => {
                return Err(e);
            },
            Ok(()) => {},
        }
        self.parse_item_body()
    }

    /// One item of an ordered list: its number, `.`, one white-space
    /// scalar, and the item's content.
    pub fn parse_ordered_list_item(&mut self) -> (res: Result<Node, ParseError>)
        requires
            old(self).wf(),
        ensures
            final(self).follows(old(self)),
            yields_node(
                res,
                final(self).cursor,
                numbered_item(old(self).input@, old(self).cursor as int),
            ),
            res is Ok ==> old(self).cursor < final(self).cursor,
    {
        match self.parse_number() {
            Err(e) => Err(e),
            Ok(_) => self.parse_numbered_rest(),
        }
    }

    /// An ordered list: one item for each line in a row that starts with a
    /// digit. The list starts at the number of its first item.
    pub fn parse_ordered_list(&mut self) -> (res: Result<Node, ParseError>)
        requires
            old(self).wf(),
        ensures
            final(self).follows(old(self)),
            yields_node(
                res,
                final(self).cursor,
                numbered_list(old(self).input@, old(self).cursor as int),
            ),
            res is Ok ==> old(self).cursor < final(self).cursor,
    {
        let ghost s = self.input@;
        let ghost from = self.cursor as int;
        let first = match self.parse_number() {
            Err(e) => {
                return Err(e);
            },
            Ok(first) => first,
        };
        let item = match self.parse_numbered_rest() {
            Err(e) => {
                return Err(e);
            },
            Ok(item) => item,
        };
        let mut items: Vec<Node> = Vec::new();
        proof {
            lemma_models_push(items@, item);
            assert(models(items@) =~= Seq::<NodeModel>::empty());
            assert(Seq::<NodeModel>::empty().push(item@) =~= seq![item@]);
        }
        items.push(item);
        loop
            invariant
                self.input@ == s,
                s == old(self).input@,
                from == old(self).cursor,
                from < self.cursor <= s.len(),
                number(s, from) is Ok,
                number(s, from)->Ok_0.0 == first,
                numbered_items(s, from) == if self.cursor < s.len() && digit(
                    s[self.cursor as int],
                ) {
                    after(models(items@), numbered_items(s, self.cursor as int))
                } else {
                    Ok((models(items@), self.cursor as int))
                },
            decreases s.len() - self.cursor,
        {
            if !self.is_digit() {
                return Ok(
                    Node::List(List { ordered: true, start: Some(first), children: Box::new(items) }),
                );
            }
            match self.parse_ordered_list_item() {
                Err(e) => {
                    return Err(e);
                },
                Ok(item) => {
                    proof {
                        lemma_models_push(items@, item);
                        lemma_after_step(
                            models(items@),
                            item@,
                            numbered_items(s, self.cursor as int),
                        );
                        lemma_after_step(
                            models(items@),
                            item@,
                            Ok((Seq::empty(), self.cursor as int)),
                        );
                        lemma_after_end(models(items@).push(item@), self.cursor as int);
                        assert(seq![item@] + Seq::<NodeModel>::empty() =~= seq![item@]);
                    }
                    items.push(item);
                },
            }
        }
    }

    /// A list, ordered or not by the scalar at the cursor.
    pub fn parse_list(&mut self) -> (res: Result<Node, ParseError>)
        requires
            old(self).wf(),
            old(self).cursor < old(self).input@.len(),
        ensures
            final(self).follows(old(self)),
            yields_node(res, final(self).cursor, list(old(self).input@, old(self).cursor as int)),
            res is Ok ==> old(self).cursor < final(self).cursor,
    {
        let c = self.peek_one();
        if c == '+' || c == '-' || c == '*' || c == '_' {
            self.parse_unordered_list()
        } else if is_digit_scalar(c) {
            self.parse_ordered_list()
        } else {
            Err(ParseError::UnexpectedScalar { offset: self.cursor, found: c })
        }
    }
}

impl<'a> MdxParser<'a> {
    /// The blocks of the quoted lines at the cursor: for each line in a row
    /// that starts with `>`, the blocks of the rest of that line.
    pub fn parse_quoted(&mut self) -> (res: Result<Vec<Node>, ParseError>)
        requires
            old(self).wf(),
        ensures
            final(self).follows(old(self)),
            yields_nodes(
                res,
                final(self).cursor,
                quoted(old(self).input@, old(self).cursor as int),
            ),
            res is Ok ==> old(self).cursor < final(self).cursor,
        decreases old(self).input@.len() - old(self).cursor, 0int,
    {
        let ghost s = self.input@;
        let ghost from = self.cursor as int;
        let mut kids: Vec<Node> = Vec::new();
        proof {
            reveal_strlit(">");
            assert(">"@ =~= seq!['>']);
            assert(models(kids@) =~= Seq::<NodeModel>::empty());
            lemma_after_nothing(quoted(s, from));
            lemma_starts_with_one(s, from, '>');
        }
        match self.consume_expect(">") {
            Err(e) => {
                return Err(e);
            },
            Ok(()) => {},
        }
        loop
            invariant
                self.input@ == s,
                s == old(self).input@,
                from == old(self).cursor,
                from < self.cursor <= s.len(),
                s[self.cursor - 1] == '>',
                quoted(s, from) == after(models(kids@), quoted(s, self.cursor - 1)),
            decreases s.len() - self.cursor,
        {
            let ghost mark = self.cursor - 1;
            proof {
                lemma_starts_with_one(s, mark, '>');
            }
            if !self.is_end() && self.peek_one() == ' ' {
                self.advance_one();
            }
            assert(self.cursor == quoted_from(s, mark));
            let e = self.line_end();
            let mut line = MdxParser {
                input: slice_subrange(self.input, 0, e),
                cursor: self.cursor,
            };
            assert(line.input@ == s.take(e as int));
            let ghost done = models(kids@);
            match line.parse_blocks() {
                Err(x) => {
                    return Err(x);
                },
                Ok(mut part) => {
                    let ghost added = models(part@);
                    proof {
                        lemma_models_concat(kids@, part@);
                    }
                    kids.append(&mut part);
                    assert(models(kids@) == done + added);
                    self.cursor = e;
                    self.advance_one();
                    if self.is_end() || self.peek_one() != '>' {
                        return Ok(kids);
                    }
                    proof {
                        lemma_after_concat(done, added, quoted(s, self.cursor as int));
                    }
                    self.advance_one();
                },
            }
        }
    }

    /// A block quote: the blocks of all its quoted lines.
    pub fn parse_blockquote(&mut self) -> (res: Result<Node, ParseError>)
        requires
            old(self).wf(),
        ensures
            final(self).follows(old(self)),
            yields_node(
                res,
                final(self).cursor,
                blockquote(old(self).input@, old(self).cursor as int),
            ),
            res is Ok ==> old(self).cursor < final(self).cursor,
        decreases old(self).input@.len() - old(self).cursor, 1int,
    {
        match self.parse_quoted() {
            Err(e) => Err(e),
            Ok(kids) => Ok(Node::Blockquote(Blockquote { children: Box::new(kids) })),
        }
    }

    /// The next block, if one is left: white space is passed first, then the
    /// scalar at the cursor chooses the production.
    pub fn parse_node(&mut self) -> (res: Result<Option<Node>, ParseError>)
        requires
            old(self).wf(),
        ensures
            final(self).follows(old(self)),
            match next_block(old(self).input@, old(self).cursor as int) {
                Ok((Some(node), end)) => res is Ok && res->Ok_0 is Some && res->Ok_0->Some_0@
                    == node && final(self).cursor == end && scan_while(
                    old(self).input@,
                    old(self).cursor as int,
                    Class::Whitespace,
                ) < end,
                Ok((None, end)) => res is Ok && res->Ok_0 is None && final(self).cursor == end,
                Err(e) => res is Err && res->Err_0@ == e,
            },
        decreases old(self).input@.len() - old(self).cursor, 2int,
    {
        self.skip_trivial();
        if self.is_end() {
            return Ok(None);
        }
        let c = self.peek_one();
        let res = if c == '#' {
            self.parse_heading()
        } else if c == '`' {
            self.parse_code()
        } else if c == '>' {
            self.parse_blockquote()
        } else if c == '!' {
            self.parse_image()
        } else if c == '[' {
            self.parse_link()
        } else if is_letter_scalar(c) {
            self.parse_paragraphs()
        } else if self.is_thematic_break() {
            self.parse_thematic_break()
        } else if is_digit_scalar(c) || c == '*' || c == '_' || c == '+' || c == '-' {
            self.parse_list()
        } else {
            Err(ParseError::UnexpectedScalar { offset: self.cursor, found: c })
        };
        match res {
            Err(e) => Err(e),
            Ok(node) => Ok(Some(node)),
        }
    }

    /// The blocks from the cursor to the end of the input. On success the
    /// whole input is passed.
    pub fn parse_blocks(&mut self) -> (res: Result<Vec<Node>, ParseError>)
        requires
            old(self).wf(),
        ensures
            final(self).follows(old(self)),
            match blocks(old(self).input@, old(self).cursor as int) {
                Ok(nodes) => res is Ok && models(res->Ok_0@) == nodes,
                Err(e) => res is Err && res->Err_0@ == e,
            },
            res is Ok ==> final(self).cursor == final(self).input@.len(),
        decreases old(self).input@.len() - old(self).cursor, 3int,
    {
        let ghost s = self.input@;
        let ghost from = self.cursor as int;
        let mut nodes: Vec<Node> = Vec::new();
        proof {
            assert(models(nodes@) =~= Seq::<NodeModel>::empty());
            lemma_rest_nothing(blocks(s, from));
        }
        loop
            invariant
                self.input@ == s,
                s == old(self).input@,
                from == old(self).cursor,
                from <= self.cursor <= s.len(),
                blocks(s, from) == rest_after(models(nodes@), blocks(s, self.cursor as int)),
            decreases s.len() - self.cursor,
        {
            proof {
                lemma_scan_run(s, self.cursor as int, Class::Whitespace);
            }
            let ghost done = models(nodes@);
            match self.parse_node() {
                Err(e) => {
                    return Err(e);
                },
                Ok(None) => {
                    proof {
                        assert(done + Seq::<NodeModel>::empty() =~= done);
                    }
                    return Ok(nodes);
                },
                Ok(Some(node)) => {
                    proof {
                        lemma_models_push(nodes@, node);
                        lemma_rest_step(done, node@, blocks(s, self.cursor as int));
                    }
                    nodes.push(node);
                },
            }
        }
    }

    /// The root of the document that starts at the cursor. On success the
    /// whole input is passed.
    pub fn parse_root(&mut self) -> (res: Result<Root, ParseError>)
        requires
            old(self).wf(),
        ensures
            final(self).follows(old(self)),
            match blocks(old(self).input@, old(self).cursor as int) {
                Ok(nodes) => res is Ok && res->Ok_0@ == nodes,
                Err(e) => res is Err && res->Err_0@ == e,
            },
            res is Ok ==> final(self).cursor == final(self).input@.len(),
    {
        match self.parse_blocks() {
            Err(e) => Err(e),
            Ok(nodes) => Ok(Root { children: Box::new(nodes) }),
        }
    }

    /// Parses a whole input: the document tree it denotes, or the first
    /// failure met.
    pub fn parse(input: &str) -> (res: Result<Ast, ParseError>)
        ensures
            match document(input@) {
                Ok(nodes) => res is Ok && res->Ok_0@ == nodes,
                Err(e) => res is Err && res->Err_0@ == e,
            },
    {
        let scalars = decode(input);
        let mut parser = MdxParser::new(scalars.as_slice());
        match parser.parse_root() {
            Err(e) => Err(e),
            Ok(root) => Ok(Ast::Root(root)),
        }
    }
}

} // verus!

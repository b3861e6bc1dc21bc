//! How the result of an executable production relates to what the grammar
//! says of the same input.

use crate::ast::{models, Link, LinkModel, Node, NodeModel};
use crate::error::{ParseError, ParseErrorModel};
use crate::parser::grammar::Parsed;
use vstd::prelude::*;

verus! {

/// A production that returned `res` and left the cursor at `cursor` did what
/// the grammar expects: the expected node and end, or the expected failure.
pub open spec fn yields_node(
    res: Result<Node, ParseError>,
    cursor: usize,
    expected: Parsed<NodeModel>,
) -> bool {
    match expected {
        Ok((node, end)) => res is Ok && res->Ok_0@ == node && cursor == end,
        Err(e) => res is Err && res->Err_0@ == e,
    }
}

/// As [`yields_node`], for a production that returns a sequence of nodes.
pub open spec fn yields_nodes(
    res: Result<Vec<Node>, ParseError>,
    cursor: usize,
    expected: Parsed<Seq<NodeModel>>,
) -> bool {
    match expected {
        Ok((nodes, end)) => res is Ok && models(res->Ok_0@) == nodes && cursor == end,
        Err(e) => res is Err && res->Err_0@ == e,
    }
}

/// As [`yields_node`], for the parts of a link.
pub open spec fn yields_link(
    res: Result<Link, ParseError>,
    cursor: usize,
    expected: Parsed<LinkModel>,
) -> bool {
    match expected {
        Ok((parts, end)) => res is Ok && res->Ok_0@ == parts && cursor == end,
        Err(e) => res is Err && res->Err_0@ == e,
    }
}

/// As [`yields_node`], for a production that returns a string.
pub open spec fn yields_string(
    res: Result<String, ParseError>,
    cursor: usize,
    expected: Parsed<Seq<char>>,
) -> bool {
    match expected {
        Ok((text, end)) => res is Ok && res->Ok_0@ == text && cursor == end,
        Err(e) => res is Err && res->Err_0@ == e,
    }
}

/// As [`yields_node`], for a production that returns a number.
pub open spec fn yields_number(
    res: Result<usize, ParseError>,
    cursor: usize,
    expected: Parsed<nat>,
) -> bool {
    match expected {
        Ok((n, end)) => res is Ok && res->Ok_0 == n && cursor == end,
        Err(e) => res is Err && res->Err_0@ == e,
    }
}

/// The nodes `done` followed by what the rest of a sequence yields.
pub open spec fn after(done: Seq<NodeModel>, rest: Parsed<Seq<NodeModel>>) -> Parsed<
    Seq<NodeModel>,
> {
    match rest {
        Ok((nodes, end)) => Ok((done + nodes, end)),
        Err(e) => Err(e),
    }
}

/// Nothing followed by a rest is that rest.
pub proof fn lemma_after_nothing(rest: Parsed<Seq<NodeModel>>)
    ensures
        after(Seq::empty(), rest) == rest,
{
    match rest {
        Ok((nodes, end)) => {
            assert(Seq::<NodeModel>::empty() + nodes =~= nodes);
        },
        Err(e) => {},
    }
}

/// Moving the first node of the rest to the end of what is done changes
/// nothing.
pub proof fn lemma_after_step(done: Seq<NodeModel>, node: NodeModel, rest: Parsed<Seq<NodeModel>>)
    ensures
        after(done.push(node), rest) == after(done, after(seq![node], rest)),
{
    match rest {
        Ok((nodes, end)) => {
            assert(done.push(node) + nodes =~= done + (seq![node] + nodes));
        },
        Err(e) => {},
    }
}

/// What is done, followed by an empty rest that ends at `end`.
pub proof fn lemma_after_end(done: Seq<NodeModel>, end: int)
    ensures
        after(done, Ok((Seq::empty(), end))) == Ok::<(Seq<NodeModel>, int), ParseErrorModel>(
            (done, end),
        ),
{
    assert(done + Seq::<NodeModel>::empty() =~= done);
}

/// What is done, then a first part, then the rest, in either grouping.
pub proof fn lemma_after_concat(
    done: Seq<NodeModel>,
    part: Seq<NodeModel>,
    rest: Parsed<Seq<NodeModel>>,
)
    ensures
        after(done + part, rest) == after(done, after(part, rest)),
{
    match rest {
        Ok((nodes, end)) => {
            assert((done + part) + nodes =~= done + (part + nodes));
        },
        Err(e) => {},
    }
}

/// The nodes `done` followed by what the rest of a document yields.
pub open spec fn rest_after(
    done: Seq<NodeModel>,
    rest: Result<Seq<NodeModel>, ParseErrorModel>,
) -> Result<Seq<NodeModel>, ParseErrorModel> {
    match rest {
        Ok(nodes) => Ok(done + nodes),
        Err(e) => Err(e),
    }
}

/// Nothing followed by a rest is that rest.
pub proof fn lemma_rest_nothing(rest: Result<Seq<NodeModel>, ParseErrorModel>)
    ensures
        rest_after(Seq::empty(), rest) == rest,
{
    match rest {
        Ok(nodes) => {
            assert(Seq::<NodeModel>::empty() + nodes =~= nodes);
        },
        Err(e) => {},
    }
}

/// Moving the first node of the rest to the end of what is done changes
/// nothing.
pub proof fn lemma_rest_step(
    done: Seq<NodeModel>,
    node: NodeModel,
    rest: Result<Seq<NodeModel>, ParseErrorModel>,
)
    ensures
        rest_after(done.push(node), rest) == rest_after(done, rest_after(seq![node], rest)),
{
    match rest {
        Ok(nodes) => {
            assert(done.push(node) + nodes =~= done + (seq![node] + nodes));
        },
        Err(e) => {},
    }
}

} // verus!

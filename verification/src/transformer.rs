//! Tree transforms: pure functions from one document tree to another,
//! applied in a fixed order before rendering.

use crate::ast::{Ast, NodeModel};
use vstd::prelude::*;

verus! {

/// A transform of document trees.
///
/// An implementation names the function it computes, `apply`, and promises
/// that `transform` returns that function of the tree it is given and
/// leaves the given tree as it was.
pub trait Transformer {
    /// The document that the transform makes of `document`.
    spec fn apply(&self, document: Seq<NodeModel>) -> Seq<NodeModel>;

    fn transform(&self, ast: &mut Ast) -> (out: Ast)
        ensures
            out@ == self.apply(old(ast)@),
            final(ast)@ == old(ast)@,
    ;
}

/// The transform that changes nothing.
pub struct PassThrough;

impl Transformer for PassThrough {
    open spec fn apply(&self, document: Seq<NodeModel>) -> Seq<NodeModel> {
        document
    }

    fn transform(&self, ast: &mut Ast) -> (out: Ast) {
        ast.clone()
    }
}

} // verus!

//! The compilation pipeline: parse an input, then apply the registered
//! transforms in the order in which they were registered.

use crate::ast::{Ast, NodeModel};
use crate::error::ParseError;
use crate::parser::grammar::document;
use crate::parser::scanner::MdxParser;
use crate::transformer::Transformer;
use vstd::prelude::*;

verus! {

/// What the transforms `transformers[from..]`, applied in order, make of a
/// document.
pub open spec fn transformed(
    transformers: Seq<Box<dyn Transformer>>,
    from: int,
    document: Seq<NodeModel>,
) -> Seq<NodeModel>
    decreases transformers.len() - from,
{
    if 0 <= from < transformers.len() {
        transformed(transformers, from + 1, transformers[from].apply(document))
    } else {
        document
    }
}

/// The pipeline: the transforms registered so far and the document that
/// the last compilation produced.
pub struct Core {
    ast: Option<Ast>,
    transformers: Vec<Box<dyn Transformer>>,
}

impl Default for Core {
    fn default() -> (core: Self)
        ensures
            core.tree() is None,
            core.pipeline().len() == 0,
    {
        Self::new()
    }
}

impl Core {
    /// The document held, if an input was compiled.
    pub closed spec fn tree(&self) -> Option<Seq<NodeModel>> {
        match self.ast {
            Some(ast) => Some(ast@),
            None => None,
        }
    }

    /// The registered transforms, in the order of their registration.
    pub closed spec fn pipeline(&self) -> Seq<Box<dyn Transformer>> {
        self.transformers@
    }

    /// A pipeline without transforms that holds no document.
    pub fn new() -> (core: Self)
        ensures
            core.tree() is None,
            core.pipeline().len() == 0,
    {
        Self { transformers: Vec::new(), ast: None }
    }

    /// Registers a transform behind those registered before: the pipeline
    /// grows by one stage at its end and is otherwise as it was.
    pub fn use_transformer(self, transformer: Box<dyn Transformer>) -> (core: Self)
        ensures
            core.pipeline() == self.pipeline().push(transformer),
            core.pipeline().len() == self.pipeline().len() + 1,
            core.tree() == self.tree(),
    {
        let mut core = self;
        proof {
            vstd::seq::axiom_seq_push_len(self.pipeline(), transformer);
        }
        core.transformers.push(transformer);
        core
    }

    /// Applies the registered transforms, in order, to the document held.
    pub fn transform(&mut self)
        ensures
            final(self).pipeline() == old(self).pipeline(),
            final(self).tree() == match old(self).tree() {
                Some(document) => Some(transformed(old(self).pipeline(), 0, document)),
                None => None,
            },
    {
        let mut current = match self.ast.take() {
            None => {
                return ;
            },
            Some(ast) => ast,
        };
        let ghost start = current@;
        let mut i: usize = 0;
        while i < self.transformers.len()
            invariant
                i <= self.transformers.len(),
                self.transformers@ == old(self).transformers@,
                transformed(self.transformers@, 0, start) == transformed(
                    self.transformers@,
                    i as int,
                    current@,
                ),
            decreases self.transformers.len() - i,
        {
            let mut copy = current.clone();
            current = self.transformers[i].transform(&mut copy);
            i += 1;
        }
        self.ast = Some(current);
    }

    /// Parses `raw` and applies the registered transforms. On a parse
    /// failure the document held before stays.
    pub fn compile(&mut self, raw: &str) -> (res: Result<(), ParseError>)
        ensures
            final(self).pipeline() == old(self).pipeline(),
            match document(raw@) {
                Ok(nodes) => res is Ok && final(self).tree() == Some(
                    transformed(old(self).pipeline(), 0, nodes),
                ),
                Err(e) => res is Err && res->Err_0@ == e && final(self).tree() == old(self).tree(),
            },
    {
        match self.parse(raw) {
            Err(e) => Err(e),
            Ok(ast) => {
                self.ast = Some(ast);
                self.transform();
                Ok(())
            },
        }
    }

    /// Parses `raw`: the document tree it denotes, or the first failure.
    pub fn parse(&self, raw: &str) -> (res: Result<Ast, ParseError>)
        ensures
            match document(raw@) {
                Ok(nodes) => res is Ok && res->Ok_0@ == nodes,
                Err(e) => res is Err && res->Err_0@ == e,
            },
    {
        MdxParser::parse(raw)
    }

    /// The document tree held, if an input was compiled.
    pub fn ast(&self) -> (held: Option<&Ast>)
        ensures
            match held {
                Some(ast) => self.tree() == Some(ast@),
                None => self.tree() is None,
            },
    {
        self.ast.as_ref()
    }
}

} // verus!

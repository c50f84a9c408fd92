use crate::abs::ast::{RecursiveAnalysisElements, StmtElem};
use crate::abs::atom::Atom;
use crate::errors::parser_errors::ParserError;
use crate::parser::core_parser::MAX_NESTING;
use crate::resolve::{resolve_atom, resolve_block};
use vstd::prelude::*;

verus! {

/// `{ ... }`: a run of statements.
///
/// `contents` holds the flat characters between the braces until the block is
/// resolved, and the statements afterwards; `resolved` says which.
#[derive(Debug)]
pub struct BlockBranch {
    pub contents: Vec<StmtElem>,
    pub depth: isize,
    pub loopdepth: isize,
    pub resolved: bool,
}

impl RecursiveAnalysisElements for BlockBranch {
    /// Resolves the node within `MAX_NESTING` levels of nesting.
    fn resolve_self(&mut self) -> (r: Result<(), ParserError>)
        ensures
            match r {
                Ok(()) => resolve_atom(old(self)@, MAX_NESTING as nat) == Ok::<Atom, ParserError>(final(self)@),
                Err(e) => resolve_atom(old(self)@, MAX_NESTING as nat) == Err::<Atom, ParserError>(e) && *final(self)
                    == *old(self),
            },
    {
        match resolve_block(self, MAX_NESTING) {
            Ok(t) => {
                *self = t;
                Ok(())
            },
            Err(e) => Err(e),
        }
    }
}

} // verus!

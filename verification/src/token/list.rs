use crate::abs::ast::{ExprElem, RecursiveAnalysisElements};
use crate::abs::atom::Atom;
use crate::errors::parser_errors::ParserError;
use crate::parser::core_parser::MAX_NESTING;
use crate::resolve::{resolve_atom, resolve_list};
use vstd::prelude::*;

verus! {

/// A subscript: the callee and its indices.
#[derive(Debug)]
pub struct ListBranch {
    pub name: Box<ExprElem>,
    pub contents: Vec<ExprElem>,
    pub depth: isize,
    pub loopdepth: isize,
    pub resolved: bool,
}

impl RecursiveAnalysisElements for ListBranch {
    /// Resolves the node within `MAX_NESTING` levels of nesting.
    fn resolve_self(&mut self) -> (r: Result<(), ParserError>)
        ensures
            match r {
                Ok(()) => resolve_atom(old(self)@, MAX_NESTING as nat) == Ok::<Atom, ParserError>(final(self)@),
                Err(e) => resolve_atom(old(self)@, MAX_NESTING as nat) == Err::<Atom, ParserError>(e) && *final(self)
                    == *old(self),
            },
    {
        match resolve_list(self, MAX_NESTING) {
            Ok(t) => {
                *self = t;
                Ok(())
            },
            Err(e) => Err(e),
        }
    }
}

} // verus!

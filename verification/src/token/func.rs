use crate::abs::ast::{ExprElem, RecursiveAnalysisElements};
use crate::abs::atom::Atom;
use crate::errors::parser_errors::ParserError;
use crate::parser::core_parser::MAX_NESTING;
use crate::resolve::{resolve_atom, resolve_func};
use vstd::prelude::*;

verus! {

/// A call: the callee and its arguments.
///
/// The callee is a word, another call, a subscript, a control chain, or, where
/// the node stands for an operator applied to its operands, an operator.
#[derive(Debug)]
pub struct FuncBranch {
    pub name: Box<ExprElem>,
    pub contents: Vec<ExprElem>,
    pub depth: isize,
    pub loopdepth: isize,
    pub resolved: bool,
}

impl RecursiveAnalysisElements for FuncBranch {
    /// Resolves the node within `MAX_NESTING` levels of nesting.
    fn resolve_self(&mut self) -> (r: Result<(), ParserError>)
        ensures
            match r {
                Ok(()) => resolve_atom(old(self)@, MAX_NESTING as nat) == Ok::<Atom, ParserError>(final(self)@),
                Err(e) => resolve_atom(old(self)@, MAX_NESTING as nat) == Err::<Atom, ParserError>(e) && *final(self)
                    == *old(self),
            },
    {
        match resolve_func(self, MAX_NESTING) {
            Ok(t) => {
                *self = t;
                Ok(())
            },
            Err(e) => Err(e),
        }
    }
}

} // verus!

use crate::abs::ast::{ExprElem, RecursiveAnalysisElements};
use crate::abs::atom::Atom;
use crate::errors::parser_errors::ParserError;
use crate::parser::core_parser::MAX_NESTING;
use crate::resolve::{resolve_atom, resolve_item};
use vstd::prelude::*;

verus! {

/// One operand or argument slot.
#[derive(Debug)]
pub struct ItemBranch {
    pub contents: Vec<ExprElem>,
    pub depth: isize,
    pub loopdepth: isize,
    pub resolved: bool,
}

impl ItemBranch {
    /// Whether the slot is empty, as the left operand of a prefix operator is.
    pub fn has_no_elem(&self) -> (r: bool)
        ensures
            r == (self.contents@.len() == 0),
    {
        self.contents.len() == 0
    }
}

impl RecursiveAnalysisElements for ItemBranch {
    /// Resolves the node within `MAX_NESTING` levels of nesting.
    fn resolve_self(&mut self) -> (r: Result<(), ParserError>)
        ensures
            match r {
                Ok(()) => resolve_atom(old(self)@, MAX_NESTING as nat) == Ok::<Atom, ParserError>(final(self)@),
                Err(e) => resolve_atom(old(self)@, MAX_NESTING as nat) == Err::<Atom, ParserError>(e) && *final(self)
                    == *old(self),
            },
    {
        match resolve_item(self, MAX_NESTING) {
            Ok(t) => {
                *self = t;
                Ok(())
            },
            Err(e) => Err(e),
        }
    }
}

} // verus!

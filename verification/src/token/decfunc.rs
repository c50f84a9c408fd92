use crate::abs::ast::StmtElem;
use vstd::prelude::*;

verus! {

/// The declaration of a function: the statements of its body.
#[derive(Debug)]
pub struct DecFuncBranch {
    pub contents: Vec<StmtElem>,
    pub depth: isize,
    pub loopdepth: isize,
}

} // verus!

use crate::abs::ast::ExprElem;
use vstd::prelude::*;

verus! {

/// The declaration of a name: the name, and the value it starts with if it has one.
#[derive(Debug)]
pub struct LetBranch {
    pub name: ExprElem,
    pub code_list: Option<ExprElem>,
    pub public: bool,
    pub export: bool,
    pub depth: isize,
    pub loopdepth: isize,
}

} // verus!

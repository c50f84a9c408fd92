use crate::abs::ast::TypeElem;
use vstd::prelude::*;

verus! {

/// `< ... >` in a type annotation: the types between the angle brackets.
#[derive(Debug)]
pub struct TypeBlockBranch {
    pub code_list: Vec<TypeElem>,
    pub depth: isize,
}

} // verus!

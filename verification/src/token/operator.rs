use vstd::prelude::*;

verus! {

/// An operator of the operator table.
#[derive(Debug)]
pub struct OperatorBranch {
    pub ope: String,
    pub depth: isize,
}

impl Clone for OperatorBranch {
    fn clone(&self) -> (r: Self)
        ensures
            r == *self,
    {
        OperatorBranch { ope: self.ope.clone(), depth: self.depth }
    }
}

} // verus!

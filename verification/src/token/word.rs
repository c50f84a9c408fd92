use vstd::prelude::*;

verus! {

/// An identifier, keyword or number literal.
#[derive(Debug)]
pub struct WordBranch {
    pub contents: String,
    pub depth: isize,
    pub loopdepth: isize,
}

impl Clone for WordBranch {
    fn clone(&self) -> (r: Self)
        ensures
            r == *self,
    {
        WordBranch { contents: self.contents.clone(), depth: self.depth, loopdepth: self.loopdepth }
    }
}

} // verus!

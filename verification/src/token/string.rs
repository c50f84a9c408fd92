use vstd::prelude::*;

verus! {

/// A string literal, without its quotes.
#[derive(Debug)]
pub struct StringBranch {
    pub contents: String,
    pub depth: isize,
    pub loopdepth: isize,
}

impl Clone for StringBranch {
    fn clone(&self) -> (r: Self)
        ensures
            r == *self,
    {
        StringBranch { contents: self.contents.clone(), depth: self.depth, loopdepth: self.loopdepth }
    }
}

} // verus!

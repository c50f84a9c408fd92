use vstd::prelude::*;

verus! {

/// A comment, without its delimiters.
#[derive(Debug)]
pub struct CommentBranch {
    pub contents: String,
    pub depth: isize,
    pub loopdepth: isize,
}

impl Clone for CommentBranch {
    fn clone(&self) -> (r: Self)
        ensures
            r == *self,
    {
        CommentBranch { contents: self.contents.clone(), depth: self.depth, loopdepth: self.loopdepth }
    }
}

} // verus!

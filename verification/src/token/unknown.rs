use vstd::prelude::*;

verus! {

/// A character that no pass has classified yet.
#[derive(Debug, Clone, Copy, PartialEq, Eq, Structural)]
pub struct UnKnownBranch {
    pub contents: char,
}

} // verus!

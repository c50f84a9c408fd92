use vstd::prelude::*;

verus! {

/// Everything that can go wrong while emitting WebAssembly text.
#[derive(Debug, Clone, Copy, PartialEq, Eq, Structural)]
pub enum GenerateError {
    /// A number literal that starts or ends with `.`.
    InvalidNum,
    /// An operator for which no instruction is emitted.
    InvalidOperation,
    /// The left side of an assignment is not a pattern that can be assigned to.
    InvalidleftPattern,
    /// A node of a type that cannot stand where it was found.
    InvalidTypeError,
    /// A configuration that the parser never produces.
    Deverror,
}

} // verus!

use crate::errors::generate_errors::GenerateError;
use vstd::prelude::*;

verus! {

/// What a node offers that can be emitted on its own.
///
/// The text is a sequence of instructions in the text format of WebAssembly,
/// to be placed in the body of a function; no module is built around it.
#[allow(non_camel_case_types)]
pub trait Wasm_gen {
    /// The instructions that the node stands for.
    fn generate_wasm(&self) -> Result<String, GenerateError>;
}

} // verus!

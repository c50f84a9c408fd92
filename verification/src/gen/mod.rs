pub mod wasm;
pub mod wat;

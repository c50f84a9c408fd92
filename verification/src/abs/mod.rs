pub mod ast;
pub mod atom;
pub mod gen;

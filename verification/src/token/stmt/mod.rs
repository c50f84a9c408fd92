pub mod declet;
pub mod expr;
pub mod stmt;

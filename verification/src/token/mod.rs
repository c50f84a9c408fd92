pub mod block;
pub mod comment;
pub mod decfunc;
pub mod func;
pub mod item;
pub mod list;
pub mod list_block;
pub mod operator;
pub mod paren_block;
pub mod stmt;
pub mod string;
pub mod syntax;
pub mod syntax_box;
pub mod ttype;
pub mod unknown;
pub mod word;

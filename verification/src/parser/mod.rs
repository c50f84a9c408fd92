pub mod alike;
pub mod balance;
pub mod comma_parser;
pub mod content;
pub mod core_parser;
pub mod expr_parser;
pub mod grammar;
pub mod lexer;
pub mod literals;
pub mod origin;
pub mod spacing;
pub mod statement;
pub mod stmt_parser;
pub mod type_parser;

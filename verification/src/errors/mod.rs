pub mod generate_errors;
pub mod parser_errors;

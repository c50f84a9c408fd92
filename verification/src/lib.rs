//! Front end and WebAssembly-text back end of a small expression and statement language.
//!
//! Source text goes through three layers. The parsers under [`parser`] group
//! characters into strings, comments, brackets, words and operators, recognise
//! calls, subscripts and control clauses, and split a run at its operator of
//! lowest priority. Resolution ([`resolve`]) parses the deferred content of
//! every composite node, depth by depth. The generator ([`gen`]) walks the
//! resolved tree and emits instructions. [`show`] dumps a tree as text.
//!
//! Every executable function is specified against the mathematical tree of
//! [`abs::atom::Atom`], the common view of expression and statement nodes:
//! what a pass, a resolution or the generator returns is the value of a
//! function on those trees. The laws that hold of these functions are proved
//! next to them: bracket balance in [`parser::lexer`] and [`parser::balance`],
//! the place of white space in [`parser::spacing`] and [`parser::literals`],
//! the operator at which an expression is split and the merging of calls in
//! [`parser::grammar`], idempotence of resolution in [`resolve`], and the
//! agreement of loop depths and branch labels in [`depths`]. What every pass
//! keeps of its input, atom by atom, is proved in [`parser::origin`],
//! [`parser::alike`] and [`parser::content`].
pub mod abs;
pub mod depths;
pub mod errors;
pub mod gen;
pub mod parser;
pub mod resolve;
pub mod show;
pub mod test;
pub mod text;
pub mod token;

use vstd::prelude::*;

verus! {

/// Everything that can go wrong while grouping, tokenizing or resolving source text.
#[derive(Debug, Clone, Copy, PartialEq, Eq, Structural)]
pub enum ParserError {
    /// A `"` was opened and the input ended before it was closed.
    QuotationNotClosed,
    /// A closing bracket arrived while no bracket of its kind was open.
    BraceNotOpened,
    /// The input ended while a bracket was still open.
    BraceNotClosed,
    /// An `elif` or `else` clause without an `if`, `while`, `for` or `loop` before it.
    GroupingSyntaxBoxError,
    /// An operator lexeme that the precedence table does not know.
    OperationError,
    /// A `/*` was opened and the input ended before `*/`.
    CommentBlockNotClosed,
    /// A statement atom that has no counterpart among the expression atoms.
    UnableToConvertType,
    /// An atom arrived where the statement parser cannot take it.
    UnexpectedTypeStmt,
    /// An atom arrived where the expression parser cannot take it.
    UnexpectedTypeExpr,
    /// An atom arrived where the argument splitter cannot take it.
    UnexpectedTypeComma,
    /// A call or index node whose argument slot does not have the shape the grouper gives it.
    DevError,
    /// A fault that has no kind of its own.
    Uncategorized,
    /// The tree is nested deeper than `MAX_NESTING`, or a depth counter cannot grow any further.
    NestingTooDeep,
}

} // verus!

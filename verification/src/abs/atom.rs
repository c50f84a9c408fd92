use crate::token::ttype::primitive::PrimitiveType;
use vstd::prelude::*;

verus! {

/// One node of the syntax tree, as a mathematical value.
///
/// Expression nodes and statement nodes share this model: the lexical kinds
/// (`Unknown`, `Str`, `Comment`, `Word`, `Ope`) and the three bracket kinds occur
/// at both levels, the call, index, operand and control-clause kinds only among
/// expressions, `Expr` and `Special` only among statements.
///
/// `depth` counts the brackets around a node, `loopdepth` the `while` and `for`
/// bodies around it. A composite node carries `resolved`: false while its
/// content is the flat run that the grouper left, true once the content has been
/// parsed and every node in it resolved.
pub enum Atom {
    /// A character that no pass has classified yet.
    Unknown { ch: char },
    /// A string literal, without its quotes.
    Str { text: Seq<char>, depth: isize, loopdepth: isize },
    /// A comment, without its delimiters.
    Comment { text: Seq<char>, depth: isize, loopdepth: isize },
    /// An identifier, keyword or number literal.
    Word { text: Seq<char>, depth: isize, loopdepth: isize },
    /// An operator of the operator table.
    Ope { ope: Seq<char>, depth: isize },
    /// `{ ... }`: statements.
    Block { contents: Seq<Atom>, depth: isize, loopdepth: isize, resolved: bool },
    /// `[ ... ]`: expressions.
    ListBlock { contents: Seq<Atom>, depth: isize, loopdepth: isize, resolved: bool },
    /// `( ... )`: expressions.
    ParenBlock { contents: Seq<Atom>, depth: isize, loopdepth: isize, resolved: bool },
    /// One clause `name (expr) { contents }` of a control construct.
    Syntax {
        name: Seq<char>,
        expr: Seq<Atom>,
        contents: Seq<Atom>,
        depth: isize,
        loopdepth: isize,
        resolved: bool,
    },
    /// A chain of clauses, such as `if`, `elif`, `else`; every member is a `Syntax`.
    SyntaxBox { name: Seq<char>, contents: Seq<Atom>, depth: isize, loopdepth: isize },
    /// A call: a callee and its arguments. An operator applied to its two operands has this shape too.
    Func { callee: Box<Atom>, contents: Seq<Atom>, depth: isize, loopdepth: isize, resolved: bool },
    /// A subscript: a callee and its indices.
    List { callee: Box<Atom>, contents: Seq<Atom>, depth: isize, loopdepth: isize, resolved: bool },
    /// One operand or argument slot; empty where an operator has no left operand.
    Item { contents: Seq<Atom>, depth: isize, loopdepth: isize, resolved: bool },
    /// A statement made of one expression run.
    Expr { code_list: Seq<Atom>, depth: isize, loopdepth: isize, resolved: bool },
    /// A statement that starts with `return`, `break`, `continue` or `assert`.
    Special { head: Seq<char>, code_list: Seq<Atom>, depth: isize, loopdepth: isize, resolved: bool },
}

impl Atom {
    /// The character of an unclassified atom.
    pub open spec fn unknown_char(self) -> Option<char> {
        match self {
            Atom::Unknown { ch } => Some(ch),
            _ => None,
        }
    }

    /// Whether this atom is the unclassified character `c`.
    pub open spec fn is_char(self, c: char) -> bool {
        self == (Atom::Unknown { ch: c })
    }
}

/// One node of a type annotation, as a mathematical value.
pub enum TypeAtom {
    /// A character that no pass has classified yet.
    Unknown { ch: char },
    /// A primitive type.
    Primitive { primitive_type: PrimitiveType, depth: isize, loopdepth: isize },
    /// `< ... >`: the types between the angle brackets.
    TypeBlock { code_list: Seq<TypeAtom>, depth: isize },
}

impl TypeAtom {
    /// Whether this atom is the unclassified character `c`.
    pub open spec fn is_char(self, c: char) -> bool {
        self == (TypeAtom::Unknown { ch: c })
    }
}

} // verus!

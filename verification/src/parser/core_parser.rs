//! What all parsers share: the reserved characters and words, and the operator table.
use crate::errors::parser_errors::ParserError;
use crate::text::same_text;
use vstd::prelude::*;

verus! {

/// How operators of equal priority associate.
#[derive(Debug, Clone, Copy, PartialEq, Eq, Structural)]
pub enum Prio {
    Left,
    Right,
    Prefix,
}

/// One row of the operator table.
#[derive(Debug, Clone, Copy)]
pub struct Ope<'a> {
    pub opestr: &'a str,
    pub priority_direction: Prio,
    pub priority: i32,
}

/// The operators by name.
#[derive(Debug, Clone, Copy, PartialEq, Eq, Structural)]
pub enum OpeTable {
    ARROW,
    OR,
    AND,
    EQ,
    NE,
    LT,
    LE,
    GT,
    GE,
    ADD,
    SUB,
    MUL,
    DIV,
    MOD,
    DOT,
    ASSIGNMENT,
    ADDEQ,
    SUBEQ,
    MULEQ,
    DIVEQ,
    MODEQ,
    POW,
    NOT,
}

/// Which parser runs a pass; the passes are shared, the errors they report are not.
#[derive(Debug, Clone, Copy, PartialEq, Eq, Structural)]
pub enum ParserKind {
    Expr,
    Stmt,
    Comma,
}

impl ParserKind {
    /// The error for an atom that a pass of this parser cannot take.
    pub open spec fn unexpected(self) -> ParserError {
        match self {
            ParserKind::Expr => ParserError::UnexpectedTypeExpr,
            ParserKind::Stmt => ParserError::UnexpectedTypeStmt,
            ParserKind::Comma => ParserError::UnexpectedTypeComma,
        }
    }

    /// The error for an atom that a pass of this parser cannot take.
    pub fn unexpected_error(self) -> (e: ParserError)
        ensures
            e == self.unexpected(),
    {
        match self {
            ParserKind::Expr => ParserError::UnexpectedTypeExpr,
            ParserKind::Stmt => ParserError::UnexpectedTypeStmt,
            ParserKind::Comma => ParserError::UnexpectedTypeComma,
        }
    }
}

pub const SEMICOLON: char = ';';

pub const COMMA: char = ',';

pub const ESCAPECHAR: char = '\\';

pub const DOUBLE_QUOTATION: char = '"';

pub const BLOCK_BRACE_OPEN: char = '{';

pub const BLOCK_BRACE_CLOSE: char = '}';

pub const BLOCK_PAREN_OPEN: char = '(';

pub const BLOCK_PAREN_CLOSE: char = ')';

pub const BLOCK_LIST_OPEN: char = '[';

pub const BLOCK_LIST_CLOSE: char = ']';

/// The most composite nodes that resolution descends through, one inside the other.
pub const MAX_NESTING: usize = 256;

/// The number of rows of the operator table.
pub const OPE_COUNT: usize = 23;

/// Whether `c` separates words and is itself dropped: space, tab, newline.
pub open spec fn is_split_char(c: char) -> bool {
    c == ' ' || c == '\t' || c == '\n'
}

/// Whether `c` ends a word and stays in the stream: `;`, `:` or `,`.
pub open spec fn is_exclude_char(c: char) -> bool {
    c == ';' || c == ':' || c == ','
}

/// Whether `c` occurs in an operator of the operator table.
pub open spec fn is_ope_char(c: char) -> bool {
    c == '-' || c == '>' || c == '|' || c == '&' || c == '=' || c == '!' || c == '<' || c == '+'
        || c == '*' || c == '/' || c == '%' || c == '@'
}

/// Whether a word opens a control clause.
pub open spec fn is_syntax_word(w: Seq<char>) -> bool {
    w == "if"@ || w == "elif"@ || w == "else"@ || w == "loop"@ || w == "for"@ || w == "while"@
        || w == "match"@
}

/// Whether a clause of this name can start a chain.
pub open spec fn is_syntax_head(w: Seq<char>) -> bool {
    w == "if"@ || w == "loop"@ || w == "for"@ || w == "while"@
}

/// Whether a word starts a control statement.
pub open spec fn is_control_word(w: Seq<char>) -> bool {
    w == "return"@ || w == "break"@ || w == "continue"@ || w == "assert"@
}

/// The lexeme of row `k` of the operator table. Longer lexemes come first.
pub open spec fn ope_lexeme(k: int) -> Seq<char> {
    if k == 0 {
        "->"@
    } else if k == 1 {
        "||"@
    } else if k == 2 {
        "&&"@
    } else if k == 3 {
        "=="@
    } else if k == 4 {
        "!="@
    } else if k == 5 {
        "<="@
    } else if k == 6 {
        ">="@
    } else if k == 7 {
        "+="@
    } else if k == 8 {
        "-="@
    } else if k == 9 {
        "*="@
    } else if k == 10 {
        "/="@
    } else if k == 11 {
        "%="@
    } else if k == 12 {
        "**"@
    } else if k == 13 {
        "<"@
    } else if k == 14 {
        ">"@
    } else if k == 15 {
        "+"@
    } else if k == 16 {
        "-"@
    } else if k == 17 {
        "*"@
    } else if k == 18 {
        "/"@
    } else if k == 19 {
        "%"@
    } else if k == 20 {
        "@"@
    } else if k == 21 {
        "="@
    } else {
        "!"@
    }
}

/// The priority of row `k` of the operator table; a lower priority binds less tightly.
pub open spec fn ope_priority(k: int) -> int {
    if k == 0 {
        -4
    } else if k == 1 {
        -3
    } else if k == 2 {
        -2
    } else if 3 <= k <= 6 || k == 13 || k == 14 {
        0
    } else if 7 <= k <= 11 || k == 21 {
        -5
    } else if k == 12 {
        3
    } else if k == 15 || k == 16 {
        1
    } else if 17 <= k <= 20 {
        2
    } else {
        -1
    }
}

/// How row `k` of the operator table associates.
pub open spec fn ope_direction(k: int) -> Prio {
    if k == 0 || 7 <= k <= 12 || k == 21 {
        Prio::Right
    } else if k == 22 {
        Prio::Prefix
    } else {
        Prio::Left
    }
}

/// The first row at or after `k` whose lexeme is `w`, if there is one.
pub open spec fn find_ope_from(w: Seq<char>, k: int) -> Option<int>
    decreases OPE_COUNT - k,
{
    if k < 0 || k >= OPE_COUNT {
        None
    } else if ope_lexeme(k) == w {
        Some(k)
    } else {
        find_ope_from(w, k + 1)
    }
}

/// The row of the operator table whose lexeme is `w`, if there is one.
pub open spec fn find_ope(w: Seq<char>) -> Option<int> {
    find_ope_from(w, 0)
}

/// The operator that a lexeme names, as `OpeTable::set` gives it.
pub open spec fn ope_named(w: Seq<char>) -> Option<OpeTable> {
    if w == "->"@ {
        Some(OpeTable::OR)
    } else if w == "||"@ {
        Some(OpeTable::OR)
    } else if w == "&&"@ {
        Some(OpeTable::AND)
    } else if w == "=="@ {
        Some(OpeTable::EQ)
    } else if w == "!="@ {
        Some(OpeTable::NE)
    } else if w == "<"@ {
        Some(OpeTable::LT)
    } else if w == "<="@ {
        Some(OpeTable::LE)
    } else if w == ">"@ {
        Some(OpeTable::GT)
    } else if w == ">="@ {
        Some(OpeTable::GE)
    } else if w == "+"@ {
        Some(OpeTable::ADD)
    } else if w == "-"@ {
        Some(OpeTable::SUB)
    } else if w == "*"@ {
        Some(OpeTable::MUL)
    } else if w == "/"@ {
        Some(OpeTable::DIV)
    } else if w == "%"@ {
        Some(OpeTable::MOD)
    } else if w == "@"@ {
        Some(OpeTable::DOT)
    } else if w == "="@ {
        Some(OpeTable::ASSIGNMENT)
    } else if w == "+="@ {
        Some(OpeTable::ADDEQ)
    } else if w == "-="@ {
        Some(OpeTable::SUBEQ)
    } else if w == "*="@ {
        Some(OpeTable::MULEQ)
    } else if w == "/="@ {
        Some(OpeTable::DIVEQ)
    } else if w == "%="@ {
        Some(OpeTable::MODEQ)
    } else if w == "**"@ {
        Some(OpeTable::POW)
    } else if w == "!"@ {
        Some(OpeTable::NOT)
    } else {
        None
    }
}

impl OpeTable {
    /// The operator that the lexeme `s` names.
    ///
    /// `->` is read as `||`. Any other text is refused.
    pub fn set(s: &str) -> (r: Result<Self, &'static str>)
        ensures
            match r {
                Ok(t) => ope_named(s@) == Some(t),
                Err(m) => ope_named(s@) is None && m@ == "Invalid Operation String"@,
            },
    {
        if same_text(s, "->") {
            Ok(OpeTable::OR)
        } else if same_text(s, "||") {
            Ok(OpeTable::OR)
        } else if same_text(s, "&&") {
            Ok(OpeTable::AND)
        } else if same_text(s, "==") {
            Ok(OpeTable::EQ)
        } else if same_text(s, "!=") {
            Ok(OpeTable::NE)
        } else if same_text(s, "<") {
            Ok(OpeTable::LT)
        } else if same_text(s, "<=") {
            Ok(OpeTable::LE)
        } else if same_text(s, ">") {
            Ok(OpeTable::GT)
        } else if same_text(s, ">=") {
            Ok(OpeTable::GE)
        } else if same_text(s, "+") {
            Ok(OpeTable::ADD)
        } else if same_text(s, "-") {
            Ok(OpeTable::SUB)
        } else if same_text(s, "*") {
            Ok(OpeTable::MUL)
        } else if same_text(s, "/") {
            Ok(OpeTable::DIV)
        } else if same_text(s, "%") {
            Ok(OpeTable::MOD)
        } else if same_text(s, "@") {
            Ok(OpeTable::DOT)
        } else if same_text(s, "=") {
            Ok(OpeTable::ASSIGNMENT)
        } else if same_text(s, "+=") {
            Ok(OpeTable::ADDEQ)
        } else if same_text(s, "-=") {
            Ok(OpeTable::SUBEQ)
        } else if same_text(s, "*=") {
            Ok(OpeTable::MULEQ)
        } else if same_text(s, "/=") {
            Ok(OpeTable::DIVEQ)
        } else if same_text(s, "%=") {
            Ok(OpeTable::MODEQ)
        } else if same_text(s, "**") {
            Ok(OpeTable::POW)
        } else if same_text(s, "!") {
            Ok(OpeTable::NOT)
        } else {
            Err("Invalid Operation String")
        }
    }
}

/// Whether `c` separates words and is itself dropped.
pub fn split_char(c: char) -> (r: bool)
    ensures
        r == is_split_char(c),
{
    c == ' ' || c == '\t' || c == '\n'
}

/// Whether `c` ends a word and stays in the stream.
pub fn exclude_char(c: char) -> (r: bool)
    ensures
        r == is_exclude_char(c),
{
    c == ';' || c == ':' || c == ','
}

/// Whether `c` occurs in an operator of the operator table.
pub fn ope_char(c: char) -> (r: bool)
    ensures
        r == is_ope_char(c),
{
    c == '-' || c == '>' || c == '|' || c == '&' || c == '=' || c == '!' || c == '<' || c == '+'
        || c == '*' || c == '/' || c == '%' || c == '@'
}

/// Whether a word opens a control clause.
pub fn syntax_word(w: &str) -> (r: bool)
    ensures
        r == is_syntax_word(w@),
{
    same_text(w, "if") || same_text(w, "elif") || same_text(w, "else") || same_text(w, "loop")
        || same_text(w, "for") || same_text(w, "while") || same_text(w, "match")
}

/// Whether a clause of this name can start a chain.
pub fn syntax_head(w: &str) -> (r: bool)
    ensures
        r == is_syntax_head(w@),
{
    same_text(w, "if") || same_text(w, "loop") || same_text(w, "for") || same_text(w, "while")
}

/// Whether a word starts a control statement.
pub fn control_word(w: &str) -> (r: bool)
    ensures
        r == is_control_word(w@),
{
    same_text(w, "return") || same_text(w, "break") || same_text(w, "continue") || same_text(
        w,
        "assert",
    )
}

/// Row `k` of the operator table.
pub fn ope_row(k: usize) -> (r: Ope<'static>)
    requires
        k < OPE_COUNT,
    ensures
        r.opestr@ == ope_lexeme(k as int),
        r.priority == ope_priority(k as int),
        r.priority_direction == ope_direction(k as int),
{
    if k == 0 {
        Ope { opestr: "->", priority_direction: Prio::Right, priority: -4 }
    } else if k == 1 {
        Ope { opestr: "||", priority_direction: Prio::Left, priority: -3 }
    } else if k == 2 {
        Ope { opestr: "&&", priority_direction: Prio::Left, priority: -2 }
    } else if k == 3 {
        Ope { opestr: "==", priority_direction: Prio::Left, priority: 0 }
    } else if k == 4 {
        Ope { opestr: "!=", priority_direction: Prio::Left, priority: 0 }
    } else if k == 5 {
        Ope { opestr: "<=", priority_direction: Prio::Left, priority: 0 }
    } else if k == 6 {
        Ope { opestr: ">=", priority_direction: Prio::Left, priority: 0 }
    } else if k == 7 {
        Ope { opestr: "+=", priority_direction: Prio::Right, priority: -5 }
    } else if k == 8 {
        Ope { opestr: "-=", priority_direction: Prio::Right, priority: -5 }
    } else if k == 9 {
        Ope { opestr: "*=", priority_direction: Prio::Right, priority: -5 }
    } else if k == 10 {
        Ope { opestr: "/=", priority_direction: Prio::Right, priority: -5 }
    } else if k == 11 {
        Ope { opestr: "%=", priority_direction: Prio::Right, priority: -5 }
    } else if k == 12 {
        Ope { opestr: "**", priority_direction: Prio::Right, priority: 3 }
    } else if k == 13 {
        Ope { opestr: "<", priority_direction: Prio::Left, priority: 0 }
    } else if k == 14 {
        Ope { opestr: ">", priority_direction: Prio::Left, priority: 0 }
    } else if k == 15 {
        Ope { opestr: "+", priority_direction: Prio::Left, priority: 1 }
    } else if k == 16 {
        Ope { opestr: "-", priority_direction: Prio::Left, priority: 1 }
    } else if k == 17 {
        Ope { opestr: "*", priority_direction: Prio::Left, priority: 2 }
    } else if k == 18 {
        Ope { opestr: "/", priority_direction: Prio::Left, priority: 2 }
    } else if k == 19 {
        Ope { opestr: "%", priority_direction: Prio::Left, priority: 2 }
    } else if k == 20 {
        Ope { opestr: "@", priority_direction: Prio::Left, priority: 2 }
    } else if k == 21 {
        Ope { opestr: "=", priority_direction: Prio::Right, priority: -5 }
    } else {
        Ope { opestr: "!", priority_direction: Prio::Prefix, priority: -1 }
    }
}

/// The row of the operator table whose lexeme is `ope`.
pub fn find_ope_priority(ope: &str) -> (r: Option<Ope<'static>>)
    ensures
        match r {
            Some(row) => {
                &&& find_ope(ope@) matches Some(k)
                &&& row.opestr@ == ope@
                &&& row.priority == ope_priority(k)
                &&& row.priority_direction == ope_direction(k)
            },
            None => find_ope(ope@) is None,
        },
{
    let mut k: usize = 0;
    while k < OPE_COUNT
        invariant
            k <= OPE_COUNT,
            find_ope(ope@) == find_ope_from(ope@, k as int),
        decreases OPE_COUNT - k,
    {
        let row = ope_row(k);
        if same_text(row.opestr, ope) {
            return Some(row);
        }
        k += 1;
    }
    None
}

/// What a parser offers: it is made from source text, and resolves it in place.
pub trait Parser: Sized {
    /// A parser over `code`, seeded with the depth and the loop depth around it.
    fn new(code: String, depth: isize, loopdepth: isize) -> Self;

    /// Parses the text and resolves every node of the result.
    fn resolve(&mut self) -> Result<(), ParserError>;
}

} // verus!

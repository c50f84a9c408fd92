//! What the generator emits, as functions from trees to text.
//!
//! The target is the text format of WebAssembly, one instruction to a line.
//! Every value is an `i32`. A name is a local, but for `__mem`, which stands
//! for the linear memory: `__mem[i]` loads from it and `__mem[i] = v` stores
//! to it. A `while` loop of loop depth `n` is a `loop $L<n>` around a
//! `block $B<n>`; `continue` branches to the first and `break` to the second
//! label of the loop around it, whose loop depth is one less than that of the
//! statement.
use crate::abs::atom::Atom;
use crate::errors::generate_errors::GenerateError;
use crate::text::decimal;
use vstd::prelude::*;

verus! {

/// Emitted text, or the reason why none can be emitted.
pub type Wat = Result<Seq<char>, GenerateError>;

/// What a run of nodes is to the node that holds it.
#[derive(Debug, Clone, Copy, PartialEq, Eq, Structural)]
pub enum Role {
    /// The arguments of a call.
    Argument,
    /// The clauses of an `if` chain.
    IfClause,
    /// The clauses of a `while` chain.
    WhileClause,
    /// The statements of a body.
    Statement,
    /// The expressions of an expression statement.
    Expression,
}

/// Two texts one after the other; the first error wins.
pub open spec fn join(a: Wat, b: Wat) -> Wat {
    match a {
        Err(e) => Err(e),
        Ok(x) => match b {
            Err(e) => Err(e),
            Ok(y) => Ok(x + y),
        },
    }
}

/// Whether `c` is one of `0` to `9`.
pub open spec fn is_digit(c: char) -> bool {
    '0' <= c && c <= '9'
}

/// Whether the characters of a word at and after position `i` let it be a number.
pub open spec fn number_from(t: Seq<char>, i: int) -> Result<bool, GenerateError>
    decreases t.len() - i,
{
    if i < 0 || i >= t.len() {
        Ok(true)
    } else if t[i] == '.' {
        if i == 0 || i == t.len() - 1 {
            Err(GenerateError::InvalidNum)
        } else {
            number_from(t, i + 1)
        }
    } else if !is_digit(t[i]) {
        Ok(false)
    } else {
        number_from(t, i + 1)
    }
}

/// Whether a word is a number literal: digits, with `.` between them.
///
/// A word that is a number up to a `.` at its start or at its end is an
/// invalid number.
pub open spec fn is_number(t: Seq<char>) -> Result<bool, GenerateError> {
    number_from(t, 0)
}

/// The value of a word: a constant for a number literal, and the local of that name otherwise.
pub open spec fn wat_word(text: Seq<char>) -> Wat {
    match is_number(text) {
        Err(e) => Err(e),
        Ok(true) => Ok("i32.const "@ + text + "\n"@),
        Ok(false) => Ok("local.get $"@ + text + "\n"@),
    }
}

/// The label of the loop of loop depth `n`, to which `continue` branches.
pub open spec fn loop_label(n: int) -> Seq<char> {
    "L"@ + decimal(n)
}

/// The label of the block of the loop of loop depth `n`, to which `break` branches.
pub open spec fn block_label(n: int) -> Seq<char> {
    "B"@ + decimal(n)
}

/// The position of the first atom at or after `i` that is no comment, and
/// the length of the run where there is none.
///
/// A comment emits nothing, wherever it stands: what an operand or a
/// parenthesis emits is decided by the atoms of it that are no comments.
pub open spec fn next_code(s: Seq<Atom>, i: int) -> int
    decreases s.len() - i,
{
    if i < 0 || i >= s.len() {
        s.len() as int
    } else if s[i] is Comment {
        next_code(s, i + 1)
    } else {
        i
    }
}

/// Whether a run holds an atom that is no comment.
pub open spec fn has_code(s: Seq<Atom>) -> bool {
    0 <= next_code(s, 0) < s.len()
}

/// Whether a run holds exactly one atom that is no comment; it stands at `next_code(s, 0)`.
pub open spec fn has_one_code(s: Seq<Atom>) -> bool {
    has_code(s) && !(0 <= next_code(s, next_code(s, 0) + 1) < s.len())
}

/// The operand of a prefix operator: `dflt` where the operand slot is empty,
/// and the value of the operand otherwise.
pub open spec fn prefix_or(l: Atom, left: Wat, dflt: Seq<char>) -> Wat {
    match l {
        Atom::Item { contents, .. } => {
            if !has_code(contents) {
                Ok(dflt)
            } else {
                left
            }
        },
        _ => left,
    }
}

/// What an assignment emits: the value, then a `local.set` for a name, or the
/// index, the value and an `i32.store` for an element of the linear memory.
///
/// `right` is the value of the right side, `target` the index of the left
/// side where that is a subscript.
pub open spec fn assign_text(l: Atom, right: Wat, target: Wat) -> Wat {
    match right {
        Err(e) => Err(e),
        Ok(value) => match l {
            Atom::Item { contents, .. } => {
                if !has_code(contents) {
                    Err(GenerateError::InvalidleftPattern)
                } else {
                    match contents[next_code(contents, 0)] {
                        Atom::Word { text, .. } => Ok(value + "local.set $"@ + text + "\n"@),
                        Atom::List { .. } => match target {
                            Err(e) => Err(e),
                            Ok(index) => Ok(index + value + "i32.store\n"@),
                        },
                        _ => Err(GenerateError::InvalidleftPattern),
                    }
                }
            },
            _ => Err(GenerateError::Deverror),
        },
    }
}

/// The instruction of a compound assignment.
pub open spec fn compound_instruction(ope: Seq<char>) -> Wat {
    if ope == "+="@ {
        Ok("i32.add\n"@)
    } else if ope == "-="@ {
        Ok("i32.sub\n"@)
    } else if ope == "*="@ {
        Ok("i32.mul\n"@)
    } else if ope == "/="@ {
        Ok("i32.div\n"@)
    } else if ope == "%="@ {
        Ok("i32.rem_s\n"@)
    } else {
        Err(GenerateError::Deverror)
    }
}

/// What a compound assignment to a name emits: the name is read, the value
/// pushed, the instruction applied, and the name set.
pub open spec fn compound_text(l: Atom, right: Wat, ope: Seq<char>) -> Wat {
    match right {
        Err(e) => Err(e),
        Ok(value) => match l {
            Atom::Item { contents, .. } => {
                if !has_code(contents) {
                    Err(GenerateError::InvalidleftPattern)
                } else {
                    match contents[next_code(contents, 0)] {
                        Atom::Word { text, .. } => match compound_instruction(ope) {
                            Err(e) => Err(e),
                            Ok(instruction) => Ok(
                                "local.get $"@ + text + "\n"@ + value + instruction + "local.set $"@ + text + "\n"@,
                            ),
                        },
                        _ => Err(GenerateError::InvalidleftPattern),
                    }
                }
            },
            _ => Err(GenerateError::Deverror),
        },
    }
}

/// What an operator applied to two operands emits.
///
/// `l` is the left operand, `left` and `right` are the values of the two
/// operands, `target` is the index of the left operand where that is a
/// subscript. `-` with no left operand subtracts from `0`, `!` with no left
/// operand is an exclusive or with `1`.
pub open spec fn operator_text(ope: Seq<char>, l: Atom, left: Wat, right: Wat, target: Wat) -> Wat {
    if ope == "="@ {
        assign_text(l, right, target)
    } else if ope == "+="@ || ope == "-="@ || ope == "*="@ || ope == "/="@ || ope == "%="@ {
        compound_text(l, right, ope)
    } else if ope == "+"@ {
        join(join(left, right), Ok("i32.add\n"@))
    } else if ope == "-"@ {
        join(join(prefix_or(l, left, "i32.const 0\n"@), right), Ok("i32.sub\n"@))
    } else if ope == "*"@ {
        join(join(left, right), Ok("i32.mul\n"@))
    } else if ope == "/"@ {
        join(join(left, right), Ok("i32.div\n"@))
    } else if ope == "%"@ {
        join(join(left, right), Ok("i32.rem_s\n"@))
    } else if ope == "&&"@ {
        join(join(left, right), Ok("i32.and\n"@))
    } else if ope == "||"@ {
        join(join(left, right), Ok("i32.or\n"@))
    } else if ope == "!"@ {
        join(join(prefix_or(l, left, "i32.const 1\n"@), right), Ok("i32.xor\n"@))
    } else if ope == "=="@ {
        join(join(left, right), Ok("i32.eq\n"@))
    } else if ope == "!="@ {
        join(join(left, right), Ok("i32.ne\n"@))
    } else if ope == "<"@ {
        join(join(left, right), Ok("i32.lt_s\n"@))
    } else if ope == ">"@ {
        join(join(left, right), Ok("i32.gt_s\n"@))
    } else if ope == "<="@ {
        join(join(left, right), Ok("i32.le_s\n"@))
    } else if ope == ">="@ {
        join(join(left, right), Ok("i32.ge_s\n"@))
    } else {
        Err(GenerateError::InvalidOperation)
    }
}

/// A branch to a label; it is a terminator, and so is followed by `unreachable`.
pub open spec fn branch_text(label: Seq<char>) -> Seq<char> {
    "br $"@ + label + "\n"@ + "unreachable\n"@
}

/// Whether an atom is the control statement that starts with `word`.
pub open spec fn is_control(stmt: Atom, word: Seq<char>) -> bool {
    match stmt {
        Atom::Special { head, .. } => head == word,
        _ => false,
    }
}

/// What a control statement emits: `return`, or a branch out of or back to
/// the start of the loop around it.
pub open spec fn wat_control(a: Atom) -> Wat {
    match a {
        Atom::Special { head, loopdepth, .. } => {
            if head == "return"@ {
                Ok("return\n"@)
            } else if head == "break"@ {
                Ok(branch_text(block_label(loopdepth - 1)))
            } else if head == "continue"@ {
                Ok(branch_text(loop_label(loopdepth - 1)))
            } else {
                Err(GenerateError::Deverror)
            }
        },
        _ => Err(GenerateError::Deverror),
    }
}

/// The number of `if` and `elif` clauses in a chain: each of them opens an
/// `if` that the chain has to close.
pub open spec fn count_if(s: Seq<Atom>) -> nat
    decreases s.len(),
{
    if s.len() == 0 {
        0
    } else {
        count_if(s.drop_last()) + (match s.last() {
            Atom::Syntax { name, .. } => if name == "if"@ || name == "elif"@ {
                1nat
            } else {
                0nat
            },
            _ => 0nat,
        })
    }
}

/// `n` times `end`.
pub open spec fn ends(n: nat) -> Seq<char>
    decreases n,
{
    if n == 0 {
        Seq::empty()
    } else {
        ends((n - 1) as nat) + "end\n"@
    }
}

/// What a call emits: for an operator the instructions of the operator on
/// its two operands, for a name the arguments in order and a `call`.
pub open spec fn wat_func(a: Atom) -> Wat
    decreases a, 0nat,
{
    match a {
        Atom::Func { callee, contents, .. } => match *callee {
            Atom::Ope { ope, .. } => {
                if contents.len() < 2 {
                    Err(GenerateError::Deverror)
                } else {
                    operator_text(
                        ope,
                        contents[0],
                        wat_item(contents[0]),
                        wat_item(contents[1]),
                        wat_target(contents[0]),
                    )
                }
            },
            Atom::Word { text, .. } => join(wat_seq(contents, 0, Role::Argument), Ok("call $"@ + text + "\n"@)),
            _ => Err(GenerateError::Deverror),
        },
        _ => Err(GenerateError::Deverror),
    }
}

/// What an operand emits: nothing where it is empty, and the value of its
/// one node otherwise. Comments in it do not count.
pub open spec fn wat_item(a: Atom) -> Wat
    decreases a, 0nat,
{
    match a {
        Atom::Item { contents, .. } => {
            let k = next_code(contents, 0);
            if !(0 <= k < contents.len()) {
                Ok(Seq::empty())
            } else if has_one_code(contents) {
                match contents[k] {
                    Atom::Word { text, .. } => wat_word(text),
                    Atom::Func { .. } => wat_func(contents[k]),
                    Atom::ParenBlock { .. } => wat_paren(contents[k]),
                    Atom::List { .. } => join(wat_list_name(contents[k]), Ok("i32.load\n"@)),
                    _ => Err(GenerateError::Deverror),
                }
            } else {
                Err(GenerateError::Deverror)
            }
        },
        _ => Err(GenerateError::Deverror),
    }
}

/// What a parenthesis emits: nothing where it is empty, and the value of
/// its one node otherwise. Comments in it do not count.
pub open spec fn wat_paren(a: Atom) -> Wat
    decreases a, 0nat,
{
    match a {
        Atom::ParenBlock { contents, .. } => {
            let k = next_code(contents, 0);
            if !(0 <= k < contents.len()) {
                Ok(Seq::empty())
            } else if has_one_code(contents) {
                match contents[k] {
                    Atom::Func { .. } => wat_func(contents[k]),
                    Atom::Word { text, .. } => wat_word(text),
                    Atom::ParenBlock { .. } => wat_paren(contents[k]),
                    _ => Err(GenerateError::Deverror),
                }
            } else {
                Err(GenerateError::Deverror)
            }
        },
        _ => Err(GenerateError::Deverror),
    }
}

/// The index of a subscript: the value of its first operand.
pub open spec fn wat_list_contents(a: Atom) -> Wat
    decreases a, 0nat,
{
    match a {
        Atom::List { contents, .. } => {
            if contents.len() == 0 {
                Err(GenerateError::Deverror)
            } else {
                wat_item(contents[0])
            }
        },
        _ => Err(GenerateError::Deverror),
    }
}

/// The address that a subscript names: its index, where it is a subscript of
/// the linear memory. Subscripts of anything else are not emitted.
pub open spec fn wat_list_name(a: Atom) -> Wat
    decreases a, 1nat,
{
    match a {
        Atom::List { callee, .. } => match *callee {
            Atom::Word { text, .. } => {
                if text == "__mem"@ {
                    wat_list_contents(a)
                } else {
                    Err(GenerateError::Deverror)
                }
            },
            _ => Err(GenerateError::Deverror),
        },
        _ => Err(GenerateError::Deverror),
    }
}

/// The address that the left side of an assignment names, where its first
/// node that is no comment is a subscript; nothing otherwise.
///
/// Only an element of the linear memory can be assigned to; a subscript of
/// anything else is no pattern that can stand on the left.
pub open spec fn wat_target(l: Atom) -> Wat
    decreases l, 0nat,
{
    match l {
        Atom::Item { contents, .. } => {
            let k = next_code(contents, 0);
            if !(0 <= k < contents.len()) {
                Ok(Seq::empty())
            } else {
                match contents[k] {
                    Atom::List { callee, .. } => match *callee {
                        Atom::Word { text, .. } => {
                            if text == "__mem"@ {
                                wat_list_contents(contents[k])
                            } else {
                                Err(GenerateError::InvalidleftPattern)
                            }
                        },
                        _ => Err(GenerateError::InvalidleftPattern),
                    },
                    _ => Ok(Seq::empty()),
                }
            }
        },
        _ => Ok(Seq::empty()),
    }
}

/// What the condition of a clause emits; it has to be one call or one parenthesis.
pub open spec fn wat_condition(expr: Seq<Atom>) -> Wat
    decreases expr, 0nat,
{
    if expr.len() == 1 {
        match expr[0] {
            Atom::Func { .. } => wat_func(expr[0]),
            Atom::ParenBlock { .. } => wat_paren(expr[0]),
            _ => Err(GenerateError::Deverror),
        }
    } else {
        Err(GenerateError::Deverror)
    }
}

/// What a clause of an `if` chain emits: the condition, `if` and the body
/// for `if`; `else` before the same for `elif`; `else` and the body for `else`.
pub open spec fn wat_if(a: Atom) -> Wat
    decreases a, 0nat,
{
    match a {
        Atom::Syntax { name, expr, contents, .. } => {
            if name == "if"@ {
                join(join(wat_condition(expr), Ok("if\n"@)), wat_seq(contents, 0, Role::Statement))
            } else if name == "elif"@ {
                join(
                    join(join(Ok("else\n"@), wat_condition(expr)), Ok("if\n"@)),
                    wat_seq(contents, 0, Role::Statement),
                )
            } else if name == "else"@ {
                if expr.len() == 0 {
                    join(Ok("else\n"@), wat_seq(contents, 0, Role::Statement))
                } else {
                    Err(GenerateError::Deverror)
                }
            } else {
                Err(GenerateError::Deverror)
            }
        },
        _ => Err(GenerateError::Deverror),
    }
}

/// What the opening of a `while` loop of loop depth `n` emits.
pub open spec fn while_open(n: int) -> Seq<char> {
    "loop $"@ + loop_label(n) + "\n"@ + "block $"@ + block_label(n) + "\n"@
}

/// What the exit test of a `while` loop of loop depth `n` emits after the
/// condition: the condition is negated, and the block is left where it held not.
pub open spec fn while_test(n: int) -> Seq<char> {
    "i32.const 1\n"@ + "i32.xor\n"@ + "br_if $"@ + block_label(n) + "\n"@
}

/// What the closing of a `while` loop of loop depth `n` emits.
pub open spec fn while_close(n: int) -> Seq<char> {
    "br $"@ + loop_label(n) + "\n"@ + "end\n"@ + "end\n"@
}

/// What a `while` clause emits: the opening, the condition, the exit test,
/// the body and the closing.
pub open spec fn wat_while(a: Atom) -> Wat
    decreases a, 0nat,
{
    match a {
        Atom::Syntax { name, expr, contents, loopdepth, .. } => {
            if name == "while"@ {
                join(
                    join(
                        join(join(Ok(while_open(loopdepth as int)), wat_condition(expr)), Ok(while_test(loopdepth as int))),
                        wat_seq(contents, 0, Role::Statement),
                    ),
                    Ok(while_close(loopdepth as int)),
                )
            } else {
                Err(GenerateError::Deverror)
            }
        },
        _ => Err(GenerateError::Deverror),
    }
}

/// What a chain emits: its clauses in order, and for an `if` chain one `end`
/// for each `if` and `elif` among them. Only `if` and `while` chains are emitted.
pub open spec fn wat_chain(a: Atom) -> Wat
    decreases a, 0nat,
{
    match a {
        Atom::SyntaxBox { name, contents, .. } => {
            if name == "if"@ {
                join(wat_seq(contents, 0, Role::IfClause), Ok(ends(count_if(contents))))
            } else if name == "while"@ {
                wat_seq(contents, 0, Role::WhileClause)
            } else {
                Err(GenerateError::Deverror)
            }
        },
        _ => Err(GenerateError::Deverror),
    }
}

/// What an expression statement emits: its calls and chains in order; its other nodes emit nothing.
pub open spec fn wat_expr_stmt(a: Atom) -> Wat
    decreases a, 0nat,
{
    match a {
        Atom::Expr { code_list, .. } => wat_seq(code_list, 0, Role::Expression),
        _ => Err(GenerateError::Deverror),
    }
}

/// What one node of a run emits, by the role of the run.
pub open spec fn wat_as(a: Atom, role: Role) -> Wat
    decreases a, 2nat,
{
    match role {
        Role::Argument => wat_item(a),
        Role::IfClause => wat_if(a),
        Role::WhileClause => wat_while(a),
        Role::Statement => match a {
            Atom::Expr { .. } => wat_expr_stmt(a),
            Atom::Special { .. } => wat_control(a),
            Atom::Comment { .. } => Ok(Seq::empty()),
            _ => Err(GenerateError::Deverror),
        },
        Role::Expression => match a {
            Atom::Func { .. } => wat_func(a),
            Atom::SyntaxBox { .. } => wat_chain(a),
            _ => Ok(Seq::empty()),
        },
    }
}

/// What the nodes of a run at and after position `i` emit, in order.
pub open spec fn wat_seq(s: Seq<Atom>, i: int, role: Role) -> Wat
    decreases s, s.len() - i,
{
    if i < 0 || i >= s.len() {
        Ok(Seq::empty())
    } else {
        join(wat_as(s[i], role), wat_seq(s, i + 1, role))
    }
}

/// What a clause emits as a member of a chain named `head`; only `if` and
/// `while` chains are emitted.
pub open spec fn wat_clause(a: Atom, head: Seq<char>) -> Wat {
    if head == "if"@ {
        wat_if(a)
    } else if head == "while"@ {
        wat_while(a)
    } else {
        Err(GenerateError::Deverror)
    }
}

/// What a run of statements emits.
pub open spec fn wat_stmts(s: Seq<Atom>) -> Wat {
    wat_seq(s, 0, Role::Statement)
}

/// Text is joined from left to right or from right to left with the same outcome.
pub proof fn lemma_join_assoc(a: Seq<char>, b: Wat, c: Wat)
    ensures
        join(join(Ok(a), b), c) == join(Ok(a), join(b, c)),
{
    match (b, c) {
        (Ok(x), Ok(y)) => {
            assert((a + x) + y =~= a + (x + y));
        },
        _ => {},
    }
}

/// A `break` leaves the loop around it, and a `continue` goes back to its start.
///
/// A statement of loop depth `n + 1` stands in the body of a loop of loop
/// depth `n`. Its `break` branches to the block label and its `continue` to
/// the loop label that the `while` clause of loop depth `n` opens, and to no
/// label of a loop further out.
pub proof fn lemma_branch_targets(stmt: Atom, n: isize)
    requires
        stmt is Special,
        stmt->Special_loopdepth == n + 1,
    ensures
        is_control(stmt, "break"@) ==> wat_control(stmt) == Ok::<Seq<char>, GenerateError>(
            branch_text(block_label(n as int)),
        ),
        is_control(stmt, "continue"@) ==> wat_control(stmt) == Ok::<Seq<char>, GenerateError>(
            branch_text(loop_label(n as int)),
        ),
        while_open(n as int) == "loop $"@ + loop_label(n as int) + "\n"@ + "block $"@ + block_label(n as int)
            + "\n"@,
{
    reveal_strlit("return");
    reveal_strlit("break");
    reveal_strlit("continue");
    assert("return"@.len() == 6);
    assert("break"@.len() == 5);
    assert("continue"@.len() == 8);
}

/// The text of a `while` clause starts with the opening of its loop, which
/// names the two labels of its loop depth.
pub proof fn lemma_while_opens_its_labels(a: Atom)
    requires
        wat_while(a) is Ok,
    ensures
        a matches Atom::Syntax { loopdepth, .. } && ({
            let text = wat_while(a)->Ok_0;
            let open = while_open(loopdepth as int);
            open.len() <= text.len() && text.subrange(0, open.len() as int) == open
        }),
{
    match a {
        Atom::Syntax { name, expr, contents, loopdepth, .. } => {
            let open = while_open(loopdepth as int);
            let text = wat_while(a)->Ok_0;
            let condition = wat_condition(expr)->Ok_0;
            let body = wat_seq(contents, 0, Role::Statement)->Ok_0;
            assert(text == open + condition + while_test(loopdepth as int) + body + while_close(loopdepth as int));
            assert(text.subrange(0, open.len() as int) =~= open);
        },
        _ => {},
    }
}

} // verus!

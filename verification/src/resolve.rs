//! Resolution: the deferred content of every composite node is parsed, depth by depth.
//!
//! The parsers only match brackets and group atoms; what stands inside a
//! bracket, an operand or a clause stays a flat run until the node is
//! resolved. Resolving a node runs the parser that fits its kind over that
//! run, resolves every node of the outcome, and marks the node as resolved.
//! A node that is marked is left as it is, so resolving twice changes nothing.
//!
//! Every level of nesting takes one unit of `fuel`; a tree that is nested
//! deeper than the fuel allows is refused with `NestingTooDeep`.
use crate::abs::ast::{
    clone_block, clone_expr, clone_exprs, clone_list_block, clone_paren_block, clone_stmt, clone_syntax,
    exprs_view, group_view_lemmas, stmts_view, syntaxes_view, ExprElem, StmtElem,
};
use crate::abs::atom::Atom;
use crate::errors::generate_errors::GenerateError;
use crate::errors::parser_errors::ParserError;
use crate::gen::wat::{block_label, branch_text, is_control, lemma_branch_targets, loop_label, wat_control};
use crate::parser::comma_parser::CommaParser;
use crate::parser::core_parser::ParserKind;
use crate::parser::expr_parser::{exprs_outcome, ExprParser};
use crate::parser::grammar::expr_passes;
use crate::parser::statement::{comma_passes, lemma_statements_stand_at, stands_at, stmt_passes};
use crate::parser::stmt_parser::{stmts_outcome, StmtParser};
use crate::text::same_text;
use crate::token::block::BlockBranch;
use crate::token::func::FuncBranch;
use crate::token::item::ItemBranch;
use crate::token::list::ListBranch;
use crate::token::list_block::ListBlockBranch;
use crate::token::paren_block::ParenBlockBranch;
use crate::token::stmt::expr::ExprBranch;
use crate::token::stmt::stmt::StmtBranch;
use crate::token::syntax::SyntaxBranch;
use crate::token::syntax_box::SyntaxBoxBranch;
use vstd::prelude::*;

verus! {

/// The passes of the expression parser or of the statement parser over one run.
pub open spec fn run_passes(kind: ParserKind, s: Seq<Atom>, depth: isize, loopdepth: isize) -> Result<
    Seq<Atom>,
    ParserError,
> {
    match kind {
        ParserKind::Stmt => stmt_passes(s, depth, loopdepth),
        _ => expr_passes(s, depth, loopdepth),
    }
}

/// Whether the body of a clause of this name is a loop body.
pub open spec fn is_loop_name(name: Seq<char>) -> bool {
    name == "while"@ || name == "for"@
}

/// The arguments of a call as the call holds them before it is resolved:
/// the operands of an operator as they are, and otherwise what the one
/// `( ... )` after the callee holds, cut at its commas.
pub open spec fn call_args(callee: Atom, contents: Seq<Atom>) -> Result<Seq<Atom>, ParserError> {
    if contents.len() == 0 {
        Err(ParserError::DevError)
    } else if callee is Ope {
        Ok(contents)
    } else {
        match contents[0] {
            Atom::ParenBlock { contents: inner, depth, loopdepth, .. } => {
                if contents.len() > 1 {
                    Err(ParserError::DevError)
                } else {
                    comma_passes(inner, depth, loopdepth)
                }
            },
            _ => Err(ParserError::DevError),
        }
    }
}

/// The indices of a subscript as the subscript holds them before it is
/// resolved: what the one `[ ... ]` after the callee holds, cut at its commas.
pub open spec fn index_args(contents: Seq<Atom>) -> Result<Seq<Atom>, ParserError> {
    if contents.len() != 1 {
        Err(ParserError::DevError)
    } else {
        match contents[0] {
            Atom::ListBlock { contents: inner, depth, loopdepth, .. } => comma_passes(inner, depth, loopdepth),
            _ => Err(ParserError::DevError),
        }
    }
}

/// What stands between `[` and `]`, parsed: the argument splitter must accept
/// it, and the expression parser reads it.
pub open spec fn list_passes(contents: Seq<Atom>, depth: isize, loopdepth: isize) -> Result<Seq<Atom>, ParserError> {
    match comma_passes(contents, depth, loopdepth) {
        Err(e) => Err(e),
        Ok(c1) => match comma_passes(c1, depth, loopdepth) {
            Err(e) => Err(e),
            Ok(_) => expr_passes(contents, depth, loopdepth),
        },
    }
}

/// A node resolved within `fuel` levels of nesting.
///
/// Characters, strings, comments, words and operators are resolved as they
/// are, and so is every node that is marked as resolved. Of any other node
/// the content is parsed and resolved one level further in: a `{ ... }` by the
/// statement parser and a `( ... )` by the expression parser, both one depth
/// deeper; a `[ ... ]`, an operand and a statement by the expression parser at
/// their own depth; a clause by the expression parser for its condition and
/// the statement parser for its body, the body of `while` and `for` one loop
/// depth deeper; a call or a subscript by the argument splitter, after its
/// callee. The first error ends the resolution.
///
/// Depth is the count of the braces and parentheses around a node, and of
/// nothing else. So the parser for what a `{ ... }` or a `( ... )` holds is
/// seeded with the depth of the node plus one, and every other parser, for
/// what a `[ ... ]`, an operand, a statement, a clause, a call or a subscript
/// holds, with the depth of the node itself: these nodes open no brace and no
/// parenthesis of their own.
pub open spec fn resolve_atom(a: Atom, fuel: nat) -> Result<Atom, ParserError>
    decreases fuel, 0nat, 0nat,
{
    match a {
        Atom::Block { contents, depth, loopdepth, resolved } => {
            if resolved {
                Ok(a)
            } else if fuel == 0 || depth == isize::MAX {
                Err(ParserError::NestingTooDeep)
            } else {
                match resolve_run(ParserKind::Stmt, contents, (depth + 1) as isize, loopdepth, (fuel - 1) as nat) {
                    Err(e) => Err(e),
                    Ok(kids) => Ok(Atom::Block { contents: kids, depth, loopdepth, resolved: true }),
                }
            }
        },
        Atom::ParenBlock { contents, depth, loopdepth, resolved } => {
            if resolved {
                Ok(a)
            } else if fuel == 0 || depth == isize::MAX {
                Err(ParserError::NestingTooDeep)
            } else {
                match resolve_run(ParserKind::Expr, contents, (depth + 1) as isize, loopdepth, (fuel - 1) as nat) {
                    Err(e) => Err(e),
                    Ok(kids) => Ok(Atom::ParenBlock { contents: kids, depth, loopdepth, resolved: true }),
                }
            }
        },
        Atom::ListBlock { contents, depth, loopdepth, resolved } => {
            if resolved {
                Ok(a)
            } else if fuel == 0 {
                Err(ParserError::NestingTooDeep)
            } else {
                match list_passes(contents, depth, loopdepth) {
                    Err(e) => Err(e),
                    Ok(parsed) => match resolve_run(ParserKind::Expr, parsed, depth, loopdepth, (fuel - 1) as nat) {
                        Err(e) => Err(e),
                        Ok(kids) => Ok(Atom::ListBlock { contents: kids, depth, loopdepth, resolved: true }),
                    },
                }
            }
        },
        Atom::Item { contents, depth, loopdepth, resolved } => {
            if resolved {
                Ok(a)
            } else if fuel == 0 {
                Err(ParserError::NestingTooDeep)
            } else {
                match resolve_run(ParserKind::Expr, contents, depth, loopdepth, (fuel - 1) as nat) {
                    Err(e) => Err(e),
                    Ok(kids) => Ok(Atom::Item { contents: kids, depth, loopdepth, resolved: true }),
                }
            }
        },
        Atom::Expr { code_list, depth, loopdepth, resolved } => {
            if resolved {
                Ok(a)
            } else if fuel == 0 {
                Err(ParserError::NestingTooDeep)
            } else {
                match resolve_run(ParserKind::Expr, code_list, depth, loopdepth, (fuel - 1) as nat) {
                    Err(e) => Err(e),
                    Ok(kids) => Ok(Atom::Expr { code_list: kids, depth, loopdepth, resolved: true }),
                }
            }
        },
        Atom::Special { head, code_list, depth, loopdepth, resolved } => {
            if resolved {
                Ok(a)
            } else if fuel == 0 {
                Err(ParserError::NestingTooDeep)
            } else {
                match resolve_run(ParserKind::Expr, code_list, depth, loopdepth, (fuel - 1) as nat) {
                    Err(e) => Err(e),
                    Ok(kids) => Ok(Atom::Special { head, code_list: kids, depth, loopdepth, resolved: true }),
                }
            }
        },
        Atom::Syntax { name, expr, contents, depth, loopdepth, resolved } => {
            if resolved {
                Ok(a)
            } else if fuel == 0 || (is_loop_name(name) && loopdepth == isize::MAX) {
                Err(ParserError::NestingTooDeep)
            } else {
                match resolve_run(ParserKind::Expr, expr, depth, loopdepth, (fuel - 1) as nat) {
                    Err(e) => Err(e),
                    Ok(condition) => match resolve_run(
                        ParserKind::Stmt,
                        contents,
                        depth,
                        if is_loop_name(name) {
                            (loopdepth + 1) as isize
                        } else {
                            loopdepth
                        },
                        (fuel - 1) as nat,
                    ) {
                        Err(e) => Err(e),
                        Ok(body) => Ok(
                            Atom::Syntax { name, expr: condition, contents: body, depth, loopdepth, resolved: true },
                        ),
                    },
                }
            }
        },
        Atom::SyntaxBox { name, contents, depth, loopdepth } => {
            if fuel == 0 {
                Err(ParserError::NestingTooDeep)
            } else {
                match resolve_all(contents, (fuel - 1) as nat) {
                    Err(e) => Err(e),
                    Ok(clauses) => Ok(Atom::SyntaxBox { name, contents: clauses, depth, loopdepth }),
                }
            }
        },
        Atom::Func { callee, contents, depth, loopdepth, resolved } => {
            if resolved {
                Ok(a)
            } else if fuel == 0 {
                Err(ParserError::NestingTooDeep)
            } else {
                match resolve_atom(*callee, (fuel - 1) as nat) {
                    Err(e) => Err(e),
                    Ok(head) => match call_args(*callee, contents) {
                        Err(e) => Err(e),
                        Ok(args) => match resolve_all(args, (fuel - 1) as nat) {
                            Err(e) => Err(e),
                            Ok(kids) => Ok(
                                Atom::Func { callee: Box::new(head), contents: kids, depth, loopdepth, resolved: true },
                            ),
                        },
                    },
                }
            }
        },
        Atom::List { callee, contents, depth, loopdepth, resolved } => {
            if resolved {
                Ok(a)
            } else if fuel == 0 {
                Err(ParserError::NestingTooDeep)
            } else {
                match resolve_atom(*callee, (fuel - 1) as nat) {
                    Err(e) => Err(e),
                    Ok(head) => match index_args(contents) {
                        Err(e) => Err(e),
                        Ok(args) => match resolve_all(args, (fuel - 1) as nat) {
                            Err(e) => Err(e),
                            Ok(kids) => Ok(
                                Atom::List { callee: Box::new(head), contents: kids, depth, loopdepth, resolved: true },
                            ),
                        },
                    },
                }
            }
        },
        _ => Ok(a),
    }
}

/// The nodes of a run at and after position `i` resolved in order and
/// appended to `acc`; the first error ends the resolution.
pub open spec fn resolve_all_from(s: Seq<Atom>, i: int, acc: Seq<Atom>, fuel: nat) -> Result<Seq<Atom>, ParserError>
    decreases fuel, 1nat, s.len() - i,
{
    if i < 0 || i >= s.len() {
        Ok(acc)
    } else {
        match resolve_atom(s[i], fuel) {
            Err(e) => Err(e),
            Ok(t) => resolve_all_from(s, i + 1, acc.push(t), fuel),
        }
    }
}

/// Every node of a run resolved, in order; the first error ends the resolution.
pub open spec fn resolve_all(s: Seq<Atom>, fuel: nat) -> Result<Seq<Atom>, ParserError>
    decreases fuel, 2nat, 0nat,
{
    resolve_all_from(s, 0, Seq::empty(), fuel)
}

/// A flat run parsed by the parser `kind`, and every node of the outcome resolved.
pub open spec fn resolve_run(kind: ParserKind, s: Seq<Atom>, depth: isize, loopdepth: isize, fuel: nat) -> Result<
    Seq<Atom>,
    ParserError,
>
    decreases fuel, 3nat, 0nat,
{
    match run_passes(kind, s, depth, loopdepth) {
        Err(e) => Err(e),
        Ok(parsed) => resolve_all(parsed, fuel),
    }
}

/// Where a run is resolved from position `i` on, the outcome starts with
/// `acc`, and every node after it is the resolved node at its position.
pub proof fn lemma_resolve_all_elements(s: Seq<Atom>, i: int, acc: Seq<Atom>, fuel: nat)
    requires
        0 <= i <= s.len(),
        resolve_all_from(s, i, acc, fuel) is Ok,
    ensures
        ({
            let t = resolve_all_from(s, i, acc, fuel)->Ok_0;
            &&& t.len() == acc.len() + s.len() - i
            &&& forall|j: int| 0 <= j < acc.len() ==> t[j] == acc[j]
            &&& forall|j: int| i <= j < s.len() ==> resolve_atom(s[j], fuel) == Ok::<Atom, ParserError>(
                #[trigger] t[acc.len() + j - i],
            )
        }),
    decreases s.len() - i,
{
    if i < s.len() {
        let first = resolve_atom(s[i], fuel)->Ok_0;
        lemma_resolve_all_elements(s, i + 1, acc.push(first), fuel);
        let t = resolve_all_from(s, i, acc, fuel)->Ok_0;
        assert forall|j: int| 0 <= j < acc.len() implies t[j] == acc[j] by {
            assert(acc.push(first)[j] == acc[j]);
        }
        assert forall|j: int| i <= j < s.len() implies resolve_atom(s[j], fuel) == Ok::<Atom, ParserError>(
            #[trigger] t[acc.len() + j - i],
        ) by {
            if j == i {
                assert(acc.push(first)[acc.len() as int] == first);
            } else {
                assert(t[acc.len() + j - i] == t[acc.push(first).len() + j - (i + 1)]);
            }
        }
    }
}

/// A run of nodes that resolution leaves as they are is left as it is.
pub proof fn lemma_resolve_all_fixed(u: Seq<Atom>, i: int, fuel: nat)
    requires
        0 <= i <= u.len(),
        forall|j: int| 0 <= j < u.len() ==> resolve_atom(#[trigger] u[j], fuel) == Ok::<Atom, ParserError>(u[j]),
    ensures
        resolve_all_from(u, i, u.take(i), fuel) == Ok::<Seq<Atom>, ParserError>(u),
    decreases u.len() - i,
{
    if i < u.len() {
        assert(u.take(i).push(u[i]) =~= u.take(i + 1));
        lemma_resolve_all_fixed(u, i + 1, fuel);
    } else {
        assert(u.take(i) =~= u);
    }
}

/// Resolving is idempotent: a node that has been resolved is resolved to itself.
///
/// A composite node comes out of its resolution marked as resolved, and a
/// node that is marked is not parsed again; so nothing is expanded twice and
/// nothing is duplicated.
pub proof fn lemma_resolve_twice(a: Atom, fuel: nat)
    requires
        resolve_atom(a, fuel) is Ok,
    ensures
        resolve_atom(resolve_atom(a, fuel)->Ok_0, fuel) == resolve_atom(a, fuel),
    decreases fuel, 0nat,
{
    match a {
        Atom::SyntaxBox { name, contents, depth, loopdepth } => {
            lemma_resolve_all_twice(contents, (fuel - 1) as nat);
        },
        _ => {},
    }
}

/// Resolving is idempotent on runs: the nodes of a resolved run are resolved to themselves.
pub proof fn lemma_resolve_all_twice(s: Seq<Atom>, fuel: nat)
    requires
        resolve_all(s, fuel) is Ok,
    ensures
        resolve_all(resolve_all(s, fuel)->Ok_0, fuel) == resolve_all(s, fuel),
    decreases fuel, 1nat,
{
    let t = resolve_all(s, fuel)->Ok_0;
    lemma_resolve_all_elements(s, 0, Seq::empty(), fuel);
    assert forall|j: int| 0 <= j < t.len() implies resolve_atom(#[trigger] t[j], fuel) == Ok::<Atom, ParserError>(
        t[j],
    ) by {
        assert(resolve_atom(s[j], fuel) == Ok::<Atom, ParserError>(t[0 + j - 0]));
        lemma_resolve_twice(s[j], fuel);
    }
    lemma_resolve_all_fixed(t, 0, fuel);
    assert(t.take(0) =~= Seq::<Atom>::empty());
}

/// Resolving is idempotent for a parser: the outcome of resolving a flat run
/// is a run of nodes that are resolved to themselves.
pub proof fn lemma_resolved_run_is_settled(kind: ParserKind, s: Seq<Atom>, depth: isize, loopdepth: isize, fuel: nat)
    requires
        resolve_run(kind, s, depth, loopdepth, fuel) is Ok,
    ensures
        resolve_all(resolve_run(kind, s, depth, loopdepth, fuel)->Ok_0, fuel) == resolve_run(
            kind,
            s,
            depth,
            loopdepth,
            fuel,
        ),
{
    lemma_resolve_all_twice(run_passes(kind, s, depth, loopdepth)->Ok_0, fuel);
}

/// Loop depth and branch labels agree: in the resolved body of a `while`
/// clause of loop depth `n`, every `break` branches to the block of that
/// loop, and every `continue` to its start.
///
/// The body of the loop is parsed one loop depth deeper than the clause, so
/// that the statements of the body, which branch to the labels of their own
/// loop depth less one, meet the labels that the clause opens.
pub proof fn lemma_loop_body_branches(clause: Atom, fuel: nat)
    requires
        clause is Syntax,
        clause->Syntax_name == "while"@,
        !clause->Syntax_resolved,
        resolve_atom(clause, fuel) is Ok,
    ensures
        resolve_atom(clause, fuel)->Ok_0 is Syntax,
        resolve_atom(clause, fuel)->Ok_0->Syntax_name == "while"@,
        resolve_atom(clause, fuel)->Ok_0->Syntax_loopdepth == clause->Syntax_loopdepth,
        forall|k: int|
            0 <= k < resolve_atom(clause, fuel)->Ok_0->Syntax_contents.len() ==> branches_to(
                #[trigger] resolve_atom(clause, fuel)->Ok_0->Syntax_contents[k],
                clause->Syntax_loopdepth as int,
            ),
{
    match clause {
        Atom::Syntax { name, expr, contents, depth, loopdepth, resolved } => {
            let inner = (loopdepth + 1) as isize;
            let f = (fuel - 1) as nat;
            let parsed = stmt_passes(contents, depth, inner)->Ok_0;
            let body = resolve_all(parsed, f)->Ok_0;
            assert(resolve_run(ParserKind::Stmt, contents, depth, inner, f) == Ok::<Seq<Atom>, ParserError>(body));
            lemma_statements_stand_at(contents, depth, inner);
            lemma_resolve_all_elements(parsed, 0, Seq::empty(), f);
            assert forall|k: int| 0 <= k < body.len() implies branches_to(#[trigger] body[k], loopdepth as int) by {
                assert(resolve_atom(parsed[k], f) == Ok::<Atom, ParserError>(body[0 + k - 0]));
                assert(stands_at(parsed[k], depth, inner));
                if body[k] is Special {
                    assert(parsed[k] is Special);
                    lemma_branch_targets(body[k], loopdepth);
                }
            }
        },
        _ => {},
    }
}

/// The statements of a resolved clause stand where the clause puts them:
/// where a clause of loop depth `n` is resolved, whatever its condition and
/// its body hold, the outcome is the clause of the same name, depth and loop
/// depth, marked as resolved, and every statement of its body carries the depth
/// of the clause and the loop depth `n + 1` where the clause is a `while` or a
/// `for`, and `n` otherwise.
pub proof fn lemma_clause_body_stands(clause: Atom, fuel: nat)
    requires
        clause is Syntax,
        !clause->Syntax_resolved,
        resolve_atom(clause, fuel) is Ok,
    ensures
        ({
            let done = resolve_atom(clause, fuel)->Ok_0;
            let inner = if is_loop_name(clause->Syntax_name) {
                (clause->Syntax_loopdepth + 1) as isize
            } else {
                clause->Syntax_loopdepth
            };
            &&& done is Syntax
            &&& done->Syntax_resolved
            &&& done->Syntax_name == clause->Syntax_name
            &&& done->Syntax_depth == clause->Syntax_depth
            &&& done->Syntax_loopdepth == clause->Syntax_loopdepth
            &&& forall|k: int|
                0 <= k < done->Syntax_contents.len() ==> stands_at(
                    #[trigger] done->Syntax_contents[k],
                    clause->Syntax_depth,
                    inner,
                )
        }),
{
    match clause {
        Atom::Syntax { name, expr, contents, depth, loopdepth, resolved } => {
            let inner = if is_loop_name(name) {
                (loopdepth + 1) as isize
            } else {
                loopdepth
            };
            let f = (fuel - 1) as nat;
            let parsed = stmt_passes(contents, depth, inner)->Ok_0;
            let body = resolve_all(parsed, f)->Ok_0;
            assert(resolve_run(ParserKind::Stmt, contents, depth, inner, f) == Ok::<Seq<Atom>, ParserError>(body));
            lemma_statements_stand_at(contents, depth, inner);
            lemma_resolve_all_elements(parsed, 0, Seq::empty(), f);
            assert forall|k: int| 0 <= k < body.len() implies stands_at(#[trigger] body[k], depth, inner) by {
                assert(resolve_atom(parsed[k], f) == Ok::<Atom, ParserError>(body[0 + k - 0]));
                assert(stands_at(parsed[k], depth, inner));
                if body[k] is Special {
                    assert(parsed[k] is Special);
                }
                if body[k] is Expr {
                    assert(parsed[k] is Expr);
                }
            }
        },
        _ => {},
    }
}

/// Whether a statement, where it is a `break` or a `continue`, branches to
/// the block or to the start of the loop of loop depth `n`.
pub open spec fn branches_to(stmt: Atom, n: int) -> bool {
    &&& is_control(stmt, "break"@) ==> wat_control(stmt) == Ok::<Seq<char>, GenerateError>(
        branch_text(block_label(n)),
    )
    &&& is_control(stmt, "continue"@) ==> wat_control(stmt) == Ok::<Seq<char>, GenerateError>(
        branch_text(loop_label(n)),
    )
}

/// The tree of the outcome of resolving one node.
pub open spec fn outcome<T: View<V = Atom>>(r: Result<T, ParserError>) -> Result<Atom, ParserError> {
    match r {
        Ok(t) => Ok(t@),
        Err(e) => Err(e),
    }
}

/// The trees of the outcome of resolving a run of clauses.
pub open spec fn syntaxes_outcome(r: Result<Vec<SyntaxBranch>, ParserError>) -> Result<Seq<Atom>, ParserError> {
    match r {
        Ok(v) => Ok(syntaxes_view(v@)),
        Err(e) => Err(e),
    }
}

/// Whether the body of a clause of this name is a loop body.
pub fn loop_name(name: &str) -> (r: bool)
    ensures
        r == is_loop_name(name@),
{
    same_text(name, "while") || same_text(name, "for")
}

/// An expression node resolved within `fuel` levels of nesting.
pub fn resolve_expr(e: &ExprElem, fuel: usize) -> (r: Result<ExprElem, ParserError>)
    ensures
        outcome(r) == resolve_atom(e@, fuel as nat),
    decreases fuel, 0nat, 1nat,
{
    match e {
        ExprElem::BlockElem(b) => Ok(ExprElem::BlockElem(resolve_block(b, fuel)?)),
        ExprElem::ListBlockElem(b) => Ok(ExprElem::ListBlockElem(resolve_list_block(b, fuel)?)),
        ExprElem::ParenBlockElem(b) => Ok(ExprElem::ParenBlockElem(resolve_paren_block(b, fuel)?)),
        ExprElem::SyntaxElem(b) => Ok(ExprElem::SyntaxElem(resolve_syntax(b, fuel)?)),
        ExprElem::SyntaxBoxElem(b) => Ok(ExprElem::SyntaxBoxElem(resolve_syntax_box(b, fuel)?)),
        ExprElem::FuncElem(b) => Ok(ExprElem::FuncElem(resolve_func(b, fuel)?)),
        ExprElem::ListElem(b) => Ok(ExprElem::ListElem(resolve_list(b, fuel)?)),
        ExprElem::ItemElem(b) => Ok(ExprElem::ItemElem(resolve_item(b, fuel)?)),
        _ => Ok(clone_expr(e)),
    }
}

/// A statement node resolved within `fuel` levels of nesting.
pub fn resolve_stmt(e: &StmtElem, fuel: usize) -> (r: Result<StmtElem, ParserError>)
    ensures
        outcome(r) == resolve_atom(e@, fuel as nat),
    decreases fuel, 0nat, 1nat,
{
    match e {
        StmtElem::BlockElem(b) => Ok(StmtElem::BlockElem(resolve_block(b, fuel)?)),
        StmtElem::ListBlockElem(b) => Ok(StmtElem::ListBlockElem(resolve_list_block(b, fuel)?)),
        StmtElem::ParenBlockElem(b) => Ok(StmtElem::ParenBlockElem(resolve_paren_block(b, fuel)?)),
        StmtElem::ExprElem(b) => Ok(StmtElem::ExprElem(resolve_expr_stmt(b, fuel)?)),
        StmtElem::Special(b) => Ok(StmtElem::Special(resolve_control_stmt(b, fuel)?)),
        _ => Ok(clone_stmt(e)),
    }
}

/// Every node of a run of expression nodes resolved, in order.
pub fn resolve_exprs(list: &Vec<ExprElem>, fuel: usize) -> (r: Result<Vec<ExprElem>, ParserError>)
    ensures
        exprs_outcome(r) == resolve_all(exprs_view(list@), fuel as nat),
    decreases fuel, 2nat, 0nat,
{
    broadcast use group_view_lemmas;

    let ghost input = exprs_view(list@);
    let mut out: Vec<ExprElem> = Vec::new();
    let mut i: usize = 0;
    while i < list.len()
        invariant
            i <= list.len(),
            input == exprs_view(list@),
            resolve_all_from(input, i as int, exprs_view(out@), fuel as nat) == resolve_all(input, fuel as nat),
        decreases fuel, 1nat, list.len() - i,
    {
        let ghost before = exprs_view(out@);
        assert(input[i as int] == list[i as int]@);
        let t = resolve_expr(&list[i], fuel)?;
        out.push(t);
        assert(exprs_view(out@) == before.push(t@));
        i += 1;
    }
    Ok(out)
}

/// Every node of a run of statement nodes resolved, in order.
pub fn resolve_stmts(list: &Vec<StmtElem>, fuel: usize) -> (r: Result<Vec<StmtElem>, ParserError>)
    ensures
        stmts_outcome(r) == resolve_all(stmts_view(list@), fuel as nat),
    decreases fuel, 2nat, 0nat,
{
    broadcast use group_view_lemmas;

    let ghost input = stmts_view(list@);
    let mut out: Vec<StmtElem> = Vec::new();
    let mut i: usize = 0;
    while i < list.len()
        invariant
            i <= list.len(),
            input == stmts_view(list@),
            resolve_all_from(input, i as int, stmts_view(out@), fuel as nat) == resolve_all(input, fuel as nat),
        decreases fuel, 1nat, list.len() - i,
    {
        let ghost before = stmts_view(out@);
        assert(input[i as int] == list[i as int]@);
        let t = resolve_stmt(&list[i], fuel)?;
        out.push(t);
        assert(stmts_view(out@) == before.push(t@));
        i += 1;
    }
    Ok(out)
}

/// Every clause of a chain resolved, in order.
pub fn resolve_syntaxes(list: &Vec<SyntaxBranch>, fuel: usize) -> (r: Result<Vec<SyntaxBranch>, ParserError>)
    ensures
        syntaxes_outcome(r) == resolve_all(syntaxes_view(list@), fuel as nat),
    decreases fuel, 2nat, 0nat,
{
    broadcast use group_view_lemmas;

    let ghost input = syntaxes_view(list@);
    let mut out: Vec<SyntaxBranch> = Vec::new();
    let mut i: usize = 0;
    while i < list.len()
        invariant
            i <= list.len(),
            input == syntaxes_view(list@),
            resolve_all_from(input, i as int, syntaxes_view(out@), fuel as nat) == resolve_all(input, fuel as nat),
        decreases fuel, 1nat, list.len() - i,
    {
        let ghost before = syntaxes_view(out@);
        assert(input[i as int] == list[i as int]@);
        let t = resolve_syntax(&list[i], fuel)?;
        out.push(t);
        assert(syntaxes_view(out@) == before.push(t@));
        i += 1;
    }
    Ok(out)
}

/// A flat run of expression atoms parsed, and every node of the outcome resolved.
pub fn resolve_expr_run(list: &Vec<ExprElem>, depth: isize, loopdepth: isize, fuel: usize) -> (r: Result<
    Vec<ExprElem>,
    ParserError,
>)
    ensures
        exprs_outcome(r) == resolve_run(
            ParserKind::Expr,
            exprs_view(list@),
            depth,
            loopdepth,
            fuel as nat,
        ),
    decreases fuel, 3nat, 0nat,
{
    let parsed = ExprParser::passes(list, depth, loopdepth)?;
    resolve_exprs(&parsed, fuel)
}

/// A flat run of statement atoms parsed, and every node of the outcome resolved.
pub fn resolve_stmt_run(list: &Vec<StmtElem>, depth: isize, loopdepth: isize, fuel: usize) -> (r: Result<
    Vec<StmtElem>,
    ParserError,
>)
    ensures
        stmts_outcome(r) == resolve_run(
            ParserKind::Stmt,
            stmts_view(list@),
            depth,
            loopdepth,
            fuel as nat,
        ),
    decreases fuel, 3nat, 0nat,
{
    let parsed = StmtParser::passes(list, depth, loopdepth)?;
    resolve_stmts(&parsed, fuel)
}

/// A `{ ... }` resolved within `fuel` levels of nesting.
pub fn resolve_block(b: &BlockBranch, fuel: usize) -> (r: Result<BlockBranch, ParserError>)
    ensures
        outcome(r) == resolve_atom(b@, fuel as nat),
    decreases fuel, 0nat, 0nat,
{
    if b.resolved {
        return Ok(clone_block(b));
    }
    if fuel == 0 || b.depth == isize::MAX {
        return Err(ParserError::NestingTooDeep);
    }
    let kids = resolve_stmt_run(&b.contents, b.depth + 1, b.loopdepth, fuel - 1)?;
    Ok(BlockBranch { contents: kids, depth: b.depth, loopdepth: b.loopdepth, resolved: true })
}

/// A `( ... )` resolved within `fuel` levels of nesting.
pub fn resolve_paren_block(b: &ParenBlockBranch, fuel: usize) -> (r: Result<ParenBlockBranch, ParserError>)
    ensures
        outcome(r) == resolve_atom(b@, fuel as nat),
    decreases fuel, 0nat, 0nat,
{
    if b.resolved {
        return Ok(clone_paren_block(b));
    }
    if fuel == 0 || b.depth == isize::MAX {
        return Err(ParserError::NestingTooDeep);
    }
    let kids = resolve_expr_run(&b.contents, b.depth + 1, b.loopdepth, fuel - 1)?;
    Ok(ParenBlockBranch { contents: kids, depth: b.depth, loopdepth: b.loopdepth, resolved: true })
}

/// A `[ ... ]` resolved within `fuel` levels of nesting.
pub fn resolve_list_block(b: &ListBlockBranch, fuel: usize) -> (r: Result<ListBlockBranch, ParserError>)
    ensures
        outcome(r) == resolve_atom(b@, fuel as nat),
    decreases fuel, 0nat, 0nat,
{
    if b.resolved {
        return Ok(clone_list_block(b));
    }
    if fuel == 0 {
        return Err(ParserError::NestingTooDeep);
    }
    let split = CommaParser::passes(&b.contents, b.depth, b.loopdepth)?;
    let _ = CommaParser::passes(&split, b.depth, b.loopdepth)?;
    let parsed = ExprParser::passes(&b.contents, b.depth, b.loopdepth)?;
    let kids = resolve_expr_run(&parsed, b.depth, b.loopdepth, fuel - 1)?;
    Ok(ListBlockBranch { contents: kids, depth: b.depth, loopdepth: b.loopdepth, resolved: true })
}

/// An operand resolved within `fuel` levels of nesting.
pub fn resolve_item(b: &ItemBranch, fuel: usize) -> (r: Result<ItemBranch, ParserError>)
    ensures
        outcome(r) == resolve_atom(b@, fuel as nat),
    decreases fuel, 0nat, 0nat,
{
    if b.resolved {
        return Ok(
            ItemBranch {
                contents: clone_exprs(&b.contents),
                depth: b.depth,
                loopdepth: b.loopdepth,
                resolved: true,
            },
        );
    }
    if fuel == 0 {
        return Err(ParserError::NestingTooDeep);
    }
    let kids = resolve_expr_run(&b.contents, b.depth, b.loopdepth, fuel - 1)?;
    Ok(ItemBranch { contents: kids, depth: b.depth, loopdepth: b.loopdepth, resolved: true })
}

/// An expression statement resolved within `fuel` levels of nesting.
pub fn resolve_expr_stmt(b: &ExprBranch, fuel: usize) -> (r: Result<ExprBranch, ParserError>)
    ensures
        outcome(r) == resolve_atom(b@, fuel as nat),
    decreases fuel, 0nat, 0nat,
{
    if b.resolved {
        return Ok(
            ExprBranch {
                code_list: clone_exprs(&b.code_list),
                depth: b.depth,
                loopdepth: b.loopdepth,
                resolved: true,
            },
        );
    }
    if fuel == 0 {
        return Err(ParserError::NestingTooDeep);
    }
    let kids = resolve_expr_run(&b.code_list, b.depth, b.loopdepth, fuel - 1)?;
    Ok(ExprBranch { code_list: kids, depth: b.depth, loopdepth: b.loopdepth, resolved: true })
}

/// A control statement resolved within `fuel` levels of nesting.
pub fn resolve_control_stmt(b: &StmtBranch, fuel: usize) -> (r: Result<StmtBranch, ParserError>)
    ensures
        outcome(r) == resolve_atom(b@, fuel as nat),
    decreases fuel, 0nat, 0nat,
{
    if b.resolved {
        return Ok(
            StmtBranch {
                head: b.head.clone(),
                code_list: clone_exprs(&b.code_list),
                depth: b.depth,
                loopdepth: b.loopdepth,
                resolved: true,
            },
        );
    }
    if fuel == 0 {
        return Err(ParserError::NestingTooDeep);
    }
    let kids = resolve_expr_run(&b.code_list, b.depth, b.loopdepth, fuel - 1)?;
    Ok(StmtBranch { head: b.head.clone(), code_list: kids, depth: b.depth, loopdepth: b.loopdepth, resolved: true })
}

/// A control clause resolved within `fuel` levels of nesting.
pub fn resolve_syntax(b: &SyntaxBranch, fuel: usize) -> (r: Result<SyntaxBranch, ParserError>)
    ensures
        outcome(r) == resolve_atom(b@, fuel as nat),
    decreases fuel, 0nat, 0nat,
{
    if b.resolved {
        return Ok(clone_syntax(b));
    }
    let in_loop = loop_name(b.name.as_str());
    if fuel == 0 || (in_loop && b.loopdepth == isize::MAX) {
        return Err(ParserError::NestingTooDeep);
    }
    let condition = resolve_expr_run(&b.expr, b.depth, b.loopdepth, fuel - 1)?;
    let inner = if in_loop {
        b.loopdepth + 1
    } else {
        b.loopdepth
    };
    let body = resolve_stmt_run(&b.contents, b.depth, inner, fuel - 1)?;
    Ok(
        SyntaxBranch {
            name: b.name.clone(),
            expr: condition,
            contents: body,
            depth: b.depth,
            loopdepth: b.loopdepth,
            resolved: true,
        },
    )
}

/// A chain of clauses resolved within `fuel` levels of nesting.
pub fn resolve_syntax_box(b: &SyntaxBoxBranch, fuel: usize) -> (r: Result<SyntaxBoxBranch, ParserError>)
    ensures
        outcome(r) == resolve_atom(b@, fuel as nat),
    decreases fuel, 0nat, 0nat,
{
    if fuel == 0 {
        return Err(ParserError::NestingTooDeep);
    }
    let clauses = resolve_syntaxes(&b.contents, fuel - 1)?;
    Ok(SyntaxBoxBranch { name: b.name.clone(), contents: clauses, depth: b.depth, loopdepth: b.loopdepth })
}

/// The arguments of a call before it is resolved: see `call_args`.
pub fn unresolved_call_args(b: &FuncBranch) -> (r: Result<Vec<ExprElem>, ParserError>)
    ensures
        exprs_outcome(r) == call_args(b.name@, exprs_view(b.contents@)),
{
    if b.contents.len() == 0 {
        return Err(ParserError::DevError);
    }
    assert(exprs_view(b.contents@)[0] == b.contents[0]@);
    match &*b.name {
        ExprElem::OpeElem(_) => {
            return Ok(clone_exprs(&b.contents));
        },
        _ => {},
    }
    match &b.contents[0] {
        ExprElem::ParenBlockElem(p) => {
            if b.contents.len() > 1 {
                Err(ParserError::DevError)
            } else {
                CommaParser::passes(&p.contents, p.depth, p.loopdepth)
            }
        },
        _ => Err(ParserError::DevError),
    }
}

/// The indices of a subscript before it is resolved: see `index_args`.
pub fn unresolved_index_args(b: &ListBranch) -> (r: Result<Vec<ExprElem>, ParserError>)
    ensures
        exprs_outcome(r) == index_args(exprs_view(b.contents@)),
{
    if b.contents.len() != 1 {
        return Err(ParserError::DevError);
    }
    assert(exprs_view(b.contents@)[0] == b.contents[0]@);
    match &b.contents[0] {
        ExprElem::ListBlockElem(p) => CommaParser::passes(&p.contents, p.depth, p.loopdepth),
        _ => Err(ParserError::DevError),
    }
}

/// A call resolved within `fuel` levels of nesting.
pub fn resolve_func(b: &FuncBranch, fuel: usize) -> (r: Result<FuncBranch, ParserError>)
    ensures
        outcome(r) == resolve_atom(b@, fuel as nat),
    decreases fuel, 0nat, 0nat,
{
    if b.resolved {
        return Ok(
            FuncBranch {
                name: Box::new(clone_expr(&*b.name)),
                contents: clone_exprs(&b.contents),
                depth: b.depth,
                loopdepth: b.loopdepth,
                resolved: true,
            },
        );
    }
    if fuel == 0 {
        return Err(ParserError::NestingTooDeep);
    }
    let head = resolve_expr(&*b.name, fuel - 1)?;
    let args = unresolved_call_args(b)?;
    let kids = resolve_exprs(&args, fuel - 1)?;
    Ok(FuncBranch { name: Box::new(head), contents: kids, depth: b.depth, loopdepth: b.loopdepth, resolved: true })
}

/// A subscript resolved within `fuel` levels of nesting.
pub fn resolve_list(b: &ListBranch, fuel: usize) -> (r: Result<ListBranch, ParserError>)
    ensures
        outcome(r) == resolve_atom(b@, fuel as nat),
    decreases fuel, 0nat, 0nat,
{
    if b.resolved {
        return Ok(
            ListBranch {
                name: Box::new(clone_expr(&*b.name)),
                contents: clone_exprs(&b.contents),
                depth: b.depth,
                loopdepth: b.loopdepth,
                resolved: true,
            },
        );
    }
    if fuel == 0 {
        return Err(ParserError::NestingTooDeep);
    }
    let head = resolve_expr(&*b.name, fuel - 1)?;
    let args = unresolved_index_args(b)?;
    let kids = resolve_exprs(&args, fuel - 1)?;
    Ok(ListBranch { name: Box::new(head), contents: kids, depth: b.depth, loopdepth: b.loopdepth, resolved: true })
}

} // verus!

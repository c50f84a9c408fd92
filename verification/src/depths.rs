//! Loop depth discipline: what the parsers and resolution keep true of the
//! loop depth of the nodes they make.
//!
//! The generator names the labels of a loop by the loop depth of its clause,
//! and the target of a `break` or a `continue` by the loop depth of the
//! statement. The two meet because every node that is made from text carries
//! the loop depth of the place where it stands: the loop depth of the parser
//! at the top, and one more in the body of every `while` and `for` clause
//! around it.
use crate::abs::atom::Atom;
use crate::parser::core_parser::ParserKind;
use crate::parser::grammar::{
    clause_condition, expr_passes, group_chains, group_syntax, merge_calls_fix, new_call, new_index,
    new_operation,
};
use crate::parser::lexer::{
    group_brackets, group_operators, group_strings, group_words, lexed, regroup, Bracket, StringAreaState,
};
use crate::parser::origin::{
    calls_keep, each, lemma_args_each, lemma_brackets_each, lemma_brackets_identity, lemma_calls_fix_each,
    lemma_chains_each, lemma_operators_each, lemma_quotes_each, lemma_reduce_each, lemma_statements_each,
    lemma_strings_each, lemma_syntax_each, lemma_words_each, statements_keep,
};
use crate::parser::statement::{comma_passes, group_quotes, stmt_passes};
use crate::errors::parser_errors::ParserError;
use crate::gen::wat::lemma_branch_targets;
use crate::parser::lexer::unknowns;
use crate::resolve::{
    branches_to, call_args, index_args, is_loop_name, lemma_resolve_all_elements, resolve_all, resolve_atom,
    resolve_run, run_passes,
};
use vstd::prelude::*;

verus! {

/// Whether an atom is a character, a string or a comment: what text is made
/// of before any bracket is matched.
pub open spec fn is_flat(a: Atom) -> bool {
    a is Unknown || a is Str || a is Comment
}

/// Whether an atom is the character `{` or `}`.
pub open spec fn is_brace_char(a: Atom) -> bool {
    a.is_char('{') || a.is_char('}')
}

/// Whether every atom of a run is a character, a string or a comment.
pub open spec fn all_flat(s: Seq<Atom>) -> bool {
    forall|i: int| 0 <= i < s.len() ==> is_flat(#[trigger] s[i])
}

/// The loop depth of the statements in the body of a clause that stands at loop depth `n`.
pub open spec fn body_depth(name: Seq<char>, n: isize) -> isize {
    if is_loop_name(name) {
        (n + 1) as isize
    } else {
        n
    }
}

/// Whether an unresolved tree waits at loop depth `n`: no node of it is
/// marked as resolved, every node of it carries the loop depth `n`, and what
/// its nodes hold is what the passes leave in them.
///
/// A `{ ... }` and the body of a clause hold characters, strings and comments
/// only; every other run holds no `{` and no `}`, which the brace pass has
/// taken out before any of these runs is collected.
pub open spec fn pending(a: Atom, n: isize) -> bool
    decreases a, 0nat,
{
    match a {
        Atom::Block { contents, loopdepth, resolved, .. } => !resolved && loopdepth == n && all_flat(contents),
        Atom::ListBlock { contents, loopdepth, resolved, .. } => !resolved && loopdepth == n && pending_run(
            contents,
            n,
        ),
        Atom::ParenBlock { contents, loopdepth, resolved, .. } => !resolved && loopdepth == n && pending_run(
            contents,
            n,
        ),
        Atom::Item { contents, loopdepth, resolved, .. } => !resolved && loopdepth == n && pending_run(contents, n),
        Atom::Expr { code_list, loopdepth, resolved, .. } => !resolved && loopdepth == n && pending_run(
            code_list,
            n,
        ),
        Atom::Special { code_list, loopdepth, resolved, .. } => !resolved && loopdepth == n && pending_run(
            code_list,
            n,
        ),
        Atom::Syntax { expr, contents, loopdepth, resolved, .. } => !resolved && loopdepth == n && pending_run(
            expr,
            n,
        ) && all_flat(contents),
        Atom::SyntaxBox { contents, .. } => pending_run(contents, n),
        Atom::Func { callee, contents, resolved, .. } => !resolved && pending(*callee, n) && pending_run(
            contents,
            n,
        ),
        Atom::List { callee, contents, resolved, .. } => !resolved && pending(*callee, n) && pending_run(
            contents,
            n,
        ),
        _ => true,
    }
}

/// Whether every atom of a run waits at loop depth `n`, and none is a `{` or a `}`.
pub open spec fn pending_run(s: Seq<Atom>, n: isize) -> bool
    decreases s, 1nat,
{
    forall|i: int| 0 <= i < s.len() ==> pending(#[trigger] s[i], n) && !is_brace_char(s[i])
}

/// Whether a resolved tree stands at loop depth `n`: every node of it is
/// marked as resolved and carries the loop depth of its place, which is `n`
/// but in the bodies of `while` and `for` clauses, where it is one more than
/// the loop depth of the clause.
pub open spec fn labelled(a: Atom, n: isize) -> bool
    decreases a, 0nat,
{
    match a {
        Atom::Block { contents, loopdepth, resolved, .. } => resolved && loopdepth == n && labelled_run(contents, n),
        Atom::ListBlock { contents, loopdepth, resolved, .. } => resolved && loopdepth == n && labelled_run(
            contents,
            n,
        ),
        Atom::ParenBlock { contents, loopdepth, resolved, .. } => resolved && loopdepth == n && labelled_run(
            contents,
            n,
        ),
        Atom::Item { contents, loopdepth, resolved, .. } => resolved && loopdepth == n && labelled_run(contents, n),
        Atom::Expr { code_list, loopdepth, resolved, .. } => resolved && loopdepth == n && labelled_run(
            code_list,
            n,
        ),
        Atom::Special { code_list, loopdepth, resolved, .. } => resolved && loopdepth == n && labelled_run(
            code_list,
            n,
        ),
        Atom::Syntax { name, expr, contents, loopdepth, resolved, .. } => resolved && loopdepth == n
            && labelled_run(expr, n) && (is_loop_name(name) ==> n < isize::MAX) && labelled_run(
            contents,
            body_depth(name, n),
        ),
        Atom::SyntaxBox { contents, .. } => labelled_run(contents, n),
        Atom::Func { callee, contents, resolved, .. } => resolved && labelled(*callee, n) && labelled_run(
            contents,
            n,
        ),
        Atom::List { callee, contents, resolved, .. } => resolved && labelled(*callee, n) && labelled_run(
            contents,
            n,
        ),
        _ => true,
    }
}

/// Whether every tree of a resolved run stands at loop depth `n`.
pub open spec fn labelled_run(s: Seq<Atom>, n: isize) -> bool
    decreases s, 1nat,
{
    forall|i: int| 0 <= i < s.len() ==> labelled(#[trigger] s[i], n)
}

/// An atom of a run that waits does wait, and is no `{` and no `}`.
pub proof fn lemma_pending_at(s: Seq<Atom>, n: isize, j: int)
    requires
        pending_run(s, n),
        0 <= j < s.len(),
    ensures
        pending(s[j], n),
        !is_brace_char(s[j]),
{
}

/// A tree of a resolved run that stands at a loop depth does stand there.
pub proof fn lemma_labelled_at(s: Seq<Atom>, n: isize, j: int)
    requires
        labelled_run(s, n),
        0 <= j < s.len(),
    ensures
        labelled(s[j], n),
{
}

/// The predicate of waiting at loop depth `n` and being no `{` and no `}`.
pub open spec fn waits(n: isize) -> spec_fn(Atom) -> bool {
    |a: Atom| pending(a, n) && !is_brace_char(a)
}

/// The predicate of being a character, a string or a comment.
pub open spec fn flat() -> spec_fn(Atom) -> bool {
    |a: Atom| is_flat(a)
}

/// What a bracket pass takes into a bracket waits where it waited outside.
proof fn lemma_regroup_waits(a: Atom, depth: isize, n: isize)
    requires
        waits(n)(a),
        regroup(a, depth, n) is Some,
    ensures
        waits(n)(regroup(a, depth, n)->0),
{
}

/// The brace pass makes a run that waits of a run of text or of a run that waits.
proof fn lemma_braces_wait(s: Seq<Atom>, depth: isize, n: isize, kind: ParserKind)
    requires
        all_flat(s) || pending_run(s, n),
        group_brackets(s, Bracket::Brace, depth, n, kind) is Ok,
    ensures
        pending_run(group_brackets(s, Bracket::Brace, depth, n, kind)->Ok_0, n),
{
    let b = Bracket::Brace;
    if pending_run(s, n) {
        assert forall|k: int| 0 <= k < s.len() implies !(#[trigger] s[k]).is_char(b.open_char()) && !s[k].is_char(
            b.close_char(),
        ) by {
            assert(!is_brace_char(s[k]));
        }
        lemma_brackets_identity(s, 0, b, depth, n, kind);
        assert(s.take(0) =~= Seq::<Atom>::empty());
    } else {
        let p = flat();
        let r = waits(n);
        assert(each(s, p));
        assert(each(Seq::<Atom>::empty(), p));
        assert(each(Seq::<Atom>::empty(), r));
        assert forall|g: Seq<Atom>| each(g, p) implies r(#[trigger] b.enclose(g, depth, n)) by {
            assert(all_flat(g)) by {
                assert forall|j: int| 0 <= j < g.len() implies is_flat(#[trigger] g[j]) by {
                    assert(p(g[j]));
                }
            }
        }
        lemma_brackets_each(s, 0, 0, Seq::empty(), Seq::empty(), b, depth, n, kind, p, p, r);
        let t = group_brackets(s, b, depth, n, kind)->Ok_0;
        assert forall|j: int| 0 <= j < t.len() implies pending(#[trigger] t[j], n) && !is_brace_char(t[j]) by {
            assert(r(t[j]));
        }
    }
}

/// The list pass and the parenthesis pass make a run that waits of a run that waits.
proof fn lemma_brackets_wait(s: Seq<Atom>, bracket: Bracket, depth: isize, n: isize, kind: ParserKind)
    requires
        bracket != Bracket::Brace,
        pending_run(s, n),
        group_brackets(s, bracket, depth, n, kind) is Ok,
    ensures
        pending_run(group_brackets(s, bracket, depth, n, kind)->Ok_0, n),
{
    let p = waits(n);
    assert(each(s, p));
    assert(each(Seq::<Atom>::empty(), p));
    assert forall|a: Atom| #[trigger] p(a) && regroup(a, depth, n) is Some implies p(regroup(a, depth, n)->0) by {
        lemma_regroup_waits(a, depth, n);
    }
    assert forall|g: Seq<Atom>| each(g, p) implies p(#[trigger] bracket.enclose(g, depth, n)) by {
        lemma_waits_each(g, n);
    }
    lemma_brackets_each(s, 0, 0, Seq::empty(), Seq::empty(), bracket, depth, n, kind, p, p, p);
    lemma_waits_each(group_brackets(s, bracket, depth, n, kind)->Ok_0, n);
}

/// A run whose atoms all wait, and are no braces, is a run that waits.
pub proof fn lemma_waits_each(s: Seq<Atom>, n: isize)
    requires
        each(s, waits(n)),
    ensures
        pending_run(s, n),
{
    assert forall|j: int| 0 <= j < s.len() implies pending(#[trigger] s[j], n) && !is_brace_char(s[j]) by {
        assert(waits(n)(s[j]));
    }
}

/// The passes before the word pass make a run that waits of a run of text
/// or of a run that waits.
proof fn lemma_lexed_waits(s: Seq<Atom>, depth: isize, n: isize, kind: ParserKind)
    requires
        all_flat(s) || pending_run(s, n),
        kind != ParserKind::Comma,
        lexed(s, depth, n, kind) is Ok,
    ensures
        pending_run(lexed(s, depth, n, kind)->Ok_0, n),
{
    let s1 = group_strings(s, depth, n, kind)->Ok_0;
    assert(all_flat(s1) || pending_run(s1, n)) by {
        if pending_run(s, n) {
            let p = waits(n);
            assert(each(s, p));
            assert(each(Seq::<Atom>::empty(), p));
            lemma_strings_each(
                s,
                0,
                StringAreaState::Closed,
                false,
                Seq::empty(),
                Seq::empty(),
                depth,
                n,
                kind,
                p,
            );
            lemma_waits_each(s1, n);
        } else {
            let p = flat();
            assert(each(s, p));
            assert(each(Seq::<Atom>::empty(), p));
            lemma_strings_each(
                s,
                0,
                StringAreaState::Closed,
                false,
                Seq::empty(),
                Seq::empty(),
                depth,
                n,
                kind,
                p,
            );
            assert forall|j: int| 0 <= j < s1.len() implies is_flat(#[trigger] s1[j]) by {
                assert(p(s1[j]));
            }
        }
    }
    lemma_braces_wait(s1, depth, n, kind);
    let s2 = group_brackets(s1, Bracket::Brace, depth, n, kind)->Ok_0;
    lemma_brackets_wait(s2, Bracket::List, depth, n, kind);
    let s3 = group_brackets(s2, Bracket::List, depth, n, kind)->Ok_0;
    lemma_brackets_wait(s3, Bracket::Paren, depth, n, kind);
}

/// The passes of the expression parser make a run that waits of a run of
/// text or of a run that waits.
pub proof fn lemma_expr_passes_wait(s: Seq<Atom>, depth: isize, n: isize)
    requires
        all_flat(s) || pending_run(s, n),
        expr_passes(s, depth, n) is Ok,
    ensures
        pending_run(expr_passes(s, depth, n)->Ok_0, n),
{
    let p = waits(n);
    lemma_lexed_waits(s, depth, n, ParserKind::Expr);
    let s4 = lexed(s, depth, n, ParserKind::Expr)->Ok_0;
    assert(each(s4, p));
    assert(each(Seq::<Atom>::empty(), p));
    let words = group_words(s4, depth, n);
    lemma_words_each(s4, 0, Seq::empty(), Seq::empty(), depth, n, p);
    let clauses = group_syntax(words, depth, n);
    assert forall|nm: Seq<char>, cond: Option<Atom>, block: Atom|
        (cond matches Some(x) ==> p(x)) && p(block) && block is Block implies #[trigger] p(
        Atom::Syntax {
            name: nm,
            expr: clause_condition(cond),
            contents: block->Block_contents,
            depth,
            loopdepth: n,
            resolved: false,
        },
    ) by {
        let condition = clause_condition(cond);
        assert(pending_run(condition, n)) by {
            match cond {
                Some(x) => {
                    assert(p(x));
                    assert(pending(x, n));
                },
                None => {},
            }
        }
        assert(pending(block, n));
        assert(all_flat(block->Block_contents));
    }
    lemma_syntax_each(words, 0, None, None, Seq::empty(), depth, n, p);
    let chained = group_chains(clauses, depth, n)->Ok_0;
    assert forall|nm: Seq<char>, g: Seq<Atom>| each(g, p) implies #[trigger] p(
        Atom::SyntaxBox { name: nm, contents: g, depth, loopdepth: n },
    ) by {
        lemma_waits_each(g, n);
    }
    lemma_chains_each(clauses, 0, Seq::empty(), Seq::empty(), Seq::empty(), depth, n, p);
    assert(calls_keep(p, depth, n)) by {
        assert forall|c: Atom, x: Atom| p(c) && p(x) implies #[trigger] p(new_index(c, x, depth, n)) by {
            assert(pending_run(seq![x], n)) by {
                assert(seq![x][0] == x);
            }
            assert(pending(new_index(c, x, depth, n), n));
        }
        assert forall|c: Atom, x: Atom| p(c) && p(x) implies #[trigger] p(new_call(c, x, depth, n)) by {
            assert(pending_run(seq![x], n)) by {
                assert(seq![x][0] == x);
            }
            assert(pending(new_call(c, x, depth, n), n));
        }
    }
    lemma_calls_fix_each(chained, depth, n, p);
    let calls = merge_calls_fix(chained, depth, n);
    lemma_operators_each(calls, 0, depth, p);
    let operators = group_operators(calls, depth);
    assert forall|c: Atom, l: Seq<Atom>, r: Seq<Atom>| p(c) && each(l, p) && each(r, p) implies #[trigger] p(
        new_operation(c, l, r, depth, n),
    ) by {
        lemma_waits_each(l, n);
        lemma_waits_each(r, n);
        let operands = seq![
            Atom::Item { contents: l, depth, loopdepth: n, resolved: false },
            Atom::Item { contents: r, depth, loopdepth: n, resolved: false },
        ];
        assert(operands[0] == Atom::Item { contents: l, depth, loopdepth: n, resolved: false });
        assert(operands[1] == Atom::Item { contents: r, depth, loopdepth: n, resolved: false });
        assert(pending(operands[0], n));
        assert(pending(operands[1], n));
        assert(pending_run(operands, n));
        assert(pending(new_operation(c, l, r, depth, n), n));
    }
    lemma_reduce_each(operators, depth, n, p);
    lemma_waits_each(expr_passes(s, depth, n)->Ok_0, n);
}

/// The passes of the statement parser make a run that waits of a run of
/// text or of a run that waits.
pub proof fn lemma_stmt_passes_wait(s: Seq<Atom>, depth: isize, n: isize)
    requires
        all_flat(s) || pending_run(s, n),
        stmt_passes(s, depth, n) is Ok,
    ensures
        pending_run(stmt_passes(s, depth, n)->Ok_0, n),
{
    let p = waits(n);
    lemma_lexed_waits(s, depth, n, ParserKind::Stmt);
    let s4 = lexed(s, depth, n, ParserKind::Stmt)->Ok_0;
    assert(each(s4, p));
    assert(each(Seq::<Atom>::empty(), p));
    let words = group_words(s4, depth, n);
    lemma_words_each(s4, 0, Seq::empty(), Seq::empty(), depth, n, p);
    assert(statements_keep(p, p, depth, n)) by {
        assert forall|g: Seq<Atom>| each(g, p) implies #[trigger] p(
            Atom::Expr { code_list: g, depth, loopdepth: n, resolved: false },
        ) by {
            lemma_waits_each(g, n);
        }
        assert forall|head: Seq<char>, g: Seq<Atom>| each(g, p) implies #[trigger] p(
            Atom::Special { head, code_list: g, depth, loopdepth: n, resolved: false },
        ) by {
            lemma_waits_each(g, n);
        }
    }
    lemma_statements_each(words, 0, Seq::empty(), Seq::empty(), depth, n, p, p);
    lemma_waits_each(stmt_passes(s, depth, n)->Ok_0, n);
}

/// The passes of the argument splitter make a run that waits of a run that waits.
pub proof fn lemma_comma_passes_wait(s: Seq<Atom>, depth: isize, n: isize)
    requires
        pending_run(s, n),
        comma_passes(s, depth, n) is Ok,
    ensures
        pending_run(comma_passes(s, depth, n)->Ok_0, n),
{
    let p = waits(n);
    let kind = ParserKind::Comma;
    assert(each(s, p));
    assert(each(Seq::<Atom>::empty(), p));
    lemma_quotes_each(s, 0, false, false, Seq::empty(), Seq::empty(), depth, n, p);
    let s1 = group_quotes(s, depth, n)->Ok_0;
    lemma_waits_each(s1, n);
    lemma_braces_wait(s1, depth, n, kind);
    let s2 = group_brackets(s1, Bracket::Brace, depth, n, kind)->Ok_0;
    lemma_brackets_wait(s2, Bracket::List, depth, n, kind);
    let s3 = group_brackets(s2, Bracket::List, depth, n, kind)->Ok_0;
    lemma_brackets_wait(s3, Bracket::Paren, depth, n, kind);
    let s4 = group_brackets(s3, Bracket::Paren, depth, n, kind)->Ok_0;
    assert(each(s4, p));
    assert forall|g: Seq<Atom>| each(g, p) implies #[trigger] p(
        Atom::Item { contents: g, depth, loopdepth: n, resolved: false },
    ) by {
        lemma_waits_each(g, n);
    }
    lemma_args_each(s4, 0, Seq::empty(), Seq::empty(), depth, n, p, p);
    lemma_waits_each(comma_passes(s, depth, n)->Ok_0, n);
}

/// Resolution keeps the loop depth discipline: a tree that waits at loop
/// depth `n` is resolved to a tree that stands at loop depth `n`.
#[verifier::rlimit(60)]
pub proof fn lemma_resolve_labelled(a: Atom, n: isize, fuel: nat)
    requires
        pending(a, n),
        resolve_atom(a, fuel) is Ok,
    ensures
        labelled(resolve_atom(a, fuel)->Ok_0, n),
    decreases fuel, 0nat, 0nat,
{
    let f = (fuel - 1) as nat;
    match a {
        Atom::Block { contents, depth, loopdepth, resolved } => {
            lemma_resolve_run_labelled(ParserKind::Stmt, contents, (depth + 1) as isize, n, f);
        },
        Atom::ParenBlock { contents, depth, loopdepth, resolved } => {
            lemma_resolve_run_labelled(ParserKind::Expr, contents, (depth + 1) as isize, n, f);
        },
        Atom::ListBlock { contents, depth, loopdepth, resolved } => {
            lemma_expr_passes_wait(contents, depth, n);
            lemma_resolve_run_labelled(ParserKind::Expr, expr_passes(contents, depth, n)->Ok_0, depth, n, f);
        },
        Atom::Item { contents, depth, loopdepth, resolved } => {
            lemma_resolve_run_labelled(ParserKind::Expr, contents, depth, n, f);
        },
        Atom::Expr { code_list, depth, loopdepth, resolved } => {
            lemma_resolve_run_labelled(ParserKind::Expr, code_list, depth, n, f);
        },
        Atom::Special { head, code_list, depth, loopdepth, resolved } => {
            lemma_resolve_run_labelled(ParserKind::Expr, code_list, depth, n, f);
        },
        Atom::Syntax { name, expr, contents, depth, loopdepth, resolved } => {
            lemma_resolve_run_labelled(ParserKind::Expr, expr, depth, n, f);
            lemma_resolve_run_labelled(ParserKind::Stmt, contents, depth, body_depth(name, n), f);
        },
        Atom::SyntaxBox { name, contents, depth, loopdepth } => {
            lemma_resolve_all_labelled(contents, n, f);
        },
        Atom::Func { callee, contents, depth, loopdepth, resolved } => {
            lemma_resolve_labelled(*callee, n, f);
            let args = call_args(*callee, contents)->Ok_0;
            assert(pending_run(args, n)) by {
                if !(*callee is Ope) {
                    lemma_pending_at(contents, n, 0);
                    match contents[0] {
                        Atom::ParenBlock { contents: inner, depth: d, loopdepth: l, .. } => {
                            lemma_comma_passes_wait(inner, d, n);
                        },
                        _ => {},
                    }
                }
            }
            lemma_resolve_all_labelled(args, n, f);
        },
        Atom::List { callee, contents, depth, loopdepth, resolved } => {
            lemma_resolve_labelled(*callee, n, f);
            let args = index_args(contents)->Ok_0;
            assert(pending_run(args, n)) by {
                lemma_pending_at(contents, n, 0);
                match contents[0] {
                    Atom::ListBlock { contents: inner, depth: d, loopdepth: l, .. } => {
                        lemma_comma_passes_wait(inner, d, n);
                    },
                    _ => {},
                }
            }
            lemma_resolve_all_labelled(args, n, f);
        },
        _ => {},
    }
}

/// Resolution keeps the loop depth discipline on runs.
pub proof fn lemma_resolve_all_labelled(s: Seq<Atom>, n: isize, fuel: nat)
    requires
        pending_run(s, n),
        resolve_all(s, fuel) is Ok,
    ensures
        labelled_run(resolve_all(s, fuel)->Ok_0, n),
    decreases fuel, 2nat, 0nat,
{
    let t = resolve_all(s, fuel)->Ok_0;
    lemma_resolve_all_elements(s, 0, Seq::empty(), fuel);
    assert forall|j: int| 0 <= j < t.len() implies labelled(#[trigger] t[j], n) by {
        assert(resolve_atom(s[j], fuel) == Ok::<Atom, ParserError>(t[0 + j - 0]));
        lemma_pending_at(s, n, j);
        lemma_resolve_labelled(s[j], n, fuel);
    }
}

/// Parsing and resolving keeps the loop depth discipline: a run of text, or
/// a run that waits at loop depth `n`, is parsed and resolved to trees that
/// stand at loop depth `n`.
pub proof fn lemma_resolve_run_labelled(kind: ParserKind, s: Seq<Atom>, depth: isize, n: isize, fuel: nat)
    requires
        all_flat(s) || pending_run(s, n),
        resolve_run(kind, s, depth, n, fuel) is Ok,
    ensures
        labelled_run(resolve_run(kind, s, depth, n, fuel)->Ok_0, n),
    decreases fuel, 3nat, 0nat,
{
    if kind == ParserKind::Stmt {
        lemma_stmt_passes_wait(s, depth, n);
    } else {
        lemma_expr_passes_wait(s, depth, n);
    }
    lemma_resolve_all_labelled(run_passes(kind, s, depth, n)->Ok_0, n, fuel);
}

/// The atoms of a text are characters.
pub proof fn lemma_text_is_flat(text: Seq<char>)
    ensures
        all_flat(unknowns(text)),
    decreases text.len(),
{
    if text.len() > 0 {
        lemma_text_is_flat(text.drop_last());
        let t = unknowns(text);
        assert forall|j: int| 0 <= j < t.len() implies is_flat(#[trigger] t[j]) by {
            if j < unknowns(text.drop_last()).len() {
                assert(t[j] == unknowns(text.drop_last())[j]);
            }
        }
    }
}

/// The loop depth discipline holds of every tree that is made from text:
/// where a parser that is seeded with the loop depth `n` parses and resolves
/// a text, every node of the outcome is marked as resolved and carries the
/// loop depth of its place, `n` at the top and one more in the body of every
/// `while` and `for` clause around it.
pub proof fn lemma_text_is_labelled(kind: ParserKind, text: Seq<char>, depth: isize, n: isize, fuel: nat)
    requires
        resolve_run(kind, unknowns(text), depth, n, fuel) is Ok,
    ensures
        labelled_run(resolve_run(kind, unknowns(text), depth, n, fuel)->Ok_0, n),
{
    lemma_text_is_flat(text);
    lemma_resolve_run_labelled(kind, unknowns(text), depth, n, fuel);
}

/// A `break` or a `continue` at its place branches to the labels of the loop
/// around that place: a control statement that stands at loop depth `n + 1`
/// branches to the block or to the start of the loop of loop depth `n`.
pub proof fn lemma_labelled_branch(stmt: Atom, n: isize)
    requires
        stmt is Special,
        n < isize::MAX,
        labelled(stmt, (n + 1) as isize),
    ensures
        branches_to(stmt, n as int),
{
    lemma_branch_targets(stmt, n);
}

/// A conditional `break` leaves its own loop: in a resolved `while` clause
/// of loop depth `n`, a `break` or a `continue` in the body of a clause of an
/// `if` chain in the body of the loop branches to the labels that the
/// `while` clause opens, and so does one that stands in the body of the loop
/// itself.
pub proof fn lemma_conditional_break(looping: Atom, n: isize, k1: int, k2: int, k3: int, k4: int)
    requires
        looping is Syntax,
        looping->Syntax_name == "while"@,
        labelled(looping, n),
        0 <= k1 < looping->Syntax_contents.len(),
    ensures
        looping->Syntax_loopdepth == n,
        branches_to(looping->Syntax_contents[k1], n as int),
        ({
            let statement = looping->Syntax_contents[k1];
            statement is Expr && 0 <= k2 < statement->Expr_code_list.len() ==> {
                let chain = statement->Expr_code_list[k2];
                chain is SyntaxBox && 0 <= k3 < chain->SyntaxBox_contents.len() ==> {
                    let clause = chain->SyntaxBox_contents[k3];
                    clause is Syntax && !is_loop_name(clause->Syntax_name) && 0 <= k4
                        < clause->Syntax_contents.len() ==> branches_to(
                        clause->Syntax_contents[k4],
                        n as int,
                    )
                }
            }
        }),
{
    let inner = (n + 1) as isize;
    let statement = looping->Syntax_contents[k1];
    reveal_strlit("while");
    reveal_strlit("for");
    assert("while"@.len() == 5);
    assert(is_loop_name(looping->Syntax_name));
    assert(labelled_run(looping->Syntax_contents, inner));
    lemma_labelled_at(looping->Syntax_contents, inner, k1);
    if statement is Special {
        lemma_labelled_branch(statement, n);
    }
    if statement is Expr && 0 <= k2 < statement->Expr_code_list.len() {
        let chain = statement->Expr_code_list[k2];
        lemma_labelled_at(statement->Expr_code_list, inner, k2);
        if chain is SyntaxBox && 0 <= k3 < chain->SyntaxBox_contents.len() {
            let clause = chain->SyntaxBox_contents[k3];
            lemma_labelled_at(chain->SyntaxBox_contents, inner, k3);
            if clause is Syntax && !is_loop_name(clause->Syntax_name) && 0 <= k4 < clause->Syntax_contents.len() {
                let target = clause->Syntax_contents[k4];
                assert(labelled_run(clause->Syntax_contents, inner));
                lemma_labelled_at(clause->Syntax_contents, inner, k4);
                if target is Special {
                    lemma_labelled_branch(target, n);
                }
            }
        }
    }
}

/// The loop depths inside a clause: a resolved clause that stands at loop
/// depth `n` carries `n`, every tree of its condition stands at `n`, and
/// every statement of its body stands at `n + 1` where the clause is a
/// `while` or a `for`, and at `n` otherwise.
pub proof fn lemma_clause_depths(clause: Atom, n: isize)
    requires
        clause is Syntax,
        labelled(clause, n),
    ensures
        clause->Syntax_resolved,
        clause->Syntax_loopdepth == n,
        labelled_run(clause->Syntax_expr, n),
        labelled_run(clause->Syntax_contents, body_depth(clause->Syntax_name, n)),
        is_loop_name(clause->Syntax_name) ==> body_depth(clause->Syntax_name, n) == n + 1,
        !is_loop_name(clause->Syntax_name) ==> body_depth(clause->Syntax_name, n) == n,
{
}

/// Resolving a clause seeds its two parts: where a clause that waits at its
/// loop depth `n` is resolved, the outcome is the clause of the same name, at
/// the same depth and loop depth, whose condition stands at loop depth `n`
/// and whose body stands at `n + 1` where the clause is a `while` or a `for`,
/// and at `n` otherwise.
pub proof fn lemma_resolved_clause_depths(clause: Atom, fuel: nat)
    requires
        clause is Syntax,
        pending(clause, clause->Syntax_loopdepth),
        resolve_atom(clause, fuel) is Ok,
    ensures
        ({
            let n = clause->Syntax_loopdepth;
            let done = resolve_atom(clause, fuel)->Ok_0;
            &&& done is Syntax
            &&& done->Syntax_name == clause->Syntax_name
            &&& done->Syntax_depth == clause->Syntax_depth
            &&& done->Syntax_loopdepth == n
            &&& labelled_run(done->Syntax_expr, n)
            &&& labelled_run(done->Syntax_contents, body_depth(clause->Syntax_name, n))
        }),
{
    lemma_resolve_labelled(clause, clause->Syntax_loopdepth, fuel);
}

} // verus!

//! White space between tokens: where it does not matter to the outcome.
//!
//! White space leaves the stream in the word pass. Before that pass it is
//! text like any other: it is part of the strings and comments it stands in,
//! and of what the brackets around it hold, until that is parsed in turn.
use crate::abs::atom::Atom;
use crate::errors::parser_errors::ParserError;
use crate::parser::core_parser::ParserKind;
use crate::parser::alike::{
    both, congruent, is_leaf, lemma_args_pairs, lemma_brackets_pairs, lemma_comma_passes_pairs,
    lemma_grammar_pairs, lemma_pairs_empty, lemma_pairs_push, lemma_statements_pairs, lemma_strings_pairs,
    lemma_words_pairs, outcomes, pairs, same_head, Likeness,
};
use crate::parser::grammar::{
    clause_condition, expr_grammar, expr_passes, lemma_grammar_ignores_space, new_call, new_index,
    new_operation,
};
use crate::parser::lexer::{
    group_brackets, group_brackets_from, group_strings, group_strings_from, group_words, is_blank, is_space,
    is_word_char, lexed, regroup, Bracket, StringAreaState,
};
use crate::parser::origin::{each, lemma_brackets_each, lemma_brackets_leave_none, no_bracket};
use crate::parser::statement::{
    comma_passes, group_args_from, group_quotes_from, lemma_statements_ignore_space, stmt_passes,
};
use crate::resolve::{
    call_args, index_args, is_loop_name, list_passes, resolve_all, resolve_all_from, resolve_atom, resolve_run,
    run_passes,
};
use vstd::prelude::*;

verus! {

/// An outcome with a run put before it where it is a success.
pub open spec fn after(acc: Seq<Atom>, r: Result<Seq<Atom>, ParserError>) -> Result<Seq<Atom>, ParserError> {
    match r {
        Ok(d) => Ok(acc + d),
        Err(e) => Err(e),
    }
}

/// A bracket pass, taken up at a position, depends on the atoms from that position on only.
pub proof fn lemma_brackets_suffix(
    s: Seq<Atom>,
    i: int,
    t: Seq<Atom>,
    j: int,
    level: nat,
    group: Seq<Atom>,
    acc: Seq<Atom>,
    bracket: Bracket,
    depth: isize,
    loopdepth: isize,
    kind: ParserKind,
)
    requires
        0 <= i <= s.len(),
        0 <= j <= t.len(),
        s.skip(i) == t.skip(j),
    ensures
        group_brackets_from(s, i, level, group, acc, bracket, depth, loopdepth, kind) == group_brackets_from(
            t,
            j,
            level,
            group,
            acc,
            bracket,
            depth,
            loopdepth,
            kind,
        ),
    decreases s.len() - i,
{
    assert(s.skip(i).len() == s.len() - i);
    assert(t.skip(j).len() == t.len() - j);
    if i < s.len() {
        assert(s[i] == s.skip(i)[0]);
        assert(t[j] == t.skip(j)[0]);
        assert(s.skip(i + 1) =~= s.skip(i).skip(1));
        assert(t.skip(j + 1) =~= t.skip(j).skip(1));
        let none = Seq::<Atom>::empty();
        let node = bracket.enclose(group, depth, loopdepth);
        if s[i].is_char(bracket.open_char()) {
            let g = if level == 0 {
                group
            } else {
                group.push(s[i])
            };
            lemma_brackets_suffix(s, i + 1, t, j + 1, level + 1, g, acc, bracket, depth, loopdepth, kind);
        } else if s[i].is_char(bracket.close_char()) {
            if level == 1 {
                lemma_brackets_suffix(s, i + 1, t, j + 1, 0, none, acc.push(node), bracket, depth, loopdepth, kind);
            } else if level > 1 {
                lemma_brackets_suffix(
                    s,
                    i + 1,
                    t,
                    j + 1,
                    (level - 1) as nat,
                    group.push(s[i]),
                    acc,
                    bracket,
                    depth,
                    loopdepth,
                    kind,
                );
            }
        } else if level == 0 {
            lemma_brackets_suffix(s, i + 1, t, j + 1, level, group, acc.push(s[i]), bracket, depth, loopdepth, kind);
        } else {
            match regroup(s[i], depth, loopdepth) {
                Some(a) => {
                    lemma_brackets_suffix(s, i + 1, t, j + 1, level, group.push(a), acc, bracket, depth, loopdepth, kind);
                },
                None => {},
            }
        }
    }
}

/// A bracket pass only adds to its output: what it puts out is the output
/// so far followed by what it puts out when it starts with no output.
pub proof fn lemma_brackets_append(
    s: Seq<Atom>,
    i: int,
    level: nat,
    group: Seq<Atom>,
    acc: Seq<Atom>,
    bracket: Bracket,
    depth: isize,
    loopdepth: isize,
    kind: ParserKind,
)
    requires
        0 <= i <= s.len(),
    ensures
        group_brackets_from(s, i, level, group, acc, bracket, depth, loopdepth, kind) == after(
            acc,
            group_brackets_from(s, i, level, group, Seq::empty(), bracket, depth, loopdepth, kind),
        ),
    decreases s.len() - i,
{
    let none = Seq::<Atom>::empty();
    if i < s.len() {
        let node = bracket.enclose(group, depth, loopdepth);
        if s[i].is_char(bracket.open_char()) {
            let g = if level == 0 {
                group
            } else {
                group.push(s[i])
            };
            lemma_brackets_append(s, i + 1, level + 1, g, acc, bracket, depth, loopdepth, kind);
        } else if s[i].is_char(bracket.close_char()) {
            if level == 1 {
                lemma_brackets_append(s, i + 1, 0, none, acc.push(node), bracket, depth, loopdepth, kind);
                lemma_brackets_append(s, i + 1, 0, none, none.push(node), bracket, depth, loopdepth, kind);
                let rest = group_brackets_from(s, i + 1, 0, none, none, bracket, depth, loopdepth, kind);
                if rest is Ok {
                    assert(acc.push(node) + rest->Ok_0 =~= acc + (none.push(node) + rest->Ok_0));
                }
            } else if level > 1 {
                lemma_brackets_append(s, i + 1, (level - 1) as nat, group.push(s[i]), acc, bracket, depth, loopdepth, kind);
            }
        } else if level == 0 {
            lemma_brackets_append(s, i + 1, level, group, acc.push(s[i]), bracket, depth, loopdepth, kind);
            lemma_brackets_append(s, i + 1, level, group, none.push(s[i]), bracket, depth, loopdepth, kind);
            let rest = group_brackets_from(s, i + 1, level, group, none, bracket, depth, loopdepth, kind);
            if rest is Ok {
                assert(acc.push(s[i]) + rest->Ok_0 =~= acc + (none.push(s[i]) + rest->Ok_0));
            }
        } else {
            match regroup(s[i], depth, loopdepth) {
                Some(a) => {
                    lemma_brackets_append(s, i + 1, level, group.push(a), acc, bracket, depth, loopdepth, kind);
                },
                None => {},
            }
        }
    } else {
        assert(acc + none =~= acc);
    }
}

/// Whether a run holds no quote and no start of a comment: the quote and
/// comment pass has been over it, or there was nothing for that pass to find.
pub open spec fn quiet(s: Seq<Atom>) -> bool {
    &&& forall|i: int| 0 <= i < s.len() ==> !(#[trigger] s[i]).is_char('"')
    &&& forall|i: int|
        0 <= i < s.len() - 1 && (#[trigger] s[i]).is_char('/') ==> !s[i + 1].is_char('*') && !s[i + 1].is_char('/')
}

/// Whether an atom is an opening bracket of any kind.
pub open spec fn is_opener(a: Atom) -> bool {
    a.is_char('(') || a.is_char('[') || a.is_char('{')
}

/// Whether an atom is a closing bracket of any kind.
pub open spec fn is_closer(a: Atom) -> bool {
    a.is_char(')') || a.is_char(']') || a.is_char('}')
}

/// Whether an atom is a character of a word that is no bracket.
pub open spec fn is_name_char(a: Atom) -> bool {
    is_word_char(a) && !is_opener(a) && !is_closer(a)
}

/// Whether white space may be put at position `at` of a run: anywhere but
/// between two characters of one word.
pub open spec fn fits_space(s: Seq<Atom>, at: int) -> bool {
    &&& 0 <= at <= s.len()
    &&& !(0 < at < s.len() && is_name_char(s[at - 1]) && is_name_char(s[at]))
}

/// Whether `t` is `s` with the white space `space` put at position `at`,
/// where it may be put.
pub open spec fn spaced_at(s: Seq<Atom>, t: Seq<Atom>, at: int, space: Atom) -> bool {
    &&& is_space(space)
    &&& fits_space(s, at)
    &&& quiet(s)
    &&& t == s.insert(at, space)
}

/// Whether `t` is `s` with one more white space, put where it may be put.
pub open spec fn spaced(s: Seq<Atom>, t: Seq<Atom>) -> bool {
    exists|at: int, space: Atom| spaced_at(s, t, at, space)
}

/// Whether two trees differ by white space at most: they are the same, but
/// that one unresolved run somewhere in the second may hold one more white
/// space than the run at its place in the first.
pub open spec fn akin(a: Atom, b: Atom) -> bool
    decreases a, 0nat,
{
    match a {
        Atom::Block { contents, depth, loopdepth, resolved } => {
            if resolved {
                a == b
            } else {
                b is Block && b->Block_depth == depth && b->Block_loopdepth == loopdepth && !b->Block_resolved
                    && akin_run(contents, b->Block_contents)
            }
        },
        Atom::ListBlock { contents, depth, loopdepth, resolved } => {
            if resolved {
                a == b
            } else {
                b is ListBlock && b->ListBlock_depth == depth && b->ListBlock_loopdepth == loopdepth
                    && !b->ListBlock_resolved && akin_run(contents, b->ListBlock_contents)
            }
        },
        Atom::ParenBlock { contents, depth, loopdepth, resolved } => {
            if resolved {
                a == b
            } else {
                b is ParenBlock && b->ParenBlock_depth == depth && b->ParenBlock_loopdepth == loopdepth
                    && !b->ParenBlock_resolved && akin_run(contents, b->ParenBlock_contents)
            }
        },
        Atom::Item { contents, depth, loopdepth, resolved } => {
            if resolved {
                a == b
            } else {
                b is Item && b->Item_depth == depth && b->Item_loopdepth == loopdepth && !b->Item_resolved
                    && akin_run(contents, b->Item_contents)
            }
        },
        Atom::Expr { code_list, depth, loopdepth, resolved } => {
            if resolved {
                a == b
            } else {
                b is Expr && b->Expr_depth == depth && b->Expr_loopdepth == loopdepth && !b->Expr_resolved
                    && akin_run(code_list, b->Expr_code_list)
            }
        },
        Atom::Special { head, code_list, depth, loopdepth, resolved } => {
            if resolved {
                a == b
            } else {
                b is Special && b->Special_head == head && b->Special_depth == depth && b->Special_loopdepth
                    == loopdepth && !b->Special_resolved && akin_run(code_list, b->Special_code_list)
            }
        },
        Atom::Syntax { name, expr, contents, depth, loopdepth, resolved } => {
            if resolved {
                a == b
            } else {
                b is Syntax && b->Syntax_name == name && b->Syntax_depth == depth && b->Syntax_loopdepth
                    == loopdepth && !b->Syntax_resolved && akin_run(expr, b->Syntax_expr) && akin_run(
                    contents,
                    b->Syntax_contents,
                )
            }
        },
        Atom::SyntaxBox { name, contents, depth, loopdepth } => {
            b is SyntaxBox && b->SyntaxBox_name == name && b->SyntaxBox_depth == depth && b->SyntaxBox_loopdepth
                == loopdepth && akin_pairs(contents, b->SyntaxBox_contents)
        },
        Atom::Func { callee, contents, depth, loopdepth, resolved } => {
            if resolved {
                a == b
            } else {
                b is Func && b->Func_depth == depth && b->Func_loopdepth == loopdepth && !b->Func_resolved && akin(
                    *callee,
                    *b->Func_callee,
                ) && akin_pairs(contents, b->Func_contents)
            }
        },
        Atom::List { callee, contents, depth, loopdepth, resolved } => {
            if resolved {
                a == b
            } else {
                b is List && b->List_depth == depth && b->List_loopdepth == loopdepth && !b->List_resolved && akin(
                    *callee,
                    *b->List_callee,
                ) && akin_pairs(contents, b->List_contents)
            }
        },
        _ => a == b,
    }
}

/// Whether two runs are as long as each other and their trees differ by
/// white space at most, in pairs.
pub open spec fn akin_pairs(s: Seq<Atom>, t: Seq<Atom>) -> bool
    decreases s, 1nat,
{
    s.len() == t.len() && forall|i: int| 0 <= i < s.len() ==> akin(#[trigger] s[i], t[i])
}

/// Whether two unresolved runs differ by white space at most: their trees
/// do in pairs, or the second is the first with one more white space.
pub open spec fn akin_run(s: Seq<Atom>, t: Seq<Atom>) -> bool
    decreases s, 2nat,
{
    akin_pairs(s, t) || spaced(s, t)
}

/// The relation of differing by white space at most.
pub open spec fn kinship() -> Likeness {
    |a: Atom, b: Atom| akin(a, b)
}

/// Runs whose trees differ by white space at most in pairs differ by white space at most.
pub proof fn lemma_akin_run_of_pairs(s: Seq<Atom>, t: Seq<Atom>)
    requires
        akin_pairs(s, t),
    ensures
        akin_run(s, t),
{
}

/// Every tree differs from itself by white space at most.
pub proof fn lemma_akin_self(a: Atom)
    ensures
        akin(a, a),
    decreases a, 0nat,
{
    match a {
        Atom::Block { contents, .. } => {
            lemma_akin_pairs_self(contents);
            lemma_akin_run_of_pairs(contents, contents);
        },
        Atom::ListBlock { contents, .. } => {
            lemma_akin_pairs_self(contents);
            lemma_akin_run_of_pairs(contents, contents);
        },
        Atom::ParenBlock { contents, .. } => {
            lemma_akin_pairs_self(contents);
            lemma_akin_run_of_pairs(contents, contents);
        },
        Atom::Item { contents, .. } => {
            lemma_akin_pairs_self(contents);
            lemma_akin_run_of_pairs(contents, contents);
        },
        Atom::Expr { code_list, .. } => {
            lemma_akin_pairs_self(code_list);
            lemma_akin_run_of_pairs(code_list, code_list);
        },
        Atom::Special { code_list, .. } => {
            lemma_akin_pairs_self(code_list);
            lemma_akin_run_of_pairs(code_list, code_list);
        },
        Atom::Syntax { expr, contents, .. } => {
            lemma_akin_pairs_self(expr);
            lemma_akin_pairs_self(contents);
            lemma_akin_run_of_pairs(expr, expr);
            lemma_akin_run_of_pairs(contents, contents);
        },
        Atom::SyntaxBox { contents, .. } => {
            lemma_akin_pairs_self(contents);
        },
        Atom::Func { callee, contents, .. } => {
            lemma_akin_self(*callee);
            lemma_akin_pairs_self(contents);
        },
        Atom::List { callee, contents, .. } => {
            lemma_akin_self(*callee);
            lemma_akin_pairs_self(contents);
        },
        _ => {},
    }
}

/// Every run differs from itself by white space at most.
pub proof fn lemma_akin_pairs_self(s: Seq<Atom>)
    ensures
        akin_pairs(s, s),
    decreases s, 1nat,
{
    assert forall|i: int| 0 <= i < s.len() implies akin(#[trigger] s[i], s[i]) by {
        lemma_akin_self(s[i]);
    }
}

/// Runs whose atoms are related in pairs differ by white space at most, and the other way round.
pub proof fn lemma_pairs_are_akin(s: Seq<Atom>, t: Seq<Atom>)
    ensures
        pairs(s, t, kinship()) <==> akin_pairs(s, t),
{
    if pairs(s, t, kinship()) {
        assert forall|i: int| 0 <= i < s.len() implies akin(#[trigger] s[i], t[i]) by {
            assert(kinship()(s[i], t[i]));
        }
    }
    if akin_pairs(s, t) {
        assert forall|i: int| 0 <= i < s.len() implies #[trigger] kinship()(s[i], t[i]) by {
            assert(akin(s[i], t[i]));
        }
    }
}

/// The passes keep the relation of differing by white space at most.
pub proof fn lemma_kinship_is_congruent(depth: isize, loopdepth: isize)
    ensures
        congruent(kinship(), depth, loopdepth),
{
    let r = kinship();
    assert forall|x: Atom| is_leaf(x) implies #[trigger] r(x, x) by {
        lemma_akin_self(x);
    }
    assert forall|a: Atom, b: Atom| #[trigger] r(a, b) implies same_head(a, b) by {
        assert(akin(a, b));
    }
    assert forall|a: Atom, b: Atom| #[trigger] r(a, b) && regroup(a, depth, loopdepth) is Some implies regroup(
        b,
        depth,
        loopdepth,
    ) is Some && r(regroup(a, depth, loopdepth)->0, regroup(b, depth, loopdepth)->0) by {
        assert(akin(a, b));
        let x = regroup(a, depth, loopdepth)->0;
        match a {
            Atom::Block { contents, resolved, .. } => {
                if resolved {
                    lemma_akin_self(x);
                }
            },
            Atom::ListBlock { contents, resolved, .. } => {
                if resolved {
                    lemma_akin_self(x);
                }
            },
            Atom::ParenBlock { contents, resolved, .. } => {
                if resolved {
                    lemma_akin_self(x);
                }
            },
            _ => {},
        }
    }
    assert forall|bracket: Bracket, g: Seq<Atom>, h: Seq<Atom>| pairs(g, h, r) implies #[trigger] r(
        bracket.enclose(g, depth, loopdepth),
        bracket.enclose(h, depth, loopdepth),
    ) by {
        lemma_pairs_are_akin(g, h);
        lemma_akin_run_of_pairs(g, h);
        lemma_akin_run_of_pairs(g, h);
    }
    assert forall|nm: Seq<char>, c: Option<Atom>, d: Option<Atom>, a: Atom, b: Atom|
        both(c, d, r) && r(a, b) && a is Block implies #[trigger] r(
        Atom::Syntax {
            name: nm,
            expr: clause_condition(c),
            contents: a->Block_contents,
            depth,
            loopdepth,
            resolved: false,
        },
        Atom::Syntax {
            name: nm,
            expr: clause_condition(d),
            contents: b->Block_contents,
            depth,
            loopdepth,
            resolved: false,
        },
    ) by {
        assert(akin(a, b));
        lemma_akin_pairs_self(a->Block_contents);
        lemma_akin_run_of_pairs(a->Block_contents, a->Block_contents);
        assert(akin_run(a->Block_contents, b->Block_contents));
        lemma_akin_pairs_self(clause_condition(c));
        lemma_akin_run_of_pairs(clause_condition(c), clause_condition(c));
        match (c, d) {
            (Some(x), Some(y)) => {
                assert(akin(x, y));
            },
            _ => {},
        }
        assert(akin_run(clause_condition(c), clause_condition(d)));
    }
    assert forall|nm: Seq<char>, g: Seq<Atom>, h: Seq<Atom>| pairs(g, h, r) implies #[trigger] r(
        Atom::SyntaxBox { name: nm, contents: g, depth, loopdepth },
        Atom::SyntaxBox { name: nm, contents: h, depth, loopdepth },
    ) by {
        lemma_pairs_are_akin(g, h);
    }
    assert forall|c: Atom, d: Atom, x: Atom, y: Atom| r(c, d) && r(x, y) implies #[trigger] r(
        new_index(c, x, depth, loopdepth),
        new_index(d, y, depth, loopdepth),
    ) by {
        assert(akin(c, d) && akin(x, y));
        assert(akin_pairs(seq![x], seq![y])) by {
            assert(seq![x][0] == x && seq![y][0] == y);
        }
    }
    assert forall|c: Atom, d: Atom, x: Atom, y: Atom| r(c, d) && r(x, y) implies #[trigger] r(
        new_call(c, x, depth, loopdepth),
        new_call(d, y, depth, loopdepth),
    ) by {
        assert(akin(c, d) && akin(x, y));
        assert(akin_pairs(seq![x], seq![y])) by {
            assert(seq![x][0] == x && seq![y][0] == y);
        }
    }
    assert forall|c: Atom, d: Atom, l: Seq<Atom>, m: Seq<Atom>, u: Seq<Atom>, v: Seq<Atom>|
        r(c, d) && pairs(l, m, r) && pairs(u, v, r) implies #[trigger] r(
        new_operation(c, l, u, depth, loopdepth),
        new_operation(d, m, v, depth, loopdepth),
    ) by {
        assert(akin(c, d));
        lemma_pairs_are_akin(l, m);
        lemma_pairs_are_akin(u, v);
        lemma_akin_run_of_pairs(l, m);
        lemma_akin_run_of_pairs(u, v);
        let left = Atom::Item { contents: l, depth, loopdepth, resolved: false };
        let left_t = Atom::Item { contents: m, depth, loopdepth, resolved: false };
        let right = Atom::Item { contents: u, depth, loopdepth, resolved: false };
        let right_t = Atom::Item { contents: v, depth, loopdepth, resolved: false };
        assert(akin(left, left_t));
        assert(akin(right, right_t));
        assert(akin_pairs(seq![left, right], seq![left_t, right_t])) by {
            assert(seq![left, right][0] == left && seq![left, right][1] == right);
            assert(seq![left_t, right_t][0] == left_t && seq![left_t, right_t][1] == right_t);
        }
    }
    assert forall|g: Seq<Atom>, h: Seq<Atom>| pairs(g, h, r) implies #[trigger] r(
        Atom::Expr { code_list: g, depth, loopdepth, resolved: false },
        Atom::Expr { code_list: h, depth, loopdepth, resolved: false },
    ) by {
        lemma_pairs_are_akin(g, h);
        lemma_akin_run_of_pairs(g, h);
    }
    assert forall|head: Seq<char>, g: Seq<Atom>, h: Seq<Atom>| pairs(g, h, r) implies #[trigger] r(
        Atom::Special { head, code_list: g, depth, loopdepth, resolved: false },
        Atom::Special { head, code_list: h, depth, loopdepth, resolved: false },
    ) by {
        lemma_pairs_are_akin(g, h);
        lemma_akin_run_of_pairs(g, h);
    }
    assert forall|g: Seq<Atom>, h: Seq<Atom>| pairs(g, h, r) implies #[trigger] r(
        Atom::Item { contents: g, depth, loopdepth, resolved: false },
        Atom::Item { contents: h, depth, loopdepth, resolved: false },
    ) by {
        lemma_pairs_are_akin(g, h);
        lemma_akin_run_of_pairs(g, h);
    }
}

/// A run with white space put into it holds no quote and no start of a
/// comment where it held none before.
pub proof fn lemma_quiet_insert(s: Seq<Atom>, at: int, space: Atom)
    requires
        quiet(s),
        0 <= at <= s.len(),
        is_space(space),
    ensures
        quiet(s.insert(at, space)),
{
    let t = s.insert(at, space);
    assert forall|i: int| 0 <= i < t.len() implies !(#[trigger] t[i]).is_char('"') by {
        if i < at {
            assert(t[i] == s[i]);
        } else if i > at {
            assert(t[i] == s[i - 1]);
        }
    }
    assert forall|i: int| 0 <= i < t.len() - 1 && (#[trigger] t[i]).is_char('/') implies !t[i + 1].is_char('*')
        && !t[i + 1].is_char('/') by {
        if i + 1 < at {
            assert(t[i] == s[i] && t[i + 1] == s[i + 1]);
        } else if i + 1 == at {
        } else if i == at {
        } else {
            assert(t[i] == s[i - 1] && t[i + 1] == s[i]);
        }
    }
}

/// The quote and comment pass leaves a run as it is that holds no quote and
/// no start of a comment.
pub proof fn lemma_strings_keep_quiet(s: Seq<Atom>, i: int, depth: isize, loopdepth: isize, kind: ParserKind)
    requires
        0 <= i <= s.len(),
        quiet(s),
    ensures
        group_strings_from(
            s,
            i,
            StringAreaState::Closed,
            false,
            Seq::empty(),
            s.take(i),
            depth,
            loopdepth,
            kind,
        ) == Ok::<Seq<Atom>, ParserError>(s),
    decreases s.len() - i,
{
    if i < s.len() {
        assert(!s[i].is_char('"'));
        if s[i].is_char('/') && i + 1 < s.len() {
            assert(!s[i + 1].is_char('*') && !s[i + 1].is_char('/'));
        }
        assert(s.take(i).push(s[i]) =~= s.take(i + 1));
        lemma_strings_keep_quiet(s, i + 1, depth, loopdepth, kind);
    } else {
        assert(s.take(i) =~= s);
    }
}

/// The quotation pass of the argument splitter leaves a run as it is that holds no quote.
pub proof fn lemma_quotes_keep_quiet(s: Seq<Atom>, i: int, depth: isize, loopdepth: isize)
    requires
        0 <= i <= s.len(),
        quiet(s),
    ensures
        group_quotes_from(s, i, false, false, Seq::empty(), s.take(i), depth, loopdepth) == Ok::<
            Seq<Atom>,
            ParserError,
        >(s),
    decreases s.len() - i,
{
    if i < s.len() {
        assert(!s[i].is_char('"'));
        assert(s.take(i).push(s[i]) =~= s.take(i + 1));
        lemma_quotes_keep_quiet(s, i + 1, depth, loopdepth);
    } else {
        assert(s.take(i) =~= s);
    }
}

/// Whether the last atom of what a scan has put out, where it is a
/// character, is the atom that the scan has read last.
pub open spec fn linked(acc: Seq<Atom>, s: Seq<Atom>, i: int) -> bool {
    acc.len() > 0 && acc.last() is Unknown ==> 0 < i <= s.len() && acc.last() == s[i - 1]
}

/// Whether the atoms that a bracket pass has taken into the open bracket
/// are the atoms of the run from position `k` on, place by place, where
/// either is a character.
pub open spec fn mirrors(group: Seq<Atom>, s: Seq<Atom>, k: int, i: int) -> bool {
    &&& 0 <= k <= i <= s.len()
    &&& group.len() == i - k
    &&& forall|j: int|
        0 <= j < group.len() && ((#[trigger] group[j]) is Unknown || s[k + j] is Unknown) ==> group[j] == s[k + j]
}

/// What holds of the state of a bracket pass over a run that holds no quote
/// and no start of a comment, when it has read the first `i` atoms: the
/// output holds none either, and where a bracket is open, it was opened right
/// before position `k` and holds the atoms from there on.
pub open spec fn scanning(
    s: Seq<Atom>,
    i: int,
    level: nat,
    group: Seq<Atom>,
    acc: Seq<Atom>,
    k: int,
    bracket: Bracket,
) -> bool {
    &&& 0 <= i <= s.len()
    &&& quiet(acc)
    &&& level == 0 ==> group.len() == 0 && linked(acc, s, i) && (acc.len() == 0 ==> i == 0)
    &&& level > 0 ==> mirrors(group, s, k, i) && k > 0 && s[k - 1].is_char(bracket.open_char())
}

/// A run with one more atom holds no quote and no start of a comment where
/// the run held none, the atom is no quote, and the two atoms at the seam
/// start no comment.
pub proof fn lemma_quiet_push(acc: Seq<Atom>, a: Atom)
    requires
        quiet(acc),
        !a.is_char('"'),
        acc.len() > 0 && acc.last().is_char('/') ==> !a.is_char('*') && !a.is_char('/'),
    ensures
        quiet(acc.push(a)),
{
    let t = acc.push(a);
    assert forall|i: int| 0 <= i < t.len() implies !(#[trigger] t[i]).is_char('"') by {
        if i < acc.len() {
            assert(t[i] == acc[i]);
        }
    }
    assert forall|i: int| 0 <= i < t.len() - 1 && (#[trigger] t[i]).is_char('/') implies !t[i + 1].is_char('*')
        && !t[i + 1].is_char('/') by {
        assert(t[i] == acc[i]);
        if i + 1 < acc.len() {
            assert(t[i + 1] == acc[i + 1]);
        } else {
            assert(acc.last() == acc[i]);
        }
    }
}

/// The atoms that a bracket holds hold no quote and no start of a comment
/// where the run that they were taken from holds none.
pub proof fn lemma_mirror_is_quiet(group: Seq<Atom>, s: Seq<Atom>, k: int, i: int)
    requires
        quiet(s),
        mirrors(group, s, k, i),
    ensures
        quiet(group),
{
    assert forall|j: int| 0 <= j < group.len() implies !(#[trigger] group[j]).is_char('"') by {
        if group[j] is Unknown {
            assert(group[j] == s[k + j]);
        }
    }
    assert forall|j: int| 0 <= j < group.len() - 1 && (#[trigger] group[j]).is_char('/') implies !group[j + 1].is_char(
        '*',
    ) && !group[j + 1].is_char('/') by {
        assert(group[j] == s[k + j]);
        if group[j + 1] is Unknown {
            assert(group[j + 1] == s[k + j + 1]);
        }
    }
}

/// A bracket pass over a run that holds no quote and no start of a comment
/// puts out a run that holds none.
pub proof fn lemma_brackets_keep_quiet(
    s: Seq<Atom>,
    i: int,
    level: nat,
    group: Seq<Atom>,
    acc: Seq<Atom>,
    k: int,
    bracket: Bracket,
    depth: isize,
    loopdepth: isize,
    kind: ParserKind,
)
    requires
        quiet(s),
        scanning(s, i, level, group, acc, k, bracket),
    ensures
        group_brackets_from(s, i, level, group, acc, bracket, depth, loopdepth, kind) is Ok ==> quiet(
            group_brackets_from(s, i, level, group, acc, bracket, depth, loopdepth, kind)->Ok_0,
        ),
    decreases s.len() - i,
{
    if i < s.len() {
        let none = Seq::<Atom>::empty();
        let node = bracket.enclose(group, depth, loopdepth);
        if s[i].is_char(bracket.open_char()) {
            if level == 0 {
                lemma_brackets_keep_quiet(s, i + 1, level + 1, group, acc, i + 1, bracket, depth, loopdepth, kind);
            } else {
                lemma_brackets_keep_quiet(s, i + 1, level + 1, group.push(s[i]), acc, k, bracket, depth, loopdepth, kind);
            }
        } else if s[i].is_char(bracket.close_char()) {
            if level == 1 {
                lemma_quiet_push(acc, node);
                lemma_brackets_keep_quiet(s, i + 1, 0, none, acc.push(node), k, bracket, depth, loopdepth, kind);
            } else if level > 1 {
                lemma_brackets_keep_quiet(
                    s,
                    i + 1,
                    (level - 1) as nat,
                    group.push(s[i]),
                    acc,
                    k,
                    bracket,
                    depth,
                    loopdepth,
                    kind,
                );
            }
        } else if level == 0 {
            assert(!s[i].is_char('"'));
            lemma_quiet_push(acc, s[i]);
            lemma_brackets_keep_quiet(s, i + 1, level, group, acc.push(s[i]), k, bracket, depth, loopdepth, kind);
        } else {
            match regroup(s[i], depth, loopdepth) {
                Some(a) => {
                    lemma_brackets_keep_quiet(s, i + 1, level, group.push(a), acc, k, bracket, depth, loopdepth, kind);
                },
                None => {},
            }
        }
    }
}

/// The first atom that a bracket pass puts out from a position on: the atom
/// at that position where it is a character, and a node otherwise; and it
/// puts out nothing at the end of the run only.
pub proof fn lemma_brackets_first(
    s: Seq<Atom>,
    i: int,
    level: nat,
    group: Seq<Atom>,
    bracket: Bracket,
    depth: isize,
    loopdepth: isize,
    kind: ParserKind,
)
    requires
        0 <= i <= s.len(),
        group_brackets_from(s, i, level, group, Seq::empty(), bracket, depth, loopdepth, kind) is Ok,
    ensures
        ({
            let d = group_brackets_from(s, i, level, group, Seq::empty(), bracket, depth, loopdepth, kind)->Ok_0;
            &&& level == 0 && d.len() == 0 ==> i == s.len()
            &&& level == 0 && d.len() > 0 && d[0] is Unknown ==> i < s.len() && d[0] == s[i]
            &&& level > 0 ==> d.len() > 0 && !(d[0] is Unknown)
        }),
    decreases s.len() - i,
{
    let none = Seq::<Atom>::empty();
    if i < s.len() {
        let node = bracket.enclose(group, depth, loopdepth);
        if s[i].is_char(bracket.open_char()) {
            let g = if level == 0 {
                group
            } else {
                group.push(s[i])
            };
            lemma_brackets_first(s, i + 1, level + 1, g, bracket, depth, loopdepth, kind);
        } else if s[i].is_char(bracket.close_char()) {
            if level == 1 {
                lemma_brackets_append(s, i + 1, 0, none, none.push(node), bracket, depth, loopdepth, kind);
                let rest = group_brackets_from(s, i + 1, 0, none, none, bracket, depth, loopdepth, kind)->Ok_0;
                assert((none.push(node) + rest)[0] == node);
            } else if level > 1 {
                lemma_brackets_first(s, i + 1, (level - 1) as nat, group.push(s[i]), bracket, depth, loopdepth, kind);
            }
        } else if level == 0 {
            lemma_brackets_append(s, i + 1, level, group, none.push(s[i]), bracket, depth, loopdepth, kind);
            let rest = group_brackets_from(s, i + 1, level, group, none, bracket, depth, loopdepth, kind)->Ok_0;
            assert((none.push(s[i]) + rest)[0] == s[i]);
        } else {
            match regroup(s[i], depth, loopdepth) {
                Some(a) => {
                    lemma_brackets_first(s, i + 1, level, group.push(a), bracket, depth, loopdepth, kind);
                },
                None => {},
            }
        }
    }
}

/// Every run is related to itself atom by atom.
pub proof fn lemma_pairs_self(s: Seq<Atom>)
    ensures
        pairs(s, s, kinship()),
{
    lemma_akin_pairs_self(s);
    lemma_pairs_are_akin(s, s);
}

/// White space inside a bracket stays inside it: where the atoms that an
/// open bracket holds differ by one white space, the bracket pass puts out
/// two runs that differ in what the node for that bracket holds, by that
/// white space, and in nothing else.
pub proof fn lemma_brackets_group_spaced(
    s: Seq<Atom>,
    i: int,
    at: int,
    space: Atom,
    level: nat,
    group: Seq<Atom>,
    acc: Seq<Atom>,
    k: int,
    bracket: Bracket,
    depth: isize,
    loopdepth: isize,
    kind: ParserKind,
)
    requires
        quiet(s),
        fits_space(s, at),
        is_space(space),
        level > 0,
        mirrors(group, s, k, i),
        0 < k <= at <= i,
        s[k - 1].is_char(bracket.open_char()),
    ensures
        outcomes(
            group_brackets_from(s, i, level, group, acc, bracket, depth, loopdepth, kind),
            group_brackets_from(s, i, level, group.insert(at - k, space), acc, bracket, depth, loopdepth, kind),
            kinship(),
        ),
    decreases s.len() - i,
{
    let q = at - k;
    let group_t = group.insert(q, space);
    let none = Seq::<Atom>::empty();
    if i < s.len() {
        if s[i].is_char(bracket.open_char()) {
            assert(group_t.push(s[i]) =~= group.push(s[i]).insert(q, space));
            lemma_brackets_group_spaced(
                s,
                i + 1,
                at,
                space,
                level + 1,
                group.push(s[i]),
                acc,
                k,
                bracket,
                depth,
                loopdepth,
                kind,
            );
        } else if s[i].is_char(bracket.close_char()) {
            if level == 1 {
                let node = bracket.enclose(group, depth, loopdepth);
                let node_t = bracket.enclose(group_t, depth, loopdepth);
                lemma_mirror_is_quiet(group, s, k, i);
                assert(fits_space(group, q)) by {
                    if 0 < q < group.len() {
                        if group[q - 1] is Unknown {
                            assert(group[q - 1] == s[k + (q - 1)]);
                        }
                        if group[q] is Unknown {
                            assert(group[q] == s[k + q]);
                        }
                    }
                }
                assert(spaced_at(group, group_t, q, space));
                assert(spaced(group, group_t));
                assert(akin_run(group, group_t));
                assert(akin(node, node_t));
                lemma_pairs_self(acc);
                lemma_pairs_push(acc, acc, node, node_t, kinship());
                lemma_pairs_self(s);
                lemma_pairs_empty(kinship());
                lemma_kinship_is_congruent(depth, loopdepth);
                lemma_brackets_pairs(
                    s,
                    s,
                    i + 1,
                    0,
                    none,
                    none,
                    acc.push(node),
                    acc.push(node_t),
                    bracket,
                    depth,
                    loopdepth,
                    kind,
                    kinship(),
                );
            } else {
                assert(group_t.push(s[i]) =~= group.push(s[i]).insert(q, space));
                lemma_brackets_group_spaced(
                    s,
                    i + 1,
                    at,
                    space,
                    (level - 1) as nat,
                    group.push(s[i]),
                    acc,
                    k,
                    bracket,
                    depth,
                    loopdepth,
                    kind,
                );
            }
        } else {
            match regroup(s[i], depth, loopdepth) {
                Some(a) => {
                    assert(group_t.push(a) =~= group.push(a).insert(q, space));
                    lemma_brackets_group_spaced(
                        s,
                        i + 1,
                        at,
                        space,
                        level,
                        group.push(a),
                        acc,
                        k,
                        bracket,
                        depth,
                        loopdepth,
                        kind,
                    );
                },
                None => {},
            }
        }
    }
}

/// Whether two outcomes are the same failure, or successes that differ by
/// white space at most.
pub open spec fn related(a: Result<Seq<Atom>, ParserError>, b: Result<Seq<Atom>, ParserError>) -> bool {
    match (a, b) {
        (Ok(x), Ok(y)) => akin_run(x, y),
        (Err(e), Err(f)) => e == f,
        _ => false,
    }
}

/// A bracket pass keeps one more white space where it is: at its place in
/// the output, or inside the node for the bracket in which it stands.
pub proof fn lemma_brackets_spaced(
    s: Seq<Atom>,
    t: Seq<Atom>,
    at: int,
    space: Atom,
    i: int,
    level: nat,
    group: Seq<Atom>,
    acc: Seq<Atom>,
    k: int,
    bracket: Bracket,
    depth: isize,
    loopdepth: isize,
    kind: ParserKind,
)
    requires
        spaced_at(s, t, at, space),
        scanning(s, i, level, group, acc, k, bracket),
        i <= at,
    ensures
        related(
            group_brackets_from(s, i, level, group, acc, bracket, depth, loopdepth, kind),
            group_brackets_from(t, i, level, group, acc, bracket, depth, loopdepth, kind),
        ),
    decreases at - i,
{
    let none = Seq::<Atom>::empty();
    let r = kinship();
    if i < at {
        assert(t[i] == s[i]);
        let node = bracket.enclose(group, depth, loopdepth);
        if s[i].is_char(bracket.open_char()) {
            if level == 0 {
                lemma_brackets_spaced(s, t, at, space, i + 1, level + 1, group, acc, i + 1, bracket, depth, loopdepth, kind);
            } else {
                lemma_brackets_spaced(
                    s,
                    t,
                    at,
                    space,
                    i + 1,
                    level + 1,
                    group.push(s[i]),
                    acc,
                    k,
                    bracket,
                    depth,
                    loopdepth,
                    kind,
                );
            }
        } else if s[i].is_char(bracket.close_char()) {
            if level == 1 {
                lemma_quiet_push(acc, node);
                lemma_brackets_spaced(s, t, at, space, i + 1, 0, none, acc.push(node), k, bracket, depth, loopdepth, kind);
            } else if level > 1 {
                lemma_brackets_spaced(
                    s,
                    t,
                    at,
                    space,
                    i + 1,
                    (level - 1) as nat,
                    group.push(s[i]),
                    acc,
                    k,
                    bracket,
                    depth,
                    loopdepth,
                    kind,
                );
            }
        } else if level == 0 {
            assert(!s[i].is_char('"'));
            lemma_quiet_push(acc, s[i]);
            lemma_brackets_spaced(s, t, at, space, i + 1, level, group, acc.push(s[i]), k, bracket, depth, loopdepth, kind);
        } else {
            match regroup(s[i], depth, loopdepth) {
                Some(a) => {
                    lemma_brackets_spaced(s, t, at, space, i + 1, level, group.push(a), acc, k, bracket, depth, loopdepth, kind);
                },
                None => {},
            }
        }
    } else {
        assert(t[at] == space);
        assert(t.skip(at + 1) =~= s.skip(at));
        assert(regroup(space, depth, loopdepth) == Some(space));
        if level == 0 {
            let acc_t = acc.push(space);
            lemma_brackets_suffix(t, at + 1, s, at, level, group, acc_t, bracket, depth, loopdepth, kind);
            lemma_brackets_append(s, at, level, group, acc, bracket, depth, loopdepth, kind);
            lemma_brackets_append(s, at, level, group, acc_t, bracket, depth, loopdepth, kind);
            let rest = group_brackets_from(s, at, level, group, none, bracket, depth, loopdepth, kind);
            if rest is Ok {
                let d = rest->Ok_0;
                let x = acc + d;
                let y = acc_t + d;
                let p = acc.len() as int;
                assert(y =~= x.insert(p, space));
                lemma_brackets_keep_quiet(s, at, level, group, acc, k, bracket, depth, loopdepth, kind);
                lemma_brackets_first(s, at, level, group, bracket, depth, loopdepth, kind);
                if p > 0 {
                    assert(x[p - 1] == acc.last());
                }
                if p < x.len() {
                    assert(x[p] == d[0]);
                }
                assert(fits_space(x, p));
                assert(spaced_at(x, y, p, space));
            }
        } else {
            let group_t = group.push(space);
            assert(group_t =~= group.insert(at - k, space));
            lemma_brackets_suffix(t, at + 1, s, at, level, group_t, acc, bracket, depth, loopdepth, kind);
            lemma_brackets_group_spaced(s, at, at, space, level, group, acc, k, bracket, depth, loopdepth, kind);
            let a = group_brackets_from(s, at, level, group, acc, bracket, depth, loopdepth, kind);
            let b = group_brackets_from(s, at, level, group_t, acc, bracket, depth, loopdepth, kind);
            if a is Ok {
                lemma_pairs_are_akin(a->Ok_0, b->Ok_0);
            }
        }
    }
}

/// A bracket pass keeps two runs that differ by white space at most as they
/// are to each other: it fails on both in the same way, or puts out two runs
/// that differ by white space at most.
pub proof fn lemma_brackets_related(
    x: Seq<Atom>,
    y: Seq<Atom>,
    bracket: Bracket,
    depth: isize,
    loopdepth: isize,
    kind: ParserKind,
)
    requires
        akin_run(x, y),
    ensures
        related(
            group_brackets(x, bracket, depth, loopdepth, kind),
            group_brackets(y, bracket, depth, loopdepth, kind),
        ),
{
    let none = Seq::<Atom>::empty();
    if akin_pairs(x, y) {
        lemma_pairs_are_akin(x, y);
        lemma_pairs_empty(kinship());
        lemma_kinship_is_congruent(depth, loopdepth);
        lemma_brackets_pairs(x, y, 0, 0, none, none, none, none, bracket, depth, loopdepth, kind, kinship());
        let a = group_brackets(x, bracket, depth, loopdepth, kind);
        let b = group_brackets(y, bracket, depth, loopdepth, kind);
        if a is Ok {
            lemma_pairs_are_akin(a->Ok_0, b->Ok_0);
        }
    } else {
        let (at, space) = choose|at: int, space: Atom| spaced_at(x, y, at, space);
        lemma_brackets_spaced(x, y, at, space, 0, 0, none, none, 0, bracket, depth, loopdepth, kind);
    }
}

/// A bracket pass brings no bracket of another kind into the stream.
pub proof fn lemma_brackets_keep_none(
    s: Seq<Atom>,
    bracket: Bracket,
    other: Bracket,
    depth: isize,
    loopdepth: isize,
    kind: ParserKind,
)
    requires
        each(s, no_bracket(other)),
        group_brackets(s, bracket, depth, loopdepth, kind) is Ok,
    ensures
        each(group_brackets(s, bracket, depth, loopdepth, kind)->Ok_0, no_bracket(other)),
{
    let p = no_bracket(other);
    assert(each(Seq::<Atom>::empty(), p));
    lemma_brackets_each(s, 0, 0, Seq::empty(), Seq::empty(), bracket, depth, loopdepth, kind, p, p, p);
}

/// The lexical passes leave no bracket in the stream: where they succeed,
/// every bracket has become part of a node.
pub proof fn lemma_lexed_has_no_brackets(s: Seq<Atom>, depth: isize, loopdepth: isize, kind: ParserKind)
    requires
        lexed(s, depth, loopdepth, kind) is Ok,
    ensures
        forall|j: int|
            0 <= j < lexed(s, depth, loopdepth, kind)->Ok_0.len() ==> !is_opener(
                #[trigger] lexed(s, depth, loopdepth, kind)->Ok_0[j],
            ) && !is_closer(lexed(s, depth, loopdepth, kind)->Ok_0[j]),
{
    let s1 = group_strings(s, depth, loopdepth, kind)->Ok_0;
    let s2 = group_brackets(s1, Bracket::Brace, depth, loopdepth, kind)->Ok_0;
    let s3 = group_brackets(s2, Bracket::List, depth, loopdepth, kind)->Ok_0;
    let s4 = group_brackets(s3, Bracket::Paren, depth, loopdepth, kind)->Ok_0;
    lemma_brackets_leave_none(s1, Bracket::Brace, depth, loopdepth, kind);
    lemma_brackets_keep_none(s2, Bracket::List, Bracket::Brace, depth, loopdepth, kind);
    lemma_brackets_leave_none(s2, Bracket::List, depth, loopdepth, kind);
    lemma_brackets_keep_none(s3, Bracket::Paren, Bracket::Brace, depth, loopdepth, kind);
    lemma_brackets_keep_none(s3, Bracket::Paren, Bracket::List, depth, loopdepth, kind);
    lemma_brackets_leave_none(s3, Bracket::Paren, depth, loopdepth, kind);
    assert forall|j: int| 0 <= j < s4.len() implies !is_opener(#[trigger] s4[j]) && !is_closer(s4[j]) by {
        assert(no_bracket(Bracket::Brace)(s4[j]));
        assert(no_bracket(Bracket::List)(s4[j]));
        assert(no_bracket(Bracket::Paren)(s4[j]));
    }
}

/// The lexical passes keep two runs that differ by white space at most as
/// they are to each other.
pub proof fn lemma_lexed_related(
    s: Seq<Atom>,
    t: Seq<Atom>,
    depth: isize,
    loopdepth: isize,
    kind: ParserKind,
)
    requires
        akin_run(s, t),
    ensures
        related(lexed(s, depth, loopdepth, kind), lexed(t, depth, loopdepth, kind)),
{
    let none = Seq::<Atom>::empty();
    let a1 = group_strings(s, depth, loopdepth, kind);
    let b1 = group_strings(t, depth, loopdepth, kind);
    assert(related(a1, b1)) by {
        if akin_pairs(s, t) {
            lemma_pairs_are_akin(s, t);
            lemma_pairs_empty(kinship());
            lemma_kinship_is_congruent(depth, loopdepth);
            lemma_strings_pairs(
                s,
                t,
                0,
                StringAreaState::Closed,
                false,
                Seq::empty(),
                none,
                none,
                depth,
                loopdepth,
                kind,
                kinship(),
            );
            if a1 is Ok {
                lemma_pairs_are_akin(a1->Ok_0, b1->Ok_0);
            }
        } else {
            let (at, space) = choose|at: int, space: Atom| spaced_at(s, t, at, space);
            lemma_quiet_insert(s, at, space);
            assert(s.take(0) =~= none);
            assert(t.take(0) =~= none);
            lemma_strings_keep_quiet(s, 0, depth, loopdepth, kind);
            lemma_strings_keep_quiet(t, 0, depth, loopdepth, kind);
        }
    }
    if a1 is Ok {
        lemma_brackets_related(a1->Ok_0, b1->Ok_0, Bracket::Brace, depth, loopdepth, kind);
        let a2 = group_brackets(a1->Ok_0, Bracket::Brace, depth, loopdepth, kind);
        let b2 = group_brackets(b1->Ok_0, Bracket::Brace, depth, loopdepth, kind);
        if a2 is Ok {
            lemma_brackets_related(a2->Ok_0, b2->Ok_0, Bracket::List, depth, loopdepth, kind);
            let a3 = group_brackets(a2->Ok_0, Bracket::List, depth, loopdepth, kind);
            let b3 = group_brackets(b2->Ok_0, Bracket::List, depth, loopdepth, kind);
            if a3 is Ok {
                lemma_brackets_related(a3->Ok_0, b3->Ok_0, Bracket::Paren, depth, loopdepth, kind);
            }
        }
    }
}

/// Where white space may be put into the outcome of the lexical passes, it
/// does not stand between two characters of one word.
pub proof fn lemma_lexed_space_splits_no_word(
    s: Seq<Atom>,
    depth: isize,
    loopdepth: isize,
    kind: ParserKind,
    at: int,
)
    requires
        lexed(s, depth, loopdepth, kind) is Ok,
        fits_space(lexed(s, depth, loopdepth, kind)->Ok_0, at),
    ensures
        ({
            let x = lexed(s, depth, loopdepth, kind)->Ok_0;
            !(0 < at < x.len() && is_word_char(x[at - 1]) && is_word_char(x[at]))
        }),
{
    lemma_lexed_has_no_brackets(s, depth, loopdepth, kind);
}

/// The passes of the expression parser put out the same failure, or runs
/// that differ by white space at most in pairs, on two runs that differ by
/// white space at most.
pub proof fn lemma_expr_passes_related(s: Seq<Atom>, t: Seq<Atom>, depth: isize, loopdepth: isize)
    requires
        akin_run(s, t),
    ensures
        outcomes(expr_passes(s, depth, loopdepth), expr_passes(t, depth, loopdepth), kinship()),
{
    let kind = ParserKind::Expr;
    lemma_lexed_related(s, t, depth, loopdepth, kind);
    lemma_kinship_is_congruent(depth, loopdepth);
    if lexed(s, depth, loopdepth, kind) is Ok {
        let x = lexed(s, depth, loopdepth, kind)->Ok_0;
        let y = lexed(t, depth, loopdepth, kind)->Ok_0;
        if akin_pairs(x, y) {
            lemma_pairs_are_akin(x, y);
            lemma_grammar_pairs(x, y, depth, loopdepth, kinship());
        } else {
            let (at, space) = choose|at: int, space: Atom| spaced_at(x, y, at, space);
            lemma_lexed_space_splits_no_word(s, depth, loopdepth, kind, at);
            lemma_grammar_ignores_space(x, at, space, depth, loopdepth);
            if expr_grammar(x, depth, loopdepth) is Ok {
                lemma_pairs_self(expr_grammar(x, depth, loopdepth)->Ok_0);
            }
        }
    }
}

/// The passes of the statement parser put out the same failure, or runs
/// that differ by white space at most in pairs, on two runs that differ by
/// white space at most.
pub proof fn lemma_stmt_passes_related(s: Seq<Atom>, t: Seq<Atom>, depth: isize, loopdepth: isize)
    requires
        akin_run(s, t),
    ensures
        outcomes(stmt_passes(s, depth, loopdepth), stmt_passes(t, depth, loopdepth), kinship()),
{
    let kind = ParserKind::Stmt;
    let none = Seq::<Atom>::empty();
    lemma_lexed_related(s, t, depth, loopdepth, kind);
    lemma_kinship_is_congruent(depth, loopdepth);
    lemma_pairs_empty(kinship());
    if lexed(s, depth, loopdepth, kind) is Ok {
        let x = lexed(s, depth, loopdepth, kind)->Ok_0;
        let y = lexed(t, depth, loopdepth, kind)->Ok_0;
        if akin_pairs(x, y) {
            lemma_pairs_are_akin(x, y);
            lemma_words_pairs(x, y, 0, Seq::empty(), none, none, depth, loopdepth, kinship());
            lemma_statements_pairs(
                group_words(x, depth, loopdepth),
                group_words(y, depth, loopdepth),
                0,
                none,
                none,
                none,
                none,
                depth,
                loopdepth,
                kinship(),
            );
        } else {
            let (at, space) = choose|at: int, space: Atom| spaced_at(x, y, at, space);
            lemma_lexed_space_splits_no_word(s, depth, loopdepth, kind, at);
            lemma_statements_ignore_space(x, at, space, depth, loopdepth);
            if stmt_passes(s, depth, loopdepth) is Ok {
                lemma_pairs_self(stmt_passes(s, depth, loopdepth)->Ok_0);
            }
        }
    }
}

/// The argument pass, taken up at a position, depends on the atoms from that position on only.
pub proof fn lemma_args_suffix(
    s: Seq<Atom>,
    i: int,
    t: Seq<Atom>,
    j: int,
    group: Seq<Atom>,
    acc: Seq<Atom>,
    depth: isize,
    loopdepth: isize,
)
    requires
        0 <= i <= s.len(),
        0 <= j <= t.len(),
        s.skip(i) == t.skip(j),
    ensures
        group_args_from(s, i, group, acc, depth, loopdepth) == group_args_from(t, j, group, acc, depth, loopdepth),
    decreases s.len() - i,
{
    assert(s.skip(i).len() == s.len() - i);
    assert(t.skip(j).len() == t.len() - j);
    if i < s.len() {
        assert(s[i] == s.skip(i)[0]);
        assert(t[j] == t.skip(j)[0]);
        assert(s.skip(i + 1) =~= s.skip(i).skip(1));
        assert(t.skip(j + 1) =~= t.skip(j).skip(1));
        let item = Atom::Item { contents: group, depth, loopdepth, resolved: false };
        if s[i].is_char(',') {
            lemma_args_suffix(s, i + 1, t, j + 1, Seq::empty(), acc.push(item), depth, loopdepth);
        } else {
            lemma_args_suffix(s, i + 1, t, j + 1, group.push(s[i]), acc, depth, loopdepth);
        }
    }
}

/// A piece of a run that holds no quote and no start of a comment holds none.
pub proof fn lemma_piece_is_quiet(s: Seq<Atom>, k: int, i: int)
    requires
        quiet(s),
        0 <= k <= i <= s.len(),
    ensures
        quiet(s.subrange(k, i)),
{
    let g = s.subrange(k, i);
    assert forall|j: int| 0 <= j < g.len() implies !(#[trigger] g[j]).is_char('"') by {
        assert(g[j] == s[k + j]);
    }
    assert forall|j: int| 0 <= j < g.len() - 1 && (#[trigger] g[j]).is_char('/') implies !g[j + 1].is_char('*')
        && !g[j + 1].is_char('/') by {
        assert(g[j] == s[k + j]);
        assert(g[j + 1] == s[k + j + 1]);
    }
}

/// White space inside an argument stays inside it: where the atoms of the
/// argument that is open differ by one white space, the argument pass puts
/// out two runs of operands that differ in that operand, by that white
/// space, and in nothing else.
pub proof fn lemma_args_group_spaced(
    s: Seq<Atom>,
    i: int,
    at: int,
    space: Atom,
    acc: Seq<Atom>,
    k: int,
    depth: isize,
    loopdepth: isize,
)
    requires
        quiet(s),
        fits_space(s, at),
        is_space(space),
        0 <= k <= at <= i <= s.len(),
    ensures
        pairs(
            group_args_from(s, i, s.subrange(k, i), acc, depth, loopdepth),
            group_args_from(s, i, s.subrange(k, i).insert(at - k, space), acc, depth, loopdepth),
            kinship(),
        ),
    decreases s.len() - i,
{
    let q = at - k;
    let group = s.subrange(k, i);
    let group_t = group.insert(q, space);
    let item = Atom::Item { contents: group, depth, loopdepth, resolved: false };
    let item_t = Atom::Item { contents: group_t, depth, loopdepth, resolved: false };
    let none = Seq::<Atom>::empty();
    lemma_piece_is_quiet(s, k, i);
    assert(fits_space(group, q)) by {
        if 0 < q < group.len() {
            assert(group[q - 1] == s[at - 1]);
            assert(group[q] == s[at]);
        }
    }
    assert(spaced_at(group, group_t, q, space));
    assert(spaced(group, group_t));
    assert(akin_run(group, group_t));
    assert(akin(item, item_t));
    lemma_pairs_self(acc);
    lemma_pairs_push(acc, acc, item, item_t, kinship());
    if i < s.len() {
        if s[i].is_char(',') {
            lemma_pairs_self(s);
            lemma_pairs_empty(kinship());
            lemma_kinship_is_congruent(depth, loopdepth);
            lemma_args_pairs(s, s, i + 1, none, none, acc.push(item), acc.push(item_t), depth, loopdepth, kinship());
        } else {
            assert(group.push(s[i]) =~= s.subrange(k, i + 1));
            assert(group_t.push(s[i]) =~= s.subrange(k, i + 1).insert(q, space));
            lemma_args_group_spaced(s, i + 1, at, space, acc, k, depth, loopdepth);
        }
    } else {
        assert(is_blank(group) == is_blank(group_t)) by {
            if is_blank(group) {
                assert forall|j: int| 0 <= j < group_t.len() implies is_space(#[trigger] group_t[j]) by {
                    if j < q {
                        assert(group_t[j] == group[j]);
                    } else if j > q {
                        assert(group_t[j] == group[j - 1]);
                    }
                }
            }
            if is_blank(group_t) {
                assert forall|j: int| 0 <= j < group.len() implies is_space(#[trigger] group[j]) by {
                    if j < q {
                        assert(group[j] == group_t[j]);
                    } else {
                        assert(group[j] == group_t[j + 1]);
                    }
                }
            }
        }
    }
}

/// The argument pass keeps one more white space inside the argument in which it stands.
pub proof fn lemma_args_spaced(
    s: Seq<Atom>,
    t: Seq<Atom>,
    at: int,
    space: Atom,
    i: int,
    acc: Seq<Atom>,
    k: int,
    depth: isize,
    loopdepth: isize,
)
    requires
        spaced_at(s, t, at, space),
        0 <= k <= i <= at,
        k == 0 || s[k - 1].is_char(','),
    ensures
        pairs(
            group_args_from(s, i, s.subrange(k, i), acc, depth, loopdepth),
            group_args_from(t, i, s.subrange(k, i), acc, depth, loopdepth),
            kinship(),
        ),
    decreases at - i,
{
    let group = s.subrange(k, i);
    let item = Atom::Item { contents: group, depth, loopdepth, resolved: false };
    if i < at {
        assert(t[i] == s[i]);
        if s[i].is_char(',') {
            assert(s.subrange(i + 1, i + 1) =~= Seq::<Atom>::empty());
            lemma_args_spaced(s, t, at, space, i + 1, acc.push(item), i + 1, depth, loopdepth);
        } else {
            assert(group.push(s[i]) =~= s.subrange(k, i + 1));
            lemma_args_spaced(s, t, at, space, i + 1, acc, k, depth, loopdepth);
        }
    } else {
        assert(t[at] == space);
        assert(t.skip(at + 1) =~= s.skip(at));
        assert(group.push(space) =~= group.insert(at - k, space));
        lemma_args_suffix(t, at + 1, s, at, group.push(space), acc, depth, loopdepth);
        lemma_args_group_spaced(s, at, at, space, acc, k, depth, loopdepth);
    }
}

/// The passes of the argument splitter put out the same failure, or runs
/// of operands that differ by white space at most in pairs, on two runs that
/// differ by white space at most.
pub proof fn lemma_comma_passes_related(s: Seq<Atom>, t: Seq<Atom>, depth: isize, loopdepth: isize)
    requires
        akin_run(s, t),
    ensures
        outcomes(comma_passes(s, depth, loopdepth), comma_passes(t, depth, loopdepth), kinship()),
{
    let kind = ParserKind::Comma;
    let none = Seq::<Atom>::empty();
    lemma_kinship_is_congruent(depth, loopdepth);
    lemma_pairs_empty(kinship());
    if akin_pairs(s, t) {
        lemma_pairs_are_akin(s, t);
        lemma_comma_passes_pairs(s, t, depth, loopdepth, kinship());
    } else {
        let (at, space) = choose|at: int, space: Atom| spaced_at(s, t, at, space);
        lemma_quiet_insert(s, at, space);
        assert(s.take(0) =~= none);
        assert(t.take(0) =~= none);
        lemma_quotes_keep_quiet(s, 0, depth, loopdepth);
        lemma_quotes_keep_quiet(t, 0, depth, loopdepth);
        lemma_brackets_related(s, t, Bracket::Brace, depth, loopdepth, kind);
        let a2 = group_brackets(s, Bracket::Brace, depth, loopdepth, kind);
        let b2 = group_brackets(t, Bracket::Brace, depth, loopdepth, kind);
        if a2 is Ok {
            lemma_brackets_related(a2->Ok_0, b2->Ok_0, Bracket::List, depth, loopdepth, kind);
            let a3 = group_brackets(a2->Ok_0, Bracket::List, depth, loopdepth, kind);
            let b3 = group_brackets(b2->Ok_0, Bracket::List, depth, loopdepth, kind);
            if a3 is Ok {
                lemma_brackets_related(a3->Ok_0, b3->Ok_0, Bracket::Paren, depth, loopdepth, kind);
                let a4 = group_brackets(a3->Ok_0, Bracket::Paren, depth, loopdepth, kind);
                let b4 = group_brackets(b3->Ok_0, Bracket::Paren, depth, loopdepth, kind);
                if a4 is Ok {
                    let x = a4->Ok_0;
                    let y = b4->Ok_0;
                    if akin_pairs(x, y) {
                        lemma_pairs_are_akin(x, y);
                        lemma_args_pairs(x, y, 0, none, none, none, none, depth, loopdepth, kinship());
                    } else {
                        let (p, w) = choose|p: int, w: Atom| spaced_at(x, y, p, w);
                        assert(x.subrange(0, 0) =~= none);
                        lemma_args_spaced(x, y, p, w, 0, none, 0, depth, loopdepth);
                    }
                }
            }
        }
    }
}

/// Resolving a run gives the same for two runs that differ by white space
/// at most in pairs, taken up at a position with the same output so far.
pub proof fn lemma_resolve_all_from_akin(s: Seq<Atom>, t: Seq<Atom>, i: int, acc: Seq<Atom>, fuel: nat)
    requires
        0 <= i <= s.len(),
        akin_pairs(s, t),
    ensures
        resolve_all_from(s, i, acc, fuel) == resolve_all_from(t, i, acc, fuel),
    decreases fuel, 1nat, s.len() - i,
{
    if i < s.len() {
        assert(akin(s[i], t[i]));
        lemma_resolve_akin(s[i], t[i], fuel);
        match resolve_atom(s[i], fuel) {
            Ok(x) => {
                lemma_resolve_all_from_akin(s, t, i + 1, acc.push(x), fuel);
            },
            Err(_) => {},
        }
    }
}

/// Resolving gives the same for two runs that differ by white space at most in pairs.
pub proof fn lemma_resolve_all_akin(s: Seq<Atom>, t: Seq<Atom>, fuel: nat)
    requires
        akin_pairs(s, t),
    ensures
        resolve_all(s, fuel) == resolve_all(t, fuel),
    decreases fuel, 2nat, 0nat,
{
    lemma_resolve_all_from_akin(s, t, 0, Seq::empty(), fuel);
}

/// Resolving gives the same for the outcomes of two parsers that are the
/// same failure or differ by white space at most in pairs.
pub proof fn lemma_resolve_outcomes_akin(
    a: Result<Seq<Atom>, ParserError>,
    b: Result<Seq<Atom>, ParserError>,
    fuel: nat,
)
    requires
        outcomes(a, b, kinship()),
    ensures
        a is Ok <==> b is Ok,
        a is Err ==> a == b,
        a is Ok ==> resolve_all(a->Ok_0, fuel) == resolve_all(b->Ok_0, fuel),
    decreases fuel, 2nat, 1nat,
{
    if a is Ok {
        lemma_pairs_are_akin(a->Ok_0, b->Ok_0);
        lemma_resolve_all_akin(a->Ok_0, b->Ok_0, fuel);
    }
}

/// Parsing and resolving gives the same for two runs that differ by white space at most.
pub proof fn lemma_resolve_run_akin(
    kind: ParserKind,
    s: Seq<Atom>,
    t: Seq<Atom>,
    depth: isize,
    loopdepth: isize,
    fuel: nat,
)
    requires
        akin_run(s, t),
    ensures
        resolve_run(kind, s, depth, loopdepth, fuel) == resolve_run(kind, t, depth, loopdepth, fuel),
    decreases fuel, 3nat, 0nat,
{
    if kind == ParserKind::Stmt {
        lemma_stmt_passes_related(s, t, depth, loopdepth);
    } else {
        lemma_expr_passes_related(s, t, depth, loopdepth);
    }
    lemma_resolve_outcomes_akin(
        run_passes(kind, s, depth, loopdepth),
        run_passes(kind, t, depth, loopdepth),
        fuel,
    );
}

/// What a call or a subscript holds before it is resolved is, for two nodes
/// that differ by white space at most, the same failure or two runs that
/// differ by white space at most in pairs.
pub proof fn lemma_args_akin(a: Atom, b: Atom)
    requires
        akin(a, b),
        a is Func || a is List,
        a is Func ==> !a->Func_resolved,
        a is List ==> !a->List_resolved,
    ensures
        a is Func ==> outcomes(
            call_args(*a->Func_callee, a->Func_contents),
            call_args(*b->Func_callee, b->Func_contents),
            kinship(),
        ),
        a is List ==> outcomes(index_args(a->List_contents), index_args(b->List_contents), kinship()),
{
    match a {
        Atom::Func { callee, contents, .. } => {
            let contents_t = b->Func_contents;
            assert(akin_pairs(contents, contents_t));
            assert(akin(*callee, *b->Func_callee));
            lemma_pairs_are_akin(contents, contents_t);
            if contents.len() > 0 && !(*callee is Ope) {
                assert(akin(contents[0], contents_t[0]));
                match contents[0] {
                    Atom::ParenBlock { contents: inner, depth, loopdepth, resolved } => {
                        if resolved {
                            let r = comma_passes(inner, depth, loopdepth);
                            if r is Ok {
                                lemma_pairs_self(r->Ok_0);
                            }
                        } else {
                            lemma_comma_passes_related(inner, contents_t[0]->ParenBlock_contents, depth, loopdepth);
                        }
                    },
                    _ => {},
                }
            }
        },
        Atom::List { callee, contents, .. } => {
            let contents_t = b->List_contents;
            assert(akin_pairs(contents, contents_t));
            if contents.len() == 1 {
                assert(akin(contents[0], contents_t[0]));
                match contents[0] {
                    Atom::ListBlock { contents: inner, depth, loopdepth, resolved } => {
                        if resolved {
                            let r = comma_passes(inner, depth, loopdepth);
                            if r is Ok {
                                lemma_pairs_self(r->Ok_0);
                            }
                        } else {
                            lemma_comma_passes_related(inner, contents_t[0]->ListBlock_contents, depth, loopdepth);
                        }
                    },
                    _ => {},
                }
            }
        },
        _ => {},
    }
}

/// What stands between `[` and `]` is parsed, for two runs that differ by
/// white space at most, with the same failure or to two runs that differ by
/// white space at most in pairs.
pub proof fn lemma_list_passes_related(s: Seq<Atom>, t: Seq<Atom>, depth: isize, loopdepth: isize)
    requires
        akin_run(s, t),
    ensures
        outcomes(list_passes(s, depth, loopdepth), list_passes(t, depth, loopdepth), kinship()),
{
    lemma_comma_passes_related(s, t, depth, loopdepth);
    lemma_kinship_is_congruent(depth, loopdepth);
    let a = comma_passes(s, depth, loopdepth);
    let b = comma_passes(t, depth, loopdepth);
    if a is Ok {
        lemma_comma_passes_pairs(a->Ok_0, b->Ok_0, depth, loopdepth, kinship());
        if comma_passes(a->Ok_0, depth, loopdepth) is Ok {
            lemma_expr_passes_related(s, t, depth, loopdepth);
        }
    }
}

/// Resolving gives the same for two trees that differ by white space at most.
#[verifier::rlimit(60)]
pub proof fn lemma_resolve_akin(a: Atom, b: Atom, fuel: nat)
    requires
        akin(a, b),
    ensures
        resolve_atom(a, fuel) == resolve_atom(b, fuel),
    decreases fuel, 0nat, 0nat,
{
    let f = (fuel - 1) as nat;
    match a {
        Atom::Block { contents, depth, loopdepth, resolved } => {
            if !resolved && fuel > 0 && depth < isize::MAX {
                lemma_resolve_run_akin(ParserKind::Stmt, contents, b->Block_contents, (depth + 1) as isize, loopdepth, f);
            }
        },
        Atom::ParenBlock { contents, depth, loopdepth, resolved } => {
            if !resolved && fuel > 0 && depth < isize::MAX {
                lemma_resolve_run_akin(
                    ParserKind::Expr,
                    contents,
                    b->ParenBlock_contents,
                    (depth + 1) as isize,
                    loopdepth,
                    f,
                );
            }
        },
        Atom::ListBlock { contents, depth, loopdepth, resolved } => {
            if !resolved && fuel > 0 {
                lemma_list_passes_related(contents, b->ListBlock_contents, depth, loopdepth);
                let x = list_passes(contents, depth, loopdepth);
                let y = list_passes(b->ListBlock_contents, depth, loopdepth);
                if x is Ok {
                    lemma_pairs_are_akin(x->Ok_0, y->Ok_0);
                    lemma_akin_run_of_pairs(x->Ok_0, y->Ok_0);
                    lemma_resolve_run_akin(ParserKind::Expr, x->Ok_0, y->Ok_0, depth, loopdepth, f);
                }
            }
        },
        Atom::Item { contents, depth, loopdepth, resolved } => {
            if !resolved && fuel > 0 {
                lemma_resolve_run_akin(ParserKind::Expr, contents, b->Item_contents, depth, loopdepth, f);
            }
        },
        Atom::Expr { code_list, depth, loopdepth, resolved } => {
            if !resolved && fuel > 0 {
                lemma_resolve_run_akin(ParserKind::Expr, code_list, b->Expr_code_list, depth, loopdepth, f);
            }
        },
        Atom::Special { head, code_list, depth, loopdepth, resolved } => {
            if !resolved && fuel > 0 {
                lemma_resolve_run_akin(ParserKind::Expr, code_list, b->Special_code_list, depth, loopdepth, f);
            }
        },
        Atom::Syntax { name, expr, contents, depth, loopdepth, resolved } => {
            if !resolved && fuel > 0 && !(is_loop_name(name) && loopdepth == isize::MAX) {
                lemma_resolve_run_akin(ParserKind::Expr, expr, b->Syntax_expr, depth, loopdepth, f);
                let inner = if is_loop_name(name) {
                    (loopdepth + 1) as isize
                } else {
                    loopdepth
                };
                lemma_resolve_run_akin(ParserKind::Stmt, contents, b->Syntax_contents, depth, inner, f);
            }
        },
        Atom::SyntaxBox { name, contents, depth, loopdepth } => {
            if fuel > 0 {
                lemma_resolve_all_akin(contents, b->SyntaxBox_contents, f);
            }
        },
        Atom::Func { callee, contents, depth, loopdepth, resolved } => {
            if !resolved && fuel > 0 {
                lemma_resolve_akin(*callee, *b->Func_callee, f);
                lemma_args_akin(a, b);
                lemma_resolve_outcomes_akin(
                    call_args(*callee, contents),
                    call_args(*b->Func_callee, b->Func_contents),
                    f,
                );
            }
        },
        Atom::List { callee, contents, depth, loopdepth, resolved } => {
            if !resolved && fuel > 0 {
                lemma_resolve_akin(*callee, *b->List_callee, f);
                lemma_args_akin(a, b);
                lemma_resolve_outcomes_akin(index_args(contents), index_args(b->List_contents), f);
            }
        },
        _ => {},
    }
}

/// White space invariance: white space between tokens does not change the
/// resolved tree.
///
/// Let a run hold no quote and no start of a comment: it is what the quote
/// and comment pass leaves of a text, with the strings and comments of the
/// text as atoms of their own, or it is a text that holds no string and no
/// comment. Where a space, a tab or a line break is put into the run, at the
/// top or inside any number of brackets, the outcome of parsing and
/// resolving the run is the same tree, or the same failure, as without it.
/// The white space may stand anywhere but between two characters of one word,
/// which it would cut in two.
pub proof fn lemma_space_between_tokens(
    kind: ParserKind,
    s: Seq<Atom>,
    at: int,
    space: Atom,
    depth: isize,
    loopdepth: isize,
    fuel: nat,
)
    requires
        quiet(s),
        fits_space(s, at),
        is_space(space),
    ensures
        resolve_run(kind, s.insert(at, space), depth, loopdepth, fuel) == resolve_run(
            kind,
            s,
            depth,
            loopdepth,
            fuel,
        ),
{
    assert(spaced_at(s, s.insert(at, space), at, space));
    assert(spaced(s, s.insert(at, space)));
    lemma_resolve_run_akin(kind, s, s.insert(at, space), depth, loopdepth, fuel);
}

} // verus!

//! Where the atoms of the outcome of a pass come from: every atom that a
//! pass puts out is an atom that it took in or an atom that it made. So a
//! predicate that holds of all the atoms that go in, and of the atoms that the
//! pass makes, holds of all the atoms that come out.
use crate::abs::atom::Atom;
use crate::errors::parser_errors::ParserError;
use crate::parser::core_parser::{
    find_ope, is_exclude_char, is_ope_char, is_split_char, is_syntax_head, is_syntax_word, ope_lexeme,
    ope_priority, ParserKind, OPE_COUNT,
};
use crate::parser::grammar::{
    apply_bracket, clause_condition, flush_chain, flush_pending, group_chains_from, group_syntax_from,
    has_call_site, is_callable, merge_calls, merge_calls_fix, merge_calls_from, new_call, new_index,
    new_operation, reduce_operation,
    reduction_point, reduction_point_from, split_at,
};
use crate::parser::statement::{
    close_expression, close_statement, group_args_from, group_quotes_from, split_statements_from,
};
use crate::parser::lexer::{
    close_run, flush_word, group_brackets, group_brackets_from, group_operator, group_operator_from, group_operators_from,
    group_strings_from, group_words, group_words_from, is_space, regroup, unknown_atom, unknowns, Bracket,
    StringAreaState,
};
use vstd::prelude::*;

verus! {

/// Whether every atom of a run satisfies `p`.
pub open spec fn each(s: Seq<Atom>, p: spec_fn(Atom) -> bool) -> bool {
    forall|i: int| 0 <= i < s.len() ==> #[trigger] p(s[i])
}

/// A run with one more atom satisfies a predicate where the run and the atom do.
pub proof fn lemma_each_push(s: Seq<Atom>, a: Atom, p: spec_fn(Atom) -> bool)
    requires
        each(s, p),
        p(a),
    ensures
        each(s.push(a), p),
{
    assert forall|i: int| 0 <= i < s.push(a).len() implies #[trigger] p(s.push(a)[i]) by {
        if i < s.len() {
            assert(s.push(a)[i] == s[i]);
        }
    }
}

/// The atoms of the outcome of the quote and comment pass are atoms of the
/// input, strings and comments.
pub proof fn lemma_strings_each(
    s: Seq<Atom>,
    i: int,
    mode: StringAreaState,
    escape: bool,
    group: Seq<char>,
    acc: Seq<Atom>,
    depth: isize,
    loopdepth: isize,
    kind: ParserKind,
    p: spec_fn(Atom) -> bool,
)
    requires
        0 <= i <= s.len(),
        each(s, p),
        each(acc, p),
        forall|text: Seq<char>| #[trigger] p(Atom::Str { text, depth, loopdepth }),
        forall|text: Seq<char>| #[trigger] p(Atom::Comment { text, depth, loopdepth }),
        group_strings_from(s, i, mode, escape, group, acc, depth, loopdepth, kind) is Ok,
    ensures
        each(group_strings_from(s, i, mode, escape, group, acc, depth, loopdepth, kind)->Ok_0, p),
    decreases s.len() - i,
{
    let closed = StringAreaState::Closed;
    let comment = Atom::Comment { text: group, depth, loopdepth };
    let string = Atom::Str { text: group, depth, loopdepth };
    let none = Seq::<char>::empty();
    if i >= s.len() {
        if mode == StringAreaState::CommentStart {
            lemma_each_push(acc, comment, p);
        }
    } else {
        match s[i].unknown_char() {
            None => {
                lemma_each_push(acc, s[i], p);
                lemma_strings_each(s, i + 1, mode, escape, group, acc.push(s[i]), depth, loopdepth, kind, p);
            },
            Some(c) => match mode {
                StringAreaState::CommentStart => {
                    if c == '\n' {
                        lemma_each_push(acc, comment, p);
                        lemma_strings_each(s, i + 1, closed, escape, none, acc.push(comment), depth, loopdepth, kind, p);
                    } else {
                        lemma_strings_each(s, i + 1, mode, escape, group.push(c), acc, depth, loopdepth, kind, p);
                    }
                },
                StringAreaState::CommentOpen => {
                    if c != '*' {
                        lemma_strings_each(s, i + 1, mode, escape, group.push(c), acc, depth, loopdepth, kind, p);
                    } else if i + 1 < s.len() {
                        match s[i + 1].unknown_char() {
                            None => {},
                            Some(n) => {
                                if n == '/' {
                                    lemma_each_push(acc, comment, p);
                                    lemma_strings_each(
                                        s,
                                        i + 2,
                                        closed,
                                        escape,
                                        none,
                                        acc.push(comment),
                                        depth,
                                        loopdepth,
                                        kind,
                                        p,
                                    );
                                } else {
                                    lemma_strings_each(
                                        s,
                                        i + 1,
                                        mode,
                                        escape,
                                        group.push(c),
                                        acc,
                                        depth,
                                        loopdepth,
                                        kind,
                                        p,
                                    );
                                }
                            },
                        }
                    }
                },
                StringAreaState::QuotationOpen => {
                    if escape {
                        lemma_strings_each(s, i + 1, mode, false, group.push(c), acc, depth, loopdepth, kind, p);
                    } else if c == '"' {
                        lemma_each_push(acc, string, p);
                        lemma_strings_each(s, i + 1, closed, false, none, acc.push(string), depth, loopdepth, kind, p);
                    } else if c == '\\' {
                        lemma_strings_each(s, i + 1, mode, true, group, acc, depth, loopdepth, kind, p);
                    } else {
                        lemma_strings_each(s, i + 1, mode, false, group.push(c), acc, depth, loopdepth, kind, p);
                    }
                },
                StringAreaState::Closed => {
                    if c == '"' {
                        lemma_strings_each(
                            s,
                            i + 1,
                            StringAreaState::QuotationOpen,
                            false,
                            none,
                            acc,
                            depth,
                            loopdepth,
                            kind,
                            p,
                        );
                    } else if c == '/' && i + 1 < s.len() && s[i + 1].is_char('*') {
                        lemma_strings_each(
                            s,
                            i + 2,
                            StringAreaState::CommentOpen,
                            false,
                            none,
                            acc,
                            depth,
                            loopdepth,
                            kind,
                            p,
                        );
                    } else if c == '/' && i + 1 < s.len() && s[i + 1].is_char('/') {
                        lemma_strings_each(
                            s,
                            i + 2,
                            StringAreaState::CommentStart,
                            false,
                            none,
                            acc,
                            depth,
                            loopdepth,
                            kind,
                            p,
                        );
                    } else {
                        lemma_each_push(acc, s[i], p);
                        lemma_strings_each(s, i + 1, mode, false, group, acc.push(s[i]), depth, loopdepth, kind, p);
                    }
                },
            },
        }
    }
}

/// The atoms of the outcome of a bracket pass are atoms of the input and
/// the nodes that the pass closes around atoms of the input.
///
/// `p` is what holds of the atoms that go in, `q` what then holds of the
/// atoms inside a bracket, `r` what then holds of the atoms that come out.
pub proof fn lemma_brackets_each(
    s: Seq<Atom>,
    i: int,
    level: nat,
    group: Seq<Atom>,
    acc: Seq<Atom>,
    bracket: Bracket,
    depth: isize,
    loopdepth: isize,
    kind: ParserKind,
    p: spec_fn(Atom) -> bool,
    q: spec_fn(Atom) -> bool,
    r: spec_fn(Atom) -> bool,
)
    requires
        0 <= i <= s.len(),
        each(s, p),
        each(group, q),
        each(acc, r),
        forall|a: Atom|
            #[trigger] p(a) && !a.is_char(bracket.open_char()) && !a.is_char(bracket.close_char()) ==> r(a),
        forall|a: Atom| #[trigger] p(a) && regroup(a, depth, loopdepth) is Some ==> q(regroup(a, depth, loopdepth)->0),
        forall|g: Seq<Atom>| each(g, q) ==> r(#[trigger] bracket.enclose(g, depth, loopdepth)),
        group_brackets_from(s, i, level, group, acc, bracket, depth, loopdepth, kind) is Ok,
    ensures
        each(group_brackets_from(s, i, level, group, acc, bracket, depth, loopdepth, kind)->Ok_0, r),
    decreases s.len() - i,
{
    if i < s.len() {
        assert(p(s[i]));
        if s[i].is_char(bracket.open_char()) {
            if level == 0 {
                lemma_brackets_each(s, i + 1, level + 1, group, acc, bracket, depth, loopdepth, kind, p, q, r);
            } else {
                assert(regroup(s[i], depth, loopdepth) == Some(s[i]));
                lemma_each_push(group, s[i], q);
                lemma_brackets_each(
                    s,
                    i + 1,
                    level + 1,
                    group.push(s[i]),
                    acc,
                    bracket,
                    depth,
                    loopdepth,
                    kind,
                    p,
                    q,
                    r,
                );
            }
        } else if s[i].is_char(bracket.close_char()) {
            if level == 1 {
                lemma_each_push(acc, bracket.enclose(group, depth, loopdepth), r);
                lemma_brackets_each(
                    s,
                    i + 1,
                    0,
                    Seq::empty(),
                    acc.push(bracket.enclose(group, depth, loopdepth)),
                    bracket,
                    depth,
                    loopdepth,
                    kind,
                    p,
                    q,
                    r,
                );
            } else if level > 1 {
                assert(regroup(s[i], depth, loopdepth) == Some(s[i]));
                lemma_each_push(group, s[i], q);
                lemma_brackets_each(
                    s,
                    i + 1,
                    (level - 1) as nat,
                    group.push(s[i]),
                    acc,
                    bracket,
                    depth,
                    loopdepth,
                    kind,
                    p,
                    q,
                    r,
                );
            }
        } else if level == 0 {
            lemma_each_push(acc, s[i], r);
            lemma_brackets_each(s, i + 1, level, group, acc.push(s[i]), bracket, depth, loopdepth, kind, p, q, r);
        } else {
            match regroup(s[i], depth, loopdepth) {
                Some(a) => {
                    lemma_each_push(group, a, q);
                    lemma_brackets_each(
                        s,
                        i + 1,
                        level,
                        group.push(a),
                        acc,
                        bracket,
                        depth,
                        loopdepth,
                        kind,
                        p,
                        q,
                        r,
                    );
                },
                None => {},
            }
        }
    }
}

/// A bracket pass leaves a run that holds none of its brackets as it is.
pub proof fn lemma_brackets_identity(
    s: Seq<Atom>,
    i: int,
    bracket: Bracket,
    depth: isize,
    loopdepth: isize,
    kind: ParserKind,
)
    requires
        0 <= i <= s.len(),
        forall|k: int|
            0 <= k < s.len() ==> !(#[trigger] s[k]).is_char(bracket.open_char()) && !s[k].is_char(
                bracket.close_char(),
            ),
    ensures
        group_brackets_from(s, i, 0, Seq::empty(), s.take(i), bracket, depth, loopdepth, kind) == Ok::<
            Seq<Atom>,
            ParserError,
        >(s),
    decreases s.len() - i,
{
    if i < s.len() {
        assert(s.take(i).push(s[i]) =~= s.take(i + 1));
        lemma_brackets_identity(s, i + 1, bracket, depth, loopdepth, kind);
    } else {
        assert(s.take(i) =~= s);
    }
}

/// The atoms of the outcome of the word pass are atoms of the input and words.
pub proof fn lemma_words_each(
    s: Seq<Atom>,
    i: int,
    group: Seq<char>,
    acc: Seq<Atom>,
    depth: isize,
    loopdepth: isize,
    p: spec_fn(Atom) -> bool,
)
    requires
        0 <= i <= s.len(),
        each(s, p),
        each(acc, p),
        forall|text: Seq<char>| #[trigger] p(Atom::Word { text, depth, loopdepth }),
    ensures
        each(group_words_from(s, i, group, acc, depth, loopdepth), p),
    decreases s.len() - i,
{
    let flushed = flush_word(acc, group, depth, loopdepth);
    assert(each(flushed, p)) by {
        if group.len() > 0 {
            lemma_each_push(acc, Atom::Word { text: group, depth, loopdepth }, p);
        }
    }
    if i < s.len() {
        assert(p(s[i]));
        lemma_each_push(flushed, s[i], p);
        match s[i].unknown_char() {
            Some(c) => {
                if is_split_char(c) {
                    lemma_words_each(s, i + 1, Seq::empty(), flushed, depth, loopdepth, p);
                } else if is_exclude_char(c) || is_ope_char(c) {
                    lemma_words_each(s, i + 1, Seq::empty(), flushed.push(s[i]), depth, loopdepth, p);
                } else {
                    lemma_words_each(s, i + 1, group.push(c), acc, depth, loopdepth, p);
                }
            },
            None => {
                lemma_words_each(s, i + 1, Seq::empty(), flushed.push(s[i]), depth, loopdepth, p);
            },
        }
    }
}

/// Whether every character of a text, as an atom, satisfies `p`.
pub open spec fn each_char(t: Seq<char>, p: spec_fn(Atom) -> bool) -> bool {
    forall|k: int| 0 <= k < t.len() ==> #[trigger] p(unknown_atom(t[k]))
}

/// The atoms of a text satisfy a predicate that every character of the text satisfies.
pub proof fn lemma_unknowns_each(acc: Seq<Atom>, t: Seq<char>, p: spec_fn(Atom) -> bool)
    requires
        each(acc, p),
        each_char(t, p),
    ensures
        each(acc + unknowns(t), p),
    decreases t.len(),
{
    if t.len() == 0 {
        assert(acc + unknowns(t) =~= acc);
    } else {
        assert forall|k: int| 0 <= k < t.drop_last().len() implies #[trigger] p(unknown_atom(t.drop_last()[k])) by {
            assert(t.drop_last()[k] == t[k]);
        }
        lemma_unknowns_each(acc, t.drop_last(), p);
        let x = unknowns(t.drop_last());
        let u = unknown_atom(t.last());
        assert(p(unknown_atom(t[t.len() - 1])));
        lemma_each_push(acc + x, u, p);
        assert(acc + x.push(u) =~= (acc + x).push(u));
    }
}

/// The atoms of the outcome of the pass for one operator are atoms of the
/// input and the operator.
pub proof fn lemma_operator_each(
    s: Seq<Atom>,
    i: int,
    group: Seq<char>,
    acc: Seq<Atom>,
    ope: Seq<char>,
    depth: isize,
    p: spec_fn(Atom) -> bool,
)
    requires
        0 <= i <= s.len(),
        each(s, p),
        each(acc, p),
        each_char(group, p),
        forall|text: Seq<char>| #[trigger] p(Atom::Ope { ope: text, depth }),
    ensures
        each(group_operator_from(s, i, group, acc, ope, depth), p),
    decreases s.len() - i,
{
    if i < s.len() {
        assert(p(s[i]));
        match s[i].unknown_char() {
            Some(c) => {
                let next = group.push(c);
                assert(each_char(next, p)) by {
                    assert forall|k: int| 0 <= k < next.len() implies #[trigger] p(unknown_atom(next[k])) by {
                        if k < group.len() {
                            assert(next[k] == group[k]);
                        } else {
                            assert(unknown_atom(next[k]) == s[i]);
                        }
                    }
                }
                if group.len() + 1 < ope.len() {
                    lemma_operator_each(s, i + 1, next, acc, ope, depth, p);
                } else {
                    lemma_close_run_each(acc, next, ope, depth, p);
                    lemma_operator_each(s, i + 1, Seq::empty(), close_run(acc, next, ope, depth), ope, depth, p);
                }
            },
            None => {
                lemma_close_run_each(acc, group, ope, depth, p);
                lemma_each_push(close_run(acc, group, ope, depth), s[i], p);
                lemma_operator_each(
                    s,
                    i + 1,
                    Seq::empty(),
                    close_run(acc, group, ope, depth).push(s[i]),
                    ope,
                    depth,
                    p,
                );
            },
        }
    } else {
        lemma_unknowns_each(acc, group, p);
    }
}

/// A closed run of operator characters is the operator or the characters.
pub proof fn lemma_close_run_each(acc: Seq<Atom>, group: Seq<char>, ope: Seq<char>, depth: isize, p: spec_fn(Atom) -> bool)
    requires
        each(acc, p),
        each_char(group, p),
        forall|text: Seq<char>| #[trigger] p(Atom::Ope { ope: text, depth }),
    ensures
        each(close_run(acc, group, ope, depth), p),
{
    if group == ope {
        lemma_each_push(acc, Atom::Ope { ope: group, depth }, p);
    } else {
        lemma_unknowns_each(acc, group, p);
    }
}

/// The atoms of the outcome of the operator passes are atoms of the input and operators.
pub proof fn lemma_operators_each(s: Seq<Atom>, k: int, depth: isize, p: spec_fn(Atom) -> bool)
    requires
        0 <= k,
        each(s, p),
        forall|text: Seq<char>| #[trigger] p(Atom::Ope { ope: text, depth }),
    ensures
        each(group_operators_from(s, k, depth), p),
    decreases OPE_COUNT - k,
{
    if k < OPE_COUNT {
        lemma_operator_each(s, 0, Seq::empty(), Seq::empty(), ope_lexeme(k), depth, p);
        lemma_operators_each(group_operator(s, ope_lexeme(k), depth), k + 1, depth, p);
    }
}

/// The atoms of the outcome of the clause pass are atoms of the input and
/// the clauses that the pass makes of a parenthesis and a block of the input.
pub proof fn lemma_syntax_each(
    s: Seq<Atom>,
    i: int,
    name: Option<Seq<char>>,
    expr: Option<Atom>,
    acc: Seq<Atom>,
    depth: isize,
    loopdepth: isize,
    p: spec_fn(Atom) -> bool,
)
    requires
        0 <= i <= s.len(),
        each(s, p),
        each(acc, p),
        expr matches Some(x) ==> p(x),
        forall|nm: Seq<char>, cond: Option<Atom>, block: Atom|
            (cond matches Some(x) ==> p(x)) && p(block) && block is Block ==> #[trigger] p(
                Atom::Syntax {
                    name: nm,
                    expr: clause_condition(cond),
                    contents: block->Block_contents,
                    depth,
                    loopdepth,
                    resolved: false,
                },
            ),
    ensures
        each(group_syntax_from(s, i, name, expr, acc, depth, loopdepth), p),
    decreases s.len() - i,
{
    if i < s.len() {
        assert(p(s[i]));
        lemma_each_push(acc, s[i], p);
        match s[i] {
            Atom::Word { text, .. } => {
                if is_syntax_word(text) {
                    lemma_syntax_each(s, i + 1, Some(text), expr, acc, depth, loopdepth, p);
                } else {
                    lemma_syntax_each(s, i + 1, name, expr, acc.push(s[i]), depth, loopdepth, p);
                }
            },
            Atom::ParenBlock { .. } => {
                if name is Some {
                    lemma_syntax_each(s, i + 1, name, Some(s[i]), acc, depth, loopdepth, p);
                } else {
                    lemma_syntax_each(s, i + 1, name, expr, acc.push(s[i]), depth, loopdepth, p);
                }
            },
            Atom::Block { contents, .. } => {
                match name {
                    Some(n) => {
                        let clause = Atom::Syntax {
                            name: n,
                            expr: clause_condition(expr),
                            contents: s[i]->Block_contents,
                            depth,
                            loopdepth,
                            resolved: false,
                        };
                        assert(p(clause));
                        lemma_each_push(acc, clause, p);
                        lemma_syntax_each(s, i + 1, None, None, acc.push(clause), depth, loopdepth, p);
                    },
                    None => {
                        let before = match expr {
                            Some(e) => acc.push(e),
                            None => acc,
                        };
                        assert(each(before, p)) by {
                            match expr {
                                Some(e) => {
                                    lemma_each_push(acc, e, p);
                                },
                                None => {},
                            }
                        }
                        lemma_each_push(before, s[i], p);
                        lemma_syntax_each(s, i + 1, None, None, before.push(s[i]), depth, loopdepth, p);
                    },
                }
            },
            _ => {
                lemma_syntax_each(s, i + 1, name, expr, acc.push(s[i]), depth, loopdepth, p);
            },
        }
    }
}

/// The atoms of the outcome of the chain pass are atoms of the input and
/// the chains that the pass makes of clauses of the input.
pub proof fn lemma_chains_each(
    s: Seq<Atom>,
    i: int,
    name: Seq<char>,
    group: Seq<Atom>,
    acc: Seq<Atom>,
    depth: isize,
    loopdepth: isize,
    p: spec_fn(Atom) -> bool,
)
    requires
        0 <= i <= s.len(),
        each(s, p),
        each(acc, p),
        each(group, p),
        forall|nm: Seq<char>, g: Seq<Atom>|
            each(g, p) ==> #[trigger] p(Atom::SyntaxBox { name: nm, contents: g, depth, loopdepth }),
        group_chains_from(s, i, name, group, acc, depth, loopdepth) is Ok,
    ensures
        each(group_chains_from(s, i, name, group, acc, depth, loopdepth)->Ok_0, p),
    decreases s.len() - i,
{
    let chain = Atom::SyntaxBox { name, contents: group, depth, loopdepth };
    let flushed = flush_chain(acc, name, group, depth, loopdepth);
    assert(each(flushed, p)) by {
        if group.len() > 0 {
            assert(p(chain));
            lemma_each_push(acc, chain, p);
        }
    }
    if i < s.len() {
        assert(p(s[i]));
        lemma_each_push(group, s[i], p);
        lemma_each_push(acc, s[i], p);
        lemma_each_push(flushed, s[i], p);
        match s[i] {
            Atom::Syntax { name: n, .. } => {
                if is_syntax_head(n) {
                    lemma_each_push(Seq::empty(), s[i], p);
                    lemma_chains_each(s, i + 1, n, Seq::empty().push(s[i]), flushed, depth, loopdepth, p);
                } else if n == "elif"@ {
                    if group.len() > 0 {
                        lemma_chains_each(s, i + 1, name, group.push(s[i]), acc, depth, loopdepth, p);
                    }
                } else if n == "else"@ {
                    if group.len() > 0 {
                        let closed = Atom::SyntaxBox { name, contents: group.push(s[i]), depth, loopdepth };
                        assert(p(closed));
                        lemma_each_push(acc, closed, p);
                        lemma_chains_each(
                            s,
                            i + 1,
                            Seq::empty(),
                            Seq::empty(),
                            acc.push(closed),
                            depth,
                            loopdepth,
                            p,
                        );
                    }
                } else {
                    lemma_chains_each(s, i + 1, name, group, acc.push(s[i]), depth, loopdepth, p);
                }
            },
            _ => {
                lemma_chains_each(
                    s,
                    i + 1,
                    if group.len() > 0 {
                        Seq::empty()
                    } else {
                        name
                    },
                    Seq::empty(),
                    flushed.push(s[i]),
                    depth,
                    loopdepth,
                    p,
                );
            },
        }
    }
}

/// Whether the calls and subscripts that are made of atoms that satisfy
/// `p` satisfy `p`.
pub open spec fn calls_keep(p: spec_fn(Atom) -> bool, depth: isize, loopdepth: isize) -> bool {
    &&& forall|c: Atom, x: Atom| p(c) && p(x) ==> #[trigger] p(new_index(c, x, depth, loopdepth))
    &&& forall|c: Atom, x: Atom| p(c) && p(x) ==> #[trigger] p(new_call(c, x, depth, loopdepth))
}

/// The atoms of the outcome of one call pass are atoms of the input and
/// the calls and subscripts that the pass makes of two atoms of the input.
pub proof fn lemma_calls_each(
    s: Seq<Atom>,
    i: int,
    pending: Option<Atom>,
    acc: Seq<Atom>,
    depth: isize,
    loopdepth: isize,
    p: spec_fn(Atom) -> bool,
)
    requires
        0 <= i <= s.len(),
        each(s, p),
        each(acc, p),
        pending matches Some(x) ==> p(x),
        calls_keep(p, depth, loopdepth),
    ensures
        each(merge_calls_from(s, i, pending, acc, depth, loopdepth), p),
    decreases s.len() - i,
{
    let flushed = flush_pending(acc, pending);
    assert(each(flushed, p)) by {
        match pending {
            Some(x) => {
                lemma_each_push(acc, x, p);
            },
            None => {},
        }
    }
    if i < s.len() {
        assert(p(s[i]));
        if is_callable(s[i]) {
            lemma_calls_each(s, i + 1, Some(s[i]), flushed, depth, loopdepth, p);
        } else {
            match pending {
                Some(c) => {
                    let next = apply_bracket(acc, c, s[i], depth, loopdepth);
                    assert(each(next, p)) by {
                        lemma_each_push(acc, c, p);
                        lemma_each_push(acc.push(c), s[i], p);
                        let index = new_index(c, s[i], depth, loopdepth);
                        let call = new_call(c, s[i], depth, loopdepth);
                        assert(p(index));
                        assert(p(call));
                        lemma_each_push(acc, index, p);
                        lemma_each_push(acc, call, p);
                    }
                    lemma_calls_each(s, i + 1, None, next, depth, loopdepth, p);
                },
                None => {
                    lemma_each_push(acc, s[i], p);
                    lemma_calls_each(s, i + 1, None, acc.push(s[i]), depth, loopdepth, p);
                },
            }
        }
    }
}

/// The atoms of the outcome of the call passes are atoms of the input and
/// the calls and subscripts that the passes make.
pub proof fn lemma_calls_fix_each(s: Seq<Atom>, depth: isize, loopdepth: isize, p: spec_fn(Atom) -> bool)
    requires
        each(s, p),
        calls_keep(p, depth, loopdepth),
    ensures
        each(merge_calls_fix(s, depth, loopdepth), p),
    decreases s.len(),
{
    if has_call_site(s) && merge_calls(s, depth, loopdepth).len() < s.len() {
        lemma_calls_each(s, 0, None, Seq::empty(), depth, loopdepth, p);
        lemma_calls_fix_each(merge_calls(s, depth, loopdepth), depth, loopdepth, p);
    }
}

/// The one atom of the outcome of a split is the call of an atom of the
/// input on two operands that hold atoms of the input.
pub proof fn lemma_reduce_each(s: Seq<Atom>, depth: isize, loopdepth: isize, p: spec_fn(Atom) -> bool)
    requires
        each(s, p),
        forall|c: Atom, l: Seq<Atom>, r: Seq<Atom>|
            p(c) && each(l, p) && each(r, p) ==> #[trigger] p(new_operation(c, l, r, depth, loopdepth)),
        reduce_operation(s, depth, loopdepth) is Ok,
    ensures
        each(reduce_operation(s, depth, loopdepth)->Ok_0, p),
{
    match reduction_point(s) {
        Ok(Some(k)) => {
            lemma_reduction_point_in_range(s, 0, i32::MAX as int, None);
            let l = s.subrange(0, k);
            let r = s.subrange(k + 1, s.len() as int);
            assert(each(l, p)) by {
                assert forall|j: int| 0 <= j < l.len() implies #[trigger] p(l[j]) by {
                    assert(l[j] == s[j]);
                }
            }
            assert(each(r, p)) by {
                assert forall|j: int| 0 <= j < r.len() implies #[trigger] p(r[j]) by {
                    assert(r[j] == s[j + k + 1]);
                }
            }
            assert(p(s[k]));
            let t = split_at(s, k, depth, loopdepth);
            assert(p(t[0]));
            assert forall|j: int| 0 <= j < t.len() implies #[trigger] p(t[j]) by {
                assert(t[j] == t[0]);
            }
        },
        _ => {},
    }
}

/// The position of a split is a position of the run.
pub proof fn lemma_reduction_point_in_range(s: Seq<Atom>, i: int, prio: int, best: Option<int>)
    requires
        0 <= i <= s.len(),
        best matches Some(k) ==> 0 <= k < s.len(),
    ensures
        reduction_point_from(s, i, prio, best) matches Ok(Some(k)) ==> 0 <= k < s.len(),
    decreases s.len() - i,
{
    if i < s.len() {
        match s[i] {
            Atom::Ope { ope, .. } => {
                match find_ope(ope) {
                    None => {},
                    Some(k) => {
                        if i > 0 && s[i - 1] is Ope {
                            lemma_reduction_point_in_range(s, i + 1, prio, best);
                        } else if ope_priority(k) < prio {
                            lemma_reduction_point_in_range(s, i + 1, ope_priority(k), Some(i));
                        } else {
                            lemma_reduction_point_in_range(s, i + 1, prio, best);
                        }
                    },
                }
            },
            _ => {
                lemma_reduction_point_in_range(s, i + 1, prio, best);
            },
        }
    }
}

/// Whether the statements that are made of atoms that satisfy `p` satisfy `r`.
pub open spec fn statements_keep(
    p: spec_fn(Atom) -> bool,
    r: spec_fn(Atom) -> bool,
    depth: isize,
    loopdepth: isize,
) -> bool {
    &&& forall|g: Seq<Atom>|
        each(g, p) ==> #[trigger] r(Atom::Expr { code_list: g, depth, loopdepth, resolved: false })
    &&& forall|head: Seq<char>, g: Seq<Atom>|
        each(g, p) ==> #[trigger] r(Atom::Special { head, code_list: g, depth, loopdepth, resolved: false })
}

/// The statement that a run makes holds atoms of the run.
pub proof fn lemma_close_statement_each(
    acc: Seq<Atom>,
    group: Seq<Atom>,
    depth: isize,
    loopdepth: isize,
    p: spec_fn(Atom) -> bool,
    r: spec_fn(Atom) -> bool,
)
    requires
        each(acc, r),
        each(group, p),
        statements_keep(p, r, depth, loopdepth),
    ensures
        close_statement(acc, group, depth, loopdepth) is Ok ==> each(
            close_statement(acc, group, depth, loopdepth)->Ok_0,
            r,
        ),
        close_expression(acc, group, depth, loopdepth) is Ok ==> each(
            close_expression(acc, group, depth, loopdepth)->Ok_0,
            r,
        ),
{
    if close_expression(acc, group, depth, loopdepth) is Ok {
        lemma_each_push(acc, Atom::Expr { code_list: group, depth, loopdepth, resolved: false }, r);
    }
    if group.len() > 0 && close_statement(acc, group, depth, loopdepth) is Ok {
        let rest = group.subrange(1, group.len() as int);
        assert(each(rest, p)) by {
            assert forall|j: int| 0 <= j < rest.len() implies #[trigger] p(rest[j]) by {
                assert(rest[j] == group[j + 1]);
            }
        }
        match group[0] {
            Atom::Word { text, .. } => {
                lemma_each_push(acc, Atom::Special { head: text, code_list: rest, depth, loopdepth, resolved: false }, r);
            },
            _ => {},
        }
    }
}

/// The atoms of the outcome of the statement pass are comments of the input
/// and statements that hold atoms of the input.
pub proof fn lemma_statements_each(
    s: Seq<Atom>,
    i: int,
    group: Seq<Atom>,
    acc: Seq<Atom>,
    depth: isize,
    loopdepth: isize,
    p: spec_fn(Atom) -> bool,
    r: spec_fn(Atom) -> bool,
)
    requires
        0 <= i <= s.len(),
        each(s, p),
        each(group, p),
        each(acc, r),
        statements_keep(p, r, depth, loopdepth),
        split_statements_from(s, i, group, acc, depth, loopdepth) is Ok,
    ensures
        each(split_statements_from(s, i, group, acc, depth, loopdepth)->Ok_0, r),
    decreases s.len() - i,
{
    lemma_close_statement_each(acc, group, depth, loopdepth, p, r);
    if i < s.len() {
        assert(p(s[i]));
        if s[i].is_char(';') {
            lemma_statements_each(
                s,
                i + 1,
                Seq::empty(),
                close_statement(acc, group, depth, loopdepth)->Ok_0,
                depth,
                loopdepth,
                p,
                r,
            );
        } else {
            lemma_each_push(group, s[i], p);
            lemma_statements_each(s, i + 1, group.push(s[i]), acc, depth, loopdepth, p, r);
        }
    }
}

/// The atoms of the outcome of the quotation pass of the argument splitter
/// are atoms of the input and strings.
pub proof fn lemma_quotes_each(
    s: Seq<Atom>,
    i: int,
    open: bool,
    escape: bool,
    group: Seq<char>,
    acc: Seq<Atom>,
    depth: isize,
    loopdepth: isize,
    p: spec_fn(Atom) -> bool,
)
    requires
        0 <= i <= s.len(),
        each(s, p),
        each(acc, p),
        forall|text: Seq<char>| #[trigger] p(Atom::Str { text, depth, loopdepth }),
        group_quotes_from(s, i, open, escape, group, acc, depth, loopdepth) is Ok,
    ensures
        each(group_quotes_from(s, i, open, escape, group, acc, depth, loopdepth)->Ok_0, p),
    decreases s.len() - i,
{
    if i < s.len() {
        assert(p(s[i]));
        lemma_each_push(acc, s[i], p);
        match s[i].unknown_char() {
            None => {
                lemma_quotes_each(s, i + 1, open, escape, group, acc.push(s[i]), depth, loopdepth, p);
            },
            Some(c) => {
                if escape {
                    lemma_quotes_each(s, i + 1, open, false, group.push(c), acc, depth, loopdepth, p);
                } else if c == '"' {
                    if open {
                        let string = Atom::Str { text: group.push(c), depth, loopdepth };
                        lemma_each_push(acc, string, p);
                        lemma_quotes_each(s, i + 1, false, false, Seq::empty(), acc.push(string), depth, loopdepth, p);
                    } else {
                        lemma_quotes_each(s, i + 1, true, false, group.push(c), acc, depth, loopdepth, p);
                    }
                } else if open {
                    lemma_quotes_each(s, i + 1, open, c == '\\', group.push(c), acc, depth, loopdepth, p);
                } else {
                    lemma_quotes_each(s, i + 1, open, false, group, acc.push(s[i]), depth, loopdepth, p);
                }
            },
        }
    }
}

/// The atoms of the outcome of the argument pass are operands that hold atoms of the input.
pub proof fn lemma_args_each(
    s: Seq<Atom>,
    i: int,
    group: Seq<Atom>,
    acc: Seq<Atom>,
    depth: isize,
    loopdepth: isize,
    p: spec_fn(Atom) -> bool,
    r: spec_fn(Atom) -> bool,
)
    requires
        0 <= i <= s.len(),
        each(s, p),
        each(group, p),
        each(acc, r),
        forall|g: Seq<Atom>|
            each(g, p) ==> #[trigger] r(Atom::Item { contents: g, depth, loopdepth, resolved: false }),
    ensures
        each(group_args_from(s, i, group, acc, depth, loopdepth), r),
    decreases s.len() - i,
{
    let item = Atom::Item { contents: group, depth, loopdepth, resolved: false };
    lemma_each_push(acc, item, r);
    if i < s.len() {
        assert(p(s[i]));
        if s[i].is_char(',') {
            lemma_args_each(s, i + 1, Seq::empty(), acc.push(item), depth, loopdepth, p, r);
        } else {
            lemma_each_push(group, s[i], p);
            lemma_args_each(s, i + 1, group.push(s[i]), acc, depth, loopdepth, p, r);
        }
    }
}

/// The predicate of being no bracket of one kind.
pub open spec fn no_bracket(bracket: Bracket) -> spec_fn(Atom) -> bool {
    |a: Atom| !a.is_char(bracket.open_char()) && !a.is_char(bracket.close_char())
}

/// A bracket pass leaves none of its brackets in the stream: where it
/// succeeds, every bracket of its kind has been matched and has become part
/// of a node.
pub proof fn lemma_brackets_leave_none(s: Seq<Atom>, bracket: Bracket, depth: isize, loopdepth: isize, kind: ParserKind)
    requires
        group_brackets(s, bracket, depth, loopdepth, kind) is Ok,
    ensures
        each(group_brackets(s, bracket, depth, loopdepth, kind)->Ok_0, no_bracket(bracket)),
{
    let any = |a: Atom| true;
    let r = no_bracket(bracket);
    assert(each(s, any));
    assert(each(Seq::<Atom>::empty(), any));
    assert(each(Seq::<Atom>::empty(), r));
    lemma_brackets_each(s, 0, 0, Seq::empty(), Seq::empty(), bracket, depth, loopdepth, kind, any, any, r);
}

/// The predicate of being no white space.
pub open spec fn no_space() -> spec_fn(Atom) -> bool {
    |a: Atom| !is_space(a)
}

/// What the word pass, taken up at position `i`, puts out is no white space.
pub proof fn lemma_words_drop_space_from(
    s: Seq<Atom>,
    i: int,
    group: Seq<char>,
    acc: Seq<Atom>,
    depth: isize,
    loopdepth: isize,
)
    requires
        0 <= i <= s.len(),
        each(acc, no_space()),
    ensures
        each(group_words_from(s, i, group, acc, depth, loopdepth), no_space()),
    decreases s.len() - i,
{
    let p = no_space();
    let flushed = flush_word(acc, group, depth, loopdepth);
    assert(each(flushed, p)) by {
        if group.len() > 0 {
            lemma_each_push(acc, Atom::Word { text: group, depth, loopdepth }, p);
        }
    }
    if i < s.len() {
        match s[i].unknown_char() {
            Some(c) => {
                if is_split_char(c) {
                    lemma_words_drop_space_from(s, i + 1, Seq::empty(), flushed, depth, loopdepth);
                } else if is_exclude_char(c) || is_ope_char(c) {
                    lemma_each_push(flushed, s[i], p);
                    lemma_words_drop_space_from(s, i + 1, Seq::empty(), flushed.push(s[i]), depth, loopdepth);
                } else {
                    lemma_words_drop_space_from(s, i + 1, group.push(c), acc, depth, loopdepth);
                }
            },
            None => {
                lemma_each_push(flushed, s[i], p);
                lemma_words_drop_space_from(s, i + 1, Seq::empty(), flushed.push(s[i]), depth, loopdepth);
            },
        }
    }
}

/// White space leaves the stream in the word pass: no atom of the outcome
/// of the word pass is a space, a tab or a line break.
pub proof fn lemma_words_drop_space(s: Seq<Atom>, depth: isize, loopdepth: isize)
    ensures
        each(group_words(s, depth, loopdepth), no_space()),
{
    assert(each(Seq::<Atom>::empty(), no_space()));
    lemma_words_drop_space_from(s, 0, Seq::empty(), Seq::empty(), depth, loopdepth);
}

} // verus!

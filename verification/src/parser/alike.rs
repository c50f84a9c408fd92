//! What a pass sees of the atoms it works on: their kind and, of a
//! character, a string, a comment, a word, an operator or a clause, their
//! text, but nothing of what a composite node holds. So on two runs whose
//! atoms look the same in pairs a pass takes the same steps, and the atoms of
//! its two outcomes are again alike in pairs.
use crate::abs::atom::Atom;
use crate::errors::parser_errors::ParserError;
use crate::parser::core_parser::{
    find_ope, is_exclude_char, is_ope_char, is_split_char, is_syntax_head, is_syntax_word, ope_lexeme,
    ope_priority, ParserKind, OPE_COUNT,
};
use crate::parser::grammar::{
    apply_bracket, clause_condition, expr_grammar, flush_chain, flush_pending, group_chains, group_chains_from,
    group_syntax, group_syntax_from, has_call_site, has_call_site_from, is_bracket_arg, is_callable,
    merge_calls, merge_calls_fix, merge_calls_from, new_call, new_index, new_operation, reduce_operation,
    reduction_point, reduction_point_from, split_at, takes_bracket,
};
use crate::parser::lexer::{
    close_run, flush_word, group_brackets, group_brackets_from, group_operator, group_operator_from,
    group_operators, group_operators_from, group_strings_from, group_words, group_words_from, is_blank,
    is_space, regroup, unknown_atom, unknowns, Bracket, StringAreaState,
};
use crate::parser::origin::lemma_reduction_point_in_range;
use crate::parser::statement::{
    close_expression, close_statement, comma_passes, comma_tail, group_args_from, group_quotes,
    group_quotes_from, has_statement, split_statements_from, stmt_to_expr,
};
use vstd::prelude::*;

verus! {

/// A relation between atoms.
pub type Likeness = spec_fn(Atom, Atom) -> bool;

/// Whether two runs are as long as each other and their atoms are related in pairs.
pub open spec fn pairs(s: Seq<Atom>, t: Seq<Atom>, r: Likeness) -> bool {
    s.len() == t.len() && forall|i: int| 0 <= i < s.len() ==> #[trigger] r(s[i], t[i])
}

/// Whether two outcomes are the same failure, or successes with atoms related in pairs.
pub open spec fn outcomes(a: Result<Seq<Atom>, ParserError>, b: Result<Seq<Atom>, ParserError>, r: Likeness) -> bool {
    match (a, b) {
        (Ok(x), Ok(y)) => pairs(x, y, r),
        (Err(e), Err(f)) => e == f,
        _ => false,
    }
}

/// Whether two atoms that are held back are both absent, or both present and related.
pub open spec fn both(a: Option<Atom>, b: Option<Atom>, r: Likeness) -> bool {
    match (a, b) {
        (Some(x), Some(y)) => r(x, y),
        (None, None) => true,
        _ => false,
    }
}

/// Whether an atom holds no atoms: a character, a string, a comment, a word or an operator.
pub open spec fn is_leaf(a: Atom) -> bool {
    a is Unknown || a is Str || a is Comment || a is Word || a is Ope
}

/// Whether two atoms look the same to a pass: they are of one kind, and are
/// the same where they hold no atoms; two clauses have the same name.
pub open spec fn same_head(a: Atom, b: Atom) -> bool {
    match a {
        Atom::Block { .. } => b is Block,
        Atom::ListBlock { .. } => b is ListBlock,
        Atom::ParenBlock { .. } => b is ParenBlock,
        Atom::Syntax { name, .. } => b is Syntax && b->Syntax_name == name,
        Atom::SyntaxBox { .. } => b is SyntaxBox,
        Atom::Func { .. } => b is Func,
        Atom::List { .. } => b is List,
        Atom::Item { .. } => b is Item,
        Atom::Expr { .. } => b is Expr,
        Atom::Special { .. } => b is Special,
        _ => a == b,
    }
}

/// Whether a relation is kept by everything that the passes of a parser do
/// with atoms: related atoms look the same, every atom that holds no atoms is
/// related to itself, and the nodes that are made of related atoms are related.
pub open spec fn congruent(r: Likeness, depth: isize, loopdepth: isize) -> bool {
    &&& forall|a: Atom, b: Atom| #[trigger] r(a, b) ==> same_head(a, b)
    &&& forall|x: Atom| is_leaf(x) ==> #[trigger] r(x, x)
    &&& forall|a: Atom, b: Atom|
        #[trigger] r(a, b) && regroup(a, depth, loopdepth) is Some ==> regroup(b, depth, loopdepth) is Some && r(
            regroup(a, depth, loopdepth)->0,
            regroup(b, depth, loopdepth)->0,
        )
    &&& forall|bracket: Bracket, g: Seq<Atom>, h: Seq<Atom>|
        pairs(g, h, r) ==> #[trigger] r(bracket.enclose(g, depth, loopdepth), bracket.enclose(h, depth, loopdepth))
    &&& forall|nm: Seq<char>, c: Option<Atom>, d: Option<Atom>, a: Atom, b: Atom|
        both(c, d, r) && r(a, b) && a is Block ==> #[trigger] r(
            Atom::Syntax {
                name: nm,
                expr: clause_condition(c),
                contents: a->Block_contents,
                depth,
                loopdepth,
                resolved: false,
            },
            Atom::Syntax {
                name: nm,
                expr: clause_condition(d),
                contents: b->Block_contents,
                depth,
                loopdepth,
                resolved: false,
            },
        )
    &&& forall|nm: Seq<char>, g: Seq<Atom>, h: Seq<Atom>|
        pairs(g, h, r) ==> #[trigger] r(
            Atom::SyntaxBox { name: nm, contents: g, depth, loopdepth },
            Atom::SyntaxBox { name: nm, contents: h, depth, loopdepth },
        )
    &&& forall|c: Atom, d: Atom, x: Atom, y: Atom|
        r(c, d) && r(x, y) ==> #[trigger] r(new_index(c, x, depth, loopdepth), new_index(d, y, depth, loopdepth))
    &&& forall|c: Atom, d: Atom, x: Atom, y: Atom|
        r(c, d) && r(x, y) ==> #[trigger] r(new_call(c, x, depth, loopdepth), new_call(d, y, depth, loopdepth))
    &&& forall|c: Atom, d: Atom, l: Seq<Atom>, m: Seq<Atom>, u: Seq<Atom>, v: Seq<Atom>|
        r(c, d) && pairs(l, m, r) && pairs(u, v, r) ==> #[trigger] r(
            new_operation(c, l, u, depth, loopdepth),
            new_operation(d, m, v, depth, loopdepth),
        )
    &&& forall|g: Seq<Atom>, h: Seq<Atom>|
        pairs(g, h, r) ==> #[trigger] r(
            Atom::Expr { code_list: g, depth, loopdepth, resolved: false },
            Atom::Expr { code_list: h, depth, loopdepth, resolved: false },
        )
    &&& forall|head: Seq<char>, g: Seq<Atom>, h: Seq<Atom>|
        pairs(g, h, r) ==> #[trigger] r(
            Atom::Special { head, code_list: g, depth, loopdepth, resolved: false },
            Atom::Special { head, code_list: h, depth, loopdepth, resolved: false },
        )
    &&& forall|g: Seq<Atom>, h: Seq<Atom>|
        pairs(g, h, r) ==> #[trigger] r(
            Atom::Item { contents: g, depth, loopdepth, resolved: false },
            Atom::Item { contents: h, depth, loopdepth, resolved: false },
        )
}

/// Two runs with one more atom each are related where the runs and the atoms are.
pub proof fn lemma_pairs_push(s: Seq<Atom>, t: Seq<Atom>, a: Atom, b: Atom, r: Likeness)
    requires
        pairs(s, t, r),
        r(a, b),
    ensures
        pairs(s.push(a), t.push(b), r),
{
    assert forall|i: int| 0 <= i < s.push(a).len() implies #[trigger] r(s.push(a)[i], t.push(b)[i]) by {
        if i < s.len() {
            assert(s.push(a)[i] == s[i]);
            assert(t.push(b)[i] == t[i]);
            assert(r(s[i], t[i]));
        }
    }
}

/// Two empty runs are related.
pub proof fn lemma_pairs_empty(r: Likeness)
    ensures
        pairs(Seq::<Atom>::empty(), Seq::<Atom>::empty(), r),
{
}

/// The quote and comment pass takes the same steps on two runs whose atoms
/// look the same in pairs.
pub proof fn lemma_strings_pairs(
    s: Seq<Atom>,
    t: Seq<Atom>,
    i: int,
    mode: StringAreaState,
    escape: bool,
    group: Seq<char>,
    acc: Seq<Atom>,
    acc_t: Seq<Atom>,
    depth: isize,
    loopdepth: isize,
    kind: ParserKind,
    r: Likeness,
)
    requires
        0 <= i <= s.len(),
        pairs(s, t, r),
        pairs(acc, acc_t, r),
        congruent(r, depth, loopdepth),
    ensures
        outcomes(
            group_strings_from(s, i, mode, escape, group, acc, depth, loopdepth, kind),
            group_strings_from(t, i, mode, escape, group, acc_t, depth, loopdepth, kind),
            r,
        ),
    decreases s.len() - i,
{
    let closed = StringAreaState::Closed;
    let comment = Atom::Comment { text: group, depth, loopdepth };
    let string = Atom::Str { text: group, depth, loopdepth };
    let none = Seq::<char>::empty();
    assert(r(comment, comment));
    assert(r(string, string));
    lemma_pairs_push(acc, acc_t, comment, comment, r);
    lemma_pairs_push(acc, acc_t, string, string, r);
    if i < s.len() {
        assert(r(s[i], t[i]));
        assert(same_head(s[i], t[i]));
        lemma_pairs_push(acc, acc_t, s[i], t[i], r);
        if i + 1 < s.len() {
            assert(r(s[i + 1], t[i + 1]));
            assert(same_head(s[i + 1], t[i + 1]));
        }
        match s[i].unknown_char() {
            None => {
                lemma_strings_pairs(
                    s,
                    t,
                    i + 1,
                    mode,
                    escape,
                    group,
                    acc.push(s[i]),
                    acc_t.push(t[i]),
                    depth,
                    loopdepth,
                    kind,
                    r,
                );
            },
            Some(c) => match mode {
                StringAreaState::CommentStart => {
                    if c == '\n' {
                        lemma_strings_pairs(
                            s,
                            t,
                            i + 1,
                            closed,
                            escape,
                            none,
                            acc.push(comment),
                            acc_t.push(comment),
                            depth,
                            loopdepth,
                            kind,
                            r,
                        );
                    } else {
                        lemma_strings_pairs(s, t, i + 1, mode, escape, group.push(c), acc, acc_t, depth, loopdepth, kind, r);
                    }
                },
                StringAreaState::CommentOpen => {
                    if c != '*' {
                        lemma_strings_pairs(s, t, i + 1, mode, escape, group.push(c), acc, acc_t, depth, loopdepth, kind, r);
                    } else if i + 1 < s.len() {
                        match s[i + 1].unknown_char() {
                            None => {},
                            Some(n) => {
                                if n == '/' {
                                    lemma_strings_pairs(
                                        s,
                                        t,
                                        i + 2,
                                        closed,
                                        escape,
                                        none,
                                        acc.push(comment),
                                        acc_t.push(comment),
                                        depth,
                                        loopdepth,
                                        kind,
                                        r,
                                    );
                                } else {
                                    lemma_strings_pairs(
                                        s,
                                        t,
                                        i + 1,
                                        mode,
                                        escape,
                                        group.push(c),
                                        acc,
                                        acc_t,
                                        depth,
                                        loopdepth,
                                        kind,
                                        r,
                                    );
                                }
                            },
                        }
                    }
                },
                StringAreaState::QuotationOpen => {
                    if escape {
                        lemma_strings_pairs(s, t, i + 1, mode, false, group.push(c), acc, acc_t, depth, loopdepth, kind, r);
                    } else if c == '"' {
                        lemma_strings_pairs(
                            s,
                            t,
                            i + 1,
                            closed,
                            false,
                            none,
                            acc.push(string),
                            acc_t.push(string),
                            depth,
                            loopdepth,
                            kind,
                            r,
                        );
                    } else if c == '\\' {
                        lemma_strings_pairs(s, t, i + 1, mode, true, group, acc, acc_t, depth, loopdepth, kind, r);
                    } else {
                        lemma_strings_pairs(s, t, i + 1, mode, false, group.push(c), acc, acc_t, depth, loopdepth, kind, r);
                    }
                },
                StringAreaState::Closed => {
                    let quote = StringAreaState::QuotationOpen;
                    let block = StringAreaState::CommentOpen;
                    let line = StringAreaState::CommentStart;
                    if c == '"' {
                        lemma_strings_pairs(s, t, i + 1, quote, false, none, acc, acc_t, depth, loopdepth, kind, r);
                    } else if c == '/' && i + 1 < s.len() && s[i + 1].is_char('*') {
                        lemma_strings_pairs(s, t, i + 2, block, false, none, acc, acc_t, depth, loopdepth, kind, r);
                    } else if c == '/' && i + 1 < s.len() && s[i + 1].is_char('/') {
                        lemma_strings_pairs(s, t, i + 2, line, false, none, acc, acc_t, depth, loopdepth, kind, r);
                    } else {
                        lemma_strings_pairs(
                            s,
                            t,
                            i + 1,
                            mode,
                            false,
                            group,
                            acc.push(s[i]),
                            acc_t.push(t[i]),
                            depth,
                            loopdepth,
                            kind,
                            r,
                        );
                    }
                },
            },
        }
    }
}

/// A bracket pass takes the same steps on two runs whose atoms look the same in pairs.
pub proof fn lemma_brackets_pairs(
    s: Seq<Atom>,
    t: Seq<Atom>,
    i: int,
    level: nat,
    group: Seq<Atom>,
    group_t: Seq<Atom>,
    acc: Seq<Atom>,
    acc_t: Seq<Atom>,
    bracket: Bracket,
    depth: isize,
    loopdepth: isize,
    kind: ParserKind,
    r: Likeness,
)
    requires
        0 <= i <= s.len(),
        pairs(s, t, r),
        pairs(group, group_t, r),
        pairs(acc, acc_t, r),
        congruent(r, depth, loopdepth),
    ensures
        outcomes(
            group_brackets_from(s, i, level, group, acc, bracket, depth, loopdepth, kind),
            group_brackets_from(t, i, level, group_t, acc_t, bracket, depth, loopdepth, kind),
            r,
        ),
    decreases s.len() - i,
{
    if i < s.len() {
        assert(r(s[i], t[i]));
        assert(same_head(s[i], t[i]));
        lemma_pairs_push(acc, acc_t, s[i], t[i], r);
        lemma_pairs_push(group, group_t, s[i], t[i], r);
        let node = bracket.enclose(group, depth, loopdepth);
        let node_t = bracket.enclose(group_t, depth, loopdepth);
        assert(r(node, node_t));
        lemma_pairs_push(acc, acc_t, node, node_t, r);
        lemma_pairs_empty(r);
        let none = Seq::<Atom>::empty();
        if s[i].is_char(bracket.open_char()) {
            if level == 0 {
                lemma_brackets_pairs(s, t, i + 1, level + 1, group, group_t, acc, acc_t, bracket, depth, loopdepth, kind, r);
            } else {
                lemma_brackets_pairs(
                    s,
                    t,
                    i + 1,
                    level + 1,
                    group.push(s[i]),
                    group_t.push(t[i]),
                    acc,
                    acc_t,
                    bracket,
                    depth,
                    loopdepth,
                    kind,
                    r,
                );
            }
        } else if s[i].is_char(bracket.close_char()) {
            if level == 1 {
                lemma_brackets_pairs(
                    s,
                    t,
                    i + 1,
                    0,
                    none,
                    none,
                    acc.push(node),
                    acc_t.push(node_t),
                    bracket,
                    depth,
                    loopdepth,
                    kind,
                    r,
                );
            } else if level > 1 {
                lemma_brackets_pairs(
                    s,
                    t,
                    i + 1,
                    (level - 1) as nat,
                    group.push(s[i]),
                    group_t.push(t[i]),
                    acc,
                    acc_t,
                    bracket,
                    depth,
                    loopdepth,
                    kind,
                    r,
                );
            }
        } else if level == 0 {
            lemma_brackets_pairs(
                s,
                t,
                i + 1,
                level,
                group,
                group_t,
                acc.push(s[i]),
                acc_t.push(t[i]),
                bracket,
                depth,
                loopdepth,
                kind,
                r,
            );
        } else {
            match regroup(s[i], depth, loopdepth) {
                Some(a) => {
                    let b = regroup(t[i], depth, loopdepth)->0;
                    lemma_pairs_push(group, group_t, a, b, r);
                    lemma_brackets_pairs(
                        s,
                        t,
                        i + 1,
                        level,
                        group.push(a),
                        group_t.push(b),
                        acc,
                        acc_t,
                        bracket,
                        depth,
                        loopdepth,
                        kind,
                        r,
                    );
                },
                None => {
                    assert(regroup(t[i], depth, loopdepth) is None);
                },
            }
        }
    }
}

/// The word pass takes the same steps on two runs whose atoms look the same in pairs.
pub proof fn lemma_words_pairs(
    s: Seq<Atom>,
    t: Seq<Atom>,
    i: int,
    group: Seq<char>,
    acc: Seq<Atom>,
    acc_t: Seq<Atom>,
    depth: isize,
    loopdepth: isize,
    r: Likeness,
)
    requires
        0 <= i <= s.len(),
        pairs(s, t, r),
        pairs(acc, acc_t, r),
        congruent(r, depth, loopdepth),
    ensures
        pairs(
            group_words_from(s, i, group, acc, depth, loopdepth),
            group_words_from(t, i, group, acc_t, depth, loopdepth),
            r,
        ),
    decreases s.len() - i,
{
    let word = Atom::Word { text: group, depth, loopdepth };
    let flushed = flush_word(acc, group, depth, loopdepth);
    let flushed_t = flush_word(acc_t, group, depth, loopdepth);
    assert(pairs(flushed, flushed_t, r)) by {
        assert(r(word, word));
        lemma_pairs_push(acc, acc_t, word, word, r);
    }
    if i < s.len() {
        assert(r(s[i], t[i]));
        assert(same_head(s[i], t[i]));
        lemma_pairs_push(flushed, flushed_t, s[i], t[i], r);
        let none = Seq::<char>::empty();
        match s[i].unknown_char() {
            Some(c) => {
                if is_split_char(c) {
                    lemma_words_pairs(s, t, i + 1, none, flushed, flushed_t, depth, loopdepth, r);
                } else if is_exclude_char(c) || is_ope_char(c) {
                    lemma_words_pairs(s, t, i + 1, none, flushed.push(s[i]), flushed_t.push(t[i]), depth, loopdepth, r);
                } else {
                    lemma_words_pairs(s, t, i + 1, group.push(c), acc, acc_t, depth, loopdepth, r);
                }
            },
            None => {
                lemma_words_pairs(s, t, i + 1, none, flushed.push(s[i]), flushed_t.push(t[i]), depth, loopdepth, r);
            },
        }
    }
}

/// A closed run of operator characters is the same atoms on both sides.
pub proof fn lemma_close_run_pairs(acc: Seq<Atom>, acc_t: Seq<Atom>, group: Seq<char>, ope: Seq<char>, depth: isize, loopdepth: isize, r: Likeness)
    requires
        pairs(acc, acc_t, r),
        congruent(r, depth, loopdepth),
    ensures
        pairs(close_run(acc, group, ope, depth), close_run(acc_t, group, ope, depth), r),
    decreases group.len(),
{
    let operator = Atom::Ope { ope: group, depth };
    assert(r(operator, operator));
    lemma_pairs_push(acc, acc_t, operator, operator, r);
    if group != ope {
        lemma_unknowns_pairs(acc, acc_t, group, depth, loopdepth, r);
    }
}

/// The atoms of a text are related to themselves.
pub proof fn lemma_unknowns_pairs(acc: Seq<Atom>, acc_t: Seq<Atom>, text: Seq<char>, depth: isize, loopdepth: isize, r: Likeness)
    requires
        pairs(acc, acc_t, r),
        congruent(r, depth, loopdepth),
    ensures
        pairs(acc + unknowns(text), acc_t + unknowns(text), r),
    decreases text.len(),
{
    if text.len() == 0 {
        assert(acc + unknowns(text) =~= acc);
        assert(acc_t + unknowns(text) =~= acc_t);
    } else {
        lemma_unknowns_pairs(acc, acc_t, text.drop_last(), depth, loopdepth, r);
        let x = unknowns(text.drop_last());
        let u = unknown_atom(text.last());
        assert(r(u, u));
        lemma_pairs_push(acc + x, acc_t + x, u, u, r);
        assert(acc + x.push(u) =~= (acc + x).push(u));
        assert(acc_t + x.push(u) =~= (acc_t + x).push(u));
    }
}

/// The pass for one operator takes the same steps on two runs whose atoms
/// look the same in pairs.
pub proof fn lemma_operator_pairs(
    s: Seq<Atom>,
    t: Seq<Atom>,
    i: int,
    group: Seq<char>,
    acc: Seq<Atom>,
    acc_t: Seq<Atom>,
    ope: Seq<char>,
    depth: isize,
    loopdepth: isize,
    r: Likeness,
)
    requires
        0 <= i <= s.len(),
        pairs(s, t, r),
        pairs(acc, acc_t, r),
        congruent(r, depth, loopdepth),
    ensures
        pairs(group_operator_from(s, i, group, acc, ope, depth), group_operator_from(t, i, group, acc_t, ope, depth), r),
    decreases s.len() - i,
{
    if i < s.len() {
        assert(r(s[i], t[i]));
        assert(same_head(s[i], t[i]));
        let none = Seq::<char>::empty();
        match s[i].unknown_char() {
            Some(c) => {
                if group.len() + 1 < ope.len() {
                    lemma_operator_pairs(s, t, i + 1, group.push(c), acc, acc_t, ope, depth, loopdepth, r);
                } else {
                    lemma_close_run_pairs(acc, acc_t, group.push(c), ope, depth, loopdepth, r);
                    lemma_operator_pairs(
                        s,
                        t,
                        i + 1,
                        none,
                        close_run(acc, group.push(c), ope, depth),
                        close_run(acc_t, group.push(c), ope, depth),
                        ope,
                        depth,
                        loopdepth,
                        r,
                    );
                }
            },
            None => {
                lemma_close_run_pairs(acc, acc_t, group, ope, depth, loopdepth, r);
                let a = close_run(acc, group, ope, depth);
                let b = close_run(acc_t, group, ope, depth);
                lemma_pairs_push(a, b, s[i], t[i], r);
                lemma_operator_pairs(s, t, i + 1, none, a.push(s[i]), b.push(t[i]), ope, depth, loopdepth, r);
            },
        }
    } else {
        lemma_unknowns_pairs(acc, acc_t, group, depth, loopdepth, r);
    }
}

/// The operator passes take the same steps on two runs whose atoms look the same in pairs.
pub proof fn lemma_operators_pairs(s: Seq<Atom>, t: Seq<Atom>, k: int, depth: isize, loopdepth: isize, r: Likeness)
    requires
        0 <= k,
        pairs(s, t, r),
        congruent(r, depth, loopdepth),
    ensures
        pairs(group_operators_from(s, k, depth), group_operators_from(t, k, depth), r),
    decreases OPE_COUNT - k,
{
    if k < OPE_COUNT {
        lemma_pairs_empty(r);
        lemma_operator_pairs(s, t, 0, Seq::empty(), Seq::empty(), Seq::empty(), ope_lexeme(k), depth, loopdepth, r);
        lemma_operators_pairs(
            group_operator(s, ope_lexeme(k), depth),
            group_operator(t, ope_lexeme(k), depth),
            k + 1,
            depth,
            loopdepth,
            r,
        );
    }
}

/// The clause pass takes the same steps on two runs whose atoms look the same in pairs.
pub proof fn lemma_syntax_pairs(
    s: Seq<Atom>,
    t: Seq<Atom>,
    i: int,
    name: Option<Seq<char>>,
    expr: Option<Atom>,
    expr_t: Option<Atom>,
    acc: Seq<Atom>,
    acc_t: Seq<Atom>,
    depth: isize,
    loopdepth: isize,
    r: Likeness,
)
    requires
        0 <= i <= s.len(),
        pairs(s, t, r),
        pairs(acc, acc_t, r),
        both(expr, expr_t, r),
        congruent(r, depth, loopdepth),
    ensures
        pairs(
            group_syntax_from(s, i, name, expr, acc, depth, loopdepth),
            group_syntax_from(t, i, name, expr_t, acc_t, depth, loopdepth),
            r,
        ),
    decreases s.len() - i,
{
    if i < s.len() {
        assert(r(s[i], t[i]));
        assert(same_head(s[i], t[i]));
        lemma_pairs_push(acc, acc_t, s[i], t[i], r);
        match s[i] {
            Atom::Word { text, .. } => {
                if is_syntax_word(text) {
                    lemma_syntax_pairs(s, t, i + 1, Some(text), expr, expr_t, acc, acc_t, depth, loopdepth, r);
                } else {
                    lemma_syntax_pairs(s, t, i + 1, name, expr, expr_t, acc.push(s[i]), acc_t.push(t[i]), depth, loopdepth, r);
                }
            },
            Atom::ParenBlock { .. } => {
                if name is Some {
                    lemma_syntax_pairs(s, t, i + 1, name, Some(s[i]), Some(t[i]), acc, acc_t, depth, loopdepth, r);
                } else {
                    lemma_syntax_pairs(s, t, i + 1, name, expr, expr_t, acc.push(s[i]), acc_t.push(t[i]), depth, loopdepth, r);
                }
            },
            Atom::Block { contents, .. } => {
                match name {
                    Some(n) => {
                        let clause = Atom::Syntax {
                            name: n,
                            expr: clause_condition(expr),
                            contents: s[i]->Block_contents,
                            depth,
                            loopdepth,
                            resolved: false,
                        };
                        let dlause = Atom::Syntax {
                            name: n,
                            expr: clause_condition(expr_t),
                            contents: t[i]->Block_contents,
                            depth,
                            loopdepth,
                            resolved: false,
                        };
                        assert(r(clause, dlause));
                        lemma_pairs_push(acc, acc_t, clause, dlause, r);
                        lemma_syntax_pairs(
                            s,
                            t,
                            i + 1,
                            None,
                            None,
                            None,
                            acc.push(clause),
                            acc_t.push(dlause),
                            depth,
                            loopdepth,
                            r,
                        );
                    },
                    None => {
                        let before = match expr {
                            Some(e) => acc.push(e),
                            None => acc,
                        };
                        let cefore = match expr_t {
                            Some(e) => acc_t.push(e),
                            None => acc_t,
                        };
                        assert(pairs(before, cefore, r)) by {
                            match (expr, expr_t) {
                                (Some(e), Some(f)) => {
                                    lemma_pairs_push(acc, acc_t, e, f, r);
                                },
                                _ => {},
                            }
                        }
                        lemma_pairs_push(before, cefore, s[i], t[i], r);
                        lemma_syntax_pairs(
                            s,
                            t,
                            i + 1,
                            None,
                            None,
                            None,
                            before.push(s[i]),
                            cefore.push(t[i]),
                            depth,
                            loopdepth,
                            r,
                        );
                    },
                }
            },
            _ => {
                lemma_syntax_pairs(s, t, i + 1, name, expr, expr_t, acc.push(s[i]), acc_t.push(t[i]), depth, loopdepth, r);
            },
        }
    }
}

/// The chain pass takes the same steps on two runs whose atoms look the same in pairs.
pub proof fn lemma_chains_pairs(
    s: Seq<Atom>,
    t: Seq<Atom>,
    i: int,
    name: Seq<char>,
    group: Seq<Atom>,
    group_t: Seq<Atom>,
    acc: Seq<Atom>,
    acc_t: Seq<Atom>,
    depth: isize,
    loopdepth: isize,
    r: Likeness,
)
    requires
        0 <= i <= s.len(),
        pairs(s, t, r),
        pairs(group, group_t, r),
        pairs(acc, acc_t, r),
        congruent(r, depth, loopdepth),
    ensures
        outcomes(
            group_chains_from(s, i, name, group, acc, depth, loopdepth),
            group_chains_from(t, i, name, group_t, acc_t, depth, loopdepth),
            r,
        ),
    decreases s.len() - i,
{
    let chain = Atom::SyntaxBox { name, contents: group, depth, loopdepth };
    let chain_t = Atom::SyntaxBox { name, contents: group_t, depth, loopdepth };
    let flushed = flush_chain(acc, name, group, depth, loopdepth);
    let flushed_t = flush_chain(acc_t, name, group_t, depth, loopdepth);
    assert(pairs(flushed, flushed_t, r)) by {
        assert(r(chain, chain_t));
        lemma_pairs_push(acc, acc_t, chain, chain_t, r);
    }
    let none = Seq::<Atom>::empty();
    let blank = Seq::<char>::empty();
    lemma_pairs_empty(r);
    if i < s.len() {
        assert(r(s[i], t[i]));
        assert(same_head(s[i], t[i]));
        lemma_pairs_push(group, group_t, s[i], t[i], r);
        lemma_pairs_push(acc, acc_t, s[i], t[i], r);
        lemma_pairs_push(flushed, flushed_t, s[i], t[i], r);
        match s[i] {
            Atom::Syntax { name: n, .. } => {
                if is_syntax_head(n) {
                    lemma_pairs_push(none, none, s[i], t[i], r);
                    lemma_chains_pairs(
                        s,
                        t,
                        i + 1,
                        n,
                        none.push(s[i]),
                        none.push(t[i]),
                        flushed,
                        flushed_t,
                        depth,
                        loopdepth,
                        r,
                    );
                } else if n == "elif"@ {
                    if group.len() > 0 {
                        lemma_chains_pairs(
                            s,
                            t,
                            i + 1,
                            name,
                            group.push(s[i]),
                            group_t.push(t[i]),
                            acc,
                            acc_t,
                            depth,
                            loopdepth,
                            r,
                        );
                    }
                } else if n == "else"@ {
                    if group.len() > 0 {
                        let closed = Atom::SyntaxBox { name, contents: group.push(s[i]), depth, loopdepth };
                        let dlosed = Atom::SyntaxBox { name, contents: group_t.push(t[i]), depth, loopdepth };
                        assert(r(closed, dlosed));
                        lemma_pairs_push(acc, acc_t, closed, dlosed, r);
                        lemma_chains_pairs(
                            s,
                            t,
                            i + 1,
                            blank,
                            none,
                            none,
                            acc.push(closed),
                            acc_t.push(dlosed),
                            depth,
                            loopdepth,
                            r,
                        );
                    }
                } else {
                    lemma_chains_pairs(
                        s,
                        t,
                        i + 1,
                        name,
                        group,
                        group_t,
                        acc.push(s[i]),
                        acc_t.push(t[i]),
                        depth,
                        loopdepth,
                        r,
                    );
                }
            },
            _ => {
                lemma_chains_pairs(
                    s,
                    t,
                    i + 1,
                    if group.len() > 0 {
                        blank
                    } else {
                        name
                    },
                    none,
                    none,
                    flushed.push(s[i]),
                    flushed_t.push(t[i]),
                    depth,
                    loopdepth,
                    r,
                );
            },
        }
    }
}

/// Atoms that look the same are callees, and take brackets, alike.
pub proof fn lemma_heads_call_alike(a: Atom, b: Atom)
    requires
        same_head(a, b),
    ensures
        is_callable(a) == is_callable(b),
        takes_bracket(a) == takes_bracket(b),
        is_bracket_arg(a) == is_bracket_arg(b),
{
}

/// Two runs whose atoms look the same in pairs hold a callee before a
/// bracket together or not at all.
pub proof fn lemma_call_site_pairs(s: Seq<Atom>, t: Seq<Atom>, i: int, pending: Option<Atom>, pending_t: Option<Atom>, r: Likeness, depth: isize, loopdepth: isize)
    requires
        0 <= i <= s.len(),
        pairs(s, t, r),
        both(pending, pending_t, r),
        congruent(r, depth, loopdepth),
    ensures
        has_call_site_from(s, i, pending) == has_call_site_from(t, i, pending_t),
    decreases s.len() - i,
{
    if i < s.len() {
        assert(r(s[i], t[i]));
        lemma_heads_call_alike(s[i], t[i]);
        match (pending, pending_t) {
            (Some(p), Some(q)) => {
                lemma_heads_call_alike(p, q);
            },
            _ => {},
        }
        if is_callable(s[i]) {
            lemma_call_site_pairs(s, t, i + 1, Some(s[i]), Some(t[i]), r, depth, loopdepth);
        } else {
            lemma_call_site_pairs(s, t, i + 1, None, None, r, depth, loopdepth);
        }
    }
}

/// One call pass takes the same steps on two runs whose atoms look the same in pairs.
pub proof fn lemma_calls_pairs(
    s: Seq<Atom>,
    t: Seq<Atom>,
    i: int,
    pending: Option<Atom>,
    pending_t: Option<Atom>,
    acc: Seq<Atom>,
    acc_t: Seq<Atom>,
    depth: isize,
    loopdepth: isize,
    r: Likeness,
)
    requires
        0 <= i <= s.len(),
        pairs(s, t, r),
        pairs(acc, acc_t, r),
        both(pending, pending_t, r),
        congruent(r, depth, loopdepth),
    ensures
        pairs(
            merge_calls_from(s, i, pending, acc, depth, loopdepth),
            merge_calls_from(t, i, pending_t, acc_t, depth, loopdepth),
            r,
        ),
    decreases s.len() - i,
{
    let flushed = flush_pending(acc, pending);
    let flushed_t = flush_pending(acc_t, pending_t);
    assert(pairs(flushed, flushed_t, r)) by {
        match (pending, pending_t) {
            (Some(p), Some(q)) => {
                lemma_pairs_push(acc, acc_t, p, q, r);
            },
            _ => {},
        }
    }
    if i < s.len() {
        assert(r(s[i], t[i]));
        lemma_heads_call_alike(s[i], t[i]);
        if is_callable(s[i]) {
            lemma_calls_pairs(s, t, i + 1, Some(s[i]), Some(t[i]), flushed, flushed_t, depth, loopdepth, r);
        } else {
            match (pending, pending_t) {
                (Some(c), Some(d)) => {
                    lemma_heads_call_alike(c, d);
                    assert(same_head(s[i], t[i]));
                    let next = apply_bracket(acc, c, s[i], depth, loopdepth);
                    let next_t = apply_bracket(acc_t, d, t[i], depth, loopdepth);
                    assert(pairs(next, next_t, r)) by {
                        lemma_pairs_push(acc, acc_t, c, d, r);
                        lemma_pairs_push(acc.push(c), acc_t.push(d), s[i], t[i], r);
                        assert(r(new_index(c, s[i], depth, loopdepth), new_index(d, t[i], depth, loopdepth)));
                        assert(r(new_call(c, s[i], depth, loopdepth), new_call(d, t[i], depth, loopdepth)));
                        lemma_pairs_push(
                            acc,
                            acc_t,
                            new_index(c, s[i], depth, loopdepth),
                            new_index(d, t[i], depth, loopdepth),
                            r,
                        );
                        lemma_pairs_push(
                            acc,
                            acc_t,
                            new_call(c, s[i], depth, loopdepth),
                            new_call(d, t[i], depth, loopdepth),
                            r,
                        );
                    }
                    lemma_calls_pairs(s, t, i + 1, None, None, next, next_t, depth, loopdepth, r);
                },
                _ => {
                    lemma_pairs_push(acc, acc_t, s[i], t[i], r);
                    lemma_calls_pairs(s, t, i + 1, None, None, acc.push(s[i]), acc_t.push(t[i]), depth, loopdepth, r);
                },
            }
        }
    }
}

/// The call passes take the same steps on two runs whose atoms look the same in pairs.
pub proof fn lemma_calls_fix_pairs(s: Seq<Atom>, t: Seq<Atom>, depth: isize, loopdepth: isize, r: Likeness)
    requires
        pairs(s, t, r),
        congruent(r, depth, loopdepth),
    ensures
        pairs(merge_calls_fix(s, depth, loopdepth), merge_calls_fix(t, depth, loopdepth), r),
    decreases s.len(),
{
    lemma_pairs_empty(r);
    lemma_call_site_pairs(s, t, 0, None, None, r, depth, loopdepth);
    lemma_calls_pairs(s, t, 0, None, None, Seq::empty(), Seq::empty(), depth, loopdepth, r);
    if has_call_site(s) && merge_calls(s, depth, loopdepth).len() < s.len() {
        lemma_calls_fix_pairs(merge_calls(s, depth, loopdepth), merge_calls(t, depth, loopdepth), depth, loopdepth, r);
    }
}

/// The search for the reduction point takes the same steps on two runs
/// whose atoms look the same in pairs.
pub proof fn lemma_reduction_point_pairs(
    s: Seq<Atom>,
    t: Seq<Atom>,
    i: int,
    prio: int,
    best: Option<int>,
    r: Likeness,
    depth: isize,
    loopdepth: isize,
)
    requires
        0 <= i <= s.len(),
        pairs(s, t, r),
        congruent(r, depth, loopdepth),
    ensures
        reduction_point_from(s, i, prio, best) == reduction_point_from(t, i, prio, best),
    decreases s.len() - i,
{
    if i < s.len() {
        assert(r(s[i], t[i]));
        assert(same_head(s[i], t[i]));
        if i > 0 {
            assert(r(s[i - 1], t[i - 1]));
            assert(same_head(s[i - 1], t[i - 1]));
        }
        match s[i] {
            Atom::Ope { ope, .. } => {
                match find_ope(ope) {
                    None => {},
                    Some(k) => {
                        if i > 0 && s[i - 1] is Ope {
                            lemma_reduction_point_pairs(s, t, i + 1, prio, best, r, depth, loopdepth);
                        } else if ope_priority(k) < prio {
                            lemma_reduction_point_pairs(s, t, i + 1, ope_priority(k), Some(i), r, depth, loopdepth);
                        } else {
                            lemma_reduction_point_pairs(s, t, i + 1, prio, best, r, depth, loopdepth);
                        }
                    },
                }
            },
            _ => {
                lemma_reduction_point_pairs(s, t, i + 1, prio, best, r, depth, loopdepth);
            },
        }
    }
}

/// The precedence pass takes the same steps on two runs whose atoms look the same in pairs.
pub proof fn lemma_reduce_pairs(s: Seq<Atom>, t: Seq<Atom>, depth: isize, loopdepth: isize, r: Likeness)
    requires
        pairs(s, t, r),
        congruent(r, depth, loopdepth),
    ensures
        outcomes(reduce_operation(s, depth, loopdepth), reduce_operation(t, depth, loopdepth), r),
{
    lemma_reduction_point_pairs(s, t, 0, i32::MAX as int, None, r, depth, loopdepth);
    match reduction_point(s) {
        Ok(Some(k)) => {
            lemma_reduction_point_in_range(s, 0, i32::MAX as int, None);
            let l = s.subrange(0, k);
            let m = t.subrange(0, k);
            let u = s.subrange(k + 1, s.len() as int);
            let v = t.subrange(k + 1, t.len() as int);
            assert(pairs(l, m, r)) by {
                assert forall|j: int| 0 <= j < l.len() implies #[trigger] r(l[j], m[j]) by {
                    assert(l[j] == s[j] && m[j] == t[j]);
                    assert(r(s[j], t[j]));
                }
            }
            assert(pairs(u, v, r)) by {
                assert forall|j: int| 0 <= j < u.len() implies #[trigger] r(u[j], v[j]) by {
                    assert(u[j] == s[j + k + 1] && v[j] == t[j + k + 1]);
                    assert(r(s[j + k + 1], t[j + k + 1]));
                }
            }
            assert(r(s[k], t[k]));
            let a = split_at(s, k, depth, loopdepth);
            let b = split_at(t, k, depth, loopdepth);
            assert(r(a[0], b[0]));
            assert forall|j: int| 0 <= j < a.len() implies #[trigger] r(a[j], b[j]) by {
                assert(a[j] == a[0] && b[j] == b[0]);
            }
        },
        _ => {},
    }
}

/// The passes of the expression parser that follow the bracket passes take
/// the same steps on two runs whose atoms look the same in pairs.
pub proof fn lemma_grammar_pairs(s: Seq<Atom>, t: Seq<Atom>, depth: isize, loopdepth: isize, r: Likeness)
    requires
        pairs(s, t, r),
        congruent(r, depth, loopdepth),
    ensures
        outcomes(expr_grammar(s, depth, loopdepth), expr_grammar(t, depth, loopdepth), r),
{
    let none = Seq::<Atom>::empty();
    let blank = Seq::<char>::empty();
    lemma_pairs_empty(r);
    lemma_words_pairs(s, t, 0, blank, none, none, depth, loopdepth, r);
    let ws = group_words(s, depth, loopdepth);
    let wt = group_words(t, depth, loopdepth);
    lemma_syntax_pairs(ws, wt, 0, None, None, None, none, none, depth, loopdepth, r);
    let ys = group_syntax(ws, depth, loopdepth);
    let yt = group_syntax(wt, depth, loopdepth);
    lemma_chains_pairs(ys, yt, 0, blank, none, none, none, none, depth, loopdepth, r);
    if group_chains(ys, depth, loopdepth) is Ok {
        let cs = group_chains(ys, depth, loopdepth)->Ok_0;
        let ct = group_chains(yt, depth, loopdepth)->Ok_0;
        lemma_calls_fix_pairs(cs, ct, depth, loopdepth, r);
        let ms = merge_calls_fix(cs, depth, loopdepth);
        let mt = merge_calls_fix(ct, depth, loopdepth);
        lemma_operators_pairs(ms, mt, 0, depth, loopdepth, r);
        lemma_reduce_pairs(group_operators(ms, depth), group_operators(mt, depth), depth, loopdepth, r);
    }
}

/// Two runs whose atoms look the same in pairs hold a statement together or not at all.
pub proof fn lemma_stmt_to_expr_pairs(g: Seq<Atom>, h: Seq<Atom>, r: Likeness, depth: isize, loopdepth: isize)
    requires
        pairs(g, h, r),
        congruent(r, depth, loopdepth),
    ensures
        stmt_to_expr(g) is Ok <==> stmt_to_expr(h) is Ok,
        stmt_to_expr(g) is Ok ==> stmt_to_expr(g)->Ok_0 == g && stmt_to_expr(h)->Ok_0 == h,
        stmt_to_expr(g) is Err ==> stmt_to_expr(g)->Err_0 == ParserError::UnableToConvertType && stmt_to_expr(
            h,
        )->Err_0 == ParserError::UnableToConvertType,
{
    assert forall|k: int| 0 <= k < g.len() implies has_statement(#[trigger] g[k]) == has_statement(h[k]) by {
        assert(r(g[k], h[k]));
        assert(same_head(g[k], h[k]));
    }
    if stmt_to_expr(g) is Ok {
        assert forall|k: int| 0 <= k < h.len() implies !has_statement(#[trigger] h[k]) by {
            assert(has_statement(g[k]) == has_statement(h[k]));
        }
    } else {
        let k = choose|k: int| 0 <= k < g.len() && has_statement(#[trigger] g[k]);
        assert(has_statement(g[k]) == has_statement(h[k]));
        assert(has_statement(h[k]));
    }
}

/// The statements that two runs make are related where the atoms of the runs are.
pub proof fn lemma_close_statement_pairs(
    acc: Seq<Atom>,
    acc_t: Seq<Atom>,
    group: Seq<Atom>,
    group_t: Seq<Atom>,
    depth: isize,
    loopdepth: isize,
    r: Likeness,
)
    requires
        pairs(acc, acc_t, r),
        pairs(group, group_t, r),
        congruent(r, depth, loopdepth),
    ensures
        outcomes(
            close_statement(acc, group, depth, loopdepth),
            close_statement(acc_t, group_t, depth, loopdepth),
            r,
        ),
        outcomes(
            close_expression(acc, group, depth, loopdepth),
            close_expression(acc_t, group_t, depth, loopdepth),
            r,
        ),
{
    lemma_stmt_to_expr_pairs(group, group_t, r, depth, loopdepth);
    let whole = Atom::Expr { code_list: group, depth, loopdepth, resolved: false };
    let whole_t = Atom::Expr { code_list: group_t, depth, loopdepth, resolved: false };
    assert(r(whole, whole_t));
    lemma_pairs_push(acc, acc_t, whole, whole_t, r);
    if group.len() > 0 {
        assert(r(group[0], group_t[0]));
        assert(same_head(group[0], group_t[0]));
        let rest = group.subrange(1, group.len() as int);
        let rest_t = group_t.subrange(1, group_t.len() as int);
        assert(pairs(rest, rest_t, r)) by {
            assert forall|j: int| 0 <= j < rest.len() implies #[trigger] r(rest[j], rest_t[j]) by {
                assert(rest[j] == group[j + 1] && rest_t[j] == group_t[j + 1]);
                assert(r(group[j + 1], group_t[j + 1]));
            }
        }
        lemma_stmt_to_expr_pairs(rest, rest_t, r, depth, loopdepth);
        match group[0] {
            Atom::Word { text, .. } => {
                let control = Atom::Special { head: text, code_list: rest, depth, loopdepth, resolved: false };
                let dontrol = Atom::Special { head: text, code_list: rest_t, depth, loopdepth, resolved: false };
                assert(r(control, dontrol));
                lemma_pairs_push(acc, acc_t, control, dontrol, r);
            },
            _ => {},
        }
    }
}

/// The statement pass takes the same steps on two runs whose atoms look the same in pairs.
pub proof fn lemma_statements_pairs(
    s: Seq<Atom>,
    t: Seq<Atom>,
    i: int,
    group: Seq<Atom>,
    group_t: Seq<Atom>,
    acc: Seq<Atom>,
    acc_t: Seq<Atom>,
    depth: isize,
    loopdepth: isize,
    r: Likeness,
)
    requires
        0 <= i <= s.len(),
        pairs(s, t, r),
        pairs(group, group_t, r),
        pairs(acc, acc_t, r),
        congruent(r, depth, loopdepth),
    ensures
        outcomes(
            split_statements_from(s, i, group, acc, depth, loopdepth),
            split_statements_from(t, i, group_t, acc_t, depth, loopdepth),
            r,
        ),
    decreases s.len() - i,
{
    lemma_close_statement_pairs(acc, acc_t, group, group_t, depth, loopdepth, r);
    lemma_pairs_empty(r);
    if i < s.len() {
        assert(r(s[i], t[i]));
        assert(same_head(s[i], t[i]));
        let none = Seq::<Atom>::empty();
        if s[i].is_char(';') {
            if close_statement(acc, group, depth, loopdepth) is Ok {
                lemma_statements_pairs(
                    s,
                    t,
                    i + 1,
                    none,
                    none,
                    close_statement(acc, group, depth, loopdepth)->Ok_0,
                    close_statement(acc_t, group_t, depth, loopdepth)->Ok_0,
                    depth,
                    loopdepth,
                    r,
                );
            }
        } else {
            lemma_pairs_push(group, group_t, s[i], t[i], r);
            lemma_statements_pairs(s, t, i + 1, group.push(s[i]), group_t.push(t[i]), acc, acc_t, depth, loopdepth, r);
        }
    }
}

/// The quotation pass of the argument splitter takes the same steps on two
/// runs whose atoms look the same in pairs.
pub proof fn lemma_quotes_pairs(
    s: Seq<Atom>,
    t: Seq<Atom>,
    i: int,
    open: bool,
    escape: bool,
    group: Seq<char>,
    acc: Seq<Atom>,
    acc_t: Seq<Atom>,
    depth: isize,
    loopdepth: isize,
    r: Likeness,
)
    requires
        0 <= i <= s.len(),
        pairs(s, t, r),
        pairs(acc, acc_t, r),
        congruent(r, depth, loopdepth),
    ensures
        outcomes(
            group_quotes_from(s, i, open, escape, group, acc, depth, loopdepth),
            group_quotes_from(t, i, open, escape, group, acc_t, depth, loopdepth),
            r,
        ),
    decreases s.len() - i,
{
    if i < s.len() {
        assert(r(s[i], t[i]));
        assert(same_head(s[i], t[i]));
        lemma_pairs_push(acc, acc_t, s[i], t[i], r);
        let none = Seq::<char>::empty();
        match s[i].unknown_char() {
            None => {
                lemma_quotes_pairs(s, t, i + 1, open, escape, group, acc.push(s[i]), acc_t.push(t[i]), depth, loopdepth, r);
            },
            Some(c) => {
                if escape {
                    lemma_quotes_pairs(s, t, i + 1, open, false, group.push(c), acc, acc_t, depth, loopdepth, r);
                } else if c == '"' {
                    if open {
                        let string = Atom::Str { text: group.push(c), depth, loopdepth };
                        assert(r(string, string));
                        lemma_pairs_push(acc, acc_t, string, string, r);
                        lemma_quotes_pairs(
                            s,
                            t,
                            i + 1,
                            false,
                            false,
                            none,
                            acc.push(string),
                            acc_t.push(string),
                            depth,
                            loopdepth,
                            r,
                        );
                    } else {
                        lemma_quotes_pairs(s, t, i + 1, true, false, group.push(c), acc, acc_t, depth, loopdepth, r);
                    }
                } else if open {
                    lemma_quotes_pairs(s, t, i + 1, open, c == '\\', group.push(c), acc, acc_t, depth, loopdepth, r);
                } else {
                    lemma_quotes_pairs(
                        s,
                        t,
                        i + 1,
                        open,
                        false,
                        group,
                        acc.push(s[i]),
                        acc_t.push(t[i]),
                        depth,
                        loopdepth,
                        r,
                    );
                }
            },
        }
    }
}

/// The argument pass takes the same steps on two runs whose atoms look the same in pairs.
pub proof fn lemma_args_pairs(
    s: Seq<Atom>,
    t: Seq<Atom>,
    i: int,
    group: Seq<Atom>,
    group_t: Seq<Atom>,
    acc: Seq<Atom>,
    acc_t: Seq<Atom>,
    depth: isize,
    loopdepth: isize,
    r: Likeness,
)
    requires
        0 <= i <= s.len(),
        pairs(s, t, r),
        pairs(group, group_t, r),
        pairs(acc, acc_t, r),
        congruent(r, depth, loopdepth),
    ensures
        pairs(
            group_args_from(s, i, group, acc, depth, loopdepth),
            group_args_from(t, i, group_t, acc_t, depth, loopdepth),
            r,
        ),
    decreases s.len() - i,
{
    let item = Atom::Item { contents: group, depth, loopdepth, resolved: false };
    let item_t = Atom::Item { contents: group_t, depth, loopdepth, resolved: false };
    assert(r(item, item_t));
    lemma_pairs_push(acc, acc_t, item, item_t, r);
    lemma_pairs_empty(r);
    if i < s.len() {
        assert(r(s[i], t[i]));
        assert(same_head(s[i], t[i]));
        let none = Seq::<Atom>::empty();
        if s[i].is_char(',') {
            lemma_args_pairs(s, t, i + 1, none, none, acc.push(item), acc_t.push(item_t), depth, loopdepth, r);
        } else {
            lemma_pairs_push(group, group_t, s[i], t[i], r);
            lemma_args_pairs(s, t, i + 1, group.push(s[i]), group_t.push(t[i]), acc, acc_t, depth, loopdepth, r);
        }
    } else {
        assert(is_blank(group) == is_blank(group_t)) by {
            assert forall|j: int| 0 <= j < group.len() implies is_space(group[j]) == is_space(group_t[j]) by {
                assert(r(group[j], group_t[j]));
                assert(same_head(group[j], group_t[j]));
            }
        }
    }
}

/// The bracket passes of the argument splitter and its argument pass take
/// the same steps on two runs whose atoms look the same in pairs.
pub proof fn lemma_comma_tail_pairs(s: Seq<Atom>, t: Seq<Atom>, depth: isize, loopdepth: isize, r: Likeness)
    requires
        pairs(s, t, r),
        congruent(r, depth, loopdepth),
    ensures
        outcomes(comma_tail(s, depth, loopdepth), comma_tail(t, depth, loopdepth), r),
{
    let none = Seq::<Atom>::empty();
    let kind = ParserKind::Comma;
    lemma_pairs_empty(r);
    lemma_brackets_pairs(s, t, 0, 0, none, none, none, none, Bracket::Brace, depth, loopdepth, kind, r);
    if group_brackets(s, Bracket::Brace, depth, loopdepth, kind) is Ok {
        let s2 = group_brackets(s, Bracket::Brace, depth, loopdepth, kind)->Ok_0;
        let t2 = group_brackets(t, Bracket::Brace, depth, loopdepth, kind)->Ok_0;
        lemma_brackets_pairs(s2, t2, 0, 0, none, none, none, none, Bracket::List, depth, loopdepth, kind, r);
        if group_brackets(s2, Bracket::List, depth, loopdepth, kind) is Ok {
            let s3 = group_brackets(s2, Bracket::List, depth, loopdepth, kind)->Ok_0;
            let t3 = group_brackets(t2, Bracket::List, depth, loopdepth, kind)->Ok_0;
            lemma_brackets_pairs(s3, t3, 0, 0, none, none, none, none, Bracket::Paren, depth, loopdepth, kind, r);
            if group_brackets(s3, Bracket::Paren, depth, loopdepth, kind) is Ok {
                let s4 = group_brackets(s3, Bracket::Paren, depth, loopdepth, kind)->Ok_0;
                let t4 = group_brackets(t3, Bracket::Paren, depth, loopdepth, kind)->Ok_0;
                lemma_args_pairs(s4, t4, 0, none, none, none, none, depth, loopdepth, r);
            }
        }
    }
}

/// The passes of the argument splitter take the same steps on two runs
/// whose atoms look the same in pairs.
pub proof fn lemma_comma_passes_pairs(s: Seq<Atom>, t: Seq<Atom>, depth: isize, loopdepth: isize, r: Likeness)
    requires
        pairs(s, t, r),
        congruent(r, depth, loopdepth),
    ensures
        outcomes(comma_passes(s, depth, loopdepth), comma_passes(t, depth, loopdepth), r),
{
    lemma_pairs_empty(r);
    lemma_quotes_pairs(s, t, 0, false, false, Seq::empty(), Seq::empty(), Seq::empty(), depth, loopdepth, r);
    if group_quotes(s, depth, loopdepth) is Ok {
        lemma_comma_tail_pairs(group_quotes(s, depth, loopdepth)->Ok_0, group_quotes(t, depth, loopdepth)->Ok_0, depth, loopdepth, r);
    }
}

} // verus!

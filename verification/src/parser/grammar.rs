//! The grammar passes of the expression parser as functions on trees:
//! control clauses and chains, calls and subscripts, operator precedence.
use crate::abs::atom::Atom;
use crate::errors::parser_errors::ParserError;
use crate::parser::core_parser::{
    find_ope, find_ope_from, is_control_word, is_syntax_head, is_syntax_word, ope_lexeme, ope_priority, ParserKind,
    OPE_COUNT,
};
use crate::parser::lexer::{
    group_operators, group_words, is_space, is_word_char, lemma_words_ignore_space, lexed,
};
use vstd::prelude::*;

verus! {

/// The condition of a clause: what the parenthesis before its body holds, or nothing.
pub open spec fn clause_condition(expr: Option<Atom>) -> Seq<Atom> {
    match expr {
        Some(Atom::ParenBlock { contents, .. }) => contents,
        _ => Seq::empty(),
    }
}

/// The outcome of the clause pass from position `i` on.
///
/// `name` is the control word that waits for its body, `expr` the parenthesis
/// that was seen after it.
pub open spec fn group_syntax_from(
    s: Seq<Atom>,
    i: int,
    name: Option<Seq<char>>,
    expr: Option<Atom>,
    acc: Seq<Atom>,
    depth: isize,
    loopdepth: isize,
) -> Seq<Atom>
    decreases s.len() - i,
{
    if i < 0 || i >= s.len() {
        acc
    } else {
        match s[i] {
            Atom::Word { text, .. } => {
                if is_syntax_word(text) {
                    group_syntax_from(s, i + 1, Some(text), expr, acc, depth, loopdepth)
                } else {
                    group_syntax_from(s, i + 1, name, expr, acc.push(s[i]), depth, loopdepth)
                }
            },
            Atom::ParenBlock { .. } => {
                if name is Some {
                    group_syntax_from(s, i + 1, name, Some(s[i]), acc, depth, loopdepth)
                } else {
                    group_syntax_from(s, i + 1, name, expr, acc.push(s[i]), depth, loopdepth)
                }
            },
            Atom::Block { contents, .. } => {
                match name {
                    Some(n) => group_syntax_from(
                        s,
                        i + 1,
                        None,
                        None,
                        acc.push(
                            Atom::Syntax {
                                name: n,
                                expr: clause_condition(expr),
                                contents,
                                depth,
                                loopdepth,
                                resolved: false,
                            },
                        ),
                        depth,
                        loopdepth,
                    ),
                    None => group_syntax_from(
                        s,
                        i + 1,
                        None,
                        None,
                        (match expr {
                            Some(e) => acc.push(e),
                            None => acc,
                        }).push(s[i]),
                        depth,
                        loopdepth,
                    ),
                }
            },
            _ => group_syntax_from(s, i + 1, name, expr, acc.push(s[i]), depth, loopdepth),
        }
    }
}

/// The clause pass: a control word, the parenthesis after it if there is one,
/// and the next `{ ... }` become one `Syntax` clause.
///
/// The word and the parenthesis are held back until the body arrives; a control
/// word that finds no body leaves the stream together with its parenthesis.
pub open spec fn group_syntax(s: Seq<Atom>, depth: isize, loopdepth: isize) -> Seq<Atom> {
    group_syntax_from(s, 0, None, None, Seq::empty(), depth, loopdepth)
}

/// The output with the chain that is open, if any, closed and appended.
pub open spec fn flush_chain(
    acc: Seq<Atom>,
    name: Seq<char>,
    group: Seq<Atom>,
    depth: isize,
    loopdepth: isize,
) -> Seq<Atom> {
    if group.len() > 0 {
        acc.push(Atom::SyntaxBox { name, contents: group, depth, loopdepth })
    } else {
        acc
    }
}

/// The outcome of the chain pass from position `i` on.
///
/// `group` holds the clauses of the chain that is open (none: no chain is
/// open), `name` the name of the clause that opened it.
pub open spec fn group_chains_from(
    s: Seq<Atom>,
    i: int,
    name: Seq<char>,
    group: Seq<Atom>,
    acc: Seq<Atom>,
    depth: isize,
    loopdepth: isize,
) -> Result<Seq<Atom>, ParserError>
    decreases s.len() - i,
{
    if i < 0 || i >= s.len() {
        Ok(flush_chain(acc, name, group, depth, loopdepth))
    } else {
        match s[i] {
            Atom::Syntax { name: n, .. } => {
                if is_syntax_head(n) {
                    group_chains_from(
                        s,
                        i + 1,
                        n,
                        Seq::empty().push(s[i]),
                        flush_chain(acc, name, group, depth, loopdepth),
                        depth,
                        loopdepth,
                    )
                } else if n == "elif"@ {
                    if group.len() > 0 {
                        group_chains_from(s, i + 1, name, group.push(s[i]), acc, depth, loopdepth)
                    } else {
                        Err(ParserError::GroupingSyntaxBoxError)
                    }
                } else if n == "else"@ {
                    if group.len() > 0 {
                        group_chains_from(
                            s,
                            i + 1,
                            Seq::empty(),
                            Seq::empty(),
                            acc.push(Atom::SyntaxBox { name, contents: group.push(s[i]), depth, loopdepth }),
                            depth,
                            loopdepth,
                        )
                    } else {
                        Err(ParserError::GroupingSyntaxBoxError)
                    }
                } else {
                    group_chains_from(s, i + 1, name, group, acc.push(s[i]), depth, loopdepth)
                }
            },
            _ => group_chains_from(
                s,
                i + 1,
                if group.len() > 0 {
                    Seq::empty()
                } else {
                    name
                },
                Seq::empty(),
                flush_chain(acc, name, group, depth, loopdepth).push(s[i]),
                depth,
                loopdepth,
            ),
        }
    }
}

/// The chain pass: neighbouring clauses become one `SyntaxBox`.
///
/// An `if`, `loop`, `for` or `while` clause closes the open chain, opens a
/// chain of its own and gives it its name; `elif` joins the open chain; `else`
/// joins and closes it. Any atom that is no clause closes the open chain. An
/// `elif` or `else` with no chain open gives `GroupingSyntaxBoxError`.
pub open spec fn group_chains(s: Seq<Atom>, depth: isize, loopdepth: isize) -> Result<Seq<Atom>, ParserError> {
    group_chains_from(s, 0, Seq::empty(), Seq::empty(), Seq::empty(), depth, loopdepth)
}

/// Whether an atom can be the callee of a call or a subscript: a word, a
/// call, a subscript or a chain.
pub open spec fn is_callable(a: Atom) -> bool {
    a is Word || a is Func || a is List || a is SyntaxBox
}

/// Whether a bracket right after this atom makes a call or a subscript:
/// the atom is callable and none of the words `return`, `break`, `continue`
/// and `assert`.
pub open spec fn takes_bracket(a: Atom) -> bool {
    match a {
        Atom::Word { text, .. } => !is_control_word(text),
        Atom::Func { .. } => true,
        Atom::List { .. } => true,
        Atom::SyntaxBox { .. } => true,
        _ => false,
    }
}

/// Whether an atom is a `( ... )` or a `[ ... ]`.
pub open spec fn is_bracket_arg(a: Atom) -> bool {
    a is ListBlock || a is ParenBlock
}

/// Whether a callee stands right before a bracket somewhere at or after
/// position `i`; `pending` is the callable atom right before `i`, if any.
pub open spec fn has_call_site_from(s: Seq<Atom>, i: int, pending: Option<Atom>) -> bool
    decreases s.len() - i,
{
    if i < 0 || i >= s.len() {
        false
    } else if is_callable(s[i]) {
        has_call_site_from(s, i + 1, Some(s[i]))
    } else if is_bracket_arg(s[i]) && pending is Some && takes_bracket(pending->0) {
        true
    } else {
        has_call_site_from(s, i + 1, None)
    }
}

/// Whether a callee stands right before a bracket somewhere in `s`.
pub open spec fn has_call_site(s: Seq<Atom>) -> bool {
    has_call_site_from(s, 0, None)
}

/// The output with the callable atom that was held back, if any, appended.
pub open spec fn flush_pending(acc: Seq<Atom>, pending: Option<Atom>) -> Seq<Atom> {
    match pending {
        Some(p) => acc.push(p),
        None => acc,
    }
}

/// The unresolved subscript of a callee with the `[ ... ]` after it.
pub open spec fn new_index(callee: Atom, bracket: Atom, depth: isize, loopdepth: isize) -> Atom {
    Atom::List { callee: Box::new(callee), contents: seq![bracket], depth, loopdepth, resolved: false }
}

/// The unresolved call of a callee with the `( ... )` after it.
pub open spec fn new_call(callee: Atom, bracket: Atom, depth: isize, loopdepth: isize) -> Atom {
    Atom::Func { callee: Box::new(callee), contents: seq![bracket], depth, loopdepth, resolved: false }
}

/// The unresolved call of an operator on what stands to its left and to its right.
pub open spec fn new_operation(ope: Atom, left: Seq<Atom>, right: Seq<Atom>, depth: isize, loopdepth: isize) -> Atom {
    Atom::Func {
        callee: Box::new(ope),
        contents: seq![
            Atom::Item { contents: left, depth, loopdepth, resolved: false },
            Atom::Item { contents: right, depth, loopdepth, resolved: false },
        ],
        depth,
        loopdepth,
        resolved: false,
    }
}

/// What a callee and the atom right after it become: a call with a `( ... )`,
/// a subscript with a `[ ... ]`, the two atoms as they are otherwise.
pub open spec fn apply_bracket(acc: Seq<Atom>, callee: Atom, next: Atom, depth: isize, loopdepth: isize) -> Seq<
    Atom,
> {
    if !takes_bracket(callee) {
        acc.push(callee).push(next)
    } else if next is ListBlock {
        acc.push(new_index(callee, next, depth, loopdepth))
    } else if next is ParenBlock {
        acc.push(new_call(callee, next, depth, loopdepth))
    } else {
        acc.push(callee).push(next)
    }
}

/// The outcome of one call pass from position `i` on; `pending` is the
/// callable atom that was held back.
pub open spec fn merge_calls_from(
    s: Seq<Atom>,
    i: int,
    pending: Option<Atom>,
    acc: Seq<Atom>,
    depth: isize,
    loopdepth: isize,
) -> Seq<Atom>
    decreases s.len() - i,
{
    if i < 0 || i >= s.len() {
        flush_pending(acc, pending)
    } else if is_callable(s[i]) {
        merge_calls_from(s, i + 1, Some(s[i]), flush_pending(acc, pending), depth, loopdepth)
    } else {
        match pending {
            Some(p) => merge_calls_from(s, i + 1, None, apply_bracket(acc, p, s[i], depth, loopdepth), depth, loopdepth),
            None => merge_calls_from(s, i + 1, None, acc.push(s[i]), depth, loopdepth),
        }
    }
}

/// One call pass: every callee that stands right before a bracket is merged
/// with it, from the left, each atom taking part in one merge at most.
pub open spec fn merge_calls(s: Seq<Atom>, depth: isize, loopdepth: isize) -> Seq<Atom> {
    merge_calls_from(s, 0, None, Seq::empty(), depth, loopdepth)
}

/// The call passes repeated until no callee stands before a bracket, so that
/// `f(1)(2)[3]` becomes one node.
pub open spec fn merge_calls_fix(s: Seq<Atom>, depth: isize, loopdepth: isize) -> Seq<Atom>
    decreases s.len(),
{
    if has_call_site(s) && merge_calls(s, depth, loopdepth).len() < s.len() {
        merge_calls_fix(merge_calls(s, depth, loopdepth), depth, loopdepth)
    } else {
        s
    }
}

/// The position at which the operators at and after `i` leave the search
/// for the reduction point; `best` is the candidate so far, `prio` its priority.
pub open spec fn reduction_point_from(s: Seq<Atom>, i: int, prio: int, best: Option<int>) -> Result<
    Option<int>,
    ParserError,
>
    decreases s.len() - i,
{
    if i < 0 || i >= s.len() {
        Ok(best)
    } else {
        match s[i] {
            Atom::Ope { ope, .. } => {
                match find_ope(ope) {
                    None => Err(ParserError::OperationError),
                    Some(k) => {
                        if i > 0 && s[i - 1] is Ope {
                            reduction_point_from(s, i + 1, prio, best)
                        } else if ope_priority(k) < prio {
                            reduction_point_from(s, i + 1, ope_priority(k), Some(i))
                        } else {
                            reduction_point_from(s, i + 1, prio, best)
                        }
                    },
                }
            },
            _ => reduction_point_from(s, i + 1, prio, best),
        }
    }
}

/// The position of the operator at which a run is split, if it holds an operator.
///
/// Operators right after another operator are prefixes and take no part. Of
/// the others the one of lowest priority wins, and among equals the first
/// one. An operator that the table does not know gives `OperationError`.
pub open spec fn reduction_point(s: Seq<Atom>) -> Result<Option<int>, ParserError> {
    reduction_point_from(s, 0, i32::MAX as int, None)
}

/// The run split at the operator at `k`: one call of the operator on the two
/// sides, each side one operand.
pub open spec fn split_at(s: Seq<Atom>, k: int, depth: isize, loopdepth: isize) -> Seq<Atom> {
    seq![new_operation(s[k], s.subrange(0, k), s.subrange(k + 1, s.len() as int), depth, loopdepth)]
}

/// The precedence pass: the run as it is where it holds no operator, and
/// split once at its reduction point otherwise.
pub open spec fn reduce_operation(s: Seq<Atom>, depth: isize, loopdepth: isize) -> Result<Seq<Atom>, ParserError> {
    match reduction_point(s) {
        Err(e) => Err(e),
        Ok(None) => Ok(s),
        Ok(Some(k)) => Ok(split_at(s, k, depth, loopdepth)),
    }
}

/// The passes of the expression parser that follow the bracket passes:
/// words, clauses, chains, calls and subscripts, operators, precedence.
pub open spec fn expr_grammar(s: Seq<Atom>, depth: isize, loopdepth: isize) -> Result<Seq<Atom>, ParserError> {
    match group_chains(group_syntax(group_words(s, depth, loopdepth), depth, loopdepth), depth, loopdepth) {
        Err(e) => Err(e),
        Ok(chained) => reduce_operation(
            group_operators(merge_calls_fix(chained, depth, loopdepth), depth),
            depth,
            loopdepth,
        ),
    }
}

/// All the passes of the expression parser over one run, in order: strings
/// and comments, the three kinds of bracket, then the grammar.
pub open spec fn expr_passes(s: Seq<Atom>, depth: isize, loopdepth: isize) -> Result<Seq<Atom>, ParserError> {
    match lexed(s, depth, loopdepth, ParserKind::Expr) {
        Err(e) => Err(e),
        Ok(s4) => expr_grammar(s4, depth, loopdepth),
    }
}

/// One call pass never makes a run longer, and makes it shorter where a
/// callee stands before a bracket.
pub proof fn lemma_merge_calls_shrinks(
    s: Seq<Atom>,
    i: int,
    pending: Option<Atom>,
    acc: Seq<Atom>,
    depth: isize,
    loopdepth: isize,
)
    requires
        0 <= i <= s.len(),
    ensures
        merge_calls_from(s, i, pending, acc, depth, loopdepth).len() <= acc.len() + (if pending is Some {
            1int
        } else {
            0int
        }) + s.len() - i,
        has_call_site_from(s, i, pending) ==> merge_calls_from(s, i, pending, acc, depth, loopdepth).len()
            < acc.len() + (if pending is Some {
            1int
        } else {
            0int
        }) + s.len() - i,
    decreases s.len() - i,
{
    if i < s.len() {
        if is_callable(s[i]) {
            lemma_merge_calls_shrinks(s, i + 1, Some(s[i]), flush_pending(acc, pending), depth, loopdepth);
        } else {
            match pending {
                Some(p) => {
                    lemma_merge_calls_shrinks(
                        s,
                        i + 1,
                        None,
                        apply_bracket(acc, p, s[i], depth, loopdepth),
                        depth,
                        loopdepth,
                    );
                },
                None => {
                    lemma_merge_calls_shrinks(s, i + 1, None, acc.push(s[i]), depth, loopdepth);
                },
            }
        }
    }
}

/// The call passes end at a fixpoint: once they are done, no callee stands
/// before a bracket, so no call or subscript is left unmerged.
pub proof fn lemma_merge_calls_fix_settles(s: Seq<Atom>, depth: isize, loopdepth: isize)
    ensures
        !has_call_site(merge_calls_fix(s, depth, loopdepth)),
        merge_calls_fix(s, depth, loopdepth).len() <= s.len(),
    decreases s.len(),
{
    lemma_merge_calls_shrinks(s, 0, None, Seq::empty(), depth, loopdepth);
    if has_call_site(s) {
        lemma_merge_calls_fix_settles(merge_calls(s, depth, loopdepth), depth, loopdepth);
    }
}

/// White space between the tokens of an expression does not matter: a
/// space, a tab or a line break that is put into a run anywhere but between
/// two characters of one word leaves the outcome of the grammar passes as it
/// was, the operator of the split and both of its operands included.
pub proof fn lemma_grammar_ignores_space(s: Seq<Atom>, at: int, space: Atom, depth: isize, loopdepth: isize)
    requires
        0 <= at <= s.len(),
        is_space(space),
        !(0 < at < s.len() && is_word_char(s[at - 1]) && is_word_char(s[at])),
    ensures
        expr_grammar(s.insert(at, space), depth, loopdepth) == expr_grammar(s, depth, loopdepth),
{
    lemma_words_ignore_space(s, at, space, depth, loopdepth);
}

/// Whether the atom at `j` is an operator that can split the run: an
/// operator of the table that does not stand right after another operator.
pub open spec fn is_candidate(s: Seq<Atom>, j: int) -> bool {
    &&& 0 <= j < s.len()
    &&& s[j] is Ope
    &&& find_ope(s[j]->ope) is Some
    &&& (j == 0 || !(s[j - 1] is Ope))
}

/// The priority with which the operator at `j` takes part in the search:
/// that of its row of the table.
pub open spec fn rank(s: Seq<Atom>, j: int) -> int {
    ope_priority(find_ope(s[j]->ope)->0)
}

/// Whether `k` is the reduction point among the first `upto` atoms: a
/// candidate that no candidate undercuts, and the first of the candidates of
/// its priority.
pub open spec fn is_reduction_point(s: Seq<Atom>, upto: int, k: int) -> bool {
    &&& k < upto
    &&& is_candidate(s, k)
    &&& forall|j: int|
        j < upto && #[trigger] is_candidate(s, j) ==> rank(s, j) > rank(s, k) || (rank(s, j) == rank(s, k) && k <= j)
}

/// Every row of the table has a priority below the one with which the
/// search starts.
pub proof fn lemma_table_is_bounded(a: int)
    requires
        0 <= a < OPE_COUNT,
    ensures
        ope_priority(a) <= 3,
{
}

/// The row of a lexeme is a row of the table.
pub proof fn lemma_find_ope_in_table(w: Seq<char>, k: int)
    requires
        0 <= k,
    ensures
        find_ope_from(w, k) matches Some(r) ==> k <= r < OPE_COUNT && ope_lexeme(r) == w,
    decreases OPE_COUNT - k,
{
    if k < OPE_COUNT && ope_lexeme(k) != w {
        lemma_find_ope_in_table(w, k + 1);
    }
}

/// What the search for the reduction point, taken up at position `i`, finds.
pub proof fn lemma_reduction_point_from(s: Seq<Atom>, i: int, prio: int, best: Option<int>)
    requires
        0 <= i <= s.len(),
        forall|j: int| 0 <= j < i && (#[trigger] s[j]) is Ope ==> find_ope(s[j]->ope) is Some,
        match best {
            Some(k) => is_reduction_point(s, i, k) && prio == rank(s, k),
            None => prio == i32::MAX && forall|j: int| 0 <= j < i ==> !((#[trigger] s[j]) is Ope),
        },
    ensures
        match reduction_point_from(s, i, prio, best) {
            Ok(Some(k)) => is_reduction_point(s, s.len() as int, k) && forall|j: int|
                0 <= j < s.len() && (#[trigger] s[j]) is Ope ==> find_ope(s[j]->ope) is Some,
            Ok(None) => forall|j: int| 0 <= j < s.len() ==> !((#[trigger] s[j]) is Ope),
            Err(e) => e == ParserError::OperationError && exists|j: int|
                0 <= j < s.len() && (#[trigger] s[j]) is Ope && find_ope(s[j]->ope) is None,
        },
    decreases s.len() - i,
{
    if i < s.len() {
        match s[i] {
            Atom::Ope { ope, .. } => {
                match find_ope(ope) {
                    None => {
                        assert(s[i] is Ope && find_ope(s[i]->ope) is None);
                    },
                    Some(row) => {
                        lemma_find_ope_in_table(ope, 0);
                        lemma_table_is_bounded(row);
                        if i > 0 && s[i - 1] is Ope {
                            assert(!is_candidate(s, i));
                            match best {
                                Some(k) => {
                                    assert(is_reduction_point(s, i + 1, k));
                                },
                                None => {},
                            }
                            lemma_reduction_point_from(s, i + 1, prio, best);
                        } else {
                            assert(is_candidate(s, i));
                            if ope_priority(row) < prio {
                                assert(is_reduction_point(s, i + 1, i));
                                lemma_reduction_point_from(s, i + 1, ope_priority(row), Some(i));
                            } else {
                                assert(is_reduction_point(s, i + 1, best->0));
                                lemma_reduction_point_from(s, i + 1, prio, best);
                            }
                        }
                    },
                }
            },
            _ => {
                match best {
                    Some(k) => {
                        assert(is_reduction_point(s, i + 1, k));
                    },
                    None => {},
                }
                lemma_reduction_point_from(s, i + 1, prio, best);
            },
        }
    }
}

/// Precedence: the operator at which a run is split is the one that binds
/// least tightly.
///
/// Where the search gives a position, the operator there can split the run,
/// no operator that can split the run has a lower priority, and among those
/// of the same priority it is the first; so `a - b - c` is split at its first
/// `-`, `a ** b ** c` is `a ** (b ** c)`, and in `a + 1 * 2` the product is
/// an operand of the sum. An operator at the very start takes part like any
/// other: `!a == b` is split at `!`, and `!a && !b` at `&&`.
/// Where the search gives no position, the run holds no operator. The search
/// fails if and only if the run holds an operator that the table lacks.
pub proof fn lemma_reduction_point(s: Seq<Atom>)
    ensures
        match reduction_point(s) {
            Ok(Some(k)) => is_reduction_point(s, s.len() as int, k) && forall|j: int|
                0 <= j < s.len() && (#[trigger] s[j]) is Ope ==> find_ope(s[j]->ope) is Some,
            Ok(None) => forall|j: int| 0 <= j < s.len() ==> !((#[trigger] s[j]) is Ope),
            Err(e) => e == ParserError::OperationError && exists|j: int|
                0 <= j < s.len() && (#[trigger] s[j]) is Ope && find_ope(s[j]->ope) is None,
        },
{
    lemma_reduction_point_from(s, 0, i32::MAX as int, None);
}

/// Whether every atom of a run is a `( ... )` or a `[ ... ]`.
pub open spec fn all_brackets(s: Seq<Atom>) -> bool {
    forall|j: int| 0 <= j < s.len() ==> is_bracket_arg(#[trigger] s[j])
}

/// One call pass leaves brackets that no callee stands before as they are.
pub proof fn lemma_merge_calls_on_brackets(s: Seq<Atom>, i: int, acc: Seq<Atom>, depth: isize, loopdepth: isize)
    requires
        0 <= i <= s.len(),
        forall|j: int| i <= j < s.len() ==> is_bracket_arg(#[trigger] s[j]),
    ensures
        merge_calls_from(s, i, None, acc, depth, loopdepth) == acc + s.skip(i),
        !has_call_site_from(s, i, None),
    decreases s.len() - i,
{
    if i < s.len() {
        assert(is_bracket_arg(s[i]));
        lemma_merge_calls_on_brackets(s, i + 1, acc.push(s[i]), depth, loopdepth);
        assert(acc.push(s[i]) + s.skip(i + 1) =~= acc + s.skip(i));
    } else {
        assert(acc + s.skip(i) =~= acc);
    }
}

/// Curried calls and subscripts end as one atom: a callee with any number
/// of brackets after it, as in `f(1)[2](3)`, is merged from the left, one
/// bracket in each call pass, until one node is left.
pub proof fn lemma_curried_calls_merge(callee: Atom, brackets: Seq<Atom>, depth: isize, loopdepth: isize)
    requires
        takes_bracket(callee),
        all_brackets(brackets),
    ensures
        merge_calls_fix(seq![callee] + brackets, depth, loopdepth).len() == 1,
        takes_bracket(merge_calls_fix(seq![callee] + brackets, depth, loopdepth)[0]),
    decreases brackets.len(),
{
    let s = seq![callee] + brackets;
    assert(s[0] == callee);
    assert(is_callable(callee));
    if brackets.len() == 0 {
        assert(s =~= seq![callee]);
        assert(!has_call_site_from(s, 1, Some(callee)));
        assert(!has_call_site(s));
    } else {
        let first = brackets[0];
        assert(s[1] == first);
        assert(is_bracket_arg(first));
        assert forall|j: int| 2 <= j < s.len() implies is_bracket_arg(#[trigger] s[j]) by {
            assert(s[j] == brackets[j - 1]);
        }
        let node = if first is ListBlock {
            new_index(callee, first, depth, loopdepth)
        } else {
            new_call(callee, first, depth, loopdepth)
        };
        let empty = Seq::<Atom>::empty();
        assert(flush_pending(empty, None) == empty);
        assert(apply_bracket(empty, callee, first, depth, loopdepth) == seq![node]) by {
            assert(empty.push(node) =~= seq![node]);
        }
        lemma_merge_calls_on_brackets(s, 2, seq![node], depth, loopdepth);
        assert(merge_calls_from(s, 1, Some(callee), empty, depth, loopdepth) == merge_calls_from(
            s,
            2,
            None,
            seq![node],
            depth,
            loopdepth,
        ));
        assert(merge_calls(s, depth, loopdepth) == seq![node] + s.skip(2));
        assert(s.skip(2) =~= brackets.skip(1));
        assert(has_call_site_from(s, 1, Some(callee)));
        assert(has_call_site(s));
        let rest = brackets.skip(1);
        assert(all_brackets(rest)) by {
            assert forall|j: int| 0 <= j < rest.len() implies is_bracket_arg(#[trigger] rest[j]) by {
                assert(rest[j] == brackets[j + 1]);
            }
        }
        assert((seq![node] + rest).len() < s.len());
        lemma_curried_calls_merge(node, rest, depth, loopdepth);
    }
}

} // verus!

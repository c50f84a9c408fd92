//! The statement pass and the argument passes as functions on trees.
use crate::abs::atom::Atom;
use crate::errors::parser_errors::ParserError;
use crate::parser::core_parser::{is_control_word, ParserKind};
use crate::parser::lexer::{
    group_brackets, group_words, is_blank, is_space, is_word_char, lemma_words_ignore_space, lexed, Bracket,
};
use vstd::prelude::*;

verus! {

/// Whether an atom is a statement, which no expression can hold.
pub open spec fn has_statement(a: Atom) -> bool {
    a is Expr || a is Special
}

/// A run of statement-level atoms as expression-level atoms: the same atoms,
/// unless one of them is a statement.
pub open spec fn stmt_to_expr(s: Seq<Atom>) -> Result<Seq<Atom>, ParserError> {
    if forall|k: int| 0 <= k < s.len() ==> !has_statement(#[trigger] s[k]) {
        Ok(s)
    } else {
        Err(ParserError::UnableToConvertType)
    }
}

/// The output with the statement that a run of atoms before a `;` makes.
///
/// An empty run makes no statement. A run that starts with `return`, `break`,
/// `continue` or `assert` makes a control statement of the atoms after that
/// word, any other run an expression statement.
pub open spec fn close_statement(acc: Seq<Atom>, group: Seq<Atom>, depth: isize, loopdepth: isize) -> Result<
    Seq<Atom>,
    ParserError,
> {
    if group.len() == 0 {
        Ok(acc)
    } else {
        match group[0] {
            Atom::Word { text, .. } if is_control_word(text) => {
                match stmt_to_expr(group.subrange(1, group.len() as int)) {
                    Ok(rest) => Ok(
                        acc.push(Atom::Special { head: text, code_list: rest, depth, loopdepth, resolved: false }),
                    ),
                    Err(e) => Err(e),
                }
            },
            _ => close_expression(acc, group, depth, loopdepth),
        }
    }
}

/// The output with the expression statement that a run of atoms makes.
pub open spec fn close_expression(acc: Seq<Atom>, group: Seq<Atom>, depth: isize, loopdepth: isize) -> Result<
    Seq<Atom>,
    ParserError,
> {
    match stmt_to_expr(group) {
        Ok(all) => Ok(acc.push(Atom::Expr { code_list: all, depth, loopdepth, resolved: false })),
        Err(e) => Err(e),
    }
}

/// The outcome of the statement pass from position `i` on; `group` is the
/// run that the next `;` will close.
pub open spec fn split_statements_from(
    s: Seq<Atom>,
    i: int,
    group: Seq<Atom>,
    acc: Seq<Atom>,
    depth: isize,
    loopdepth: isize,
) -> Result<Seq<Atom>, ParserError>
    decreases s.len() - i,
{
    if i < 0 || i >= s.len() {
        close_statement(acc, group, depth, loopdepth)
    } else if s[i].is_char(';') {
        match close_statement(acc, group, depth, loopdepth) {
            Ok(next) => split_statements_from(s, i + 1, Seq::empty(), next, depth, loopdepth),
            Err(e) => Err(e),
        }
    } else {
        split_statements_from(s, i + 1, group.push(s[i]), acc, depth, loopdepth)
    }
}

/// The statement pass: the run is cut at every `;`, and every piece that is
/// not empty becomes one statement.
///
/// A piece holds all that stands between two `;`, comments included. The end
/// of the run closes what follows the last `;` as a `;` would.
pub open spec fn split_statements(s: Seq<Atom>, depth: isize, loopdepth: isize) -> Result<Seq<Atom>, ParserError> {
    split_statements_from(s, 0, Seq::empty(), Seq::empty(), depth, loopdepth)
}

/// All the passes of the statement parser over one run, in order.
pub open spec fn stmt_passes(s: Seq<Atom>, depth: isize, loopdepth: isize) -> Result<Seq<Atom>, ParserError> {
    match lexed(s, depth, loopdepth, ParserKind::Stmt) {
        Err(e) => Err(e),
        Ok(s4) => split_statements(group_words(s4, depth, loopdepth), depth, loopdepth),
    }
}

/// Whether a statement carries this depth and this loop depth; true of any atom that is no statement.
pub open spec fn stands_at(a: Atom, depth: isize, loopdepth: isize) -> bool {
    match a {
        Atom::Expr { depth: d, loopdepth: l, .. } => d == depth && l == loopdepth,
        Atom::Special { depth: d, loopdepth: l, .. } => d == depth && l == loopdepth,
        _ => true,
    }
}

/// What the statement pass, taken up at position `i`, says of the statements it makes.
pub proof fn lemma_statements_from(s: Seq<Atom>, i: int, group: Seq<Atom>, acc: Seq<Atom>, depth: isize, loopdepth: isize)
    requires
        0 <= i <= s.len(),
        forall|k: int| 0 <= k < acc.len() ==> stands_at(#[trigger] acc[k], depth, loopdepth),
        split_statements_from(s, i, group, acc, depth, loopdepth) is Ok,
    ensures
        forall|k: int|
            0 <= k < split_statements_from(s, i, group, acc, depth, loopdepth)->Ok_0.len() ==> stands_at(
                #[trigger] split_statements_from(s, i, group, acc, depth, loopdepth)->Ok_0[k],
                depth,
                loopdepth,
            ),
    decreases s.len() - i,
{
    if i < s.len() {
        if s[i].is_char(';') {
            let next = close_statement(acc, group, depth, loopdepth)->Ok_0;
            assert forall|k: int| 0 <= k < next.len() implies stands_at(#[trigger] next[k], depth, loopdepth) by {
                if k < acc.len() {
                    assert(next[k] == acc[k]);
                }
            }
            lemma_statements_from(s, i + 1, Seq::empty(), next, depth, loopdepth);
        } else {
            lemma_statements_from(s, i + 1, group.push(s[i]), acc, depth, loopdepth);
        }
    } else {
        let next = close_statement(acc, group, depth, loopdepth)->Ok_0;
        assert forall|k: int| 0 <= k < next.len() implies stands_at(#[trigger] next[k], depth, loopdepth) by {
            if k < acc.len() {
                assert(next[k] == acc[k]);
            }
        }
    }
}

/// Every statement that the statement parser makes carries the depth and
/// the loop depth that the parser was seeded with.
pub proof fn lemma_statements_stand_at(s: Seq<Atom>, depth: isize, loopdepth: isize)
    requires
        stmt_passes(s, depth, loopdepth) is Ok,
    ensures
        forall|k: int|
            0 <= k < stmt_passes(s, depth, loopdepth)->Ok_0.len() ==> stands_at(
                #[trigger] stmt_passes(s, depth, loopdepth)->Ok_0[k],
                depth,
                loopdepth,
            ),
{
    let s4 = lexed(s, depth, loopdepth, ParserKind::Stmt)->Ok_0;
    lemma_statements_from(group_words(s4, depth, loopdepth), 0, Seq::empty(), Seq::empty(), depth, loopdepth);
}

/// The outcome of the quotation pass of the argument splitter from position `i` on.
///
/// `open` says whether a quotation is open, `escape` whether the character
/// before was a `\` inside it, `group` holds its text so far.
pub open spec fn group_quotes_from(
    s: Seq<Atom>,
    i: int,
    open: bool,
    escape: bool,
    group: Seq<char>,
    acc: Seq<Atom>,
    depth: isize,
    loopdepth: isize,
) -> Result<Seq<Atom>, ParserError>
    decreases s.len() - i,
{
    if i < 0 || i >= s.len() {
        if open {
            Err(ParserError::QuotationNotClosed)
        } else {
            Ok(acc)
        }
    } else {
        match s[i].unknown_char() {
            None => group_quotes_from(s, i + 1, open, escape, group, acc.push(s[i]), depth, loopdepth),
            Some(c) => {
                if escape {
                    group_quotes_from(s, i + 1, open, false, group.push(c), acc, depth, loopdepth)
                } else if c == '"' {
                    if open {
                        group_quotes_from(
                            s,
                            i + 1,
                            false,
                            false,
                            Seq::empty(),
                            acc.push(Atom::Str { text: group.push(c), depth, loopdepth }),
                            depth,
                            loopdepth,
                        )
                    } else {
                        group_quotes_from(s, i + 1, true, false, group.push(c), acc, depth, loopdepth)
                    }
                } else if open {
                    group_quotes_from(s, i + 1, open, c == '\\', group.push(c), acc, depth, loopdepth)
                } else {
                    group_quotes_from(s, i + 1, open, false, group, acc.push(s[i]), depth, loopdepth)
                }
            },
        }
    }
}

/// The quotation pass of the argument splitter: every `"..."` becomes one
/// `Str` that keeps its quotes and its escapes, so that the text of an
/// argument can be read again later.
pub open spec fn group_quotes(s: Seq<Atom>, depth: isize, loopdepth: isize) -> Result<Seq<Atom>, ParserError> {
    group_quotes_from(s, 0, false, false, Seq::empty(), Seq::empty(), depth, loopdepth)
}

/// The outcome of the argument pass from position `i` on; `group` is the
/// argument that the next `,` will close.
pub open spec fn group_args_from(
    s: Seq<Atom>,
    i: int,
    group: Seq<Atom>,
    acc: Seq<Atom>,
    depth: isize,
    loopdepth: isize,
) -> Seq<Atom>
    decreases s.len() - i,
{
    if i < 0 || i >= s.len() {
        if is_blank(group) {
            acc
        } else {
            acc.push(Atom::Item { contents: group, depth, loopdepth, resolved: false })
        }
    } else if s[i].is_char(',') {
        group_args_from(
            s,
            i + 1,
            Seq::empty(),
            acc.push(Atom::Item { contents: group, depth, loopdepth, resolved: false }),
            depth,
            loopdepth,
        )
    } else {
        group_args_from(s, i + 1, group.push(s[i]), acc, depth, loopdepth)
    }
}

/// The argument pass: the run is cut at every `,`, and every piece becomes one `Item`.
///
/// A piece before a `,` becomes an `Item` even where it is empty; what
/// follows the last `,` only where it holds more than white space.
pub open spec fn group_args(s: Seq<Atom>, depth: isize, loopdepth: isize) -> Seq<Atom> {
    group_args_from(s, 0, Seq::empty(), Seq::empty(), depth, loopdepth)
}

/// All the passes of the argument splitter over one run, in order.
pub open spec fn comma_passes(s: Seq<Atom>, depth: isize, loopdepth: isize) -> Result<Seq<Atom>, ParserError> {
    match group_quotes(s, depth, loopdepth) {
        Err(e) => Err(e),
        Ok(s1) => comma_tail(s1, depth, loopdepth),
    }
}

/// The passes of the argument splitter that follow its quotation pass: the
/// three bracket passes and the argument pass.
pub open spec fn comma_tail(s: Seq<Atom>, depth: isize, loopdepth: isize) -> Result<Seq<Atom>, ParserError> {
    match group_brackets(s, Bracket::Brace, depth, loopdepth, ParserKind::Comma) {
        Err(e) => Err(e),
        Ok(s2) => match group_brackets(s2, Bracket::List, depth, loopdepth, ParserKind::Comma) {
            Err(e) => Err(e),
            Ok(s3) => match group_brackets(s3, Bracket::Paren, depth, loopdepth, ParserKind::Comma) {
                Err(e) => Err(e),
                Ok(s4) => Ok(group_args(s4, depth, loopdepth)),
            },
        },
    }
}

/// White space between the tokens of a statement does not matter: a space,
/// a tab or a line break that is put into a run anywhere but between two
/// characters of one word leaves the statements that the run is cut into as
/// they were.
pub proof fn lemma_statements_ignore_space(s: Seq<Atom>, at: int, space: Atom, depth: isize, loopdepth: isize)
    requires
        0 <= at <= s.len(),
        is_space(space),
        !(0 < at < s.len() && is_word_char(s[at - 1]) && is_word_char(s[at])),
    ensures
        split_statements(group_words(s.insert(at, space), depth, loopdepth), depth, loopdepth) == split_statements(
            group_words(s, depth, loopdepth),
            depth,
            loopdepth,
        ),
{
    lemma_words_ignore_space(s, at, space, depth, loopdepth);
}

} // verus!

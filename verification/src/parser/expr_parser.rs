//! The expression parser.
use crate::abs::ast::{
    clone_block, clone_expr, clone_paren_block, clone_stmts, clone_syntax, exprs_view, group_view_lemmas,
    lemma_exprs_view_push, regroup_expr, regroup_expr_as_stmt, stmts_view, syntaxes_view, ExprElem, StmtElem,
    Token,
};
use crate::abs::atom::Atom;
use crate::errors::parser_errors::ParserError;
use crate::parser::core_parser::{
    exclude_char, find_ope_priority, control_word, ope_char, ope_row, split_char, syntax_head, syntax_word, Parser,
    ParserKind, DOUBLE_QUOTATION, ESCAPECHAR, MAX_NESTING, OPE_COUNT,
};
use crate::parser::grammar::{
    clause_condition, expr_grammar, expr_passes, flush_chain, group_chains, group_chains_from, group_syntax,
    group_syntax_from, has_call_site, has_call_site_from, is_bracket_arg, is_callable,
    lemma_merge_calls_shrinks, merge_calls, merge_calls_fix, merge_calls_from, reduce_operation,
    reduction_point, reduction_point_from, split_at, takes_bracket,
};
use crate::parser::lexer::{
    close_run, flush_word, group_brackets, group_brackets_from, group_operator, group_operator_from,
    group_operators, group_operators_from, group_strings, group_strings_from, group_words, group_words_from,
    lemma_unknowns_push, unknowns, Bracket, StringAreaState,
};
use crate::resolve::{resolve_expr_run, resolve_run};
use crate::text::{chars_of, push_char, same_text};
use crate::token::block::BlockBranch;
use crate::token::comment::CommentBranch;
use crate::token::func::FuncBranch;
use crate::token::item::ItemBranch;
use crate::token::list::ListBranch;
use crate::token::list_block::ListBlockBranch;
use crate::token::operator::OperatorBranch;
use crate::token::paren_block::ParenBlockBranch;
use crate::token::unknown::UnKnownBranch;
use crate::token::word::WordBranch;
use crate::token::string::StringBranch;
use crate::token::syntax::SyntaxBranch;
use crate::token::syntax_box::SyntaxBoxBranch;
use vstd::prelude::*;

verus! {

/// Parses a run of expression atoms.
#[derive(Debug)]
pub struct ExprParser {
    pub code: String,
    pub code_list: Vec<ExprElem>,
    pub depth: isize,
    pub loopdepth: isize,
}

/// The trees of the outcome of a pass over expression nodes.
pub open spec fn exprs_outcome(r: Result<Vec<ExprElem>, ParserError>) -> Result<Seq<Atom>, ParserError> {
    match r {
        Ok(v) => Ok(exprs_view(v@)),
        Err(e) => Err(e),
    }
}

impl ExprParser {
    /// The quote and comment pass.
    pub fn grouping_string(list: &Vec<ExprElem>, depth: isize, loopdepth: isize) -> (r: Result<
        Vec<ExprElem>,
        ParserError,
    >)
        ensures
            exprs_outcome(r) == group_strings(exprs_view(list@), depth, loopdepth, ParserKind::Expr),
    {
        broadcast use group_view_lemmas;

        let ghost input = exprs_view(list@);
        let ghost kind = ParserKind::Expr;
        let mut rlist: Vec<ExprElem> = Vec::new();
        let mut group = String::new();
        let mut mode = StringAreaState::Closed;
        let mut escape = false;
        let mut i: usize = 0;
        while i < list.len()
            invariant
                i <= list.len(),
                input == exprs_view(list@),
                kind == ParserKind::Expr,
                group_strings_from(
                    input,
                    i as int,
                    mode,
                    escape,
                    group@,
                    exprs_view(rlist@),
                    depth,
                    loopdepth,
                    kind,
                ) == group_strings(input, depth, loopdepth, kind),
            decreases list.len() - i,
        {
            let ghost before = exprs_view(rlist@);
            let ghost text = group@;
            assert(input[i as int] == list[i as int]@);
            assert(i + 1 < list.len() ==> input[i + 1] == list[i + 1]@);
            match &list[i] {
                ExprElem::UnKnownElem(e) => {
                    let c = e.contents;
                    match mode {
                        StringAreaState::CommentStart => {
                            if c == '\n' {
                                rlist.push(ExprElem::CommentElem(CommentBranch { contents: group, depth, loopdepth }));
                                assert(exprs_view(rlist@) == before.push(Atom::Comment { text, depth, loopdepth }));
                                group = String::new();
                                mode = StringAreaState::Closed;
                            } else {
                                push_char(&mut group, c);
                            }
                            i += 1;
                        },
                        StringAreaState::CommentOpen => {
                            if c != '*' {
                                push_char(&mut group, c);
                                i += 1;
                            } else if i + 1 >= list.len() {
                                return Err(ParserError::CommentBlockNotClosed);
                            } else {
                                assert(input[i + 1] == list[i + 1]@);
                                match &list[i + 1] {
                                    ExprElem::UnKnownElem(n) => {
                                        if n.contents == '/' {
                                            rlist.push(
                                                ExprElem::CommentElem(CommentBranch { contents: group, depth, loopdepth }),
                                            );
                                            assert(exprs_view(rlist@) == before.push(
                                                Atom::Comment { text, depth, loopdepth },
                                            ));
                                            group = String::new();
                                            mode = StringAreaState::Closed;
                                            i += 2;
                                        } else {
                                            push_char(&mut group, c);
                                            i += 1;
                                        }
                                    },
                                    _ => {
                                        return Err(ParserError::UnexpectedTypeExpr);
                                    },
                                }
                            }
                        },
                        StringAreaState::QuotationOpen => {
                            if escape {
                                push_char(&mut group, c);
                                escape = false;
                            } else if c == DOUBLE_QUOTATION {
                                rlist.push(ExprElem::StringElem(StringBranch { contents: group, depth, loopdepth }));
                                assert(exprs_view(rlist@) == before.push(Atom::Str { text, depth, loopdepth }));
                                group = String::new();
                                mode = StringAreaState::Closed;
                            } else if c == ESCAPECHAR {
                                escape = true;
                            } else {
                                push_char(&mut group, c);
                            }
                            i += 1;
                        },
                        StringAreaState::Closed => {
                            if c == DOUBLE_QUOTATION {
                                mode = StringAreaState::QuotationOpen;
                                escape = false;
                                group = String::new();
                                i += 1;
                            } else if c == '/' && i + 1 < list.len() && is_unknown_char(&list[i + 1], '*') {
                                mode = StringAreaState::CommentOpen;
                                escape = false;
                                group = String::new();
                                i += 2;
                            } else if c == '/' && i + 1 < list.len() && is_unknown_char(&list[i + 1], '/') {
                                mode = StringAreaState::CommentStart;
                                escape = false;
                                group = String::new();
                                i += 2;
                            } else {
                                rlist.push(ExprElem::UnKnownElem(*e));
                                assert(exprs_view(rlist@) == before.push(input[i as int]));
                                escape = false;
                                i += 1;
                            }
                        },
                    }
                },
                other => {
                    rlist.push(clone_expr(other));
                    assert(exprs_view(rlist@) == before.push(input[i as int]));
                    i += 1;
                },
            }
        }
        match mode {
            StringAreaState::CommentStart => {
                rlist.push(ExprElem::CommentElem(CommentBranch { contents: group, depth, loopdepth }));
                Ok(rlist)
            },
            StringAreaState::CommentOpen => Err(ParserError::CommentBlockNotClosed),
            StringAreaState::QuotationOpen => Err(ParserError::QuotationNotClosed),
            StringAreaState::Closed => Ok(rlist),
        }
    }

    /// The bracket pass for one kind of bracket.
    pub fn grouping_elements(list: &Vec<ExprElem>, bracket: Bracket, depth: isize, loopdepth: isize) -> (r:
        Result<Vec<ExprElem>, ParserError>)
        ensures
            exprs_outcome(r) == group_brackets(exprs_view(list@), bracket, depth, loopdepth, ParserKind::Expr),
    {
        Self::grouping_elements_for(list, bracket, depth, loopdepth, ParserKind::Expr)
    }

    /// The bracket pass for one kind of bracket, with the errors of the parser `kind`.
    pub fn grouping_elements_for(
        list: &Vec<ExprElem>,
        bracket: Bracket,
        depth: isize,
        loopdepth: isize,
        kind: ParserKind,
    ) -> (r: Result<Vec<ExprElem>, ParserError>)
        ensures
            exprs_outcome(r) == group_brackets(exprs_view(list@), bracket, depth, loopdepth, kind),
    {
        broadcast use group_view_lemmas;

        let ghost input = exprs_view(list@);
        let open = bracket.opener();
        let close = bracket.closer();
        let mut rlist: Vec<ExprElem> = Vec::new();
        let mut inner_stmts: Vec<StmtElem> = Vec::new();
        let mut inner_exprs: Vec<ExprElem> = Vec::new();
        let mut level: usize = 0;
        let mut i: usize = 0;
        while i < list.len()
            invariant
                i <= list.len(),
                level <= i,
                input == exprs_view(list@),
                open == bracket.open_char(),
                close == bracket.close_char(),
                bracket == Bracket::Brace ==> inner_exprs@.len() == 0,
                bracket != Bracket::Brace ==> inner_stmts@.len() == 0,
                group_brackets_from(
                    input,
                    i as int,
                    level as nat,
                    stmts_view(inner_stmts@) + exprs_view(inner_exprs@),
                    exprs_view(rlist@),
                    bracket,
                    depth,
                    loopdepth,
                    kind,
                ) == group_brackets(input, bracket, depth, loopdepth, kind),
            decreases list.len() - i,
        {
            let ghost before = exprs_view(rlist@);
            let ghost group = stmts_view(inner_stmts@) + exprs_view(inner_exprs@);
            assert(input[i as int] == list[i as int]@);
            assert(group == if bracket == Bracket::Brace {
                stmts_view(inner_stmts@)
            } else {
                exprs_view(inner_exprs@)
            });
            let item = &list[i];
            if is_unknown_char(item, open) {
                if level > 0 {
                    match bracket {
                        Bracket::Brace => {
                            inner_stmts.push(StmtElem::UnKnownElem(UnKnownBranch { contents: open }));
                            assert(stmts_view(inner_stmts@) == group.push(input[i as int]));
                        },
                        _ => {
                            inner_exprs.push(ExprElem::UnKnownElem(UnKnownBranch { contents: open }));
                            assert(exprs_view(inner_exprs@) == group.push(input[i as int]));
                        },
                    }
                }
                level += 1;
            } else if is_unknown_char(item, close) {
                if level == 0 {
                    return Err(ParserError::BraceNotOpened);
                } else if level == 1 {
                    match bracket {
                        Bracket::Brace => {
                            rlist.push(
                                ExprElem::BlockElem(
                                    BlockBranch { contents: inner_stmts, depth, loopdepth, resolved: false },
                                ),
                            );
                            inner_stmts = Vec::new();
                        },
                        Bracket::List => {
                            rlist.push(
                                ExprElem::ListBlockElem(
                                    ListBlockBranch { contents: inner_exprs, depth, loopdepth, resolved: false },
                                ),
                            );
                            inner_exprs = Vec::new();
                        },
                        Bracket::Paren => {
                            rlist.push(
                                ExprElem::ParenBlockElem(
                                    ParenBlockBranch { contents: inner_exprs, depth, loopdepth, resolved: false },
                                ),
                            );
                            inner_exprs = Vec::new();
                        },
                    }
                    assert(exprs_view(rlist@) == before.push(bracket.enclose(group, depth, loopdepth)));
                    assert(stmts_view(inner_stmts@) + exprs_view(inner_exprs@) =~= Seq::<Atom>::empty());
                    level = 0;
                } else {
                    match bracket {
                        Bracket::Brace => {
                            inner_stmts.push(StmtElem::UnKnownElem(UnKnownBranch { contents: close }));
                            assert(stmts_view(inner_stmts@) == group.push(input[i as int]));
                        },
                        _ => {
                            inner_exprs.push(ExprElem::UnKnownElem(UnKnownBranch { contents: close }));
                            assert(exprs_view(inner_exprs@) == group.push(input[i as int]));
                        },
                    }
                    level -= 1;
                }
            } else if level == 0 {
                rlist.push(clone_expr(item));
                assert(exprs_view(rlist@) == before.push(input[i as int]));
            } else {
                match bracket {
                    Bracket::Brace => {
                        match regroup_expr_as_stmt(item, depth, loopdepth) {
                            Some(n) => {
                                inner_stmts.push(n);
                                assert(stmts_view(inner_stmts@) == group.push(n@));
                            },
                            None => {
                                return Err(kind.unexpected_error());
                            },
                        }
                    },
                    _ => {
                        match regroup_expr(item, depth, loopdepth) {
                            Some(n) => {
                                inner_exprs.push(n);
                                assert(exprs_view(inner_exprs@) == group.push(n@));
                            },
                            None => {
                                return Err(kind.unexpected_error());
                            },
                        }
                    },
                }
            }
            i += 1;
            assert(stmts_view(inner_stmts@) + exprs_view(inner_exprs@) =~= if bracket == Bracket::Brace {
                stmts_view(inner_stmts@)
            } else {
                exprs_view(inner_exprs@)
            });
        }
        if level != 0 {
            Err(ParserError::BraceNotClosed)
        } else {
            Ok(rlist)
        }
    }

    /// The word pass.
    pub fn grouping_words(list: &Vec<ExprElem>, depth: isize, loopdepth: isize) -> (r: Vec<ExprElem>)
        ensures
            exprs_view(r@) == group_words(exprs_view(list@), depth, loopdepth),
    {
        broadcast use group_view_lemmas;

        let ghost input = exprs_view(list@);
        let mut rlist: Vec<ExprElem> = Vec::new();
        let mut group = String::new();
        let mut open = false;
        let mut i: usize = 0;
        while i < list.len()
            invariant
                i <= list.len(),
                input == exprs_view(list@),
                open == (group@.len() > 0),
                group_words_from(input, i as int, group@, exprs_view(rlist@), depth, loopdepth) == group_words(
                    input,
                    depth,
                    loopdepth,
                ),
            decreases list.len() - i,
        {
            let ghost before = exprs_view(rlist@);
            let ghost text = group@;
            assert(input[i as int] == list[i as int]@);
            match &list[i] {
                ExprElem::UnKnownElem(e) => {
                    let c = e.contents;
                    if split_char(c) || exclude_char(c) || ope_char(c) {
                        if open {
                            rlist.push(ExprElem::WordElem(WordBranch { contents: group, depth, loopdepth }));
                            assert(exprs_view(rlist@) == before.push(Atom::Word { text, depth, loopdepth }));
                            group = String::new();
                            open = false;
                        }
                        assert(exprs_view(rlist@) == flush_word(before, text, depth, loopdepth));
                        assert(group@ =~= Seq::<char>::empty());
                        if !split_char(c) {
                            let ghost flushed = exprs_view(rlist@);
                            rlist.push(ExprElem::UnKnownElem(*e));
                            assert(exprs_view(rlist@) == flushed.push(input[i as int]));
                            assert(exprs_view(rlist@) == flush_word(before, text, depth, loopdepth).push(
                                input[i as int],
                            ));
                        }
                    } else {
                        push_char(&mut group, c);
                        open = true;
                    }
                },
                other => {
                    if open {
                        rlist.push(ExprElem::WordElem(WordBranch { contents: group, depth, loopdepth }));
                        assert(exprs_view(rlist@) == before.push(Atom::Word { text, depth, loopdepth }));
                        group = String::new();
                        open = false;
                    }
                    assert(exprs_view(rlist@) == flush_word(before, text, depth, loopdepth));
                    assert(group@ =~= Seq::<char>::empty());
                    let ghost flushed = exprs_view(rlist@);
                    rlist.push(clone_expr(other));
                    assert(exprs_view(rlist@) == flushed.push(input[i as int]));
                    assert(exprs_view(rlist@) == flush_word(before, text, depth, loopdepth).push(input[i as int]));
                },
            }
            i += 1;
        }
        if open {
            let ghost before = exprs_view(rlist@);
            rlist.push(ExprElem::WordElem(WordBranch { contents: group, depth, loopdepth }));
            assert(exprs_view(rlist@) == before.push(Atom::Word { text: group@, depth, loopdepth }));
        }
        rlist
    }

    /// The pass for one operator.
    pub fn grouping_operator_unit(list: &Vec<ExprElem>, ope: &str, depth: isize) -> (r: Vec<ExprElem>)
        ensures
            exprs_view(r@) == group_operator(exprs_view(list@), ope@, depth),
    {
        broadcast use group_view_lemmas;

        let ghost input = exprs_view(list@);
        let ope_size = chars_of(ope).len();
        let mut rlist: Vec<ExprElem> = Vec::new();
        let mut group = String::new();
        let mut count: usize = 0;
        let mut i: usize = 0;
        while i < list.len()
            invariant
                i <= list.len(),
                input == exprs_view(list@),
                ope_size == ope@.len(),
                count == group@.len(),
                count <= i,
                group_operator_from(input, i as int, group@, exprs_view(rlist@), ope@, depth) == group_operator(
                    input,
                    ope@,
                    depth,
                ),
            decreases list.len() - i,
        {
            let ghost before = exprs_view(rlist@);
            let ghost text = group@;
            assert(input[i as int] == list[i as int]@);
            match &list[i] {
                ExprElem::UnKnownElem(e) => {
                    push_char(&mut group, e.contents);
                    count += 1;
                    if count >= ope_size {
                        Self::close_operator_run(&mut rlist, group, ope, depth);
                        group = String::new();
                        count = 0;
                    }
                },
                other => {
                    Self::close_operator_run(&mut rlist, group, ope, depth);
                    group = String::new();
                    count = 0;
                    let ghost closed = exprs_view(rlist@);
                    rlist.push(clone_expr(other));
                    assert(exprs_view(rlist@) == closed.push(input[i as int]));
                },
            }
            i += 1;
        }
        Self::push_characters(&mut rlist, group.as_str());
        rlist
    }

    /// Appends to `rlist` what a run of operator characters becomes: the
    /// operator, where the run spells `ope`, and its characters otherwise.
    fn close_operator_run(rlist: &mut Vec<ExprElem>, group: String, ope: &str, depth: isize)
        ensures
            exprs_view(final(rlist)@) == close_run(exprs_view(old(rlist)@), group@, ope@, depth),
    {
        broadcast use group_view_lemmas;

        let ghost before = exprs_view(rlist@);
        if same_text(group.as_str(), ope) {
            rlist.push(ExprElem::OpeElem(OperatorBranch { ope: group, depth }));
            assert(exprs_view(rlist@) == before.push(Atom::Ope { ope: group@, depth }));
        } else {
            Self::push_characters(rlist, group.as_str());
        }
    }

    /// Appends the characters of `text` to `rlist`, each as a character that
    /// no pass has classified.
    fn push_characters(rlist: &mut Vec<ExprElem>, text: &str)
        ensures
            exprs_view(final(rlist)@) == exprs_view(old(rlist)@) + unknowns(text@),
    {
        broadcast use group_view_lemmas;

        let ghost before = exprs_view(rlist@);
        let chars = chars_of(text);
        let mut k: usize = 0;
        assert(before =~= before + unknowns(text@.take(0)));
        while k < chars.len()
            invariant
                k <= chars.len(),
                chars@ == text@,
                exprs_view(rlist@) == before + unknowns(text@.take(k as int)),
            decreases chars.len() - k,
        {
            let ghost sofar = rlist@;
            let item = ExprElem::set_char_as_unknown(chars[k]);
            proof {
                lemma_exprs_view_push(sofar, item);
                lemma_unknowns_push(text@.take(k as int), chars[k as int]);
                assert(text@.take(k + 1) =~= text@.take(k as int).push(chars[k as int]));
            }
            rlist.push(item);
            k += 1;
            assert(exprs_view(rlist@) =~= before + unknowns(text@.take(k as int)));
        }
        assert(text@.take(chars.len() as int) =~= text@);
    }

    /// The operator passes, one for each operator of the table.
    pub fn grouping_operator(list: &Vec<ExprElem>, depth: isize) -> (r: Vec<ExprElem>)
        ensures
            exprs_view(r@) == group_operators(exprs_view(list@), depth),
    {
        let mut current = Self::grouping_operator_unit(list, ope_row(0).opestr, depth);
        let mut k: usize = 1;
        while k < OPE_COUNT
            invariant
                1 <= k <= OPE_COUNT,
                group_operators_from(exprs_view(current@), k as int, depth) == group_operators(
                    exprs_view(list@),
                    depth,
                ),
            decreases OPE_COUNT - k,
        {
            current = Self::grouping_operator_unit(&current, ope_row(k).opestr, depth);
            k += 1;
        }
        current
    }

    /// The clause pass.
    pub fn grouping_syntax(list: &Vec<ExprElem>, depth: isize, loopdepth: isize) -> (r: Vec<ExprElem>)
        ensures
            exprs_view(r@) == group_syntax(exprs_view(list@), depth, loopdepth),
    {
        broadcast use group_view_lemmas;

        let ghost input = exprs_view(list@);
        let mut rlist: Vec<ExprElem> = Vec::new();
        let mut name: Option<String> = None;
        let mut expr: Option<ParenBlockBranch> = None;
        let mut i: usize = 0;
        while i < list.len()
            invariant
                i <= list.len(),
                input == exprs_view(list@),
                group_syntax_from(
                    input,
                    i as int,
                    opt_text(name),
                    opt_paren(expr),
                    exprs_view(rlist@),
                    depth,
                    loopdepth,
                ) == group_syntax(input, depth, loopdepth),
            decreases list.len() - i,
        {
            let ghost before = exprs_view(rlist@);
            assert(input[i as int] == list[i as int]@);
            match &list[i] {
                ExprElem::WordElem(w) => {
                    if syntax_word(w.contents.as_str()) {
                        name = Some(w.contents.clone());
                    } else {
                        rlist.push(ExprElem::WordElem(w.clone()));
                        assert(exprs_view(rlist@) == before.push(input[i as int]));
                    }
                },
                ExprElem::ParenBlockElem(p) => {
                    if name.is_some() {
                        expr = Some(clone_paren_block(p));
                    } else {
                        rlist.push(ExprElem::ParenBlockElem(clone_paren_block(p)));
                        assert(exprs_view(rlist@) == before.push(input[i as int]));
                    }
                },
                ExprElem::BlockElem(b) => {
                    match name {
                        Some(n) => {
                            let condition = match expr {
                                Some(p) => p.contents,
                                None => Vec::new(),
                            };
                            assert(exprs_view(condition@) == clause_condition(opt_paren(expr)));
                            let clause = SyntaxBranch {
                                name: n,
                                expr: condition,
                                contents: clone_stmts(&b.contents),
                                depth,
                                loopdepth,
                                resolved: false,
                            };
                            rlist.push(ExprElem::SyntaxElem(clause));
                            assert(exprs_view(rlist@) == before.push(
                                Atom::Syntax {
                                    name: n@,
                                    expr: clause_condition(opt_paren(expr)),
                                    contents: stmts_view(b.contents@),
                                    depth,
                                    loopdepth,
                                    resolved: false,
                                },
                            ));
                        },
                        None => {
                            match expr {
                                Some(p) => {
                                    rlist.push(ExprElem::ParenBlockElem(p));
                                    assert(exprs_view(rlist@) == before.push(p@));
                                },
                                None => {},
                            }
                            let ghost mid = exprs_view(rlist@);
                            rlist.push(ExprElem::BlockElem(clone_block(b)));
                            assert(exprs_view(rlist@) == mid.push(input[i as int]));
                        },
                    }
                    name = None;
                    expr = None;
                },
                other => {
                    rlist.push(clone_expr(other));
                    assert(exprs_view(rlist@) == before.push(input[i as int]));
                },
            }
            i += 1;
        }
        rlist
    }

    /// The chain pass.
    pub fn grouping_syntaxbox(list: &Vec<ExprElem>, depth: isize, loopdepth: isize) -> (r: Result<
        Vec<ExprElem>,
        ParserError,
    >)
        ensures
            exprs_outcome(r) == group_chains(exprs_view(list@), depth, loopdepth),
    {
        broadcast use group_view_lemmas;

        let ghost input = exprs_view(list@);
        let mut rlist: Vec<ExprElem> = Vec::new();
        let mut name = String::new();
        let mut group: Vec<SyntaxBranch> = Vec::new();
        let mut i: usize = 0;
        while i < list.len()
            invariant
                i <= list.len(),
                input == exprs_view(list@),
                group_chains_from(
                    input,
                    i as int,
                    name@,
                    syntaxes_view(group@),
                    exprs_view(rlist@),
                    depth,
                    loopdepth,
                ) == group_chains(input, depth, loopdepth),
            decreases list.len() - i,
        {
            let ghost before = exprs_view(rlist@);
            let ghost chain = syntaxes_view(group@);
            let ghost chain_name = name@;
            assert(input[i as int] == list[i as int]@);
            match &list[i] {
                ExprElem::SyntaxElem(e) => {
                    if syntax_head(e.name.as_str()) {
                        if group.len() > 0 {
                            rlist.push(
                                ExprElem::SyntaxBoxElem(SyntaxBoxBranch { name, contents: group, depth, loopdepth }),
                            );
                            assert(exprs_view(rlist@) == before.push(
                                Atom::SyntaxBox { name: chain_name, contents: chain, depth, loopdepth },
                            ));
                            group = Vec::new();
                        }
                        assert(exprs_view(rlist@) == flush_chain(before, chain_name, chain, depth, loopdepth));
                        assert(syntaxes_view(group@) =~= Seq::<Atom>::empty());
                        name = e.name.clone();
                        group.push(clone_syntax(e));
                        assert(syntaxes_view(group@) == Seq::<Atom>::empty().push(input[i as int]));
                    } else if same_text(e.name.as_str(), "elif") {
                        if group.len() > 0 {
                            group.push(clone_syntax(e));
                            assert(syntaxes_view(group@) == chain.push(input[i as int]));
                        } else {
                            return Err(ParserError::GroupingSyntaxBoxError);
                        }
                    } else if same_text(e.name.as_str(), "else") {
                        if group.len() > 0 {
                            group.push(clone_syntax(e));
                            assert(syntaxes_view(group@) == chain.push(input[i as int]));
                            rlist.push(
                                ExprElem::SyntaxBoxElem(SyntaxBoxBranch { name, contents: group, depth, loopdepth }),
                            );
                            assert(exprs_view(rlist@) == before.push(
                                Atom::SyntaxBox {
                                    name: chain_name,
                                    contents: chain.push(input[i as int]),
                                    depth,
                                    loopdepth,
                                },
                            ));
                            group = Vec::new();
                            name = String::new();
                            assert(syntaxes_view(group@) =~= Seq::<Atom>::empty());
                        } else {
                            return Err(ParserError::GroupingSyntaxBoxError);
                        }
                    } else {
                        rlist.push(ExprElem::SyntaxElem(clone_syntax(e)));
                        assert(exprs_view(rlist@) == before.push(input[i as int]));
                    }
                },
                other => {
                    if group.len() > 0 {
                        rlist.push(ExprElem::SyntaxBoxElem(SyntaxBoxBranch { name, contents: group, depth, loopdepth }));
                        assert(exprs_view(rlist@) == before.push(
                            Atom::SyntaxBox { name: chain_name, contents: chain, depth, loopdepth },
                        ));
                        group = Vec::new();
                        name = String::new();
                    }
                    assert(syntaxes_view(group@) =~= Seq::<Atom>::empty());
                    assert(exprs_view(rlist@) == flush_chain(before, chain_name, chain, depth, loopdepth));
                    let ghost mid = exprs_view(rlist@);
                    rlist.push(clone_expr(other));
                    assert(exprs_view(rlist@) == mid.push(input[i as int]));
                },
            }
            i += 1;
        }
        if group.len() > 0 {
            let ghost before = exprs_view(rlist@);
            let ghost chain = syntaxes_view(group@);
            let ghost chain_name = name@;
            rlist.push(ExprElem::SyntaxBoxElem(SyntaxBoxBranch { name, contents: group, depth, loopdepth }));
            assert(exprs_view(rlist@) == before.push(
                Atom::SyntaxBox { name: chain_name, contents: chain, depth, loopdepth },
            ));
        }
        Ok(rlist)
    }

    /// Whether a callee stands right before a bracket somewhere in the run.
    pub fn contain_subscriptable(list: &Vec<ExprElem>) -> (r: bool)
        ensures
            r == has_call_site(exprs_view(list@)),
    {
        let ghost input = exprs_view(list@);
        let mut pending: Option<usize> = None;
        let mut i: usize = 0;
        while i < list.len()
            invariant
                i <= list.len(),
                input == exprs_view(list@),
                match pending {
                    Some(k) => k < list.len(),
                    None => true,
                },
                has_call_site_from(
                    input,
                    i as int,
                    match pending {
                        Some(k) => Some(input[k as int]),
                        None => None,
                    },
                ) == has_call_site(input),
            decreases list.len() - i,
        {
            assert(input[i as int] == list[i as int]@);
            if callable(&list[i]) {
                pending = Some(i);
            } else {
                if bracket_arg(&list[i]) {
                    match pending {
                        Some(k) => {
                            assert(input[k as int] == list[k as int]@);
                            if bracket_taker(&list[k]) {
                                return true;
                            }
                        },
                        None => {},
                    }
                }
                pending = None;
            }
            i += 1;
        }
        false
    }

    /// One call pass.
    pub fn grouping_subscription(list: &Vec<ExprElem>, depth: isize, loopdepth: isize) -> (r: Vec<ExprElem>)
        ensures
            exprs_view(r@) == merge_calls(exprs_view(list@), depth, loopdepth),
    {
        broadcast use group_view_lemmas;

        let ghost input = exprs_view(list@);
        let mut rlist: Vec<ExprElem> = Vec::new();
        let mut pending: Option<ExprElem> = None;
        let mut i: usize = 0;
        while i < list.len()
            invariant
                i <= list.len(),
                input == exprs_view(list@),
                merge_calls_from(input, i as int, opt_expr(pending), exprs_view(rlist@), depth, loopdepth)
                    == merge_calls(input, depth, loopdepth),
            decreases list.len() - i,
        {
            let ghost before = exprs_view(rlist@);
            assert(input[i as int] == list[i as int]@);
            let item = &list[i];
            if callable(item) {
                match pending {
                    Some(p) => {
                        rlist.push(p);
                        assert(exprs_view(rlist@) == before.push(p@));
                    },
                    None => {},
                }
                pending = Some(clone_expr(item));
            } else {
                match pending {
                    Some(p) => {
                        let ghost callee = p@;
                        if !bracket_taker(&p) {
                            rlist.push(p);
                            assert(exprs_view(rlist@) == before.push(callee));
                            rlist.push(clone_expr(item));
                            assert(exprs_view(rlist@) == before.push(callee).push(input[i as int]));
                        } else if is_list_block(item) {
                            let mut slot: Vec<ExprElem> = Vec::new();
                            slot.push(clone_expr(item));
                            assert(exprs_view(slot@) =~= seq![input[i as int]]);
                            rlist.push(
                                ExprElem::ListElem(
                                    ListBranch {
                                        name: Box::new(p),
                                        contents: slot,
                                        depth,
                                        loopdepth,
                                        resolved: false,
                                    },
                                ),
                            );
                            assert(exprs_view(rlist@) == before.push(
                                Atom::List {
                                    callee: Box::new(callee),
                                    contents: seq![input[i as int]],
                                    depth,
                                    loopdepth,
                                    resolved: false,
                                },
                            ));
                        } else if is_paren_block(item) {
                            let mut slot: Vec<ExprElem> = Vec::new();
                            slot.push(clone_expr(item));
                            assert(exprs_view(slot@) =~= seq![input[i as int]]);
                            rlist.push(
                                ExprElem::FuncElem(
                                    FuncBranch {
                                        name: Box::new(p),
                                        contents: slot,
                                        depth,
                                        loopdepth,
                                        resolved: false,
                                    },
                                ),
                            );
                            assert(exprs_view(rlist@) == before.push(
                                Atom::Func {
                                    callee: Box::new(callee),
                                    contents: seq![input[i as int]],
                                    depth,
                                    loopdepth,
                                    resolved: false,
                                },
                            ));
                        } else {
                            rlist.push(p);
                            assert(exprs_view(rlist@) == before.push(callee));
                            rlist.push(clone_expr(item));
                            assert(exprs_view(rlist@) == before.push(callee).push(input[i as int]));
                        }
                    },
                    None => {
                        rlist.push(clone_expr(item));
                        assert(exprs_view(rlist@) == before.push(input[i as int]));
                    },
                }
                pending = None;
            }
            i += 1;
        }
        match pending {
            Some(p) => {
                let ghost before = exprs_view(rlist@);
                rlist.push(p);
                assert(exprs_view(rlist@) == before.push(p@));
            },
            None => {},
        }
        rlist
    }

    /// The call passes, repeated until no callee stands before a bracket.
    pub fn grouping_subscriptions(list: Vec<ExprElem>, depth: isize, loopdepth: isize) -> (r: Vec<ExprElem>)
        ensures
            exprs_view(r@) == merge_calls_fix(exprs_view(list@), depth, loopdepth),
            !has_call_site(exprs_view(r@)),
    {
        let ghost input = exprs_view(list@);
        let mut current = list;
        while Self::contain_subscriptable(&current)
            invariant
                merge_calls_fix(exprs_view(current@), depth, loopdepth) == merge_calls_fix(input, depth, loopdepth),
            ensures
                !has_call_site(exprs_view(current@)),
            decreases current@.len(),
        {
            proof {
                lemma_merge_calls_shrinks(exprs_view(current@), 0, None, Seq::empty(), depth, loopdepth);
            }
            current = Self::grouping_subscription(&current, depth, loopdepth);
        }
        current
    }

    /// The position of the operator at which the run is split, if it holds an operator.
    pub fn find_min_priority_index(list: &Vec<ExprElem>) -> (r: Result<Option<usize>, ParserError>)
        ensures
            match r {
                Ok(Some(k)) => reduction_point(exprs_view(list@)) == Ok::<Option<int>, ParserError>(Some(k as int))
                    && k < list@.len(),
                Ok(None) => reduction_point(exprs_view(list@)) == Ok::<Option<int>, ParserError>(None),
                Err(e) => reduction_point(exprs_view(list@)) == Err::<Option<int>, ParserError>(e),
            },
    {
        let ghost input = exprs_view(list@);
        let mut priority: i32 = i32::MAX;
        let mut best: Option<usize> = None;
        let mut i: usize = 0;
        while i < list.len()
            invariant
                i <= list.len(),
                input == exprs_view(list@),
                match best {
                    Some(k) => k < i,
                    None => true,
                },
                reduction_point_from(
                    input,
                    i as int,
                    priority as int,
                    match best {
                        Some(k) => Some(k as int),
                        None => None,
                    },
                ) == reduction_point(input),
            decreases list.len() - i,
        {
            assert(input[i as int] == list[i as int]@);
            match &list[i] {
                ExprElem::OpeElem(o) => {
                    match find_ope_priority(o.ope.as_str()) {
                        None => {
                            return Err(ParserError::OperationError);
                        },
                        Some(row) => {
                            let follows_operator = if i > 0 {
                                assert(input[i - 1] == list[i - 1]@);
                                is_operator(&list[i - 1])
                            } else {
                                false
                            };
                            if !follows_operator && row.priority < priority {
                                best = Some(i);
                                priority = row.priority;
                            }
                        },
                    }
                },
                _ => {},
            }
            i += 1;
        }
        Ok(best)
    }

    /// The precedence pass.
    pub fn resolve_operation(list: Vec<ExprElem>, depth: isize, loopdepth: isize) -> (r: Result<
        Vec<ExprElem>,
        ParserError,
    >)
        ensures
            exprs_outcome(r) == reduce_operation(exprs_view(list@), depth, loopdepth),
    {
        broadcast use group_view_lemmas;

        let ghost input = exprs_view(list@);
        match Self::find_min_priority_index(&list) {
            Err(e) => Err(e),
            Ok(None) => Ok(list),
            Ok(Some(k)) => {
                let end = list.len();
                let left = clone_range(&list, 0, k);
                let right = clone_range(&list, k + 1, end);
                let callee = clone_expr(&list[k]);
                assert(callee@ == input[k as int]);
                let mut operands: Vec<ExprElem> = Vec::new();
                operands.push(ExprElem::ItemElem(ItemBranch { contents: left, depth, loopdepth, resolved: false }));
                operands.push(ExprElem::ItemElem(ItemBranch { contents: right, depth, loopdepth, resolved: false }));
                assert(exprs_view(operands@) =~= seq![
                    Atom::Item { contents: input.subrange(0, k as int), depth, loopdepth, resolved: false },
                    Atom::Item {
                        contents: input.subrange(k + 1, input.len() as int),
                        depth,
                        loopdepth,
                        resolved: false,
                    },
                ]);
                let mut out: Vec<ExprElem> = Vec::new();
                out.push(
                    ExprElem::FuncElem(
                        FuncBranch { name: Box::new(callee), contents: operands, depth, loopdepth, resolved: false },
                    ),
                );
                assert(exprs_view(out@) =~= split_at(input, k as int, depth, loopdepth));
                Ok(out)
            },
        }
    }

    /// All the passes over one run, in order.
    pub fn passes(list: &Vec<ExprElem>, depth: isize, loopdepth: isize) -> (r: Result<Vec<ExprElem>, ParserError>)
        ensures
            exprs_outcome(r) == expr_passes(exprs_view(list@), depth, loopdepth),
    {
        let s1 = Self::grouping_string(list, depth, loopdepth)?;
        let s2 = Self::grouping_elements(&s1, Bracket::Brace, depth, loopdepth)?;
        let s3 = Self::grouping_elements(&s2, Bracket::List, depth, loopdepth)?;
        let s4 = Self::grouping_elements(&s3, Bracket::Paren, depth, loopdepth)?;
        Self::grammar(&s4, depth, loopdepth)
    }

    /// The passes that follow the bracket passes, in order.
    pub fn grammar(list: &Vec<ExprElem>, depth: isize, loopdepth: isize) -> (r: Result<Vec<ExprElem>, ParserError>)
        ensures
            exprs_outcome(r) == expr_grammar(exprs_view(list@), depth, loopdepth),
    {
        let words = Self::grouping_words(list, depth, loopdepth);
        let clauses = Self::grouping_syntax(&words, depth, loopdepth);
        let chained = Self::grouping_syntaxbox(&clauses, depth, loopdepth)?;
        let calls = Self::grouping_subscriptions(chained, depth, loopdepth);
        let operators = Self::grouping_operator(&calls, depth);
        Self::resolve_operation(operators, depth, loopdepth)
    }

    /// A parser over a run of atoms that is there already.
    pub fn create_parser_from_vec(code_list: Vec<ExprElem>, depth: isize, loopdepth: isize) -> (r: Self)
        ensures
            r.code@ == Seq::<char>::empty(),
            r.code_list == code_list,
            r.depth == depth,
            r.loopdepth == loopdepth,
    {
        ExprParser { code: String::new(), code_list, depth, loopdepth }
    }

    /// Runs all the passes over the parser's atoms and keeps the outcome.
    ///
    /// On an error the parser is left as it was.
    pub fn code2vec(&mut self) -> (r: Result<(), ParserError>)
        ensures
            final(self).code == old(self).code,
            final(self).depth == old(self).depth,
            final(self).loopdepth == old(self).loopdepth,
            match r {
                Ok(()) => Ok::<Seq<Atom>, ParserError>(exprs_view(final(self).code_list@)) == expr_passes(
                    exprs_view(old(self).code_list@),
                    old(self).depth,
                    old(self).loopdepth,
                ),
                Err(e) => final(self).code_list == old(self).code_list && Err::<Seq<Atom>, ParserError>(e)
                    == expr_passes(exprs_view(old(self).code_list@), old(self).depth, old(self).loopdepth),
            },
    {
        match Self::passes(&self.code_list, self.depth, self.loopdepth) {
            Ok(v) => {
                self.code_list = v;
                Ok(())
            },
            Err(e) => Err(e),
        }
    }
}

/// The text of a control word that is held back, if any.
pub open spec fn opt_text(name: Option<String>) -> Option<Seq<char>> {
    match name {
        Some(n) => Some(n@),
        None => None,
    }
}

/// The tree of a parenthesis that is held back, if any.
pub open spec fn opt_paren(expr: Option<ParenBlockBranch>) -> Option<Atom> {
    match expr {
        Some(p) => Some(p@),
        None => None,
    }
}

/// The tree of a node that is held back, if any.
pub open spec fn opt_expr(e: Option<ExprElem>) -> Option<Atom> {
    match e {
        Some(p) => Some(p@),
        None => None,
    }
}

/// Whether a node can be the callee of a call or a subscript.
pub fn callable(e: &ExprElem) -> (r: bool)
    ensures
        r == is_callable(e@),
{
    match e {
        ExprElem::WordElem(_) => true,
        ExprElem::FuncElem(_) => true,
        ExprElem::ListElem(_) => true,
        ExprElem::SyntaxBoxElem(_) => true,
        _ => false,
    }
}

/// Whether a bracket right after this node makes a call or a subscript.
pub fn bracket_taker(e: &ExprElem) -> (r: bool)
    ensures
        r == takes_bracket(e@),
{
    match e {
        ExprElem::WordElem(w) => !control_word(w.contents.as_str()),
        ExprElem::FuncElem(_) => true,
        ExprElem::ListElem(_) => true,
        ExprElem::SyntaxBoxElem(_) => true,
        _ => false,
    }
}

/// Whether a node is a `( ... )` or a `[ ... ]`.
pub fn bracket_arg(e: &ExprElem) -> (r: bool)
    ensures
        r == is_bracket_arg(e@),
{
    match e {
        ExprElem::ListBlockElem(_) => true,
        ExprElem::ParenBlockElem(_) => true,
        _ => false,
    }
}

/// Whether a node is a `[ ... ]`.
pub fn is_list_block(e: &ExprElem) -> (r: bool)
    ensures
        r == (e@ is ListBlock),
{
    match e {
        ExprElem::ListBlockElem(_) => true,
        _ => false,
    }
}

/// Whether a node is a `( ... )`.
pub fn is_paren_block(e: &ExprElem) -> (r: bool)
    ensures
        r == (e@ is ParenBlock),
{
    match e {
        ExprElem::ParenBlockElem(_) => true,
        _ => false,
    }
}

/// Whether a node is an operator.
pub fn is_operator(e: &ExprElem) -> (r: bool)
    ensures
        r == (e@ is Ope),
{
    match e {
        ExprElem::OpeElem(_) => true,
        _ => false,
    }
}

/// A copy of the nodes from position `from` up to, not including, position `to`.
pub fn clone_range(list: &Vec<ExprElem>, from: usize, to: usize) -> (r: Vec<ExprElem>)
    requires
        from <= to <= list@.len(),
    ensures
        exprs_view(r@) == exprs_view(list@).subrange(from as int, to as int),
{
    broadcast use group_view_lemmas;

    let mut out: Vec<ExprElem> = Vec::new();
    let mut i: usize = from;
    while i < to
        invariant
            from <= i <= to,
            to <= list@.len(),
            exprs_view(out@) == exprs_view(list@).subrange(from as int, i as int),
        decreases to - i,
    {
        let ghost before = exprs_view(out@);
        out.push(clone_expr(&list[i]));
        assert(exprs_view(out@) == before.push(exprs_view(list@)[i as int]));
        i += 1;
        assert(exprs_view(out@) =~= exprs_view(list@).subrange(from as int, i as int));
    }
    out
}

/// Whether a node is the unclassified character `c`.
pub fn is_unknown_char(e: &ExprElem, c: char) -> (r: bool)
    ensures
        r == e@.is_char(c),
{
    match e {
        ExprElem::UnKnownElem(u) => u.contents == c,
        _ => false,
    }
}

/// Every character of the text as an unclassified node.
pub fn code2_vec_pre_proc_func(code: &str) -> (r: Vec<ExprElem>)
    ensures
        exprs_view(r@) == unknowns(code@),
{
    broadcast use group_view_lemmas;

    let chars = chars_of(code);
    let mut out: Vec<ExprElem> = Vec::new();
    let mut k: usize = 0;
    assert(code@.take(0) =~= Seq::<char>::empty());
    while k < chars.len()
        invariant
            k <= chars.len(),
            chars@ == code@,
            exprs_view(out@) == unknowns(code@.take(k as int)),
        decreases chars.len() - k,
    {
        let ghost sofar = out@;
        let item = ExprElem::set_char_as_unknown(chars[k]);
        proof {
            lemma_exprs_view_push(sofar, item);
            lemma_unknowns_push(code@.take(k as int), chars[k as int]);
            assert(code@.take(k + 1) =~= code@.take(k as int).push(chars[k as int]));
        }
        out.push(item);
        k += 1;
    }
    assert(code@.take(chars.len() as int) =~= code@);
    out
}

/// The outcome of `resolve` on a parser of expression atoms.
pub open spec fn expr_parser_resolved(before: ExprParser, after: ExprParser, r: Result<(), ParserError>) -> bool {
    &&& after.code == before.code
    &&& after.depth == before.depth
    &&& after.loopdepth == before.loopdepth
    &&& match r {
        Ok(()) => Ok::<Seq<Atom>, ParserError>(exprs_view(after.code_list@)) == resolve_run(
            ParserKind::Expr,
            exprs_view(before.code_list@),
            before.depth,
            before.loopdepth,
            MAX_NESTING as nat,
        ),
        Err(e) => after.code_list == before.code_list && Err::<Seq<Atom>, ParserError>(e) == resolve_run(
            ParserKind::Expr,
            exprs_view(before.code_list@),
            before.depth,
            before.loopdepth,
            MAX_NESTING as nat,
        ),
    }
}

impl Parser for ExprParser {
    /// A parser over the characters of `code`.
    fn new(code: String, depth: isize, loopdepth: isize) -> (r: Self)
        ensures
            r.code == code,
            exprs_view(r.code_list@) == unknowns(code@),
            r.depth == depth,
            r.loopdepth == loopdepth,
    {
        let code_list = code2_vec_pre_proc_func(code.as_str());
        ExprParser { code, code_list, depth, loopdepth }
    }

    /// Runs all the passes over the parser's atoms, resolves every node of
    /// the outcome within `MAX_NESTING` levels of nesting, and keeps the result.
    ///
    /// On an error the parser is left as it was.
    fn resolve(&mut self) -> (r: Result<(), ParserError>)
        ensures
            expr_parser_resolved(*old(self), *final(self), r),
    {
        match resolve_expr_run(&self.code_list, self.depth, self.loopdepth, MAX_NESTING) {
            Ok(v) => {
                self.code_list = v;
                Ok(())
            },
            Err(e) => Err(e),
        }
    }
}

} // verus!

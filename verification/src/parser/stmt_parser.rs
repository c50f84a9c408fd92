//! The statement parser.
use crate::abs::ast::{
    clone_exprs, clone_stmt, clone_stmts, exprs_view, group_view_lemmas, lemma_stmts_view_push, regroup_stmt,
    regroup_stmt_as_expr, stmts_view, ExprElem, StmtElem, Token,
};
use crate::abs::atom::Atom;
use crate::errors::parser_errors::ParserError;
use crate::parser::core_parser::{
    control_word, exclude_char, ope_char, split_char, Parser, ParserKind, DOUBLE_QUOTATION, ESCAPECHAR,
    MAX_NESTING, SEMICOLON,
};
use crate::parser::lexer::{
    flush_word, group_brackets, group_brackets_from, group_strings, group_strings_from, group_words,
    group_words_from, lemma_unknowns_push, unknowns, Bracket, StringAreaState,
};
use crate::parser::statement::{
    close_statement, has_statement, split_statements, split_statements_from, stmt_passes, stmt_to_expr,
};
use crate::resolve::{resolve_run, resolve_stmt_run};
use crate::text::{chars_of, push_char};
use crate::token::block::BlockBranch;
use crate::token::comment::CommentBranch;
use crate::token::list_block::ListBlockBranch;
use crate::token::paren_block::ParenBlockBranch;
use crate::token::stmt::expr::ExprBranch;
use crate::token::stmt::stmt::StmtBranch;
use crate::token::string::StringBranch;
use crate::token::unknown::UnKnownBranch;
use crate::token::word::WordBranch;
use vstd::prelude::*;

verus! {

/// Parses a run of statement atoms.
#[derive(Debug)]
pub struct StmtParser {
    pub code: String,
    pub code_list: Vec<StmtElem>,
    pub depth: isize,
    pub loopdepth: isize,
}

/// The trees of the outcome of a pass over statement nodes.
pub open spec fn stmts_outcome(r: Result<Vec<StmtElem>, ParserError>) -> Result<Seq<Atom>, ParserError> {
    match r {
        Ok(v) => Ok(stmts_view(v@)),
        Err(e) => Err(e),
    }
}

/// The trees of the outcome of a conversion to expression nodes.
pub open spec fn converted_outcome(r: Result<Vec<ExprElem>, ParserError>) -> Result<Seq<Atom>, ParserError> {
    match r {
        Ok(v) => Ok(exprs_view(v@)),
        Err(e) => Err(e),
    }
}

impl StmtParser {
    /// The quote and comment pass.
    pub fn grouping_string(list: &Vec<StmtElem>, depth: isize, loopdepth: isize) -> (r: Result<
        Vec<StmtElem>,
        ParserError,
    >)
        ensures
            stmts_outcome(r) == group_strings(stmts_view(list@), depth, loopdepth, ParserKind::Stmt),
    {
        broadcast use group_view_lemmas;

        let ghost input = stmts_view(list@);
        let ghost kind = ParserKind::Stmt;
        let mut rlist: Vec<StmtElem> = Vec::new();
        let mut group = String::new();
        let mut mode = StringAreaState::Closed;
        let mut escape = false;
        let mut i: usize = 0;
        while i < list.len()
            invariant
                i <= list.len(),
                input == stmts_view(list@),
                kind == ParserKind::Stmt,
                group_strings_from(
                    input,
                    i as int,
                    mode,
                    escape,
                    group@,
                    stmts_view(rlist@),
                    depth,
                    loopdepth,
                    kind,
                ) == group_strings(input, depth, loopdepth, kind),
            decreases list.len() - i,
        {
            let ghost before = stmts_view(rlist@);
            let ghost text = group@;
            assert(input[i as int] == list[i as int]@);
            assert(i + 1 < list.len() ==> input[i + 1] == list[i + 1]@);
            match &list[i] {
                StmtElem::UnKnownElem(e) => {
                    let c = e.contents;
                    match mode {
                        StringAreaState::CommentStart => {
                            if c == '\n' {
                                rlist.push(StmtElem::CommentElem(CommentBranch { contents: group, depth, loopdepth }));
                                assert(stmts_view(rlist@) == before.push(Atom::Comment { text, depth, loopdepth }));
                                group = String::new();
                                mode = StringAreaState::Closed;
                            } else {
                                push_char(&mut group, c);
                            }
                            i += 1;
                        },
                        StringAreaState::CommentOpen => {
                            if c != '*' {
                                push_char(&mut group, c);
                                i += 1;
                            } else if i + 1 >= list.len() {
                                return Err(ParserError::CommentBlockNotClosed);
                            } else {
                                assert(input[i + 1] == list[i + 1]@);
                                match &list[i + 1] {
                                    StmtElem::UnKnownElem(n) => {
                                        if n.contents == '/' {
                                            rlist.push(
                                                StmtElem::CommentElem(CommentBranch { contents: group, depth, loopdepth }),
                                            );
                                            assert(stmts_view(rlist@) == before.push(
                                                Atom::Comment { text, depth, loopdepth },
                                            ));
                                            group = String::new();
                                            mode = StringAreaState::Closed;
                                            i += 2;
                                        } else {
                                            push_char(&mut group, c);
                                            i += 1;
                                        }
                                    },
                                    _ => {
                                        return Err(ParserError::UnexpectedTypeStmt);
                                    },
                                }
                            }
                        },
                        StringAreaState::QuotationOpen => {
                            if escape {
                                push_char(&mut group, c);
                                escape = false;
                            } else if c == DOUBLE_QUOTATION {
                                rlist.push(StmtElem::StringElem(StringBranch { contents: group, depth, loopdepth }));
                                assert(stmts_view(rlist@) == before.push(Atom::Str { text, depth, loopdepth }));
                                group = String::new();
                                mode = StringAreaState::Closed;
                            } else if c == ESCAPECHAR {
                                escape = true;
                            } else {
                                push_char(&mut group, c);
                            }
                            i += 1;
                        },
                        StringAreaState::Closed => {
                            if c == DOUBLE_QUOTATION {
                                mode = StringAreaState::QuotationOpen;
                                escape = false;
                                group = String::new();
                                i += 1;
                            } else if c == '/' && i + 1 < list.len() && is_unknown_stmt_char(&list[i + 1], '*') {
                                mode = StringAreaState::CommentOpen;
                                escape = false;
                                group = String::new();
                                i += 2;
                            } else if c == '/' && i + 1 < list.len() && is_unknown_stmt_char(&list[i + 1], '/') {
                                mode = StringAreaState::CommentStart;
                                escape = false;
                                group = String::new();
                                i += 2;
                            } else {
                                rlist.push(StmtElem::UnKnownElem(*e));
                                assert(stmts_view(rlist@) == before.push(input[i as int]));
                                escape = false;
                                i += 1;
                            }
                        },
                    }
                },
                other => {
                    rlist.push(clone_stmt(other));
                    assert(stmts_view(rlist@) == before.push(input[i as int]));
                    i += 1;
                },
            }
        }
        match mode {
            StringAreaState::CommentStart => {
                rlist.push(StmtElem::CommentElem(CommentBranch { contents: group, depth, loopdepth }));
                Ok(rlist)
            },
            StringAreaState::CommentOpen => Err(ParserError::CommentBlockNotClosed),
            StringAreaState::QuotationOpen => Err(ParserError::QuotationNotClosed),
            StringAreaState::Closed => Ok(rlist),
        }
    }

    /// The bracket pass for one kind of bracket.
    pub fn grouping_elements(list: &Vec<StmtElem>, bracket: Bracket, depth: isize, loopdepth: isize) -> (r:
        Result<Vec<StmtElem>, ParserError>)
        ensures
            stmts_outcome(r) == group_brackets(stmts_view(list@), bracket, depth, loopdepth, ParserKind::Stmt),
    {
        broadcast use group_view_lemmas;

        let ghost input = stmts_view(list@);
        let ghost kind = ParserKind::Stmt;
        let open = bracket.opener();
        let close = bracket.closer();
        let mut rlist: Vec<StmtElem> = Vec::new();
        let mut inner_stmts: Vec<StmtElem> = Vec::new();
        let mut inner_exprs: Vec<ExprElem> = Vec::new();
        let mut level: usize = 0;
        let mut i: usize = 0;
        while i < list.len()
            invariant
                i <= list.len(),
                level <= i,
                input == stmts_view(list@),
                kind == ParserKind::Stmt,
                open == bracket.open_char(),
                close == bracket.close_char(),
                bracket == Bracket::Brace ==> inner_exprs@.len() == 0,
                bracket != Bracket::Brace ==> inner_stmts@.len() == 0,
                group_brackets_from(
                    input,
                    i as int,
                    level as nat,
                    stmts_view(inner_stmts@) + exprs_view(inner_exprs@),
                    stmts_view(rlist@),
                    bracket,
                    depth,
                    loopdepth,
                    kind,
                ) == group_brackets(input, bracket, depth, loopdepth, kind),
            decreases list.len() - i,
        {
            let ghost before = stmts_view(rlist@);
            let ghost group = stmts_view(inner_stmts@) + exprs_view(inner_exprs@);
            assert(input[i as int] == list[i as int]@);
            assert(group == if bracket == Bracket::Brace {
                stmts_view(inner_stmts@)
            } else {
                exprs_view(inner_exprs@)
            });
            let item = &list[i];
            if is_unknown_stmt_char(item, open) {
                if level > 0 {
                    match bracket {
                        Bracket::Brace => {
                            inner_stmts.push(StmtElem::UnKnownElem(UnKnownBranch { contents: open }));
                            assert(stmts_view(inner_stmts@) == group.push(input[i as int]));
                        },
                        _ => {
                            inner_exprs.push(ExprElem::UnKnownElem(UnKnownBranch { contents: open }));
                            assert(exprs_view(inner_exprs@) == group.push(input[i as int]));
                        },
                    }
                }
                level += 1;
            } else if is_unknown_stmt_char(item, close) {
                if level == 0 {
                    return Err(ParserError::BraceNotOpened);
                } else if level == 1 {
                    match bracket {
                        Bracket::Brace => {
                            rlist.push(
                                StmtElem::BlockElem(
                                    BlockBranch { contents: inner_stmts, depth, loopdepth, resolved: false },
                                ),
                            );
                            inner_stmts = Vec::new();
                        },
                        Bracket::List => {
                            rlist.push(
                                StmtElem::ListBlockElem(
                                    ListBlockBranch { contents: inner_exprs, depth, loopdepth, resolved: false },
                                ),
                            );
                            inner_exprs = Vec::new();
                        },
                        Bracket::Paren => {
                            rlist.push(
                                StmtElem::ParenBlockElem(
                                    ParenBlockBranch { contents: inner_exprs, depth, loopdepth, resolved: false },
                                ),
                            );
                            inner_exprs = Vec::new();
                        },
                    }
                    assert(stmts_view(rlist@) == before.push(bracket.enclose(group, depth, loopdepth)));
                    assert(stmts_view(inner_stmts@) + exprs_view(inner_exprs@) =~= Seq::<Atom>::empty());
                    level = 0;
                } else {
                    match bracket {
                        Bracket::Brace => {
                            inner_stmts.push(StmtElem::UnKnownElem(UnKnownBranch { contents: close }));
                            assert(stmts_view(inner_stmts@) == group.push(input[i as int]));
                        },
                        _ => {
                            inner_exprs.push(ExprElem::UnKnownElem(UnKnownBranch { contents: close }));
                            assert(exprs_view(inner_exprs@) == group.push(input[i as int]));
                        },
                    }
                    level -= 1;
                }
            } else if level == 0 {
                rlist.push(clone_stmt(item));
                assert(stmts_view(rlist@) == before.push(input[i as int]));
            } else {
                match bracket {
                    Bracket::Brace => {
                        match regroup_stmt(item, depth, loopdepth) {
                            Some(n) => {
                                inner_stmts.push(n);
                                assert(stmts_view(inner_stmts@) == group.push(n@));
                            },
                            None => {
                                return Err(ParserError::UnexpectedTypeStmt);
                            },
                        }
                    },
                    _ => {
                        match regroup_stmt_as_expr(item, depth, loopdepth) {
                            Some(n) => {
                                inner_exprs.push(n);
                                assert(exprs_view(inner_exprs@) == group.push(n@));
                            },
                            None => {
                                return Err(ParserError::UnexpectedTypeStmt);
                            },
                        }
                    },
                }
            }
            i += 1;
            assert(stmts_view(inner_stmts@) + exprs_view(inner_exprs@) =~= if bracket == Bracket::Brace {
                stmts_view(inner_stmts@)
            } else {
                exprs_view(inner_exprs@)
            });
        }
        if level != 0 {
            Err(ParserError::BraceNotClosed)
        } else {
            Ok(rlist)
        }
    }

    /// The word pass.
    pub fn grouping_words(list: &Vec<StmtElem>, depth: isize, loopdepth: isize) -> (r: Vec<StmtElem>)
        ensures
            stmts_view(r@) == group_words(stmts_view(list@), depth, loopdepth),
    {
        broadcast use group_view_lemmas;

        let ghost input = stmts_view(list@);
        let mut rlist: Vec<StmtElem> = Vec::new();
        let mut group = String::new();
        let mut open = false;
        let mut i: usize = 0;
        while i < list.len()
            invariant
                i <= list.len(),
                input == stmts_view(list@),
                open == (group@.len() > 0),
                group_words_from(input, i as int, group@, stmts_view(rlist@), depth, loopdepth) == group_words(
                    input,
                    depth,
                    loopdepth,
                ),
            decreases list.len() - i,
        {
            let ghost before = stmts_view(rlist@);
            let ghost text = group@;
            assert(input[i as int] == list[i as int]@);
            match &list[i] {
                StmtElem::UnKnownElem(e) => {
                    let c = e.contents;
                    if split_char(c) || exclude_char(c) || ope_char(c) {
                        if open {
                            rlist.push(StmtElem::WordElem(WordBranch { contents: group, depth, loopdepth }));
                            assert(stmts_view(rlist@) == before.push(Atom::Word { text, depth, loopdepth }));
                            group = String::new();
                            open = false;
                        }
                        assert(stmts_view(rlist@) == flush_word(before, text, depth, loopdepth));
                        assert(group@ =~= Seq::<char>::empty());
                        if !split_char(c) {
                            let ghost flushed = stmts_view(rlist@);
                            rlist.push(StmtElem::UnKnownElem(*e));
                            assert(stmts_view(rlist@) == flushed.push(input[i as int]));
                            assert(stmts_view(rlist@) == flush_word(before, text, depth, loopdepth).push(
                                input[i as int],
                            ));
                        }
                    } else {
                        push_char(&mut group, c);
                        open = true;
                    }
                },
                other => {
                    if open {
                        rlist.push(StmtElem::WordElem(WordBranch { contents: group, depth, loopdepth }));
                        assert(stmts_view(rlist@) == before.push(Atom::Word { text, depth, loopdepth }));
                        group = String::new();
                        open = false;
                    }
                    assert(stmts_view(rlist@) == flush_word(before, text, depth, loopdepth));
                    assert(group@ =~= Seq::<char>::empty());
                    let ghost flushed = stmts_view(rlist@);
                    rlist.push(clone_stmt(other));
                    assert(stmts_view(rlist@) == flushed.push(input[i as int]));
                    assert(stmts_view(rlist@) == flush_word(before, text, depth, loopdepth).push(input[i as int]));
                },
            }
            i += 1;
        }
        if open {
            let ghost before = stmts_view(rlist@);
            rlist.push(StmtElem::WordElem(WordBranch { contents: group, depth, loopdepth }));
            assert(stmts_view(rlist@) == before.push(Atom::Word { text: group@, depth, loopdepth }));
        }
        rlist
    }


    /// The nodes of a run as expression nodes; a run that holds a statement cannot be converted.
    pub fn stmt2expr(list: &Vec<StmtElem>, from: usize) -> (r: Result<Vec<ExprElem>, ParserError>)
        requires
            from <= list@.len(),
        ensures
            converted_outcome(r) == stmt_to_expr(stmts_view(list@).subrange(from as int, list@.len() as int)),
    {
        broadcast use group_view_lemmas;

        let ghost input = stmts_view(list@);
        let mut rlist: Vec<ExprElem> = Vec::new();
        let mut i: usize = from;
        while i < list.len()
            invariant
                from <= i <= list.len(),
                input == stmts_view(list@),
                exprs_view(rlist@) == input.subrange(from as int, i as int),
                forall|k: int| from <= k < i ==> !has_statement(#[trigger] input[k]),
            decreases list.len() - i,
        {
            let ghost before = exprs_view(rlist@);
            assert(input[i as int] == list[i as int]@);
            let item: ExprElem = match &list[i] {
                StmtElem::StringElem(a) => ExprElem::StringElem(a.clone()),
                StmtElem::CommentElem(a) => ExprElem::CommentElem(a.clone()),
                StmtElem::BlockElem(a) => ExprElem::BlockElem(
                    BlockBranch {
                        contents: clone_stmts(&a.contents),
                        depth: a.depth,
                        loopdepth: a.loopdepth,
                        resolved: a.resolved,
                    },
                ),
                StmtElem::ListBlockElem(a) => ExprElem::ListBlockElem(
                    ListBlockBranch {
                        contents: clone_exprs(&a.contents),
                        depth: a.depth,
                        loopdepth: a.loopdepth,
                        resolved: a.resolved,
                    },
                ),
                StmtElem::ParenBlockElem(a) => ExprElem::ParenBlockElem(
                    ParenBlockBranch {
                        contents: clone_exprs(&a.contents),
                        depth: a.depth,
                        loopdepth: a.loopdepth,
                        resolved: a.resolved,
                    },
                ),
                StmtElem::OpeElem(a) => ExprElem::OpeElem(a.clone()),
                StmtElem::WordElem(a) => ExprElem::WordElem(a.clone()),
                StmtElem::UnKnownElem(a) => ExprElem::UnKnownElem(*a),
                _ => {
                    assert(has_statement(input[i as int]));
                    assert(input.subrange(from as int, list@.len() as int)[i - from] == input[i as int]);
                    return Err(ParserError::UnableToConvertType);
                },
            };
            assert(item@ == input[i as int]);
            rlist.push(item);
            assert(exprs_view(rlist@) == before.push(input[i as int]));
            i += 1;
            assert(exprs_view(rlist@) =~= input.subrange(from as int, i as int));
        }
        assert forall|k: int| 0 <= k < input.subrange(from as int, list@.len() as int).len() implies !has_statement(
            #[trigger] input.subrange(from as int, list@.len() as int)[k],
        ) by {
            assert(!has_statement(input[k + from]));
        }
        Ok(rlist)
    }

    /// Appends to `rlist` the statement that a run of atoms makes.
    fn close_group(rlist: &mut Vec<StmtElem>, group: &Vec<StmtElem>, depth: isize, loopdepth: isize) -> (r:
        Result<(), ParserError>)
        ensures
            match r {
                Ok(()) => Ok::<Seq<Atom>, ParserError>(stmts_view(final(rlist)@)) == close_statement(
                    stmts_view(old(rlist)@),
                    stmts_view(group@),
                    depth,
                    loopdepth,
                ),
                Err(e) => Err::<Seq<Atom>, ParserError>(e) == close_statement(
                    stmts_view(old(rlist)@),
                    stmts_view(group@),
                    depth,
                    loopdepth,
                ),
            },
    {
        broadcast use group_view_lemmas;

        let ghost before = stmts_view(rlist@);
        let ghost run = stmts_view(group@);
        if group.len() == 0 {
            return Ok(());
        }
        assert(run[0] == group[0]@);
        assert(run.subrange(0, run.len() as int) =~= run);
        match &group[0] {
            StmtElem::WordElem(w) => {
                if control_word(w.contents.as_str()) {
                    let rest = Self::stmt2expr(group, 1)?;
                    rlist.push(
                        StmtElem::Special(
                            StmtBranch { head: w.contents.clone(), code_list: rest, depth, loopdepth, resolved: false },
                        ),
                    );
                    assert(stmts_view(rlist@) == before.push(
                        Atom::Special {
                            head: w.contents@,
                            code_list: run.subrange(1, run.len() as int),
                            depth,
                            loopdepth,
                            resolved: false,
                        },
                    ));
                    return Ok(());
                }
            },
            _ => {},
        }
        let all = Self::stmt2expr(group, 0)?;
        rlist.push(StmtElem::ExprElem(ExprBranch { code_list: all, depth, loopdepth, resolved: false }));
        assert(stmts_view(rlist@) == before.push(
            Atom::Expr { code_list: run, depth, loopdepth, resolved: false },
        ));
        Ok(())
    }

    /// The statement pass: the run is cut at every `;`.
    pub fn split_statements(list: &Vec<StmtElem>, depth: isize, loopdepth: isize) -> (r: Result<
        Vec<StmtElem>,
        ParserError,
    >)
        ensures
            stmts_outcome(r) == split_statements(stmts_view(list@), depth, loopdepth),
    {
        broadcast use group_view_lemmas;

        let ghost input = stmts_view(list@);
        let mut rlist: Vec<StmtElem> = Vec::new();
        let mut group: Vec<StmtElem> = Vec::new();
        let mut i: usize = 0;
        while i < list.len()
            invariant
                i <= list.len(),
                input == stmts_view(list@),
                split_statements_from(input, i as int, stmts_view(group@), stmts_view(rlist@), depth, loopdepth)
                    == split_statements(input, depth, loopdepth),
            decreases list.len() - i,
        {
            let ghost run = stmts_view(group@);
            assert(input[i as int] == list[i as int]@);
            if is_unknown_stmt_char(&list[i], SEMICOLON) {
                Self::close_group(&mut rlist, &group, depth, loopdepth)?;
                group = Vec::new();
                assert(stmts_view(group@) =~= Seq::<Atom>::empty());
            } else {
                group.push(clone_stmt(&list[i]));
                assert(stmts_view(group@) == run.push(input[i as int]));
            }
            i += 1;
        }
        Self::close_group(&mut rlist, &group, depth, loopdepth)?;
        Ok(rlist)
    }

    /// All the passes over one run, in order.
    pub fn passes(list: &Vec<StmtElem>, depth: isize, loopdepth: isize) -> (r: Result<Vec<StmtElem>, ParserError>)
        ensures
            stmts_outcome(r) == stmt_passes(stmts_view(list@), depth, loopdepth),
    {
        let s1 = Self::grouping_string(list, depth, loopdepth)?;
        let s2 = Self::grouping_elements(&s1, Bracket::Brace, depth, loopdepth)?;
        let s3 = Self::grouping_elements(&s2, Bracket::List, depth, loopdepth)?;
        let s4 = Self::grouping_elements(&s3, Bracket::Paren, depth, loopdepth)?;
        let words = Self::grouping_words(&s4, depth, loopdepth);
        Self::split_statements(&words, depth, loopdepth)
    }

    /// A parser over a run of atoms that is there already.
    pub fn create_parser_from_vec(code_list: Vec<StmtElem>, depth: isize, loopdepth: isize) -> (r: Self)
        ensures
            r.code@ == Seq::<char>::empty(),
            r.code_list == code_list,
            r.depth == depth,
            r.loopdepth == loopdepth,
    {
        StmtParser { code: String::new(), code_list, depth, loopdepth }
    }

    /// Cuts the parser's atoms into statements at every `;` and keeps the outcome.
    ///
    /// On an error the parser is left as it was.
    pub fn split_semicolon(&mut self) -> (r: Result<(), ParserError>)
        ensures
            final(self).code == old(self).code,
            final(self).depth == old(self).depth,
            final(self).loopdepth == old(self).loopdepth,
            match r {
                Ok(()) => Ok::<Seq<Atom>, ParserError>(stmts_view(final(self).code_list@)) == split_statements(
                    stmts_view(old(self).code_list@),
                    old(self).depth,
                    old(self).loopdepth,
                ),
                Err(e) => final(self).code_list == old(self).code_list && Err::<Seq<Atom>, ParserError>(e)
                    == split_statements(stmts_view(old(self).code_list@), old(self).depth, old(self).loopdepth),
            },
    {
        match Self::split_statements(&self.code_list, self.depth, self.loopdepth) {
            Ok(v) => {
                self.code_list = v;
                Ok(())
            },
            Err(e) => Err(e),
        }
    }

    /// Runs all the passes over the parser's atoms and keeps the outcome.
    ///
    /// On an error the parser is left as it was.
    pub fn code2vec(&mut self) -> (r: Result<(), ParserError>)
        ensures
            final(self).code == old(self).code,
            final(self).depth == old(self).depth,
            final(self).loopdepth == old(self).loopdepth,
            match r {
                Ok(()) => Ok::<Seq<Atom>, ParserError>(stmts_view(final(self).code_list@)) == stmt_passes(
                    stmts_view(old(self).code_list@),
                    old(self).depth,
                    old(self).loopdepth,
                ),
                Err(e) => final(self).code_list == old(self).code_list && Err::<Seq<Atom>, ParserError>(e)
                    == stmt_passes(stmts_view(old(self).code_list@), old(self).depth, old(self).loopdepth),
            },
    {
        match Self::passes(&self.code_list, self.depth, self.loopdepth) {
            Ok(v) => {
                self.code_list = v;
                Ok(())
            },
            Err(e) => Err(e),
        }
    }
}

/// Whether a node is the unclassified character `c`.
pub fn is_unknown_stmt_char(e: &StmtElem, c: char) -> (r: bool)
    ensures
        r == e@.is_char(c),
{
    match e {
        StmtElem::UnKnownElem(u) => u.contents == c,
        _ => false,
    }
}

/// Every character of the text as an unclassified node.
pub fn code2_vec_pre_proc_func(code: &str) -> (r: Vec<StmtElem>)
    ensures
        stmts_view(r@) == unknowns(code@),
{
    broadcast use group_view_lemmas;

    let chars = chars_of(code);
    let mut out: Vec<StmtElem> = Vec::new();
    let mut k: usize = 0;
    assert(code@.take(0) =~= Seq::<char>::empty());
    while k < chars.len()
        invariant
            k <= chars.len(),
            chars@ == code@,
            stmts_view(out@) == unknowns(code@.take(k as int)),
        decreases chars.len() - k,
    {
        let ghost sofar = out@;
        let item = StmtElem::set_char_as_unknown(chars[k]);
        proof {
            lemma_stmts_view_push(sofar, item);
            lemma_unknowns_push(code@.take(k as int), chars[k as int]);
            assert(code@.take(k + 1) =~= code@.take(k as int).push(chars[k as int]));
        }
        out.push(item);
        k += 1;
    }
    assert(code@.take(chars.len() as int) =~= code@);
    out
}

/// The outcome of `resolve` on a parser of statement atoms.
pub open spec fn stmt_parser_resolved(before: StmtParser, after: StmtParser, r: Result<(), ParserError>) -> bool {
    &&& after.code == before.code
    &&& after.depth == before.depth
    &&& after.loopdepth == before.loopdepth
    &&& match r {
        Ok(()) => Ok::<Seq<Atom>, ParserError>(stmts_view(after.code_list@)) == resolve_run(
            ParserKind::Stmt,
            stmts_view(before.code_list@),
            before.depth,
            before.loopdepth,
            MAX_NESTING as nat,
        ),
        Err(e) => after.code_list == before.code_list && Err::<Seq<Atom>, ParserError>(e) == resolve_run(
            ParserKind::Stmt,
            stmts_view(before.code_list@),
            before.depth,
            before.loopdepth,
            MAX_NESTING as nat,
        ),
    }
}

impl Parser for StmtParser {
    /// A parser over the characters of `code`.
    fn new(code: String, depth: isize, loopdepth: isize) -> (r: Self)
        ensures
            r.code == code,
            stmts_view(r.code_list@) == unknowns(code@),
            r.depth == depth,
            r.loopdepth == loopdepth,
    {
        let code_list = code2_vec_pre_proc_func(code.as_str());
        StmtParser { code, code_list, depth, loopdepth }
    }

    /// Runs all the passes over the parser's atoms, resolves every node of
    /// the outcome within `MAX_NESTING` levels of nesting, and keeps the result.
    ///
    /// On an error the parser is left as it was.
    fn resolve(&mut self) -> (r: Result<(), ParserError>)
        ensures
            stmt_parser_resolved(*old(self), *final(self), r),
    {
        match resolve_stmt_run(&self.code_list, self.depth, self.loopdepth, MAX_NESTING) {
            Ok(v) => {
                self.code_list = v;
                Ok(())
            },
            Err(e) => Err(e),
        }
    }
}

} // verus!

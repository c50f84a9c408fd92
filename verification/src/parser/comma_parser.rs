//! The argument splitter: it cuts what stands between the brackets of a call
//! or a subscript into one operand for each argument.
use crate::abs::ast::{clone_expr, exprs_view, group_view_lemmas, ExprElem};
use crate::abs::atom::Atom;
use crate::errors::parser_errors::ParserError;
use crate::parser::core_parser::{split_char, Parser, ParserKind, COMMA, DOUBLE_QUOTATION, ESCAPECHAR};
use crate::parser::expr_parser::{exprs_outcome, is_unknown_char, ExprParser};
use crate::parser::lexer::{group_brackets, is_blank, is_space, Bracket};
use crate::parser::statement::{comma_passes, group_args, group_args_from, group_quotes, group_quotes_from};
use crate::text::push_char;
use crate::token::item::ItemBranch;
use crate::token::string::StringBranch;
use vstd::prelude::*;

verus! {

/// Splits a run of expression atoms at its top-level commas.
#[derive(Debug)]
pub struct CommaParser {
    pub code: String,
    pub code_list: Vec<ExprElem>,
    pub depth: isize,
    pub loopdepth: isize,
}

impl CommaParser {
    /// The quotation pass.
    pub fn grouping_quotation(list: &Vec<ExprElem>, depth: isize, loopdepth: isize) -> (r: Result<
        Vec<ExprElem>,
        ParserError,
    >)
        ensures
            exprs_outcome(r) == group_quotes(exprs_view(list@), depth, loopdepth),
    {
        broadcast use group_view_lemmas;

        let ghost input = exprs_view(list@);
        let mut rlist: Vec<ExprElem> = Vec::new();
        let mut group = String::new();
        let mut open = false;
        let mut escape = false;
        let mut i: usize = 0;
        while i < list.len()
            invariant
                i <= list.len(),
                input == exprs_view(list@),
                group_quotes_from(input, i as int, open, escape, group@, exprs_view(rlist@), depth, loopdepth)
                    == group_quotes(input, depth, loopdepth),
            decreases list.len() - i,
        {
            let ghost before = exprs_view(rlist@);
            let ghost text = group@;
            assert(input[i as int] == list[i as int]@);
            match &list[i] {
                ExprElem::UnKnownElem(e) => {
                    let c = e.contents;
                    if escape {
                        push_char(&mut group, c);
                        escape = false;
                    } else if c == DOUBLE_QUOTATION {
                        push_char(&mut group, c);
                        if open {
                            rlist.push(ExprElem::StringElem(StringBranch { contents: group, depth, loopdepth }));
                            assert(exprs_view(rlist@) == before.push(
                                Atom::Str { text: text.push(c), depth, loopdepth },
                            ));
                            group = String::new();
                            open = false;
                        } else {
                            open = true;
                        }
                    } else if open {
                        escape = c == ESCAPECHAR;
                        push_char(&mut group, c);
                    } else {
                        rlist.push(ExprElem::UnKnownElem(*e));
                        assert(exprs_view(rlist@) == before.push(input[i as int]));
                    }
                },
                other => {
                    rlist.push(clone_expr(other));
                    assert(exprs_view(rlist@) == before.push(input[i as int]));
                },
            }
            i += 1;
        }
        if open {
            Err(ParserError::QuotationNotClosed)
        } else {
            Ok(rlist)
        }
    }

    /// The bracket pass for one kind of bracket.
    pub fn grouping_elements(list: &Vec<ExprElem>, bracket: Bracket, depth: isize, loopdepth: isize) -> (r:
        Result<Vec<ExprElem>, ParserError>)
        ensures
            exprs_outcome(r) == group_brackets(
                exprs_view(list@),
                bracket,
                depth,
                loopdepth,
                ParserKind::Comma,
            ),
    {
        ExprParser::grouping_elements_for(list, bracket, depth, loopdepth, ParserKind::Comma)
    }

    /// Whether a run holds nothing but white space.
    pub fn blank(list: &Vec<ExprElem>) -> (r: bool)
        ensures
            r == is_blank(exprs_view(list@)),
    {
        broadcast use group_view_lemmas;

        let mut i: usize = 0;
        while i < list.len()
            invariant
                i <= list.len(),
                forall|k: int| 0 <= k < i ==> is_space(#[trigger] exprs_view(list@)[k]),
            decreases list.len() - i,
        {
            assert(exprs_view(list@)[i as int] == list[i as int]@);
            let white = match &list[i] {
                ExprElem::UnKnownElem(e) => split_char(e.contents),
                _ => false,
            };
            if !white {
                assert(!is_space(exprs_view(list@)[i as int]));
                return false;
            }
            i += 1;
        }
        true
    }

    /// The argument pass.
    pub fn grouping_args(list: &Vec<ExprElem>, depth: isize, loopdepth: isize) -> (r: Vec<ExprElem>)
        ensures
            exprs_view(r@) == group_args(exprs_view(list@), depth, loopdepth),
    {
        broadcast use group_view_lemmas;

        let ghost input = exprs_view(list@);
        let mut rlist: Vec<ExprElem> = Vec::new();
        let mut group: Vec<ExprElem> = Vec::new();
        let mut i: usize = 0;
        while i < list.len()
            invariant
                i <= list.len(),
                input == exprs_view(list@),
                group_args_from(input, i as int, exprs_view(group@), exprs_view(rlist@), depth, loopdepth)
                    == group_args(input, depth, loopdepth),
            decreases list.len() - i,
        {
            let ghost before = exprs_view(rlist@);
            let ghost run = exprs_view(group@);
            assert(input[i as int] == list[i as int]@);
            if is_unknown_char(&list[i], COMMA) {
                rlist.push(ExprElem::ItemElem(ItemBranch { contents: group, depth, loopdepth, resolved: false }));
                assert(exprs_view(rlist@) == before.push(
                    Atom::Item { contents: run, depth, loopdepth, resolved: false },
                ));
                group = Vec::new();
                assert(exprs_view(group@) =~= Seq::<Atom>::empty());
            } else {
                group.push(clone_expr(&list[i]));
                assert(exprs_view(group@) == run.push(input[i as int]));
            }
            i += 1;
        }
        if !Self::blank(&group) {
            let ghost before = exprs_view(rlist@);
            let ghost run = exprs_view(group@);
            rlist.push(ExprElem::ItemElem(ItemBranch { contents: group, depth, loopdepth, resolved: false }));
            assert(exprs_view(rlist@) == before.push(Atom::Item { contents: run, depth, loopdepth, resolved: false }));
        }
        rlist
    }

    /// All the passes over one run, in order.
    pub fn passes(list: &Vec<ExprElem>, depth: isize, loopdepth: isize) -> (r: Result<Vec<ExprElem>, ParserError>)
        ensures
            exprs_outcome(r) == comma_passes(exprs_view(list@), depth, loopdepth),
    {
        let s1 = Self::grouping_quotation(list, depth, loopdepth)?;
        let s2 = Self::grouping_elements(&s1, Bracket::Brace, depth, loopdepth)?;
        let s3 = Self::grouping_elements(&s2, Bracket::List, depth, loopdepth)?;
        let s4 = Self::grouping_elements(&s3, Bracket::Paren, depth, loopdepth)?;
        Ok(Self::grouping_args(&s4, depth, loopdepth))
    }

    /// A splitter over a run of atoms that is there already.
    pub fn create_parser_from_vec(code_list: Vec<ExprElem>, depth: isize, loopdepth: isize) -> (r: Self)
        ensures
            r.code@ == Seq::<char>::empty(),
            r.code_list == code_list,
            r.depth == depth,
            r.loopdepth == loopdepth,
    {
        CommaParser { code: String::new(), code_list, depth, loopdepth }
    }

    /// Runs all the passes over the splitter's atoms and keeps the outcome.
    ///
    /// On an error the splitter is left as it was.
    pub fn code2vec(&mut self) -> (r: Result<(), ParserError>)
        ensures
            final(self).code == old(self).code,
            final(self).depth == old(self).depth,
            final(self).loopdepth == old(self).loopdepth,
            match r {
                Ok(()) => Ok::<Seq<Atom>, ParserError>(exprs_view(final(self).code_list@)) == comma_passes(
                    exprs_view(old(self).code_list@),
                    old(self).depth,
                    old(self).loopdepth,
                ),
                Err(e) => final(self).code_list == old(self).code_list && Err::<Seq<Atom>, ParserError>(e)
                    == comma_passes(exprs_view(old(self).code_list@), old(self).depth, old(self).loopdepth),
            },
    {
        match Self::passes(&self.code_list, self.depth, self.loopdepth) {
            Ok(v) => {
                self.code_list = v;
                Ok(())
            },
            Err(e) => Err(e),
        }
    }
}

impl Parser for CommaParser {
    /// A splitter that keeps `code` and starts with no atoms: its atoms are
    /// handed to it with `create_parser_from_vec`.
    fn new(code: String, depth: isize, loopdepth: isize) -> (r: Self)
        ensures
            r.code == code,
            r.code_list@.len() == 0,
            r.depth == depth,
            r.loopdepth == loopdepth,
    {
        CommaParser { code, code_list: Vec::new(), depth, loopdepth }
    }

    /// Splits the atoms; the operands are not resolved.
    fn resolve(&mut self) -> (r: Result<(), ParserError>)
        ensures
            final(self).code == old(self).code,
            final(self).depth == old(self).depth,
            final(self).loopdepth == old(self).loopdepth,
            match r {
                Ok(()) => Ok::<Seq<Atom>, ParserError>(exprs_view(final(self).code_list@)) == comma_passes(
                    exprs_view(old(self).code_list@),
                    old(self).depth,
                    old(self).loopdepth,
                ),
                Err(e) => final(self).code_list == old(self).code_list && Err::<Seq<Atom>, ParserError>(e)
                    == comma_passes(exprs_view(old(self).code_list@), old(self).depth, old(self).loopdepth),
            },
    {
        self.code2vec()
    }
}

} // verus!

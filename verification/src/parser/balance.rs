//! How the lexical passes fail on text: with an open literal or with an
//! unbalanced bracket, and in no other way.
use crate::abs::atom::Atom;
use crate::errors::parser_errors::ParserError;
use crate::parser::core_parser::ParserKind;
use crate::parser::lexer::{
    balanced, group_brackets, group_strings, group_strings_from, groupable, lemma_bracket_balance, lexed,
    regroup, unknowns, Bracket, StringAreaState,
};
use crate::parser::origin::{each, lemma_brackets_each, lemma_strings_each};
use vstd::prelude::*;

verus! {

/// The predicate of being an atom that can stand inside an unparsed bracket.
pub open spec fn fits(depth: isize, loopdepth: isize) -> spec_fn(Atom) -> bool {
    |a: Atom| regroup(a, depth, loopdepth) is Some
}

/// Whether an outcome is a success or one of the failures of text: a
/// quotation or a block comment that is left open, a bracket that is left
/// open, or a bracket that is closed before it is opened.
pub open spec fn fails_cleanly(r: Result<Seq<Atom>, ParserError>, kind: ParserKind) -> bool {
    match r {
        Ok(_) => true,
        Err(e) => e == ParserError::QuotationNotClosed || e == ParserError::CommentBlockNotClosed || e
            == ParserError::BraceNotClosed || e == ParserError::BraceNotOpened,
    }
}

/// On a run of characters the quote and comment pass fails with an open
/// literal only.
pub proof fn lemma_strings_of_text(
    s: Seq<Atom>,
    i: int,
    mode: StringAreaState,
    escape: bool,
    group: Seq<char>,
    acc: Seq<Atom>,
    depth: isize,
    loopdepth: isize,
    kind: ParserKind,
)
    requires
        0 <= i <= s.len(),
        forall|k: int| 0 <= k < s.len() ==> (#[trigger] s[k]) is Unknown,
    ensures
        group_strings_from(s, i, mode, escape, group, acc, depth, loopdepth, kind) is Err ==> group_strings_from(
            s,
            i,
            mode,
            escape,
            group,
            acc,
            depth,
            loopdepth,
            kind,
        )->Err_0 == ParserError::QuotationNotClosed || group_strings_from(
            s,
            i,
            mode,
            escape,
            group,
            acc,
            depth,
            loopdepth,
            kind,
        )->Err_0 == ParserError::CommentBlockNotClosed,
    decreases s.len() - i,
{
    if i < s.len() {
        assert(s[i] is Unknown);
        let c = s[i]->ch;
        let closed = StringAreaState::Closed;
        let none = Seq::<char>::empty();
        let comment = Atom::Comment { text: group, depth, loopdepth };
        let string = Atom::Str { text: group, depth, loopdepth };
        match mode {
            StringAreaState::CommentStart => {
                if c == '\n' {
                    lemma_strings_of_text(s, i + 1, closed, escape, none, acc.push(comment), depth, loopdepth, kind);
                } else {
                    lemma_strings_of_text(s, i + 1, mode, escape, group.push(c), acc, depth, loopdepth, kind);
                }
            },
            StringAreaState::CommentOpen => {
                if c != '*' {
                    lemma_strings_of_text(s, i + 1, mode, escape, group.push(c), acc, depth, loopdepth, kind);
                } else if i + 1 < s.len() {
                    assert(s[i + 1] is Unknown);
                    if s[i + 1]->ch == '/' {
                        lemma_strings_of_text(s, i + 2, closed, escape, none, acc.push(comment), depth, loopdepth, kind);
                    } else {
                        lemma_strings_of_text(s, i + 1, mode, escape, group.push(c), acc, depth, loopdepth, kind);
                    }
                }
            },
            StringAreaState::QuotationOpen => {
                if escape {
                    lemma_strings_of_text(s, i + 1, mode, false, group.push(c), acc, depth, loopdepth, kind);
                } else if c == '"' {
                    lemma_strings_of_text(s, i + 1, closed, false, none, acc.push(string), depth, loopdepth, kind);
                } else if c == '\\' {
                    lemma_strings_of_text(s, i + 1, mode, true, group, acc, depth, loopdepth, kind);
                } else {
                    lemma_strings_of_text(s, i + 1, mode, false, group.push(c), acc, depth, loopdepth, kind);
                }
            },
            StringAreaState::Closed => {
                if c == '"' {
                    lemma_strings_of_text(
                        s,
                        i + 1,
                        StringAreaState::QuotationOpen,
                        false,
                        none,
                        acc,
                        depth,
                        loopdepth,
                        kind,
                    );
                } else if c == '/' && i + 1 < s.len() && s[i + 1].is_char('*') {
                    lemma_strings_of_text(
                        s,
                        i + 2,
                        StringAreaState::CommentOpen,
                        false,
                        none,
                        acc,
                        depth,
                        loopdepth,
                        kind,
                    );
                } else if c == '/' && i + 1 < s.len() && s[i + 1].is_char('/') {
                    lemma_strings_of_text(
                        s,
                        i + 2,
                        StringAreaState::CommentStart,
                        false,
                        none,
                        acc,
                        depth,
                        loopdepth,
                        kind,
                    );
                } else {
                    lemma_strings_of_text(s, i + 1, mode, false, group, acc.push(s[i]), depth, loopdepth, kind);
                }
            },
        }
    }
}

/// A bracket pass over atoms that can stand inside a bracket fails with an
/// unbalanced bracket only, succeeds if and only if its brackets are
/// balanced, and puts out atoms that can stand inside a bracket.
pub proof fn lemma_brackets_of_text(s: Seq<Atom>, bracket: Bracket, depth: isize, loopdepth: isize, kind: ParserKind)
    requires
        each(s, fits(depth, loopdepth)),
    ensures
        fails_cleanly(group_brackets(s, bracket, depth, loopdepth, kind), kind),
        group_brackets(s, bracket, depth, loopdepth, kind) is Ok <==> balanced(s, bracket),
        group_brackets(s, bracket, depth, loopdepth, kind) is Ok ==> each(
            group_brackets(s, bracket, depth, loopdepth, kind)->Ok_0,
            fits(depth, loopdepth),
        ),
{
    let p = fits(depth, loopdepth);
    assert(groupable(s, depth, loopdepth)) by {
        assert forall|j: int| 0 <= j < s.len() implies regroup(#[trigger] s[j], depth, loopdepth) is Some by {
            assert(p(s[j]));
        }
    }
    lemma_bracket_balance(s, bracket, depth, loopdepth, kind);
    if group_brackets(s, bracket, depth, loopdepth, kind) is Ok {
        assert(each(Seq::<Atom>::empty(), p));
        lemma_brackets_each(s, 0, 0, Seq::empty(), Seq::empty(), bracket, depth, loopdepth, kind, p, p, p);
    }
}

/// Bracket balance on text: the lexical passes fail on a text with an open
/// literal or with an unbalanced bracket, and in no other way; and where
/// they succeed, the brackets of every kind were balanced in the run that
/// reached their pass.
///
/// So an unbalanced `{`, `[` or `(` outside of strings and comments is
/// reported as not closed or as not opened, and is never passed over.
pub proof fn lemma_text_fails_cleanly(text: Seq<char>, depth: isize, loopdepth: isize, kind: ParserKind)
    ensures
        fails_cleanly(lexed(unknowns(text), depth, loopdepth, kind), kind),
        lexed(unknowns(text), depth, loopdepth, kind) is Ok ==> {
            let s1 = group_strings(unknowns(text), depth, loopdepth, kind)->Ok_0;
            let s2 = group_brackets(s1, Bracket::Brace, depth, loopdepth, kind)->Ok_0;
            let s3 = group_brackets(s2, Bracket::List, depth, loopdepth, kind)->Ok_0;
            balanced(s1, Bracket::Brace) && balanced(s2, Bracket::List) && balanced(s3, Bracket::Paren)
        },
        group_strings(unknowns(text), depth, loopdepth, kind) is Ok ==> {
            let s1 = group_strings(unknowns(text), depth, loopdepth, kind)->Ok_0;
            let r2 = group_brackets(s1, Bracket::Brace, depth, loopdepth, kind);
            &&& !balanced(s1, Bracket::Brace) ==> lexed(unknowns(text), depth, loopdepth, kind) is Err
            &&& r2 is Ok && !balanced(r2->Ok_0, Bracket::List) ==> lexed(unknowns(text), depth, loopdepth, kind)
                is Err
            &&& r2 is Ok && group_brackets(r2->Ok_0, Bracket::List, depth, loopdepth, kind) is Ok && !balanced(
                group_brackets(r2->Ok_0, Bracket::List, depth, loopdepth, kind)->Ok_0,
                Bracket::Paren,
            ) ==> lexed(unknowns(text), depth, loopdepth, kind) is Err
        },
{
    let s = unknowns(text);
    let p = fits(depth, loopdepth);
    lemma_text_is_unknown(text);
    lemma_strings_of_text(s, 0, StringAreaState::Closed, false, Seq::empty(), Seq::empty(), depth, loopdepth, kind);
    if group_strings(s, depth, loopdepth, kind) is Ok {
        let s1 = group_strings(s, depth, loopdepth, kind)->Ok_0;
        assert(each(s, p)) by {
            assert forall|j: int| 0 <= j < s.len() implies #[trigger] p(s[j]) by {
                assert(s[j] is Unknown);
            }
        }
        assert(each(Seq::<Atom>::empty(), p));
        lemma_strings_each(s, 0, StringAreaState::Closed, false, Seq::empty(), Seq::empty(), depth, loopdepth, kind, p);
        lemma_brackets_of_text(s1, Bracket::Brace, depth, loopdepth, kind);
        if group_brackets(s1, Bracket::Brace, depth, loopdepth, kind) is Ok {
            let s2 = group_brackets(s1, Bracket::Brace, depth, loopdepth, kind)->Ok_0;
            lemma_brackets_of_text(s2, Bracket::List, depth, loopdepth, kind);
            if group_brackets(s2, Bracket::List, depth, loopdepth, kind) is Ok {
                let s3 = group_brackets(s2, Bracket::List, depth, loopdepth, kind)->Ok_0;
                lemma_brackets_of_text(s3, Bracket::Paren, depth, loopdepth, kind);
            }
        }
    }
}

/// The atoms of a text are characters.
pub proof fn lemma_text_is_unknown(text: Seq<char>)
    ensures
        unknowns(text).len() == text.len(),
        forall|k: int| 0 <= k < unknowns(text).len() ==> (#[trigger] unknowns(text)[k]) is Unknown,
    decreases text.len(),
{
    if text.len() > 0 {
        lemma_text_is_unknown(text.drop_last());
        let t = unknowns(text);
        assert forall|k: int| 0 <= k < t.len() implies (#[trigger] t[k]) is Unknown by {
            if k < unknowns(text.drop_last()).len() {
                assert(t[k] == unknowns(text.drop_last())[k]);
            }
        }
    }
}

} // verus!

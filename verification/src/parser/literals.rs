//! White space outside strings and comments.
//!
//! The quote and comment pass reads a text character by character. White
//! space that stands outside every literal passes through it as it is, so
//! the text with the white space and the text without it leave that pass as
//! two runs that differ by that one atom.
use crate::abs::atom::Atom;
use crate::errors::parser_errors::ParserError;
use crate::parser::core_parser::{is_split_char, ParserKind};
use crate::parser::lexer::{
    group_strings, group_strings_from, is_blank, is_space, unknown_atom, unknowns, StringAreaState,
};
use crate::parser::spacing::{
    after, fits_space, lemma_quiet_insert, lemma_quiet_push, lemma_space_between_tokens,
    lemma_strings_keep_quiet, linked, quiet,
};
use crate::resolve::resolve_run;
use vstd::prelude::*;

verus! {

/// Whether position `at` of a run lies outside every string and comment,
/// and not between the two characters that open or close a comment, for a
/// scanner that stands at position `i` in this state.
pub open spec fn outside_from(s: Seq<Atom>, i: int, mode: StringAreaState, escape: bool, at: int) -> bool
    decreases s.len() - i,
{
    if i < 0 || i >= at || i >= s.len() {
        i == at && mode == StringAreaState::Closed
    } else {
        match s[i].unknown_char() {
            None => outside_from(s, i + 1, mode, escape, at),
            Some(c) => match mode {
                StringAreaState::CommentStart => {
                    if c == '\n' {
                        outside_from(s, i + 1, StringAreaState::Closed, escape, at)
                    } else {
                        outside_from(s, i + 1, mode, escape, at)
                    }
                },
                StringAreaState::CommentOpen => {
                    if c != '*' {
                        outside_from(s, i + 1, mode, escape, at)
                    } else if i + 1 >= s.len() {
                        false
                    } else {
                        match s[i + 1].unknown_char() {
                            None => false,
                            Some(n) => {
                                if n == '/' {
                                    outside_from(s, i + 2, StringAreaState::Closed, escape, at)
                                } else {
                                    outside_from(s, i + 1, mode, escape, at)
                                }
                            },
                        }
                    }
                },
                StringAreaState::QuotationOpen => {
                    if escape {
                        outside_from(s, i + 1, mode, false, at)
                    } else if c == '"' {
                        outside_from(s, i + 1, StringAreaState::Closed, false, at)
                    } else if c == '\\' {
                        outside_from(s, i + 1, mode, true, at)
                    } else {
                        outside_from(s, i + 1, mode, false, at)
                    }
                },
                StringAreaState::Closed => {
                    if c == '"' {
                        outside_from(s, i + 1, StringAreaState::QuotationOpen, false, at)
                    } else if c == '/' && i + 1 < s.len() && s[i + 1].is_char('*') {
                        outside_from(s, i + 2, StringAreaState::CommentOpen, false, at)
                    } else if c == '/' && i + 1 < s.len() && s[i + 1].is_char('/') {
                        outside_from(s, i + 2, StringAreaState::CommentStart, false, at)
                    } else {
                        outside_from(s, i + 1, mode, false, at)
                    }
                },
            },
        }
    }
}

/// Whether position `at` of a text lies outside every string and comment,
/// and not between the two characters that open or close a comment.
pub open spec fn outside(s: Seq<Atom>, at: int) -> bool {
    outside_from(s, 0, StringAreaState::Closed, false, at)
}

/// A position that lies outside every literal for a scanner is not behind
/// the scanner, and where the scanner stands at it, the scanner is outside.
pub proof fn lemma_outside_is_ahead(s: Seq<Atom>, i: int, mode: StringAreaState, escape: bool, at: int)
    requires
        0 <= i <= s.len(),
        outside_from(s, i, mode, escape, at),
    ensures
        i <= at <= s.len(),
        i == at ==> mode == StringAreaState::Closed,
    decreases s.len() - i,
{
    if i < at && i < s.len() {
        match s[i].unknown_char() {
            None => {
                lemma_outside_is_ahead(s, i + 1, mode, escape, at);
            },
            Some(c) => match mode {
                StringAreaState::CommentStart => {
                    if c == '\n' {
                        lemma_outside_is_ahead(s, i + 1, StringAreaState::Closed, escape, at);
                    } else {
                        lemma_outside_is_ahead(s, i + 1, mode, escape, at);
                    }
                },
                StringAreaState::CommentOpen => {
                    if c != '*' {
                        lemma_outside_is_ahead(s, i + 1, mode, escape, at);
                    } else {
                        match s[i + 1].unknown_char() {
                            None => {},
                            Some(n) => {
                                if n == '/' {
                                    lemma_outside_is_ahead(s, i + 2, StringAreaState::Closed, escape, at);
                                } else {
                                    lemma_outside_is_ahead(s, i + 1, mode, escape, at);
                                }
                            },
                        }
                    }
                },
                StringAreaState::QuotationOpen => {
                    if escape {
                        lemma_outside_is_ahead(s, i + 1, mode, false, at);
                    } else if c == '"' {
                        lemma_outside_is_ahead(s, i + 1, StringAreaState::Closed, false, at);
                    } else if c == '\\' {
                        lemma_outside_is_ahead(s, i + 1, mode, true, at);
                    } else {
                        lemma_outside_is_ahead(s, i + 1, mode, false, at);
                    }
                },
                StringAreaState::Closed => {
                    if c == '"' {
                        lemma_outside_is_ahead(s, i + 1, StringAreaState::QuotationOpen, false, at);
                    } else if c == '/' && i + 1 < s.len() && s[i + 1].is_char('*') {
                        lemma_outside_is_ahead(s, i + 2, StringAreaState::CommentOpen, false, at);
                    } else if c == '/' && i + 1 < s.len() && s[i + 1].is_char('/') {
                        lemma_outside_is_ahead(s, i + 2, StringAreaState::CommentStart, false, at);
                    } else {
                        lemma_outside_is_ahead(s, i + 1, mode, false, at);
                    }
                },
            },
        }
    }
}

/// The quote and comment pass, taken up at a position, depends on the atoms
/// from that position on only.
pub proof fn lemma_strings_suffix(
    s: Seq<Atom>,
    i: int,
    t: Seq<Atom>,
    j: int,
    mode: StringAreaState,
    escape: bool,
    group: Seq<char>,
    acc: Seq<Atom>,
    depth: isize,
    loopdepth: isize,
    kind: ParserKind,
)
    requires
        0 <= i <= s.len(),
        0 <= j <= t.len(),
        s.skip(i) == t.skip(j),
    ensures
        group_strings_from(s, i, mode, escape, group, acc, depth, loopdepth, kind) == group_strings_from(
            t,
            j,
            mode,
            escape,
            group,
            acc,
            depth,
            loopdepth,
            kind,
        ),
    decreases s.len() - i,
{
    assert(s.skip(i).len() == s.len() - i);
    assert(t.skip(j).len() == t.len() - j);
    if i < s.len() {
        assert(s[i] == s.skip(i)[0]);
        assert(t[j] == t.skip(j)[0]);
        assert(s.skip(i + 1) =~= s.skip(i).skip(1));
        assert(t.skip(j + 1) =~= t.skip(j).skip(1));
        if i + 1 < s.len() {
            assert(s[i + 1] == s.skip(i)[1]);
            assert(t[j + 1] == t.skip(j)[1]);
            assert(s.skip(i + 2) =~= s.skip(i).skip(2));
            assert(t.skip(j + 2) =~= t.skip(j).skip(2));
        }
        let comment = Atom::Comment { text: group, depth, loopdepth };
        let string = Atom::Str { text: group, depth, loopdepth };
        let none = Seq::<char>::empty();
        match s[i].unknown_char() {
            None => {
                lemma_strings_suffix(s, i + 1, t, j + 1, mode, escape, group, acc.push(s[i]), depth, loopdepth, kind);
            },
            Some(c) => match mode {
                StringAreaState::CommentStart => {
                    if c == '\n' {
                        lemma_strings_suffix(
                            s,
                            i + 1,
                            t,
                            j + 1,
                            StringAreaState::Closed,
                            escape,
                            none,
                            acc.push(comment),
                            depth,
                            loopdepth,
                            kind,
                        );
                    } else {
                        lemma_strings_suffix(s, i + 1, t, j + 1, mode, escape, group.push(c), acc, depth, loopdepth, kind);
                    }
                },
                StringAreaState::CommentOpen => {
                    if c != '*' {
                        lemma_strings_suffix(s, i + 1, t, j + 1, mode, escape, group.push(c), acc, depth, loopdepth, kind);
                    } else if i + 1 < s.len() {
                        match s[i + 1].unknown_char() {
                            None => {},
                            Some(n) => {
                                if n == '/' {
                                    lemma_strings_suffix(
                                        s,
                                        i + 2,
                                        t,
                                        j + 2,
                                        StringAreaState::Closed,
                                        escape,
                                        none,
                                        acc.push(comment),
                                        depth,
                                        loopdepth,
                                        kind,
                                    );
                                } else {
                                    lemma_strings_suffix(
                                        s,
                                        i + 1,
                                        t,
                                        j + 1,
                                        mode,
                                        escape,
                                        group.push(c),
                                        acc,
                                        depth,
                                        loopdepth,
                                        kind,
                                    );
                                }
                            },
                        }
                    }
                },
                StringAreaState::QuotationOpen => {
                    if escape {
                        lemma_strings_suffix(s, i + 1, t, j + 1, mode, false, group.push(c), acc, depth, loopdepth, kind);
                    } else if c == '"' {
                        lemma_strings_suffix(
                            s,
                            i + 1,
                            t,
                            j + 1,
                            StringAreaState::Closed,
                            false,
                            none,
                            acc.push(string),
                            depth,
                            loopdepth,
                            kind,
                        );
                    } else if c == '\\' {
                        lemma_strings_suffix(s, i + 1, t, j + 1, mode, true, group, acc, depth, loopdepth, kind);
                    } else {
                        lemma_strings_suffix(s, i + 1, t, j + 1, mode, false, group.push(c), acc, depth, loopdepth, kind);
                    }
                },
                StringAreaState::Closed => {
                    if c == '"' {
                        lemma_strings_suffix(
                            s,
                            i + 1,
                            t,
                            j + 1,
                            StringAreaState::QuotationOpen,
                            false,
                            none,
                            acc,
                            depth,
                            loopdepth,
                            kind,
                        );
                    } else if c == '/' && i + 1 < s.len() && s[i + 1].is_char('*') {
                        lemma_strings_suffix(
                            s,
                            i + 2,
                            t,
                            j + 2,
                            StringAreaState::CommentOpen,
                            false,
                            none,
                            acc,
                            depth,
                            loopdepth,
                            kind,
                        );
                    } else if c == '/' && i + 1 < s.len() && s[i + 1].is_char('/') {
                        lemma_strings_suffix(
                            s,
                            i + 2,
                            t,
                            j + 2,
                            StringAreaState::CommentStart,
                            false,
                            none,
                            acc,
                            depth,
                            loopdepth,
                            kind,
                        );
                    } else {
                        lemma_strings_suffix(s, i + 1, t, j + 1, mode, false, group, acc.push(s[i]), depth, loopdepth, kind);
                    }
                },
            },
        }
    }
}

/// The quote and comment pass only adds to its output: what it puts out is
/// the output so far followed by what it puts out when it starts with no
/// output.
pub proof fn lemma_strings_append(
    s: Seq<Atom>,
    i: int,
    mode: StringAreaState,
    escape: bool,
    group: Seq<char>,
    acc: Seq<Atom>,
    depth: isize,
    loopdepth: isize,
    kind: ParserKind,
)
    requires
        0 <= i <= s.len(),
    ensures
        group_strings_from(s, i, mode, escape, group, acc, depth, loopdepth, kind) == after(
            acc,
            group_strings_from(s, i, mode, escape, group, Seq::empty(), depth, loopdepth, kind),
        ),
    decreases s.len() - i, 0nat,
{
    let none = Seq::<Atom>::empty();
    let fresh = Seq::<char>::empty();
    let comment = Atom::Comment { text: group, depth, loopdepth };
    let string = Atom::Str { text: group, depth, loopdepth };
    if i < s.len() {
        match s[i].unknown_char() {
            None => {
                lemma_strings_pushed(s, i + 1, mode, escape, group, acc, s[i], depth, loopdepth, kind);
            },
            Some(c) => match mode {
                StringAreaState::CommentStart => {
                    if c == '\n' {
                        lemma_strings_pushed(
                            s,
                            i + 1,
                            StringAreaState::Closed,
                            escape,
                            fresh,
                            acc,
                            comment,
                            depth,
                            loopdepth,
                            kind,
                        );
                    } else {
                        lemma_strings_append(s, i + 1, mode, escape, group.push(c), acc, depth, loopdepth, kind);
                    }
                },
                StringAreaState::CommentOpen => {
                    if c != '*' {
                        lemma_strings_append(s, i + 1, mode, escape, group.push(c), acc, depth, loopdepth, kind);
                    } else if i + 1 < s.len() {
                        match s[i + 1].unknown_char() {
                            None => {},
                            Some(n) => {
                                if n == '/' {
                                    lemma_strings_pushed(
                                        s,
                                        i + 2,
                                        StringAreaState::Closed,
                                        escape,
                                        fresh,
                                        acc,
                                        comment,
                                        depth,
                                        loopdepth,
                                        kind,
                                    );
                                } else {
                                    lemma_strings_append(
                                        s,
                                        i + 1,
                                        mode,
                                        escape,
                                        group.push(c),
                                        acc,
                                        depth,
                                        loopdepth,
                                        kind,
                                    );
                                }
                            },
                        }
                    }
                },
                StringAreaState::QuotationOpen => {
                    if escape {
                        lemma_strings_append(s, i + 1, mode, false, group.push(c), acc, depth, loopdepth, kind);
                    } else if c == '"' {
                        lemma_strings_pushed(
                            s,
                            i + 1,
                            StringAreaState::Closed,
                            false,
                            fresh,
                            acc,
                            string,
                            depth,
                            loopdepth,
                            kind,
                        );
                    } else if c == '\\' {
                        lemma_strings_append(s, i + 1, mode, true, group, acc, depth, loopdepth, kind);
                    } else {
                        lemma_strings_append(s, i + 1, mode, false, group.push(c), acc, depth, loopdepth, kind);
                    }
                },
                StringAreaState::Closed => {
                    if c == '"' {
                        lemma_strings_append(
                            s,
                            i + 1,
                            StringAreaState::QuotationOpen,
                            false,
                            fresh,
                            acc,
                            depth,
                            loopdepth,
                            kind,
                        );
                    } else if c == '/' && i + 1 < s.len() && s[i + 1].is_char('*') {
                        lemma_strings_append(
                            s,
                            i + 2,
                            StringAreaState::CommentOpen,
                            false,
                            fresh,
                            acc,
                            depth,
                            loopdepth,
                            kind,
                        );
                    } else if c == '/' && i + 1 < s.len() && s[i + 1].is_char('/') {
                        lemma_strings_append(
                            s,
                            i + 2,
                            StringAreaState::CommentStart,
                            false,
                            fresh,
                            acc,
                            depth,
                            loopdepth,
                            kind,
                        );
                    } else {
                        lemma_strings_pushed(s, i + 1, mode, false, group, acc, s[i], depth, loopdepth, kind);
                    }
                },
            },
        }
    } else {
        assert(acc + none =~= acc);
        assert(acc + none.push(comment) =~= acc.push(comment));
    }
}

/// Where the quote and comment pass goes on with one more atom in its
/// output, that atom stands in what it puts out between the output so far
/// and what it puts out from there on.
pub proof fn lemma_strings_pushed(
    s: Seq<Atom>,
    i: int,
    mode: StringAreaState,
    escape: bool,
    group: Seq<char>,
    acc: Seq<Atom>,
    a: Atom,
    depth: isize,
    loopdepth: isize,
    kind: ParserKind,
)
    requires
        0 <= i <= s.len(),
    ensures
        group_strings_from(s, i, mode, escape, group, acc.push(a), depth, loopdepth, kind) == after(
            acc,
            group_strings_from(s, i, mode, escape, group, Seq::<Atom>::empty().push(a), depth, loopdepth, kind),
        ),
        group_strings_from(s, i, mode, escape, group, Seq::<Atom>::empty().push(a), depth, loopdepth, kind) == after(
            Seq::<Atom>::empty().push(a),
            group_strings_from(s, i, mode, escape, group, Seq::empty(), depth, loopdepth, kind),
        ),
    decreases s.len() - i, 1nat,
{
    let none = Seq::<Atom>::empty();
    lemma_strings_append(s, i, mode, escape, group, acc.push(a), depth, loopdepth, kind);
    lemma_strings_append(s, i, mode, escape, group, none.push(a), depth, loopdepth, kind);
    let rest = group_strings_from(s, i, mode, escape, group, none, depth, loopdepth, kind);
    if rest is Ok {
        assert(acc.push(a) + rest->Ok_0 =~= acc + (none.push(a) + rest->Ok_0));
    }
}

/// The first atom that the quote and comment pass puts out from a position
/// on is the atom at that position where it is a character; inside a literal
/// it is none.
pub proof fn lemma_strings_first(
    s: Seq<Atom>,
    i: int,
    mode: StringAreaState,
    escape: bool,
    group: Seq<char>,
    depth: isize,
    loopdepth: isize,
    kind: ParserKind,
)
    requires
        0 <= i <= s.len(),
        group_strings_from(s, i, mode, escape, group, Seq::empty(), depth, loopdepth, kind) is Ok,
    ensures
        ({
            let d = group_strings_from(s, i, mode, escape, group, Seq::empty(), depth, loopdepth, kind)->Ok_0;
            d.len() > 0 && d[0] is Unknown ==> mode == StringAreaState::Closed && i < s.len() && d[0] == s[i]
        }),
    decreases s.len() - i,
{
    let none = Seq::<Atom>::empty();
    let fresh = Seq::<char>::empty();
    let comment = Atom::Comment { text: group, depth, loopdepth };
    let string = Atom::Str { text: group, depth, loopdepth };
    if i < s.len() {
        match s[i].unknown_char() {
            None => {
                lemma_strings_pushed(s, i + 1, mode, escape, group, none, s[i], depth, loopdepth, kind);
            },
            Some(c) => match mode {
                StringAreaState::CommentStart => {
                    if c == '\n' {
                        lemma_strings_pushed(
                            s,
                            i + 1,
                            StringAreaState::Closed,
                            escape,
                            fresh,
                            none,
                            comment,
                            depth,
                            loopdepth,
                            kind,
                        );
                    } else {
                        lemma_strings_first(s, i + 1, mode, escape, group.push(c), depth, loopdepth, kind);
                    }
                },
                StringAreaState::CommentOpen => {
                    if c != '*' {
                        lemma_strings_first(s, i + 1, mode, escape, group.push(c), depth, loopdepth, kind);
                    } else if i + 1 < s.len() {
                        match s[i + 1].unknown_char() {
                            None => {},
                            Some(n) => {
                                if n == '/' {
                                    lemma_strings_pushed(
                                        s,
                                        i + 2,
                                        StringAreaState::Closed,
                                        escape,
                                        fresh,
                                        none,
                                        comment,
                                        depth,
                                        loopdepth,
                                        kind,
                                    );
                                } else {
                                    lemma_strings_first(s, i + 1, mode, escape, group.push(c), depth, loopdepth, kind);
                                }
                            },
                        }
                    }
                },
                StringAreaState::QuotationOpen => {
                    if escape {
                        lemma_strings_first(s, i + 1, mode, false, group.push(c), depth, loopdepth, kind);
                    } else if c == '"' {
                        lemma_strings_pushed(
                            s,
                            i + 1,
                            StringAreaState::Closed,
                            false,
                            fresh,
                            none,
                            string,
                            depth,
                            loopdepth,
                            kind,
                        );
                    } else if c == '\\' {
                        lemma_strings_first(s, i + 1, mode, true, group, depth, loopdepth, kind);
                    } else {
                        lemma_strings_first(s, i + 1, mode, false, group.push(c), depth, loopdepth, kind);
                    }
                },
                StringAreaState::Closed => {
                    if c == '"' {
                        lemma_strings_first(s, i + 1, StringAreaState::QuotationOpen, false, fresh, depth, loopdepth, kind);
                    } else if c == '/' && i + 1 < s.len() && s[i + 1].is_char('*') {
                        lemma_strings_first(s, i + 2, StringAreaState::CommentOpen, false, fresh, depth, loopdepth, kind);
                    } else if c == '/' && i + 1 < s.len() && s[i + 1].is_char('/') {
                        lemma_strings_first(s, i + 2, StringAreaState::CommentStart, false, fresh, depth, loopdepth, kind);
                    } else {
                        lemma_strings_pushed(s, i + 1, mode, false, group, none, s[i], depth, loopdepth, kind);
                    }
                },
            },
        }
    }
}

/// What the quote and comment pass puts out holds no quote and no start of a
/// comment, where its output so far held none and the pass does not stand
/// between a slash that it has put out and a character that would have
/// made a comment of it.
pub proof fn lemma_strings_are_quiet(
    s: Seq<Atom>,
    i: int,
    mode: StringAreaState,
    escape: bool,
    group: Seq<char>,
    acc: Seq<Atom>,
    depth: isize,
    loopdepth: isize,
    kind: ParserKind,
)
    requires
        0 <= i <= s.len(),
        quiet(acc),
        mode == StringAreaState::Closed && acc.len() > 0 && acc.last().is_char('/') && i < s.len() ==> !s[i].is_char(
            '*',
        ) && !s[i].is_char('/'),
        group_strings_from(s, i, mode, escape, group, acc, depth, loopdepth, kind) is Ok,
    ensures
        quiet(group_strings_from(s, i, mode, escape, group, acc, depth, loopdepth, kind)->Ok_0),
    decreases s.len() - i,
{
    let fresh = Seq::<char>::empty();
    let comment = Atom::Comment { text: group, depth, loopdepth };
    let string = Atom::Str { text: group, depth, loopdepth };
    if i < s.len() {
        match s[i].unknown_char() {
            None => {
                lemma_quiet_push(acc, s[i]);
                lemma_strings_are_quiet(s, i + 1, mode, escape, group, acc.push(s[i]), depth, loopdepth, kind);
            },
            Some(c) => match mode {
                StringAreaState::CommentStart => {
                    if c == '\n' {
                        lemma_quiet_push(acc, comment);
                        lemma_strings_are_quiet(
                            s,
                            i + 1,
                            StringAreaState::Closed,
                            escape,
                            fresh,
                            acc.push(comment),
                            depth,
                            loopdepth,
                            kind,
                        );
                    } else {
                        lemma_strings_are_quiet(s, i + 1, mode, escape, group.push(c), acc, depth, loopdepth, kind);
                    }
                },
                StringAreaState::CommentOpen => {
                    if c != '*' {
                        lemma_strings_are_quiet(s, i + 1, mode, escape, group.push(c), acc, depth, loopdepth, kind);
                    } else if i + 1 < s.len() {
                        match s[i + 1].unknown_char() {
                            None => {},
                            Some(n) => {
                                if n == '/' {
                                    lemma_quiet_push(acc, comment);
                                    lemma_strings_are_quiet(
                                        s,
                                        i + 2,
                                        StringAreaState::Closed,
                                        escape,
                                        fresh,
                                        acc.push(comment),
                                        depth,
                                        loopdepth,
                                        kind,
                                    );
                                } else {
                                    lemma_strings_are_quiet(
                                        s,
                                        i + 1,
                                        mode,
                                        escape,
                                        group.push(c),
                                        acc,
                                        depth,
                                        loopdepth,
                                        kind,
                                    );
                                }
                            },
                        }
                    }
                },
                StringAreaState::QuotationOpen => {
                    if escape {
                        lemma_strings_are_quiet(s, i + 1, mode, false, group.push(c), acc, depth, loopdepth, kind);
                    } else if c == '"' {
                        lemma_quiet_push(acc, string);
                        lemma_strings_are_quiet(
                            s,
                            i + 1,
                            StringAreaState::Closed,
                            false,
                            fresh,
                            acc.push(string),
                            depth,
                            loopdepth,
                            kind,
                        );
                    } else if c == '\\' {
                        lemma_strings_are_quiet(s, i + 1, mode, true, group, acc, depth, loopdepth, kind);
                    } else {
                        lemma_strings_are_quiet(s, i + 1, mode, false, group.push(c), acc, depth, loopdepth, kind);
                    }
                },
                StringAreaState::Closed => {
                    if c == '"' {
                        lemma_strings_are_quiet(
                            s,
                            i + 1,
                            StringAreaState::QuotationOpen,
                            false,
                            fresh,
                            acc,
                            depth,
                            loopdepth,
                            kind,
                        );
                    } else if c == '/' && i + 1 < s.len() && s[i + 1].is_char('*') {
                        lemma_strings_are_quiet(
                            s,
                            i + 2,
                            StringAreaState::CommentOpen,
                            false,
                            fresh,
                            acc,
                            depth,
                            loopdepth,
                            kind,
                        );
                    } else if c == '/' && i + 1 < s.len() && s[i + 1].is_char('/') {
                        lemma_strings_are_quiet(
                            s,
                            i + 2,
                            StringAreaState::CommentStart,
                            false,
                            fresh,
                            acc,
                            depth,
                            loopdepth,
                            kind,
                        );
                    } else {
                        lemma_quiet_push(acc, s[i]);
                        lemma_strings_are_quiet(s, i + 1, mode, false, group, acc.push(s[i]), depth, loopdepth, kind);
                    }
                },
            },
        }
    } else {
        if mode == StringAreaState::CommentStart {
            lemma_quiet_push(acc, comment);
        }
    }
}

/// Whether the second outcome is the first with one more atom, put where
/// white space may be put: the same failure, or the run with that atom in it.
pub open spec fn widened(
    a: Result<Seq<Atom>, ParserError>,
    b: Result<Seq<Atom>, ParserError>,
    space: Atom,
) -> bool {
    match a {
        Err(_) => b == a,
        Ok(x) => b is Ok && exists|p: int| put_at(x, b->Ok_0, p, space),
    }
}

/// Whether `y` is `x` with `space` put at position `p`, where white space may be put.
pub open spec fn put_at(x: Seq<Atom>, y: Seq<Atom>, p: int, space: Atom) -> bool {
    fits_space(x, p) && y == x.insert(p, space)
}

/// White space outside every literal passes through the quote and comment
/// pass: the pass puts out the same with and without it, but for that one
/// atom, which stands where white space may stand in the output as well.
pub proof fn lemma_strings_spaced(
    s: Seq<Atom>,
    i: int,
    mode: StringAreaState,
    escape: bool,
    group: Seq<char>,
    acc: Seq<Atom>,
    at: int,
    space: Atom,
    depth: isize,
    loopdepth: isize,
    kind: ParserKind,
)
    requires
        0 <= i <= s.len(),
        is_space(space),
        fits_space(s, at),
        outside_from(s, i, mode, escape, at),
        mode == StringAreaState::Closed ==> linked(acc, s, i),
    ensures
        widened(
            group_strings_from(s, i, mode, escape, group, acc, depth, loopdepth, kind),
            group_strings_from(s.insert(at, space), i, mode, escape, group, acc, depth, loopdepth, kind),
            space,
        ),
    decreases s.len() - i,
{
    let t = s.insert(at, space);
    let none = Seq::<Atom>::empty();
    let fresh = Seq::<char>::empty();
    let comment = Atom::Comment { text: group, depth, loopdepth };
    let string = Atom::Str { text: group, depth, loopdepth };
    lemma_outside_is_ahead(s, i, mode, escape, at);
    if i < at {
        assert(t[i] == s[i]);
        if i + 1 < at {
            assert(t[i + 1] == s[i + 1]);
        } else {
            assert(t[i + 1] == space);
        }
        match s[i].unknown_char() {
            None => {
                lemma_strings_spaced(s, i + 1, mode, escape, group, acc.push(s[i]), at, space, depth, loopdepth, kind);
            },
            Some(c) => match mode {
                StringAreaState::CommentStart => {
                    if c == '\n' {
                        lemma_strings_spaced(
                            s,
                            i + 1,
                            StringAreaState::Closed,
                            escape,
                            fresh,
                            acc.push(comment),
                            at,
                            space,
                            depth,
                            loopdepth,
                            kind,
                        );
                    } else {
                        lemma_strings_spaced(s, i + 1, mode, escape, group.push(c), acc, at, space, depth, loopdepth, kind);
                    }
                },
                StringAreaState::CommentOpen => {
                    if c != '*' {
                        lemma_strings_spaced(s, i + 1, mode, escape, group.push(c), acc, at, space, depth, loopdepth, kind);
                    } else {
                        match s[i + 1].unknown_char() {
                            None => {},
                            Some(n) => {
                                if n == '/' {
                                    lemma_outside_is_ahead(s, i + 2, StringAreaState::Closed, escape, at);
                                    lemma_strings_spaced(
                                        s,
                                        i + 2,
                                        StringAreaState::Closed,
                                        escape,
                                        fresh,
                                        acc.push(comment),
                                        at,
                                        space,
                                        depth,
                                        loopdepth,
                                        kind,
                                    );
                                } else {
                                    lemma_outside_is_ahead(s, i + 1, mode, escape, at);
                                    lemma_strings_spaced(
                                        s,
                                        i + 1,
                                        mode,
                                        escape,
                                        group.push(c),
                                        acc,
                                        at,
                                        space,
                                        depth,
                                        loopdepth,
                                        kind,
                                    );
                                }
                            },
                        }
                    }
                },
                StringAreaState::QuotationOpen => {
                    if escape {
                        lemma_strings_spaced(s, i + 1, mode, false, group.push(c), acc, at, space, depth, loopdepth, kind);
                    } else if c == '"' {
                        lemma_strings_spaced(
                            s,
                            i + 1,
                            StringAreaState::Closed,
                            false,
                            fresh,
                            acc.push(string),
                            at,
                            space,
                            depth,
                            loopdepth,
                            kind,
                        );
                    } else if c == '\\' {
                        lemma_strings_spaced(s, i + 1, mode, true, group, acc, at, space, depth, loopdepth, kind);
                    } else {
                        lemma_strings_spaced(s, i + 1, mode, false, group.push(c), acc, at, space, depth, loopdepth, kind);
                    }
                },
                StringAreaState::Closed => {
                    if c == '"' {
                        lemma_strings_spaced(
                            s,
                            i + 1,
                            StringAreaState::QuotationOpen,
                            false,
                            fresh,
                            acc,
                            at,
                            space,
                            depth,
                            loopdepth,
                            kind,
                        );
                    } else if c == '/' && i + 1 < s.len() && s[i + 1].is_char('*') {
                        lemma_outside_is_ahead(s, i + 2, StringAreaState::CommentOpen, false, at);
                        lemma_strings_spaced(
                            s,
                            i + 2,
                            StringAreaState::CommentOpen,
                            false,
                            fresh,
                            acc,
                            at,
                            space,
                            depth,
                            loopdepth,
                            kind,
                        );
                    } else if c == '/' && i + 1 < s.len() && s[i + 1].is_char('/') {
                        lemma_outside_is_ahead(s, i + 2, StringAreaState::CommentStart, false, at);
                        lemma_strings_spaced(
                            s,
                            i + 2,
                            StringAreaState::CommentStart,
                            false,
                            fresh,
                            acc,
                            at,
                            space,
                            depth,
                            loopdepth,
                            kind,
                        );
                    } else {
                        lemma_strings_spaced(s, i + 1, mode, false, group, acc.push(s[i]), at, space, depth, loopdepth, kind);
                    }
                },
            },
        }
    } else {
        lemma_strings_space_here(s, mode, escape, group, acc, at, space, depth, loopdepth, kind);
    }
}

/// White space where the quote and comment pass stands outside every
/// literal goes into the output as it is, and the pass goes on as without it.
pub proof fn lemma_strings_space_here(
    s: Seq<Atom>,
    mode: StringAreaState,
    escape: bool,
    group: Seq<char>,
    acc: Seq<Atom>,
    at: int,
    space: Atom,
    depth: isize,
    loopdepth: isize,
    kind: ParserKind,
)
    requires
        is_space(space),
        fits_space(s, at),
        mode == StringAreaState::Closed,
        linked(acc, s, at),
    ensures
        widened(
            group_strings_from(s, at, mode, escape, group, acc, depth, loopdepth, kind),
            group_strings_from(s.insert(at, space), at, mode, escape, group, acc, depth, loopdepth, kind),
            space,
        ),
{
    let t = s.insert(at, space);
    let none = Seq::<Atom>::empty();
    let a = group_strings_from(s, at, mode, escape, group, acc, depth, loopdepth, kind);
    let b = group_strings_from(t, at, mode, escape, group, acc, depth, loopdepth, kind);
    let rest = group_strings_from(s, at, mode, false, group, none, depth, loopdepth, kind);
    assert(t[at] == space);
    assert(t.skip(at + 1) =~= s.skip(at));
    assert(b == group_strings_from(t, at + 1, mode, false, group, acc.push(space), depth, loopdepth, kind));
    lemma_strings_suffix(t, at + 1, s, at, mode, false, group, none, depth, loopdepth, kind);
    lemma_strings_append(t, at + 1, mode, false, group, acc.push(space), depth, loopdepth, kind);
    lemma_strings_append(s, at, mode, false, group, acc, depth, loopdepth, kind);
    lemma_strings_free(s, at, escape, group, acc, depth, loopdepth, kind);
    assert(a == after(acc, rest));
    assert(b == after(acc.push(space), rest));
    if rest is Ok {
        let d = rest->Ok_0;
        let x = acc + d;
        let p = acc.len() as int;
        lemma_strings_first(s, at, mode, false, group, depth, loopdepth, kind);
        assert(acc.push(space) + d =~= x.insert(p, space));
        if 0 < p < x.len() {
            assert(x[p - 1] == acc.last());
            assert(x[p] == d[0]);
        }
        assert(put_at(a->Ok_0, b->Ok_0, p, space));
    }
}

/// Outside every literal the quote and comment pass does not look at
/// whether the character before was a backslash.
pub proof fn lemma_strings_free(
    s: Seq<Atom>,
    i: int,
    escape: bool,
    group: Seq<char>,
    acc: Seq<Atom>,
    depth: isize,
    loopdepth: isize,
    kind: ParserKind,
)
    requires
        0 <= i <= s.len(),
    ensures
        group_strings_from(s, i, StringAreaState::Closed, escape, group, acc, depth, loopdepth, kind)
            == group_strings_from(s, i, StringAreaState::Closed, false, group, acc, depth, loopdepth, kind),
    decreases s.len() - i,
{
    if i < s.len() {
        match s[i].unknown_char() {
            None => {
                lemma_strings_free(s, i + 1, escape, group, acc.push(s[i]), depth, loopdepth, kind);
            },
            Some(c) => {},
        }
    }
}

/// White space invariance for a text with strings and comments: white
/// space between tokens, outside the literals, does not change the resolved
/// tree.
///
/// Where a space, a tab or a line break is put into a text, at the top or
/// inside any number of brackets, the outcome of parsing and resolving the
/// text is the same tree, or the same failure, as without it. The white
/// space may stand anywhere but inside a string or a comment, between the
/// two characters that open or close a comment, and between two characters
/// of one word.
pub proof fn lemma_space_outside_literals(
    kind: ParserKind,
    s: Seq<Atom>,
    at: int,
    space: Atom,
    depth: isize,
    loopdepth: isize,
    fuel: nat,
)
    requires
        outside(s, at),
        fits_space(s, at),
        is_space(space),
    ensures
        resolve_run(kind, s.insert(at, space), depth, loopdepth, fuel) == resolve_run(
            kind,
            s,
            depth,
            loopdepth,
            fuel,
        ),
{
    let t = s.insert(at, space);
    let none = Seq::<Atom>::empty();
    let lexer = if kind == ParserKind::Stmt {
        ParserKind::Stmt
    } else {
        ParserKind::Expr
    };
    let a = group_strings(s, depth, loopdepth, lexer);
    let b = group_strings(t, depth, loopdepth, lexer);
    lemma_strings_spaced(s, 0, StringAreaState::Closed, false, Seq::empty(), none, at, space, depth, loopdepth, lexer);
    if a is Ok {
        let x = a->Ok_0;
        let y = b->Ok_0;
        let p = choose|p: int| put_at(x, y, p, space);
        lemma_strings_are_quiet(s, 0, StringAreaState::Closed, false, Seq::empty(), none, depth, loopdepth, lexer);
        lemma_quiet_insert(x, p, space);
        assert(x.take(0) =~= none);
        assert(y.take(0) =~= none);
        lemma_strings_keep_quiet(x, 0, depth, loopdepth, lexer);
        lemma_strings_keep_quiet(y, 0, depth, loopdepth, lexer);
        assert(resolve_run(kind, s, depth, loopdepth, fuel) == resolve_run(kind, x, depth, loopdepth, fuel));
        assert(resolve_run(kind, t, depth, loopdepth, fuel) == resolve_run(kind, y, depth, loopdepth, fuel));
        lemma_space_between_tokens(kind, x, p, space, depth, loopdepth, fuel);
    }
}

/// A position that lies outside every literal still does where white space is put at it.
pub proof fn lemma_outside_insert(
    s: Seq<Atom>,
    i: int,
    mode: StringAreaState,
    escape: bool,
    at: int,
    space: Atom,
)
    requires
        0 <= i <= s.len(),
        is_space(space),
        outside_from(s, i, mode, escape, at),
    ensures
        outside_from(s.insert(at, space), i, mode, escape, at),
    decreases s.len() - i,
{
    let t = s.insert(at, space);
    lemma_outside_is_ahead(s, i, mode, escape, at);
    if i < at {
        assert(t[i] == s[i]);
        if i + 1 < at {
            assert(t[i + 1] == s[i + 1]);
        } else {
            assert(t[i + 1] == space);
        }
        match s[i].unknown_char() {
            None => {
                lemma_outside_insert(s, i + 1, mode, escape, at, space);
            },
            Some(c) => match mode {
                StringAreaState::CommentStart => {
                    if c == '\n' {
                        lemma_outside_insert(s, i + 1, StringAreaState::Closed, escape, at, space);
                    } else {
                        lemma_outside_insert(s, i + 1, mode, escape, at, space);
                    }
                },
                StringAreaState::CommentOpen => {
                    if c != '*' {
                        lemma_outside_insert(s, i + 1, mode, escape, at, space);
                    } else {
                        match s[i + 1].unknown_char() {
                            None => {},
                            Some(n) => {
                                if n == '/' {
                                    lemma_outside_is_ahead(s, i + 2, StringAreaState::Closed, escape, at);
                                    lemma_outside_insert(s, i + 2, StringAreaState::Closed, escape, at, space);
                                } else {
                                    lemma_outside_is_ahead(s, i + 1, mode, escape, at);
                                    lemma_outside_insert(s, i + 1, mode, escape, at, space);
                                }
                            },
                        }
                    }
                },
                StringAreaState::QuotationOpen => {
                    if escape {
                        lemma_outside_insert(s, i + 1, mode, false, at, space);
                    } else if c == '"' {
                        lemma_outside_insert(s, i + 1, StringAreaState::Closed, false, at, space);
                    } else if c == '\\' {
                        lemma_outside_insert(s, i + 1, mode, true, at, space);
                    } else {
                        lemma_outside_insert(s, i + 1, mode, false, at, space);
                    }
                },
                StringAreaState::Closed => {
                    if c == '"' {
                        lemma_outside_insert(s, i + 1, StringAreaState::QuotationOpen, false, at, space);
                    } else if c == '/' && i + 1 < s.len() && s[i + 1].is_char('*') {
                        lemma_outside_is_ahead(s, i + 2, StringAreaState::CommentOpen, false, at);
                        lemma_outside_insert(s, i + 2, StringAreaState::CommentOpen, false, at, space);
                    } else if c == '/' && i + 1 < s.len() && s[i + 1].is_char('/') {
                        lemma_outside_is_ahead(s, i + 2, StringAreaState::CommentStart, false, at);
                        lemma_outside_insert(s, i + 2, StringAreaState::CommentStart, false, at, space);
                    } else {
                        lemma_outside_insert(s, i + 1, mode, false, at, space);
                    }
                },
            },
        }
    }
}

/// White space invariance for runs of white space: any number of spaces,
/// tabs and line breaks, put between two tokens of a text and outside its
/// strings and comments, does not change the resolved tree, nor the failure
/// where the text fails.
///
/// The place is any but those that one white space may not take: inside a
/// string or a comment, between the two characters that open or close a
/// comment, and between two characters of one word.
pub proof fn lemma_white_space_outside_literals(
    kind: ParserKind,
    s: Seq<Atom>,
    at: int,
    gap: Seq<Atom>,
    depth: isize,
    loopdepth: isize,
    fuel: nat,
)
    requires
        outside(s, at),
        fits_space(s, at),
        is_blank(gap),
    ensures
        resolve_run(kind, s.take(at) + gap + s.skip(at), depth, loopdepth, fuel) == resolve_run(
            kind,
            s,
            depth,
            loopdepth,
            fuel,
        ),
    decreases gap.len(),
{
    if gap.len() == 0 {
        assert(s.take(at) + gap + s.skip(at) =~= s);
    } else {
        let space = gap.last();
        let wider = s.insert(at, space);
        assert(is_space(space));
        lemma_outside_insert(s, 0, StringAreaState::Closed, false, at, space);
        assert(wider[at] == space);
        assert(fits_space(wider, at));
        assert(is_blank(gap.drop_last())) by {
            assert forall|k: int| 0 <= k < gap.drop_last().len() implies is_space(#[trigger] gap.drop_last()[k]) by {
                assert(gap.drop_last()[k] == gap[k]);
            }
        }
        lemma_white_space_outside_literals(kind, wider, at, gap.drop_last(), depth, loopdepth, fuel);
        assert(wider.take(at) + gap.drop_last() + wider.skip(at) =~= s.take(at) + gap + s.skip(at));
        lemma_space_outside_literals(kind, s, at, space, depth, loopdepth, fuel);
    }
}

/// Whether `t` is `s` with one run of white space more, put between two
/// tokens and outside the strings and comments of `s`.
pub open spec fn widened_once(s: Seq<Atom>, t: Seq<Atom>) -> bool {
    exists|at: int, gap: Seq<Atom>| widened_by(s, t, at, gap)
}

/// Whether `t` is `s` with the run of white space `gap` put at position
/// `at`, between two tokens and outside the strings and comments of `s`.
pub open spec fn widened_by(s: Seq<Atom>, t: Seq<Atom>, at: int, gap: Seq<Atom>) -> bool {
    &&& outside(s, at)
    &&& fits_space(s, at)
    &&& is_blank(gap)
    &&& t == s.take(at) + gap + s.skip(at)
}

/// White space invariance for white space at any number of places: where a
/// text is made from another by putting in runs of white space between
/// tokens, place after place, the two texts are parsed and resolved to the
/// same tree, or fail in the same way.
///
/// `texts` holds the text after each step: each text is the one before it
/// with one more run of white space. So the first and the last differ by
/// white space at as many places as there are steps, and since the outcomes
/// are equal, it does not matter which of the two had the white space.
pub proof fn lemma_white_space_at_many_places(
    kind: ParserKind,
    texts: Seq<Seq<Atom>>,
    depth: isize,
    loopdepth: isize,
    fuel: nat,
)
    requires
        texts.len() > 0,
        forall|i: int| 0 <= i < texts.len() - 1 ==> widened_once(#[trigger] texts[i], texts[i + 1]),
    ensures
        resolve_run(kind, texts.last(), depth, loopdepth, fuel) == resolve_run(
            kind,
            texts.first(),
            depth,
            loopdepth,
            fuel,
        ),
    decreases texts.len(),
{
    if texts.len() > 1 {
        let shorter = texts.drop_last();
        assert forall|i: int| 0 <= i < shorter.len() - 1 implies widened_once(#[trigger] shorter[i], shorter[i + 1]) by {
            assert(shorter[i] == texts[i]);
            assert(shorter[i + 1] == texts[i + 1]);
        }
        lemma_white_space_at_many_places(kind, shorter, depth, loopdepth, fuel);
        let s = texts[texts.len() - 2];
        let t = texts.last();
        assert(widened_once(s, texts[texts.len() - 2 + 1]));
        let (at, gap) = choose|at: int, gap: Seq<Atom>| widened_by(s, t, at, gap);
        lemma_white_space_outside_literals(kind, s, at, gap, depth, loopdepth, fuel);
        assert(shorter.last() == s);
        assert(shorter.first() == texts.first());
    }
}

/// The atoms of a text are its characters, place by place.
pub proof fn lemma_unknowns_at(text: Seq<char>)
    ensures
        unknowns(text).len() == text.len(),
        forall|k: int| 0 <= k < text.len() ==> #[trigger] unknowns(text)[k] == unknown_atom(text[k]),
    decreases text.len(),
{
    if text.len() > 0 {
        lemma_unknowns_at(text.drop_last());
        assert forall|k: int| 0 <= k < text.len() implies #[trigger] unknowns(text)[k] == unknown_atom(text[k]) by {
            if k < text.len() - 1 {
                assert(unknowns(text)[k] == unknowns(text.drop_last())[k]);
                assert(text.drop_last()[k] == text[k]);
            }
        }
    }
}

/// White space invariance, said of source text: where spaces, tabs and
/// line breaks are put into a source text at a place between two tokens and
/// outside its strings and comments, a parser over the text with the white
/// space and a parser over the text without it, seeded alike, end with the
/// same tree, or fail in the same way.
pub proof fn lemma_white_space_in_a_text(
    kind: ParserKind,
    text: Seq<char>,
    at: int,
    white: Seq<char>,
    depth: isize,
    loopdepth: isize,
    fuel: nat,
)
    requires
        outside(unknowns(text), at),
        fits_space(unknowns(text), at),
        forall|k: int| 0 <= k < white.len() ==> is_split_char(#[trigger] white[k]),
    ensures
        resolve_run(kind, unknowns(text.take(at) + white + text.skip(at)), depth, loopdepth, fuel) == resolve_run(
            kind,
            unknowns(text),
            depth,
            loopdepth,
            fuel,
        ),
{
    let s = unknowns(text);
    let gap = unknowns(white);
    let wider = text.take(at) + white + text.skip(at);
    lemma_unknowns_at(text);
    lemma_unknowns_at(white);
    lemma_unknowns_at(wider);
    assert(is_blank(gap)) by {
        assert forall|k: int| 0 <= k < gap.len() implies is_space(#[trigger] gap[k]) by {
            assert(gap[k] == unknown_atom(white[k]));
            assert(is_split_char(white[k]));
        }
    }
    assert(unknowns(wider) =~= s.take(at) + gap + s.skip(at)) by {
        let t = s.take(at) + gap + s.skip(at);
        assert(t.len() == unknowns(wider).len());
        assert forall|k: int| 0 <= k < t.len() implies unknowns(wider)[k] == t[k] by {
            assert(unknowns(wider)[k] == unknown_atom(wider[k]));
            if k < at {
                assert(t[k] == s[k]);
                assert(wider[k] == text[k]);
            } else if k < at + white.len() {
                assert(t[k] == gap[k - at]);
                assert(wider[k] == white[k - at]);
            } else {
                assert(t[k] == s[k - white.len()]);
                assert(wider[k] == text[k - white.len()]);
            }
        }
    }
    lemma_white_space_outside_literals(kind, s, at, gap, depth, loopdepth, fuel);
}

} // verus!

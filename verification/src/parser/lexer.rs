//! The lexical passes as functions on trees: what each pass of a parser computes.
//!
//! Every pass reads a run of atoms from left to right and builds a new run. The
//! functions here take the position `i`, the state of the scan and the output
//! built so far, and give the final outcome of the pass.
use crate::abs::atom::Atom;
use crate::errors::parser_errors::ParserError;
use crate::parser::core_parser::{
    is_exclude_char, is_ope_char, is_split_char, ope_lexeme, ParserKind, OPE_COUNT,
};
use vstd::prelude::*;

verus! {

/// Where the quote and comment scanner stands.
#[derive(Debug, Clone, Copy, PartialEq, Eq, Structural)]
pub enum StringAreaState {
    /// Inside `/* ... */`.
    CommentOpen,
    /// Inside `// ...`, up to the end of the line.
    CommentStart,
    /// Inside `" ... "`.
    QuotationOpen,
    /// Outside any literal.
    Closed,
}

/// The outcome of the quote and comment pass from position `i` on.
///
/// `mode` is the state of the scanner, `escape` whether the character before
/// was an unescaped `\` inside a quote, `group` the text of the literal that is
/// open, `acc` the output so far.
pub open spec fn group_strings_from(
    s: Seq<Atom>,
    i: int,
    mode: StringAreaState,
    escape: bool,
    group: Seq<char>,
    acc: Seq<Atom>,
    depth: isize,
    loopdepth: isize,
    kind: ParserKind,
) -> Result<Seq<Atom>, ParserError>
    decreases s.len() - i,
{
    if i < 0 || i >= s.len() {
        match mode {
            StringAreaState::CommentStart => Ok(acc.push(Atom::Comment { text: group, depth, loopdepth })),
            StringAreaState::CommentOpen => Err(ParserError::CommentBlockNotClosed),
            StringAreaState::QuotationOpen => Err(ParserError::QuotationNotClosed),
            StringAreaState::Closed => Ok(acc),
        }
    } else {
        match s[i].unknown_char() {
            None => group_strings_from(s, i + 1, mode, escape, group, acc.push(s[i]), depth, loopdepth, kind),
            Some(c) => match mode {
                StringAreaState::CommentStart => {
                    if c == '\n' {
                        group_strings_from(
                            s,
                            i + 1,
                            StringAreaState::Closed,
                            escape,
                            Seq::empty(),
                            acc.push(Atom::Comment { text: group, depth, loopdepth }),
                            depth,
                            loopdepth,
                            kind,
                        )
                    } else {
                        group_strings_from(s, i + 1, mode, escape, group.push(c), acc, depth, loopdepth, kind)
                    }
                },
                StringAreaState::CommentOpen => {
                    if c != '*' {
                        group_strings_from(s, i + 1, mode, escape, group.push(c), acc, depth, loopdepth, kind)
                    } else if i + 1 >= s.len() {
                        Err(ParserError::CommentBlockNotClosed)
                    } else {
                        match s[i + 1].unknown_char() {
                            None => Err(kind.unexpected()),
                            Some(n) => {
                                if n == '/' {
                                    group_strings_from(
                                        s,
                                        i + 2,
                                        StringAreaState::Closed,
                                        escape,
                                        Seq::empty(),
                                        acc.push(Atom::Comment { text: group, depth, loopdepth }),
                                        depth,
                                        loopdepth,
                                        kind,
                                    )
                                } else {
                                    group_strings_from(
                                        s,
                                        i + 1,
                                        mode,
                                        escape,
                                        group.push(c),
                                        acc,
                                        depth,
                                        loopdepth,
                                        kind,
                                    )
                                }
                            },
                        }
                    }
                },
                StringAreaState::QuotationOpen => {
                    if escape {
                        group_strings_from(s, i + 1, mode, false, group.push(c), acc, depth, loopdepth, kind)
                    } else if c == '"' {
                        group_strings_from(
                            s,
                            i + 1,
                            StringAreaState::Closed,
                            false,
                            Seq::empty(),
                            acc.push(Atom::Str { text: group, depth, loopdepth }),
                            depth,
                            loopdepth,
                            kind,
                        )
                    } else if c == '\\' {
                        group_strings_from(s, i + 1, mode, true, group, acc, depth, loopdepth, kind)
                    } else {
                        group_strings_from(s, i + 1, mode, false, group.push(c), acc, depth, loopdepth, kind)
                    }
                },
                StringAreaState::Closed => {
                    if c == '"' {
                        group_strings_from(
                            s,
                            i + 1,
                            StringAreaState::QuotationOpen,
                            false,
                            Seq::empty(),
                            acc,
                            depth,
                            loopdepth,
                            kind,
                        )
                    } else if c == '/' && i + 1 < s.len() && s[i + 1].is_char('*') {
                        group_strings_from(
                            s,
                            i + 2,
                            StringAreaState::CommentOpen,
                            false,
                            Seq::empty(),
                            acc,
                            depth,
                            loopdepth,
                            kind,
                        )
                    } else if c == '/' && i + 1 < s.len() && s[i + 1].is_char('/') {
                        group_strings_from(
                            s,
                            i + 2,
                            StringAreaState::CommentStart,
                            false,
                            Seq::empty(),
                            acc,
                            depth,
                            loopdepth,
                            kind,
                        )
                    } else {
                        group_strings_from(s, i + 1, mode, false, group, acc.push(s[i]), depth, loopdepth, kind)
                    }
                },
            },
        }
    }
}

/// The quote and comment pass: every `"..."` becomes one `Str`, every `//...` up
/// to the end of its line and every `/*...*/` one `Comment`.
///
/// Inside a quote, `\` takes the character after it into the string as it is.
/// A quote that the input leaves open gives `QuotationNotClosed`, a block
/// comment that it leaves open `CommentBlockNotClosed`; a line comment ends
/// with the input. Atoms that are no characters pass through.
pub open spec fn group_strings(s: Seq<Atom>, depth: isize, loopdepth: isize, kind: ParserKind) -> Result<
    Seq<Atom>,
    ParserError,
> {
    group_strings_from(
        s,
        0,
        StringAreaState::Closed,
        false,
        Seq::empty(),
        Seq::empty(),
        depth,
        loopdepth,
        kind,
    )
}

/// The three kinds of bracket.
#[derive(Debug, Clone, Copy, PartialEq, Eq, Structural)]
pub enum Bracket {
    /// `{` and `}`.
    Brace,
    /// `[` and `]`.
    List,
    /// `(` and `)`.
    Paren,
}

impl Bracket {
    /// The character that opens a bracket of this kind.
    pub open spec fn open_char(self) -> char {
        match self {
            Bracket::Brace => '{',
            Bracket::List => '[',
            Bracket::Paren => '(',
        }
    }

    /// The character that closes a bracket of this kind.
    pub open spec fn close_char(self) -> char {
        match self {
            Bracket::Brace => '}',
            Bracket::List => ']',
            Bracket::Paren => ')',
        }
    }

    /// The node that holds what stood between a pair of brackets of this kind.
    pub open spec fn enclose(self, contents: Seq<Atom>, depth: isize, loopdepth: isize) -> Atom {
        match self {
            Bracket::Brace => Atom::Block { contents, depth, loopdepth, resolved: false },
            Bracket::List => Atom::ListBlock { contents, depth, loopdepth, resolved: false },
            Bracket::Paren => Atom::ParenBlock { contents, depth, loopdepth, resolved: false },
        }
    }

    /// The character that opens a bracket of this kind.
    pub fn opener(self) -> (c: char)
        ensures
            c == self.open_char(),
    {
        match self {
            Bracket::Brace => '{',
            Bracket::List => '[',
            Bracket::Paren => '(',
        }
    }

    /// The character that closes a bracket of this kind.
    pub fn closer(self) -> (c: char)
        ensures
            c == self.close_char(),
    {
        match self {
            Bracket::Brace => '}',
            Bracket::List => ']',
            Bracket::Paren => ')',
        }
    }
}

/// An atom as it is taken into the content of a bracket that is being closed
/// around it: characters as they are, strings, comments and brackets with the
/// depth of the parser at work. Other atoms cannot stand inside an unparsed
/// bracket.
pub open spec fn regroup(a: Atom, depth: isize, loopdepth: isize) -> Option<Atom> {
    match a {
        Atom::Unknown { ch } => Some(a),
        Atom::Str { text, .. } => Some(Atom::Str { text, depth, loopdepth }),
        Atom::Comment { text, .. } => Some(Atom::Comment { text, depth, loopdepth }),
        Atom::Block { contents, resolved, .. } => Some(Atom::Block { contents, depth, loopdepth, resolved }),
        Atom::ListBlock { contents, resolved, .. } => Some(
            Atom::ListBlock { contents, depth, loopdepth, resolved },
        ),
        Atom::ParenBlock { contents, resolved, .. } => Some(
            Atom::ParenBlock { contents, depth, loopdepth, resolved },
        ),
        _ => None,
    }
}

/// The outcome of the bracket pass for one kind of bracket, from position `i` on.
///
/// `level` counts the brackets of this kind that are open, `group` holds the
/// content of the outermost one, `acc` the output so far.
pub open spec fn group_brackets_from(
    s: Seq<Atom>,
    i: int,
    level: nat,
    group: Seq<Atom>,
    acc: Seq<Atom>,
    bracket: Bracket,
    depth: isize,
    loopdepth: isize,
    kind: ParserKind,
) -> Result<Seq<Atom>, ParserError>
    decreases s.len() - i,
{
    if i < 0 || i >= s.len() {
        if level != 0 {
            Err(ParserError::BraceNotClosed)
        } else {
            Ok(acc)
        }
    } else if s[i].is_char(bracket.open_char()) {
        group_brackets_from(
            s,
            i + 1,
            level + 1,
            if level == 0 {
                group
            } else {
                group.push(s[i])
            },
            acc,
            bracket,
            depth,
            loopdepth,
            kind,
        )
    } else if s[i].is_char(bracket.close_char()) {
        if level == 0 {
            Err(ParserError::BraceNotOpened)
        } else if level == 1 {
            group_brackets_from(
                s,
                i + 1,
                0,
                Seq::empty(),
                acc.push(bracket.enclose(group, depth, loopdepth)),
                bracket,
                depth,
                loopdepth,
                kind,
            )
        } else {
            group_brackets_from(
                s,
                i + 1,
                (level - 1) as nat,
                group.push(s[i]),
                acc,
                bracket,
                depth,
                loopdepth,
                kind,
            )
        }
    } else if level == 0 {
        group_brackets_from(s, i + 1, level, group, acc.push(s[i]), bracket, depth, loopdepth, kind)
    } else {
        match regroup(s[i], depth, loopdepth) {
            Some(a) => group_brackets_from(s, i + 1, level, group.push(a), acc, bracket, depth, loopdepth, kind),
            None => Err(kind.unexpected()),
        }
    }
}

/// The bracket pass for one kind of bracket: every matched pair at the top
/// level becomes one node that holds what stood between the two, unparsed.
///
/// The opening and the closing character of a top-level pair are dropped;
/// nested pairs stay in the content as characters. A closing bracket with none
/// open gives `BraceNotOpened`, an opening one that is never closed
/// `BraceNotClosed`.
pub open spec fn group_brackets(
    s: Seq<Atom>,
    bracket: Bracket,
    depth: isize,
    loopdepth: isize,
    kind: ParserKind,
) -> Result<Seq<Atom>, ParserError> {
    group_brackets_from(s, 0, 0, Seq::empty(), Seq::empty(), bracket, depth, loopdepth, kind)
}

/// The number of brackets of one kind that are open after the first `i`
/// atoms of a run: the opening ones less the closing ones.
pub open spec fn level_at(s: Seq<Atom>, i: int, bracket: Bracket) -> int
    decreases i,
{
    if i <= 0 || i > s.len() {
        0
    } else if s[i - 1].is_char(bracket.open_char()) {
        level_at(s, i - 1, bracket) + 1
    } else if s[i - 1].is_char(bracket.close_char()) {
        level_at(s, i - 1, bracket) - 1
    } else {
        level_at(s, i - 1, bracket)
    }
}

/// Whether no bracket of one kind is closed before it is opened among the first `upto` atoms.
pub open spec fn never_negative(s: Seq<Atom>, upto: int, bracket: Bracket) -> bool {
    forall|j: int| 0 <= j <= upto ==> level_at(s, j, bracket) >= 0
}

/// Whether the brackets of one kind are balanced in a run: none is closed
/// before it is opened, and none is left open.
pub open spec fn balanced(s: Seq<Atom>, bracket: Bracket) -> bool {
    never_negative(s, s.len() as int, bracket) && level_at(s, s.len() as int, bracket) == 0
}

/// Whether every atom of a run can stand inside an unparsed bracket.
pub open spec fn groupable(s: Seq<Atom>, depth: isize, loopdepth: isize) -> bool {
    forall|j: int| 0 <= j < s.len() ==> regroup(#[trigger] s[j], depth, loopdepth) is Some
}

/// What the outcome of the bracket pass, taken up at position `i`, says of the whole run.
pub proof fn lemma_brackets_from(
    s: Seq<Atom>,
    i: int,
    level: nat,
    group: Seq<Atom>,
    acc: Seq<Atom>,
    bracket: Bracket,
    depth: isize,
    loopdepth: isize,
    kind: ParserKind,
)
    requires
        0 <= i <= s.len(),
        level == level_at(s, i, bracket),
        never_negative(s, i, bracket),
    ensures
        ({
            let r = group_brackets_from(s, i, level, group, acc, bracket, depth, loopdepth, kind);
            &&& r is Ok ==> balanced(s, bracket)
            &&& r == Err::<Seq<Atom>, ParserError>(ParserError::BraceNotClosed) ==> never_negative(
                s,
                s.len() as int,
                bracket,
            ) && level_at(s, s.len() as int, bracket) > 0
            &&& r == Err::<Seq<Atom>, ParserError>(ParserError::BraceNotOpened) ==> !never_negative(
                s,
                s.len() as int,
                bracket,
            )
            &&& groupable(s, depth, loopdepth) ==> r is Ok || r == Err::<Seq<Atom>, ParserError>(
                ParserError::BraceNotClosed,
            ) || r == Err::<Seq<Atom>, ParserError>(ParserError::BraceNotOpened)
        }),
    decreases s.len() - i,
{
    if i < s.len() {
        assert(bracket.open_char() != bracket.close_char());
        if s[i].is_char(bracket.open_char()) {
            assert(level_at(s, i + 1, bracket) == level + 1);
            assert(never_negative(s, i + 1, bracket));
            lemma_brackets_from(
                s,
                i + 1,
                level + 1,
                if level == 0 {
                    group
                } else {
                    group.push(s[i])
                },
                acc,
                bracket,
                depth,
                loopdepth,
                kind,
            );
        } else if s[i].is_char(bracket.close_char()) {
            assert(level_at(s, i + 1, bracket) == level - 1);
            if level == 0 {
                assert(!never_negative(s, s.len() as int, bracket));
            } else if level == 1 {
                assert(never_negative(s, i + 1, bracket));
                lemma_brackets_from(
                    s,
                    i + 1,
                    0,
                    Seq::empty(),
                    acc.push(bracket.enclose(group, depth, loopdepth)),
                    bracket,
                    depth,
                    loopdepth,
                    kind,
                );
            } else {
                assert(never_negative(s, i + 1, bracket));
                lemma_brackets_from(
                    s,
                    i + 1,
                    (level - 1) as nat,
                    group.push(s[i]),
                    acc,
                    bracket,
                    depth,
                    loopdepth,
                    kind,
                );
            }
        } else {
            assert(level_at(s, i + 1, bracket) == level);
            assert(never_negative(s, i + 1, bracket));
            if level == 0 {
                lemma_brackets_from(s, i + 1, level, group, acc.push(s[i]), bracket, depth, loopdepth, kind);
            } else {
                match regroup(s[i], depth, loopdepth) {
                    Some(a) => {
                        lemma_brackets_from(s, i + 1, level, group.push(a), acc, bracket, depth, loopdepth, kind);
                    },
                    None => {},
                }
            }
        }
    }
}

/// Bracket balance: the bracket pass succeeds on balanced runs only, and
/// says which way an unbalanced run is unbalanced.
///
/// Where the pass succeeds, the brackets of its kind are balanced. Where it
/// gives `BraceNotClosed`, a bracket is left open and none is closed too
/// early; where it gives the error for a bracket that was not opened, one is
/// closed too early. On a run whose atoms can all stand inside a bracket, such
/// as a run of characters, these are the only outcomes: the pass succeeds if
/// and only if the run is balanced, and nothing is dropped in silence.
pub proof fn lemma_bracket_balance(s: Seq<Atom>, bracket: Bracket, depth: isize, loopdepth: isize, kind: ParserKind)
    ensures
        group_brackets(s, bracket, depth, loopdepth, kind) is Ok ==> balanced(s, bracket),
        group_brackets(s, bracket, depth, loopdepth, kind) == Err::<Seq<Atom>, ParserError>(
            ParserError::BraceNotClosed,
        ) ==> never_negative(s, s.len() as int, bracket) && level_at(s, s.len() as int, bracket) > 0,
        group_brackets(s, bracket, depth, loopdepth, kind) == Err::<Seq<Atom>, ParserError>(ParserError::BraceNotOpened)
            ==> !never_negative(s, s.len() as int, bracket),
        groupable(s, depth, loopdepth) ==> (group_brackets(s, bracket, depth, loopdepth, kind) is Ok <==> balanced(
            s,
            bracket,
        )),
        groupable(s, depth, loopdepth) && !never_negative(s, s.len() as int, bracket) ==> group_brackets(
            s,
            bracket,
            depth,
            loopdepth,
            kind,
        ) == Err::<Seq<Atom>, ParserError>(ParserError::BraceNotOpened),
        groupable(s, depth, loopdepth) && never_negative(s, s.len() as int, bracket) && level_at(
            s,
            s.len() as int,
            bracket,
        ) != 0 ==> group_brackets(s, bracket, depth, loopdepth, kind) == Err::<Seq<Atom>, ParserError>(
            ParserError::BraceNotClosed,
        ),
{
    lemma_brackets_from(s, 0, 0, Seq::empty(), Seq::empty(), bracket, depth, loopdepth, kind);
}

/// The output with the word that is open, if any, closed and appended.
pub open spec fn flush_word(acc: Seq<Atom>, group: Seq<char>, depth: isize, loopdepth: isize) -> Seq<Atom> {
    if group.len() > 0 {
        acc.push(Atom::Word { text: group, depth, loopdepth })
    } else {
        acc
    }
}

/// The outcome of the word pass from position `i` on; `group` is the word that is open.
pub open spec fn group_words_from(
    s: Seq<Atom>,
    i: int,
    group: Seq<char>,
    acc: Seq<Atom>,
    depth: isize,
    loopdepth: isize,
) -> Seq<Atom>
    decreases s.len() - i,
{
    if i < 0 || i >= s.len() {
        flush_word(acc, group, depth, loopdepth)
    } else {
        match s[i].unknown_char() {
            Some(c) => {
                if is_split_char(c) {
                    group_words_from(
                        s,
                        i + 1,
                        Seq::empty(),
                        flush_word(acc, group, depth, loopdepth),
                        depth,
                        loopdepth,
                    )
                } else if is_exclude_char(c) || is_ope_char(c) {
                    group_words_from(
                        s,
                        i + 1,
                        Seq::empty(),
                        flush_word(acc, group, depth, loopdepth).push(s[i]),
                        depth,
                        loopdepth,
                    )
                } else {
                    group_words_from(s, i + 1, group.push(c), acc, depth, loopdepth)
                }
            },
            None => group_words_from(
                s,
                i + 1,
                Seq::empty(),
                flush_word(acc, group, depth, loopdepth).push(s[i]),
                depth,
                loopdepth,
            ),
        }
    }
}

/// The word pass: every longest run of characters that are neither white space,
/// nor `;`, `:`, `,`, nor part of an operator becomes one `Word`.
///
/// White space is dropped. The separators and the operator characters stay as
/// they are, and so do the atoms that are no characters; each of them ends the
/// word before it.
pub open spec fn group_words(s: Seq<Atom>, depth: isize, loopdepth: isize) -> Seq<Atom> {
    group_words_from(s, 0, Seq::empty(), Seq::empty(), depth, loopdepth)
}

/// Whether an atom is a character that belongs to a word.
pub open spec fn is_word_char(a: Atom) -> bool {
    match a {
        Atom::Unknown { ch } => !is_split_char(ch) && !is_exclude_char(ch) && !is_ope_char(ch),
        _ => false,
    }
}

/// Whether an atom is white space.
pub open spec fn is_space(a: Atom) -> bool {
    match a {
        Atom::Unknown { ch } => is_split_char(ch),
        _ => false,
    }
}

/// Whether every atom of a run is white space.
pub open spec fn is_blank(s: Seq<Atom>) -> bool {
    forall|k: int| 0 <= k < s.len() ==> is_space(#[trigger] s[k])
}

/// The word pass, taken up at a position, depends on the atoms from that position on only.
pub proof fn lemma_words_suffix(
    s: Seq<Atom>,
    i: int,
    t: Seq<Atom>,
    j: int,
    group: Seq<char>,
    acc: Seq<Atom>,
    depth: isize,
    loopdepth: isize,
)
    requires
        0 <= i <= s.len(),
        0 <= j <= t.len(),
        s.skip(i) == t.skip(j),
    ensures
        group_words_from(s, i, group, acc, depth, loopdepth) == group_words_from(t, j, group, acc, depth, loopdepth),
    decreases s.len() - i,
{
    assert(s.skip(i).len() == s.len() - i);
    assert(t.skip(j).len() == t.len() - j);
    if i < s.len() {
        assert(s[i] == s.skip(i)[0]);
        assert(t[j] == t.skip(j)[0]);
        assert(s.skip(i + 1) =~= s.skip(i).skip(1));
        assert(t.skip(j + 1) =~= t.skip(j).skip(1));
        match s[i].unknown_char() {
            Some(c) => {
                if is_split_char(c) {
                    lemma_words_suffix(
                        s,
                        i + 1,
                        t,
                        j + 1,
                        Seq::empty(),
                        flush_word(acc, group, depth, loopdepth),
                        depth,
                        loopdepth,
                    );
                } else if is_exclude_char(c) || is_ope_char(c) {
                    lemma_words_suffix(
                        s,
                        i + 1,
                        t,
                        j + 1,
                        Seq::empty(),
                        flush_word(acc, group, depth, loopdepth).push(s[i]),
                        depth,
                        loopdepth,
                    );
                } else {
                    lemma_words_suffix(s, i + 1, t, j + 1, group.push(c), acc, depth, loopdepth);
                }
            },
            None => {
                lemma_words_suffix(
                    s,
                    i + 1,
                    t,
                    j + 1,
                    Seq::empty(),
                    flush_word(acc, group, depth, loopdepth).push(s[i]),
                    depth,
                    loopdepth,
                );
            },
        }
    }
}

/// White space that is put into a run at position `at` leaves the word pass,
/// taken up at a position before `at`, with the same outcome.
pub proof fn lemma_words_skip_space(
    s: Seq<Atom>,
    at: int,
    space: Atom,
    i: int,
    group: Seq<char>,
    acc: Seq<Atom>,
    depth: isize,
    loopdepth: isize,
)
    requires
        0 <= i <= at <= s.len(),
        is_space(space),
        !(0 < at < s.len() && is_word_char(s[at - 1]) && is_word_char(s[at])),
        group.len() > 0 ==> i > 0 && is_word_char(s[i - 1]),
    ensures
        group_words_from(s.insert(at, space), i, group, acc, depth, loopdepth) == group_words_from(
            s,
            i,
            group,
            acc,
            depth,
            loopdepth,
        ),
    decreases at - i,
{
    let t = s.insert(at, space);
    if i < at {
        assert(t[i] == s[i]);
        match s[i].unknown_char() {
            Some(c) => {
                if is_split_char(c) {
                    lemma_words_skip_space(
                        s,
                        at,
                        space,
                        i + 1,
                        Seq::empty(),
                        flush_word(acc, group, depth, loopdepth),
                        depth,
                        loopdepth,
                    );
                } else if is_exclude_char(c) || is_ope_char(c) {
                    lemma_words_skip_space(
                        s,
                        at,
                        space,
                        i + 1,
                        Seq::empty(),
                        flush_word(acc, group, depth, loopdepth).push(s[i]),
                        depth,
                        loopdepth,
                    );
                } else {
                    lemma_words_skip_space(s, at, space, i + 1, group.push(c), acc, depth, loopdepth);
                }
            },
            None => {
                lemma_words_skip_space(
                    s,
                    at,
                    space,
                    i + 1,
                    Seq::empty(),
                    flush_word(acc, group, depth, loopdepth).push(s[i]),
                    depth,
                    loopdepth,
                );
            },
        }
    } else {
        assert(t[at] == space);
        assert(t.skip(at + 1) =~= s.skip(at));
        let flushed = flush_word(acc, group, depth, loopdepth);
        lemma_words_suffix(t, at + 1, s, at, Seq::empty(), flushed, depth, loopdepth);
        if group.len() > 0 && at < s.len() {
            assert(!is_word_char(s[at]));
            assert(flush_word(flushed, Seq::empty(), depth, loopdepth) == flushed);
        } else if group.len() == 0 {
            assert(group =~= Seq::<char>::empty());
        }
    }
}

/// White space between tokens does not matter to the word pass: a space, a
/// tab or a line break that is put into a run anywhere but between two
/// characters of one word leaves the outcome as it was.
///
/// The word pass is where white space leaves the stream, so the passes after
/// it see the same atoms with and without the white space.
pub proof fn lemma_words_ignore_space(s: Seq<Atom>, at: int, space: Atom, depth: isize, loopdepth: isize)
    requires
        0 <= at <= s.len(),
        is_space(space),
        !(0 < at < s.len() && is_word_char(s[at - 1]) && is_word_char(s[at])),
    ensures
        group_words(s.insert(at, space), depth, loopdepth) == group_words(s, depth, loopdepth),
{
    lemma_words_skip_space(s, at, space, 0, Seq::empty(), Seq::empty(), depth, loopdepth);
}

/// A character as an unclassified atom.
pub open spec fn unknown_atom(c: char) -> Atom {
    Atom::Unknown { ch: c }
}

/// The characters of `t`, each as an unclassified atom.
pub open spec fn unknowns(t: Seq<char>) -> Seq<Atom>
    decreases t.len(),
{
    if t.len() == 0 {
        Seq::empty()
    } else {
        unknowns(t.drop_last()).push(unknown_atom(t.last()))
    }
}

/// Appending a character to a text appends its atom to the text's atoms.
pub proof fn lemma_unknowns_push(t: Seq<char>, c: char)
    ensures
        unknowns(t.push(c)) == unknowns(t).push(Atom::Unknown { ch: c }),
{
    assert(t.push(c).drop_last() =~= t);
}

/// The output with a run of operator characters closed: the operator, where
/// the run spells `ope`, and the characters of the run otherwise.
pub open spec fn close_run(acc: Seq<Atom>, group: Seq<char>, ope: Seq<char>, depth: isize) -> Seq<Atom> {
    if group == ope {
        acc.push(Atom::Ope { ope: group, depth })
    } else {
        acc + unknowns(group)
    }
}

/// The outcome of the pass for the operator `ope` from position `i` on;
/// `group` is the run of characters that is open.
pub open spec fn group_operator_from(
    s: Seq<Atom>,
    i: int,
    group: Seq<char>,
    acc: Seq<Atom>,
    ope: Seq<char>,
    depth: isize,
) -> Seq<Atom>
    decreases s.len() - i,
{
    if i < 0 || i >= s.len() {
        acc + unknowns(group)
    } else {
        match s[i].unknown_char() {
            Some(c) => {
                if group.len() + 1 < ope.len() {
                    group_operator_from(s, i + 1, group.push(c), acc, ope, depth)
                } else {
                    group_operator_from(s, i + 1, Seq::empty(), close_run(acc, group.push(c), ope, depth), ope, depth)
                }
            },
            None => group_operator_from(
                s,
                i + 1,
                Seq::empty(),
                close_run(acc, group, ope, depth).push(s[i]),
                ope,
                depth,
            ),
        }
    }
}

/// The pass for one operator: neighbouring characters are cut into runs as
/// long as `ope`, from the left, and a run that spells `ope` becomes the operator.
///
/// A run ends early at an atom that is no character, and at the end of the
/// input; the characters of a run that ends early stay characters.
pub open spec fn group_operator(s: Seq<Atom>, ope: Seq<char>, depth: isize) -> Seq<Atom> {
    group_operator_from(s, 0, Seq::empty(), Seq::empty(), ope, depth)
}

/// The outcome of the operator passes for the rows `k` and after of the operator table.
pub open spec fn group_operators_from(s: Seq<Atom>, k: int, depth: isize) -> Seq<Atom>
    decreases OPE_COUNT - k,
{
    if k < 0 || k >= OPE_COUNT {
        s
    } else {
        group_operators_from(group_operator(s, ope_lexeme(k), depth), k + 1, depth)
    }
}

/// The operator passes: one pass for each operator of the table, longer lexemes first.
pub open spec fn group_operators(s: Seq<Atom>, depth: isize) -> Seq<Atom> {
    group_operators_from(s, 0, depth)
}

/// The passes that match literals and brackets, in order: strings and
/// comments, then `{ }`, then `[ ]`, then `( )`.
///
/// The order matters: a bracket inside a string or a comment is text, and a
/// parenthesis inside a pair of braces belongs to what the braces hold.
pub open spec fn lexed(s: Seq<Atom>, depth: isize, loopdepth: isize, kind: ParserKind) -> Result<
    Seq<Atom>,
    ParserError,
> {
    match group_strings(s, depth, loopdepth, kind) {
        Err(e) => Err(e),
        Ok(s1) => match group_brackets(s1, Bracket::Brace, depth, loopdepth, kind) {
            Err(e) => Err(e),
            Ok(s2) => match group_brackets(s2, Bracket::List, depth, loopdepth, kind) {
                Err(e) => Err(e),
                Ok(s3) => group_brackets(s3, Bracket::Paren, depth, loopdepth, kind),
            },
        },
    }
}

} // verus!

//! What the word pass and the bracket passes keep of their input: nothing is
//! lost but white space and the two characters of each outermost pair of
//! brackets, and nothing changes its place. And what the chain pass makes:
//! chains of one head clause each.
use crate::abs::atom::Atom;
use crate::parser::alike::{lemma_pairs_push, pairs, Likeness};
use crate::parser::core_parser::{is_exclude_char, is_ope_char, is_split_char, is_syntax_head, ParserKind};
use crate::parser::grammar::{flush_chain, group_chains, group_chains_from};
use crate::parser::lexer::{
    flush_word, group_brackets, group_brackets_from, group_words, group_words_from, is_space, is_word_char,
    lemma_unknowns_push, regroup, unknown_atom, unknowns, Bracket,
};
use crate::parser::literals::lemma_unknowns_at;
use vstd::prelude::*;

verus! {

/// An atom without its white space and with its word spelt out: nothing for
/// a white space, the characters of a word for a `Word`, and the atom itself
/// for every other atom.
pub open spec fn spelt(a: Atom) -> Seq<Atom> {
    match a {
        Atom::Word { text, .. } => unknowns(text),
        Atom::Unknown { ch } => if is_split_char(ch) {
            Seq::empty()
        } else {
            Seq::empty().push(a)
        },
        _ => Seq::empty().push(a),
    }
}

/// A run without its white space and with its words spelt out.
pub open spec fn unspaced(s: Seq<Atom>) -> Seq<Atom>
    decreases s.len(),
{
    if s.len() == 0 {
        Seq::empty()
    } else {
        unspaced(s.drop_last()) + spelt(s.last())
    }
}

/// With one more atom, a run without its white space is longer by what that atom spells.
pub proof fn lemma_unspaced_push(s: Seq<Atom>, a: Atom)
    ensures
        unspaced(s.push(a)) == unspaced(s) + spelt(a),
{
    assert(s.push(a).drop_last() =~= s);
}

/// What the word pass, taken up at position `i`, keeps: where the output so
/// far and the open word spell the input before `i`, the outcome spells the
/// input.
pub proof fn lemma_words_spell_from(
    s: Seq<Atom>,
    i: int,
    group: Seq<char>,
    acc: Seq<Atom>,
    depth: isize,
    loopdepth: isize,
)
    requires
        0 <= i <= s.len(),
        unspaced(acc) + unknowns(group) == unspaced(s.take(i)),
    ensures
        unspaced(group_words_from(s, i, group, acc, depth, loopdepth)) == unspaced(s),
    decreases s.len() - i,
{
    let none = Seq::<char>::empty();
    let flushed = flush_word(acc, group, depth, loopdepth);
    assert(unspaced(flushed) == unspaced(acc) + unknowns(group)) by {
        if group.len() > 0 {
            lemma_unspaced_push(acc, Atom::Word { text: group, depth, loopdepth });
        } else {
            assert(unspaced(acc) + unknowns(group) =~= unspaced(acc));
        }
    }
    assert(unspaced(flushed) + unknowns(none) =~= unspaced(flushed));
    if i < s.len() {
        assert(s.take(i + 1) =~= s.take(i).push(s[i]));
        lemma_unspaced_push(s.take(i), s[i]);
        lemma_unspaced_push(flushed, s[i]);
        assert(unspaced(flushed.push(s[i])) + unknowns(none) =~= unspaced(flushed.push(s[i])));
        match s[i].unknown_char() {
            Some(c) => {
                if is_split_char(c) {
                    assert(unspaced(s.take(i)) + spelt(s[i]) =~= unspaced(s.take(i)));
                    lemma_words_spell_from(s, i + 1, none, flushed, depth, loopdepth);
                } else if is_exclude_char(c) || is_ope_char(c) {
                    lemma_words_spell_from(s, i + 1, none, flushed.push(s[i]), depth, loopdepth);
                } else {
                    lemma_unknowns_push(group, c);
                    assert(unspaced(acc) + unknowns(group).push(s[i]) =~= (unspaced(acc) + unknowns(group)) + spelt(s[i]));
                    lemma_words_spell_from(s, i + 1, group.push(c), acc, depth, loopdepth);
                }
            },
            None => {
                lemma_words_spell_from(s, i + 1, none, flushed.push(s[i]), depth, loopdepth);
            },
        }
    } else {
        assert(s.take(i) =~= s);
    }
}

/// The word pass keeps the text: the words and the atoms that it puts out
/// spell, in their order, the input without its white space. No character is
/// lost but white space, none is added, and no atom changes its place.
pub proof fn lemma_words_spell_the_input(s: Seq<Atom>, depth: isize, loopdepth: isize)
    ensures
        unspaced(group_words(s, depth, loopdepth)) == unspaced(s),
{
    let none = Seq::<Atom>::empty();
    assert(s.take(0) =~= none);
    assert(unspaced(none) + unknowns(Seq::<char>::empty()) =~= unspaced(s.take(0)));
    lemma_words_spell_from(s, 0, Seq::empty(), none, depth, loopdepth);
}

/// The position at which the run of word characters that starts at `i`
/// ends: the first position at or after `i` whose atom is no character of a
/// word, and the end of the run where there is none.
pub open spec fn word_end(s: Seq<Atom>, i: int) -> int
    decreases s.len() - i,
{
    if i < 0 || i >= s.len() {
        s.len() as int
    } else if is_word_char(s[i]) {
        word_end(s, i + 1)
    } else {
        i
    }
}

/// The characters of the atoms from position `i` up to position `j`.
pub open spec fn letters(s: Seq<Atom>, i: int, j: int) -> Seq<char>
    decreases j - i,
{
    if j <= i {
        Seq::empty()
    } else {
        letters(s, i, j - 1).push(s[j - 1]->ch)
    }
}

/// The words of a run from position `i` on, read off the run directly:
/// every longest run of word characters is one `Word`, white space is left
/// out, and every other atom stands as it is.
pub open spec fn words_from(s: Seq<Atom>, i: int, depth: isize, loopdepth: isize) -> Seq<Atom>
    decreases s.len() - i,
{
    if i < 0 || i >= s.len() {
        Seq::empty()
    } else if is_word_char(s[i]) {
        let j = word_end(s, i);
        if i < j <= s.len() {
            Seq::empty().push(Atom::Word { text: letters(s, i, j), depth, loopdepth }) + words_from(
                s,
                j,
                depth,
                loopdepth,
            )
        } else {
            Seq::empty()
        }
    } else if is_space(s[i]) {
        words_from(s, i + 1, depth, loopdepth)
    } else {
        Seq::empty().push(s[i]) + words_from(s, i + 1, depth, loopdepth)
    }
}

/// A run of word characters ends where `word_end` says, and no sooner: all
/// the atoms from `i` up to that position are characters of a word, and the
/// atom at that position, where there is one, is none.
pub proof fn lemma_word_end(s: Seq<Atom>, i: int)
    requires
        0 <= i <= s.len(),
    ensures
        i <= word_end(s, i) <= s.len(),
        forall|k: int| i <= k < word_end(s, i) ==> is_word_char(#[trigger] s[k]),
        word_end(s, i) < s.len() ==> !is_word_char(s[word_end(s, i)]),
        i < s.len() && is_word_char(s[i]) ==> i < word_end(s, i),
    decreases s.len() - i,
{
    if i < s.len() && is_word_char(s[i]) {
        lemma_word_end(s, i + 1);
    }
}

/// What the word pass, taken up at position `i` with a word open since
/// position `k`, puts out: the output so far, then the word that is open, up
/// to the end of its run, then the words of the rest.
pub proof fn lemma_words_are_runs_from(
    s: Seq<Atom>,
    i: int,
    k: int,
    group: Seq<char>,
    acc: Seq<Atom>,
    depth: isize,
    loopdepth: isize,
)
    requires
        0 <= k <= i <= s.len(),
        group == letters(s, k, i),
        group.len() == i - k,
    ensures
        group_words_from(s, i, group, acc, depth, loopdepth) == acc + (if k < i {
            Seq::empty().push(Atom::Word { text: letters(s, k, word_end(s, i)), depth, loopdepth }) + words_from(
                s,
                word_end(s, i),
                depth,
                loopdepth,
            )
        } else {
            words_from(s, i, depth, loopdepth)
        }),
    decreases s.len() - i,
{
    let none = Seq::<char>::empty();
    let flushed = flush_word(acc, group, depth, loopdepth);
    let word = Atom::Word { text: group, depth, loopdepth };
    lemma_word_end(s, i);
    if i < s.len() {
        let rest = words_from(s, i + 1, depth, loopdepth);
        match s[i].unknown_char() {
            Some(c) => {
                if is_split_char(c) {
                    lemma_words_are_runs_from(s, i + 1, i + 1, none, flushed, depth, loopdepth);
                    if k < i {
                        assert(flushed + rest =~= acc + (Seq::<Atom>::empty().push(word) + rest));
                    }
                } else if is_exclude_char(c) || is_ope_char(c) {
                    lemma_words_are_runs_from(s, i + 1, i + 1, none, flushed.push(s[i]), depth, loopdepth);
                    if k < i {
                        assert(flushed.push(s[i]) + rest =~= acc + (Seq::<Atom>::empty().push(word) + (Seq::<
                            Atom,
                        >::empty().push(s[i]) + rest)));
                    } else {
                        assert(flushed.push(s[i]) + rest =~= acc + (Seq::<Atom>::empty().push(s[i]) + rest));
                    }
                } else {
                    assert(is_word_char(s[i]));
                    lemma_word_end(s, i + 1);
                    lemma_words_are_runs_from(s, i + 1, k, group.push(c), acc, depth, loopdepth);
                }
            },
            None => {
                lemma_words_are_runs_from(s, i + 1, i + 1, none, flushed.push(s[i]), depth, loopdepth);
                if k < i {
                    assert(flushed.push(s[i]) + rest =~= acc + (Seq::<Atom>::empty().push(word) + (Seq::<
                        Atom,
                    >::empty().push(s[i]) + rest)));
                } else {
                    assert(flushed.push(s[i]) + rest =~= acc + (Seq::<Atom>::empty().push(s[i]) + rest));
                }
            },
        }
    } else {
        if k < i {
            assert(flushed =~= acc + (Seq::<Atom>::empty().push(word) + Seq::<Atom>::empty()));
        } else {
            assert(flushed =~= acc + Seq::<Atom>::empty());
        }
    }
}

/// Every word is a longest run: the word pass puts out, for every longest
/// run of neighbouring word characters of the input, one `Word` that holds
/// the characters of that run, and no other word. A word starts at the start
/// of the input or after an atom that is no word character, and ends before
/// such an atom or at the end of the input.
pub proof fn lemma_words_are_longest_runs(s: Seq<Atom>, depth: isize, loopdepth: isize)
    ensures
        group_words(s, depth, loopdepth) == words_from(s, 0, depth, loopdepth),
{
    lemma_words_are_runs_from(s, 0, 0, Seq::empty(), Seq::empty(), depth, loopdepth);
    assert(Seq::<Atom>::empty() + words_from(s, 0, depth, loopdepth) =~= words_from(s, 0, depth, loopdepth));
}

/// Whether an atom is an unparsed node for a bracket of this kind.
pub open spec fn is_node_of(bracket: Bracket, a: Atom) -> bool {
    match bracket {
        Bracket::Brace => a is Block && !a->Block_resolved,
        Bracket::List => a is ListBlock && !a->ListBlock_resolved,
        Bracket::Paren => a is ParenBlock && !a->ParenBlock_resolved,
    }
}

/// What an unparsed node for a bracket holds.
pub open spec fn held(a: Atom) -> Seq<Atom> {
    match a {
        Atom::Block { contents, .. } => contents,
        Atom::ListBlock { contents, .. } => contents,
        Atom::ParenBlock { contents, .. } => contents,
        _ => Seq::empty(),
    }
}

/// A run of atoms between the two characters of a bracket of this kind.
pub open spec fn bracketed(bracket: Bracket, contents: Seq<Atom>) -> Seq<Atom> {
    Seq::empty().push(unknown_atom(bracket.open_char())) + contents + Seq::empty().push(
        unknown_atom(bracket.close_char()),
    )
}

/// An atom with its bracket put back: what an unparsed node for a bracket
/// of this kind holds, between the two characters of the bracket, and every
/// other atom as it is.
pub open spec fn laid_open(bracket: Bracket, a: Atom) -> Seq<Atom> {
    if is_node_of(bracket, a) {
        bracketed(bracket, held(a))
    } else {
        Seq::empty().push(a)
    }
}

/// A run with the brackets of one kind put back around what its nodes hold.
pub open spec fn all_laid_open(bracket: Bracket, s: Seq<Atom>) -> Seq<Atom>
    decreases s.len(),
{
    if s.len() == 0 {
        Seq::empty()
    } else {
        all_laid_open(bracket, s.drop_last()) + laid_open(bracket, s.last())
    }
}

/// With one more atom, a run with its brackets put back is longer by that atom with its bracket put back.
pub proof fn lemma_laid_open_push(bracket: Bracket, s: Seq<Atom>, a: Atom)
    ensures
        all_laid_open(bracket, s.push(a)) == all_laid_open(bracket, s) + laid_open(bracket, a),
{
    assert(s.push(a).drop_last() =~= s);
}

/// Whether no atom of a run is an unparsed node for a bracket of this kind.
pub open spec fn holds_no_node_of(bracket: Bracket, s: Seq<Atom>) -> bool {
    forall|j: int| 0 <= j < s.len() ==> !is_node_of(bracket, #[trigger] s[j])
}

/// Whether every atom of a run that can stand inside a bracket carries the
/// depth and the loop depth of the parser already.
pub open spec fn is_stamped(s: Seq<Atom>, depth: isize, loopdepth: isize) -> bool {
    forall|j: int|
        0 <= j < s.len() && regroup(#[trigger] s[j], depth, loopdepth) is Some ==> regroup(s[j], depth, loopdepth)
            == Some(s[j])
}

/// The relation of an atom of the outcome to the atom of the input that it
/// is: the same atom, or that atom with the depth and the loop depth of the
/// parser, which an atom gets when it is taken into a bracket.
pub open spec fn taken_in(depth: isize, loopdepth: isize) -> Likeness {
    |x: Atom, y: Atom| x == y || regroup(y, depth, loopdepth) == Some(x)
}

/// The open bracket as it stood in the input: nothing where none is open,
/// and the opening character with what was collected since otherwise.
pub open spec fn open_part(bracket: Bracket, level: nat, group: Seq<Atom>) -> Seq<Atom> {
    if level == 0 {
        Seq::empty()
    } else {
        Seq::empty().push(unknown_atom(bracket.open_char())) + group
    }
}

/// What a bracket pass, taken up at position `i`, keeps: where the output so
/// far, with its brackets put back, and the open bracket are the input before
/// `i`, atom by atom, the outcome with its brackets put back is the input, atom
/// by atom.
pub proof fn lemma_brackets_keep_from(
    s: Seq<Atom>,
    i: int,
    level: nat,
    group: Seq<Atom>,
    acc: Seq<Atom>,
    bracket: Bracket,
    depth: isize,
    loopdepth: isize,
    kind: ParserKind,
)
    requires
        0 <= i <= s.len(),
        holds_no_node_of(bracket, s),
        level == 0 ==> group.len() == 0,
        pairs(all_laid_open(bracket, acc) + open_part(bracket, level, group), s.take(i), taken_in(depth, loopdepth)),
        group_brackets_from(s, i, level, group, acc, bracket, depth, loopdepth, kind) is Ok,
    ensures
        pairs(
            all_laid_open(bracket, group_brackets_from(s, i, level, group, acc, bracket, depth, loopdepth, kind)->Ok_0),
            s,
            taken_in(depth, loopdepth),
        ),
    decreases s.len() - i,
{
    let none = Seq::<Atom>::empty();
    let r = taken_in(depth, loopdepth);
    let before = all_laid_open(bracket, acc);
    let sofar = before + open_part(bracket, level, group);
    if i < s.len() {
        assert(s.take(i + 1) =~= s.take(i).push(s[i]));
        assert(!is_node_of(bracket, s[i]));
        assert(r(s[i], s[i]));
        if s[i].is_char(bracket.open_char()) {
            lemma_pairs_push(sofar, s.take(i), s[i], s[i], r);
            if level == 0 {
                assert(before + open_part(bracket, 1, group) =~= sofar.push(s[i]));
                lemma_brackets_keep_from(s, i + 1, 1, group, acc, bracket, depth, loopdepth, kind);
            } else {
                assert(before + open_part(bracket, level + 1, group.push(s[i])) =~= sofar.push(s[i]));
                lemma_brackets_keep_from(s, i + 1, level + 1, group.push(s[i]), acc, bracket, depth, loopdepth, kind);
            }
        } else if s[i].is_char(bracket.close_char()) {
            lemma_pairs_push(sofar, s.take(i), s[i], s[i], r);
            if level == 1 {
                let node = bracket.enclose(group, depth, loopdepth);
                lemma_laid_open_push(bracket, acc, node);
                assert(is_node_of(bracket, node));
                assert(held(node) == group);
                assert(all_laid_open(bracket, acc.push(node)) + open_part(bracket, 0, none) =~= sofar.push(s[i]));
                lemma_brackets_keep_from(s, i + 1, 0, none, acc.push(node), bracket, depth, loopdepth, kind);
            } else if level > 1 {
                assert(before + open_part(bracket, (level - 1) as nat, group.push(s[i])) =~= sofar.push(s[i]));
                lemma_brackets_keep_from(
                    s,
                    i + 1,
                    (level - 1) as nat,
                    group.push(s[i]),
                    acc,
                    bracket,
                    depth,
                    loopdepth,
                    kind,
                );
            }
        } else if level == 0 {
            lemma_pairs_push(sofar, s.take(i), s[i], s[i], r);
            lemma_laid_open_push(bracket, acc, s[i]);
            assert(all_laid_open(bracket, acc.push(s[i])) + open_part(bracket, level, group) =~= sofar.push(s[i]));
            lemma_brackets_keep_from(s, i + 1, level, group, acc.push(s[i]), bracket, depth, loopdepth, kind);
        } else {
            match regroup(s[i], depth, loopdepth) {
                Some(a) => {
                    assert(r(a, s[i]));
                    lemma_pairs_push(sofar, s.take(i), a, s[i], r);
                    assert(before + open_part(bracket, level, group.push(a)) =~= sofar.push(a));
                    lemma_brackets_keep_from(s, i + 1, level, group.push(a), acc, bracket, depth, loopdepth, kind);
                },
                None => {},
            }
        }
    } else {
        assert(s.take(i) =~= s);
        assert(sofar =~= before);
    }
}

/// A bracket pass keeps the input: each node that the pass makes holds
/// exactly what stood between its two brackets, nested pairs of the same kind
/// included, and the atoms outside every pair stand in the outcome as they
/// were and in their order. Nothing is lost but the two characters of each
/// outermost pair: with these put back around what the nodes hold, the outcome
/// is the input, atom by atom, where an atom that was taken into a bracket
/// carries the depth and the loop depth of the parser.
///
/// The input holds no unparsed node for a bracket of this kind: with its
/// brackets put back, such a node could not be told from one that the pass
/// has made.
pub proof fn lemma_brackets_keep_the_input(
    s: Seq<Atom>,
    bracket: Bracket,
    depth: isize,
    loopdepth: isize,
    kind: ParserKind,
)
    requires
        holds_no_node_of(bracket, s),
        group_brackets(s, bracket, depth, loopdepth, kind) is Ok,
    ensures
        pairs(
            all_laid_open(bracket, group_brackets(s, bracket, depth, loopdepth, kind)->Ok_0),
            s,
            taken_in(depth, loopdepth),
        ),
{
    let none = Seq::<Atom>::empty();
    assert(s.take(0) =~= none);
    assert(all_laid_open(bracket, none) + open_part(bracket, 0, none) =~= none);
    lemma_brackets_keep_from(s, 0, 0, none, none, bracket, depth, loopdepth, kind);
}

/// A bracket pass over atoms that carry the depth and the loop depth of the
/// parser already keeps them as they are: with the brackets put back around
/// what its nodes hold, the outcome is the input.
pub proof fn lemma_brackets_hold_the_input(
    s: Seq<Atom>,
    bracket: Bracket,
    depth: isize,
    loopdepth: isize,
    kind: ParserKind,
)
    requires
        holds_no_node_of(bracket, s),
        is_stamped(s, depth, loopdepth),
        group_brackets(s, bracket, depth, loopdepth, kind) is Ok,
    ensures
        all_laid_open(bracket, group_brackets(s, bracket, depth, loopdepth, kind)->Ok_0) == s,
{
    let t = all_laid_open(bracket, group_brackets(s, bracket, depth, loopdepth, kind)->Ok_0);
    lemma_brackets_keep_the_input(s, bracket, depth, loopdepth, kind);
    assert forall|j: int| 0 <= j < s.len() implies t[j] == s[j] by {
        assert(taken_in(depth, loopdepth)(t[j], s[j]));
    }
    assert(t =~= s);
}

/// A bracket pass over source text keeps the text: with the brackets put
/// back around what its nodes hold, the outcome is the text, character by
/// character.
pub proof fn lemma_brackets_hold_the_text(
    text: Seq<char>,
    bracket: Bracket,
    depth: isize,
    loopdepth: isize,
    kind: ParserKind,
)
    requires
        group_brackets(unknowns(text), bracket, depth, loopdepth, kind) is Ok,
    ensures
        all_laid_open(bracket, group_brackets(unknowns(text), bracket, depth, loopdepth, kind)->Ok_0) == unknowns(
            text,
        ),
{
    let s = unknowns(text);
    lemma_unknowns_at(text);
    assert forall|j: int| 0 <= j < s.len() implies !is_node_of(bracket, #[trigger] s[j]) && regroup(
        s[j],
        depth,
        loopdepth,
    ) == Some(s[j]) by {
        assert(s[j] == unknown_atom(text[j]));
    }
    lemma_brackets_hold_the_input(s, bracket, depth, loopdepth, kind);
}

/// Whether a run of clauses is what an open chain of this name holds: a
/// head clause of this name first, and `elif` clauses after it.
pub open spec fn is_open_chain(name: Seq<char>, group: Seq<Atom>) -> bool {
    group.len() > 0 ==> {
        &&& group[0] is Syntax
        &&& group[0]->Syntax_name == name
        &&& is_syntax_head(name)
        &&& forall|j: int| 0 < j < group.len() ==> (#[trigger] group[j]) is Syntax && group[j]->Syntax_name == "elif"@
    }
}

/// Whether an atom, where it is a chain, is a chain as the chain pass makes
/// it: it starts with a head clause, `if`, `while`, `for` or `loop`, whose
/// name is the name of the chain; every clause after that is an `elif` but
/// the last, which may be an `else`.
pub open spec fn is_chain(a: Atom) -> bool {
    match a {
        Atom::SyntaxBox { name, contents, .. } => {
            &&& contents.len() > 0
            &&& contents[0] is Syntax
            &&& contents[0]->Syntax_name == name
            &&& is_syntax_head(name)
            &&& forall|j: int|
                0 < j < contents.len() ==> (#[trigger] contents[j]) is Syntax && (contents[j]->Syntax_name == "elif"@
                    || (j == contents.len() - 1 && contents[j]->Syntax_name == "else"@))
        },
        _ => true,
    }
}

/// What the chain pass, taken up at position `i`, makes: where the chains
/// so far are chains and the open chain is one, every chain of the outcome is
/// a chain.
pub proof fn lemma_chains_are_chains_from(
    s: Seq<Atom>,
    i: int,
    name: Seq<char>,
    group: Seq<Atom>,
    acc: Seq<Atom>,
    depth: isize,
    loopdepth: isize,
)
    requires
        0 <= i <= s.len(),
        forall|j: int| 0 <= j < s.len() ==> is_chain(#[trigger] s[j]),
        forall|j: int| 0 <= j < acc.len() ==> is_chain(#[trigger] acc[j]),
        is_open_chain(name, group),
        group_chains_from(s, i, name, group, acc, depth, loopdepth) is Ok,
    ensures
        forall|j: int|
            0 <= j < group_chains_from(s, i, name, group, acc, depth, loopdepth)->Ok_0.len() ==> is_chain(
                #[trigger] group_chains_from(s, i, name, group, acc, depth, loopdepth)->Ok_0[j],
            ),
    decreases s.len() - i,
{
    let none = Seq::<Atom>::empty();
    let chain = Atom::SyntaxBox { name, contents: group, depth, loopdepth };
    let flushed = flush_chain(acc, name, group, depth, loopdepth);
    assert forall|j: int| 0 <= j < flushed.len() implies is_chain(#[trigger] flushed[j]) by {
        if j < acc.len() {
            assert(flushed[j] == acc[j]);
        } else {
            assert(flushed[j] == chain);
            assert(is_chain(chain));
        }
    }
    if i < s.len() {
        assert(is_chain(s[i]));
        match s[i] {
            Atom::Syntax { name: n, .. } => {
                if is_syntax_head(n) {
                    lemma_chains_are_chains_from(s, i + 1, n, none.push(s[i]), flushed, depth, loopdepth);
                } else if n == "elif"@ {
                    if group.len() > 0 {
                        let longer = group.push(s[i]);
                        assert(is_open_chain(name, longer)) by {
                            assert(longer[0] == group[0]);
                            assert forall|j: int| 0 < j < longer.len() implies (#[trigger] longer[j]) is Syntax
                                && longer[j]->Syntax_name == "elif"@ by {
                                if j < group.len() {
                                    assert(longer[j] == group[j]);
                                }
                            }
                        }
                        lemma_chains_are_chains_from(s, i + 1, name, longer, acc, depth, loopdepth);
                    }
                } else if n == "else"@ {
                    if group.len() > 0 {
                        let whole = group.push(s[i]);
                        let closed = Atom::SyntaxBox { name, contents: whole, depth, loopdepth };
                        assert(is_chain(closed)) by {
                            assert(whole[0] == group[0]);
                            assert forall|j: int| 0 < j < whole.len() implies (#[trigger] whole[j]) is Syntax && (
                            whole[j]->Syntax_name == "elif"@ || (j == whole.len() - 1 && whole[j]->Syntax_name
                                == "else"@)) by {
                                if j < group.len() {
                                    assert(whole[j] == group[j]);
                                }
                            }
                        }
                        let next = acc.push(closed);
                        assert forall|j: int| 0 <= j < next.len() implies is_chain(#[trigger] next[j]) by {
                            if j < acc.len() {
                                assert(next[j] == acc[j]);
                            }
                        }
                        lemma_chains_are_chains_from(s, i + 1, Seq::empty(), none, next, depth, loopdepth);
                    }
                } else {
                    let next = acc.push(s[i]);
                    assert forall|j: int| 0 <= j < next.len() implies is_chain(#[trigger] next[j]) by {
                        if j < acc.len() {
                            assert(next[j] == acc[j]);
                        }
                    }
                    lemma_chains_are_chains_from(s, i + 1, name, group, next, depth, loopdepth);
                }
            },
            _ => {
                let next = flushed.push(s[i]);
                assert forall|j: int| 0 <= j < next.len() implies is_chain(#[trigger] next[j]) by {
                    if j < flushed.len() {
                        assert(next[j] == flushed[j]);
                    }
                }
                let nm = if group.len() > 0 {
                    Seq::<char>::empty()
                } else {
                    name
                };
                lemma_chains_are_chains_from(s, i + 1, nm, none, next, depth, loopdepth);
            },
        }
    }
}

/// Every chain that the chain pass makes starts with a head clause and
/// carries the name of that clause; after the head stand `elif` clauses, and
/// an `else` clause can stand at the end only, so a chain holds one `else` at
/// most.
pub proof fn lemma_chains_are_chains(s: Seq<Atom>, depth: isize, loopdepth: isize)
    requires
        forall|j: int| 0 <= j < s.len() ==> is_chain(#[trigger] s[j]),
        group_chains(s, depth, loopdepth) is Ok,
    ensures
        forall|j: int|
            0 <= j < group_chains(s, depth, loopdepth)->Ok_0.len() ==> is_chain(
                #[trigger] group_chains(s, depth, loopdepth)->Ok_0[j],
            ),
{
    lemma_chains_are_chains_from(s, 0, Seq::empty(), Seq::empty(), Seq::empty(), depth, loopdepth);
}

} // verus!

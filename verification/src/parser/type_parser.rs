//! The parser of type annotations. It groups angle brackets and does no more yet.
use crate::abs::ast::{clone_type, lemma_types_view_empty, lemma_types_view_push, types_view, TypeElem};
use crate::abs::atom::TypeAtom;
use crate::errors::parser_errors::ParserError;
use crate::token::ttype::type_block::TypeBlockBranch;
use vstd::prelude::*;

verus! {

/// Parses a run of atoms of a type annotation.
#[derive(Debug)]
pub struct TypeParser {
    pub code: String,
    pub code_list: Vec<TypeElem>,
    pub depth: isize,
    pub loopdepth: isize,
}

/// The outcome of the angle bracket pass from position `i` on.
///
/// `level` counts the angle brackets that are open, `group` holds the content
/// of the outermost one, `acc` the output so far.
pub open spec fn group_angles_from(
    s: Seq<TypeAtom>,
    i: int,
    level: nat,
    group: Seq<TypeAtom>,
    acc: Seq<TypeAtom>,
    depth: isize,
) -> Result<Seq<TypeAtom>, ParserError>
    decreases s.len() - i,
{
    if i < 0 || i >= s.len() {
        if level != 0 {
            Err(ParserError::BraceNotClosed)
        } else {
            Ok(acc)
        }
    } else if s[i].is_char('<') {
        group_angles_from(
            s,
            i + 1,
            level + 1,
            if level == 0 {
                group
            } else {
                group.push(s[i])
            },
            acc,
            depth,
        )
    } else if s[i].is_char('>') {
        if level == 0 {
            Err(ParserError::BraceNotOpened)
        } else if level == 1 {
            group_angles_from(
                s,
                i + 1,
                0,
                Seq::empty(),
                acc.push(TypeAtom::TypeBlock { code_list: group, depth }),
                depth,
            )
        } else {
            group_angles_from(s, i + 1, (level - 1) as nat, group.push(s[i]), acc, depth)
        }
    } else if level == 0 {
        group_angles_from(s, i + 1, level, group, acc.push(s[i]), depth)
    } else {
        group_angles_from(s, i + 1, level, group.push(s[i]), acc, depth)
    }
}

/// The angle bracket pass: every matched pair of `<` and `>` at the top
/// level becomes one node that holds what stood between the two.
pub open spec fn group_angles(s: Seq<TypeAtom>, depth: isize) -> Result<Seq<TypeAtom>, ParserError> {
    group_angles_from(s, 0, 0, Seq::empty(), Seq::empty(), depth)
}

/// The trees of the outcome of a pass over nodes of a type annotation.
pub open spec fn types_outcome(r: Result<Vec<TypeElem>, ParserError>) -> Result<Seq<TypeAtom>, ParserError> {
    match r {
        Ok(v) => Ok(types_view(v@)),
        Err(e) => Err(e),
    }
}

/// Whether a node is the unclassified character `c`.
pub fn is_unknown_type_char(e: &TypeElem, c: char) -> (r: bool)
    ensures
        r == e@.is_char(c),
{
    match e {
        TypeElem::UnKnownElem(u) => u.contents == c,
        _ => false,
    }
}

impl TypeParser {
    /// The angle bracket pass.
    pub fn grouping_elements(list: &Vec<TypeElem>, depth: isize) -> (r: Result<Vec<TypeElem>, ParserError>)
        ensures
            types_outcome(r) == group_angles(types_view(list@), depth),
    {
        broadcast use lemma_types_view_push, lemma_types_view_empty;

        let ghost input = types_view(list@);
        let mut rlist: Vec<TypeElem> = Vec::new();
        let mut group: Vec<TypeElem> = Vec::new();
        let mut level: usize = 0;
        let mut i: usize = 0;
        while i < list.len()
            invariant
                i <= list.len(),
                level <= i,
                input == types_view(list@),
                group_angles_from(input, i as int, level as nat, types_view(group@), types_view(rlist@), depth)
                    == group_angles(input, depth),
            decreases list.len() - i,
        {
            let ghost before = types_view(rlist@);
            let ghost inner = types_view(group@);
            assert(input[i as int] == list[i as int]@);
            let item = &list[i];
            if is_unknown_type_char(item, '<') {
                if level > 0 {
                    group.push(clone_type(item));
                    assert(types_view(group@) == inner.push(input[i as int]));
                }
                level += 1;
            } else if is_unknown_type_char(item, '>') {
                if level == 0 {
                    return Err(ParserError::BraceNotOpened);
                } else if level == 1 {
                    rlist.push(TypeElem::TypeBlockElem(TypeBlockBranch { code_list: group, depth }));
                    assert(types_view(rlist@) == before.push(TypeAtom::TypeBlock { code_list: inner, depth }));
                    group = Vec::new();
                    assert(types_view(group@) =~= Seq::<TypeAtom>::empty());
                    level = 0;
                } else {
                    group.push(clone_type(item));
                    assert(types_view(group@) == inner.push(input[i as int]));
                    level -= 1;
                }
            } else if level == 0 {
                rlist.push(clone_type(item));
                assert(types_view(rlist@) == before.push(input[i as int]));
            } else {
                group.push(clone_type(item));
                assert(types_view(group@) == inner.push(input[i as int]));
            }
            i += 1;
        }
        if level != 0 {
            Err(ParserError::BraceNotClosed)
        } else {
            Ok(rlist)
        }
    }

    /// Runs the angle bracket pass over the parser's atoms and keeps the outcome.
    ///
    /// On an error the parser is left as it was.
    pub fn code2vec(&mut self) -> (r: Result<(), ParserError>)
        ensures
            final(self).code == old(self).code,
            final(self).depth == old(self).depth,
            final(self).loopdepth == old(self).loopdepth,
            match r {
                Ok(()) => Ok::<Seq<TypeAtom>, ParserError>(types_view(final(self).code_list@)) == group_angles(
                    types_view(old(self).code_list@),
                    old(self).depth,
                ),
                Err(e) => final(self).code_list == old(self).code_list && Err::<Seq<TypeAtom>, ParserError>(e)
                    == group_angles(types_view(old(self).code_list@), old(self).depth),
            },
    {
        match Self::grouping_elements(&self.code_list, self.depth) {
            Ok(v) => {
                self.code_list = v;
                Ok(())
            },
            Err(e) => Err(e),
        }
    }
}

} // verus!

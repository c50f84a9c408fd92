use crate::abs::atom::{Atom, TypeAtom};
use crate::errors::parser_errors::ParserError;
use crate::parser::core_parser::MAX_NESTING;
use crate::parser::lexer::regroup;
use crate::resolve::{resolve_atom, resolve_expr, resolve_stmt};
use crate::show::{show, show_expr, show_stmt};
use crate::token::block::BlockBranch;
use crate::token::comment::CommentBranch;
use crate::token::func::FuncBranch;
use crate::token::item::ItemBranch;
use crate::token::list::ListBranch;
use crate::token::list_block::ListBlockBranch;
use crate::token::operator::OperatorBranch;
use crate::token::paren_block::ParenBlockBranch;
use crate::token::stmt::expr::ExprBranch;
use crate::token::stmt::stmt::StmtBranch;
use crate::token::string::StringBranch;
use crate::token::syntax::SyntaxBranch;
use crate::token::syntax_box::SyntaxBoxBranch;
use crate::token::ttype::primitive::PrimitiveBranch;
use crate::token::ttype::type_block::TypeBlockBranch;
use crate::token::unknown::UnKnownBranch;
use crate::token::word::WordBranch;
use vstd::prelude::*;

verus! {

/// A node at the expression level.
#[derive(Debug)]
pub enum ExprElem {
    BlockElem(BlockBranch),
    ListBlockElem(ListBlockBranch),
    ParenBlockElem(ParenBlockBranch),
    SyntaxElem(SyntaxBranch),
    SyntaxBoxElem(SyntaxBoxBranch),
    FuncElem(FuncBranch),
    ListElem(ListBranch),
    ItemElem(ItemBranch),
    CommentElem(CommentBranch),
    StringElem(StringBranch),
    WordElem(WordBranch),
    OpeElem(OperatorBranch),
    UnKnownElem(UnKnownBranch),
}

/// A node at the statement level.
#[derive(Debug)]
pub enum StmtElem {
    BlockElem(BlockBranch),
    ListBlockElem(ListBlockBranch),
    ParenBlockElem(ParenBlockBranch),
    ExprElem(ExprBranch),
    Special(StmtBranch),
    StringElem(StringBranch),
    WordElem(WordBranch),
    OpeElem(OperatorBranch),
    CommentElem(CommentBranch),
    UnKnownElem(UnKnownBranch),
}

/// A node of a type annotation.
#[derive(Debug)]
pub enum TypeElem {
    PrimitiveElem(PrimitiveBranch),
    TypeBlockElem(TypeBlockBranch),
    UnKnownElem(UnKnownBranch),
}

/// What a bracket node of a type annotation offers: it is made from the
/// types that stood between the brackets.
pub trait TypeAreaBranch: Sized {
    /// The node that holds `contents`.
    fn new(contents: Vec<TypeElem>, depth: isize) -> Self;
}

/// The tree that a node of a type annotation stands for.
pub open spec fn type_view(e: TypeElem) -> TypeAtom
    decreases e,
{
    match e {
        TypeElem::PrimitiveElem(b) => TypeAtom::Primitive {
            primitive_type: b.primitive_type,
            depth: b.depth,
            loopdepth: b.loopdepth,
        },
        TypeElem::TypeBlockElem(b) => TypeAtom::TypeBlock { code_list: types_view(b.code_list@), depth: b.depth },
        TypeElem::UnKnownElem(b) => TypeAtom::Unknown { ch: b.contents },
    }
}

/// The trees that a run of nodes of a type annotation stands for, in order.
pub open spec fn types_view(s: Seq<TypeElem>) -> Seq<TypeAtom>
    decreases s,
{
    Seq::new(
        s.len(),
        |i: int|
            if 0 <= i < s.len() {
                type_view(s[i])
            } else {
                TypeAtom::Unknown { ch: ' ' }
            },
    )
}

impl View for TypeElem {
    type V = TypeAtom;

    open spec fn view(&self) -> TypeAtom {
        type_view(*self)
    }
}

impl View for TypeBlockBranch {
    type V = TypeAtom;

    open spec fn view(&self) -> TypeAtom {
        type_view(TypeElem::TypeBlockElem(*self))
    }
}

/// Appending a node to a run appends its tree to the run's trees.
pub broadcast proof fn lemma_types_view_push(s: Seq<TypeElem>, e: TypeElem)
    ensures
        #[trigger] types_view(s.push(e)) == types_view(s).push(type_view(e)),
{
    assert(types_view(s.push(e)) =~= types_view(s).push(type_view(e)));
}

/// An empty run stands for no trees.
pub broadcast proof fn lemma_types_view_empty(s: Seq<TypeElem>)
    requires
        s.len() == 0,
    ensures
        #[trigger] types_view(s) == Seq::<TypeAtom>::empty(),
{
    assert(types_view(s) =~= Seq::<TypeAtom>::empty());
}

/// A copy of a node of a type annotation.
pub fn clone_type(e: &TypeElem) -> (r: TypeElem)
    ensures
        r@ == e@,
    decreases e,
{
    match e {
        TypeElem::PrimitiveElem(b) => TypeElem::PrimitiveElem(*b),
        TypeElem::TypeBlockElem(b) => TypeElem::TypeBlockElem(
            TypeBlockBranch { code_list: clone_types(&b.code_list), depth: b.depth },
        ),
        TypeElem::UnKnownElem(b) => TypeElem::UnKnownElem(*b),
    }
}

/// A copy of a run of nodes of a type annotation.
pub fn clone_types(v: &Vec<TypeElem>) -> (r: Vec<TypeElem>)
    ensures
        types_view(r@) == types_view(v@),
    decreases v,
{
    broadcast use lemma_types_view_push, lemma_types_view_empty;

    let mut out: Vec<TypeElem> = Vec::new();
    let mut i: usize = 0;
    while i < v.len()
        invariant
            i <= v.len(),
            types_view(out@) == types_view(v@).take(i as int),
        decreases v.len() - i,
    {
        let e = clone_type(&v[i]);
        out.push(e);
        i += 1;
        assert(types_view(v@).take(i as int) =~= types_view(v@).take(i - 1).push(type_view(v@[i - 1])));
    }
    assert(types_view(v@).take(v.len() as int) =~= types_view(v@));
    out
}

/// The `< ... >` that holds `contents`.
pub fn new_type_block(contents: Vec<TypeElem>, depth: isize) -> (r: TypeBlockBranch)
    ensures
        r@ == (TypeAtom::TypeBlock { code_list: types_view(contents@), depth }),
{
    TypeBlockBranch { code_list: contents, depth }
}

impl TypeAreaBranch for TypeBlockBranch {
    fn new(contents: Vec<TypeElem>, depth: isize) -> (r: Self)
        ensures
            r@ == (TypeAtom::TypeBlock { code_list: types_view(contents@), depth }),
    {
        new_type_block(contents, depth)
    }
}

impl Clone for TypeElem {
    fn clone(&self) -> (r: Self)
        ensures
            r@ == self@,
    {
        clone_type(self)
    }
}

/// The tree that an expression node stands for.
pub open spec fn expr_view(e: ExprElem) -> Atom
    decreases e,
{
    match e {
        ExprElem::BlockElem(b) => Atom::Block {
            contents: stmts_view(b.contents@),
            depth: b.depth,
            loopdepth: b.loopdepth,
            resolved: b.resolved,
        },
        ExprElem::ListBlockElem(b) => Atom::ListBlock {
            contents: exprs_view(b.contents@),
            depth: b.depth,
            loopdepth: b.loopdepth,
            resolved: b.resolved,
        },
        ExprElem::ParenBlockElem(b) => Atom::ParenBlock {
            contents: exprs_view(b.contents@),
            depth: b.depth,
            loopdepth: b.loopdepth,
            resolved: b.resolved,
        },
        ExprElem::SyntaxElem(b) => Atom::Syntax {
            name: b.name@,
            expr: exprs_view(b.expr@),
            contents: stmts_view(b.contents@),
            depth: b.depth,
            loopdepth: b.loopdepth,
            resolved: b.resolved,
        },
        ExprElem::SyntaxBoxElem(b) => Atom::SyntaxBox {
            name: b.name@,
            contents: syntaxes_view(b.contents@),
            depth: b.depth,
            loopdepth: b.loopdepth,
        },
        ExprElem::FuncElem(b) => Atom::Func {
            callee: Box::new(expr_view(*b.name)),
            contents: exprs_view(b.contents@),
            depth: b.depth,
            loopdepth: b.loopdepth,
            resolved: b.resolved,
        },
        ExprElem::ListElem(b) => Atom::List {
            callee: Box::new(expr_view(*b.name)),
            contents: exprs_view(b.contents@),
            depth: b.depth,
            loopdepth: b.loopdepth,
            resolved: b.resolved,
        },
        ExprElem::ItemElem(b) => Atom::Item {
            contents: exprs_view(b.contents@),
            depth: b.depth,
            loopdepth: b.loopdepth,
            resolved: b.resolved,
        },
        ExprElem::CommentElem(b) => Atom::Comment { text: b.contents@, depth: b.depth, loopdepth: b.loopdepth },
        ExprElem::StringElem(b) => Atom::Str { text: b.contents@, depth: b.depth, loopdepth: b.loopdepth },
        ExprElem::WordElem(b) => Atom::Word { text: b.contents@, depth: b.depth, loopdepth: b.loopdepth },
        ExprElem::OpeElem(b) => Atom::Ope { ope: b.ope@, depth: b.depth },
        ExprElem::UnKnownElem(b) => Atom::Unknown { ch: b.contents },
    }
}

/// The trees that a run of expression nodes stands for, in order.
pub open spec fn exprs_view(s: Seq<ExprElem>) -> Seq<Atom>
    decreases s,
{
    Seq::new(
        s.len(),
        |i: int|
            if 0 <= i < s.len() {
                expr_view(s[i])
            } else {
                Atom::Unknown { ch: ' ' }
            },
    )
}

/// The tree that a statement node stands for.
pub open spec fn stmt_view(e: StmtElem) -> Atom
    decreases e,
{
    match e {
        StmtElem::BlockElem(b) => Atom::Block {
            contents: stmts_view(b.contents@),
            depth: b.depth,
            loopdepth: b.loopdepth,
            resolved: b.resolved,
        },
        StmtElem::ListBlockElem(b) => Atom::ListBlock {
            contents: exprs_view(b.contents@),
            depth: b.depth,
            loopdepth: b.loopdepth,
            resolved: b.resolved,
        },
        StmtElem::ParenBlockElem(b) => Atom::ParenBlock {
            contents: exprs_view(b.contents@),
            depth: b.depth,
            loopdepth: b.loopdepth,
            resolved: b.resolved,
        },
        StmtElem::ExprElem(b) => Atom::Expr {
            code_list: exprs_view(b.code_list@),
            depth: b.depth,
            loopdepth: b.loopdepth,
            resolved: b.resolved,
        },
        StmtElem::Special(b) => Atom::Special {
            head: b.head@,
            code_list: exprs_view(b.code_list@),
            depth: b.depth,
            loopdepth: b.loopdepth,
            resolved: b.resolved,
        },
        StmtElem::StringElem(b) => Atom::Str { text: b.contents@, depth: b.depth, loopdepth: b.loopdepth },
        StmtElem::WordElem(b) => Atom::Word { text: b.contents@, depth: b.depth, loopdepth: b.loopdepth },
        StmtElem::OpeElem(b) => Atom::Ope { ope: b.ope@, depth: b.depth },
        StmtElem::CommentElem(b) => Atom::Comment { text: b.contents@, depth: b.depth, loopdepth: b.loopdepth },
        StmtElem::UnKnownElem(b) => Atom::Unknown { ch: b.contents },
    }
}

/// The trees that a run of statement nodes stands for, in order.
pub open spec fn stmts_view(s: Seq<StmtElem>) -> Seq<Atom>
    decreases s,
{
    Seq::new(
        s.len(),
        |i: int|
            if 0 <= i < s.len() {
                stmt_view(s[i])
            } else {
                Atom::Unknown { ch: ' ' }
            },
    )
}

/// The tree that a `{ ... }` node stands for.
pub open spec fn block_view(b: BlockBranch) -> Atom {
    Atom::Block {
        contents: stmts_view(b.contents@),
        depth: b.depth,
        loopdepth: b.loopdepth,
        resolved: b.resolved,
    }
}

/// The tree that a `[ ... ]` node stands for.
pub open spec fn list_block_view(b: ListBlockBranch) -> Atom {
    Atom::ListBlock {
        contents: exprs_view(b.contents@),
        depth: b.depth,
        loopdepth: b.loopdepth,
        resolved: b.resolved,
    }
}

/// The tree that a `( ... )` node stands for.
pub open spec fn paren_block_view(b: ParenBlockBranch) -> Atom {
    Atom::ParenBlock {
        contents: exprs_view(b.contents@),
        depth: b.depth,
        loopdepth: b.loopdepth,
        resolved: b.resolved,
    }
}

/// The tree that a control clause stands for.
pub open spec fn syntax_view(b: SyntaxBranch) -> Atom
    decreases b,
{
    Atom::Syntax {
        name: b.name@,
        expr: exprs_view(b.expr@),
        contents: stmts_view(b.contents@),
        depth: b.depth,
        loopdepth: b.loopdepth,
        resolved: b.resolved,
    }
}

/// The trees that a run of control clauses stands for, in order.
pub open spec fn syntaxes_view(s: Seq<SyntaxBranch>) -> Seq<Atom>
    decreases s,
{
    Seq::new(
        s.len(),
        |i: int|
            if 0 <= i < s.len() {
                syntax_view(s[i])
            } else {
                Atom::Unknown { ch: ' ' }
            },
    )
}

/// What every node offers, whatever its level.
pub trait Token: Sized {
    /// The node for a character that no pass has classified yet.
    fn set_char_as_unknown(c: char) -> Self;

    /// Resolves the node in place; on an error the node is left as it was.
    fn resolve_self(&mut self) -> Result<(), ParserError>;

    /// The text dump of the node.
    fn get_show_as_string(&self) -> String;
}

/// What every kind of node offers.
pub trait ASTBranch {
    /// The text dump of the node.
    fn get_show_as_string(&self) -> String;
}

/// What a composite node offers: its deferred content can be resolved.
pub trait RecursiveAnalysisElements: Sized {
    /// Resolves the node in place; on an error the node is left as it was.
    fn resolve_self(&mut self) -> Result<(), ParserError>;
}

/// What a bracket node offers: it is made from the run that stood between the brackets.
pub trait ASTAreaBranch<T>: Sized {
    /// The unresolved node that holds `contents`.
    fn new(contents: Vec<T>, depth: isize, loopdepth: isize) -> Self;
}

/// How a node is made from what a bracket pass has collected.
pub trait ProcToken: Sized {
    /// A string literal.
    fn t_string(contents: String, depth: isize, loopdepth: isize) -> Self;

    /// An unresolved `{ ... }`.
    fn t_block(contents: Vec<StmtElem>, depth: isize, loopdepth: isize) -> Self;

    /// An unresolved `( ... )`.
    fn t_parenblock(contents: Vec<ExprElem>, depth: isize, loopdepth: isize) -> Self;

    /// An unresolved `[ ... ]`.
    fn t_listblock(contents: Vec<ExprElem>, depth: isize, loopdepth: isize) -> Self;

    /// A comment.
    fn t_commentblock(contents: String, depth: isize, loopdepth: isize) -> Self;
}

/// The expression node for a character that no pass has classified yet.
pub fn unknown_expr(c: char) -> (r: ExprElem)
    ensures
        r@ == (Atom::Unknown { ch: c }),
{
    ExprElem::UnKnownElem(UnKnownBranch { contents: c })
}

/// The statement node for a character that no pass has classified yet.
pub fn unknown_stmt(c: char) -> (r: StmtElem)
    ensures
        r@ == (Atom::Unknown { ch: c }),
{
    StmtElem::UnKnownElem(UnKnownBranch { contents: c })
}

impl Token for ExprElem {
    fn set_char_as_unknown(c: char) -> (r: Self)
        ensures
            r@ == (Atom::Unknown { ch: c }),
    {
        unknown_expr(c)
    }

    /// Resolves the node within `MAX_NESTING` levels of nesting.
    fn resolve_self(&mut self) -> (r: Result<(), ParserError>)
        ensures
            match r {
                Ok(()) => resolve_atom(old(self)@, MAX_NESTING as nat) == Ok::<Atom, ParserError>(final(self)@),
                Err(e) => resolve_atom(old(self)@, MAX_NESTING as nat) == Err::<Atom, ParserError>(e) && *final(self)
                    == *old(self),
            },
    {
        match resolve_expr(self, MAX_NESTING) {
            Ok(t) => {
                *self = t;
                Ok(())
            },
            Err(e) => Err(e),
        }
    }

    fn get_show_as_string(&self) -> (r: String)
        ensures
            r@ == show(self@),
    {
        show_expr(self)
    }
}

impl Token for StmtElem {
    fn set_char_as_unknown(c: char) -> (r: Self)
        ensures
            r@ == (Atom::Unknown { ch: c }),
    {
        unknown_stmt(c)
    }

    /// Resolves the node within `MAX_NESTING` levels of nesting.
    fn resolve_self(&mut self) -> (r: Result<(), ParserError>)
        ensures
            match r {
                Ok(()) => resolve_atom(old(self)@, MAX_NESTING as nat) == Ok::<Atom, ParserError>(final(self)@),
                Err(e) => resolve_atom(old(self)@, MAX_NESTING as nat) == Err::<Atom, ParserError>(e) && *final(self)
                    == *old(self),
            },
    {
        match resolve_stmt(self, MAX_NESTING) {
            Ok(t) => {
                *self = t;
                Ok(())
            },
            Err(e) => Err(e),
        }
    }

    fn get_show_as_string(&self) -> (r: String)
        ensures
            r@ == show(self@),
    {
        show_stmt(self)
    }
}

/// An unresolved `{ ... }` that holds `contents`.
pub fn new_block(contents: Vec<StmtElem>, depth: isize, loopdepth: isize) -> (r: BlockBranch)
    ensures
        r@ == (Atom::Block { contents: stmts_view(contents@), depth, loopdepth, resolved: false }),
{
    BlockBranch { contents, depth, loopdepth, resolved: false }
}

/// An unresolved `( ... )` that holds `contents`.
pub fn new_paren_block(contents: Vec<ExprElem>, depth: isize, loopdepth: isize) -> (r: ParenBlockBranch)
    ensures
        r@ == (Atom::ParenBlock { contents: exprs_view(contents@), depth, loopdepth, resolved: false }),
{
    ParenBlockBranch { contents, depth, loopdepth, resolved: false }
}

/// An unresolved `[ ... ]` that holds `contents`.
pub fn new_list_block(contents: Vec<ExprElem>, depth: isize, loopdepth: isize) -> (r: ListBlockBranch)
    ensures
        r@ == (Atom::ListBlock { contents: exprs_view(contents@), depth, loopdepth, resolved: false }),
{
    ListBlockBranch { contents, depth, loopdepth, resolved: false }
}

impl ProcToken for ExprElem {
    fn t_string(contents: String, depth: isize, loopdepth: isize) -> (r: Self)
        ensures
            r@ == (Atom::Str { text: contents@, depth, loopdepth }),
    {
        let r = ExprElem::StringElem(StringBranch { contents, depth, loopdepth });
        assert(expr_view(r) == (Atom::Str { text: contents@, depth, loopdepth }));
        r
    }

    fn t_block(contents: Vec<StmtElem>, depth: isize, loopdepth: isize) -> (r: Self)
        ensures
            r@ == (Atom::Block { contents: stmts_view(contents@), depth, loopdepth, resolved: false }),
    {
        let b = new_block(contents, depth, loopdepth);
        let r = ExprElem::BlockElem(b);
        assert(expr_view(r) == b@);
        r
    }

    fn t_parenblock(contents: Vec<ExprElem>, depth: isize, loopdepth: isize) -> (r: Self)
        ensures
            r@ == (Atom::ParenBlock { contents: exprs_view(contents@), depth, loopdepth, resolved: false }),
    {
        let b = new_paren_block(contents, depth, loopdepth);
        let r = ExprElem::ParenBlockElem(b);
        assert(expr_view(r) == b@);
        r
    }

    fn t_listblock(contents: Vec<ExprElem>, depth: isize, loopdepth: isize) -> (r: Self)
        ensures
            r@ == (Atom::ListBlock { contents: exprs_view(contents@), depth, loopdepth, resolved: false }),
    {
        let b = new_list_block(contents, depth, loopdepth);
        let r = ExprElem::ListBlockElem(b);
        assert(expr_view(r) == b@);
        r
    }

    fn t_commentblock(contents: String, depth: isize, loopdepth: isize) -> (r: Self)
        ensures
            r@ == (Atom::Comment { text: contents@, depth, loopdepth }),
    {
        let r = ExprElem::CommentElem(CommentBranch { contents, depth, loopdepth });
        assert(expr_view(r) == (Atom::Comment { text: contents@, depth, loopdepth }));
        r
    }
}

impl ProcToken for StmtElem {
    fn t_string(contents: String, depth: isize, loopdepth: isize) -> (r: Self)
        ensures
            r@ == (Atom::Str { text: contents@, depth, loopdepth }),
    {
        let r = StmtElem::StringElem(StringBranch { contents, depth, loopdepth });
        assert(stmt_view(r) == (Atom::Str { text: contents@, depth, loopdepth }));
        r
    }

    fn t_block(contents: Vec<StmtElem>, depth: isize, loopdepth: isize) -> (r: Self)
        ensures
            r@ == (Atom::Block { contents: stmts_view(contents@), depth, loopdepth, resolved: false }),
    {
        let b = new_block(contents, depth, loopdepth);
        let r = StmtElem::BlockElem(b);
        assert(stmt_view(r) == b@);
        r
    }

    fn t_parenblock(contents: Vec<ExprElem>, depth: isize, loopdepth: isize) -> (r: Self)
        ensures
            r@ == (Atom::ParenBlock { contents: exprs_view(contents@), depth, loopdepth, resolved: false }),
    {
        let b = new_paren_block(contents, depth, loopdepth);
        let r = StmtElem::ParenBlockElem(b);
        assert(stmt_view(r) == b@);
        r
    }

    fn t_listblock(contents: Vec<ExprElem>, depth: isize, loopdepth: isize) -> (r: Self)
        ensures
            r@ == (Atom::ListBlock { contents: exprs_view(contents@), depth, loopdepth, resolved: false }),
    {
        let b = new_list_block(contents, depth, loopdepth);
        let r = StmtElem::ListBlockElem(b);
        assert(stmt_view(r) == b@);
        r
    }

    fn t_commentblock(contents: String, depth: isize, loopdepth: isize) -> (r: Self)
        ensures
            r@ == (Atom::Comment { text: contents@, depth, loopdepth }),
    {
        let r = StmtElem::CommentElem(CommentBranch { contents, depth, loopdepth });
        assert(stmt_view(r) == (Atom::Comment { text: contents@, depth, loopdepth }));
        r
    }
}

impl ASTAreaBranch<StmtElem> for BlockBranch {
    fn new(contents: Vec<StmtElem>, depth: isize, loopdepth: isize) -> (r: Self)
        ensures
            r@ == (Atom::Block { contents: stmts_view(contents@), depth, loopdepth, resolved: false }),
    {
        new_block(contents, depth, loopdepth)
    }
}

impl ASTAreaBranch<ExprElem> for ParenBlockBranch {
    fn new(contents: Vec<ExprElem>, depth: isize, loopdepth: isize) -> (r: Self)
        ensures
            r@ == (Atom::ParenBlock { contents: exprs_view(contents@), depth, loopdepth, resolved: false }),
    {
        new_paren_block(contents, depth, loopdepth)
    }
}

impl ASTAreaBranch<ExprElem> for ListBlockBranch {
    fn new(contents: Vec<ExprElem>, depth: isize, loopdepth: isize) -> (r: Self)
        ensures
            r@ == (Atom::ListBlock { contents: exprs_view(contents@), depth, loopdepth, resolved: false }),
    {
        new_list_block(contents, depth, loopdepth)
    }
}

impl View for ExprElem {
    type V = Atom;

    open spec fn view(&self) -> Atom {
        expr_view(*self)
    }
}

impl View for StmtElem {
    type V = Atom;

    open spec fn view(&self) -> Atom {
        stmt_view(*self)
    }
}

impl View for BlockBranch {
    type V = Atom;

    open spec fn view(&self) -> Atom {
        block_view(*self)
    }
}

impl View for ListBlockBranch {
    type V = Atom;

    open spec fn view(&self) -> Atom {
        list_block_view(*self)
    }
}

impl View for ParenBlockBranch {
    type V = Atom;

    open spec fn view(&self) -> Atom {
        paren_block_view(*self)
    }
}

impl View for SyntaxBranch {
    type V = Atom;

    open spec fn view(&self) -> Atom {
        syntax_view(*self)
    }
}

impl View for SyntaxBoxBranch {
    type V = Atom;

    open spec fn view(&self) -> Atom {
        expr_view(ExprElem::SyntaxBoxElem(*self))
    }
}

impl View for FuncBranch {
    type V = Atom;

    open spec fn view(&self) -> Atom {
        expr_view(ExprElem::FuncElem(*self))
    }
}

impl View for ListBranch {
    type V = Atom;

    open spec fn view(&self) -> Atom {
        expr_view(ExprElem::ListElem(*self))
    }
}

impl View for ItemBranch {
    type V = Atom;

    open spec fn view(&self) -> Atom {
        expr_view(ExprElem::ItemElem(*self))
    }
}

impl View for ExprBranch {
    type V = Atom;

    open spec fn view(&self) -> Atom {
        stmt_view(StmtElem::ExprElem(*self))
    }
}

impl View for StmtBranch {
    type V = Atom;

    open spec fn view(&self) -> Atom {
        stmt_view(StmtElem::Special(*self))
    }
}

impl View for StringBranch {
    type V = Atom;

    open spec fn view(&self) -> Atom {
        Atom::Str { text: self.contents@, depth: self.depth, loopdepth: self.loopdepth }
    }
}

impl View for CommentBranch {
    type V = Atom;

    open spec fn view(&self) -> Atom {
        Atom::Comment { text: self.contents@, depth: self.depth, loopdepth: self.loopdepth }
    }
}

impl View for WordBranch {
    type V = Atom;

    open spec fn view(&self) -> Atom {
        Atom::Word { text: self.contents@, depth: self.depth, loopdepth: self.loopdepth }
    }
}

impl View for OperatorBranch {
    type V = Atom;

    open spec fn view(&self) -> Atom {
        Atom::Ope { ope: self.ope@, depth: self.depth }
    }
}

impl View for UnKnownBranch {
    type V = Atom;

    open spec fn view(&self) -> Atom {
        Atom::Unknown { ch: self.contents }
    }
}

/// Appending a node to a run appends its tree to the run's trees.
pub broadcast proof fn lemma_exprs_view_push(s: Seq<ExprElem>, e: ExprElem)
    ensures
        #[trigger] exprs_view(s.push(e)) == exprs_view(s).push(expr_view(e)),
{
    assert(exprs_view(s.push(e)) =~= exprs_view(s).push(expr_view(e)));
}

/// Appending a node to a run appends its tree to the run's trees.
pub broadcast proof fn lemma_stmts_view_push(s: Seq<StmtElem>, e: StmtElem)
    ensures
        #[trigger] stmts_view(s.push(e)) == stmts_view(s).push(stmt_view(e)),
{
    assert(stmts_view(s.push(e)) =~= stmts_view(s).push(stmt_view(e)));
}

/// Appending a clause to a run appends its tree to the run's trees.
pub broadcast proof fn lemma_syntaxes_view_push(s: Seq<SyntaxBranch>, e: SyntaxBranch)
    ensures
        #[trigger] syntaxes_view(s.push(e)) == syntaxes_view(s).push(syntax_view(e)),
{
    assert(syntaxes_view(s.push(e)) =~= syntaxes_view(s).push(syntax_view(e)));
}

/// An empty run stands for no trees.
pub broadcast proof fn lemma_exprs_view_empty(s: Seq<ExprElem>)
    requires
        s.len() == 0,
    ensures
        #[trigger] exprs_view(s) == Seq::<Atom>::empty(),
{
    assert(exprs_view(s) =~= Seq::<Atom>::empty());
}

/// An empty run stands for no trees.
pub broadcast proof fn lemma_stmts_view_empty(s: Seq<StmtElem>)
    requires
        s.len() == 0,
    ensures
        #[trigger] stmts_view(s) == Seq::<Atom>::empty(),
{
    assert(stmts_view(s) =~= Seq::<Atom>::empty());
}

/// An empty run stands for no trees.
pub broadcast proof fn lemma_syntaxes_view_empty(s: Seq<SyntaxBranch>)
    requires
        s.len() == 0,
    ensures
        #[trigger] syntaxes_view(s) == Seq::<Atom>::empty(),
{
    assert(syntaxes_view(s) =~= Seq::<Atom>::empty());
}

/// A slice of a run stands for the same slice of the run's trees.
pub broadcast proof fn lemma_exprs_view_subrange(s: Seq<ExprElem>, a: int, b: int)
    requires
        0 <= a <= b <= s.len(),
    ensures
        #[trigger] exprs_view(s.subrange(a, b)) == exprs_view(s).subrange(a, b),
{
    assert(exprs_view(s.subrange(a, b)) =~= exprs_view(s).subrange(a, b));
}

/// A slice of a run stands for the same slice of the run's trees.
pub broadcast proof fn lemma_stmts_view_subrange(s: Seq<StmtElem>, a: int, b: int)
    requires
        0 <= a <= b <= s.len(),
    ensures
        #[trigger] stmts_view(s.subrange(a, b)) == stmts_view(s).subrange(a, b),
{
    assert(stmts_view(s.subrange(a, b)) =~= stmts_view(s).subrange(a, b));
}

pub broadcast group group_view_lemmas {
    lemma_exprs_view_push,
    lemma_stmts_view_push,
    lemma_syntaxes_view_push,
    lemma_exprs_view_empty,
    lemma_stmts_view_empty,
    lemma_syntaxes_view_empty,
    lemma_exprs_view_subrange,
    lemma_stmts_view_subrange,
}

/// A copy of an expression node.
pub fn clone_expr(e: &ExprElem) -> (r: ExprElem)
    ensures
        r@ == e@,
    decreases e,
{
    match e {
        ExprElem::BlockElem(b) => ExprElem::BlockElem(clone_block(b)),
        ExprElem::ListBlockElem(b) => ExprElem::ListBlockElem(clone_list_block(b)),
        ExprElem::ParenBlockElem(b) => ExprElem::ParenBlockElem(clone_paren_block(b)),
        ExprElem::SyntaxElem(b) => ExprElem::SyntaxElem(clone_syntax(b)),
        ExprElem::SyntaxBoxElem(b) => ExprElem::SyntaxBoxElem(
            SyntaxBoxBranch {
                name: b.name.clone(),
                contents: clone_syntaxes(&b.contents),
                depth: b.depth,
                loopdepth: b.loopdepth,
            },
        ),
        ExprElem::FuncElem(b) => ExprElem::FuncElem(
            FuncBranch {
                name: Box::new(clone_expr(&*b.name)),
                contents: clone_exprs(&b.contents),
                depth: b.depth,
                loopdepth: b.loopdepth,
                resolved: b.resolved,
            },
        ),
        ExprElem::ListElem(b) => ExprElem::ListElem(
            ListBranch {
                name: Box::new(clone_expr(&*b.name)),
                contents: clone_exprs(&b.contents),
                depth: b.depth,
                loopdepth: b.loopdepth,
                resolved: b.resolved,
            },
        ),
        ExprElem::ItemElem(b) => ExprElem::ItemElem(
            ItemBranch {
                contents: clone_exprs(&b.contents),
                depth: b.depth,
                loopdepth: b.loopdepth,
                resolved: b.resolved,
            },
        ),
        ExprElem::CommentElem(b) => ExprElem::CommentElem(b.clone()),
        ExprElem::StringElem(b) => ExprElem::StringElem(b.clone()),
        ExprElem::WordElem(b) => ExprElem::WordElem(b.clone()),
        ExprElem::OpeElem(b) => ExprElem::OpeElem(b.clone()),
        ExprElem::UnKnownElem(b) => ExprElem::UnKnownElem(*b),
    }
}

/// A copy of a run of expression nodes.
pub fn clone_exprs(v: &Vec<ExprElem>) -> (r: Vec<ExprElem>)
    ensures
        exprs_view(r@) == exprs_view(v@),
    decreases v,
{
    broadcast use group_view_lemmas;

    let mut out: Vec<ExprElem> = Vec::new();
    let mut i: usize = 0;
    while i < v.len()
        invariant
            i <= v.len(),
            exprs_view(out@) == exprs_view(v@).take(i as int),
        decreases v.len() - i,
    {
        let e = clone_expr(&v[i]);
        out.push(e);
        i += 1;
        assert(exprs_view(v@).take(i as int) =~= exprs_view(v@).take(i - 1).push(expr_view(v@[i - 1])));
    }
    assert(exprs_view(v@).take(v.len() as int) =~= exprs_view(v@));
    out
}

/// A copy of a statement node.
pub fn clone_stmt(e: &StmtElem) -> (r: StmtElem)
    ensures
        r@ == e@,
    decreases e,
{
    match e {
        StmtElem::BlockElem(b) => StmtElem::BlockElem(clone_block(b)),
        StmtElem::ListBlockElem(b) => StmtElem::ListBlockElem(clone_list_block(b)),
        StmtElem::ParenBlockElem(b) => StmtElem::ParenBlockElem(clone_paren_block(b)),
        StmtElem::ExprElem(b) => StmtElem::ExprElem(
            ExprBranch {
                code_list: clone_exprs(&b.code_list),
                depth: b.depth,
                loopdepth: b.loopdepth,
                resolved: b.resolved,
            },
        ),
        StmtElem::Special(b) => StmtElem::Special(
            StmtBranch {
                head: b.head.clone(),
                code_list: clone_exprs(&b.code_list),
                depth: b.depth,
                loopdepth: b.loopdepth,
                resolved: b.resolved,
            },
        ),
        StmtElem::StringElem(b) => StmtElem::StringElem(b.clone()),
        StmtElem::WordElem(b) => StmtElem::WordElem(b.clone()),
        StmtElem::OpeElem(b) => StmtElem::OpeElem(b.clone()),
        StmtElem::CommentElem(b) => StmtElem::CommentElem(b.clone()),
        StmtElem::UnKnownElem(b) => StmtElem::UnKnownElem(*b),
    }
}

/// A copy of a run of statement nodes.
pub fn clone_stmts(v: &Vec<StmtElem>) -> (r: Vec<StmtElem>)
    ensures
        stmts_view(r@) == stmts_view(v@),
    decreases v,
{
    broadcast use group_view_lemmas;

    let mut out: Vec<StmtElem> = Vec::new();
    let mut i: usize = 0;
    while i < v.len()
        invariant
            i <= v.len(),
            stmts_view(out@) == stmts_view(v@).take(i as int),
        decreases v.len() - i,
    {
        let e = clone_stmt(&v[i]);
        out.push(e);
        i += 1;
        assert(stmts_view(v@).take(i as int) =~= stmts_view(v@).take(i - 1).push(stmt_view(v@[i - 1])));
    }
    assert(stmts_view(v@).take(v.len() as int) =~= stmts_view(v@));
    out
}

/// A copy of a `{ ... }` node.
pub fn clone_block(b: &BlockBranch) -> (r: BlockBranch)
    ensures
        r@ == b@,
    decreases b,
{
    BlockBranch {
        contents: clone_stmts(&b.contents),
        depth: b.depth,
        loopdepth: b.loopdepth,
        resolved: b.resolved,
    }
}

/// A copy of a `[ ... ]` node.
pub fn clone_list_block(b: &ListBlockBranch) -> (r: ListBlockBranch)
    ensures
        r@ == b@,
    decreases b,
{
    ListBlockBranch {
        contents: clone_exprs(&b.contents),
        depth: b.depth,
        loopdepth: b.loopdepth,
        resolved: b.resolved,
    }
}

/// A copy of a `( ... )` node.
pub fn clone_paren_block(b: &ParenBlockBranch) -> (r: ParenBlockBranch)
    ensures
        r@ == b@,
    decreases b,
{
    ParenBlockBranch {
        contents: clone_exprs(&b.contents),
        depth: b.depth,
        loopdepth: b.loopdepth,
        resolved: b.resolved,
    }
}

/// A copy of a control clause.
pub fn clone_syntax(b: &SyntaxBranch) -> (r: SyntaxBranch)
    ensures
        r@ == b@,
    decreases b,
{
    SyntaxBranch {
        name: b.name.clone(),
        expr: clone_exprs(&b.expr),
        contents: clone_stmts(&b.contents),
        depth: b.depth,
        loopdepth: b.loopdepth,
        resolved: b.resolved,
    }
}

/// A copy of a run of control clauses.
pub fn clone_syntaxes(v: &Vec<SyntaxBranch>) -> (r: Vec<SyntaxBranch>)
    ensures
        syntaxes_view(r@) == syntaxes_view(v@),
    decreases v,
{
    broadcast use group_view_lemmas;

    let mut out: Vec<SyntaxBranch> = Vec::new();
    let mut i: usize = 0;
    while i < v.len()
        invariant
            i <= v.len(),
            syntaxes_view(out@) == syntaxes_view(v@).take(i as int),
        decreases v.len() - i,
    {
        let e = clone_syntax(&v[i]);
        out.push(e);
        i += 1;
        assert(syntaxes_view(v@).take(i as int) =~= syntaxes_view(v@).take(i - 1).push(syntax_view(v@[i - 1])));
    }
    assert(syntaxes_view(v@).take(v.len() as int) =~= syntaxes_view(v@));
    out
}

/// An expression node as it is taken into the content of a bracket: see `regroup`.
pub fn regroup_expr(e: &ExprElem, depth: isize, loopdepth: isize) -> (r: Option<ExprElem>)
    ensures
        match r {
            Some(n) => regroup(e@, depth, loopdepth) == Some(n@),
            None => regroup(e@, depth, loopdepth) is None,
        },
{
    match e {
        ExprElem::UnKnownElem(b) => Some(ExprElem::UnKnownElem(*b)),
        ExprElem::StringElem(b) => Some(
            ExprElem::StringElem(StringBranch { contents: b.contents.clone(), depth, loopdepth }),
        ),
        ExprElem::CommentElem(b) => Some(
            ExprElem::CommentElem(CommentBranch { contents: b.contents.clone(), depth, loopdepth }),
        ),
        ExprElem::BlockElem(b) => Some(
            ExprElem::BlockElem(
                BlockBranch { contents: clone_stmts(&b.contents), depth, loopdepth, resolved: b.resolved },
            ),
        ),
        ExprElem::ListBlockElem(b) => Some(
            ExprElem::ListBlockElem(
                ListBlockBranch { contents: clone_exprs(&b.contents), depth, loopdepth, resolved: b.resolved },
            ),
        ),
        ExprElem::ParenBlockElem(b) => Some(
            ExprElem::ParenBlockElem(
                ParenBlockBranch { contents: clone_exprs(&b.contents), depth, loopdepth, resolved: b.resolved },
            ),
        ),
        _ => None,
    }
}

/// An expression node as it is taken into the content of a `{ ... }`: see `regroup`.
pub fn regroup_expr_as_stmt(e: &ExprElem, depth: isize, loopdepth: isize) -> (r: Option<StmtElem>)
    ensures
        match r {
            Some(n) => regroup(e@, depth, loopdepth) == Some(n@),
            None => regroup(e@, depth, loopdepth) is None,
        },
{
    match e {
        ExprElem::UnKnownElem(b) => Some(StmtElem::UnKnownElem(*b)),
        ExprElem::StringElem(b) => Some(
            StmtElem::StringElem(StringBranch { contents: b.contents.clone(), depth, loopdepth }),
        ),
        ExprElem::CommentElem(b) => Some(
            StmtElem::CommentElem(CommentBranch { contents: b.contents.clone(), depth, loopdepth }),
        ),
        ExprElem::BlockElem(b) => Some(
            StmtElem::BlockElem(
                BlockBranch { contents: clone_stmts(&b.contents), depth, loopdepth, resolved: b.resolved },
            ),
        ),
        ExprElem::ListBlockElem(b) => Some(
            StmtElem::ListBlockElem(
                ListBlockBranch { contents: clone_exprs(&b.contents), depth, loopdepth, resolved: b.resolved },
            ),
        ),
        ExprElem::ParenBlockElem(b) => Some(
            StmtElem::ParenBlockElem(
                ParenBlockBranch { contents: clone_exprs(&b.contents), depth, loopdepth, resolved: b.resolved },
            ),
        ),
        _ => None,
    }
}

/// A statement node as it is taken into the content of a `{ ... }`: see `regroup`.
pub fn regroup_stmt(e: &StmtElem, depth: isize, loopdepth: isize) -> (r: Option<StmtElem>)
    ensures
        match r {
            Some(n) => regroup(e@, depth, loopdepth) == Some(n@),
            None => regroup(e@, depth, loopdepth) is None,
        },
{
    match e {
        StmtElem::UnKnownElem(b) => Some(StmtElem::UnKnownElem(*b)),
        StmtElem::StringElem(b) => Some(
            StmtElem::StringElem(StringBranch { contents: b.contents.clone(), depth, loopdepth }),
        ),
        StmtElem::CommentElem(b) => Some(
            StmtElem::CommentElem(CommentBranch { contents: b.contents.clone(), depth, loopdepth }),
        ),
        StmtElem::BlockElem(b) => Some(
            StmtElem::BlockElem(
                BlockBranch { contents: clone_stmts(&b.contents), depth, loopdepth, resolved: b.resolved },
            ),
        ),
        StmtElem::ListBlockElem(b) => Some(
            StmtElem::ListBlockElem(
                ListBlockBranch { contents: clone_exprs(&b.contents), depth, loopdepth, resolved: b.resolved },
            ),
        ),
        StmtElem::ParenBlockElem(b) => Some(
            StmtElem::ParenBlockElem(
                ParenBlockBranch { contents: clone_exprs(&b.contents), depth, loopdepth, resolved: b.resolved },
            ),
        ),
        _ => None,
    }
}

/// A statement node as it is taken into the content of a `[ ... ]` or `( ... )`: see `regroup`.
pub fn regroup_stmt_as_expr(e: &StmtElem, depth: isize, loopdepth: isize) -> (r: Option<ExprElem>)
    ensures
        match r {
            Some(n) => regroup(e@, depth, loopdepth) == Some(n@),
            None => regroup(e@, depth, loopdepth) is None,
        },
{
    match e {
        StmtElem::UnKnownElem(b) => Some(ExprElem::UnKnownElem(*b)),
        StmtElem::StringElem(b) => Some(
            ExprElem::StringElem(StringBranch { contents: b.contents.clone(), depth, loopdepth }),
        ),
        StmtElem::CommentElem(b) => Some(
            ExprElem::CommentElem(CommentBranch { contents: b.contents.clone(), depth, loopdepth }),
        ),
        StmtElem::BlockElem(b) => Some(
            ExprElem::BlockElem(
                BlockBranch { contents: clone_stmts(&b.contents), depth, loopdepth, resolved: b.resolved },
            ),
        ),
        StmtElem::ListBlockElem(b) => Some(
            ExprElem::ListBlockElem(
                ListBlockBranch { contents: clone_exprs(&b.contents), depth, loopdepth, resolved: b.resolved },
            ),
        ),
        StmtElem::ParenBlockElem(b) => Some(
            ExprElem::ParenBlockElem(
                ParenBlockBranch { contents: clone_exprs(&b.contents), depth, loopdepth, resolved: b.resolved },
            ),
        ),
        _ => None,
    }
}

impl Clone for BlockBranch {
    fn clone(&self) -> (r: Self)
        ensures
            r@ == self@,
    {
        clone_block(self)
    }
}

impl Clone for ListBlockBranch {
    fn clone(&self) -> (r: Self)
        ensures
            r@ == self@,
    {
        clone_list_block(self)
    }
}

impl Clone for ParenBlockBranch {
    fn clone(&self) -> (r: Self)
        ensures
            r@ == self@,
    {
        clone_paren_block(self)
    }
}

impl Clone for SyntaxBranch {
    fn clone(&self) -> (r: Self)
        ensures
            r@ == self@,
    {
        clone_syntax(self)
    }
}

impl Clone for SyntaxBoxBranch {
    fn clone(&self) -> (r: Self)
        ensures
            r@ == self@,
    {
        SyntaxBoxBranch {
            name: self.name.clone(),
            contents: clone_syntaxes(&self.contents),
            depth: self.depth,
            loopdepth: self.loopdepth,
        }
    }
}

impl Clone for FuncBranch {
    fn clone(&self) -> (r: Self)
        ensures
            r@ == self@,
    {
        FuncBranch {
            name: Box::new(clone_expr(&*self.name)),
            contents: clone_exprs(&self.contents),
            depth: self.depth,
            loopdepth: self.loopdepth,
            resolved: self.resolved,
        }
    }
}

impl Clone for ListBranch {
    fn clone(&self) -> (r: Self)
        ensures
            r@ == self@,
    {
        ListBranch {
            name: Box::new(clone_expr(&*self.name)),
            contents: clone_exprs(&self.contents),
            depth: self.depth,
            loopdepth: self.loopdepth,
            resolved: self.resolved,
        }
    }
}

impl Clone for ItemBranch {
    fn clone(&self) -> (r: Self)
        ensures
            r@ == self@,
    {
        ItemBranch {
            contents: clone_exprs(&self.contents),
            depth: self.depth,
            loopdepth: self.loopdepth,
            resolved: self.resolved,
        }
    }
}

impl Clone for ExprBranch {
    fn clone(&self) -> (r: Self)
        ensures
            r@ == self@,
    {
        ExprBranch {
            code_list: clone_exprs(&self.code_list),
            depth: self.depth,
            loopdepth: self.loopdepth,
            resolved: self.resolved,
        }
    }
}

impl Clone for StmtBranch {
    fn clone(&self) -> (r: Self)
        ensures
            r@ == self@,
    {
        StmtBranch {
            head: self.head.clone(),
            code_list: clone_exprs(&self.code_list),
            depth: self.depth,
            loopdepth: self.loopdepth,
            resolved: self.resolved,
        }
    }
}

impl Clone for TypeBlockBranch {
    fn clone(&self) -> (r: Self)
        ensures
            r@ == self@,
    {
        TypeBlockBranch { code_list: clone_types(&self.code_list), depth: self.depth }
    }
}

impl Clone for ExprElem {
    fn clone(&self) -> (r: Self)
        ensures
            r@ == self@,
    {
        clone_expr(self)
    }
}

impl Clone for StmtElem {
    fn clone(&self) -> (r: Self)
        ensures
            r@ == self@,
    {
        clone_stmt(self)
    }
}

} // verus!

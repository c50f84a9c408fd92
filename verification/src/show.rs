//! The text dump of a tree, for diagnostics and for comparing trees.
//!
//! A node is indented by its depth: most kinds by four spaces for each level,
//! the three bracket kinds by one. A depth below zero indents by nothing.
use crate::abs::ast::{
    exprs_view, stmts_view, syntaxes_view, types_view, ASTBranch, ExprElem, StmtElem, TypeElem,
};
use crate::abs::atom::{Atom, TypeAtom};
use crate::text::{decimal, decimal_nat, push_char, push_decimal, push_decimal_usize, push_spaces, push_text, spaces};
use crate::token::block::BlockBranch;
use crate::token::comment::CommentBranch;
use crate::token::func::FuncBranch;
use crate::token::item::ItemBranch;
use crate::token::list::ListBranch;
use crate::token::list_block::ListBlockBranch;
use crate::token::operator::OperatorBranch;
use crate::token::paren_block::ParenBlockBranch;
use crate::token::stmt::expr::ExprBranch;
use crate::token::stmt::stmt::StmtBranch;
use crate::token::string::StringBranch;
use crate::token::syntax::SyntaxBranch;
use crate::token::syntax_box::SyntaxBoxBranch;
use crate::token::ttype::primitive::PrimitiveBranch;
use crate::token::ttype::type_block::TypeBlockBranch;
use crate::token::unknown::UnKnownBranch;
use crate::token::word::WordBranch;
use vstd::prelude::*;

verus! {

/// How the dumps of the nodes of a run are put together.
#[derive(Debug, Clone, Copy, PartialEq, Eq, Structural)]
pub enum Layout {
    /// One after the other.
    Plain,
    /// Each followed by a line break.
    Lines,
    /// Each after the indentation of a statement of this depth and one more space.
    Padded { depth: isize },
    /// As the arguments of a call of this depth: at every argument the
    /// indentation is put before all that came so far, and the argument ends
    /// with a line break.
    Arguments { depth: isize },
}

/// The number of spaces that indent a node of this depth by `unit` spaces for each level.
pub open spec fn indent_width(depth: isize, unit: nat) -> nat {
    if depth > 0 {
        (depth * unit) as nat
    } else {
        0
    }
}

/// The indentation of a node of this depth.
pub open spec fn indent(depth: isize, unit: nat) -> Seq<char> {
    spaces(indent_width(depth, unit))
}

/// The dump of a node.
pub open spec fn show(a: Atom) -> Seq<char>
    decreases a, 0nat,
{
    match a {
        Atom::Unknown { ch } => "UnKnownBranch :\""@ + seq![ch] + "\""@,
        Atom::Str { text, .. } => "Word "@ + text,
        Atom::Comment { text, .. } => "comment \""@ + text + "\""@,
        Atom::Word { text, depth, .. } => indent(depth, 4) + "Word \""@ + text + "\""@,
        Atom::Ope { ope, depth } => indent(depth, 4) + "Operator("@ + ope + ")\n"@,
        Atom::Block { contents, depth, .. } => indent(depth, 1) + "BlockBranch depth"@ + decimal(depth as int)
            + " (\n"@ + show_each(contents, contents.len() as int, Layout::Plain),
        Atom::ListBlock { contents, depth, .. } => indent(depth, 1) + "ListBlock ("@ + show_each(
            contents,
            contents.len() as int,
            Layout::Plain,
        ) + indent(depth, 1) + ")"@,
        Atom::ParenBlock { contents, depth, .. } => indent(depth, 1) + "Paren\n("@ + show_each(
            contents,
            contents.len() as int,
            Layout::Plain,
        ) + indent(depth, 1) + ")"@,
        Atom::Syntax { name, expr, contents, depth, .. } => name + "expr("@ + show_each(
            expr,
            expr.len() as int,
            Layout::Plain,
        ) + ")"@ + indent(depth, 4) + "{"@ + show_each(contents, contents.len() as int, Layout::Lines) + indent(
            depth,
            4,
        ) + "}"@,
        Atom::SyntaxBox { name, contents, .. } => name + show_each(contents, contents.len() as int, Layout::Plain),
        Atom::Func { callee, contents, depth, .. } => indent(depth, 4) + "func name\n"@ + show(*callee) + indent(
            depth,
            4,
        ) + "(\n"@ + show_each(
            contents,
            contents.len() as int,
            Layout::Arguments { depth },
        ) + indent(depth, 4) + ")"@,
        Atom::List { callee, contents, depth, .. } => indent(depth, 4) + "(\n"@ + indent(depth, 4)
            + "List name\n"@ + show(*callee) + show_each(contents, contents.len() as int, Layout::Plain) + indent(
            depth,
            4,
        ) + ")\n"@,
        Atom::Item { contents, depth, .. } => indent(depth, 4) + "Item(\n"@ + show_each(
            contents,
            contents.len() as int,
            Layout::Plain,
        ) + "\n"@ + indent(depth, 4) + ")"@,
        Atom::Expr { code_list, depth, .. } => "ExprBranch("@ + decimal_nat(code_list.len()) + "){\n"@ + show_each(
            code_list,
            code_list.len() as int,
            Layout::Padded { depth },
        ) + "}\n"@,
        Atom::Special { head, code_list, .. } => "control Branch \""@ + head + "\" (\n"@ + show_each(
            code_list,
            code_list.len() as int,
            Layout::Plain,
        ) + ")\n"@,
    }
}

/// The dumps of the first `k` nodes of a run, put together by `layout`.
pub open spec fn show_each(s: Seq<Atom>, k: int, layout: Layout) -> Seq<char>
    decreases s, k,
{
    if k <= 0 || k > s.len() {
        Seq::empty()
    } else {
        match layout {
            Layout::Plain => show_each(s, k - 1, layout) + show(s[k - 1]),
            Layout::Lines => show_each(s, k - 1, layout) + show(s[k - 1]) + "\n"@,
            Layout::Padded { depth } => show_each(s, k - 1, layout) + indent(depth, 4) + " "@ + show(s[k - 1]),
            Layout::Arguments { depth } => indent(depth, 4) + show_each(s, k - 1, layout) + show(s[k - 1])
                + "\n"@,
        }
    }
}

/// Appends the indentation of a node of this depth to `out`.
pub fn push_indent(out: &mut String, depth: isize, unit: usize)
    ensures
        final(out)@ == old(out)@ + indent(depth, unit as nat),
{
    let mut i: isize = 0;
    assert(out@ =~= old(out)@ + spaces(0));
    while i < depth
        invariant
            0 <= i,
            depth <= 0 ==> i == 0,
            depth > 0 ==> i <= depth,
            out@ == old(out)@ + spaces((i * unit) as nat),
        decreases depth - i,
    {
        let ghost before = out@;
        push_spaces(out, unit);
        assert((i + 1) * unit == i * unit + unit) by (nonlinear_arith);
        assert(0 <= i * unit) by (nonlinear_arith)
            requires
                0 <= i,
                0 <= unit,
        ;
        i += 1;
        assert(out@ =~= old(out)@ + spaces((i * unit) as nat));
    }
    assert(depth > 0 ==> i == depth);
    assert(depth <= 0 ==> i * unit == 0) by (nonlinear_arith)
        requires
            depth <= 0 ==> i == 0,
    ;
}

/// The dump of an expression node.
pub fn show_expr(e: &ExprElem) -> (r: String)
    ensures
        r@ == show(e@),
    decreases e, 1nat,
{
    match e {
        ExprElem::BlockElem(b) => show_block(b),
        ExprElem::ListBlockElem(b) => show_list_block(b),
        ExprElem::ParenBlockElem(b) => show_paren_block(b),
        ExprElem::SyntaxElem(b) => show_syntax(b),
        ExprElem::SyntaxBoxElem(b) => show_syntax_box(b),
        ExprElem::FuncElem(b) => show_func(b),
        ExprElem::ListElem(b) => show_list(b),
        ExprElem::ItemElem(b) => show_item(b),
        ExprElem::CommentElem(b) => show_comment(b),
        ExprElem::StringElem(b) => show_string(b),
        ExprElem::WordElem(b) => show_word(b),
        ExprElem::OpeElem(b) => show_operator(b),
        ExprElem::UnKnownElem(b) => show_unknown(b),
    }
}

/// The dump of a statement node.
pub fn show_stmt(e: &StmtElem) -> (r: String)
    ensures
        r@ == show(e@),
    decreases e, 1nat,
{
    match e {
        StmtElem::BlockElem(b) => show_block(b),
        StmtElem::ListBlockElem(b) => show_list_block(b),
        StmtElem::ParenBlockElem(b) => show_paren_block(b),
        StmtElem::ExprElem(b) => show_expr_stmt(b),
        StmtElem::Special(b) => show_control_stmt(b),
        StmtElem::StringElem(b) => show_string(b),
        StmtElem::WordElem(b) => show_word(b),
        StmtElem::OpeElem(b) => show_operator(b),
        StmtElem::CommentElem(b) => show_comment(b),
        StmtElem::UnKnownElem(b) => show_unknown(b),
    }
}

/// The dumps of the nodes of a run, put together by `layout`.
pub fn show_exprs(list: &Vec<ExprElem>, layout: Layout) -> (r: String)
    ensures
        r@ == show_each(exprs_view(list@), list@.len() as int, layout),
    decreases list, 0nat,
{
    let ghost input = exprs_view(list@);
    let mut out = String::new();
    let mut i: usize = 0;
    while i < list.len()
        invariant
            i <= list.len(),
            input == exprs_view(list@),
            input.len() == list@.len(),
            out@ == show_each(input, i as int, layout),
        decreases list.len() - i,
    {
        assert(input[i as int] == list[i as int]@);
        let ghost before = out@;
        let one = show_expr(&list[i]);
        match layout {
            Layout::Plain => {
                push_text(&mut out, one.as_str());
            },
            Layout::Lines => {
                push_text(&mut out, one.as_str());
                push_text(&mut out, "\n");
            },
            Layout::Padded { depth } => {
                push_indent(&mut out, depth, 4);
                push_text(&mut out, " ");
                push_text(&mut out, one.as_str());
            },
            Layout::Arguments { depth } => {
                let mut next = String::new();
                push_indent(&mut next, depth, 4);
                push_text(&mut next, out.as_str());
                push_text(&mut next, one.as_str());
                push_text(&mut next, "\n");
                assert(next@ =~= indent(depth, 4) + before + one@ + "\n"@);
                out = next;
            },
        }
        i += 1;
        assert(out@ =~= show_each(input, i as int, layout));
    }
    out
}

/// The dumps of the nodes of a run, put together by `layout`.
pub fn show_stmts(list: &Vec<StmtElem>, layout: Layout) -> (r: String)
    ensures
        r@ == show_each(stmts_view(list@), list@.len() as int, layout),
    decreases list, 0nat,
{
    let ghost input = stmts_view(list@);
    let mut out = String::new();
    let mut i: usize = 0;
    while i < list.len()
        invariant
            i <= list.len(),
            input == stmts_view(list@),
            input.len() == list@.len(),
            out@ == show_each(input, i as int, layout),
        decreases list.len() - i,
    {
        assert(input[i as int] == list[i as int]@);
        let ghost before = out@;
        let one = show_stmt(&list[i]);
        match layout {
            Layout::Plain => {
                push_text(&mut out, one.as_str());
            },
            Layout::Lines => {
                push_text(&mut out, one.as_str());
                push_text(&mut out, "\n");
            },
            Layout::Padded { depth } => {
                push_indent(&mut out, depth, 4);
                push_text(&mut out, " ");
                push_text(&mut out, one.as_str());
            },
            Layout::Arguments { depth } => {
                let mut next = String::new();
                push_indent(&mut next, depth, 4);
                push_text(&mut next, out.as_str());
                push_text(&mut next, one.as_str());
                push_text(&mut next, "\n");
                assert(next@ =~= indent(depth, 4) + before + one@ + "\n"@);
                out = next;
            },
        }
        i += 1;
        assert(out@ =~= show_each(input, i as int, layout));
    }
    out
}

/// The dumps of the nodes of a run, put together by `layout`.
pub fn show_syntaxes(list: &Vec<SyntaxBranch>, layout: Layout) -> (r: String)
    ensures
        r@ == show_each(syntaxes_view(list@), list@.len() as int, layout),
    decreases list, 0nat,
{
    let ghost input = syntaxes_view(list@);
    let mut out = String::new();
    let mut i: usize = 0;
    while i < list.len()
        invariant
            i <= list.len(),
            input == syntaxes_view(list@),
            input.len() == list@.len(),
            out@ == show_each(input, i as int, layout),
        decreases list.len() - i,
    {
        assert(input[i as int] == list[i as int]@);
        let ghost before = out@;
        let one = show_syntax(&list[i]);
        match layout {
            Layout::Plain => {
                push_text(&mut out, one.as_str());
            },
            Layout::Lines => {
                push_text(&mut out, one.as_str());
                push_text(&mut out, "\n");
            },
            Layout::Padded { depth } => {
                push_indent(&mut out, depth, 4);
                push_text(&mut out, " ");
                push_text(&mut out, one.as_str());
            },
            Layout::Arguments { depth } => {
                let mut next = String::new();
                push_indent(&mut next, depth, 4);
                push_text(&mut next, out.as_str());
                push_text(&mut next, one.as_str());
                push_text(&mut next, "\n");
                assert(next@ =~= indent(depth, 4) + before + one@ + "\n"@);
                out = next;
            },
        }
        i += 1;
        assert(out@ =~= show_each(input, i as int, layout));
    }
    out
}

/// The dump of a character that no pass has classified.
pub fn show_unknown(b: &UnKnownBranch) -> (r: String)
    ensures
        r@ == show(b@),
{
    let mut out = String::new();
    push_text(&mut out, "UnKnownBranch :\"");
    push_char(&mut out, b.contents);
    push_text(&mut out, "\"");
    assert(out@ =~= "UnKnownBranch :\""@ + seq![b.contents] + "\""@);
    out
}

/// The dump of a string literal.
pub fn show_string(b: &StringBranch) -> (r: String)
    ensures
        r@ == show(b@),
{
    let mut out = String::new();
    push_text(&mut out, "Word ");
    push_text(&mut out, b.contents.as_str());
    assert(out@ =~= "Word "@ + b.contents@);
    out
}

/// The dump of a comment.
pub fn show_comment(b: &CommentBranch) -> (r: String)
    ensures
        r@ == show(b@),
{
    let mut out = String::new();
    push_text(&mut out, "comment \"");
    push_text(&mut out, b.contents.as_str());
    push_text(&mut out, "\"");
    assert(out@ =~= "comment \""@ + b.contents@ + "\""@);
    out
}

/// The dump of a word.
pub fn show_word(b: &WordBranch) -> (r: String)
    ensures
        r@ == show(b@),
{
    let mut out = String::new();
    push_indent(&mut out, b.depth, 4);
    push_text(&mut out, "Word \"");
    push_text(&mut out, b.contents.as_str());
    push_text(&mut out, "\"");
    assert(out@ =~= indent(b.depth, 4) + "Word \""@ + b.contents@ + "\""@);
    out
}

/// The dump of an operator.
pub fn show_operator(b: &OperatorBranch) -> (r: String)
    ensures
        r@ == show(b@),
{
    let mut out = String::new();
    push_indent(&mut out, b.depth, 4);
    push_text(&mut out, "Operator(");
    push_text(&mut out, b.ope.as_str());
    push_text(&mut out, ")\n");
    assert(out@ =~= indent(b.depth, 4) + "Operator("@ + b.ope@ + ")\n"@);
    out
}

/// The dump of a `{ ... }`.
pub fn show_block(b: &BlockBranch) -> (r: String)
    ensures
        r@ == show(b@),
    decreases b, 0nat,
{
    let inner = show_stmts(&b.contents, Layout::Plain);
    let mut out = String::new();
    push_indent(&mut out, b.depth, 1);
    push_text(&mut out, "BlockBranch depth");
    push_decimal(&mut out, b.depth as i128);
    push_text(&mut out, " (\n");
    push_text(&mut out, inner.as_str());
    assert(out@ =~= indent(b.depth, 1) + "BlockBranch depth"@ + decimal(b.depth as int) + " (\n"@ + inner@);
    out
}

/// The dump of a `[ ... ]`.
pub fn show_list_block(b: &ListBlockBranch) -> (r: String)
    ensures
        r@ == show(b@),
    decreases b, 0nat,
{
    let inner = show_exprs(&b.contents, Layout::Plain);
    let mut out = String::new();
    push_indent(&mut out, b.depth, 1);
    push_text(&mut out, "ListBlock (");
    push_text(&mut out, inner.as_str());
    push_indent(&mut out, b.depth, 1);
    push_text(&mut out, ")");
    assert(out@ =~= indent(b.depth, 1) + "ListBlock ("@ + inner@ + indent(b.depth, 1) + ")"@);
    out
}

/// The dump of a `( ... )`.
pub fn show_paren_block(b: &ParenBlockBranch) -> (r: String)
    ensures
        r@ == show(b@),
    decreases b, 0nat,
{
    let inner = show_exprs(&b.contents, Layout::Plain);
    let mut out = String::new();
    push_indent(&mut out, b.depth, 1);
    push_text(&mut out, "Paren\n(");
    push_text(&mut out, inner.as_str());
    push_indent(&mut out, b.depth, 1);
    push_text(&mut out, ")");
    assert(out@ =~= indent(b.depth, 1) + "Paren\n("@ + inner@ + indent(b.depth, 1) + ")"@);
    out
}

/// The dump of a control clause.
pub fn show_syntax(b: &SyntaxBranch) -> (r: String)
    ensures
        r@ == show(b@),
    decreases b, 0nat,
{
    let condition = show_exprs(&b.expr, Layout::Plain);
    let body = show_stmts(&b.contents, Layout::Lines);
    let mut out = String::new();
    push_text(&mut out, b.name.as_str());
    push_text(&mut out, "expr(");
    push_text(&mut out, condition.as_str());
    push_text(&mut out, ")");
    push_indent(&mut out, b.depth, 4);
    push_text(&mut out, "{");
    push_text(&mut out, body.as_str());
    push_indent(&mut out, b.depth, 4);
    push_text(&mut out, "}");
    assert(out@ =~= b.name@ + "expr("@ + condition@ + ")"@ + indent(b.depth, 4) + "{"@ + body@ + indent(b.depth, 4)
        + "}"@);
    out
}

/// The dump of a chain of clauses.
pub fn show_syntax_box(b: &SyntaxBoxBranch) -> (r: String)
    ensures
        r@ == show(b@),
    decreases b, 0nat,
{
    let inner = show_syntaxes(&b.contents, Layout::Plain);
    let mut out = String::new();
    push_text(&mut out, b.name.as_str());
    push_text(&mut out, inner.as_str());
    assert(out@ =~= b.name@ + inner@);
    out
}

/// The dump of a call.
pub fn show_func(b: &FuncBranch) -> (r: String)
    ensures
        r@ == show(b@),
    decreases b, 0nat,
{
    assert(b@ matches Atom::Func { callee, .. } && *callee == (*b.name)@);
    let head = show_expr(&*b.name);
    let args = show_exprs(&b.contents, Layout::Arguments { depth: b.depth });
    let mut out = String::new();
    push_indent(&mut out, b.depth, 4);
    push_text(&mut out, "func name\n");
    push_text(&mut out, head.as_str());
    push_indent(&mut out, b.depth, 4);
    push_text(&mut out, "(\n");
    push_text(&mut out, args.as_str());
    push_indent(&mut out, b.depth, 4);
    push_text(&mut out, ")");
    assert(out@ =~= indent(b.depth, 4) + "func name\n"@ + head@ + indent(b.depth, 4) + "(\n"@ + args@ + indent(
        b.depth,
        4,
    ) + ")"@);
    out
}

/// The dump of a subscript.
pub fn show_list(b: &ListBranch) -> (r: String)
    ensures
        r@ == show(b@),
    decreases b, 0nat,
{
    assert(b@ matches Atom::List { callee, .. } && *callee == (*b.name)@);
    let head = show_expr(&*b.name);
    let items = show_exprs(&b.contents, Layout::Plain);
    let mut out = String::new();
    push_indent(&mut out, b.depth, 4);
    push_text(&mut out, "(\n");
    push_indent(&mut out, b.depth, 4);
    push_text(&mut out, "List name\n");
    push_text(&mut out, head.as_str());
    push_text(&mut out, items.as_str());
    push_indent(&mut out, b.depth, 4);
    push_text(&mut out, ")\n");
    assert(out@ =~= indent(b.depth, 4) + "(\n"@ + indent(b.depth, 4) + "List name\n"@ + head@ + items@ + indent(
        b.depth,
        4,
    ) + ")\n"@);
    out
}

/// The dump of an operand.
pub fn show_item(b: &ItemBranch) -> (r: String)
    ensures
        r@ == show(b@),
    decreases b, 0nat,
{
    let inner = show_exprs(&b.contents, Layout::Plain);
    let mut out = String::new();
    push_indent(&mut out, b.depth, 4);
    push_text(&mut out, "Item(\n");
    push_text(&mut out, inner.as_str());
    push_text(&mut out, "\n");
    push_indent(&mut out, b.depth, 4);
    push_text(&mut out, ")");
    assert(out@ =~= indent(b.depth, 4) + "Item(\n"@ + inner@ + "\n"@ + indent(b.depth, 4) + ")"@);
    out
}

/// The dump of an expression statement.
pub fn show_expr_stmt(b: &ExprBranch) -> (r: String)
    ensures
        r@ == show(b@),
    decreases b, 0nat,
{
    assert(exprs_view(b.code_list@).len() == b.code_list@.len());
    let inner = show_exprs(&b.code_list, Layout::Padded { depth: b.depth });
    let mut out = String::new();
    push_text(&mut out, "ExprBranch(");
    push_decimal_usize(&mut out, b.code_list.len());
    push_text(&mut out, "){\n");
    push_text(&mut out, inner.as_str());
    push_text(&mut out, "}\n");
    assert(out@ =~= "ExprBranch("@ + decimal_nat(b.code_list@.len()) + "){\n"@ + inner@ + "}\n"@);
    out
}

/// The dump of a control statement.
pub fn show_control_stmt(b: &StmtBranch) -> (r: String)
    ensures
        r@ == show(b@),
    decreases b, 0nat,
{
    let inner = show_exprs(&b.code_list, Layout::Plain);
    let mut out = String::new();
    push_text(&mut out, "control Branch \"");
    push_text(&mut out, b.head.as_str());
    push_text(&mut out, "\" (\n");
    push_text(&mut out, inner.as_str());
    push_text(&mut out, ")\n");
    assert(out@ =~= "control Branch \""@ + b.head@ + "\" (\n"@ + inner@ + ")\n"@);
    out
}

impl ASTBranch for BlockBranch {
    fn get_show_as_string(&self) -> (r: String)
        ensures
            r@ == show(self@),
    {
        show_block(self)
    }
}

impl ASTBranch for ListBlockBranch {
    fn get_show_as_string(&self) -> (r: String)
        ensures
            r@ == show(self@),
    {
        show_list_block(self)
    }
}

impl ASTBranch for ParenBlockBranch {
    fn get_show_as_string(&self) -> (r: String)
        ensures
            r@ == show(self@),
    {
        show_paren_block(self)
    }
}

impl ASTBranch for SyntaxBranch {
    fn get_show_as_string(&self) -> (r: String)
        ensures
            r@ == show(self@),
    {
        show_syntax(self)
    }
}

impl ASTBranch for SyntaxBoxBranch {
    fn get_show_as_string(&self) -> (r: String)
        ensures
            r@ == show(self@),
    {
        show_syntax_box(self)
    }
}

impl ASTBranch for FuncBranch {
    fn get_show_as_string(&self) -> (r: String)
        ensures
            r@ == show(self@),
    {
        show_func(self)
    }
}

impl ASTBranch for ListBranch {
    fn get_show_as_string(&self) -> (r: String)
        ensures
            r@ == show(self@),
    {
        show_list(self)
    }
}

impl ASTBranch for ItemBranch {
    fn get_show_as_string(&self) -> (r: String)
        ensures
            r@ == show(self@),
    {
        show_item(self)
    }
}

impl ASTBranch for ExprBranch {
    fn get_show_as_string(&self) -> (r: String)
        ensures
            r@ == show(self@),
    {
        show_expr_stmt(self)
    }
}

impl ASTBranch for StmtBranch {
    fn get_show_as_string(&self) -> (r: String)
        ensures
            r@ == show(self@),
    {
        show_control_stmt(self)
    }
}

impl ASTBranch for WordBranch {
    fn get_show_as_string(&self) -> (r: String)
        ensures
            r@ == show(self@),
    {
        show_word(self)
    }
}

impl ASTBranch for StringBranch {
    fn get_show_as_string(&self) -> (r: String)
        ensures
            r@ == show(self@),
    {
        show_string(self)
    }
}

impl ASTBranch for CommentBranch {
    fn get_show_as_string(&self) -> (r: String)
        ensures
            r@ == show(self@),
    {
        show_comment(self)
    }
}

impl ASTBranch for OperatorBranch {
    fn get_show_as_string(&self) -> (r: String)
        ensures
            r@ == show(self@),
    {
        show_operator(self)
    }
}

impl ASTBranch for UnKnownBranch {
    fn get_show_as_string(&self) -> (r: String)
        ensures
            r@ == show(self@),
    {
        show_unknown(self)
    }
}

/// The dump of a node of a type annotation.
pub open spec fn show_type_atom(a: TypeAtom) -> Seq<char>
    decreases a, 0nat,
{
    match a {
        TypeAtom::Unknown { ch } => "UnKnownBranch :\""@ + seq![ch] + "\""@,
        TypeAtom::Primitive { primitive_type, .. } => primitive_type.name(),
        TypeAtom::TypeBlock { code_list, .. } => "<"@ + show_type_atoms(code_list, code_list.len() as int) + ">"@,
    }
}

/// The dumps of the first `k` nodes of a run of a type annotation, one after the other.
pub open spec fn show_type_atoms(s: Seq<TypeAtom>, k: int) -> Seq<char>
    decreases s, k,
{
    if k <= 0 || k > s.len() {
        Seq::empty()
    } else {
        show_type_atoms(s, k - 1) + show_type_atom(s[k - 1])
    }
}

/// The dump of a node of a type annotation.
pub fn show_type(e: &TypeElem) -> (r: String)
    ensures
        r@ == show_type_atom(e@),
    decreases e, 1nat,
{
    match e {
        TypeElem::PrimitiveElem(b) => b.primitive_type.get_show_as_string(),
        TypeElem::TypeBlockElem(b) => show_type_block(b),
        TypeElem::UnKnownElem(b) => {
            let mut out = String::new();
            push_text(&mut out, "UnKnownBranch :\"");
            push_char(&mut out, b.contents);
            push_text(&mut out, "\"");
            assert(out@ =~= "UnKnownBranch :\""@ + seq![b.contents] + "\""@);
            out
        },
    }
}

/// The dump of a `< ... >`.
pub fn show_type_block(b: &TypeBlockBranch) -> (r: String)
    ensures
        r@ == show_type_atom(b@),
    decreases b, 0nat,
{
    let ghost input = types_view(b.code_list@);
    let mut out = String::new();
    push_text(&mut out, "<");
    let mut i: usize = 0;
    assert(out@ =~= "<"@ + show_type_atoms(input, 0));
    while i < b.code_list.len()
        invariant
            i <= b.code_list.len(),
            input == types_view(b.code_list@),
            input.len() == b.code_list@.len(),
            out@ == "<"@ + show_type_atoms(input, i as int),
        decreases b.code_list.len() - i,
    {
        assert(input[i as int] == b.code_list[i as int]@);
        let one = show_type(&b.code_list[i]);
        push_text(&mut out, one.as_str());
        i += 1;
        assert(out@ =~= "<"@ + show_type_atoms(input, i as int));
    }
    push_text(&mut out, ">");
    out
}

impl TypeElem {
    /// The text dump of the node.
    pub fn get_show_as_string(&self) -> (r: String)
        ensures
            r@ == show_type_atom(self@),
    {
        show_type(self)
    }
}

impl ASTBranch for TypeBlockBranch {
    fn get_show_as_string(&self) -> (r: String)
        ensures
            r@ == show_type_atom(self@),
    {
        show_type_block(self)
    }
}

impl ASTBranch for PrimitiveBranch {
    fn get_show_as_string(&self) -> (r: String)
        ensures
            r@ == self.primitive_type.name(),
    {
        self.primitive_type.get_show_as_string()
    }
}

} // verus!

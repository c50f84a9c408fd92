//! The generator: it walks a resolved tree and emits WebAssembly text.
use crate::abs::ast::{exprs_view, stmts_view, syntaxes_view, ExprElem, StmtElem};
use crate::abs::gen::Wasm_gen;
use crate::abs::atom::Atom;
use crate::errors::generate_errors::GenerateError;
use crate::gen::wat::{
    assign_text, block_label, branch_text, compound_instruction, compound_text, count_if, ends, is_number, join,
    has_one_code, lemma_join_assoc, loop_label, next_code, number_from, operator_text, prefix_or, wat_as, wat_chain, wat_clause, wat_condition,
    wat_control, wat_expr_stmt, wat_func, wat_if, wat_item, wat_list_contents, wat_list_name, wat_paren,
    wat_seq, wat_stmts, wat_target, wat_while, wat_word, while_close, while_open, while_test, Role, Wat,
};
use crate::text::{chars_of, decimal, push_decimal, push_text, same_text};
use crate::token::func::FuncBranch;
use crate::token::item::ItemBranch;
use crate::token::list::ListBranch;
use crate::token::operator::OperatorBranch;
use crate::token::paren_block::ParenBlockBranch;
use crate::token::stmt::expr::ExprBranch;
use crate::token::stmt::stmt::StmtBranch;
use crate::token::syntax::SyntaxBranch;
use crate::token::syntax_box::SyntaxBoxBranch;
use crate::token::word::WordBranch;
use vstd::prelude::*;

verus! {

/// The prefix of the label of a loop.
pub const LOOP_ADDR: &'static str = "L";

/// The prefix of the label of the block of a loop.
pub const BLOCK_ADDR: &'static str = "B";

/// The name that stands for the linear memory.
pub const MEMORY_SPACE_NAME: &'static str = "__mem";

/// The text of the outcome of the generator.
pub open spec fn wat_outcome(r: Result<String, GenerateError>) -> Wat {
    match r {
        Ok(s) => Ok(s@),
        Err(e) => Err(e),
    }
}

/// Whether a word is a number literal.
pub fn word_is_num(w: &WordBranch) -> (r: Result<bool, GenerateError>)
    ensures
        r == is_number(w.contents@),
{
    let chars = chars_of(w.contents.as_str());
    let mut i: usize = 0;
    while i < chars.len()
        invariant
            i <= chars.len(),
            chars@ == w.contents@,
            number_from(chars@, i as int) == is_number(chars@),
        decreases chars.len() - i,
    {
        let c = chars[i];
        if c == '.' {
            if i == 0 || i == chars.len() - 1 {
                return Err(GenerateError::InvalidNum);
            }
        } else if !('0' <= c && c <= '9') {
            return Ok(false);
        }
        i += 1;
    }
    Ok(true)
}

/// The value of a word.
pub fn word_wasm(w: &WordBranch) -> (r: Result<String, GenerateError>)
    ensures
        wat_outcome(r) == wat_word(w.contents@),
{
    let mut out = String::new();
    if word_is_num(w)? {
        push_text(&mut out, "i32.const ");
    } else {
        push_text(&mut out, "local.get $");
    }
    push_text(&mut out, w.contents.as_str());
    push_text(&mut out, "\n");
    proof {
        let lead = if is_number(w.contents@) == Ok::<bool, GenerateError>(true) {
            "i32.const "@
        } else {
            "local.get $"@
        };
        assert(out@ =~= lead + w.contents@ + "\n"@);
    }
    Ok(out)
}

/// Two texts one after the other; the first error wins.
pub fn join_wasm(a: Result<String, GenerateError>, b: Result<String, GenerateError>) -> (r: Result<
    String,
    GenerateError,
>)
    ensures
        wat_outcome(r) == join(wat_outcome(a), wat_outcome(b)),
{
    let mut x = a?;
    let y = b?;
    push_text(&mut x, y.as_str());
    Ok(x)
}

/// A text followed by a fixed instruction.
pub fn then_wasm(a: Result<String, GenerateError>, instruction: &str) -> (r: Result<String, GenerateError>)
    ensures
        wat_outcome(r) == join(wat_outcome(a), Ok(instruction@)),
{
    let mut x = a?;
    push_text(&mut x, instruction);
    Ok(x)
}

/// What an operator emits for two operands that leave one value each.
pub fn normal_ope_gen_wasm(
    left: Result<String, GenerateError>,
    right: Result<String, GenerateError>,
    ope_string: &str,
) -> (r: Result<String, GenerateError>)
    ensures
        wat_outcome(r) == join(join(wat_outcome(left), wat_outcome(right)), Ok(ope_string@)),
{
    then_wasm(join_wasm(left, right), ope_string)
}

/// The operand of a prefix operator: `dflt` where the operand slot is empty.
pub fn prefix_operand(l: &ExprElem, left: Result<String, GenerateError>, dflt: &str) -> (r: Result<
    String,
    GenerateError,
>)
    ensures
        wat_outcome(r) == prefix_or(l@, wat_outcome(left), dflt@),
{
    match l {
        ExprElem::ItemElem(item) => {
            assert(exprs_view(item.contents@).len() == item.contents@.len());
            if next_code_at(&item.contents, 0) >= item.contents.len() {
                let mut out = String::new();
                push_text(&mut out, dflt);
                assert(out@ =~= dflt@);
                Ok(out)
            } else {
                left
            }
        },
        _ => left,
    }
}

/// The position of the first node at or after `from` that is no comment,
/// and the length of the run where there is none.
pub fn next_code_at(list: &Vec<ExprElem>, from: usize) -> (k: usize)
    requires
        from <= list.len(),
    ensures
        k == next_code(exprs_view(list@), from as int),
        from <= k <= list.len(),
    decreases list.len() - from,
{
    assert(exprs_view(list@).len() == list@.len());
    if from >= list.len() {
        return list.len();
    }
    assert(exprs_view(list@)[from as int] == list[from as int]@);
    match &list[from] {
        ExprElem::CommentElem(_) => next_code_at(list, from + 1),
        _ => from,
    }
}

/// Whether a run holds exactly one node that is no comment, and the position of its first such node.
pub fn one_code_at(list: &Vec<ExprElem>) -> (r: (bool, usize))
    ensures
        r.0 == has_one_code(exprs_view(list@)),
        r.1 == next_code(exprs_view(list@), 0),
        r.1 <= list.len(),
{
    assert(exprs_view(list@).len() == list@.len());
    let k = next_code_at(list, 0);
    if k >= list.len() {
        (false, k)
    } else {
        (next_code_at(list, k + 1) >= list.len(), k)
    }
}

/// What `-` emits; with no left operand it subtracts from `0`.
pub fn sub_gen_wasm(l: &ExprElem, left: Result<String, GenerateError>, right: Result<String, GenerateError>) -> (r:
    Result<String, GenerateError>)
    ensures
        wat_outcome(r) == join(
            join(prefix_or(l@, wat_outcome(left), "i32.const 0\n"@), wat_outcome(right)),
            Ok("i32.sub\n"@),
        ),
{
    normal_ope_gen_wasm(prefix_operand(l, left, "i32.const 0\n"), right, "i32.sub\n")
}

/// What `!` emits; with no left operand it is an exclusive or with `1`.
pub fn not_gen_wasm(l: &ExprElem, left: Result<String, GenerateError>, right: Result<String, GenerateError>) -> (r:
    Result<String, GenerateError>)
    ensures
        wat_outcome(r) == join(
            join(prefix_or(l@, wat_outcome(left), "i32.const 1\n"@), wat_outcome(right)),
            Ok("i32.xor\n"@),
        ),
{
    normal_ope_gen_wasm(prefix_operand(l, left, "i32.const 1\n"), right, "i32.xor\n")
}

/// What `=` emits.
pub fn equal_gen_wasm(l: &ExprElem, right: Result<String, GenerateError>, target: Result<String, GenerateError>) -> (r:
    Result<String, GenerateError>)
    ensures
        wat_outcome(r) == assign_text(l@, wat_outcome(right), wat_outcome(target)),
{
    let value = right?;
    match l {
        ExprElem::ItemElem(item) => {
            assert(exprs_view(item.contents@).len() == item.contents@.len());
            let k = next_code_at(&item.contents, 0);
            if k >= item.contents.len() {
                return Err(GenerateError::InvalidleftPattern);
            }
            assert(exprs_view(item.contents@)[k as int] == item.contents[k as int]@);
            match &item.contents[k] {
                ExprElem::WordElem(w) => {
                    let mut out = value;
                    push_text(&mut out, "local.set $");
                    push_text(&mut out, w.contents.as_str());
                    push_text(&mut out, "\n");
                    Ok(out)
                },
                ExprElem::ListElem(_) => {
                    let mut out = target?;
                    push_text(&mut out, value.as_str());
                    push_text(&mut out, "i32.store\n");
                    Ok(out)
                },
                _ => Err(GenerateError::InvalidleftPattern),
            }
        },
        _ => Err(GenerateError::Deverror),
    }
}

/// The instruction of a compound assignment.
pub fn compound_instruction_of(ope: &str) -> (r: Result<&'static str, GenerateError>)
    ensures
        match r {
            Ok(s) => compound_instruction(ope@) == Ok::<Seq<char>, GenerateError>(s@),
            Err(e) => compound_instruction(ope@) == Err::<Seq<char>, GenerateError>(e),
        },
{
    if same_text(ope, "+=") {
        Ok("i32.add\n")
    } else if same_text(ope, "-=") {
        Ok("i32.sub\n")
    } else if same_text(ope, "*=") {
        Ok("i32.mul\n")
    } else if same_text(ope, "/=") {
        Ok("i32.div\n")
    } else if same_text(ope, "%=") {
        Ok("i32.rem_s\n")
    } else {
        Err(GenerateError::Deverror)
    }
}

/// What the compound assignment `ope` of the operand `r_expr` to the
/// operand `l_expr` emits.
pub fn ref_aequal_gen_wasm(l_expr: &ExprElem, r_expr: &ExprElem, ope: &str) -> (r: Result<String, GenerateError>)
    ensures
        wat_outcome(r) == compound_text(l_expr@, wat_item(r_expr@), ope@),
{
    compound_wasm(l_expr, operand_wasm(r_expr), ope)
}

/// What a compound assignment emits, where `right` is what its right operand emits.
pub fn compound_wasm(l: &ExprElem, right: Result<String, GenerateError>, ope: &str) -> (r: Result<
    String,
    GenerateError,
>)
    ensures
        wat_outcome(r) == compound_text(l@, wat_outcome(right), ope@),
{
    let value = right?;
    match l {
        ExprElem::ItemElem(item) => {
            assert(exprs_view(item.contents@).len() == item.contents@.len());
            let k = next_code_at(&item.contents, 0);
            if k >= item.contents.len() {
                return Err(GenerateError::InvalidleftPattern);
            }
            assert(exprs_view(item.contents@)[k as int] == item.contents[k as int]@);
            match &item.contents[k] {
                ExprElem::WordElem(w) => {
                    let instruction = compound_instruction_of(ope)?;
                    let mut out = String::new();
                    push_text(&mut out, "local.get $");
                    push_text(&mut out, w.contents.as_str());
                    push_text(&mut out, "\n");
                    push_text(&mut out, value.as_str());
                    push_text(&mut out, instruction);
                    push_text(&mut out, "local.set $");
                    push_text(&mut out, w.contents.as_str());
                    push_text(&mut out, "\n");
                    assert(out@ =~= "local.get $"@ + w.contents@ + "\n"@ + value@ + instruction@ + "local.set $"@
                        + w.contents@ + "\n"@);
                    Ok(out)
                },
                _ => Err(GenerateError::InvalidleftPattern),
            }
        },
        _ => Err(GenerateError::Deverror),
    }
}

/// What the operator `ope` emits when it is applied to two operands.
///
/// `l` is the left operand, `left` and `right` are what the two operands
/// emit, `target` is what the address of the left operand emits.
pub fn operator_wasm(
    ope: &str,
    l: &ExprElem,
    left: Result<String, GenerateError>,
    right: Result<String, GenerateError>,
    target: Result<String, GenerateError>,
) -> (r: Result<String, GenerateError>)
    ensures
        wat_outcome(r) == operator_text(ope@, l@, wat_outcome(left), wat_outcome(right), wat_outcome(target)),
{
    if same_text(ope, "=") {
        equal_gen_wasm(l, right, target)
    } else if same_text(ope, "+=") || same_text(ope, "-=") || same_text(ope, "*=") || same_text(ope, "/=")
        || same_text(ope, "%=") {
        compound_wasm(l, right, ope)
    } else if same_text(ope, "+") {
        normal_ope_gen_wasm(left, right, "i32.add\n")
    } else if same_text(ope, "-") {
        sub_gen_wasm(l, left, right)
    } else if same_text(ope, "*") {
        normal_ope_gen_wasm(left, right, "i32.mul\n")
    } else if same_text(ope, "/") {
        normal_ope_gen_wasm(left, right, "i32.div\n")
    } else if same_text(ope, "%") {
        normal_ope_gen_wasm(left, right, "i32.rem_s\n")
    } else if same_text(ope, "&&") {
        normal_ope_gen_wasm(left, right, "i32.and\n")
    } else if same_text(ope, "||") {
        normal_ope_gen_wasm(left, right, "i32.or\n")
    } else if same_text(ope, "!") {
        not_gen_wasm(l, left, right)
    } else if same_text(ope, "==") {
        normal_ope_gen_wasm(left, right, "i32.eq\n")
    } else if same_text(ope, "!=") {
        normal_ope_gen_wasm(left, right, "i32.ne\n")
    } else if same_text(ope, "<") {
        normal_ope_gen_wasm(left, right, "i32.lt_s\n")
    } else if same_text(ope, ">") {
        normal_ope_gen_wasm(left, right, "i32.gt_s\n")
    } else if same_text(ope, "<=") {
        normal_ope_gen_wasm(left, right, "i32.le_s\n")
    } else if same_text(ope, ">=") {
        normal_ope_gen_wasm(left, right, "i32.ge_s\n")
    } else {
        Err(GenerateError::InvalidOperation)
    }
}

/// What a control statement emits.
pub fn control_wasm(b: &StmtBranch) -> (r: Result<String, GenerateError>)
    ensures
        wat_outcome(r) == wat_control(b@),
{
    let mut out = String::new();
    if same_text(b.head.as_str(), "return") {
        push_text(&mut out, "return\n");
        assert(out@ =~= "return\n"@);
        Ok(out)
    } else if same_text(b.head.as_str(), "break") {
        push_text(&mut out, "br $");
        push_text(&mut out, BLOCK_ADDR);
        push_decimal(&mut out, b.loopdepth as i128 - 1);
        push_text(&mut out, "\n");
        push_text(&mut out, "unreachable\n");
        assert(out@ =~= branch_text(block_label(b.loopdepth - 1)));
        Ok(out)
    } else if same_text(b.head.as_str(), "continue") {
        push_text(&mut out, "br $");
        push_text(&mut out, LOOP_ADDR);
        push_decimal(&mut out, b.loopdepth as i128 - 1);
        push_text(&mut out, "\n");
        push_text(&mut out, "unreachable\n");
        assert(out@ =~= branch_text(loop_label(b.loopdepth - 1)));
        Ok(out)
    } else {
        Err(GenerateError::Deverror)
    }
}

/// The number of `if` and `elif` clauses in a chain.
pub fn count_if_section(if_state_contents: &Vec<SyntaxBranch>) -> (c: usize)
    ensures
        c == count_if(syntaxes_view(if_state_contents@)),
{
    let ghost input = syntaxes_view(if_state_contents@);
    let mut c: usize = 0;
    let mut i: usize = 0;
    assert(input.take(0) =~= Seq::<Atom>::empty());
    while i < if_state_contents.len()
        invariant
            i <= if_state_contents.len(),
            input == syntaxes_view(if_state_contents@),
            c == count_if(input.take(i as int)),
            c <= i,
        decreases if_state_contents.len() - i,
    {
        assert(input[i as int] == if_state_contents[i as int]@);
        assert(input.take(i + 1).drop_last() =~= input.take(i as int));
        assert(input.take(i + 1).last() == input[i as int]);
        let name = if_state_contents[i].name.as_str();
        if same_text(name, "if") || same_text(name, "elif") {
            c += 1;
        }
        i += 1;
    }
    assert(input.take(if_state_contents.len() as int) =~= input);
    c
}

/// Appends `n` times `end` to `out`.
pub fn push_ends(out: &mut String, n: usize)
    ensures
        final(out)@ == old(out)@ + ends(n as nat),
{
    let mut i: usize = 0;
    assert(out@ =~= old(out)@ + ends(0));
    while i < n
        invariant
            i <= n,
            out@ == old(out)@ + ends(i as nat),
        decreases n - i,
    {
        push_text(out, "end\n");
        i += 1;
        assert(out@ =~= old(out)@ + ends(i as nat));
    }
}

/// What a call emits.
pub fn func_wasm(f: &FuncBranch) -> (r: Result<String, GenerateError>)
    ensures
        wat_outcome(r) == wat_func(f@),
    decreases f, 0nat,
{
    assert(exprs_view(f.contents@).len() == f.contents@.len());
    assert(f@ matches Atom::Func { callee, .. } && *callee == (*f.name)@);
    match &*f.name {
        ExprElem::OpeElem(o) => {
            if f.contents.len() < 2 {
                return Err(GenerateError::Deverror);
            }
            assert(exprs_view(f.contents@)[0] == f.contents[0]@);
            assert(exprs_view(f.contents@)[1] == f.contents[1]@);
            let left = operand_wasm(&f.contents[0]);
            let right = operand_wasm(&f.contents[1]);
            let target = target_wasm(&f.contents[0]);
            operator_wasm(o.ope.as_str(), &f.contents[0], left, right, target)
        },
        ExprElem::WordElem(w) => {
            let mut out = args_wasm(&f.contents)?;
            push_text(&mut out, "call $");
            push_text(&mut out, w.contents.as_str());
            push_text(&mut out, "\n");
            proof {
                let args = wat_seq(exprs_view(f.contents@), 0, Role::Argument);
                assert(out@ =~= args->Ok_0 + ("call $"@ + w.contents@ + "\n"@));
            }
            Ok(out)
        },
        _ => Err(GenerateError::Deverror),
    }
}

/// What an operand of an operator emits; only an `Item` is an operand.
pub fn operand_wasm(e: &ExprElem) -> (r: Result<String, GenerateError>)
    ensures
        wat_outcome(r) == wat_item(e@),
    decreases e, 0nat,
{
    match e {
        ExprElem::ItemElem(item) => item_wasm(item),
        _ => Err(GenerateError::Deverror),
    }
}

/// What the address of the left side of an assignment emits.
pub fn target_wasm(e: &ExprElem) -> (r: Result<String, GenerateError>)
    ensures
        wat_outcome(r) == wat_target(e@),
    decreases e, 0nat,
{
    match e {
        ExprElem::ItemElem(item) => {
            assert(exprs_view(item.contents@).len() == item.contents@.len());
            let k = next_code_at(&item.contents, 0);
            if k >= item.contents.len() {
                return Ok(String::new());
            }
            assert(exprs_view(item.contents@)[k as int] == item.contents[k as int]@);
            match &item.contents[k] {
                ExprElem::ListElem(list) => {
                    assert(list@ matches Atom::List { callee, .. } && *callee == (*list.name)@);
                    match &*list.name {
                        ExprElem::WordElem(w) => {
                            if same_text(w.contents.as_str(), MEMORY_SPACE_NAME) {
                                list_contents_wasm(list)
                            } else {
                                Err(GenerateError::InvalidleftPattern)
                            }
                        },
                        _ => Err(GenerateError::InvalidleftPattern),
                    }
                },
                _ => Ok(String::new()),
            }
        },
        _ => Ok(String::new()),
    }
}

/// What an operand emits.
pub fn item_wasm(item: &ItemBranch) -> (r: Result<String, GenerateError>)
    ensures
        wat_outcome(r) == wat_item(item@),
    decreases item, 0nat,
{
    assert(exprs_view(item.contents@).len() == item.contents@.len());
    let (one, k) = one_code_at(&item.contents);
    if k >= item.contents.len() {
        Ok(String::new())
    } else if one {
        assert(exprs_view(item.contents@)[k as int] == item.contents[k as int]@);
        match &item.contents[k] {
            ExprElem::WordElem(w) => word_wasm(w),
            ExprElem::FuncElem(f) => func_wasm(f),
            ExprElem::ParenBlockElem(p) => paren_wasm(p),
            ExprElem::ListElem(l) => then_wasm(list_name_wasm(l), "i32.load\n"),
            _ => Err(GenerateError::Deverror),
        }
    } else {
        Err(GenerateError::Deverror)
    }
}

/// What a parenthesis emits.
pub fn paren_wasm(p: &ParenBlockBranch) -> (r: Result<String, GenerateError>)
    ensures
        wat_outcome(r) == wat_paren(p@),
    decreases p, 0nat,
{
    assert(exprs_view(p.contents@).len() == p.contents@.len());
    let (one, k) = one_code_at(&p.contents);
    if k >= p.contents.len() {
        Ok(String::new())
    } else if one {
        assert(exprs_view(p.contents@)[k as int] == p.contents[k as int]@);
        match &p.contents[k] {
            ExprElem::FuncElem(f) => func_wasm(f),
            ExprElem::WordElem(w) => word_wasm(w),
            ExprElem::ParenBlockElem(inner) => paren_wasm(inner),
            _ => Err(GenerateError::Deverror),
        }
    } else {
        Err(GenerateError::Deverror)
    }
}

/// The index of a subscript.
pub fn list_contents_wasm(l: &ListBranch) -> (r: Result<String, GenerateError>)
    ensures
        wat_outcome(r) == wat_list_contents(l@),
    decreases l, 0nat,
{
    assert(exprs_view(l.contents@).len() == l.contents@.len());
    if l.contents.len() == 0 {
        return Err(GenerateError::Deverror);
    }
    assert(exprs_view(l.contents@)[0] == l.contents[0]@);
    operand_wasm(&l.contents[0])
}

/// The address that a subscript names.
pub fn list_name_wasm(l: &ListBranch) -> (r: Result<String, GenerateError>)
    ensures
        wat_outcome(r) == wat_list_name(l@),
    decreases l, 1nat,
{
    assert(l@ matches Atom::List { callee, .. } && *callee == (*l.name)@);
    match &*l.name {
        ExprElem::WordElem(w) => {
            if same_text(w.contents.as_str(), MEMORY_SPACE_NAME) {
                list_contents_wasm(l)
            } else {
                Err(GenerateError::Deverror)
            }
        },
        _ => Err(GenerateError::Deverror),
    }
}

/// What the arguments of a call emit, in order.
pub fn args_wasm(list: &Vec<ExprElem>) -> (r: Result<String, GenerateError>)
    ensures
        wat_outcome(r) == wat_seq(exprs_view(list@), 0, Role::Argument),
    decreases list, 0nat,
{
    let ghost input = exprs_view(list@);
    let mut out = String::new();
    let mut i: usize = 0;
    assert(join(Ok(out@), wat_seq(input, 0, Role::Argument)) == wat_seq(input, 0, Role::Argument)) by {
        match wat_seq(input, 0, Role::Argument) {
            Ok(t) => {
                assert(out@ + t =~= t);
            },
            Err(_) => {},
        }
    }
    while i < list.len()
        invariant
            i <= list.len(),
            input == exprs_view(list@),
            join(Ok(out@), wat_seq(input, i as int, Role::Argument)) == wat_seq(input, 0, Role::Argument),
        decreases list.len() - i,
    {
        assert(input[i as int] == list[i as int]@);
        proof {
            lemma_join_assoc(out@, wat_as(input[i as int], Role::Argument), wat_seq(input, i + 1, Role::Argument));
        }
        let one = operand_wasm(&list[i])?;
        push_text(&mut out, one.as_str());
        i += 1;
    }
    assert(out@ + Seq::<char>::empty() =~= out@);
    Ok(out)
}

/// What the condition of a clause emits.
pub fn condition_wasm(expr: &Vec<ExprElem>) -> (r: Result<String, GenerateError>)
    ensures
        wat_outcome(r) == wat_condition(exprs_view(expr@)),
    decreases expr, 0nat,
{
    assert(exprs_view(expr@).len() == expr@.len());
    if expr.len() == 1 {
        assert(exprs_view(expr@)[0] == expr[0]@);
        match &expr[0] {
            ExprElem::FuncElem(f) => func_wasm(f),
            ExprElem::ParenBlockElem(p) => paren_wasm(p),
            _ => Err(GenerateError::Deverror),
        }
    } else {
        Err(GenerateError::Deverror)
    }
}

/// What a clause of an `if` chain emits.
pub fn wasm_if_gen(if_state: &SyntaxBranch) -> (r: Result<String, GenerateError>)
    ensures
        wat_outcome(r) == wat_if(if_state@),
    decreases if_state, 0nat,
{
    let name = if_state.name.as_str();
    if same_text(name, "if") {
        let head = then_wasm(condition_wasm(&if_state.expr), "if\n");
        join_wasm(head, wasm_stmt_gen(&if_state.contents))
    } else if same_text(name, "elif") {
        let mut lead = String::new();
        push_text(&mut lead, "else\n");
        assert(lead@ =~= "else\n"@);
        let head = then_wasm(join_wasm(Ok(lead), condition_wasm(&if_state.expr)), "if\n");
        join_wasm(head, wasm_stmt_gen(&if_state.contents))
    } else if same_text(name, "else") {
        assert(exprs_view(if_state.expr@).len() == if_state.expr@.len());
        if if_state.expr.len() == 0 {
            let mut lead = String::new();
            push_text(&mut lead, "else\n");
            assert(lead@ =~= "else\n"@);
            join_wasm(Ok(lead), wasm_stmt_gen(&if_state.contents))
        } else {
            Err(GenerateError::Deverror)
        }
    } else {
        Err(GenerateError::Deverror)
    }
}

/// What a `while` clause emits.
pub fn wasm_while_gen(while_state: &SyntaxBranch) -> (r: Result<String, GenerateError>)
    ensures
        wat_outcome(r) == wat_while(while_state@),
    decreases while_state, 0nat,
{
    if !same_text(while_state.name.as_str(), "while") {
        return Err(GenerateError::Deverror);
    }
    let n = while_state.loopdepth;
    let mut open = String::new();
    push_text(&mut open, "loop $");
    push_text(&mut open, LOOP_ADDR);
    push_decimal(&mut open, n as i128);
    push_text(&mut open, "\n");
    push_text(&mut open, "block $");
    push_text(&mut open, BLOCK_ADDR);
    push_decimal(&mut open, n as i128);
    push_text(&mut open, "\n");
    assert(open@ =~= while_open(n as int));
    let mut test = String::new();
    push_text(&mut test, "i32.const 1\n");
    push_text(&mut test, "i32.xor\n");
    push_text(&mut test, "br_if $");
    push_text(&mut test, BLOCK_ADDR);
    push_decimal(&mut test, n as i128);
    push_text(&mut test, "\n");
    assert(test@ =~= while_test(n as int));
    let mut close = String::new();
    push_text(&mut close, "br $");
    push_text(&mut close, LOOP_ADDR);
    push_decimal(&mut close, n as i128);
    push_text(&mut close, "\n");
    push_text(&mut close, "end\n");
    push_text(&mut close, "end\n");
    assert(close@ =~= while_close(n as int));
    let head = join_wasm(join_wasm(Ok(open), condition_wasm(&while_state.expr)), Ok(test));
    join_wasm(join_wasm(head, wasm_stmt_gen(&while_state.contents)), Ok(close))
}

/// What the clauses of a chain emit, in order.
pub fn clauses_wasm(list: &Vec<SyntaxBranch>, looping: bool) -> (r: Result<String, GenerateError>)
    ensures
        wat_outcome(r) == wat_seq(
            syntaxes_view(list@),
            0,
            if looping {
                Role::WhileClause
            } else {
                Role::IfClause
            },
        ),
    decreases list, 0nat,
{
    let ghost input = syntaxes_view(list@);
    let ghost role = if looping {
        Role::WhileClause
    } else {
        Role::IfClause
    };
    let mut out = String::new();
    let mut i: usize = 0;
    assert(join(Ok(out@), wat_seq(input, 0, role)) == wat_seq(input, 0, role)) by {
        match wat_seq(input, 0, role) {
            Ok(t) => {
                assert(out@ + t =~= t);
            },
            Err(_) => {},
        }
    }
    while i < list.len()
        invariant
            i <= list.len(),
            input == syntaxes_view(list@),
            role == if looping {
                Role::WhileClause
            } else {
                Role::IfClause
            },
            join(Ok(out@), wat_seq(input, i as int, role)) == wat_seq(input, 0, role),
        decreases list.len() - i,
    {
        assert(input[i as int] == list[i as int]@);
        proof {
            lemma_join_assoc(out@, wat_as(input[i as int], role), wat_seq(input, i + 1, role));
        }
        let one = if looping {
            wasm_while_gen(&list[i])?
        } else {
            wasm_if_gen(&list[i])?
        };
        push_text(&mut out, one.as_str());
        i += 1;
    }
    assert(out@ + Seq::<char>::empty() =~= out@);
    Ok(out)
}

/// What a chain emits.
pub fn chain_wasm(b: &SyntaxBoxBranch) -> (r: Result<String, GenerateError>)
    ensures
        wat_outcome(r) == wat_chain(b@),
    decreases b, 0nat,
{
    if same_text(b.name.as_str(), "if") {
        let mut out = clauses_wasm(&b.contents, false)?;
        push_ends(&mut out, count_if_section(&b.contents));
        Ok(out)
    } else if same_text(b.name.as_str(), "while") {
        clauses_wasm(&b.contents, true)
    } else {
        Err(GenerateError::Deverror)
    }
}

/// What an expression statement emits.
pub fn expr_stmt_wasm(b: &ExprBranch) -> (r: Result<String, GenerateError>)
    ensures
        wat_outcome(r) == wat_expr_stmt(b@),
    decreases b, 0nat,
{
    let ghost input = exprs_view(b.code_list@);
    let ghost role = Role::Expression;
    let mut out = String::new();
    let mut i: usize = 0;
    assert(join(Ok(out@), wat_seq(input, 0, role)) == wat_seq(input, 0, role)) by {
        match wat_seq(input, 0, role) {
            Ok(t) => {
                assert(out@ + t =~= t);
            },
            Err(_) => {},
        }
    }
    while i < b.code_list.len()
        invariant
            i <= b.code_list.len(),
            input == exprs_view(b.code_list@),
            role == Role::Expression,
            join(Ok(out@), wat_seq(input, i as int, role)) == wat_seq(input, 0, role),
        decreases b.code_list.len() - i,
    {
        assert(input[i as int] == b.code_list[i as int]@);
        proof {
            lemma_join_assoc(out@, wat_as(input[i as int], role), wat_seq(input, i + 1, role));
        }
        match &b.code_list[i] {
            ExprElem::FuncElem(f) => {
                let one = func_wasm(f)?;
                push_text(&mut out, one.as_str());
            },
            ExprElem::SyntaxBoxElem(chain) => {
                let one = chain_wasm(chain)?;
                push_text(&mut out, one.as_str());
            },
            _ => {
                assert(out@ + Seq::<char>::empty() =~= out@);
            },
        }
        i += 1;
    }
    assert(out@ + Seq::<char>::empty() =~= out@);
    Ok(out)
}

/// What a run of statements emits: expression statements and control
/// statements in order; comments emit nothing.
pub fn wasm_stmt_gen(stmt_list: &Vec<StmtElem>) -> (r: Result<String, GenerateError>)
    ensures
        wat_outcome(r) == wat_stmts(stmts_view(stmt_list@)),
    decreases stmt_list, 0nat,
{
    let ghost input = stmts_view(stmt_list@);
    let ghost role = Role::Statement;
    let mut out = String::new();
    let mut i: usize = 0;
    assert(join(Ok(out@), wat_seq(input, 0, role)) == wat_seq(input, 0, role)) by {
        match wat_seq(input, 0, role) {
            Ok(t) => {
                assert(out@ + t =~= t);
            },
            Err(_) => {},
        }
    }
    while i < stmt_list.len()
        invariant
            i <= stmt_list.len(),
            input == stmts_view(stmt_list@),
            role == Role::Statement,
            join(Ok(out@), wat_seq(input, i as int, role)) == wat_seq(input, 0, role),
        decreases stmt_list.len() - i,
    {
        assert(input[i as int] == stmt_list[i as int]@);
        proof {
            lemma_join_assoc(out@, wat_as(input[i as int], role), wat_seq(input, i + 1, role));
        }
        match &stmt_list[i] {
            StmtElem::ExprElem(e) => {
                let one = expr_stmt_wasm(e)?;
                push_text(&mut out, one.as_str());
            },
            StmtElem::Special(c) => {
                let one = control_wasm(c)?;
                push_text(&mut out, one.as_str());
            },
            StmtElem::CommentElem(_) => {
                assert(out@ + Seq::<char>::empty() =~= out@);
            },
            _ => {
                return Err(GenerateError::Deverror);
            },
        }
        i += 1;
    }
    assert(out@ + Seq::<char>::empty() =~= out@);
    Ok(out)
}

/// What reading the element at a fixed address of the linear memory emits:
/// the address, then the load, one instruction to a line.
pub fn wasm_get_memory_value_gen(index: i32) -> (r: Result<String, GenerateError>)
    ensures
        wat_outcome(r) == Ok::<Seq<char>, GenerateError>("i32.const "@ + decimal(index as int) + "\ni32.load\n"@),
{
    let mut out = String::new();
    push_text(&mut out, "i32.const ");
    push_decimal(&mut out, index as i128);
    push_text(&mut out, "\ni32.load\n");
    assert(out@ =~= "i32.const "@ + decimal(index as int) + "\ni32.load\n"@);
    Ok(out)
}

/// What writing a value to a fixed address of the linear memory emits: the
/// address, then the code of the value, then the store, one instruction to a
/// line.
pub fn wasm_set_memory_value_gen(index: i32, r_assembly_text: &str) -> (r: Result<String, GenerateError>)
    ensures
        wat_outcome(r) == Ok::<Seq<char>, GenerateError>(
            "i32.const "@ + decimal(index as int) + "\n"@ + r_assembly_text@ + "i32.store\n"@,
        ),
{
    let mut out = String::new();
    push_text(&mut out, "i32.const ");
    push_decimal(&mut out, index as i128);
    push_text(&mut out, "\n");
    push_text(&mut out, r_assembly_text);
    push_text(&mut out, "i32.store\n");
    assert(out@ =~= "i32.const "@ + decimal(index as int) + "\n"@ + r_assembly_text@ + "i32.store\n"@);
    Ok(out)
}

impl Wasm_gen for FuncBranch {
    fn generate_wasm(&self) -> (r: Result<String, GenerateError>)
        ensures
            wat_outcome(r) == wat_func(self@),
    {
        func_wasm(self)
    }
}

impl Wasm_gen for ItemBranch {
    fn generate_wasm(&self) -> (r: Result<String, GenerateError>)
        ensures
            wat_outcome(r) == wat_item(self@),
    {
        item_wasm(self)
    }
}

impl Wasm_gen for ParenBlockBranch {
    fn generate_wasm(&self) -> (r: Result<String, GenerateError>)
        ensures
            wat_outcome(r) == wat_paren(self@),
    {
        paren_wasm(self)
    }
}

impl Wasm_gen for SyntaxBoxBranch {
    fn generate_wasm(&self) -> (r: Result<String, GenerateError>)
        ensures
            wat_outcome(r) == wat_chain(self@),
    {
        chain_wasm(self)
    }
}

impl Wasm_gen for ExprBranch {
    fn generate_wasm(&self) -> (r: Result<String, GenerateError>)
        ensures
            wat_outcome(r) == wat_expr_stmt(self@),
    {
        expr_stmt_wasm(self)
    }
}

impl Wasm_gen for StmtBranch {
    fn generate_wasm(&self) -> (r: Result<String, GenerateError>)
        ensures
            wat_outcome(r) == wat_control(self@),
    {
        control_wasm(self)
    }
}

impl ListBranch {
    /// The index of the subscript.
    pub fn generate_contents_wasm(&self) -> (r: Result<String, GenerateError>)
        ensures
            wat_outcome(r) == wat_list_contents(self@),
    {
        list_contents_wasm(self)
    }

    /// The address that the subscript names.
    pub fn generate_name_wasm(&self) -> (r: Result<String, GenerateError>)
        ensures
            wat_outcome(r) == wat_list_name(self@),
    {
        list_name_wasm(self)
    }
}

impl OperatorBranch {
    /// What the operator emits when it is applied to the operands `l_expr` and `r_expr`.
    pub fn generate_wasm(&self, l_expr: &ExprElem, r_expr: &ExprElem) -> (r: Result<String, GenerateError>)
        ensures
            wat_outcome(r) == operator_text(
                self.ope@,
                l_expr@,
                wat_item(l_expr@),
                wat_item(r_expr@),
                wat_target(l_expr@),
            ),
    {
        let left = operand_wasm(l_expr);
        let right = operand_wasm(r_expr);
        let target = target_wasm(l_expr);
        operator_wasm(self.ope.as_str(), l_expr, left, right, target)
    }
}

impl SyntaxBranch {
    /// What the clause emits as a member of a chain named `head_name`.
    pub fn generate_wasm(&self, head_name: &str) -> (r: Result<String, GenerateError>)
        ensures
            wat_outcome(r) == wat_clause(self@, head_name@),
    {
        if same_text(head_name, "if") {
            wasm_if_gen(self)
        } else if same_text(head_name, "while") {
            wasm_while_gen(self)
        } else {
            Err(GenerateError::Deverror)
        }
    }
}

impl WordBranch {
    /// Whether the word is a number literal.
    pub fn self_is_num(&self) -> (r: Result<bool, GenerateError>)
        ensures
            r == is_number(self.contents@),
    {
        word_is_num(self)
    }
}

} // verus!

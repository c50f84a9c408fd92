use lichen_lang::abs::ast::{ExprElem, Token};
use lichen_lang::abs::gen::Wasm_gen;
use lichen_lang::errors::parser_errors::ParserError;
use lichen_lang::parser::core_parser::{Parser, MAX_NESTING};
use lichen_lang::parser::expr_parser::ExprParser;

fn nested_parens(levels: usize) -> String {
    format!("{}a{}", "(".repeat(levels), ")".repeat(levels))
}

fn chained_sum(operators: usize) -> String {
    let mut code = String::from("a");
    for _ in 0..operators {
        code.push_str("+a");
    }
    code
}

#[test]
fn parentheses_nest_up_to_the_limit() {
    let mut parser = ExprParser::new(nested_parens(MAX_NESTING), 0, 0);
    assert_eq!(parser.resolve(), Ok(()));
    assert_eq!(parser.code_list.len(), 1);
}

#[test]
fn parentheses_beyond_the_limit_are_refused() {
    let mut parser = ExprParser::new(nested_parens(MAX_NESTING + 1), 0, 0);
    assert_eq!(parser.resolve(), Err(ParserError::NestingTooDeep));
}

#[test]
fn very_deep_nesting_is_refused_without_overflowing_the_stack() {
    let mut parser = ExprParser::new(nested_parens(2_000), 0, 0);
    assert_eq!(parser.resolve(), Err(ParserError::NestingTooDeep));
}

#[test]
fn a_chain_of_operators_nests_two_levels_for_each_operator() {
    let mut parser = ExprParser::new(chained_sum(MAX_NESTING / 2), 0, 0);
    assert_eq!(parser.resolve(), Ok(()));
    let mut parser = ExprParser::new(chained_sum(MAX_NESTING / 2 + 1), 0, 0);
    assert_eq!(parser.resolve(), Err(ParserError::NestingTooDeep));
}

#[test]
fn a_depth_that_cannot_grow_is_refused() {
    let mut parser = ExprParser::new("(a)".to_string(), isize::MAX, 0);
    assert_eq!(parser.resolve(), Err(ParserError::NestingTooDeep));
    let mut parser = ExprParser::new("while (a) {b;}".to_string(), 0, isize::MAX);
    assert_eq!(parser.resolve(), Err(ParserError::NestingTooDeep));
}

#[test]
fn the_deepest_trees_can_be_dumped_copied_and_emitted() {
    let mut parser = ExprParser::new(nested_parens(MAX_NESTING), 0, 0);
    assert_eq!(parser.resolve(), Ok(()));
    let dump = parser.code_list[0].get_show_as_string();
    assert!(dump.starts_with("Paren\n( Paren\n(  Paren\n("));
    assert!(dump.ends_with("  ) ))"));
    let copy = parser.code_list[0].clone();
    assert_eq!(copy.get_show_as_string(), dump);
    match &parser.code_list[0] {
        ExprElem::ParenBlockElem(p) => assert_eq!(p.generate_wasm(), Ok("local.get $a\n".to_string())),
        _ => panic!("no parenthesis"),
    }

    let mut parser = ExprParser::new(chained_sum(MAX_NESTING / 2), 0, 0);
    assert_eq!(parser.resolve(), Ok(()));
    let copy = parser.code_list[0].clone();
    assert_eq!(copy.get_show_as_string(), parser.code_list[0].get_show_as_string());
    match &parser.code_list[0] {
        ExprElem::FuncElem(f) => {
            let code = f.generate_wasm().unwrap();
            assert_eq!(code.matches("local.get $a\n").count(), MAX_NESTING / 2 + 1);
            assert_eq!(code.matches("i32.add\n").count(), MAX_NESTING / 2);
            assert_eq!(code, "local.get $a\n".repeat(MAX_NESTING / 2 + 1) + &"i32.add\n".repeat(MAX_NESTING / 2));
        },
        _ => panic!("no call"),
    }
}

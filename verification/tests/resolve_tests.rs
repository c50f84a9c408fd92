use lichen_lang::abs::ast::{ASTBranch, ExprElem, RecursiveAnalysisElements, StmtElem, Token};
use lichen_lang::errors::parser_errors::ParserError;
use lichen_lang::parser::core_parser::Parser;
use lichen_lang::parser::expr_parser::{code2_vec_pre_proc_func, ExprParser};
use lichen_lang::parser::stmt_parser::StmtParser;
use lichen_lang::token::func::FuncBranch;
use lichen_lang::token::item::ItemBranch;
use lichen_lang::token::list::ListBranch;
use lichen_lang::token::paren_block::ParenBlockBranch;
use lichen_lang::token::word::WordBranch;

fn expression(code: &str) -> Vec<ExprElem> {
    let mut parser = ExprParser::new(code.to_string(), 0, 0);
    parser.resolve().unwrap();
    parser.code_list
}

fn program(code: &str) -> Vec<StmtElem> {
    let mut parser = StmtParser::new(code.to_string(), 0, 0);
    parser.resolve().unwrap();
    parser.code_list
}

fn word(text: &str) -> ExprElem {
    ExprElem::WordElem(WordBranch { contents: text.to_string(), depth: 0, loopdepth: 0 })
}

fn paren(code: &str) -> ExprElem {
    ExprElem::ParenBlockElem(ParenBlockBranch {
        contents: code2_vec_pre_proc_func(code),
        depth: 0,
        loopdepth: 0,
        resolved: false,
    })
}

#[test]
fn resolving_marks_every_composite_node() {
    let list = expression("f(a + 1)");
    match &list[0] {
        ExprElem::FuncElem(f) => {
            assert!(f.resolved);
            assert_eq!(f.contents.len(), 1);
            match &f.contents[0] {
                ExprElem::ItemElem(item) => {
                    assert!(item.resolved);
                    match &item.contents[0] {
                        ExprElem::FuncElem(sum) => {
                            assert!(sum.resolved);
                            assert_eq!(sum.contents.len(), 2);
                        },
                        _ => panic!("the argument is no sum"),
                    }
                },
                _ => panic!("the argument is no Item"),
            }
        },
        _ => panic!("no call"),
    }
}

#[test]
fn the_passes_alone_leave_the_nodes_unresolved() {
    let mut parser = ExprParser::new("f(a + 1)".to_string(), 0, 0);
    assert_eq!(parser.code2vec(), Ok(()));
    match &parser.code_list[0] {
        ExprElem::FuncElem(f) => {
            assert!(!f.resolved);
            match &f.contents[0] {
                ExprElem::ParenBlockElem(p) => {
                    assert!(!p.resolved);
                    assert_eq!(p.contents.len(), 5);
                },
                _ => panic!("the argument slot is no parenthesis"),
            }
        },
        _ => panic!("no call"),
    }
}

#[test]
fn resolving_twice_changes_nothing() {
    for code in [
        "a",
        "a+1*2",
        "f(1, g(2))(3)[4]",
        "if (a < b) { f(a); } elif (c) { g(b); } else { h(); }",
        "while (a) { if (b) { break; }; }",
        "[1, 2, [3]]",
        "(a, b)",
        "\"text\" // note",
    ] {
        let mut parser = ExprParser::new(code.to_string(), 0, 0);
        assert_eq!(parser.resolve(), Ok(()), "{}", code);
        let once = format!("{:?}", parser.code_list);
        for node in &mut parser.code_list {
            assert_eq!(node.resolve_self(), Ok(()), "{}", code);
        }
        assert_eq!(format!("{:?}", parser.code_list), once, "{}", code);
        let mut again = ExprParser::create_parser_from_vec(parser.code_list, 0, 0);
        assert_eq!(again.resolve(), Ok(()), "{}", code);
        assert_eq!(format!("{:?}", again.code_list), once, "{}", code);
    }
    let mut statements = program("a = 1; while (a < 3) { a += 1; }; return a;");
    let once = format!("{:?}", statements);
    for node in &mut statements {
        assert_eq!(node.resolve_self(), Ok(()));
    }
    assert_eq!(format!("{:?}", statements), once);
}

#[test]
fn a_call_that_was_resolved_is_not_split_again() {
    let mut list = expression("f(a, b)");
    match &mut list[0] {
        ExprElem::FuncElem(f) => {
            assert_eq!(f.contents.len(), 2);
            assert_eq!(f.resolve_self(), Ok(()));
            assert_eq!(f.contents.len(), 2);
            assert_eq!(f.get_show_as_string(), "func name\nWord \"f\"(\nItem(\nWord \"a\"\n)\nItem(\nWord \"b\"\n)\n)");
        },
        _ => panic!("no call"),
    }
}

#[test]
fn depth_grows_in_braces_and_parentheses_only() {
    let list = expression("((a))");
    match &list[0] {
        ExprElem::ParenBlockElem(outer) => {
            assert_eq!(outer.depth, 0);
            match &outer.contents[0] {
                ExprElem::ParenBlockElem(inner) => {
                    assert_eq!(inner.depth, 1);
                    match &inner.contents[0] {
                        ExprElem::WordElem(w) => assert_eq!(w.depth, 2),
                        _ => panic!("no word"),
                    }
                },
                _ => panic!("no inner parenthesis"),
            }
        },
        _ => panic!("no parenthesis"),
    }
    let list = expression("f(a)[b]");
    match &list[0] {
        ExprElem::ListElem(index) => {
            assert_eq!(index.depth, 0);
            match &index.contents[0] {
                ExprElem::ItemElem(item) => match &item.contents[0] {
                    ExprElem::WordElem(w) => assert_eq!((w.contents.as_str(), w.depth), ("b", 0)),
                    _ => panic!("no word"),
                },
                _ => panic!("no Item"),
            }
        },
        _ => panic!("no subscript"),
    }
    let mut parser = ExprParser::new("(a)".to_string(), 7, 0);
    parser.resolve().unwrap();
    match &parser.code_list[0] {
        ExprElem::ParenBlockElem(p) => match &p.contents[0] {
            ExprElem::WordElem(w) => assert_eq!(w.depth, 8),
            _ => panic!("no word"),
        },
        _ => panic!("no parenthesis"),
    }
}

fn loop_depths(list: &Vec<StmtElem>, out: &mut Vec<(String, isize)>) {
    for s in list {
        match s {
            StmtElem::ExprElem(e) => {
                out.push(("expr".to_string(), e.loopdepth));
                for node in &e.code_list {
                    if let ExprElem::SyntaxBoxElem(chain) = node {
                        for clause in &chain.contents {
                            out.push((clause.name.clone(), clause.loopdepth));
                            loop_depths(&clause.contents, out);
                        }
                    }
                }
            },
            StmtElem::Special(c) => out.push((c.head.clone(), c.loopdepth)),
            _ => {},
        }
    }
}

#[test]
fn loop_depth_grows_in_the_bodies_of_loops_only() {
    let list = program(
        "
        a = 1;
        if (a) { break; };
        while (a) {
            continue;
            if (b) { break; } else { c = 1; };
            while (d) { break; };
            for (e) { return; };
            loop { break; };
        };
        break;
        ",
    );
    let mut depths = Vec::new();
    loop_depths(&list, &mut depths);
    let expected: Vec<(String, isize)> = [
        ("expr", 0),
        ("expr", 0),
        ("if", 0),
        ("break", 0),
        ("expr", 0),
        ("while", 0),
        ("continue", 1),
        ("expr", 1),
        ("if", 1),
        ("break", 1),
        ("else", 1),
        ("expr", 1),
        ("expr", 1),
        ("while", 1),
        ("break", 2),
        ("expr", 1),
        ("for", 1),
        ("return", 2),
        ("expr", 1),
        ("loop", 1),
        ("break", 1),
        ("break", 0),
    ]
    .iter()
    .map(|(n, d)| (n.to_string(), *d))
    .collect();
    assert_eq!(depths, expected);
}

#[test]
fn a_failure_inside_is_the_failure_of_the_whole() {
    for (code, error) in [
        ("{ ( }", ParserError::BraceNotClosed),
        ("( a ] )", ParserError::BraceNotOpened),
        ("f(g(\"a))", ParserError::QuotationNotClosed),
        ("f(a, (b)", ParserError::BraceNotClosed),
        ("a + (b /* c)", ParserError::CommentBlockNotClosed),
        ("if (a) { else {b} }", ParserError::GroupingSyntaxBoxError),
        ("x[ y) ]", ParserError::BraceNotOpened),
        ("while (a) { if (b) { f(} } }", ParserError::BraceNotOpened),
    ] {
        let mut parser = ExprParser::new(code.to_string(), 0, 0);
        let before = format!("{:?}", parser.code_list);
        assert_eq!(parser.resolve(), Err(error), "{}", code);
        assert_eq!(format!("{:?}", parser.code_list), before, "{}", code);
    }
}

#[test]
fn a_node_fails_to_resolve_and_stays_as_it_was() {
    let mut node = paren("a + (b");
    let before = format!("{:?}", node);
    assert_eq!(node.resolve_self(), Err(ParserError::BraceNotClosed));
    assert_eq!(format!("{:?}", node), before);
}

#[test]
fn a_call_needs_its_one_parenthesis() {
    let mut call = FuncBranch { name: Box::new(word("f")), contents: vec![], depth: 0, loopdepth: 0, resolved: false };
    assert_eq!(call.resolve_self(), Err(ParserError::DevError));
    let mut call = FuncBranch {
        name: Box::new(word("f")),
        contents: vec![paren("a"), paren("b")],
        depth: 0,
        loopdepth: 0,
        resolved: false,
    };
    assert_eq!(call.resolve_self(), Err(ParserError::DevError));
    let mut call = FuncBranch {
        name: Box::new(word("f")),
        contents: vec![word("a")],
        depth: 0,
        loopdepth: 0,
        resolved: false,
    };
    assert_eq!(call.resolve_self(), Err(ParserError::DevError));
    let mut call = FuncBranch {
        name: Box::new(word("f")),
        contents: vec![paren("a, b")],
        depth: 0,
        loopdepth: 0,
        resolved: false,
    };
    assert_eq!(call.resolve_self(), Ok(()));
    assert_eq!(call.contents.len(), 2);
    assert!(call.resolved);
    let mut call = FuncBranch {
        name: Box::new(paren("(")),
        contents: vec![paren("a")],
        depth: 0,
        loopdepth: 0,
        resolved: false,
    };
    assert_eq!(call.resolve_self(), Err(ParserError::BraceNotClosed));
}

#[test]
fn a_subscript_needs_its_one_bracket() {
    let mut index = ListBranch { name: Box::new(word("a")), contents: vec![], depth: 0, loopdepth: 0, resolved: false };
    assert_eq!(index.resolve_self(), Err(ParserError::DevError));
    let mut index = ListBranch {
        name: Box::new(word("a")),
        contents: vec![paren("1")],
        depth: 0,
        loopdepth: 0,
        resolved: false,
    };
    assert_eq!(index.resolve_self(), Err(ParserError::DevError));
    let mut list = ExprParser::passes(&code2_vec_pre_proc_func("a[1, 2]"), 0, 0).unwrap();
    match &mut list[0] {
        ExprElem::ListElem(index) => {
            assert_eq!(index.resolve_self(), Ok(()));
            assert_eq!(index.contents.len(), 2);
        },
        _ => panic!("no subscript"),
    }
}

#[test]
fn an_operand_is_parsed_when_it_is_resolved() {
    let mut item = ItemBranch {
        contents: ExprParser::grouping_operator(&ExprParser::grouping_words(&code2_vec_pre_proc_func("a*b"), 0, 0), 0),
        depth: 0,
        loopdepth: 0,
        resolved: false,
    };
    assert!(!item.has_no_elem());
    assert_eq!(item.contents.len(), 3);
    assert_eq!(item.resolve_self(), Ok(()));
    assert_eq!(item.contents.len(), 1);
    assert!(item.resolved);
    let mut empty = ItemBranch { contents: vec![], depth: 0, loopdepth: 0, resolved: false };
    assert!(empty.has_no_elem());
    assert_eq!(empty.resolve_self(), Ok(()));
    assert!(empty.has_no_elem());
}

#[test]
fn a_list_is_read_by_the_expression_parser() {
    let list = expression("[1, a + 2]");
    match &list[0] {
        ExprElem::ListBlockElem(l) => {
            assert!(l.resolved);
            assert_eq!(l.contents.len(), 1);
            assert!(matches!(&l.contents[0], ExprElem::FuncElem(_)));
        },
        _ => panic!("no list"),
    }
    let mut parser = ExprParser::new("[ \"a ]".to_string(), 0, 0);
    assert_eq!(parser.resolve(), Err(ParserError::QuotationNotClosed));
}

use lichen_lang::abs::ast::{ExprElem, Token};
use lichen_lang::errors::parser_errors::ParserError;
use lichen_lang::parser::core_parser::Parser;
use lichen_lang::parser::expr_parser::ExprParser;
use lichen_lang::test::utils::combinations;

fn insert_space(s: Vec<&str>, n: usize) -> Vec<String> {
    let position: Vec<usize> = (0..(s.len() + 1)).collect();
    let mut rlist = Vec::new();
    for i in combinations(position, n) {
        let mut new_str = vec![];
        let mut last_index: usize = 0;
        for index in i {
            new_str.push(s[last_index..index].join(""));
            new_str.push(" ".to_string());
            last_index = index;
        }
        new_str.push(s[last_index..].join(""));
        rlist.push(new_str.join(""));
    }
    rlist
}

fn parse(code: &str) -> Result<Vec<ExprElem>, ParserError> {
    let mut parser = ExprParser::new(code.to_string(), 0, 0);
    parser.resolve()?;
    Ok(parser.code_list)
}

fn dump(list: &Vec<ExprElem>) -> String {
    let mut out = String::new();
    for i in list {
        out.push_str(i.get_show_as_string().as_str());
    }
    out
}

#[test]
fn expr_tests_expr_test00() {
    let code = " !a&& !b";
    println!("test case -> \"{}\"", code);
    let list = parse(code).unwrap();
    println!("------------------------------");
    for i in &list {
        println!("{}", i.get_show_as_string());
    }
}

#[test]
fn expr_tests_expr_test01() {
    let code = "func00(10, 123 + func01(a,b,c)) + 2 * x";
    println!("test case -> {}", code);
    let list = parse(code).unwrap();
    println!("{:#?}", list);
    println!("{}", dump(&list));
}

#[test]
fn expr_test02() {
    let code = "(10+ 1) + 2 * x";
    println!("test case -> {}", code);
    let list = parse(code).unwrap();
    println!("{}", dump(&list));
}

#[test]
fn expr_test03() {
    let code = "while  (0 < x) { 1 } else {0}(1)[2](3)";
    println!("test case -> {}", code);
    match parse(code) {
        Err(e) => println!("{:?}", e),
        Ok(list) => {
            println!("{:#?}", list);
            println!("{}", dump(&list));
        },
    }
}

#[test]
fn expr_test04() {
    let test_cases = vec![
        "// \"hello\"",
        "\"hello world\"",
        "
\"hello\"
/* \" */
// \"
",
        "\"\\\" <- quotation escape\"",
    ];
    for code in test_cases {
        println!("{}", "-".repeat(30));
        println!("test case -> {}", code);
        match parse(code) {
            Err(e) => panic!("Parser Error {:?}", e),
            Ok(list) => {
                println!("{:#?}", list);
                println!("{}", dump(&list));
            },
        }
    }
}

#[test]
fn unit_test00() {
    let test_cases = vec![
        vec!["!", "a", "&&", "!", "b"],
        vec!["-", "10", "+", "20"],
        vec!["a", "**", "b", "**", "c"],
        vec!["a", "+", "b", "+", "c"],
        vec!["(", "a", "+", "bc", ")", "+", "(", "cde", "-", "defg", ")"],
        vec!["func", "(", "10", ",", "1", ")", "+", "2", "*", "x"],
        vec!["tarai", "(", "1", ")", "(", "2", ")", "(", "3", ")"],
        vec![
            "if", "(", "0", "<", "x", ")", "{", "1", "}", "else", "{", "0", "}", "+", "1",
        ],
    ];

    for test_case in test_cases {
        let list = match parse(&test_case.join("")) {
            Ok(list) => list,
            Err(_) => panic!("unexpected ParseError occured"),
        };
        let ans_ast_string = dump(&list);
        println!("{}", ans_ast_string);

        for n in 1..test_case.len() - 1 {
            for code in insert_space(test_case.clone(), n) {
                match parse(&code) {
                    Err(_) => println!("ParseError occured"),
                    Ok(list) => {
                        let ast_string = dump(&list);
                        if ans_ast_string != ast_string {
                            panic!("test case -> \"{}\" -> Error!{}", code, ast_string);
                        }
                    },
                }
            }
        }
    }
}

#[test]
fn unit_test01() {
    let test_cases = vec![
        "a+1*2",
        "tarai[1][2][3]",
        "f(1,2,g(1,2,3))",
        "tarai(1)(2)(3)",
        "tarai(1)[2](3)",
        "tarai[1](2)[3]",
    ];
    for code in test_cases {
        println!("------------------------------------------");
        println!("test case -> {}", code);
        match parse(code) {
            Err(e) => panic!("{:?}", e),
            Ok(list) => {
                println!("{}", dump(&list));
                assert_eq!(list.len(), 1);
            },
        }
    }
}

use lichen_lang::abs::ast::Token;
use lichen_lang::parser::core_parser::Parser;
use lichen_lang::parser::expr_parser::ExprParser;
use lichen_lang::test::utils::combinations;

fn insert_space(s: Vec<&str>, n: usize) -> Vec<String> {
    let position: Vec<usize> = (0..(s.len() + 1)).collect();
    let mut rlist = Vec::new();
    for i in combinations(position, n) {
        let mut new_str = vec![];
        let mut last_index: usize = 0;
        for index in i {
            new_str.push(s[last_index..index].join(""));
            new_str.push(" ".to_string());
            last_index = index;
        }
        new_str.push(s[last_index..].join(""));
        rlist.push(new_str.join(""));
    }
    rlist
}

fn dump(parser: &ExprParser) -> String {
    let mut out = String::new();
    for i in &parser.code_list {
        out = format!("{}{}", out, i.get_show_as_string());
    }
    out
}

#[test]
fn lib_test00() {
    println!("{}hello{}", " ".repeat(4), "@".repeat(4));
}

#[test]
fn lib_test01() {
    let a = vec!["!", "a", "&&", "!", "b"];
    let mut e_parser = ExprParser::new("!a&&!b".to_string(), 0, 0);
    assert!(e_parser.resolve().is_ok());
    let ans_ast_string = dump(&e_parser);
    println!("{}", ans_ast_string);

    for code in insert_space(a, 2) {
        let string_code: String = String::from(code.clone());
        println!("test case -> \"{}\"", code);
        let mut e_parser = ExprParser::new(string_code, 0, 0);
        assert!(e_parser.resolve().is_ok());
        assert_eq!(ans_ast_string, dump(&e_parser));
    }
}

#[test]
fn test02() {
    let mut a = vec![0, 1, 2];
    let b = vec![3, 4, 5];
    a.extend(b);
    println!("{:?}", a);
    assert_eq!(a, vec![0, 1, 2, 3, 4, 5]);
}

#[test]
fn lib_expr_test00() {
    let code = " !a&& !b";
    let string_code: String = String::from(code);
    println!("test case -> \"{}\"", code);
    let mut e_parser = ExprParser::new(string_code, 0, 0);
    assert!(e_parser.resolve().is_ok());
    println!("------------------------------");
    for i in &e_parser.code_list {
        println!("{}", i.get_show_as_string());
    }
    let mut plain = ExprParser::new("!a&&!b".to_string(), 0, 0);
    assert!(plain.resolve().is_ok());
    assert_eq!(dump(&e_parser), dump(&plain));
}

#[test]
fn lib_expr_test01() {
    let code = "func(10, 1) + 2 * x";
    let string_code: String = String::from(code);
    let mut e_parser = ExprParser::new(string_code, 0, 0);
    println!("test case -> {}", code);
    assert!(e_parser.resolve().is_ok());
    for i in &e_parser.code_list {
        println!("{}", i.get_show_as_string());
    }
    assert_eq!(e_parser.code_list.len(), 1);
}

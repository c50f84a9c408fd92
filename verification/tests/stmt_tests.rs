use lichen_lang::abs::ast::{StmtElem, Token};
use lichen_lang::errors::parser_errors::ParserError;
use lichen_lang::parser::core_parser::Parser;
use lichen_lang::parser::stmt_parser::StmtParser;

fn parse(code: &str) -> Result<Vec<StmtElem>, ParserError> {
    let mut parser = StmtParser::new(code.to_string(), 0, 0);
    parser.resolve()?;
    Ok(parser.code_list)
}

fn dump(list: &Vec<StmtElem>) -> String {
    let mut out = String::new();
    for i in list {
        out.push_str(i.get_show_as_string().as_str());
    }
    out
}

#[test]
fn stmt_test00() {
    let test_cases = vec![
        "
            let mut a = 1 + 1;
            let b = 1 + 1;
            if (a < b) // hello world
            {
                print(a, b);
            };
            b = 1 + 1;
        ",
        "
            let mut a = 1 + 1;
            let b = 1 + 1;
            if (a < b){
                print(a, b);
            }
            elif (a < b){
                print(a, b);
            };
            b = 1 + 1;
        ",
        "
        let a = tarai(tarai(x - 1,  y, z), tarai(y - 1, z, x), tarai(z - 1, x, y));
        ",
        "let a: i32 = 1+2;",
        "let a: (i32, i32) -> i32 -> i32 = f();",
        "
            if (a < b){
                gcd(a, b);
                gcd(if (a){gcd(a, b);} , b);
                gcd(a, b);
            }
            elif (a < b){
                gcd(a, b);
            };
            b = 1 + 1;
        ",
        "
        let a = 42;
        return a + 1;
        ",
        "
        a = 42;
        return a + 1;
        ",
        "
        a = 42;
        return (a + 1);
        ",
        "
        while (true){
            a += 1;
            if (a >= 5){
                print(\"hello\");
                break ;
            };
        } else {
            print(\"end\");
        }
        ",
    ];

    for test_case in test_cases {
        println!("----------------------------------------------------------------");
        match parse(test_case) {
            Err(e) => {
                println!("unexpected ParseError occured");
                panic!("{:?}", e);
            },
            Ok(list) => {
                println!("@@@@@@@@@@@@@@@@@@@@@@@@@@@@@@@@");
                println!("{}", dump(&list));
            },
        }
    }
}

#[test]
fn stmt_test01() {
    let test_cases = vec![
        "
            let mut a = 1 + 1;
            let b = 1 + 1;
            if (a < b) // hello world
            {
                print(a, b);
            };
            b = 1 + 1;
        ",
        "
            let mut a = 1 + 1;
            let b = 1 + 1;
            if (a < b){
                print(a, b);
            }
            elif (a < b){
                print(a, b);
            };
            b = 1 + 1;
        ",
        "
        let a = tarai(tarai(x - 1,  y, z), tarai(y - 1, z, x), tarai(z - 1, x, y));
        ",
        "let a: i32 = 1+2;",
        "let a: (i32, i32) -> i32 -> i32 = f();",
        "
            if (a < b){
                gcd(a, b);
                gcd(if (a){gcd(a, b);} , b);
                gcd(a, b);
            }
            elif (a < b){
                gcd(a, b);
            };
            b = 1 + 1;
        ",
        "
        // こんにちは
        let i:i32 = 2;
        while (i < 100)
        {
            j = 2;
            c = 0;
            while (j < i) {
                if (i%j == 0) {
                    c = c + 1;
                };
                j = j + 1;
            };
            if (c == 0) {
                // is prime
                log(i);
            };
            i = i + 1;
        };
        ",
    ];

    for test_case in test_cases {
        println!("----------------------------------------------------------------");
        match parse(test_case) {
            Err(e) => {
                println!("unexpected ParseError occured");
                panic!("{:?}", e);
            },
            Ok(list) => {
                for i in &list {
                    println!("@@@@@@@@@@@@@@@@@@@@@@@@@@@@@@@@");
                    println!("{:?}", i);
                }
                println!("{}", dump(&list));
            },
        }
    }
}

#[test]
fn stmt_test02() {
    let test_cases = vec![
        "
        __mem[0][0] = 10;
        __mem[0] = 20;
        log(__mem[0] + __mem[1]);
        ",
    ];

    for test_case in test_cases {
        println!("----------------------------------------------------------------");
        match parse(test_case) {
            Err(e) => {
                println!("unexpected ParseError occured");
                panic!("{:?}", e);
            },
            Ok(list) => {
                println!("{}", dump(&list));
                println!("{:?}", &list);
                assert_eq!(list.len(), 3);
            },
        }
    }
}

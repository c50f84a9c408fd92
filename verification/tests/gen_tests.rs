use lichen_lang::abs::ast::{ExprElem, StmtElem, Token};
use lichen_lang::errors::generate_errors::GenerateError;
use lichen_lang::abs::gen::Wasm_gen;
use lichen_lang::parser::core_parser::Parser;
use lichen_lang::parser::expr_parser::ExprParser;
use lichen_lang::parser::stmt_parser::StmtParser;
use std::collections::HashMap;

/// What running a piece of emitted code leaves behind.
struct Run {
    stack: Vec<i32>,
    logged: Vec<i32>,
    locals: HashMap<String, i32>,
    memory: HashMap<i32, i32>,
}

/// Runs emitted code as the body of a function whose locals start with `locals`.
///
/// `call $log` takes one value and records it. Every other instruction is
/// run as WebAssembly defines it; `i32.div` divides signed numbers.
fn run(wasm_code: &str, locals: &[(&str, i32)]) -> Run {
    let code: Vec<Vec<&str>> = wasm_code
        .lines()
        .map(|l| l.split_whitespace().collect::<Vec<&str>>())
        .filter(|w| !w.is_empty())
        .collect();
    let mut closing: HashMap<usize, usize> = HashMap::new();
    let mut otherwise: HashMap<usize, usize> = HashMap::new();
    let mut open: Vec<usize> = Vec::new();
    for (at, words) in code.iter().enumerate() {
        match words[0] {
            "loop" | "block" | "if" => open.push(at),
            "else" => {
                otherwise.insert(*open.last().unwrap(), at);
            },
            "end" => {
                closing.insert(open.pop().unwrap(), at);
            },
            _ => {},
        }
    }
    assert!(open.is_empty(), "a block is left open");

    let mut state = Run {
        stack: Vec::new(),
        logged: Vec::new(),
        locals: locals.iter().map(|(n, v)| (format!("${}", n), *v)).collect(),
        memory: HashMap::new(),
    };
    let mut frames: Vec<usize> = Vec::new();
    let mut pc: usize = 0;
    let mut steps: usize = 0;
    while pc < code.len() {
        steps += 1;
        assert!(steps < 10_000_000, "the code does not end");
        let words = &code[pc];
        match words[0] {
            "i32.const" => state.stack.push(words[1].parse().unwrap()),
            "local.get" => state.stack.push(*state.locals.get(words[1]).unwrap_or(&0)),
            "local.set" => {
                let v = state.stack.pop().unwrap();
                state.locals.insert(words[1].to_string(), v);
            },
            "i32.load" => {
                let at = state.stack.pop().unwrap();
                state.stack.push(*state.memory.get(&at).unwrap_or(&0));
            },
            "i32.store" => {
                let v = state.stack.pop().unwrap();
                let at = state.stack.pop().unwrap();
                state.memory.insert(at, v);
            },
            "call" => {
                assert_eq!(words[1], "$log");
                let v = state.stack.pop().unwrap();
                state.logged.push(v);
            },
            "loop" | "block" => frames.push(pc),
            "if" => {
                let condition = state.stack.pop().unwrap();
                frames.push(pc);
                if condition == 0 {
                    match otherwise.get(&pc) {
                        Some(at) => pc = *at,
                        None => {
                            frames.pop();
                            pc = closing[&pc];
                        },
                    }
                }
            },
            "else" => {
                let start = frames.pop().unwrap();
                pc = closing[&start];
            },
            "end" => {
                frames.pop();
            },
            "br" | "br_if" => {
                let taken = words[0] == "br" || state.stack.pop().unwrap() != 0;
                if taken {
                    loop {
                        let start = *frames.last().expect("a branch to a label that is not open");
                        if code[start].len() > 1 && code[start][1] == words[1] {
                            if code[start][0] == "loop" {
                                pc = start;
                            } else {
                                frames.pop();
                                pc = closing[&start];
                            }
                            break;
                        }
                        frames.pop();
                    }
                }
            },
            "return" => break,
            "unreachable" => panic!("unreachable code was reached"),
            instruction => {
                let y = state.stack.pop().unwrap();
                let x = state.stack.pop().unwrap();
                state.stack.push(match instruction {
                    "i32.add" => x.wrapping_add(y),
                    "i32.sub" => x.wrapping_sub(y),
                    "i32.mul" => x.wrapping_mul(y),
                    "i32.div" => x.wrapping_div(y),
                    "i32.rem_s" => x.wrapping_rem(y),
                    "i32.and" => x & y,
                    "i32.or" => x | y,
                    "i32.xor" => x ^ y,
                    "i32.eq" => (x == y) as i32,
                    "i32.ne" => (x != y) as i32,
                    "i32.lt_s" => (x < y) as i32,
                    "i32.gt_s" => (x > y) as i32,
                    "i32.le_s" => (x <= y) as i32,
                    "i32.ge_s" => (x >= y) as i32,
                    other => panic!("unknown instruction {}", other),
                });
            },
        }
        pc += 1;
    }
    state
}

/// Runs straight-line code for two arguments `a` and `b` and gives the one value it leaves.
fn run_2_args_1_return(wasm_code: &str, a: i32, b: i32) -> i32 {
    let state = run(wasm_code, &[("a", a), ("b", b)]);
    assert_eq!(state.stack.len(), 1);
    state.stack[0]
}

fn expression_code(code: &str) -> String {
    let mut e_parser = ExprParser::new(code.to_string(), 0, 0);
    e_parser.resolve().unwrap();
    assert_eq!(e_parser.code_list.len(), 1);
    match &e_parser.code_list[0] {
        ExprElem::FuncElem(a) => a.generate_wasm().unwrap(),
        _ => panic!("not a call"),
    }
}

#[test]
fn gen_test00() {
    let test_cases = vec![
        "!a&&!b",
        "a != b",
        "0 <= a && a <= 10",
        "-10+20",
        "a+b+c",
        "(a+bc)+(cde-defg)",
        "func(10,1)+2*x",
        "c = !a&&!b",
        "d = -10+20",
        "e = a+b+c",
        "f = (a+bc)+(cde-defg)",
        "g = func(10,1)+2*x",
        "var = (10 - 1) + 2 * ((1 + 4) * 5)",
        "tarai(tarai(x - 1,  y, z), tarai(y - 1, z, x), tarai(z - 1, x, y))",
    ];

    for code in test_cases {
        let mut e_parser = ExprParser::new(code.to_string(), 0, 0);
        println!("------------------------------------------");
        println!("test case -> {}", code);
        match e_parser.resolve() {
            Err(e) => panic!("{:?}", e),
            Ok(_) => {
                for i in &e_parser.code_list {
                    println!("{}", i.get_show_as_string());
                    println!("--- wasm code ---");
                    match i {
                        ExprElem::FuncElem(a) => match a.generate_wasm() {
                            Ok(wasm_code) => println!("{}", wasm_code),
                            Err(e) => panic!("{:?}", e),
                        },
                        _ => panic!("not a call"),
                    }
                }
            },
        }
    }
}

#[test]
fn gen_test01() {
    let test_cases = ["!a&&!b", "!(a||b)", "a != b", "a * b != a + b", "-a <= b && b <= a"];
    let arg_set: Vec<(i32, i32)> = vec![(0, 0), (0, 1), (1, 0), (1, 1)];
    let ans: Vec<Vec<i32>> = vec![
        vec![1, 0, 0, 0],
        vec![1, 0, 0, 0],
        vec![0, 1, 1, 0],
        vec![0, 1, 1, 1],
        vec![1, 0, 1, 1],
    ];

    for (i, &code) in test_cases.iter().enumerate() {
        println!("------------------------------------------");
        println!("test case -> {}", code);
        let wasm_code = expression_code(code);
        println!("{}", wasm_code);
        for (k, &(a, b)) in arg_set.iter().enumerate() {
            assert_eq!(run_2_args_1_return(&wasm_code, a, b), ans[i][k], "{} for a={} b={}", code, a, b);
        }
    }
}

fn program_code(code: &str) -> String {
    let mut s_parser = StmtParser::new(code.to_string(), 0, 0);
    s_parser.resolve().unwrap();
    let mut wasm_text_format = String::new();
    for inner in &s_parser.code_list {
        match inner {
            StmtElem::ExprElem(expr_b) => wasm_text_format.push_str(&expr_b.generate_wasm().unwrap()),
            StmtElem::Special(control_b) => wasm_text_format.push_str(&control_b.generate_wasm().unwrap()),
            StmtElem::CommentElem(_) => {},
            _ => panic!("a statement that emits nothing"),
        }
    }
    wasm_text_format
}

#[test]
fn gen_test02() {
    let test_cases = [
        "
        i = 0;
        while (i < 10)
        {
            log(i);
            i = i + 1;
        };
        ",
        "
        i = 0;
        while (i < 10)
        {
            j = 0;
            while (!!(j < 10) && -1 < 0) {
                /*hello world*/
                log(i);
                log(j);
                j = j + 1;
            };
            i = i + 1;
        };
        ",
        "
        i = 0;
        while (i < 10)
        {
            log(0);
            i = i + 1;
        };
        i = 0;
        while (i < 10)
        {
            log(1);
            i = i + 1;
        };
        ",
        "
        i = 0;
        while (i < 10)
        {
            log(i);
            if (5 <= i) {
                break;
            };
            i = i + 1;
        };
        ",
        "
        i = 0;
        while (i < 10)
        {
            j = 0;
            while (!!(j < 10) && -1 < 0) {
                /*hello world*/
                log(i); // hello
                log(j);
                break;
                j = j + 1;
            };
            i = i + 1;
        };
        ",
        "
        // 100までの素数を求めるプログラム
        i = 2;
        while (i < 100)
        {
            //コメント
            j = 2;
            c = 0;
            while (j < i) {
            // コメント２
                if (i%j == 0) {
                    // コメント ブロック内で更にコメントをする場合
                    c += 1;
                };
                j += 1;
            };
            if (c == 0) {
                // is prime
                log(i);
            };
            i += 1;
        };
        ",
        "
        // 100までの素数を求めるプログラム
        i = 2;
        counter = 0;
        while (i < 100)
        {
            //コメント
            j = 2;
            c = 0;
            while (j < i) {
            // コメント２
                if (i%j == 0) {
                    // コメント ブロック内で更にコメントをする場合
                    c += 1;
                };
                j += 1;
            };
            if (c == 0) {
                // is prime
                __mem[counter * 4] = i;
                counter += 1;
            };
            i +=1;
        };
        ",
        "
        __mem[a] = 42;
        log(__mem[a]);
        ",
        "
        i = 0;
        while (i < 10)
        {
            __mem[i * 4] = -1;
            log(__mem[i * 4]);
            i += 1;
        };
        ",
    ];

    for test_case in test_cases {
        println!("----------------------------------------------------------------");
        println!("{}", program_code(test_case));
    }
}

#[test]
fn gen_test03() {
    let test_cases = ["
        fn main(a:i32) -> i32{
            print(\"hello world\");
        }
        "];

    for test_case in test_cases {
        let mut s_parser = StmtParser::new(test_case.to_string(), 0, 0);
        println!("----------------------------------------------------------------");
        match s_parser.resolve() {
            Err(e) => {
                println!("unexpected ParseError occured");
                println!("{:?}", e);
            },
            Ok(_) => {
                let mut a = String::default();
                for i in &s_parser.code_list {
                    a.push_str(&i.get_show_as_string());
                }
                println!("{}", a);
            },
        }
    }
}

fn expression_outcome(code: &str) -> Result<String, GenerateError> {
    let mut e_parser = ExprParser::new(code.to_string(), 0, 0);
    e_parser.resolve().unwrap();
    assert_eq!(e_parser.code_list.len(), 1, "{}", code);
    match &e_parser.code_list[0] {
        ExprElem::FuncElem(a) => a.generate_wasm(),
        ExprElem::ParenBlockElem(a) => a.generate_wasm(),
        ExprElem::SyntaxBoxElem(a) => a.generate_wasm(),
        _ => panic!("nothing that emits"),
    }
}

fn emitted(code: &str) -> String {
    expression_outcome(code).unwrap()
}

#[test]
fn precedence_decides_the_order_of_the_instructions() {
    assert_eq!(emitted("a+1*2"), "local.get $a\ni32.const 1\ni32.const 2\ni32.mul\ni32.add\n");
    assert_eq!(emitted("a*1+2"), "local.get $a\ni32.const 1\ni32.mul\ni32.const 2\ni32.add\n");
    assert_eq!(emitted("a-b-c"), "local.get $a\nlocal.get $b\nlocal.get $c\ni32.sub\ni32.sub\n");
    assert_eq!(emitted("!a==b"), "i32.const 1\nlocal.get $a\nlocal.get $b\ni32.eq\ni32.xor\n");
    assert_eq!(emitted("(a+1)*2"), "local.get $a\ni32.const 1\ni32.add\ni32.const 2\ni32.mul\n");
}

#[test]
fn the_value_of_an_expression() {
    assert_eq!(run_2_args_1_return(&emitted("(10 - 1) + 2 * ((1 + 4) * 5)"), 0, 0), 59);
    assert_eq!(run_2_args_1_return(&emitted("a+1*2"), 5, 0), 7);
    assert_eq!(run_2_args_1_return(&emitted("10 - 3 - 2"), 0, 0), 9);
    assert_eq!(run_2_args_1_return(&emitted("(10 - 3) - 2"), 0, 0), 5);
    assert_eq!(run_2_args_1_return(&emitted("-10+20"), 0, 0), -30);
    assert_eq!(run_2_args_1_return(&emitted("(-10)+20"), 0, 0), 10);
    assert_eq!(run_2_args_1_return(&emitted("7 / 2 + 7 % 2"), 0, 0), 4);
    assert_eq!(run_2_args_1_return(&emitted("a < b || a == b"), 3, 3), 1);
    assert_eq!(run_2_args_1_return(&emitted("a > b || a >= b + 1"), 3, 3), 0);
}

#[test]
fn every_operator_has_its_instruction() {
    for (ope, instruction) in [
        ("+", "i32.add"),
        ("-", "i32.sub"),
        ("*", "i32.mul"),
        ("/", "i32.div"),
        ("%", "i32.rem_s"),
        ("&&", "i32.and"),
        ("||", "i32.or"),
        ("!", "i32.xor"),
        ("==", "i32.eq"),
        ("!=", "i32.ne"),
        ("<", "i32.lt_s"),
        (">", "i32.gt_s"),
        ("<=", "i32.le_s"),
        (">=", "i32.ge_s"),
    ] {
        assert_eq!(
            emitted(&format!("a {} b", ope)),
            format!("local.get $a\nlocal.get $b\n{}\n", instruction),
            "{}",
            ope
        );
    }
}

#[test]
fn prefix_operators_take_an_implicit_operand() {
    assert_eq!(emitted("-a"), "i32.const 0\nlocal.get $a\ni32.sub\n");
    assert_eq!(emitted("!a"), "i32.const 1\nlocal.get $a\ni32.xor\n");
    assert_eq!(emitted("a * -b"), "local.get $a\ni32.const 0\nlocal.get $b\ni32.sub\ni32.mul\n");
}

#[test]
fn assignments() {
    assert_eq!(emitted("a = 1"), "i32.const 1\nlocal.set $a\n");
    assert_eq!(emitted("a = b + 1"), "local.get $b\ni32.const 1\ni32.add\nlocal.set $a\n");
    assert_eq!(emitted("a = b = 1"), "i32.const 1\nlocal.set $b\nlocal.set $a\n");
    for (ope, instruction) in [
        ("+=", "i32.add"),
        ("-=", "i32.sub"),
        ("*=", "i32.mul"),
        ("/=", "i32.div"),
        ("%=", "i32.rem_s"),
    ] {
        assert_eq!(
            emitted(&format!("a {} 2", ope)),
            format!("local.get $a\ni32.const 2\n{}\nlocal.set $a\n", instruction),
            "{}",
            ope
        );
    }
}

#[test]
fn the_linear_memory_is_read_and_written_through_its_name() {
    assert_eq!(emitted("__mem[a] = 42"), "local.get $a\ni32.const 42\ni32.store\n");
    assert_eq!(
        emitted("__mem[i * 4] = -1"),
        "local.get $i\ni32.const 4\ni32.mul\ni32.const 0\ni32.const 1\ni32.sub\ni32.store\n"
    );
    assert_eq!(emitted("log(__mem[a])"), "local.get $a\ni32.load\ncall $log\n");
    assert_eq!(emitted("x = __mem[0] + __mem[4]"), "i32.const 0\ni32.load\ni32.const 4\ni32.load\ni32.add\nlocal.set $x\n");
}

#[test]
fn calls_push_their_arguments_in_order() {
    assert_eq!(emitted("f(1, a)"), "i32.const 1\nlocal.get $a\ncall $f\n");
    assert_eq!(emitted("f()"), "call $f\n");
    assert_eq!(emitted("f(g(1), 2)"), "i32.const 1\ncall $g\ni32.const 2\ncall $f\n");
    assert_eq!(emitted("f((a))"), "local.get $a\ncall $f\n");
}

#[test]
fn a_parenthesis_emits_what_it_holds() {
    assert_eq!(emitted("(a)"), "local.get $a\n");
    assert_eq!(emitted("(12)"), "i32.const 12\n");
    assert_eq!(emitted("((a+1))"), "local.get $a\ni32.const 1\ni32.add\n");
    assert_eq!(emitted("()"), "");
    assert_eq!(expression_outcome("(a b)"), Err(GenerateError::Deverror));
    assert_eq!(expression_outcome("(\"a\")"), Err(GenerateError::Deverror));
}

#[test]
fn a_number_may_hold_dots_but_not_at_its_ends() {
    assert_eq!(emitted("a = 10"), "i32.const 10\nlocal.set $a\n");
    assert_eq!(emitted("a = 1.5"), "i32.const 1.5\nlocal.set $a\n");
    assert_eq!(emitted("a = 1x"), "local.get $1x\nlocal.set $a\n");
    assert_eq!(emitted("a = x1"), "local.get $x1\nlocal.set $a\n");
    assert_eq!(expression_outcome("a = 1."), Err(GenerateError::InvalidNum));
    assert_eq!(expression_outcome("a = .5"), Err(GenerateError::InvalidNum));
    assert_eq!(expression_outcome("a + 1. * 2"), Err(GenerateError::InvalidNum));
    assert_eq!(emitted("a = x.y"), "local.get $x.y\nlocal.set $a\n");
    assert_eq!(expression_outcome("a = 1.x."), Ok("local.get $1.x.\nlocal.set $a\n".to_string()));
}

#[test]
fn operators_without_an_instruction_are_invalid() {
    assert_eq!(expression_outcome("a ** b"), Err(GenerateError::InvalidOperation));
    assert_eq!(expression_outcome("a @ b"), Err(GenerateError::InvalidOperation));
    assert_eq!(expression_outcome("a -> b"), Err(GenerateError::InvalidOperation));
}

#[test]
fn what_cannot_be_assigned_to_is_an_invalid_left_pattern() {
    assert_eq!(expression_outcome("f(x) = 1"), Err(GenerateError::InvalidleftPattern));
    assert_eq!(expression_outcome("(a) = 1"), Err(GenerateError::InvalidleftPattern));
    assert_eq!(expression_outcome("a + 1 = 2"), Err(GenerateError::InvalidleftPattern));
    assert_eq!(expression_outcome("= 2"), Err(GenerateError::InvalidleftPattern));
    assert_eq!(expression_outcome("a[0] = 1"), Err(GenerateError::InvalidleftPattern));
    assert_eq!(expression_outcome("__mem[0][0] = 10"), Err(GenerateError::InvalidleftPattern));
    assert_eq!(expression_outcome("__mem[0] += 1"), Err(GenerateError::InvalidleftPattern));
    assert_eq!(expression_outcome("f(x) += 1"), Err(GenerateError::InvalidleftPattern));
    assert_eq!(expression_outcome("+= 1"), Err(GenerateError::InvalidleftPattern));
}

#[test]
fn the_value_is_emitted_before_the_left_side_is_looked_at() {
    assert_eq!(expression_outcome("f(x) = 1."), Err(GenerateError::InvalidNum));
    assert_eq!(expression_outcome("__mem[1.] = 2"), Err(GenerateError::InvalidNum));
    assert_eq!(expression_outcome("a = b ** c"), Err(GenerateError::InvalidOperation));
}

#[test]
fn shapes_that_the_generator_does_not_emit() {
    assert_eq!(expression_outcome("f(1)(2)"), Err(GenerateError::Deverror));
    assert_eq!(expression_outcome("x = a b"), Err(GenerateError::Deverror));
    assert_eq!(expression_outcome("x = a[0]"), Err(GenerateError::Deverror));
    assert_eq!(expression_outcome("x = \"text\""), Err(GenerateError::Deverror));
    assert_eq!(expression_outcome("for (a) {b;}"), Err(GenerateError::Deverror));
    assert_eq!(expression_outcome("loop {b;}"), Err(GenerateError::Deverror));
    assert_eq!(expression_outcome("if {b;}"), Err(GenerateError::Deverror));
    assert_eq!(expression_outcome("if (a) {b;}"), Err(GenerateError::Deverror));
    assert_eq!(expression_outcome("if (a > 0) {b;} else (c) {d;}"), Err(GenerateError::Deverror));
    assert_eq!(expression_outcome("while (a > 0) {b;} else {d;}"), Err(GenerateError::Deverror));
    assert_eq!(expression_outcome("while (a > 0) { assert (a); }"), Err(GenerateError::Deverror));
}

#[test]
fn an_if_chain_closes_every_if_it_opens() {
    assert_eq!(
        emitted("if (a < b) { x = 1; }"),
        "local.get $a\nlocal.get $b\ni32.lt_s\nif\ni32.const 1\nlocal.set $x\nend\n"
    );
    assert_eq!(
        emitted("if (a < b) { x = 1; } else { x = 2; }"),
        "local.get $a\nlocal.get $b\ni32.lt_s\nif\ni32.const 1\nlocal.set $x\nelse\ni32.const 2\nlocal.set $x\nend\n"
    );
    assert_eq!(
        emitted("if (a < b) { x = 1; } elif (a == b) { x = 2; } else { x = 3; }"),
        "local.get $a\nlocal.get $b\ni32.lt_s\nif\ni32.const 1\nlocal.set $x\nelse\nlocal.get $a\nlocal.get $b\ni32.eq\nif\ni32.const 2\nlocal.set $x\nelse\ni32.const 3\nlocal.set $x\nend\nend\n"
    );
    assert_eq!(emitted("if ((a)) { }"), "local.get $a\nif\nend\n");
    for (a, b, x) in [
        (1, 2, 1),
        (2, 2, 2),
        (3, 2, 3),
    ] {
        let state = run(
            &emitted("if (a < b) { x = 1; } elif (a == b) { x = 2; } else { x = 3; }"),
            &[("a", a), ("b", b)],
        );
        assert_eq!(state.locals["$x"], x);
    }
}

#[test]
fn a_while_loop_is_a_loop_around_a_block() {
    assert_eq!(
        program_code("i = 0; while (i < 10) { log(i); i = i + 1; };"),
        "i32.const 0\nlocal.set $i\nloop $L0\nblock $B0\nlocal.get $i\ni32.const 10\ni32.lt_s\ni32.const 1\ni32.xor\nbr_if $B0\nlocal.get $i\ncall $log\nlocal.get $i\ni32.const 1\ni32.add\nlocal.set $i\nbr $L0\nend\nend\n"
    );
    let state = run(&program_code("i = 0; while (i < 10) { log(i); i = i + 1; };"), &[]);
    assert_eq!(state.logged, vec![0, 1, 2, 3, 4, 5, 6, 7, 8, 9]);
}

#[test]
fn control_statements() {
    assert_eq!(program_code("return;"), "return\n");
    assert_eq!(program_code("return a + 1;"), "return\n");
    assert_eq!(program_code("while (a > 0) { break; };"),
        "loop $L0\nblock $B0\nlocal.get $a\ni32.const 0\ni32.gt_s\ni32.const 1\ni32.xor\nbr_if $B0\nbr $B0\nunreachable\nbr $L0\nend\nend\n");
    assert_eq!(program_code("while (a > 0) { continue; };"),
        "loop $L0\nblock $B0\nlocal.get $a\ni32.const 0\ni32.gt_s\ni32.const 1\ni32.xor\nbr_if $B0\nbr $L0\nunreachable\nbr $L0\nend\nend\n");
    assert_eq!(program_code("break;"), "br $B-1\nunreachable\n");
    assert_eq!(program_code("continue;"), "br $L-1\nunreachable\n");
}

#[test]
fn a_conditional_break_leaves_its_own_loop() {
    let code = program_code(
        "
        i = 0;
        while (i < 10)
        {
            log(i);
            if (5 <= i) {
                break;
            };
            i = i + 1;
        };
        log(100);
        ",
    );
    assert!(code.contains("loop $L0\nblock $B0\n"));
    assert!(code.contains("if\nbr $B0\nunreachable\nend\n"));
    assert_eq!(run(&code, &[]).logged, vec![0, 1, 2, 3, 4, 5, 100]);
}

#[test]
fn a_break_in_a_nested_loop_leaves_the_inner_loop_only() {
    let code = program_code(
        "
        i = 0;
        while (i < 3)
        {
            j = 0;
            while (j < 10) {
                if (j == 2) {
                    break;
                };
                log(i * 10 + j);
                j = j + 1;
            };
            if (i == 1) {
                break;
            };
            i = i + 1;
        };
        ",
    );
    let lines: Vec<&str> = code.lines().collect();
    let labelled: Vec<&str> = lines.iter().filter(|l| l.contains("$L") || l.contains("$B")).cloned().collect();
    assert_eq!(
        labelled,
        vec![
            "loop $L0",
            "block $B0",
            "br_if $B0",
            "loop $L1",
            "block $B1",
            "br_if $B1",
            "br $B1",
            "br $L1",
            "br $B0",
            "br $L0",
        ]
    );
    assert_eq!(run(&code, &[]).logged, vec![0, 1, 10, 11]);
}

#[test]
fn a_continue_goes_back_to_the_start_of_its_own_loop() {
    let code = program_code(
        "
        i = 0;
        while (i < 3)
        {
            i = i + 1;
            j = 0;
            while (j < 4) {
                j = j + 1;
                if (j == 2) {
                    continue;
                };
                log(i * 10 + j);
            };
            if (i == 2) {
                continue;
            };
            log(i);
        };
        ",
    );
    assert!(code.contains("if\nbr $L1\nunreachable\nend\n"));
    assert!(code.contains("if\nbr $L0\nunreachable\nend\n"));
    assert_eq!(run(&code, &[]).logged, vec![11, 13, 14, 1, 21, 23, 24, 31, 33, 34, 3]);
}

#[test]
fn loops_that_follow_each_other_share_their_labels() {
    let code = program_code(
        "
        i = 0;
        while (i < 2) { log(0); i = i + 1; };
        i = 0;
        while (i < 3) { log(1); i = i + 1; };
        ",
    );
    assert_eq!(code.matches("loop $L0\n").count(), 2);
    assert_eq!(code.matches("loop $L1\n").count(), 0);
    assert_eq!(run(&code, &[]).logged, vec![0, 0, 1, 1, 1]);
}

#[test]
fn the_primes_below_a_hundred() {
    let code = program_code(
        "
        // the primes below a hundred
        i = 2;
        counter = 0;
        while (i < 100)
        {
            // every number is tried
            j = 2;
            c = 0;
            while (j < i) {
                if (i%j == 0) {
                    /* a divisor */
                    c += 1;
                };
                j += 1;
            };
            if (c == 0) {
                // is prime
                log(i);
                __mem[counter * 4] = i;
                counter += 1;
            };
            i +=1;
        };
        ",
    );
    let state = run(&code, &[]);
    let primes = vec![
        2, 3, 5, 7, 11, 13, 17, 19, 23, 29, 31, 37, 41, 43, 47, 53, 59, 61, 67, 71, 73, 79, 83, 89, 97,
    ];
    assert_eq!(state.logged, primes);
    assert_eq!(state.locals["$counter"], 25);
    for (k, p) in primes.iter().enumerate() {
        assert_eq!(state.memory[&(4 * k as i32)], *p);
    }
}

#[test]
fn a_fixed_address_of_the_linear_memory() {
    assert_eq!(lichen_lang::gen::wasm::wasm_get_memory_value_gen(4), Ok("i32.const 4\ni32.load\n".to_string()));
    assert_eq!(lichen_lang::gen::wasm::wasm_get_memory_value_gen(8), Ok("i32.const 8\ni32.load\n".to_string()));
    assert_eq!(lichen_lang::gen::wasm::wasm_get_memory_value_gen(-12), Ok("i32.const -12\ni32.load\n".to_string()));
    assert_eq!(
        lichen_lang::gen::wasm::wasm_get_memory_value_gen(i32::MIN),
        Ok("i32.const -2147483648\ni32.load\n".to_string())
    );
    assert_eq!(
        lichen_lang::gen::wasm::wasm_set_memory_value_gen(0, "i32.const 42\n"),
        Ok("i32.const 0\ni32.const 42\ni32.store\n".to_string())
    );
    assert_eq!(
        lichen_lang::gen::wasm::wasm_set_memory_value_gen(i32::MAX, ""),
        Ok("i32.const 2147483647\ni32.store\n".to_string())
    );
}

#[test]
fn a_branch_names_the_loop_one_depth_below_its_statement() {
    let leave = lichen_lang::token::stmt::stmt::StmtBranch {
        head: "break".to_string(),
        code_list: vec![],
        depth: 0,
        loopdepth: 2,
        resolved: true,
    };
    assert_eq!(leave.generate_wasm(), Ok("br $B1\nunreachable\n".to_string()));
    let again = lichen_lang::token::stmt::stmt::StmtBranch {
        head: "continue".to_string(),
        code_list: vec![],
        depth: 0,
        loopdepth: 2,
        resolved: true,
    };
    assert_eq!(again.generate_wasm(), Ok("br $L1\nunreachable\n".to_string()));
}

#[test]
fn the_text_of_a_loop_in_a_loop() {
    let mut parser = StmtParser::new("while (a < 1) { while (b < 1) { break; }; };".to_string(), 0, 0);
    assert_eq!(parser.resolve(), Ok(()));
    let code = match &parser.code_list[0] {
        StmtElem::ExprElem(e) => e.generate_wasm(),
        _ => panic!("no expression statement"),
    };
    assert_eq!(
        code,
        Ok("loop $L0\nblock $B0\nlocal.get $a\ni32.const 1\ni32.lt_s\ni32.const 1\ni32.xor\nbr_if $B0\n\
            loop $L1\nblock $B1\nlocal.get $b\ni32.const 1\ni32.lt_s\ni32.const 1\ni32.xor\nbr_if $B1\n\
            br $B1\nunreachable\nbr $L1\nend\nend\nbr $L0\nend\nend\n"
            .to_string())
    );
}

#[test]
fn a_comment_emits_nothing_wherever_it_stands() {
    assert_eq!(program_code("// c\na = 1;"), "i32.const 1\nlocal.set $a\n");
    assert_eq!(program_code("a = /* c */ 1;"), "i32.const 1\nlocal.set $a\n");
    assert_eq!(program_code("/* c */ a += 2;"), "local.get $a\ni32.const 2\ni32.add\nlocal.set $a\n");
    assert_eq!(program_code("/* c */ __mem[0] = 7;"), "i32.const 0\ni32.const 7\ni32.store\n");
    assert_eq!(program_code("a = /* c */ -1;"), "i32.const 0\ni32.const 1\ni32.sub\nlocal.set $a\n");
    assert_eq!(program_code("a = (/* c */ b);"), "local.get $b\nlocal.set $a\n");
    assert_eq!(program_code("// only a comment"), "");
}

#[test]
fn a_compound_assignment_of_two_operands() {
    let mut parser = ExprParser::new("a += b * 2".to_string(), 0, 0);
    assert_eq!(parser.resolve(), Ok(()));
    let (left, right) = match &parser.code_list[0] {
        ExprElem::FuncElem(f) => (&f.contents[0], &f.contents[1]),
        _ => panic!("no call"),
    };
    assert_eq!(
        lichen_lang::gen::wasm::ref_aequal_gen_wasm(left, right, "+="),
        Ok("local.get $a\nlocal.get $b\ni32.const 2\ni32.mul\ni32.add\nlocal.set $a\n".to_string())
    );
    assert_eq!(
        lichen_lang::gen::wasm::ref_aequal_gen_wasm(left, right, "%="),
        Ok("local.get $a\nlocal.get $b\ni32.const 2\ni32.mul\ni32.rem_s\nlocal.set $a\n".to_string())
    );
    assert_eq!(lichen_lang::gen::wasm::ref_aequal_gen_wasm(left, right, "+"), Err(GenerateError::Deverror));
    assert_eq!(lichen_lang::gen::wasm::ref_aequal_gen_wasm(right, left, "+="), Err(GenerateError::InvalidleftPattern));
}

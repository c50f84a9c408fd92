use lichen_lang::abs::ast::{ExprElem, StmtElem, Token, TypeElem};
use lichen_lang::errors::parser_errors::ParserError;
use lichen_lang::parser::core_parser::Parser;
use lichen_lang::parser::expr_parser::ExprParser;
use lichen_lang::parser::stmt_parser::StmtParser;
use lichen_lang::parser::type_parser::TypeParser;
use lichen_lang::test::utils::combinations;
use lichen_lang::token::ttype::primitive::{PrimitiveBranch, PrimitiveType};
use lichen_lang::token::unknown::UnKnownBranch;

fn expression(code: &str, depth: isize) -> String {
    let mut parser = ExprParser::new(code.to_string(), depth, 0);
    parser.resolve().unwrap();
    parser.code_list.iter().map(|e| e.get_show_as_string()).collect()
}

fn program(code: &str) -> String {
    let mut parser = StmtParser::new(code.to_string(), 0, 0);
    parser.resolve().unwrap();
    parser.code_list.iter().map(|e| e.get_show_as_string()).collect()
}

#[test]
fn the_dump_of_a_leaf() {
    assert_eq!(expression("a", 0), "Word \"a\"");
    assert_eq!(expression("a", 1), "    Word \"a\"");
    assert_eq!(expression("a", 2), "        Word \"a\"");
    assert_eq!(expression("a", -1), "Word \"a\"");
    assert_eq!(expression("\"a b\"", 3), "Word a b");
    assert_eq!(expression("// a b", 3), "comment \" a b\"");
    assert_eq!(expression("a : b", 0), "Word \"a\"UnKnownBranch :\":\"Word \"b\"");
}

#[test]
fn the_dump_of_an_operator_and_its_operands() {
    assert_eq!(
        expression("a+b", 0),
        "func name\nOperator(+)\n(\nItem(\nWord \"a\"\n)\nItem(\nWord \"b\"\n)\n)"
    );
    assert_eq!(expression("-a", 0), "func name\nOperator(-)\n(\nItem(\n\n)\nItem(\nWord \"a\"\n)\n)");
    assert_eq!(
        expression("a+b", 1),
        "    func name\n    Operator(+)\n    (\n            Item(\n    Word \"a\"\n    )\n    Item(\n    Word \"b\"\n    )\n    )"
    );
}

#[test]
fn the_dump_of_brackets() {
    assert_eq!(expression("(a)", 0), "Paren\n(    Word \"a\")");
    assert_eq!(expression("(a)", 2), "  Paren\n(            Word \"a\"  )");
    assert_eq!(expression("[a]", 1), " ListBlock (    Word \"a\" )");
    assert_eq!(expression("()", 0), "Paren\n()");
    assert_eq!(expression("{a;}", 0), "BlockBranch depth0 (\nExprBranch(1){\n         Word \"a\"}\n");
    assert_eq!(expression("{}", 3), "   BlockBranch depth3 (\n");
}

#[test]
fn the_dump_of_calls_and_subscripts() {
    assert_eq!(expression("f(a)", 0), "func name\nWord \"f\"(\nItem(\nWord \"a\"\n)\n)");
    assert_eq!(expression("f()", 0), "func name\nWord \"f\"(\n)");
    assert_eq!(expression("a[1]", 0), "(\nList name\nWord \"a\"Item(\nWord \"1\"\n))\n");
}

#[test]
fn the_dump_of_statements() {
    assert_eq!(program("a;"), "ExprBranch(1){\n Word \"a\"}\n");
    assert_eq!(program("a b;"), "ExprBranch(2){\n Word \"a\" Word \"b\"}\n");
    assert_eq!(program("return a;"), "control Branch \"return\" (\nWord \"a\")\n");
    assert_eq!(program("break;"), "control Branch \"break\" (\n)\n");
    assert_eq!(program("// a\nb;"), "ExprBranch(2){\n comment \" a\" Word \"b\"}\n");
}

#[test]
fn the_dump_of_a_chain() {
    assert_eq!(
        expression("if (a) {b;} else {c;}", 0),
        "ififexpr(Word \"a\"){ExprBranch(1){\n Word \"b\"}\n\n}elseexpr(){ExprBranch(1){\n Word \"c\"}\n\n}"
    );
    assert_eq!(expression("while (a) {}", 1), "whilewhileexpr(    Word \"a\")    {    }");
}

fn type_atoms(code: &str) -> Vec<TypeElem> {
    code.chars().map(|c| TypeElem::UnKnownElem(UnKnownBranch { contents: c })).collect()
}

fn types(code: &str) -> Result<String, ParserError> {
    let mut parser = TypeParser { code: code.to_string(), code_list: type_atoms(code), depth: 0, loopdepth: 0 };
    parser.code2vec()?;
    Ok(parser.code_list.iter().map(|e| e.get_show_as_string()).collect())
}

#[test]
fn angle_brackets_are_grouped() {
    assert_eq!(types("a"), Ok("UnKnownBranch :\"a\"".to_string()));
    assert_eq!(types("<a>"), Ok("<UnKnownBranch :\"a\">".to_string()));
    assert_eq!(types("<>"), Ok("<>".to_string()));
    assert_eq!(
        types("<<a>>"),
        Ok("<UnKnownBranch :\"<\"UnKnownBranch :\"a\"UnKnownBranch :\">\">".to_string())
    );
    assert_eq!(types("<a"), Err(ParserError::BraceNotClosed));
    assert_eq!(types("a>"), Err(ParserError::BraceNotOpened));
    let mut list = type_atoms("<");
    list.push(TypeElem::PrimitiveElem(PrimitiveBranch { primitive_type: PrimitiveType::I32, depth: 0, loopdepth: 0 }));
    list.extend(type_atoms(">"));
    let grouped = TypeParser::grouping_elements(&list, 0).unwrap();
    assert_eq!(grouped.len(), 1);
    assert_eq!(grouped[0].get_show_as_string(), "<i32>");
}

#[test]
fn the_names_of_the_primitive_types() {
    assert_eq!(PrimitiveType::I32.get_show_as_string(), "i32");
    assert_eq!(PrimitiveType::I64.get_show_as_string(), "i64");
    assert_eq!(PrimitiveType::F32.get_show_as_string(), "f32");
    assert_eq!(PrimitiveType::F64.get_show_as_string(), "f64");
}

#[test]
fn selections_keep_the_order_of_the_elements() {
    assert_eq!(
        combinations(vec!["a", "b", "c", "d", "e"], 3),
        vec![
            vec!["a", "b", "c"],
            vec!["a", "b", "d"],
            vec!["a", "b", "e"],
            vec!["a", "c", "d"],
            vec!["a", "c", "e"],
            vec!["a", "d", "e"],
            vec!["b", "c", "d"],
            vec!["b", "c", "e"],
            vec!["b", "d", "e"],
            vec!["c", "d", "e"],
        ]
    );
    assert_eq!(combinations(vec![1, 2, 3], 0), vec![Vec::<i32>::new()]);
    assert_eq!(combinations(vec![1, 2, 3], 3), vec![vec![1, 2, 3]]);
    assert_eq!(combinations(vec![1, 2, 3], 4), Vec::<Vec<i32>>::new());
    assert_eq!(combinations(Vec::<i32>::new(), 0), vec![Vec::<i32>::new()]);
    assert_eq!(combinations(vec![1, 2, 3], 1), vec![vec![1], vec![2], vec![3]]);
}

#[test]
fn white_space_between_tokens_does_not_change_the_tree() {
    for (plain, spaced) in [
        ("!a&&!b", " ! a\t&&\n!  b "),
        ("a+1*2", "a + 1\n*\t2"),
        ("f(1,2)(3)[4]", "f ( 1 , 2 ) ( 3 ) [ 4 ]"),
        ("if(a<b){f(a);}elif(c){g(b);}else{h();}", "if ( a < b ) { f ( a ) ; }\nelif ( c ) { g ( b ) ; }\nelse { h () ; }"),
        ("a&&b", "a & & b"),
        ("x=\"a  b\"", "x = \"a  b\""),
    ] {
        assert_eq!(expression(plain, 0), expression(spaced, 0), "{}", plain);
    }
    assert_eq!(program("a=1;while(a<3){a+=1;};"), program(" a = 1 ;\nwhile ( a < 3 ) {\n\ta += 1 ;\n} ; "));
    assert_ne!(expression("ab", 0), expression("a b", 0));
    assert_eq!(expression("f()", 0), expression("f( )", 0));
    assert_eq!(expression("f(a,)", 0), expression("f(a, )", 0));
    assert_eq!(expression("[]", 0), expression("[ \t]", 0));
    assert_ne!(expression("\"ab\"", 0), expression("\"a b\"", 0));
}

fn expression_outcome(code: &str) -> Result<String, ParserError> {
    let mut parser = ExprParser::new(code.to_string(), 0, 0);
    parser.resolve()?;
    Ok(parser.code_list.iter().map(|e| e.get_show_as_string()).collect())
}

fn program_outcome(code: &str) -> Result<String, ParserError> {
    let mut parser = StmtParser::new(code.to_string(), 0, 0);
    parser.resolve()?;
    Ok(parser.code_list.iter().map(|e| e.get_show_as_string()).collect())
}

#[test]
fn runs_of_white_space_outside_literals_change_neither_tree_nor_failure() {
    for (plain, spaced) in [
        ("a/*c*/+b", " a /*c*/\t+\n\nb"),
        ("{}", "{ \t}"),
        ("[1,2][0]", "[ 1 , 2 ]\n[ 0 ]"),
        ("(a)*(b)", "(  a  )\t*\t(  b  )"),
        ("f({g(a,b);},\"(\")", "f ( { g ( a , b ) ; } , \"(\" )"),
        ("a//b", "a  //b"),
        ("(a", " ( a"),
        ("a)", "a ) "),
        ("f(a]", "f ( a ]"),
        ("\"a", "  \"a"),
        ("a/*b", "a \n/*b"),
        ("f(g(h(1,2),3),4)", "f ( g ( h ( 1 , 2 ) , 3 ) , 4 )"),
    ] {
        assert_eq!(expression_outcome(plain), expression_outcome(spaced), "{}", plain);
        assert_eq!(program_outcome(plain), program_outcome(spaced), "{}", plain);
    }
    assert_eq!(
        program_outcome("a=1;/*c*/b=\"x y\";//d\nwhile(a){break;};"),
        program_outcome("\ta = 1 ; /*c*/ b = \"x y\" ;\n//d\n while ( a ) { break ; } ;\n")
    );
    assert_ne!(expression_outcome("a//b"), expression_outcome("a/ /b"));
    assert_ne!(expression_outcome("a/*b*/"), expression_outcome("a/*b* /"));
}

#[test]
fn the_dump_of_statement_nodes_of_every_kind() {
    let mut parser = StmtParser::new("a; return b; // c".to_string(), 0, 0);
    parser.resolve().unwrap();
    let kinds: Vec<&str> = parser
        .code_list
        .iter()
        .map(|s| match s {
            StmtElem::ExprElem(_) => "expr",
            StmtElem::Special(_) => "control",
            StmtElem::CommentElem(_) => "comment",
            _ => "other",
        })
        .collect();
    assert_eq!(kinds, vec!["expr", "control", "expr"]);
    let first = match &parser.code_list[0] {
        StmtElem::ExprElem(e) => match &e.code_list[0] {
            ExprElem::WordElem(w) => w.contents.clone(),
            _ => panic!("no word"),
        },
        _ => panic!("no expression statement"),
    };
    assert_eq!(first, "a");
}

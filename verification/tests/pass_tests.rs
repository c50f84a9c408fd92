use lichen_lang::abs::ast::{ExprElem, StmtElem, Token};
use lichen_lang::errors::parser_errors::ParserError;
use lichen_lang::parser::comma_parser::CommaParser;
use lichen_lang::parser::core_parser::{find_ope_priority, OpeTable, Parser, Prio};
use lichen_lang::parser::expr_parser::{code2_vec_pre_proc_func, ExprParser};
use lichen_lang::parser::lexer::Bracket;
use lichen_lang::parser::stmt_parser::StmtParser;

fn atoms(code: &str) -> Vec<ExprElem> {
    code2_vec_pre_proc_func(code)
}

/// One letter for each node: the kind, and the text where the node has one.
fn sketch(list: &Vec<ExprElem>) -> Vec<String> {
    list.iter()
        .map(|e| match e {
            ExprElem::BlockElem(b) => format!("Block[{}]", b.contents.len()),
            ExprElem::ListBlockElem(b) => format!("List[{}]", b.contents.len()),
            ExprElem::ParenBlockElem(b) => format!("Paren[{}]", b.contents.len()),
            ExprElem::SyntaxElem(b) => format!("Syntax({})", b.name),
            ExprElem::SyntaxBoxElem(b) => format!("Chain({},{})", b.name, b.contents.len()),
            ExprElem::FuncElem(b) => format!("Call[{}]", b.contents.len()),
            ExprElem::ListElem(b) => format!("Index[{}]", b.contents.len()),
            ExprElem::ItemElem(b) => format!("Item[{}]", b.contents.len()),
            ExprElem::CommentElem(b) => format!("Comment({})", b.contents),
            ExprElem::StringElem(b) => format!("Str({})", b.contents),
            ExprElem::WordElem(b) => format!("Word({})", b.contents),
            ExprElem::OpeElem(b) => format!("Ope({})", b.ope),
            ExprElem::UnKnownElem(b) => format!("'{}'", b.contents),
        })
        .collect()
}

fn strings(code: &str) -> Result<Vec<String>, ParserError> {
    ExprParser::grouping_string(&atoms(code), 0, 0).map(|v| sketch(&v))
}

#[test]
fn the_characters_of_the_text_become_unclassified_atoms() {
    assert_eq!(sketch(&atoms("a b")), vec!["'a'", "' '", "'b'"]);
    let parser = ExprParser::new("xy".to_string(), 3, 1);
    assert_eq!(parser.code, "xy");
    assert_eq!(parser.depth, 3);
    assert_eq!(parser.loopdepth, 1);
    assert_eq!(sketch(&parser.code_list), vec!["'x'", "'y'"]);
}

#[test]
fn a_quoted_run_becomes_one_string() {
    assert_eq!(strings("a\"b c\"d"), Ok(vec!["'a'".to_string(), "Str(b c)".to_string(), "'d'".to_string()]));
    assert_eq!(strings("\"\""), Ok(vec!["Str()".to_string()]));
}

#[test]
fn a_backslash_takes_the_next_character_into_the_string() {
    assert_eq!(strings("\"a\\\"b\""), Ok(vec!["Str(a\"b)".to_string()]));
    assert_eq!(strings("\"a\\\\\""), Ok(vec!["Str(a\\)".to_string()]));
    assert_eq!(strings("\"a\\nb\""), Ok(vec!["Str(anb)".to_string()]));
    assert_eq!(strings("\"a\\"), Err(ParserError::QuotationNotClosed));
}

#[test]
fn an_open_quotation_is_an_error() {
    assert_eq!(strings("a\"bc"), Err(ParserError::QuotationNotClosed));
    assert_eq!(strings("\""), Err(ParserError::QuotationNotClosed));
}

#[test]
fn comments_become_one_atom_each() {
    assert_eq!(strings("a//b c\nd"), Ok(vec!["'a'".to_string(), "Comment(b c)".to_string(), "'d'".to_string()]));
    assert_eq!(strings("a/*b\nc*/d"), Ok(vec!["'a'".to_string(), "Comment(b\nc)".to_string(), "'d'".to_string()]));
    assert_eq!(strings("/* a * b */"), Ok(vec!["Comment( a * b )".to_string()]));
    assert_eq!(strings("/* \" */"), Ok(vec!["Comment( \" )".to_string()]));
    assert_eq!(strings("\"/* a */\""), Ok(vec!["Str(/* a */)".to_string()]));
}

#[test]
fn a_line_comment_ends_with_the_input() {
    assert_eq!(strings("a// b"), Ok(vec!["'a'".to_string(), "Comment( b)".to_string()]));
    assert_eq!(strings("//"), Ok(vec!["Comment()".to_string()]));
}

#[test]
fn an_open_block_comment_is_an_error() {
    assert_eq!(strings("a/* b"), Err(ParserError::CommentBlockNotClosed));
    assert_eq!(strings("a/* b *"), Err(ParserError::CommentBlockNotClosed));
    assert_eq!(strings("/*"), Err(ParserError::CommentBlockNotClosed));
}

#[test]
fn a_slash_alone_stays_a_character() {
    assert_eq!(strings("a/b"), Ok(vec!["'a'".to_string(), "'/'".to_string(), "'b'".to_string()]));
    assert_eq!(strings("a/"), Ok(vec!["'a'".to_string(), "'/'".to_string()]));
}

fn brackets(code: &str, bracket: Bracket) -> Result<Vec<String>, ParserError> {
    ExprParser::grouping_elements(&atoms(code), bracket, 0, 0).map(|v| sketch(&v))
}

#[test]
fn a_matched_pair_becomes_one_node() {
    assert_eq!(
        brackets("a(b)c", Bracket::Paren),
        Ok(vec!["'a'".to_string(), "Paren[1]".to_string(), "'c'".to_string()])
    );
    assert_eq!(brackets("()", Bracket::Paren), Ok(vec!["Paren[0]".to_string()]));
    assert_eq!(brackets("{a}{bc}", Bracket::Brace), Ok(vec!["Block[1]".to_string(), "Block[2]".to_string()]));
    assert_eq!(brackets("[[a]]", Bracket::List), Ok(vec!["List[3]".to_string()]));
}

#[test]
fn nested_brackets_stay_characters_inside_the_outer_one() {
    let list = ExprParser::grouping_elements(&atoms("(a(b)c)"), Bracket::Paren, 0, 0).unwrap();
    assert_eq!(list.len(), 1);
    match &list[0] {
        ExprElem::ParenBlockElem(p) => {
            assert_eq!(sketch(&p.contents), vec!["'a'", "'('", "'b'", "')'", "'c'"]);
            assert!(!p.resolved);
        },
        _ => panic!("not a parenthesis"),
    }
}

#[test]
fn a_bracket_of_another_kind_is_a_character_to_the_pass() {
    assert_eq!(
        brackets("(a]", Bracket::List),
        Err(ParserError::BraceNotOpened)
    );
    assert_eq!(brackets("[a)", Bracket::Paren), Err(ParserError::BraceNotOpened));
    assert_eq!(brackets("(a]", Bracket::Brace), Ok(sketch(&atoms("(a]"))));
}

#[test]
fn an_open_bracket_is_not_closed() {
    assert_eq!(brackets("(a", Bracket::Paren), Err(ParserError::BraceNotClosed));
    assert_eq!(brackets("{{a}", Bracket::Brace), Err(ParserError::BraceNotClosed));
    assert_eq!(brackets("[", Bracket::List), Err(ParserError::BraceNotClosed));
}

#[test]
fn a_closing_bracket_without_an_open_one_is_not_opened() {
    assert_eq!(brackets("a)", Bracket::Paren), Err(ParserError::BraceNotOpened));
    assert_eq!(brackets("{a}}", Bracket::Brace), Err(ParserError::BraceNotOpened));
    assert_eq!(brackets("][", Bracket::List), Err(ParserError::BraceNotOpened));
}

#[test]
fn unbalanced_source_fails_through_the_whole_parser() {
    for (code, error) in [
        ("(a", ParserError::BraceNotClosed),
        ("a)", ParserError::BraceNotOpened),
        ("{a", ParserError::BraceNotClosed),
        ("a}", ParserError::BraceNotOpened),
        ("[a", ParserError::BraceNotClosed),
        ("a]", ParserError::BraceNotOpened),
        ("f((a)", ParserError::BraceNotClosed),
        ("(a))", ParserError::BraceNotOpened),
        ("(a{b)c}", ParserError::BraceNotClosed),
        ("f(g(a)", ParserError::BraceNotClosed),
    ] {
        let mut parser = ExprParser::new(code.to_string(), 0, 0);
        assert_eq!(parser.resolve(), Err(error), "{}", code);
        let mut parser = StmtParser::new(code.to_string(), 0, 0);
        assert_eq!(parser.resolve(), Err(error), "{}", code);
    }
    let mut parser = ExprParser::new("f(a])".to_string(), 0, 0);
    assert_eq!(parser.resolve(), Err(ParserError::BraceNotOpened));
    let mut parser = ExprParser::new("(a;(b)".to_string(), 0, 0);
    assert_eq!(parser.resolve(), Err(ParserError::BraceNotClosed));
}

#[test]
fn an_error_leaves_the_parser_as_it_was() {
    let mut parser = ExprParser::new("a + (b".to_string(), 0, 0);
    let before = sketch(&parser.code_list);
    assert_eq!(parser.code2vec(), Err(ParserError::BraceNotClosed));
    assert_eq!(sketch(&parser.code_list), before);
    assert_eq!(parser.resolve(), Err(ParserError::BraceNotClosed));
    assert_eq!(sketch(&parser.code_list), before);
}

fn words(code: &str) -> Vec<String> {
    sketch(&ExprParser::grouping_words(&atoms(code), 0, 0))
}

#[test]
fn words_end_at_white_space_separators_and_operator_characters() {
    assert_eq!(words("ab cd"), vec!["Word(ab)", "Word(cd)"]);
    assert_eq!(words(" \t\nab\n"), vec!["Word(ab)"]);
    assert_eq!(words("a,b:c;d"), vec!["Word(a)", "','", "Word(b)", "':'", "Word(c)", "';'", "Word(d)"]);
    assert_eq!(words("a+b"), vec!["Word(a)", "'+'", "Word(b)"]);
    assert_eq!(words("a<=b"), vec!["Word(a)", "'<'", "'='", "Word(b)"]);
    assert_eq!(words("10.5"), vec!["Word(10.5)"]);
    assert_eq!(words(""), Vec::<String>::new());
}

fn operators(code: &str) -> Vec<String> {
    let list = ExprParser::grouping_words(&atoms(code), 0, 0);
    sketch(&ExprParser::grouping_operator(&list, 0))
}

#[test]
fn the_longest_operator_wins() {
    assert_eq!(operators("a<=b"), vec!["Word(a)", "Ope(<=)", "Word(b)"]);
    assert_eq!(operators("a<b"), vec!["Word(a)", "Ope(<)", "Word(b)"]);
    assert_eq!(operators("a**b"), vec!["Word(a)", "Ope(**)", "Word(b)"]);
    assert_eq!(operators("a*b"), vec!["Word(a)", "Ope(*)", "Word(b)"]);
    assert_eq!(operators("a==b"), vec!["Word(a)", "Ope(==)", "Word(b)"]);
    assert_eq!(operators("a=b"), vec!["Word(a)", "Ope(=)", "Word(b)"]);
    assert_eq!(operators("a->b"), vec!["Word(a)", "Ope(->)", "Word(b)"]);
    assert_eq!(operators("a&&!b"), vec!["Word(a)", "Ope(&&)", "Ope(!)", "Word(b)"]);
    assert_eq!(operators("a & & b"), vec!["Word(a)", "Ope(&&)", "Word(b)"]);
}

#[test]
fn characters_that_spell_no_operator_stay_characters() {
    assert_eq!(operators("a&b"), vec!["Word(a)", "'&'", "Word(b)"]);
    assert_eq!(operators("a:b"), vec!["Word(a)", "':'", "Word(b)"]);
    assert_eq!(operators("a,b"), vec!["Word(a)", "','", "Word(b)"]);
}

#[test]
fn characters_at_the_end_that_fill_no_run_are_kept() {
    assert_eq!(operators("a+"), vec!["Word(a)", "Ope(+)"]);
    assert_eq!(operators("a<"), vec!["Word(a)", "Ope(<)"]);
    assert_eq!(operators("a;"), vec!["Word(a)", "';'"]);
    assert_eq!(operators("a=="), vec!["Word(a)", "Ope(==)"]);
    assert_eq!(operators("a==="), vec!["Word(a)", "Ope(==)", "Ope(=)"]);
    let list = ExprParser::grouping_words(&atoms("a<"), 0, 0);
    assert_eq!(sketch(&ExprParser::grouping_operator_unit(&list, "<=", 0)), vec!["Word(a)", "'<'"]);
}

#[test]
fn one_operator_pass_cuts_runs_from_the_left() {
    let list = ExprParser::grouping_words(&atoms("a=+=b"), 0, 0);
    assert_eq!(
        sketch(&ExprParser::grouping_operator_unit(&list, "+=", 0)),
        vec!["Word(a)", "'='", "'+'", "'='", "Word(b)"]
    );
    let list = ExprParser::grouping_words(&atoms("a+=b"), 0, 0);
    assert_eq!(sketch(&ExprParser::grouping_operator_unit(&list, "+=", 0)), vec!["Word(a)", "Ope(+=)", "Word(b)"]);
}

fn parsed(code: &str) -> Result<Vec<String>, ParserError> {
    ExprParser::passes(&atoms(code), 0, 0).map(|v| sketch(&v))
}

#[test]
fn a_control_word_its_condition_and_its_body_become_a_clause() {
    let list = ExprParser::passes(&atoms("if (a) {b}"), 0, 0).unwrap();
    assert_eq!(sketch(&list), vec!["Chain(if,1)"]);
    match &list[0] {
        ExprElem::SyntaxBoxElem(chain) => {
            assert_eq!(chain.contents[0].name, "if");
            assert_eq!(sketch(&chain.contents[0].expr), vec!["'a'"]);
            assert_eq!(chain.contents[0].contents.len(), 1);
            assert!(!chain.contents[0].resolved);
        },
        _ => panic!("not a chain"),
    }
}

#[test]
fn clauses_are_chained() {
    assert_eq!(parsed("if (a) {b} elif (c) {d} else {e}"), Ok(vec!["Chain(if,3)".to_string()]));
    assert_eq!(parsed("while (a) {b} else {c}"), Ok(vec!["Chain(while,2)".to_string()]));
    assert_eq!(parsed("if (a) {b} if (c) {d}"), Ok(vec!["Chain(if,1)".to_string(), "Chain(if,1)".to_string()]));
    assert_eq!(
        parsed("if (a) {b} elif (c) {d} while (e) {f} else {g}"),
        Ok(vec!["Chain(if,2)".to_string(), "Chain(while,2)".to_string()])
    );
    assert_eq!(parsed("if (a) {b} x if (c) {d}"), Ok(vec![
        "Chain(if,1)".to_string(),
        "Word(x)".to_string(),
        "Chain(if,1)".to_string(),
    ]));
    assert_eq!(parsed("loop {a}"), Ok(vec!["Chain(loop,1)".to_string()]));
    assert_eq!(parsed("match (a) {b}"), Ok(vec!["Syntax(match)".to_string()]));
}

#[test]
fn a_clause_that_continues_no_chain_is_an_error() {
    assert_eq!(parsed("else {a}"), Err(ParserError::GroupingSyntaxBoxError));
    assert_eq!(parsed("elif (a) {b}"), Err(ParserError::GroupingSyntaxBoxError));
    assert_eq!(parsed("if (a) {b} else {c} else {d}"), Err(ParserError::GroupingSyntaxBoxError));
    assert_eq!(parsed("if (a) {b} x elif (c) {d}"), Err(ParserError::GroupingSyntaxBoxError));
}

#[test]
fn a_control_word_without_a_body_leaves_the_stream() {
    assert_eq!(parsed("if a"), Ok(vec!["Word(a)".to_string()]));
    assert_eq!(parsed("while (a) b"), Ok(vec!["Word(b)".to_string()]));
}

#[test]
fn a_callee_and_a_bracket_become_a_call_or_a_subscript() {
    assert_eq!(parsed("f(a)"), Ok(vec!["Call[1]".to_string()]));
    assert_eq!(parsed("f[a]"), Ok(vec!["Index[1]".to_string()]));
    assert_eq!(parsed("f (a)"), Ok(vec!["Call[1]".to_string()]));
    assert_eq!(parsed("f(a) g[b]"), Ok(vec!["Call[1]".to_string(), "Index[1]".to_string()]));
    assert_eq!(parsed("(a)(b)"), Ok(vec!["Paren[1]".to_string(), "Paren[1]".to_string()]));
    assert_eq!(parsed("\"f\"(a)"), Ok(vec!["Str(f)".to_string(), "Paren[1]".to_string()]));
    assert_eq!(parsed("f{a}"), Ok(vec!["Word(f)".to_string(), "Block[1]".to_string()]));
}

#[test]
fn a_control_word_is_no_callee() {
    for word in ["fn", "struct", "enum", "returns"] {
        assert_eq!(parsed(&format!("{}(x)", word)), Ok(vec!["Call[1]".to_string()]), "{}", word);
        assert_eq!(parsed(&format!("{}[x]", word)), Ok(vec!["Index[1]".to_string()]), "{}", word);
    }
    for word in ["return", "break", "continue", "assert"] {
        assert_eq!(
            parsed(&format!("{}(x)", word)),
            Ok(vec![format!("Word({})", word), "Paren[1]".to_string()]),
            "{}",
            word
        );
        assert_eq!(
            parsed(&format!("{}[x]", word)),
            Ok(vec![format!("Word({})", word), "List[1]".to_string()]),
            "{}",
            word
        );
    }
}

fn callee_depth(e: &ExprElem) -> usize {
    match e {
        ExprElem::FuncElem(f) => 1 + callee_depth(&f.name),
        ExprElem::ListElem(l) => 1 + callee_depth(&l.name),
        _ => 0,
    }
}

#[test]
fn curried_calls_and_subscripts_become_one_node() {
    for code in [
        "tarai(1)(2)(3)",
        "tarai(1)[2](3)",
        "tarai[1](2)[3]",
        "tarai[1][2][3]",
    ] {
        let list = ExprParser::passes(&atoms(code), 0, 0).unwrap();
        assert_eq!(list.len(), 1, "{}", code);
        assert_eq!(callee_depth(&list[0]), 3, "{}", code);
        assert!(!ExprParser::contain_subscriptable(&list));
        let mut parser = ExprParser::new(code.to_string(), 0, 0);
        assert_eq!(parser.resolve(), Ok(()));
        assert_eq!(parser.code_list.len(), 1, "{}", code);
        assert_eq!(callee_depth(&parser.code_list[0]), 3, "{}", code);
    }
    let list = ExprParser::passes(&atoms("tarai(1)[2](3)"), 0, 0).unwrap();
    match &list[0] {
        ExprElem::FuncElem(outer) => match &*outer.name {
            ExprElem::ListElem(middle) => match &*middle.name {
                ExprElem::FuncElem(inner) => assert_eq!(sketch(&vec![(*inner.name).clone()]), vec!["Word(tarai)"]),
                _ => panic!("the innermost node is no call"),
            },
            _ => panic!("the middle node is no subscript"),
        },
        _ => panic!("the outermost node is no call"),
    }
}

#[test]
fn one_call_pass_merges_each_callee_once() {
    let list = ExprParser::passes(&atoms("x"), 0, 0).unwrap();
    assert!(!ExprParser::contain_subscriptable(&list));
    let s4 = ExprParser::grouping_elements(&atoms("f(1)(2)"), Bracket::Paren, 0, 0).unwrap();
    let words = ExprParser::grouping_words(&s4, 0, 0);
    assert_eq!(sketch(&words), vec!["Word(f)", "Paren[1]", "Paren[1]"]);
    assert!(ExprParser::contain_subscriptable(&words));
    let once = ExprParser::grouping_subscription(&words, 0, 0);
    assert_eq!(sketch(&once), vec!["Call[1]", "Paren[1]"]);
    assert!(ExprParser::contain_subscriptable(&once));
    let twice = ExprParser::grouping_subscription(&once, 0, 0);
    assert_eq!(sketch(&twice), vec!["Call[1]"]);
    assert!(!ExprParser::contain_subscriptable(&twice));
}

fn split_of(code: &str) -> (String, Vec<String>, Vec<String>) {
    let list = ExprParser::passes(&atoms(code), 0, 0).unwrap();
    assert_eq!(list.len(), 1, "{}", code);
    match &list[0] {
        ExprElem::FuncElem(f) => {
            let ope = match &*f.name {
                ExprElem::OpeElem(o) => o.ope.clone(),
                _ => panic!("the callee is no operator"),
            };
            let side = |e: &ExprElem| match e {
                ExprElem::ItemElem(i) => sketch(&i.contents),
                _ => panic!("an operand is no Item"),
            };
            assert_eq!(f.contents.len(), 2);
            (ope, side(&f.contents[0]), side(&f.contents[1]))
        },
        _ => panic!("no call"),
    }
}

fn strs(v: &[&str]) -> Vec<String> {
    v.iter().map(|s| s.to_string()).collect()
}

#[test]
fn the_operator_of_lowest_priority_splits_the_run() {
    assert_eq!(split_of("a+1*2"), ("+".to_string(), strs(&["Word(a)"]), strs(&["Word(1)", "Ope(*)", "Word(2)"])));
    assert_eq!(split_of("a*1+2"), ("+".to_string(), strs(&["Word(a)", "Ope(*)", "Word(1)"]), strs(&["Word(2)"])));
    assert_eq!(split_of("a||b&&c"), ("||".to_string(), strs(&["Word(a)"]), strs(&["Word(b)", "Ope(&&)", "Word(c)"])));
    assert_eq!(split_of("a&&b==c"), ("&&".to_string(), strs(&["Word(a)"]), strs(&["Word(b)", "Ope(==)", "Word(c)"])));
    assert_eq!(split_of("a==b+c"), ("==".to_string(), strs(&["Word(a)"]), strs(&["Word(b)", "Ope(+)", "Word(c)"])));
    assert_eq!(split_of("a*b**c"), ("*".to_string(), strs(&["Word(a)"]), strs(&["Word(b)", "Ope(**)", "Word(c)"])));
    assert_eq!(split_of("a=b||c"), ("=".to_string(), strs(&["Word(a)"]), strs(&["Word(b)", "Ope(||)", "Word(c)"])));
    assert_eq!(split_of("a->b=c"), ("=".to_string(), strs(&["Word(a)", "Ope(->)", "Word(b)"]), strs(&["Word(c)"])));
}

#[test]
fn equal_priorities_split_at_the_first() {
    assert_eq!(split_of("a-b-c"), ("-".to_string(), strs(&["Word(a)"]), strs(&["Word(b)", "Ope(-)", "Word(c)"])));
    assert_eq!(split_of("a-b+c"), ("-".to_string(), strs(&["Word(a)"]), strs(&["Word(b)", "Ope(+)", "Word(c)"])));
    assert_eq!(split_of("a/b%c"), ("/".to_string(), strs(&["Word(a)"]), strs(&["Word(b)", "Ope(%)", "Word(c)"])));
    assert_eq!(split_of("a**b**c"), ("**".to_string(), strs(&["Word(a)"]), strs(&["Word(b)", "Ope(**)", "Word(c)"])));
    assert_eq!(split_of("a=b=c"), ("=".to_string(), strs(&["Word(a)"]), strs(&["Word(b)", "Ope(=)", "Word(c)"])));
    assert_eq!(split_of("a+=b-=c"), ("+=".to_string(), strs(&["Word(a)"]), strs(&["Word(b)", "Ope(-=)", "Word(c)"])));
}

#[test]
fn an_operator_after_an_operator_is_a_prefix() {
    assert_eq!(split_of("a*-b"), ("*".to_string(), strs(&["Word(a)"]), strs(&["Ope(-)", "Word(b)"])));
    assert_eq!(split_of("!a&&!b"), ("&&".to_string(), strs(&["Ope(!)", "Word(a)"]), strs(&["Ope(!)", "Word(b)"])));
    assert_eq!(split_of("-a"), ("-".to_string(), strs(&[]), strs(&["Word(a)"])));
    assert_eq!(split_of("!a"), ("!".to_string(), strs(&[]), strs(&["Word(a)"])));
    assert_eq!(split_of("-a*b"), ("-".to_string(), strs(&[]), strs(&["Word(a)", "Ope(*)", "Word(b)"])));
    assert_eq!(split_of("-a<b"), ("<".to_string(), strs(&["Ope(-)", "Word(a)"]), strs(&["Word(b)"])));
    assert_eq!(split_of("!a==b"), ("!".to_string(), strs(&[]), strs(&["Word(a)", "Ope(==)", "Word(b)"])));
    assert_eq!(split_of("!!a"), ("!".to_string(), strs(&[]), strs(&["Ope(!)", "Word(a)"])));
}

#[test]
fn the_position_of_the_split() {
    let list = ExprParser::grouping_operator(&ExprParser::grouping_words(&atoms("a+1*2"), 0, 0), 0);
    assert_eq!(ExprParser::find_min_priority_index(&list), Ok(Some(1)));
    let list = ExprParser::grouping_operator(&ExprParser::grouping_words(&atoms("a-b-c"), 0, 0), 0);
    assert_eq!(ExprParser::find_min_priority_index(&list), Ok(Some(1)));
    let list = ExprParser::grouping_operator(&ExprParser::grouping_words(&atoms("!a==b"), 0, 0), 0);
    assert_eq!(ExprParser::find_min_priority_index(&list), Ok(Some(0)));
    let list = ExprParser::grouping_operator(&ExprParser::grouping_words(&atoms("a b"), 0, 0), 0);
    assert_eq!(ExprParser::find_min_priority_index(&list), Ok(None));
    assert_eq!(ExprParser::find_min_priority_index(&Vec::new()), Ok(None));
}

#[test]
fn an_operator_that_the_table_lacks_is_an_operation_error() {
    let mut parser = ExprParser::new("a".to_string(), 0, 0);
    parser.resolve().unwrap();
    let mut list = parser.code_list;
    list.push(ExprElem::OpeElem(lichen_lang::token::operator::OperatorBranch { ope: "<>".to_string(), depth: 0 }));
    list.push(ExprParser::new("b".to_string(), 0, 0).code_list.remove(0));
    assert_eq!(ExprParser::find_min_priority_index(&list), Err(ParserError::OperationError));
    let mut parser = ExprParser::create_parser_from_vec(list, 0, 0);
    assert_eq!(parser.code2vec(), Err(ParserError::OperationError));
}

#[test]
fn rows_of_the_operator_table() {
    let row = find_ope_priority("**").unwrap();
    assert_eq!((row.opestr, row.priority, row.priority_direction), ("**", 3, Prio::Right));
    let row = find_ope_priority("!").unwrap();
    assert_eq!((row.opestr, row.priority, row.priority_direction), ("!", -1, Prio::Prefix));
    let row = find_ope_priority("||").unwrap();
    assert_eq!((row.opestr, row.priority, row.priority_direction), ("||", -3, Prio::Left));
    let row = find_ope_priority("&&").unwrap();
    assert_eq!((row.opestr, row.priority, row.priority_direction), ("&&", -2, Prio::Left));
    let row = find_ope_priority("->").unwrap();
    assert_eq!((row.opestr, row.priority, row.priority_direction), ("->", -4, Prio::Right));
    for ope in ["==", "!=", "<", "<=", ">", ">="] {
        let row = find_ope_priority(ope).unwrap();
        assert_eq!((row.priority, row.priority_direction), (0, Prio::Left), "{}", ope);
    }
    for ope in ["+", "-"] {
        let row = find_ope_priority(ope).unwrap();
        assert_eq!((row.priority, row.priority_direction), (1, Prio::Left), "{}", ope);
    }
    for ope in ["*", "/", "%", "@"] {
        let row = find_ope_priority(ope).unwrap();
        assert_eq!((row.priority, row.priority_direction), (2, Prio::Left), "{}", ope);
    }
    for ope in ["=", "+=", "-=", "*=", "/=", "%="] {
        let row = find_ope_priority(ope).unwrap();
        assert_eq!((row.priority, row.priority_direction), (-5, Prio::Right), "{}", ope);
    }
    assert!(find_ope_priority("<>").is_none());
    assert!(find_ope_priority("").is_none());
    assert!(find_ope_priority("a").is_none());
}

#[test]
fn operators_by_name() {
    assert_eq!(OpeTable::set("+"), Ok(OpeTable::ADD));
    assert_eq!(OpeTable::set("**"), Ok(OpeTable::POW));
    assert_eq!(OpeTable::set("||"), Ok(OpeTable::OR));
    assert_eq!(OpeTable::set("->"), Ok(OpeTable::OR));
    assert_eq!(OpeTable::set("!"), Ok(OpeTable::NOT));
    assert_eq!(OpeTable::set("%="), Ok(OpeTable::MODEQ));
    assert_eq!(OpeTable::set("@"), Ok(OpeTable::DOT));
    assert_eq!(OpeTable::set("<>"), Err("Invalid Operation String"));
    assert_eq!(OpeTable::set(""), Err("Invalid Operation String"));
}

fn statements(code: &str) -> Result<Vec<String>, ParserError> {
    let mut parser = StmtParser::new(code.to_string(), 0, 0);
    parser.code2vec()?;
    Ok(parser
        .code_list
        .iter()
        .map(|s| match s {
            StmtElem::ExprElem(e) => format!("Expr{:?}", sketch(&e.code_list)),
            StmtElem::Special(c) => format!("{}{:?}", c.head, sketch(&c.code_list)),
            StmtElem::CommentElem(c) => format!("Comment({})", c.contents),
            _ => "?".to_string(),
        })
        .collect())
}

#[test]
fn statements_are_cut_at_semicolons() {
    assert_eq!(
        statements("a = 1; b = 2;"),
        Ok(strs(&["Expr[\"Word(a)\", \"'='\", \"Word(1)\"]", "Expr[\"Word(b)\", \"'='\", \"Word(2)\"]"]))
    );
    assert_eq!(statements(";;a;;"), Ok(strs(&["Expr[\"Word(a)\"]"])));
    assert_eq!(statements(""), Ok(strs(&[])));
    assert_eq!(statements("f(a;b);"), Ok(strs(&["Expr[\"Word(f)\", \"Paren[3]\"]"])));
}

#[test]
fn a_reserved_word_makes_a_control_statement() {
    assert_eq!(statements("return a;"), Ok(strs(&["return[\"Word(a)\"]"])));
    assert_eq!(statements("break;"), Ok(strs(&["break[]"])));
    assert_eq!(statements("continue ;"), Ok(strs(&["continue[]"])));
    assert_eq!(statements("assert (a);"), Ok(strs(&["assert[\"Paren[1]\"]"])));
    assert_eq!(statements("returns a;"), Ok(strs(&["Expr[\"Word(returns)\", \"Word(a)\"]"])));
}

#[test]
fn the_end_of_the_input_closes_the_last_statement() {
    assert_eq!(statements("a; b"), Ok(strs(&["Expr[\"Word(a)\"]", "Expr[\"Word(b)\"]"])));
    assert_eq!(statements("return a"), Ok(strs(&["return[\"Word(a)\"]"])));
    assert_eq!(statements("a; break"), Ok(strs(&["Expr[\"Word(a)\"]", "break[]"])));
    assert_eq!(statements("a;"), Ok(strs(&["Expr[\"Word(a)\"]"])));
}

#[test]
fn comments_stay_in_the_statement_they_stand_in() {
    assert_eq!(
        statements("// first\na = /* in between */ 1; // last"),
        Ok(strs(&[
            "Expr[\"Comment( first)\", \"Word(a)\", \"'='\", \"Comment( in between )\", \"Word(1)\"]",
            "Expr[\"Comment( last)\"]"
        ]))
    );
    assert_eq!(statements("/* c */ a;"), Ok(strs(&["Expr[\"Comment( c )\", \"Word(a)\"]"])));
    assert_eq!(
        statements("/* c */ return a;"),
        Ok(strs(&["Expr[\"Comment( c )\", \"Word(return)\", \"Word(a)\"]"]))
    );
    assert_eq!(statements("return /* c */ a;"), Ok(strs(&["return[\"Comment( c )\", \"Word(a)\"]"])));
}

#[test]
fn a_statement_cannot_be_converted_to_an_expression() {
    let mut parser = StmtParser::new("a; b;".to_string(), 0, 0);
    parser.code2vec().unwrap();
    let mut again = StmtParser::create_parser_from_vec(parser.code_list, 0, 0);
    assert_eq!(again.split_semicolon(), Err(ParserError::UnableToConvertType));
    assert_eq!(again.code2vec(), Err(ParserError::UnableToConvertType));
    assert_eq!(again.code_list.len(), 2);
}

#[test]
fn split_semicolon_cuts_the_atoms_of_the_parser() {
    let mut parser = StmtParser::new("a;b".to_string(), 0, 0);
    assert_eq!(parser.split_semicolon(), Ok(()));
    assert_eq!(parser.code_list.len(), 2);
}

fn arguments(code: &str) -> Result<Vec<Vec<String>>, ParserError> {
    let mut splitter = CommaParser::create_parser_from_vec(atoms(code), 0, 0);
    splitter.code2vec()?;
    Ok(splitter
        .code_list
        .iter()
        .map(|e| match e {
            ExprElem::ItemElem(i) => sketch(&i.contents),
            _ => panic!("an argument is no Item"),
        })
        .collect())
}

#[test]
fn arguments_are_cut_at_commas() {
    assert_eq!(arguments("a,b"), Ok(vec![strs(&["'a'"]), strs(&["'b'"])]));
    assert_eq!(arguments("a"), Ok(vec![strs(&["'a'"])]));
    assert_eq!(arguments(""), Ok(Vec::<Vec<String>>::new()));
    assert_eq!(arguments("a,"), Ok(vec![strs(&["'a'"])]));
    assert_eq!(arguments("a, "), Ok(vec![strs(&["'a'"])]));
    assert_eq!(arguments(" \t"), Ok(Vec::<Vec<String>>::new()));
    assert_eq!(arguments(" ,a"), Ok(vec![strs(&["' '"]), strs(&["'a'"])]));
    assert_eq!(arguments(",a"), Ok(vec![strs(&[]), strs(&["'a'"])]));
    assert_eq!(arguments("f(a,b),c"), Ok(vec![strs(&["'f'", "Paren[3]"]), strs(&["'c'"])]));
    assert_eq!(arguments("[a,b],{c,d}"), Ok(vec![strs(&["List[3]"]), strs(&["Block[3]"])]));
}

#[test]
fn strings_of_arguments_keep_their_quotes() {
    assert_eq!(arguments("\"a,b\",c"), Ok(vec![strs(&["Str(\"a,b\")"]), strs(&["'c'"])]));
    assert_eq!(arguments("\"a\\\"b\""), Ok(vec![strs(&["Str(\"a\\\"b\")"])]));
    assert_eq!(arguments("\"a"), Err(ParserError::QuotationNotClosed));
}

#[test]
fn the_argument_splitter_has_errors_of_its_own() {
    assert_eq!(arguments("a)"), Err(ParserError::BraceNotOpened));
    assert_eq!(arguments("(a"), Err(ParserError::BraceNotClosed));
    let mut splitter = CommaParser::new("a,b".to_string(), 0, 0);
    assert_eq!(splitter.code_list.len(), 0);
    assert_eq!(splitter.resolve(), Ok(()));
    assert_eq!(splitter.code_list.len(), 0);
}

#[test]
fn a_statement_is_read_again_as_an_expression() {
    let mut parser = StmtParser::new("a / 2 * b;".to_string(), 0, 0);
    assert_eq!(parser.resolve(), Ok(()));
    let mut parser = StmtParser::new("a / * b;".to_string(), 0, 0);
    assert_eq!(parser.resolve(), Err(ParserError::CommentBlockNotClosed));
    let mut parser = StmtParser::new("a / * * b;".to_string(), 0, 0);
    assert_eq!(parser.resolve(), Err(ParserError::UnexpectedTypeExpr));
    let mut parser = ExprParser::new("a / * b".to_string(), 0, 0);
    assert_eq!(parser.resolve(), Ok(()));
}

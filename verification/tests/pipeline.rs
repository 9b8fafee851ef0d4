use prefix_calc::ast::Stmt;
use prefix_calc::eval::exec_outputs;
use prefix_calc::lexer::lex;
use prefix_calc::parser::parse;
use prefix_calc::run;
use prefix_calc::tokenizer::tokenize_split;

#[test]
fn full_pipeline_prints_both_sums() {
    let r = run("print (+ 10 (+ 30 (+ (+ 7 7) 7))) print (+ -10 40)");
    assert_eq!(r, Ok(vec![61, 30]));
}

#[test]
fn missing_second_operand_is_a_parse_failure() {
    assert!(run("print (+ 1)").is_err());
}

#[test]
fn missing_close_paren_is_a_parse_failure() {
    assert!(run("print (+ 1 2").is_err());
}

#[test]
fn empty_source_prints_nothing() {
    assert_eq!(run(""), Ok(Vec::new()));
}

#[test]
fn unknown_statement_names_are_ignored() {
    assert_eq!(run("foo 1 print 2"), Ok(vec![2]));
    assert_eq!(run("show (+ 1 2)"), Ok(Vec::new()));
}

#[test]
fn identifiers_evaluate_to_zero() {
    assert_eq!(run("print x"), Ok(vec![0]));
    assert_eq!(run("print (+ x 5)"), Ok(vec![5]));
}

#[test]
fn leading_non_identifier_fails_the_whole_program() {
    assert!(run("42").is_err());
    assert!(run("( print 1 )").is_err());
    assert!(run("print 1 )").is_err());
}

#[test]
fn semicolon_is_its_own_token_and_a_silent_statement() {
    // `;` classifies as an identifier, so `; 1` is a statement named `;`
    // with argument 1: parsed, but printing nothing.
    assert_eq!(run("; 1"), Ok(Vec::new()));
    assert_eq!(run(";1 print 3"), Ok(vec![3]));
}

#[test]
fn addition_wraps_on_overflow() {
    assert_eq!(run("print (+ 2147483647 1)"), Ok(vec![-2147483648]));
}

#[test]
fn parens_tight_against_operands_still_parse() {
    assert_eq!(run("print(+ 1 2)"), Ok(vec![3]));
}

#[test]
fn exec_outputs_matches_run() {
    let src = "print (+ 10 (+ 30 (+ (+ 7 7) 7))) print (+ -10 40)";
    let mut lexs = lex(tokenize_split(src));
    let stmts: Vec<Stmt> = parse(&mut lexs).unwrap();
    assert_eq!(exec_outputs(stmts), vec![61, 30]);
    assert_eq!(run(src), Ok(vec![61, 30]));
}

use prefix_calc::ast::{Expr, Stmt};
use prefix_calc::eval::eval;
use prefix_calc::lexer::{lex, Lexeme};
use prefix_calc::parser::{parse, parse_expr};
use prefix_calc::render::expr_str;
use prefix_calc::tokenizer::tokenize_split;

fn lexemes_of(src: &str) -> Vec<Lexeme> {
    lex(tokenize_split(src))
}

fn lit(n: i32) -> Expr {
    Expr::IntExpr(n)
}

fn add(a: Expr, b: Expr) -> Expr {
    Expr::Add(Box::new(a), Box::new(b))
}

fn var(name: &str) -> Expr {
    Expr::VarExpr(name.to_string())
}

#[test]
fn parse_expr_builds_nested_additions() {
    let mut lexs = lexemes_of("(+ (+ 1 4) 2)");
    let expr = parse_expr(&mut lexs).unwrap();
    assert_eq!(expr, add(add(lit(1), lit(4)), lit(2)));
    assert_eq!(eval(expr), 7);
    assert!(lexs.is_empty());
}

#[test]
fn parse_expr_consumes_from_the_front() {
    let mut lexs = lexemes_of("1 2");
    let expr = parse_expr(&mut lexs).unwrap();
    assert_eq!(expr, lit(1));
    assert_eq!(lexs.len(), 1);
    assert_eq!(lexs[0].s, "2");
}

#[test]
fn parse_expr_rejects_malformed_input() {
    assert_eq!(parse_expr(&mut lexemes_of("")), None);
    assert_eq!(parse_expr(&mut lexemes_of(")")), None);
    assert_eq!(parse_expr(&mut lexemes_of("+")), None);
    assert_eq!(parse_expr(&mut lexemes_of("(+ 1")), None);
    assert_eq!(parse_expr(&mut lexemes_of("(1")), None);
    assert_eq!(parse_expr(&mut lexemes_of("(1 2)")), None);
}

#[test]
fn parse_expr_accepts_parenthesized_leaf() {
    let mut lexs = lexemes_of("(5)");
    assert_eq!(parse_expr(&mut lexs), Some(lit(5)));
}

#[test]
fn parse_builds_statements_in_source_order() {
    let mut lexs = lexemes_of("print 1 show 2");
    let stmts: Vec<Stmt> = parse(&mut lexs).unwrap();
    assert_eq!(stmts.len(), 2);
    assert_eq!(stmts[0].name, "print");
    assert_eq!(stmts[0].arg, lit(1));
    assert_eq!(stmts[1].name, "show");
    assert_eq!(stmts[1].arg, lit(2));
}

#[test]
fn parse_empty_input_is_the_empty_program() {
    let mut lexs = lexemes_of("");
    assert_eq!(parse(&mut lexs), Some(Vec::new()));
}

#[test]
fn parse_rejects_leading_non_identifier() {
    assert_eq!(parse(&mut lexemes_of("42 print 1")), None);
    assert_eq!(parse(&mut lexemes_of("( print 1 )")), None);
    assert_eq!(parse(&mut lexemes_of("print 1 )")), None);
}

#[test]
fn eval_leaves_and_additions() {
    assert_eq!(eval(lit(-7)), -7);
    assert_eq!(eval(var("x")), 0);
    assert_eq!(eval(add(lit(2), var("x"))), 2);
    assert_eq!(eval(add(lit(40), lit(21))), 61);
}

#[test]
fn eval_wraps_on_overflow() {
    assert_eq!(eval(add(lit(2147483647), lit(1))), -2147483648);
    assert_eq!(eval(add(lit(-2147483648), lit(-1))), 2147483647);
}

#[test]
fn eval_same_tree_twice_gives_same_value() {
    let first = eval(add(add(lit(3), var("a")), lit(-10)));
    let second = eval(add(add(lit(3), var("a")), lit(-10)));
    assert_eq!(first, second);
}

#[test]
fn expr_str_renders_prefix_text() {
    assert_eq!(expr_str(&add(lit(1), lit(2))), "(+ 1 2)");
    assert_eq!(expr_str(&lit(-10)), "-10");
    assert_eq!(expr_str(&var("foo")), "foo");
    assert_eq!(
        expr_str(&add(add(lit(1), lit(4)), lit(2))),
        "(+ (+ 1 4) 2)"
    );
}

#[test]
fn render_then_parse_restores_the_tree() {
    let tree = add(add(lit(-3), var("foo")), add(lit(12), var("bar")));
    let text = expr_str(&tree);
    let mut lexs = lexemes_of(text.as_str());
    let reparsed = parse_expr(&mut lexs).unwrap();
    assert!(lexs.is_empty());
    assert_eq!(reparsed, tree);
}

#[test]
fn render_then_parse_restores_boundary_literals() {
    let tree = add(lit(2147483647), lit(-2147483648));
    let text = expr_str(&tree);
    let mut lexs = lexemes_of(text.as_str());
    assert_eq!(parse_expr(&mut lexs), Some(tree));
}

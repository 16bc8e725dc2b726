use std::rc::Rc;

use rlox::ast::{Bin, Expr, Lit, Ops, Un};
use rlox::interpreter::{run, RunError};
use rlox::parser::{ParseError, Parser};
use rlox::printer::AstPrinter;
use rlox::scanner::{scan, Scanner};
use rlox::tokens::{TokenType, Value};

fn num(text: &str) -> Rc<Expr> {
    Rc::new(Expr::Literal(Lit::Num(Value::Num(text.to_string()))))
}

fn bin(left: Rc<Expr>, op: Ops, right: Rc<Expr>) -> Rc<Expr> {
    Rc::new(Expr::Binary(Bin { left, op, right }))
}

fn group(inner: Rc<Expr>) -> Rc<Expr> {
    Rc::new(Expr::Grouping(inner))
}

fn parse_ok(code: &str) -> Expr {
    let scan_res = Scanner::new(code).run();
    Parser::new(scan_res).parse().expect("a tree")
}

#[test]
fn test_parse_simple_equality() {
    let code = "(37 == 42) != (12 <6)";
    let scan_res = Scanner::new(code).run();
    let parse_res = Parser::new(scan_res).parse();
    println!("{}", parse_res.unwrap().accept(&AstPrinter));
}

#[test]
fn equality_of_groupings() {
    let e = parse_ok("(37 == 42) != (12 < 6)");
    let expected = bin(
        group(bin(num("37"), Ops::EqualEqual, num("42"))),
        Ops::BangEqual,
        group(bin(num("12"), Ops::Less, num("6"))),
    );
    assert_eq!(e, *expected);
    assert_eq!(
        e.accept(&AstPrinter),
        "( != ( group ( == 37 42 ) ) ( group ( < 12 6 ) ) )"
    );
    assert_eq!(parse_ok("(37 == 42) != (12 <6)"), *expected);
}

#[test]
fn factor_binds_tighter_than_term() {
    let e = parse_ok("1 + 2 * 3");
    let expected = bin(num("1"), Ops::Plus, bin(num("2"), Ops::Star, num("3")));
    assert_eq!(e, *expected);
    assert_eq!(e.accept(&AstPrinter), "( + 1 ( * 2 3 ) )");
}

#[test]
fn binary_layers_fold_to_the_left() {
    let e = parse_ok("1 - 2 - 3");
    let expected = bin(bin(num("1"), Ops::Minus, num("2")), Ops::Minus, num("3"));
    assert_eq!(e, *expected);
    assert_eq!(
        parse_ok("1 < 2 == 3 >= 4").accept(&AstPrinter),
        "( == ( < 1 2 ) ( >= 3 4 ) )"
    );
    assert_eq!(parse_ok("8 / 4 * 2").accept(&AstPrinter), "( * ( / 8 4 ) 2 )");
}

#[test]
fn double_negation() {
    let e = parse_ok("!!true");
    let expected = Expr::Unary(Un::Bang(Rc::new(Expr::Unary(Un::Bang(Rc::new(
        Expr::Literal(Lit::True),
    ))))));
    assert_eq!(e, expected);
    assert_eq!(e.accept(&AstPrinter), "( ! ( ! true ) )");
    assert_eq!(parse_ok("-3").accept(&AstPrinter), "( - 3 )");
}

#[test]
fn literals() {
    assert_eq!(parse_ok("nil"), Expr::Literal(Lit::Nil));
    assert_eq!(parse_ok("false"), Expr::Literal(Lit::False));
    assert_eq!(
        parse_ok("\"hi\""),
        Expr::Literal(Lit::Str(Value::String("hi".to_string())))
    );
    assert_eq!(parse_ok("\"hi\"").accept(&AstPrinter), "hi");
    assert_eq!(parse_ok("1.5").accept(&AstPrinter), "1.5");
}

#[test]
fn missing_close_paren_is_a_positioned_error() {
    let info = scan("(1 + 2");
    let eof_line = *info.line_nrs.last().unwrap();
    let eof_col = *info.end_cols.last().unwrap();
    let mut parser = Parser::new(info);
    match parser.try_parse() {
        Err(ParseError::Syntax { line, column, message }) => {
            assert_eq!(line, 1);
            assert_eq!(line, eof_line);
            assert_eq!(column, eof_col);
            assert_eq!(message, "expected \")\" to close expression");
        }
        other => panic!("unexpected outcome: {other:?}"),
    }
    assert!(Parser::new(scan("(1 + 2")).parse().is_none());
    match run("(1 + 2", None) {
        Err(RunError::Syntax(e)) => assert_eq!(
            e.to_message(),
            format!("[line: 1 column: {eof_col}] Error: expected \")\" to close expression")
        ),
        other => panic!("unexpected outcome: {other:?}"),
    }
}

#[test]
fn token_that_cannot_start_an_expression() {
    let mut parser = Parser::new(scan("1 +"));
    match parser.try_parse() {
        Err(ParseError::NotAnExpression { index }) => assert_eq!(index, 2),
        other => panic!("unexpected outcome: {other:?}"),
    }
    match run(")", None) {
        Err(RunError::Syntax(ParseError::NotAnExpression { index })) => assert_eq!(index, 0),
        other => panic!("unexpected outcome: {other:?}"),
    }
}

#[test]
fn trailing_tokens_are_left_unread() {
    let e = parse_ok("1 2");
    assert_eq!(e, *num("1"));
}

#[test]
fn lexical_errors_stop_the_run() {
    match run("\"abc", None) {
        Err(RunError::Lexing(errors)) => {
            assert_eq!(errors.len(), 1);
            assert_eq!(errors[0].column, 0);
        }
        other => panic!("unexpected outcome: {other:?}"),
    }
    let tree = run("(1 + 2) * 3", None).expect("a tree");
    assert_eq!(tree.accept(&AstPrinter), "( * ( group ( + 1 2 ) ) 3 )");
}

#[test]
fn synchronize_skips_to_a_statement_start() {
    let info = scan("1 + 2 ; var x");
    let semicolon = info.tags.iter().position(|t| *t == TokenType::Semicolon).unwrap();
    let mut parser = Parser::new(info);
    parser.synchronize();
    // the parser now stands on the semicolon: parsing from there reaches it first
    match parser.try_parse() {
        Err(ParseError::NotAnExpression { index }) => assert_eq!(index, semicolon),
        other => panic!("unexpected outcome: {other:?}"),
    }
}

#[test]
fn not_an_expression_message() {
    let e = ParseError::NotAnExpression { index: 12 };
    assert_eq!(e.to_message(), "invalid primary sequence at token 12");
    let e = ParseError::Syntax { line: 2, column: 5, message: "m".to_string() };
    assert_eq!(e.to_message(), "[line: 2 column: 5] Error: m");
}

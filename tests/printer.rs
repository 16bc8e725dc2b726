use std::rc::Rc;

use rlox::ast::{Bin, Expr, Lit, Ops, Un};
use rlox::printer::AstPrinter;
use rlox::tokens::Value;

#[test]
fn test_simpl_expr_visit() {
    let expr = Expr::Binary(Bin {
        left: Rc::new(Expr::Unary(Un::Minus(Rc::new(Expr::Literal(Lit::Num(Value::Num(
            format!("{}", 123.0_f64),
        ))))))),
        op: Ops::Star,
        right: Rc::new(Expr::Grouping(Rc::new(Expr::Literal(Lit::Num(Value::Num(
            format!("{}", 45.67_f64),
        )))))),
    });
    let res = expr.accept(&AstPrinter);
    assert_eq!(res, "( * ( - 123 ) ( group 45.67 ) )")
}

#[test]
fn every_operator_renders() {
    let ops = [
        (Ops::Minus, "-"),
        (Ops::Plus, "+"),
        (Ops::BangEqual, "!="),
        (Ops::Slash, "/"),
        (Ops::Star, "*"),
        (Ops::EqualEqual, "=="),
        (Ops::Greater, ">"),
        (Ops::GreaterEqual, ">="),
        (Ops::Less, "<"),
        (Ops::LessEqual, "<="),
    ];
    for (op, text) in ops {
        let e = Expr::Binary(Bin {
            left: Rc::new(Expr::Literal(Lit::Nil)),
            op,
            right: Rc::new(Expr::Literal(Lit::Str(Value::String("s".to_string())))),
        });
        assert_eq!(AstPrinter.print(&e), format!("( {text} nil s )"));
    }
    let absent = Expr::Literal(Lit::Num(Value::Absent));
    assert_eq!(AstPrinter.print(&absent), "nil");
}

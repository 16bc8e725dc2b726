//! Debug rendering of an expression tree: `( op left right )`, `( sign operand )`,
//! `( group inner )`, and literals as their text.

use vstd::prelude::*;

use crate::ast::{Bin, Expr, Lit, LitView, Ops, Sign, Tree, Un};
use crate::text::push_text;
use crate::tokens::{Value, ValueView};

verus! {

pub open spec fn op_text(op: Ops) -> Seq<char> {
    match op {
        Ops::Minus => "-"@,
        Ops::Plus => "+"@,
        Ops::BangEqual => "!="@,
        Ops::Slash => "/"@,
        Ops::Star => "*"@,
        Ops::EqualEqual => "=="@,
        Ops::Greater => ">"@,
        Ops::GreaterEqual => ">="@,
        Ops::Less => "<"@,
        Ops::LessEqual => "<="@,
    }
}

pub open spec fn sign_text(sign: Sign) -> Seq<char> {
    match sign {
        Sign::Minus => "-"@,
        Sign::Bang => "!"@,
    }
}

/// A literal value as text: a number's numeral, a string's raw text, `nil` for none.
pub open spec fn value_text(v: ValueView) -> Seq<char> {
    match v {
        ValueView::Num(t) => t,
        ValueView::Str(t) => t,
        ValueView::Absent => "nil"@,
    }
}

pub open spec fn lit_text(l: LitView) -> Seq<char> {
    match l {
        LitView::True => "true"@,
        LitView::False => "false"@,
        LitView::Nil => "nil"@,
        LitView::Num(v) => value_text(v),
        LitView::Str(v) => value_text(v),
    }
}

/// The rendering of a tree.
pub open spec fn render(t: Tree) -> Seq<char>
    decreases t,
{
    match t {
        Tree::Literal(l) => lit_text(l),
        Tree::Unary(sign, e) => "( "@ + sign_text(sign) + " "@ + render(*e) + " )"@,
        Tree::Binary(l, op, r) => "( "@ + op_text(op) + " "@ + render(*l) + " "@ + render(*r)
            + " )"@,
        Tree::Grouping(e) => "( group "@ + render(*e) + " )"@,
    }
}

fn op_str(op: Ops) -> (r: &'static str)
    ensures
        r@ == op_text(op),
{
    match op {
        Ops::Minus => "-",
        Ops::Plus => "+",
        Ops::BangEqual => "!=",
        Ops::Slash => "/",
        Ops::Star => "*",
        Ops::EqualEqual => "==",
        Ops::Greater => ">",
        Ops::GreaterEqual => ">=",
        Ops::Less => "<",
        Ops::LessEqual => "<=",
    }
}

/// Renders expression trees.
pub struct AstPrinter;

impl AstPrinter {
    /// The rendering of `expr`.
    pub fn print(&self, expr: &Expr) -> (r: String)
        ensures
            r@ == render(expr.tree()),
        decreases expr, 1nat,
    {
        match expr {
            Expr::Literal(lit) => self.visit_literal(lit),
            Expr::Unary(un) => self.visit_unary(un),
            Expr::Binary(bin) => self.visit_binary(bin),
            Expr::Grouping(_) => self.visit_grouping(expr),
        }
    }

    fn visit_binary(&self, expr: &Bin) -> (r: String)
        ensures
            r@ == render(Tree::Binary(Box::new(expr.left.tree()), expr.op, Box::new(expr.right.tree()))),
        decreases expr, 0nat,
    {
        let left = self.print(&*expr.left);
        let right = self.print(&*expr.right);
        let mut r = String::new();
        push_text(&mut r, "( ");
        push_text(&mut r, op_str(expr.op));
        push_text(&mut r, " ");
        push_text(&mut r, left.as_str());
        push_text(&mut r, " ");
        push_text(&mut r, right.as_str());
        push_text(&mut r, " )");
        r
    }

    fn visit_unary(&self, expr: &Un) -> (r: String)
        ensures
            r@ == match expr {
                Un::Minus(e) => render(Tree::Unary(Sign::Minus, Box::new(e.tree()))),
                Un::Bang(e) => render(Tree::Unary(Sign::Bang, Box::new(e.tree()))),
            },
        decreases expr, 0nat,
    {
        let sign = match expr {
            Un::Minus(_) => "-",
            Un::Bang(_) => "!",
        };
        let inner = match expr {
            Un::Minus(e) => self.print(&**e),
            Un::Bang(e) => self.print(&**e),
        };
        let mut r = String::new();
        push_text(&mut r, "( ");
        push_text(&mut r, sign);
        push_text(&mut r, " ");
        push_text(&mut r, inner.as_str());
        push_text(&mut r, " )");
        r
    }

    fn visit_literal(&self, expr: &Lit) -> (r: String)
        ensures
            r@ == lit_text(expr.view()),
    {
        let mut r = String::new();
        match expr {
            Lit::True => push_text(&mut r, "true"),
            Lit::False => push_text(&mut r, "false"),
            Lit::Nil => push_text(&mut r, "nil"),
            Lit::Num(v) => push_value(&mut r, v),
            Lit::Str(v) => push_value(&mut r, v),
        }
        r
    }

    /// Renders a grouping node.
    fn visit_grouping(&self, expr: &Expr) -> (r: String)
        requires
            expr is Grouping,
        ensures
            r@ == render(expr.tree()),
        decreases expr, 0nat,
    {
        let inner = match expr {
            Expr::Grouping(grp) => self.print(&**grp),
            _ => String::new(),
        };
        let mut r = String::new();
        push_text(&mut r, "( group ");
        push_text(&mut r, inner.as_str());
        push_text(&mut r, " )");
        r
    }
}

impl Expr {
    /// The rendering of this expression by `visitor`.
    pub fn accept(&self, visitor: &AstPrinter) -> (r: String)
        ensures
            r@ == render(self.tree()),
    {
        visitor.print(self)
    }
}

fn push_value(r: &mut String, v: &Value)
    ensures
        final(r)@ == old(r)@ + value_text(v@),
{
    match v {
        Value::Num(t) => push_text(r, t.as_str()),
        Value::String(t) => push_text(r, t.as_str()),
        Value::Absent => push_text(r, "nil"),
    }
}

} // verus!

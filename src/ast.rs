//! The expression tree.

use std::rc::Rc;

use vstd::prelude::*;

use crate::tokens::{TokenType, Value, ValueView};

verus! {

/// A literal leaf.
#[derive(Clone, PartialEq, Debug)]
pub enum Lit {
    True,
    False,
    Nil,
    Num(Value),
    Str(Value),
}

/// A prefix operator applied to its operand.
#[derive(Clone, PartialEq, Debug)]
pub enum Un {
    Minus(Rc<Expr>),
    Bang(Rc<Expr>),
}

/// The ten binary operators.
#[derive(Clone, Copy, PartialEq, Eq, Debug, Structural)]
pub enum Ops {
    Minus,
    Plus,
    BangEqual,
    Slash,
    Star,
    EqualEqual,
    Greater,
    GreaterEqual,
    Less,
    LessEqual,
}

/// A binary node.
#[derive(Clone, PartialEq, Debug)]
pub struct Bin {
    pub left: Rc<Expr>,
    pub op: Ops,
    pub right: Rc<Expr>,
}

/// An expression. Nodes are never changed once built, so subtrees are shared.
#[derive(Clone, PartialEq, Debug)]
pub enum Expr {
    Literal(Lit),
    Unary(Un),
    Binary(Bin),
    Grouping(Rc<Expr>),
}

/// What a literal leaf is.
pub enum LitView {
    True,
    False,
    Nil,
    Num(ValueView),
    Str(ValueView),
}

pub enum Sign {
    Minus,
    Bang,
}

/// The mathematical form of an expression tree.
pub enum Tree {
    Literal(LitView),
    Unary(Sign, Box<Tree>),
    Binary(Box<Tree>, Ops, Box<Tree>),
    Grouping(Box<Tree>),
}

impl Lit {
    pub open spec fn view(&self) -> LitView {
        match self {
            Lit::True => LitView::True,
            Lit::False => LitView::False,
            Lit::Nil => LitView::Nil,
            Lit::Num(v) => LitView::Num(v@),
            Lit::Str(v) => LitView::Str(v@),
        }
    }
}

impl Expr {
    pub open spec fn tree(&self) -> Tree
        decreases self,
    {
        match self {
            Expr::Literal(l) => Tree::Literal(l.view()),
            Expr::Unary(Un::Minus(e)) => Tree::Unary(Sign::Minus, Box::new((**e).tree())),
            Expr::Unary(Un::Bang(e)) => Tree::Unary(Sign::Bang, Box::new((**e).tree())),
            Expr::Binary(b) => Tree::Binary(
                Box::new((*b.left).tree()),
                b.op,
                Box::new((*b.right).tree()),
            ),
            Expr::Grouping(e) => Tree::Grouping(Box::new((**e).tree())),
        }
    }
}

/// The operator of a binary operator tag.
pub open spec fn op_of(tag: TokenType) -> Ops
    recommends
        is_binary_tag(tag),
{
    match tag {
        TokenType::Minus => Ops::Minus,
        TokenType::Plus => Ops::Plus,
        TokenType::Slash => Ops::Slash,
        TokenType::Star => Ops::Star,
        TokenType::BangEqual => Ops::BangEqual,
        TokenType::EqualEqual => Ops::EqualEqual,
        TokenType::Greater => Ops::Greater,
        TokenType::GreaterEqual => Ops::GreaterEqual,
        TokenType::Less => Ops::Less,
        _ => Ops::LessEqual,
    }
}

/// The tags that stand for a binary operator.
pub open spec fn is_binary_tag(tag: TokenType) -> bool {
    tag.spec_is_equality() || tag.spec_is_comp() || tag.spec_is_term() || tag.spec_is_factor()
}

impl Ops {
    /// The operator of a binary operator tag. Any other tag is a defect of the caller.
    pub fn from(value: &TokenType) -> (r: Ops)
        requires
            is_binary_tag(*value),
        ensures
            r == op_of(*value),
    {
        match value {
            TokenType::Minus => Ops::Minus,
            TokenType::Plus => Ops::Plus,
            TokenType::Slash => Ops::Slash,
            TokenType::Star => Ops::Star,
            TokenType::BangEqual => Ops::BangEqual,
            TokenType::EqualEqual => Ops::EqualEqual,
            TokenType::Greater => Ops::Greater,
            TokenType::GreaterEqual => Ops::GreaterEqual,
            TokenType::Less => Ops::Less,
            _ => Ops::LessEqual,
        }
    }
}

impl Un {
    /// The operand.
    pub fn inner(&self) -> (r: &Rc<Expr>)
        ensures
            *r == match self {
                Un::Minus(x) => *x,
                Un::Bang(x) => *x,
            },
    {
        match self {
            Un::Minus(x) | Un::Bang(x) => x,
        }
    }
}

} // verus!

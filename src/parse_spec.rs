//! What parsing produces, stated as mutually recursive functions over a token table.
//!
//! ```text
//! expression → equality
//! equality   → comparison ( ( "==" | "!=" ) comparison )*
//! comparison → term ( ( ">" | ">=" | "<" | "<=" ) term )*
//! term       → factor ( ( "+" | "-" ) factor )*
//! factor     → unary ( ( "*" | "/" ) unary )*
//! unary      → ( "!" | "-" ) unary | primary
//! primary    → NUMBER | STRING | "true" | "false" | "nil" | "(" expression ")"
//! ```
//!
//! The binary layers are numbered from the loosest: 4 is equality, 3 comparison,
//! 2 term, 1 factor; layer 0 is unary.

use vstd::prelude::*;

use crate::ast::{op_of, LitView, Sign, Tree};
use crate::tokens::{TokenType, ValueView};

verus! {

/// What the parser reads of a token table: the tags, and the literal values.
pub struct Table {
    pub tags: Seq<TokenType>,
    pub lits: Seq<ValueView>,
}

/// The outcome of parsing from a position.
pub enum Parsed {
    /// A tree, and the position after it.
    Done(Tree, int),
    /// The closing `)` of a grouping is missing at this position.
    Missing(int),
    /// The token at this position cannot start an expression: a defect of the
    /// grammar's caller, not a syntax error.
    Stuck(int),
}

/// Whether `tag` is an operator of binary layer `level`.
pub open spec fn layer_op(level: nat, tag: TokenType) -> bool {
    if level == 4 {
        tag.spec_is_equality()
    } else if level == 3 {
        tag.spec_is_comp()
    } else if level == 2 {
        tag.spec_is_term()
    } else {
        tag.spec_is_factor()
    }
}

/// A well-formed table: one literal per tag, the last tag `Eof` and no other.
pub open spec fn table_ok(t: Table) -> bool {
    &&& t.tags.len() == t.lits.len()
    &&& t.tags.len() >= 1
    &&& t.tags.last() == TokenType::Eof
}

/// Binary layer `level` from `pos`: its first operand, then operators and operands
/// folded to the left.
pub open spec fn binary(t: Table, level: nat, pos: int) -> Parsed
    decreases t.tags.len() - pos, level, 2nat,
{
    if level == 0 {
        unary(t, pos)
    } else {
        match binary(t, (level - 1) as nat, pos) {
            Parsed::Done(left, p) => if pos <= p <= t.tags.len() {
                binary_rest(t, level, left, p)
            } else {
                Parsed::Done(left, p)
            },
            other => other,
        }
    }
}

/// The loop of binary layer `level`: `left` is what was read so far, and `pos`
/// stands on the next token.
pub open spec fn binary_rest(t: Table, level: nat, left: Tree, pos: int) -> Parsed
    decreases t.tags.len() - pos, level, 0nat,
{
    if 0 <= pos < t.tags.len() && level > 0 && layer_op(level, t.tags[pos]) {
        match binary(t, (level - 1) as nat, pos + 1) {
            Parsed::Done(right, p) => {
                let node = Tree::Binary(Box::new(left), op_of(t.tags[pos]), Box::new(right));
                if pos < p <= t.tags.len() {
                    binary_rest(t, level, node, p)
                } else {
                    Parsed::Done(node, p)
                }
            },
            other => other,
        }
    } else {
        Parsed::Done(left, pos)
    }
}

/// `unary → ( "!" | "-" ) unary | primary`
pub open spec fn unary(t: Table, pos: int) -> Parsed
    decreases t.tags.len() - pos, 0nat, 1nat,
{
    if 0 <= pos < t.tags.len() && t.tags[pos].spec_is_unary() {
        let sign = if t.tags[pos] == TokenType::Minus {
            Sign::Minus
        } else {
            Sign::Bang
        };
        match unary(t, pos + 1) {
            Parsed::Done(e, p) => Parsed::Done(Tree::Unary(sign, Box::new(e)), p),
            other => other,
        }
    } else {
        primary(t, pos)
    }
}

/// `primary → NUMBER | STRING | "true" | "false" | "nil" | "(" expression ")"`
pub open spec fn primary(t: Table, pos: int) -> Parsed
    decreases t.tags.len() - pos, 0nat, 0nat,
{
    if 0 <= pos < t.tags.len() {
        let tag = t.tags[pos];
        if tag == TokenType::Nil {
            Parsed::Done(Tree::Literal(LitView::Nil), pos + 1)
        } else if tag == TokenType::False {
            Parsed::Done(Tree::Literal(LitView::False), pos + 1)
        } else if tag == TokenType::True {
            Parsed::Done(Tree::Literal(LitView::True), pos + 1)
        } else if tag == TokenType::Number {
            Parsed::Done(Tree::Literal(LitView::Num(t.lits[pos])), pos + 1)
        } else if tag == TokenType::String {
            Parsed::Done(Tree::Literal(LitView::Str(t.lits[pos])), pos + 1)
        } else if tag == TokenType::LeftParen {
            match binary(t, 4, pos + 1) {
                Parsed::Done(e, p) => if 0 <= p < t.tags.len() && t.tags[p]
                    == TokenType::RightParen {
                    Parsed::Done(Tree::Grouping(Box::new(e)), p + 1)
                } else {
                    Parsed::Missing(p)
                },
                other => other,
            }
        } else {
            Parsed::Stuck(pos)
        }
    } else {
        Parsed::Stuck(pos)
    }
}

/// `expression → equality`
pub open spec fn expression(t: Table, pos: int) -> Parsed {
    binary(t, 4, pos)
}

/// The outcome of parsing one expression from the start of the table.
pub open spec fn parse_table(t: Table) -> Parsed {
    expression(t, 0)
}

/// A successful parse consumes at least one token, and never the last one when the
/// table is well formed.
pub open spec fn consumes(t: Table, r: Parsed, pos: int) -> bool {
    r matches Parsed::Done(_, p) ==> {
        &&& pos < p <= t.tags.len()
        &&& t.tags[p - 1] != TokenType::Eof
    }
}

pub proof fn lemma_binary_consumes(t: Table, level: nat, pos: int)
    requires
        0 <= pos,
    ensures
        consumes(t, binary(t, level, pos), pos),
    decreases t.tags.len() - pos, level, 2nat,
{
    if level == 0 {
        lemma_unary_consumes(t, pos);
    } else {
        lemma_binary_consumes(t, (level - 1) as nat, pos);
        match binary(t, (level - 1) as nat, pos) {
            Parsed::Done(left, p) => {
                lemma_binary_rest_consumes(t, level, left, p);
            },
            _ => {},
        }
    }
}

pub proof fn lemma_binary_rest_consumes(t: Table, level: nat, left: Tree, pos: int)
    requires
        0 < pos <= t.tags.len(),
        t.tags[pos - 1] != TokenType::Eof,
    ensures
        consumes(t, binary_rest(t, level, left, pos), pos - 1),
        binary_rest(t, level, left, pos) matches Parsed::Done(_, p) ==> pos <= p,
    decreases t.tags.len() - pos, level, 0nat,
{
    if 0 <= pos < t.tags.len() && level > 0 && layer_op(level, t.tags[pos]) {
        lemma_binary_consumes(t, (level - 1) as nat, pos + 1);
        match binary(t, (level - 1) as nat, pos + 1) {
            Parsed::Done(right, p) => {
                let node = Tree::Binary(Box::new(left), op_of(t.tags[pos]), Box::new(right));
                lemma_binary_rest_consumes(t, level, node, p);
            },
            _ => {},
        }
    }
}

pub proof fn lemma_unary_consumes(t: Table, pos: int)
    requires
        0 <= pos,
    ensures
        consumes(t, unary(t, pos), pos),
    decreases t.tags.len() - pos, 0nat, 1nat,
{
    if 0 <= pos < t.tags.len() && t.tags[pos].spec_is_unary() {
        lemma_unary_consumes(t, pos + 1);
    } else {
        lemma_primary_consumes(t, pos);
    }
}

pub proof fn lemma_primary_consumes(t: Table, pos: int)
    requires
        0 <= pos,
    ensures
        consumes(t, primary(t, pos), pos),
    decreases t.tags.len() - pos, 0nat, 0nat,
{
    if 0 <= pos < t.tags.len() && t.tags[pos] == TokenType::LeftParen {
        lemma_binary_consumes(t, 4, pos + 1);
    }
}

/// In a well-formed table a successful parse stops on a token of the table.
pub proof fn lemma_done_in_table(t: Table, level: nat, pos: int)
    requires
        0 <= pos,
        table_ok(t),
    ensures
        binary(t, level, pos) matches Parsed::Done(_, p) ==> pos < p < t.tags.len(),
{
    lemma_binary_consumes(t, level, pos);
}

} // verus!

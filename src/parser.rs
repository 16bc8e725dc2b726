//! The recursive-descent parser: a token table to one expression tree.

use std::rc::Rc;

use vstd::prelude::*;

use crate::ast::{Bin, Expr, Lit, Ops, Un};
use crate::diagnostics::err_msg_at;
use crate::parse_spec::{
    binary, binary_rest, expression, lemma_binary_consumes, lemma_done_in_table, primary,
    table_ok, unary, Parsed, Table,
};
use crate::scanner::TokenInfo;
use crate::text::push_text;
use crate::tokens::TokenType;

verus! {

/// Why a parse produced no tree.
#[derive(Debug)]
pub enum ParseError {
    /// An expected token is missing; the line and column are those of the token
    /// found instead.
    Syntax { line: usize, column: usize, message: String },
    /// The token at `index` cannot start an expression. Reaching it is a defect of
    /// the caller, not a property of the input.
    NotAnExpression { index: usize },
}

pub open spec fn close_paren_message() -> Seq<char> {
    "expected \")\" to close expression"@
}

/// What the parser reads of `info`.
pub open spec fn table_of(info: &TokenInfo) -> Table {
    Table {
        tags: info.tags@,
        lits: Seq::new(info.tokens@.len(), |i: int| info.tokens@[i].literal@),
    }
}

/// Parallel arrays of one length, a well-formed table.
pub open spec fn info_ok(info: &TokenInfo) -> bool {
    &&& info.tokens@.len() == info.tags@.len()
    &&& info.line_nrs@.len() == info.tags@.len()
    &&& info.end_cols@.len() == info.tags@.len()
    &&& table_ok(table_of(info))
}

/// `r` is what the outcome `o` of parsing `info` says, and the cursor ends at `end`.
pub open spec fn agrees(info: &TokenInfo, o: Parsed, r: Result<Expr, ParseError>, end: int) -> bool {
    match o {
        Parsed::Done(tree, p) => (r matches Ok(e) && e.tree() == tree && end == p),
        Parsed::Missing(i) => (r matches Err(ParseError::Syntax { line, column, message }) && 0
            <= i < info.tags@.len() && line == info.line_nrs@[i] && column == info.end_cols@[i]
            && message@ == close_paren_message()),
        Parsed::Stuck(i) => (r matches Err(ParseError::NotAnExpression { index }) && index == i),
    }
}

impl ParseError {
    /// The diagnostic text.
    pub fn to_message(&self) -> (r: String)
        ensures
            self matches ParseError::Syntax { line, column, message } ==> r@
                == crate::diagnostics::position_message(line as nat, column as nat, message@),
            self matches ParseError::NotAnExpression { index } ==> r@
                == "invalid primary sequence at token "@ + crate::diagnostics::decimal(index as nat),
    {
        match self {
            ParseError::Syntax { line, column, message } => err_msg_at(
                *line,
                *column,
                message.as_str(),
            ),
            ParseError::NotAnExpression { index } => {
                let mut r = String::new();
                push_text(&mut r, "invalid primary sequence at token ");
                crate::diagnostics::push_decimal(&mut r, *index);
                r
            },
        }
    }
}

/// Parses one expression from a token table.
pub struct Parser {
    cursor: usize,
    tokens: TokenInfo,
}

impl Parser {
    /// What the parser reads.
    pub closed spec fn table(&self) -> Table {
        table_of(&self.tokens)
    }

    /// The position of the next token to read.
    pub closed spec fn pos(&self) -> int {
        self.cursor as int
    }

    /// The token table.
    pub closed spec fn info(&self) -> &TokenInfo {
        &self.tokens
    }

    pub closed spec fn wf(&self) -> bool {
        &&& info_ok(&self.tokens)
        &&& self.cursor <= self.tokens.tags@.len()
    }

    /// A parser at the start of `tokens`.
    pub fn new(tokens: TokenInfo) -> (r: Parser)
        requires
            info_ok(&tokens),
        ensures
            r.wf(),
            r.pos() == 0,
            *r.info() == tokens,
            r.table() == table_of(&tokens),
    {
        Parser { cursor: 0, tokens }
    }

    /// Parses one expression from the cursor. Tokens after it are left unread.
    /// Requires that no token which cannot start an expression is reached.
    pub fn parse(&mut self) -> (r: Option<Expr>)
        requires
            old(self).wf(),
            !(expression(old(self).table(), old(self).pos()) is Stuck),
        ensures
            final(self).wf(),
            match expression(old(self).table(), old(self).pos()) {
                Parsed::Done(tree, p) => (r matches Some(e) && e.tree() == tree && final(self).pos()
                    == p),
                _ => r is None,
            },
    {
        match self.expression() {
            Ok(e) => Some(e),
            Err(_) => None,
        }
    }

    /// Parses one expression from the cursor, saying why when there is no tree.
    pub fn try_parse(&mut self) -> (r: Result<Expr, ParseError>)
        requires
            old(self).wf(),
        ensures
            final(self).wf(),
            *final(self).info() == *old(self).info(),
            agrees(old(self).info(), expression(old(self).table(), old(self).pos()), r, final(self).pos()),
    {
        self.expression()
    }

    /// Skips the failing token, then tokens up to one that starts a statement (a
    /// semicolon or a statement keyword), or to the end of the table.
    pub fn synchronize(&mut self)
        requires
            old(self).wf(),
        ensures
            final(self).wf(),
            *final(self).info() == *old(self).info(),
            old(self).pos() < final(self).pos() || final(self).pos() == old(self).table().tags.len(),
            final(self).pos() < final(self).table().tags.len() ==> starts_statement(
                final(self).table().tags[final(self).pos()],
            ),
            forall|i: int|
                old(self).pos() < i < final(self).pos() ==> !starts_statement(
                    #[trigger] old(self).table().tags[i],
                ),
    {
        let ghost begin = self.cursor as int;
        self.advance();
        while self.cursor < self.tokens.tags.len()
            invariant
                self.wf(),
                self.tokens == old(self).tokens,
                begin == old(self).cursor,
                begin < self.cursor || self.cursor == self.tokens.tags@.len(),
                forall|i: int| begin < i < self.cursor ==> !starts_statement(#[trigger] self.tokens.tags@[i]),
            decreases self.tokens.tags@.len() - self.cursor,
        {
            let curr_tag = self.tokens.tags[self.cursor];
            if matches!(curr_tag, TokenType::Semicolon) || matches!(curr_tag, TokenType::Class)
                || matches!(curr_tag, TokenType::Fun) || matches!(curr_tag, TokenType::Var)
                || matches!(curr_tag, TokenType::For) || matches!(curr_tag, TokenType::If)
                || matches!(curr_tag, TokenType::While) || matches!(curr_tag, TokenType::Print)
                || matches!(curr_tag, TokenType::Return) {
                return;
            }
            self.advance();
        }
    }

    /// Moves the cursor past the current token, unless the table is exhausted.
    fn advance(&mut self)
        requires
            old(self).wf(),
        ensures
            final(self).wf(),
            final(self).tokens == old(self).tokens,
            final(self).cursor == if old(self).cursor < old(self).tokens.tags@.len() {
                old(self).cursor + 1
            } else {
                old(self).cursor as int
            },
    {
        if self.cursor < self.tokens.tags.len() {
            self.cursor = self.cursor + 1;
        }
    }

    /// `expression → equality`
    fn expression(&mut self) -> (r: Result<Expr, ParseError>)
        requires
            old(self).wf(),
        ensures
            final(self).wf(),
            final(self).tokens == old(self).tokens,
            agrees(&old(self).tokens, expression(old(self).table(), old(self).pos()), r, final(self).pos()),
        decreases old(self).tokens.tags@.len() - old(self).cursor, 6nat,
    {
        self.equality()
    }

    /// `equality → comparison ( ( "==" | "!=" ) comparison )*`
    fn equality(&mut self) -> (r: Result<Expr, ParseError>)
        requires
            old(self).wf(),
        ensures
            final(self).wf(),
            final(self).tokens == old(self).tokens,
            agrees(&old(self).tokens, binary(old(self).table(), 4, old(self).pos()), r, final(self).pos()),
        decreases old(self).tokens.tags@.len() - old(self).cursor, 5nat,
    {
        let ghost t = self.table();
        let ghost begin = self.pos();
        proof {
            lemma_binary_consumes(t, 3, begin);
            lemma_done_in_table(t, 3, begin);
        }
        let mut expr = match self.comparison() {
            Ok(e) => e,
            Err(e) => return Err(e),
        };
        loop
            invariant
                self.wf(),
                self.tokens == old(self).tokens,
                t == old(self).table(),
                begin == old(self).pos(),
                begin < self.pos() < self.tokens.tags@.len(),
                t.tags[self.cursor - 1] != TokenType::Eof,
                binary_rest(t, 4, expr.tree(), self.pos()) == binary(t, 4, begin),
            ensures
                self.wf(),
                self.tokens == old(self).tokens,
                binary(t, 4, begin) == Parsed::Done(expr.tree(), self.pos()),
            decreases self.tokens.tags@.len() - self.cursor,
        {
            if !self.tokens.tags[self.cursor].is_equality() {
                break;
            }
            let curr = self.cursor;
            self.advance();
            proof {
                lemma_binary_consumes(t, 3, self.pos());
                lemma_done_in_table(t, 3, self.pos());
            }
            let right = match self.comparison() {
                Ok(e) => e,
                Err(e) => return Err(e),
            };
            expr = Expr::Binary(
                Bin {
                    left: Rc::new(expr),
                    op: Ops::from(&self.tokens.tags[curr]),
                    right: Rc::new(right),
                },
            );
        }
        Ok(expr)
    }

    /// `comparison → term ( ( ">" | ">=" | "<" | "<=" ) term )*`
    fn comparison(&mut self) -> (r: Result<Expr, ParseError>)
        requires
            old(self).wf(),
        ensures
            final(self).wf(),
            final(self).tokens == old(self).tokens,
            agrees(&old(self).tokens, binary(old(self).table(), 3, old(self).pos()), r, final(self).pos()),
        decreases old(self).tokens.tags@.len() - old(self).cursor, 4nat,
    {
        let ghost t = self.table();
        let ghost begin = self.pos();
        proof {
            lemma_binary_consumes(t, 2, begin);
            lemma_done_in_table(t, 2, begin);
        }
        let mut expr = match self.term() {
            Ok(e) => e,
            Err(e) => return Err(e),
        };
        loop
            invariant
                self.wf(),
                self.tokens == old(self).tokens,
                t == old(self).table(),
                begin == old(self).pos(),
                begin < self.pos() < self.tokens.tags@.len(),
                t.tags[self.cursor - 1] != TokenType::Eof,
                binary_rest(t, 3, expr.tree(), self.pos()) == binary(t, 3, begin),
            ensures
                self.wf(),
                self.tokens == old(self).tokens,
                binary(t, 3, begin) == Parsed::Done(expr.tree(), self.pos()),
            decreases self.tokens.tags@.len() - self.cursor,
        {
            if !self.tokens.tags[self.cursor].is_comp() {
                break;
            }
            let curr = self.cursor;
            self.advance();
            proof {
                lemma_binary_consumes(t, 2, self.pos());
                lemma_done_in_table(t, 2, self.pos());
            }
            let right = match self.term() {
                Ok(e) => e,
                Err(e) => return Err(e),
            };
            expr = Expr::Binary(
                Bin {
                    left: Rc::new(expr),
                    op: Ops::from(&self.tokens.tags[curr]),
                    right: Rc::new(right),
                },
            );
        }
        Ok(expr)
    }

    /// `term → factor ( ( "+" | "-" ) factor )*`
    fn term(&mut self) -> (r: Result<Expr, ParseError>)
        requires
            old(self).wf(),
        ensures
            final(self).wf(),
            final(self).tokens == old(self).tokens,
            agrees(&old(self).tokens, binary(old(self).table(), 2, old(self).pos()), r, final(self).pos()),
        decreases old(self).tokens.tags@.len() - old(self).cursor, 3nat,
    {
        let ghost t = self.table();
        let ghost begin = self.pos();
        proof {
            lemma_binary_consumes(t, 1, begin);
            lemma_done_in_table(t, 1, begin);
        }
        let mut expr = match self.factor() {
            Ok(e) => e,
            Err(e) => return Err(e),
        };
        loop
            invariant
                self.wf(),
                self.tokens == old(self).tokens,
                t == old(self).table(),
                begin == old(self).pos(),
                begin < self.pos() < self.tokens.tags@.len(),
                t.tags[self.cursor - 1] != TokenType::Eof,
                binary_rest(t, 2, expr.tree(), self.pos()) == binary(t, 2, begin),
            ensures
                self.wf(),
                self.tokens == old(self).tokens,
                binary(t, 2, begin) == Parsed::Done(expr.tree(), self.pos()),
            decreases self.tokens.tags@.len() - self.cursor,
        {
            if !self.tokens.tags[self.cursor].is_term() {
                break;
            }
            let curr = self.cursor;
            self.advance();
            proof {
                lemma_binary_consumes(t, 1, self.pos());
                lemma_done_in_table(t, 1, self.pos());
            }
            let right = match self.factor() {
                Ok(e) => e,
                Err(e) => return Err(e),
            };
            expr = Expr::Binary(
                Bin {
                    left: Rc::new(expr),
                    op: Ops::from(&self.tokens.tags[curr]),
                    right: Rc::new(right),
                },
            );
        }
        Ok(expr)
    }

    /// `factor → unary ( ( "*" | "/" ) unary )*`
    fn factor(&mut self) -> (r: Result<Expr, ParseError>)
        requires
            old(self).wf(),
        ensures
            final(self).wf(),
            final(self).tokens == old(self).tokens,
            agrees(&old(self).tokens, binary(old(self).table(), 1, old(self).pos()), r, final(self).pos()),
        decreases old(self).tokens.tags@.len() - old(self).cursor, 2nat,
    {
        let ghost t = self.table();
        let ghost begin = self.pos();
        proof {
            lemma_binary_consumes(t, 0, begin);
            lemma_done_in_table(t, 0, begin);
        }
        let mut expr = match self.unary() {
            Ok(e) => e,
            Err(e) => return Err(e),
        };
        loop
            invariant
                self.wf(),
                self.tokens == old(self).tokens,
                t == old(self).table(),
                begin == old(self).pos(),
                begin < self.pos() < self.tokens.tags@.len(),
                t.tags[self.cursor - 1] != TokenType::Eof,
                binary_rest(t, 1, expr.tree(), self.pos()) == binary(t, 1, begin),
            ensures
                self.wf(),
                self.tokens == old(self).tokens,
                binary(t, 1, begin) == Parsed::Done(expr.tree(), self.pos()),
            decreases self.tokens.tags@.len() - self.cursor,
        {
            if !self.tokens.tags[self.cursor].is_factor() {
                break;
            }
            let curr = self.cursor;
            self.advance();
            proof {
                lemma_binary_consumes(t, 0, self.pos());
                lemma_done_in_table(t, 0, self.pos());
            }
            let right = match self.unary() {
                Ok(e) => e,
                Err(e) => return Err(e),
            };
            expr = Expr::Binary(
                Bin {
                    left: Rc::new(expr),
                    op: Ops::from(&self.tokens.tags[curr]),
                    right: Rc::new(right),
                },
            );
        }
        Ok(expr)
    }

    /// `unary → ( "!" | "-" ) unary | primary`
    fn unary(&mut self) -> (r: Result<Expr, ParseError>)
        requires
            old(self).wf(),
        ensures
            final(self).wf(),
            final(self).tokens == old(self).tokens,
            agrees(&old(self).tokens, unary(old(self).table(), old(self).pos()), r, final(self).pos()),
        decreases old(self).tokens.tags@.len() - old(self).cursor, 1nat,
    {
        if self.cursor < self.tokens.tags.len() {
            let curr_tag = self.tokens.tags[self.cursor];
            if curr_tag.is_unary() {
                self.advance();
                let right = match self.unary() {
                    Ok(e) => e,
                    Err(e) => return Err(e),
                };
                return Ok(
                    Expr::Unary(
                        match curr_tag {
                            TokenType::Minus => Un::Minus(Rc::new(right)),
                            _ => Un::Bang(Rc::new(right)),
                        },
                    ),
                );
            }
        }
        self.primary()
    }

    /// `primary → NUMBER | STRING | "true" | "false" | "nil" | "(" expression ")"`
    fn primary(&mut self) -> (r: Result<Expr, ParseError>)
        requires
            old(self).wf(),
        ensures
            final(self).wf(),
            final(self).tokens == old(self).tokens,
            agrees(&old(self).tokens, primary(old(self).table(), old(self).pos()), r, final(self).pos()),
        decreases old(self).tokens.tags@.len() - old(self).cursor, 0nat,
    {
        if self.cursor >= self.tokens.tags.len() {
            return Err(ParseError::NotAnExpression { index: self.cursor });
        }
        let curr = self.cursor;
        let tag = self.tokens.tags[curr];
        match tag {
            TokenType::Nil => {
                self.advance();
                Ok(Expr::Literal(Lit::Nil))
            },
            TokenType::False => {
                self.advance();
                Ok(Expr::Literal(Lit::False))
            },
            TokenType::True => {
                self.advance();
                Ok(Expr::Literal(Lit::True))
            },
            TokenType::Number => {
                self.advance();
                Ok(Expr::Literal(Lit::Num(self.tokens.tokens[curr].literal.duplicate())))
            },
            TokenType::String => {
                self.advance();
                Ok(Expr::Literal(Lit::Str(self.tokens.tokens[curr].literal.duplicate())))
            },
            TokenType::LeftParen => {
                self.advance();
                proof {
                    lemma_done_in_table(self.table(), 4, self.pos());
                }
                let expr = match self.expression() {
                    Ok(e) => e,
                    Err(e) => return Err(e),
                };
                let mut ctx = String::new();
                push_text(&mut ctx, "expected \")\" to close expression");
                match self.consume_next(TokenType::RightParen, ctx) {
                    Ok(()) => Ok(Expr::Grouping(Rc::new(expr))),
                    Err(e) => Err(e),
                }
            },
            _ => Err(ParseError::NotAnExpression { index: curr }),
        }
    }

    /// Consumes the current token if its tag is `tok_type`; otherwise fails with the
    /// message `err_ctx` at the position of the current token.
    fn consume_next(&mut self, tok_type: TokenType, err_ctx: String) -> (r: Result<(), ParseError>)
        requires
            old(self).wf(),
            old(self).cursor < old(self).tokens.tags@.len(),
        ensures
            final(self).wf(),
            final(self).tokens == old(self).tokens,
            old(self).tokens.tags@[old(self).pos()] == tok_type ==> (r is Ok && final(self).pos()
                == old(self).pos() + 1),
            old(self).tokens.tags@[old(self).pos()] != tok_type ==> (r matches Err(
                ParseError::Syntax { line, column, message },
            ) && line == old(self).tokens.line_nrs@[old(self).pos()] && column
                == old(self).tokens.end_cols@[old(self).pos()] && message == err_ctx),
    {
        if self.tokens.tags[self.cursor] == tok_type {
            self.advance();
            return Ok(());
        }
        Err(
            ParseError::Syntax {
                line: self.tokens.line_nrs[self.cursor],
                column: self.tokens.end_cols[self.cursor],
                message: err_ctx,
            },
        )
    }
}

/// Whether a statement starts at a token with this tag.
pub open spec fn starts_statement(tag: TokenType) -> bool {
    tag == TokenType::Semicolon || tag == TokenType::Class || tag == TokenType::Fun || tag
        == TokenType::Var || tag == TokenType::For || tag == TokenType::If || tag
        == TokenType::While || tag == TokenType::Print || tag == TokenType::Return
}

} // verus!

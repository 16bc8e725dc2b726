//! Front end of a small Lox interpreter: a scanner that turns source text into a
//! positioned token table, and a recursive-descent parser that turns the table
//! into an expression tree.

pub mod tokens;
pub mod ast;
pub mod diagnostics;
pub mod interpreter;
pub mod parse_spec;
pub mod parser;
pub mod printer;
pub mod repl;
pub mod runner;
pub mod scan_spec;
pub mod scanner;
mod text;

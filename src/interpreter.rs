//! Starting the interpreter, and the pipeline from source text to an expression tree.

use vstd::prelude::*;

use crate::ast::Expr;
use crate::parse_spec::{parse_table, Parsed, Table};
use crate::parser::{close_paren_message, table_of, ParseError, Parser};
use crate::repl::ReplCtx;
use crate::scan_spec::{law_single_trailing_eof, scan_table};
use crate::scanner::{faults_of, scan, LexError};
use crate::text::{chars_of, is_word};
use crate::tokens::TokenType;

verus! {

/// The command line: the path of a script to run, if any.
pub struct InterpreterArgs {
    pub file: Option<String>,
}

/// Decides how the interpreter starts.
pub struct Interpreter {
    args: InterpreterArgs,
}

/// How to start: run a script, or read lines interactively.
#[derive(Debug, PartialEq)]
pub enum Launch {
    File(String),
    Repl,
}

/// Why the interpreter cannot start.
#[derive(Debug, PartialEq)]
pub enum LaunchError {
    /// Only `.lox` files may be run.
    NotLox,
}

/// The extension of the file name of a path, as std's `Path::extension` gives it.
pub uninterp spec fn extension_of(path: Seq<char>) -> Option<Seq<char>>;

/// Relies on std's `Path::extension`: the part of the path's file name after its
/// last `.`, if it has one that does not begin the name.
#[verifier::external_body]
fn path_extension(path: &str) -> (r: Option<String>)
    ensures
        match r {
            Some(e) => extension_of(path@) == Some(e@),
            None => extension_of(path@) is None,
        },
{
    std::path::Path::new(path).extension().and_then(|e| e.to_str()).map(|e| e.to_owned())
}

/// Whether an extension is the one of Lox scripts.
pub fn is_lox_extension(ext: &Option<String>) -> (r: bool)
    ensures
        r == (ext matches Some(e) && e@ == "lox"@),
{
    match ext {
        Some(e) => {
            let v = chars_of(e.as_str());
            is_word(&v, "lox")
        },
        None => false,
    }
}

/// Decides how to start for the command-line path `file`.
pub fn launch(file: Option<String>) -> (r: Result<Launch, LaunchError>)
    ensures
        match file {
            None => r == Ok::<Launch, LaunchError>(Launch::Repl),
            Some(p) => if extension_of(p@) == Some("lox"@) {
                r matches Ok(Launch::File(q)) && q@ == p@
            } else {
                r == Err::<Launch, LaunchError>(LaunchError::NotLox)
            },
        },
{
    match file {
        Some(p) => {
            let ext = path_extension(p.as_str());
            if is_lox_extension(&ext) {
                Ok(Launch::File(p))
            } else {
                Err(LaunchError::NotLox)
            }
        },
        None => Ok(Launch::Repl),
    }
}

impl Interpreter {
    /// The command line.
    pub closed spec fn file(&self) -> Option<String> {
        self.args.file
    }

    pub fn new(args: InterpreterArgs) -> (r: Interpreter)
        ensures
            r.file() == args.file,
    {
        Interpreter { args }
    }

    /// How to start: the script named on the command line if it is a `.lox` file,
    /// the interactive loop if none is named.
    pub fn run(self) -> (r: Result<Launch, LaunchError>)
        ensures
            match self.file() {
                None => r == Ok::<Launch, LaunchError>(Launch::Repl),
                Some(p) => if extension_of(p@) == Some("lox"@) {
                    r matches Ok(Launch::File(q)) && q@ == p@
                } else {
                    r == Err::<Launch, LaunchError>(LaunchError::NotLox)
                },
            },
    {
        launch(self.args.file)
    }
}

/// Why a source text gave no tree.
#[derive(Debug)]
pub enum RunError {
    /// Lexical errors, in the order found.
    Lexing(Vec<LexError>),
    /// The parse failed.
    Syntax(ParseError),
}

/// The table that the parser reads of the scan of `s`.
pub open spec fn source_table(s: Seq<char>) -> Table {
    Table {
        tags: Seq::new(scan_table(s).0.len(), |i: int| scan_table(s).0[i].lex.tag),
        lits: Seq::new(scan_table(s).0.len(), |i: int| scan_table(s).0[i].lex.literal),
    }
}

/// `r` is what running the source text `s` gives: its lexical errors if it has any,
/// else the outcome of parsing one expression from its token table.
pub open spec fn run_outcome(s: Seq<char>, r: Result<Expr, RunError>) -> bool {
    let entries = scan_table(s).0;
    let faults = scan_table(s).1;
    if faults.len() > 0 {
        r matches Err(RunError::Lexing(errs)) && faults_of(errs@) == faults
    } else {
        match parse_table(source_table(s)) {
            Parsed::Done(tree, _) => (r matches Ok(e) && e.tree() == tree),
            Parsed::Missing(i) => (r matches Err(
                RunError::Syntax(ParseError::Syntax { line, column, message }),
            ) && 0 <= i < entries.len() && line == entries[i].line && column == entries[i].col
                && message@ == close_paren_message()),
            Parsed::Stuck(i) => (r matches Err(RunError::Syntax(ParseError::NotAnExpression { index }))
                && index == i),
        }
    }
}

/// Scans `code` and, when it has no lexical error, parses one expression from it.
pub fn run(code: &str, _ctx: Option<&mut ReplCtx>) -> (r: Result<Expr, RunError>)
    requires
        code@.len() < usize::MAX,
    ensures
        run_outcome(code@, r),
{
    let info = scan(code);
    if info.errors.len() > 0 {
        return Err(RunError::Lexing(info.errors));
    }
    proof {
        law_single_trailing_eof(code@);
        let t = table_of(&info);
        assert(t.tags =~= source_table(code@).tags);
        assert forall|i: int| 0 <= i < t.lits.len() implies t.lits[i] == source_table(
            code@,
        ).lits[i] && info.line_nrs@[i] == scan_table(code@).0[i].line && info.end_cols@[i]
            == scan_table(code@).0[i].col by {
            assert(info.tags@[i] == scan_table(code@).0[i].lex.tag);
        }
        assert(t.lits =~= source_table(code@).lits);
        assert(t == source_table(code@));
        assert(t.tags.last() == TokenType::Eof);
    }
    let mut parser = Parser::new(info);
    let r = parser.try_parse();
    let out = match r {
        Ok(e) => Ok(e),
        Err(e) => Err(RunError::Syntax(e)),
    };
    proof {
        match parse_table(source_table(code@)) {
            Parsed::Missing(i) => {
                assert(info.tags@[i] == scan_table(code@).0[i].lex.tag);
            },
            _ => {},
        }
    }
    out
}

} // verus!

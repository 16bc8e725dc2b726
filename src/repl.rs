//! The decisions of the interactive loop.

use vstd::prelude::*;

use crate::text::{chars_of, is_word};

verus! {

/// State kept across the lines of an interactive session.
#[derive(Default)]
pub struct ReplCtx {}

/// What to do with a line read interactively.
#[derive(Debug, PartialEq, Eq, Structural)]
pub enum ReplAction {
    /// Leave the loop.
    Exit,
    /// Run the line as source text.
    Run,
}

impl ReplCtx {
    /// `exit` and `quit` end the session; any other line is run.
    pub fn on_line(&mut self, line: &str) -> (r: ReplAction)
        ensures
            r == (if line@ == "exit"@ || line@ == "quit"@ {
                ReplAction::Exit
            } else {
                ReplAction::Run
            }),
    {
        let v = chars_of(line);
        if is_word(&v, "exit") || is_word(&v, "quit") {
            ReplAction::Exit
        } else {
            ReplAction::Run
        }
    }
}

} // verus!

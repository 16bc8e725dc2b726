//! The start of an interpreter run, under the runner's own names.

use vstd::prelude::*;

use crate::interpreter::{extension_of, launch, Launch, LaunchError};

verus! {

/// The command line: the path of a script to run, if any.
pub struct InterpreterRunnerArgs {
    pub file: Option<String>,
}

/// Decides how a run starts.
pub struct InterpreterRunner {
    args: InterpreterRunnerArgs,
}

impl InterpreterRunner {
    /// The command line.
    pub closed spec fn file(&self) -> Option<String> {
        self.args.file
    }

    pub fn new(args: InterpreterRunnerArgs) -> (r: InterpreterRunner)
        ensures
            r.file() == args.file,
    {
        InterpreterRunner { args }
    }

    /// How to start: the script named on the command line if it is a `.lox` file,
    /// the interactive loop if none is named.
    pub fn run(self) -> (r: Result<Launch, LaunchError>)
        ensures
            match self.file() {
                None => r == Ok::<Launch, LaunchError>(Launch::Repl),
                Some(p) => if extension_of(p@) == Some("lox"@) {
                    r matches Ok(Launch::File(q)) && q@ == p@
                } else {
                    r == Err::<Launch, LaunchError>(LaunchError::NotLox)
                },
            },
    {
        launch(self.args.file)
    }
}

} // verus!

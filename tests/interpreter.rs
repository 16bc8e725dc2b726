use rlox::interpreter::{is_lox_extension, launch, Interpreter, InterpreterArgs, Launch, LaunchError};
use rlox::repl::{ReplAction, ReplCtx};
use rlox::runner::{InterpreterRunner, InterpreterRunnerArgs};

#[test]
fn no_path_starts_the_loop() {
    let r = Interpreter::new(InterpreterArgs { file: None }).run();
    assert_eq!(r, Ok(Launch::Repl));
}

#[test]
fn lox_path_runs_the_file() {
    let r = Interpreter::new(InterpreterArgs { file: Some("dir/script.lox".to_string()) }).run();
    assert_eq!(r, Ok(Launch::File("dir/script.lox".to_string())));
    let r = InterpreterRunner::new(InterpreterRunnerArgs { file: Some("a.b.lox".to_string()) }).run();
    assert_eq!(r, Ok(Launch::File("a.b.lox".to_string())));
}

#[test]
fn other_paths_are_refused() {
    for path in ["script.txt", "lox", ".lox", "script.lox.bak", "script.", "dir.lox/script"] {
        assert_eq!(launch(Some(path.to_string())), Err(LaunchError::NotLox), "{path}");
    }
    let r = InterpreterRunner::new(InterpreterRunnerArgs { file: Some("x.LOX".to_string()) }).run();
    assert_eq!(r, Err(LaunchError::NotLox));
}

#[test]
fn extension_check() {
    assert!(is_lox_extension(&Some("lox".to_string())));
    assert!(!is_lox_extension(&Some("loxx".to_string())));
    assert!(!is_lox_extension(&None));
}

#[test]
fn repl_lines() {
    let mut ctx = ReplCtx::default();
    assert_eq!(ctx.on_line("exit"), ReplAction::Exit);
    assert_eq!(ctx.on_line("quit"), ReplAction::Exit);
    assert_eq!(ctx.on_line("exit "), ReplAction::Run);
    assert_eq!(ctx.on_line("1 + 2"), ReplAction::Run);
}

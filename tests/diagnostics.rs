use rlox::diagnostics::{err_msg, err_msg_at};

#[test]
fn test_err_msg_gen() {
    let error = err_msg(37, "missing comma!");
    assert_eq!(error, "[line: 37] Error: missing comma!");

    struct Dummy {
        val: usize,
    }
    let val = 42;

    let error = err_msg(val, "missing comma!");
    assert_eq!(error, "[line: 42] Error: missing comma!");

    let dum = Dummy { val };

    let error = err_msg(dum.val, &format!("missing {}", "comma!"));
    assert_eq!(error, "[line: 42] Error: missing comma!");
}

#[test]
fn positioned_messages() {
    assert_eq!(err_msg_at(3, 14, "oops"), "[line: 3 column: 14] Error: oops");
    assert_eq!(err_msg_at(0, 0, ""), "[line: 0 column: 0] Error: ");
    assert_eq!(
        err_msg(usize::MAX, "x"),
        format!("[line: {}] Error: x", usize::MAX)
    );
    assert_eq!(err_msg(1000, "y"), "[line: 1000] Error: y");
}

use rush::errors::EvalError;
use rush::eval::logic;
use rush::status::{CommandOutcome, CommandStatus};
use rush::vars::{setenv, VarStore};

fn buf(v: &[&str]) -> Vec<String> {
    v.iter().map(|s| s.to_string()).collect()
}

fn outcome(code: i32) -> CommandOutcome {
    CommandOutcome {
        status: CommandStatus { code: Some(code), success: code == 0, signal: None, core_dumped: false },
        stdout: String::new(),
        stderr: String::new(),
    }
}

fn outcome_with(code: i32, stdout: &str, stderr: &str) -> CommandOutcome {
    CommandOutcome {
        status: CommandStatus { code: Some(code), success: code == 0, signal: None, core_dumped: false },
        stdout: stdout.to_string(),
        stderr: stderr.to_string(),
    }
}

#[test]
fn and_or_truth_table() {
    // all four boolean pairs, for AND and for OR
    let store = VarStore::new();
    for &(a, b) in &[(0, 0), (0, 1), (1, 0), (1, 1)] {
        let and_res = logic(
            buf(&["if", "OK:left", "AND", "OK:right"]),
            &store,
            &vec![outcome(a), outcome(b)],
        )
        .unwrap();
        assert_eq!(and_res, a == 0 && b == 0);
        let or_res = logic(
            buf(&["if", "OK:left", "OR", "OK:right"]),
            &store,
            &vec![outcome(a), outcome(b)],
        )
        .unwrap();
        assert_eq!(or_res, a == 0 || b == 0);
    }
}

#[test]
fn ok_true_and_ok_false_is_false() {
    let store = VarStore::new();
    let res = logic(
        buf(&["if", "OK:/bin/true", "AND", "OK:/bin/false"]),
        &store,
        &vec![outcome(0), outcome(1)],
    )
    .unwrap();
    assert!(!res);
}

#[test]
fn type_mismatch_is_rejected() {
    // a number never compares with a text; no boolean comes out
    let store = VarStore::new();
    let res = logic(buf(&["if", "5", "~", "hello"]), &store, &vec![]);
    assert!(matches!(res, Err(EvalError::TypeMismatch)));
}

#[test]
fn numeric_comparators() {
    let store = VarStore::new();
    let none: Vec<CommandOutcome> = vec![];
    assert!(logic(buf(&["if", "2", "<", "10"]), &store, &none).unwrap());
    assert!(logic(buf(&["if", "10", ">", "2"]), &store, &none).unwrap());
    assert!(logic(buf(&["if", "7", "=", "7"]), &store, &none).unwrap());
    assert!(logic(buf(&["if", "7", "==", "7"]), &store, &none).unwrap());
    assert!(logic(buf(&["if", "7", "!=", "8"]), &store, &none).unwrap());
    assert!(logic(buf(&["if", "7", "<=", "7"]), &store, &none).unwrap());
    assert!(logic(buf(&["if", "8", ">=", "7"]), &store, &none).unwrap());
    assert!(!logic(buf(&["if", "8", "<", "7"]), &store, &none).unwrap());
    // arbitrary precision: past the largest machine integer
    assert!(
        logic(
            buf(&["if", "18446744073709551616", ">", "18446744073709551615"]),
            &store,
            &none
        )
        .unwrap()
    );
}

#[test]
fn text_comparators() {
    let store = VarStore::new();
    let none: Vec<CommandOutcome> = vec![];
    assert!(logic(buf(&["if", "hello", "=", "hello"]), &store, &none).unwrap());
    assert!(logic(buf(&["if", "hello", "!", "world"]), &store, &none).unwrap());
    assert!(logic(buf(&["if", "hello", "~", "ell"]), &store, &none).unwrap());
    assert!(!logic(buf(&["if", "hello", "~~", "xyz"]), &store, &none).unwrap());
    assert!(logic(buf(&["if", "poland", "*-", "pol"]), &store, &none).unwrap());
    assert!(logic(buf(&["if", "poland", "-*", "land"]), &store, &none).unwrap());
    assert!(!logic(buf(&["if", "poland", "*-", "land"]), &store, &none).unwrap());
}

#[test]
fn wrong_comparator_for_kind() {
    let store = VarStore::new();
    let none: Vec<CommandOutcome> = vec![];
    assert!(matches!(
        logic(buf(&["if", "5", "~~", "6"]), &store, &none),
        Err(EvalError::BadNumComparator)
    ));
    assert!(matches!(
        logic(buf(&["if", "a", "<", "b"]), &store, &none),
        Err(EvalError::BadTxtComparator)
    ));
    assert!(matches!(
        logic(buf(&["if", "5", "AND", "6"]), &store, &none),
        Err(EvalError::BadNumComparator)
    ));
}

#[test]
fn chain_reduces_left_to_right() {
    let none: Vec<CommandOutcome> = vec![];
    // the leftmost triple reduces first; TRUE/FALSE come from variables
    let mut store2 = VarStore::new();
    setenv(&mut store2, &buf(&["set", "t=TRUE"])).unwrap();
    setenv(&mut store2, &buf(&["set", "f=FALSE"])).unwrap();
    assert!(logic(buf(&["if", "1", "=", "1", "AND", "$t"]), &store2, &none).unwrap());
    assert!(!logic(buf(&["if", "1", "=", "2", "OR", "$f"]), &store2, &none).unwrap());
}

#[test]
fn variable_resolution_kinds() {
    let mut store = VarStore::new();
    setenv(&mut store, &buf(&["set", "num=10"])).unwrap();
    setenv(&mut store, &buf(&["set", "yes=TRUE"])).unwrap();
    setenv(&mut store, &buf(&["set", "no=FALSE"])).unwrap();
    setenv(&mut store, &buf(&["set", "txt=hello"])).unwrap();
    let none: Vec<CommandOutcome> = vec![];
    assert!(logic(buf(&["if", "$num", "=", "10"]), &store, &none).unwrap());
    assert!(logic(buf(&["if", "$yes", "OR", "$no"]), &store, &none).unwrap());
    assert!(!logic(buf(&["if", "$yes", "AND", "$no"]), &store, &none).unwrap());
    assert!(logic(buf(&["if", "$txt", "=", "hello"]), &store, &none).unwrap());
    assert!(matches!(
        logic(buf(&["if", "$missing", "=", "1"]), &store, &none),
        Err(EvalError::UndefinedVariable(_))
    ));
}

#[test]
fn command_reference_kinds() {
    let store = VarStore::new();
    // CODE: compares the exit code as a number
    assert!(
        logic(buf(&["if", "CODE:prog", "=", "42"]), &store, &vec![outcome(42)]).unwrap()
    );
    // OUT:/ERR: compare the captured streams as text
    assert!(
        logic(
            buf(&["if", "OUT:prog", "=", "hi"]),
            &store,
            &vec![outcome_with(0, "hi", "")],
        )
        .unwrap()
    );
    assert!(
        logic(
            buf(&["if", "ERR:prog", "~", "oops"]),
            &store,
            &vec![outcome_with(1, "", "bad: oops here")],
        )
        .unwrap()
    );
    // FAIL: is the inverse of OK:
    assert!(logic(buf(&["if", "FAIL:prog"]), &store, &vec![outcome(3)]).unwrap());
    assert!(!logic(buf(&["if", "FAIL:prog"]), &store, &vec![outcome(0)]).unwrap());
}

#[test]
fn multi_word_commands_glue_until_known_token() {
    let store = VarStore::new();
    // the words after OK: join the command; "=" stops the gluing
    let res = logic(
        buf(&["if", "CODE:prog", "with", "args", "=", "0"]),
        &store,
        &vec![outcome(0)],
    )
    .unwrap();
    assert!(res);
}

#[test]
fn syntax_violations() {
    let store = VarStore::new();
    let none: Vec<CommandOutcome> = vec![];
    assert!(matches!(
        logic(buf(&["if", "AND", "x"]), &store, &none),
        Err(EvalError::ExpectedValue(_))
    ));
    assert!(matches!(
        logic(buf(&["if", "1", "2"]), &store, &none),
        Err(EvalError::ExpectedOperator(_))
    ));
    assert!(matches!(
        logic(buf(&["if", "1", "="]), &store, &none),
        Err(EvalError::MissingFinalValue)
    ));
    assert!(matches!(
        logic(buf(&["if"]), &store, &none),
        Err(EvalError::MissingFinalValue)
    ));
    assert!(matches!(
        logic(buf(&["if", "OK:"]), &store, &none),
        Err(EvalError::DanglingReferer(_))
    ));
}

#[test]
fn command_without_exit_code_is_hard_error() {
    let store = VarStore::new();
    let killed = CommandOutcome {
        status: CommandStatus { code: None, success: false, signal: Some(9), core_dumped: false },
        stdout: String::new(),
        stderr: String::new(),
    };
    assert!(matches!(
        logic(buf(&["if", "OK:prog"]), &store, &vec![killed]),
        Err(EvalError::CommandFailed(_))
    ));
}

#[test]
fn singleton_non_boolean_is_inconsistent() {
    let store = VarStore::new();
    let none: Vec<CommandOutcome> = vec![];
    assert!(matches!(
        logic(buf(&["if", "5"]), &store, &none),
        Err(EvalError::Inconsistent)
    ));
}

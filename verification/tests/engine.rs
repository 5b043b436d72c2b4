use rush::engine::{Action, ExecutionContext};
use rush::status::{CommandOutcome, CommandStatus};
use rush::vars::VarStore;

fn words(v: &[&str]) -> Vec<String> {
    v.iter().map(|s| s.to_string()).collect()
}

fn outcome(code: i32) -> CommandOutcome {
    CommandOutcome {
        status: CommandStatus { code: Some(code), success: code == 0, signal: None, core_dumped: false },
        stdout: String::new(),
        stderr: String::new(),
    }
}

fn ctx(v: &[&str]) -> ExecutionContext {
    ExecutionContext::new(words(v), VarStore::new(), None)
}

/// Run the pass to completion, feeding exit code 0 to every command, and
/// collect what the engine asked for.
fn drive(mut ctx: ExecutionContext) -> (Vec<(Vec<String>, bool)>, Vec<String>, ExecutionContext) {
    let mut cmds = Vec::new();
    let mut prints = Vec::new();
    for _ in 0..100000 {
        match ctx.step() {
            None => continue,
            Some(Action::RunCommand { args, silent }) => {
                cmds.push((args, silent));
                ctx.provide_outcome(outcome(0));
            }
            Some(Action::PrintOut { text }) => prints.push(text),
            Some(Action::ChangeDir { .. }) => ctx.provide_chdir(true, String::new()),
            Some(Action::Exit { .. }) | Some(Action::AbortNow) | Some(Action::Done) => {
                return (cmds, prints, ctx);
            }
        }
    }
    panic!("the pass did not finish");
}

#[test]
fn loop_with_free_runs_body_once() {
    // lock … free … ; — the body runs exactly once, and after the closing
    // marker the cursor stands on the word right after it
    let mut c = ctx(&["lock;", "mark;", "free;", ";", "tail;"]);
    assert!(c.step().is_none()); // lock; opens the loop
    match c.step() {
        Some(Action::RunCommand { args, silent }) => {
            assert_eq!(args, words(&["mark"]));
            assert!(!silent);
        }
        other => panic!("expected the body command, got {:?}", other.is_some()),
    }
    c.provide_outcome(outcome(0));
    assert!(c.step().is_none()); // free; breaks the loop
    assert!(c.step().is_none()); // ; closes it without jumping back
    assert_eq!(c.index(), 4);
    match c.step() {
        Some(Action::RunCommand { args, .. }) => assert_eq!(args, words(&["tail"])),
        other => panic!("expected the tail command, got {:?}", other.is_some()),
    }
    c.provide_outcome(outcome(0));
    assert!(matches!(c.step(), Some(Action::Done)));
}

#[test]
fn loop_restart_iterates_exactly_three_times() {
    let script = [
        "set", "n", "0;", "lock;", "set", "n", "$n++;", "if", "$n", "=", "3;", "free;", ";",
        "continue;", ";", "get", "n;",
    ];
    let (cmds, prints, c) = drive(ctx(&script));
    assert!(cmds.is_empty());
    assert_eq!(prints, vec!["3".to_string()]);
    assert!(c.diags.is_empty());
}

#[test]
fn elseif_chain_runs_only_first_true_branch() {
    // if false; … elseif true; … elseif true; …; — only the first true
    // branch's body runs, and the third condition is never evaluated
    let script = [
        "if", "FAIL:c1;", "b1;", "elseif", "OK:c2;", "b2;", "elseif", "OK:c3;", "b3;", ";",
    ];
    let (cmds, _prints, _c) = drive(ctx(&script));
    let names: Vec<&str> = cmds.iter().map(|(a, _)| a[0].as_str()).collect();
    assert_eq!(names, vec!["c1", "c2", "b2"]);
    // conditions run silently, bodies do not
    assert!(cmds[0].1);
    assert!(cmds[1].1);
    assert!(!cmds[2].1);
}

#[test]
fn elseif_after_taken_branch_is_skipped() {
    let script = ["if", "OK:c;", "b1;", "elseif", "OK:d;", "b2;", ";"];
    let (cmds, _prints, _c) = drive(ctx(&script));
    let names: Vec<&str> = cmds.iter().map(|(a, _)| a[0].as_str()).collect();
    assert_eq!(names, vec!["c", "b1"]);
}

#[test]
fn variable_builtins_through_engine() {
    let script = ["set", "x=41;", "++", "x;", "get", "x;"];
    let (cmds, prints, c) = drive(ctx(&script));
    assert!(cmds.is_empty());
    assert_eq!(prints, vec!["42".to_string()]);
    // every builtin recorded a successful status
    assert_eq!(c.statuses.len(), 3);
    assert!(c.statuses.iter().all(|(_, s)| s.success));
}

#[test]
fn rem_and_failed_get() {
    let script = ["set", "x=1;", "rem", "x;", "get", "x;"];
    let (cmds, prints, c) = drive(ctx(&script));
    assert!(cmds.is_empty());
    assert!(prints.is_empty());
    assert_eq!(c.diags.len(), 1);
    assert!(c.diags[0].message.contains("is not set"));
}

#[test]
fn exit_builtin_hands_out_the_code() {
    let mut c = ctx(&["exit", "5;"]);
    loop {
        match c.step() {
            None => continue,
            Some(Action::Exit { code }) => {
                assert_eq!(code, 5);
                break;
            }
            other => panic!("expected exit, got something else: {}", other.is_some()),
        }
    }
}

#[test]
fn exit_without_code_is_zero() {
    let mut c = ctx(&["exit;"]);
    loop {
        match c.step() {
            None => continue,
            Some(Action::Exit { code }) => {
                assert_eq!(code, 0);
                break;
            }
            _ => panic!("expected exit"),
        }
    }
}

#[test]
fn exit_with_bad_code_reports() {
    let (cmds, _prints, c) = drive(ctx(&["exit", "a", "b;"]));
    assert!(cmds.is_empty());
    assert_eq!(c.diags.len(), 1);
    assert!(c.diags[0].message.contains("multiple exit codes"));
}

#[test]
fn gt_requests_directory_change() {
    let mut c = ctx(&["gt", "/somewhere;", "after;"]);
    loop {
        match c.step() {
            None => continue,
            Some(Action::ChangeDir { path }) => {
                assert_eq!(path, "/somewhere");
                c.provide_chdir(true, String::new());
                break;
            }
            _ => panic!("expected a directory change"),
        }
    }
    loop {
        match c.step() {
            None => continue,
            Some(Action::RunCommand { args, .. }) => {
                assert_eq!(args, words(&["after"]));
                break;
            }
            _ => panic!("expected the following command"),
        }
    }
}

#[test]
fn panic_aborts_at_once() {
    let mut c = ctx(&["panic;"]);
    loop {
        match c.step() {
            None => continue,
            Some(Action::AbortNow) => break,
            _ => panic!("expected an abort"),
        }
    }
}

#[test]
fn interrupt_is_observed_at_loop_top() {
    // an endless loop, stopped cooperatively
    let mut c = ctx(&["lock;", ";"]);
    c.set_allow_interrupts(false);
    for _ in 0..50 {
        assert!(c.step().is_none());
    }
    c.set_interrupt_now(true);
    assert!(c.interrupt_now());
    // interrupts are not honoured yet
    assert!(c.step().is_none());
    c.set_allow_interrupts(true);
    assert!(c.allow_interrupts());
    assert!(matches!(c.step(), Some(Action::Done)));
}

#[test]
fn interrupt_discards_a_suspended_condition() {
    // spec 5: the pass ends without finishing the in-flight command
    let mut c = ctx(&["if", "OK:slow;", "body;", ";"]);
    let first = loop {
        match c.step() {
            None => continue,
            other => break other,
        }
    };
    assert!(matches!(first, Some(Action::RunCommand { silent: true, .. })));
    c.provide_outcome(outcome(0));
    c.set_interrupt_now(true);
    // the suspended condition is discarded, nothing further is dispatched
    assert!(matches!(c.step(), Some(Action::Done)));
    assert!(matches!(c.step(), Some(Action::Done)));
}

#[test]
fn var_entries_reflect_the_store() {
    let (_cmds, _prints, c) = drive(ctx(&["set", "a=1;", "set", "b=2;", "rem", "a;"]));
    let entries = c.var_entries();
    assert!(entries.iter().any(|(k, v)| k == "b" && v == "2"));
    assert!(!entries.iter().any(|(k, _)| k == "a"));
}

#[test]
fn cursor_is_shared_state() {
    let mut c = ctx(&["a;", "b;"]);
    assert_eq!(c.index(), 0);
    c.set_index(1);
    assert_eq!(c.index(), 1);
    match c.step() {
        Some(Action::RunCommand { args, .. }) => assert_eq!(args, words(&["b"])),
        _ => panic!("expected the second command"),
    }
}

#[test]
fn misplaced_free_is_reported_and_pass_continues() {
    let (cmds, prints, c) = drive(ctx(&["free;", "get", "x;", "set", "x=1;"]));
    assert!(cmds.is_empty());
    assert!(prints.is_empty());
    assert!(c.diags.iter().any(|d| d.message.contains("FREE")));
}

#[test]
fn unmatched_close_is_fatal() {
    let (cmds, _prints, c) = drive(ctx(&[";", "never;"]));
    assert!(cmds.is_empty());
    assert_eq!(c.diags.len(), 1);
    assert!(c.diags[0].message.contains("no open block"));
}

#[test]
fn unclosed_block_is_reported_at_end() {
    let (_cmds, _prints, c) = drive(ctx(&["lock;", "free;"]));
    assert!(c.diags.iter().any(|d| d.message.contains("Unclosed \"LOCK\"")));
}

#[test]
fn comments_are_never_dispatched() {
    let script = ["set", "x=1;", "#", "get", "x;", "get", "x;"];
    let (cmds, prints, _c) = drive(ctx(&script));
    assert!(cmds.is_empty());
    assert_eq!(prints, vec!["1".to_string()]);
}

#[test]
fn failed_condition_falls_through_without_corruption() {
    // an evaluation error counts as a failed condition; the block still
    // closes cleanly and the pass goes on
    let script = ["if", "5", "~", "x;", "body;", ";", "get", "y;"];
    let (cmds, prints, c) = drive(ctx(&script));
    assert!(cmds.is_empty());
    assert!(prints.is_empty());
    assert!(c.diags.iter().any(|d| d.message.contains("do not match")));
}

#[test]
fn home_expansion_through_engine() {
    let mut c = ExecutionContext::new(
        words(&["run", "~/file;"]),
        VarStore::new(),
        Some("/home/u".to_string()),
    );
    loop {
        match c.step() {
            None => continue,
            Some(Action::RunCommand { args, .. }) => {
                assert_eq!(args, words(&["run", "/home/u/file"]));
                break;
            }
            _ => panic!("expected the command"),
        }
    }
}

#[test]
fn line_numbers_follow_newlines() {
    let script = ["first;", "oops\n", "free;"];
    let (_cmds, _prints, c) = drive(ctx(&script));
    // the misplaced free on line 2 is reported there
    let d = c.diags.iter().find(|d| d.message.contains("FREE")).unwrap();
    assert_eq!(d.line, 2);
}

use rush::builtins::{exit, gt};
use rush::config::RushConfig;
use rush::engine::{Action, ExecutionContext};
use rush::status::CommandStatus;
use rush::vars::VarStore;

fn buf(v: &[&str]) -> Vec<String> {
    v.iter().map(|s| s.to_string()).collect()
}

#[test]
fn gt_takes_exactly_one_path() {
    assert_eq!(gt(&buf(&["gt", "/tmp"])).unwrap(), "/tmp");
    let e = gt(&buf(&["gt"])).unwrap_err();
    assert!(e.contains("directory path"));
    let e = gt(&buf(&["gt", "a", "b"])).unwrap_err();
    assert!(e.contains("multiple directories"));
}

#[test]
fn exit_parses_codes() {
    assert_eq!(exit(&buf(&["exit"])).unwrap(), 0);
    assert_eq!(exit(&buf(&["exit", "7"])).unwrap(), 7);
    assert_eq!(exit(&buf(&["exit", "-1"])).unwrap(), -1);
    assert_eq!(exit(&buf(&["exit", "2147483647"])).unwrap(), 2147483647);
    assert!(exit(&buf(&["exit", "2147483648"])).is_err());
    assert!(exit(&buf(&["exit", "nope"])).is_err());
    assert!(exit(&buf(&["exit", "1", "2"])).is_err());
}

#[test]
fn default_config() {
    let c = RushConfig::default();
    assert_eq!(c.prompt, "> ");
    assert!(c.aliases.is_empty());
}

#[test]
fn status_helpers() {
    let s = CommandStatus::report_success();
    assert!(s.success);
    assert_eq!(s.code, Some(0));
    let f = CommandStatus::report_failure();
    assert!(!f.success);
    assert_eq!(f.code, Some(1));
}

#[test]
fn empty_script_finishes_at_once() {
    let mut c = ExecutionContext::new(Vec::new(), VarStore::new(), None);
    assert!(matches!(c.step(), Some(Action::Done)));
    assert!(c.diags.is_empty());
}

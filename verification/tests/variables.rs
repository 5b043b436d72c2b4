use rush::resolve::resolve_word;
use rush::errors::ResolveError;
use rush::vars::{chenv, getenv, remenv, setenv, VarStore};

fn buf(v: &[&str]) -> Vec<String> {
    v.iter().map(|s| s.to_string()).collect()
}

#[test]
fn set_then_get_returns_exact_value() {
    // the idempotent-read law on concrete values
    let mut store = VarStore::new();
    setenv(&mut store, &buf(&["set", "name=value"])).unwrap();
    let got = getenv(&store, &buf(&["get", "name"])).unwrap();
    assert_eq!(got, "value");
}

#[test]
fn set_word_form_joins_and_trims() {
    let mut store = VarStore::new();
    setenv(&mut store, &buf(&["set", "greeting", "hello", "world"])).unwrap();
    let got = getenv(&store, &buf(&["get", "greeting"])).unwrap();
    assert_eq!(got, "hello world");
    assert!(!got.ends_with(' '));
}

#[test]
fn set_rejects_bad_groups() {
    let mut store = VarStore::new();
    assert!(setenv(&mut store, &buf(&["set"])).is_err());
    assert!(setenv(&mut store, &buf(&["set", "=value"])).is_err());
    assert!(setenv(&mut store, &buf(&["set", "name="])).is_err());
    assert!(setenv(&mut store, &buf(&["set", "bad name", "x"])).is_err());
}

#[test]
fn get_errors() {
    let store = VarStore::new();
    assert!(getenv(&store, &buf(&["get"])).is_err());
    assert!(getenv(&store, &buf(&["get", "a", "b"])).is_err());
    let e = getenv(&store, &buf(&["get", "missing"])).unwrap_err();
    assert!(e.contains("missing"));
}

#[test]
fn rem_removes_binding() {
    let mut store = VarStore::new();
    setenv(&mut store, &buf(&["set", "x=1"])).unwrap();
    remenv(&mut store, &buf(&["rem", "x"])).unwrap();
    assert!(getenv(&store, &buf(&["get", "x"])).is_err());
    assert!(remenv(&mut store, &buf(&["rem"])).is_err());
}

#[test]
fn set_shadows_earlier_value() {
    let mut store = VarStore::new();
    setenv(&mut store, &buf(&["set", "x=1"])).unwrap();
    setenv(&mut store, &buf(&["set", "x=2"])).unwrap();
    assert_eq!(getenv(&store, &buf(&["get", "x"])).unwrap(), "2");
}

#[test]
fn chenv_increments_and_decrements() {
    let mut store = VarStore::new();
    setenv(&mut store, &buf(&["set", "n=10"])).unwrap();
    chenv(&mut store, &buf(&["++", "n"]), true).unwrap();
    assert_eq!(getenv(&store, &buf(&["get", "n"])).unwrap(), "11");
    chenv(&mut store, &buf(&["--", "n", "5"]), false).unwrap();
    assert_eq!(getenv(&store, &buf(&["get", "n"])).unwrap(), "6");
    chenv(&mut store, &buf(&["--", "n", "10"]), false).unwrap();
    assert_eq!(getenv(&store, &buf(&["get", "n"])).unwrap(), "-4");
}

#[test]
fn chenv_arbitrary_precision() {
    let mut store = VarStore::new();
    setenv(&mut store, &buf(&["set", "n=99999999999999999999"])).unwrap();
    chenv(&mut store, &buf(&["++", "n"]), true).unwrap();
    assert_eq!(getenv(&store, &buf(&["get", "n"])).unwrap(), "100000000000000000000");
}

#[test]
fn chenv_errors() {
    let mut store = VarStore::new();
    assert!(chenv(&mut store, &buf(&["++"]), true).is_err());
    assert!(chenv(&mut store, &buf(&["++", "a", "b", "c"]), true).is_err());
    assert!(chenv(&mut store, &buf(&["++", "unset"]), true).is_err());
    setenv(&mut store, &buf(&["set", "t=text"])).unwrap();
    assert!(chenv(&mut store, &buf(&["++", "t"]), true).is_err());
    assert!(chenv(&mut store, &buf(&["++", "t", "nope"]), true).is_err());
}

#[test]
fn resolver_substitutes_variables() {
    let mut store = VarStore::new();
    setenv(&mut store, &buf(&["set", "name=world"])).unwrap();
    let home = Some("/home/someone".to_string());
    assert_eq!(resolve_word(&mut store, &home, &"$name".to_string()).unwrap(), "world");
    assert_eq!(resolve_word(&mut store, &home, &"plain".to_string()).unwrap(), "plain");
    assert_eq!(
        resolve_word(&mut store, &home, &"~/docs".to_string()).unwrap(),
        "/home/someone/docs"
    );
}

#[test]
fn resolver_increment_writes_back() {
    let mut store = VarStore::new();
    setenv(&mut store, &buf(&["set", "n=0"])).unwrap();
    let home = None;
    assert_eq!(resolve_word(&mut store, &home, &"$n++".to_string()).unwrap(), "1");
    assert_eq!(getenv(&store, &buf(&["get", "n"])).unwrap(), "1");
    assert_eq!(resolve_word(&mut store, &home, &"$n--".to_string()).unwrap(), "0");
    assert_eq!(getenv(&store, &buf(&["get", "n"])).unwrap(), "0");
}

#[test]
fn resolver_errors() {
    let mut store = VarStore::new();
    let home = None;
    assert!(matches!(
        resolve_word(&mut store, &home, &"$missing".to_string()),
        Err(ResolveError::UndefinedVariable(_))
    ));
    // an empty value counts as absent
    setenv(&mut store, &buf(&["set", "e", ""])).unwrap();
    assert!(matches!(
        resolve_word(&mut store, &home, &"$e".to_string()),
        Err(ResolveError::UndefinedVariable(_))
    ));
    setenv(&mut store, &buf(&["set", "t=text"])).unwrap();
    assert!(matches!(
        resolve_word(&mut store, &home, &"$t++".to_string()),
        Err(ResolveError::NotANumber(_))
    ));
    assert!(matches!(
        resolve_word(&mut store, &home, &"~x".to_string()),
        Err(ResolveError::NoHomeDirectory)
    ));
}

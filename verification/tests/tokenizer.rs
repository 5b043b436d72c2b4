use rush::errors::{BlockKind, SyntaxError};
use rush::words::{group_quotationmarks, remove_quotationmarks, split_newlines, syntax_test,
    word_parts, Separator};

fn words(v: &[&str]) -> Vec<String> {
    v.iter().map(|s| s.to_string()).collect()
}

#[test]
fn quoting_round_trip_example() {
    // one balanced quoted span: one fewer word, space-joined, quotes gone
    let input = words(&["say,", "\"hello,", "world\""]);
    let out = group_quotationmarks(input).unwrap();
    assert_eq!(out, words(&["say,", "hello, world"]));
    assert_eq!(out.len(), 2);
    assert_eq!(out[0], "say,");
    assert_eq!(out[1], "hello, world");
}

#[test]
fn quoting_single_quotes() {
    let input = words(&["'this", "is", "one", "argument'"]);
    let out = group_quotationmarks(input).unwrap();
    assert_eq!(out, words(&["this is one argument"]));
}

#[test]
fn quoting_self_closing_word() {
    let input = words(&["\"alone\"", "rest"]);
    let out = group_quotationmarks(input).unwrap();
    assert_eq!(out, words(&["alone", "rest"]));
}

#[test]
fn unterminated_quote_is_syntax_error() {
    // no command is handed on: the result is the error alone
    let input = words(&["say,", "\"hello"]);
    match group_quotationmarks(input) {
        Err(e) => {
            assert!(matches!(e, SyntaxError::UnclosedQuotes));
            assert!(e.message().contains("unclosed quotes"));
        },
        Ok(_) => panic!("an unterminated span must not tokenize"),
    }
}

#[test]
fn escaped_quote_is_kept_without_backslash() {
    assert_eq!(remove_quotationmarks("that\\'s"), "that's");
    assert_eq!(remove_quotationmarks("a\"b"), "ab");
    assert_eq!(remove_quotationmarks("plain"), "plain");
    assert_eq!(remove_quotationmarks("back\\slash"), "back\\slash");
}

#[test]
fn escaped_quote_does_not_close_a_span() {
    let input = words(&["\"a", "b\\\"", "c\""]);
    let out = group_quotationmarks(input).unwrap();
    assert_eq!(out, words(&["a b\" c"]));
}

#[test]
fn newlines_split_words() {
    let input = words(&["say,hello\nbye", "plain"]);
    let out = split_newlines(input);
    assert_eq!(out, words(&["say,hello\n", "bye", "plain"]));
}

#[test]
fn trailing_newline_keeps_one_word() {
    let input = words(&["abc\n"]);
    let out = split_newlines(input);
    assert_eq!(out, words(&["abc\n"]));
}

#[test]
fn word_parts_separators() {
    let (c, s) = word_parts(&"hello;".to_string());
    assert_eq!(c, "hello");
    assert_eq!(s, Separator::EndOfBlock);
    let (c, s) = word_parts(&"hello,".to_string());
    assert_eq!(c, "hello");
    assert_eq!(s, Separator::NextCommand);
    let (c, s) = word_parts(&"hello\n".to_string());
    assert_eq!(c, "hello");
    assert_eq!(s, Separator::NextCommand);
    let (c, s) = word_parts(&"hello".to_string());
    assert_eq!(c, "hello");
    assert_eq!(s, Separator::Bare);
    // an escaped separator stays a literal character
    let (c, s) = word_parts(&"hello\\;".to_string());
    assert_eq!(c, "hello;");
    assert_eq!(s, Separator::Bare);
    let (c, s) = word_parts(&";".to_string());
    assert_eq!(c, "");
    assert_eq!(s, Separator::EndOfBlock);
}

#[test]
fn syntax_test_accepts_balanced_script() {
    let script = words(&["lock;", "set", "n", "$n++;", "free;", ";"]);
    assert!(syntax_test(&script).is_empty());
}

#[test]
fn syntax_test_reports_unclosed_block_with_kind() {
    let script = words(&["lock;", "set", "n", "1;"]);
    let errs = syntax_test(&script);
    assert_eq!(errs.len(), 1);
    assert!(matches!(errs[0].0, SyntaxError::UnclosedBlock(BlockKind::LockBlock)));
    assert!(errs[0].0.message().contains("LOCK"));
    let script = words(&["if", "1", "=", "1;"]);
    let errs = syntax_test(&script);
    assert_eq!(errs.len(), 1);
    assert!(matches!(errs[0].0, SyntaxError::UnclosedBlock(BlockKind::IfBlock)));
    assert!(errs[0].0.message().contains("IF"));
}

#[test]
fn syntax_test_reports_unmatched_close() {
    let script = words(&["say", "hi;", ";"]);
    let errs = syntax_test(&script);
    assert_eq!(errs.len(), 1);
    assert!(matches!(errs[0].0, SyntaxError::UnmatchedBlockClose));
    assert_eq!(errs[0].1, 1);
}

#[test]
fn syntax_test_reports_misplaced_free() {
    let script = words(&["free;"]);
    let errs = syntax_test(&script);
    assert_eq!(errs.len(), 1);
    assert!(matches!(errs[0].0, SyntaxError::MisplacedFree));
    assert_eq!(errs[0].1, 1);
}

#[test]
fn syntax_test_reports_misplaced_continue() {
    let script = words(&["if", "1", "=", "1;", "continue;", ";"]);
    let errs = syntax_test(&script);
    assert_eq!(errs.len(), 1);
    assert!(matches!(errs[0].0, SyntaxError::MisplacedContinue));
}

#[test]
fn syntax_test_lines_follow_newline_terminated_words() {
    // the misplaced free stands on line 3: two newline-terminated words
    // come before it
    let script = words(&["a\n", "b\n", "free;"]);
    let errs = syntax_test(&script);
    assert_eq!(errs.len(), 1);
    assert!(matches!(errs[0].0, SyntaxError::MisplacedFree));
    assert_eq!(errs[0].1, 3);
    // an unclosed block is reported at the final line
    let script = words(&["lock;", "x\n", "y;"]);
    let errs = syntax_test(&script);
    assert_eq!(errs.len(), 1);
    assert!(matches!(errs[0].0, SyntaxError::UnclosedBlock(BlockKind::LockBlock)));
    assert_eq!(errs[0].1, 2);
}

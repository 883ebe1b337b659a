use merle::failure::{is_diagnostic, key_assertion, pick_key_lines};

const NONE: &str =
    "(no explicit assertion line — infer the exact failing condition from the failure above)";

fn owned(parts: &[&str]) -> Vec<String> {
    parts.iter().map(|p| p.to_string()).collect()
}

#[test]
fn key_lines_are_picked_in_order() {
    let failure = "running 1 test\n   thread 'x' PANICKED at src/lib.rs:3\n\n  left: 1\n right: 2\nok\n";
    assert_eq!(
        key_assertion(failure),
        "thread 'x' PANICKED at src/lib.rs:3\nleft: 1\nright: 2"
    );
}

#[test]
fn failure_without_an_assertion_says_so() {
    assert_eq!(key_assertion("segfault\n\n"), NONE);
    assert_eq!(key_assertion(""), NONE);
}

#[test]
fn neighbours_that_repeat_are_dropped() {
    assert_eq!(
        key_assertion("  FAIL a\nplain\nFAIL a \nFAIL b\nFAIL a"),
        "FAIL a\nFAIL b\nFAIL a"
    );
}

#[test]
fn eight_lines_are_enough() {
    let failure: String = (0..12).map(|n| format!("expected {n}\n")).collect();
    let wanted: Vec<String> = (0..8).map(|n| format!("expected {n}")).collect();
    assert_eq!(key_assertion(&failure), wanted.join("\n"));
}

#[test]
fn case_does_not_matter() {
    assert_eq!(key_assertion("ASSERTION"), "ASSERTION");
    assert_eq!(key_assertion("Value SHOULD hold"), "Value SHOULD hold");
    // The capital letter of another alphabet has a lower-case form too.
    assert_eq!(key_assertion("Δ Expected"), "Δ Expected");
}

#[test]
fn lower_case_forms_decide() {
    assert_eq!(pick_key_lines(&owned(&["A", "B"]), &owned(&["x", "a == b"])), "B");
    assert_eq!(pick_key_lines(&owned(&["ASSERT"]), &owned(&["ASSERT"])), NONE);
}

#[test]
fn every_word_counts() {
    for word in [
        "assert", "expected", "actual", "!=", "==", " to equal", " to be", "assertionerror",
        "panicked", "left:", "right:", "got ", "but was", "should", "fail",
    ] {
        assert!(is_diagnostic(&format!("a{word}b")), "{word}");
    }
    assert!(!is_diagnostic("to be"));
    assert!(!is_diagnostic("got"));
    assert!(!is_diagnostic("left"));
    assert!(!is_diagnostic(""));
}

use merle::diff::{render_changes, show_diff, Tag};

#[test]
fn difference_is_shown_and_remembered() {
    let shown = show_diff("calc.py", "a\nb\nc\n", "a\nB\nc\n");
    assert_eq!(shown.plain, "--- a/calc.py\n+++ b/calc.py\n a\n-b\n+B\n c\n");
    assert_eq!(
        shown.colored,
        "--- a/calc.py\n+++ b/calc.py\n\
         \x1b[0m a\n\x1b[0m\x1b[31m-b\n\x1b[0m\x1b[32m+B\n\x1b[0m\x1b[0m c\n\x1b[0m"
    );
}

#[test]
fn missing_line_end_is_supplied() {
    let shown = show_diff("f", "a", "a\n");
    assert_eq!(shown.plain, "--- a/f\n+++ b/f\n-a\n+a\n");
}

#[test]
fn equal_texts_have_no_changes() {
    assert_eq!(show_diff("f", "", "").plain, "--- a/f\n+++ b/f\n");
    assert_eq!(show_diff("f", "x\n", "x\n").plain, "--- a/f\n+++ b/f\n x\n");
}

#[test]
fn changes_are_rendered_as_given() {
    let changes = vec![
        (Tag::Insert, "new\n".to_string()),
        (Tag::Equal, "same\n".to_string()),
        (Tag::Delete, "old\n".to_string()),
    ];
    let shown = render_changes("n", &changes);
    assert_eq!(shown.plain, "--- a/n\n+++ b/n\n+new\n same\n-old\n");
    assert_eq!(
        shown.colored,
        "--- a/n\n+++ b/n\n\x1b[32m+new\n\x1b[0m\x1b[0m same\n\x1b[0m\x1b[31m-old\n\x1b[0m"
    );
}

/// The kept lines of a difference with those of one sign.
fn side(plain: &str, sign: char) -> String {
    plain
        .split_inclusive('\n')
        .skip(2)
        .filter(|l| l.starts_with(' ') || l.starts_with(sign))
        .map(|l| &l[1..])
        .collect()
}

#[test]
fn no_line_is_lost() {
    let long = |step: usize| -> String { (0..300).filter(|n| n % step != 1).map(|n| format!("{}\n", n / 2)).collect() };
    for (before, after) in [
        ("a\nb\nc\n".to_string(), "c\na\nb\n".to_string()),
        (String::new(), "x\n".to_string()),
        ("x\n".to_string(), String::new()),
        ("a\na\nb\na\n".to_string(), "a\nb\na\na\na\n".to_string()),
        ("x\ny".to_string(), "y".to_string()),
        (long(3), long(5)),
        (long(7), long(2)),
    ] {
        let ended = |s: &str| if s.is_empty() || s.ends_with('\n') { s.to_string() } else { format!("{s}\n") };
        let plain = show_diff("f", &before, &after).plain;
        assert_eq!(side(&plain, '-'), ended(&before));
        assert_eq!(side(&plain, '+'), ended(&after));
    }
}

#[test]
fn carriage_returns_end_lines_too() {
    assert_eq!(show_diff("f", "a\rb\r\nc", "a\rB\r\nc").plain, "--- a/f\n+++ b/f\n a\r-b\r\n+B\r\n c\n");
    assert_eq!(show_diff("f", "a\r", "").plain, "--- a/f\n+++ b/f\n-a\r");
}

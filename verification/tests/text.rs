use merle::text::{
    contains, find, head, is_white, join, lines, replace_line_feeds, same, starts_with,
    strip_prefix, tail, trim, trim_slashes, trunc, write_decimal, write_hex, write_signed,
};

fn strings(parts: &[&str]) -> Vec<String> {
    parts.iter().map(|p| p.to_string()).collect()
}

#[test]
fn white_space_is_that_of_unicode() {
    for n in 0..=0x10ffffu32 {
        if let Some(c) = char::from_u32(n) {
            assert_eq!(is_white(c), c.is_whitespace(), "U+{n:04X}");
        }
    }
}

#[test]
fn trim_takes_white_space_off_both_ends() {
    for s in ["", " ", "a", " a b\t", "\u{3000}x\u{a0}\n", "\r\n\r\n", "é ", "\u{200b}z"] {
        assert_eq!(trim(s), s.trim());
    }
}

#[test]
fn trim_twice_is_trim_once() {
    let once = trim("  \n both ends \t");
    assert_eq!(once, "both ends");
    assert_eq!(trim(&once), once);
}

#[test]
fn lines_are_those_of_a_text() {
    for s in ["", "\n", "a", "a\n", "a\nb", "a\r\nb\r\n", "a\r", "\r\n", "a\n\nb", "x\ry\n", "a\r\r\n"] {
        let wanted: Vec<String> = s.lines().map(str::to_string).collect();
        assert_eq!(lines(s), wanted, "{s:?}");
    }
}

#[test]
fn tail_keeps_the_last_characters() {
    assert_eq!(tail("abcdef", 2), "ef");
    assert_eq!(tail("abc", 3), "abc");
    assert_eq!(tail("abc", 9), "abc");
    assert_eq!(tail("abc", 0), "");
    assert_eq!(tail("naïve🐶", 3), "ve🐶");
}

#[test]
fn head_keeps_the_first_characters() {
    assert_eq!(head("abcdef", 2), "ab");
    assert_eq!(head("é🐶", 1), "é");
    assert_eq!(head("ab", 5), "ab");
}

#[test]
fn trunc_marks_what_it_cuts() {
    assert_eq!(trunc("abc", 3), "abc");
    assert_eq!(trunc("abcd", 3), "abc\n…(truncated)");
    assert_eq!(trunc("🐶🐶🐶", 2), "🐶🐶\n…(truncated)");
    assert_eq!(trunc("", 0), "");
}

#[test]
fn texts_are_searched() {
    let s: Vec<char> = "a``b```c```".chars().collect();
    let fence: Vec<char> = "```".chars().collect();
    assert_eq!(find(&s, 0, &fence), Some(4));
    assert_eq!(find(&s, 5, &fence), Some(3));
    assert_eq!(find(&s, 9, &fence), None);
    assert_eq!(find(&s, 3, &Vec::new()), Some(0));
    assert!(contains("git reset --hard HEAD", "git reset --hard"));
    assert!(!contains("git reset", "git reset --hard"));
    assert!(contains("", ""));
    assert!(starts_with("MM x", "MM"));
    assert!(!starts_with("M", "MM"));
    assert_eq!(strip_prefix("data: {}", "data: "), Some("{}".to_string()));
    assert_eq!(strip_prefix("data:{}", "data: "), None);
    assert!(same("é", "é"));
    assert!(!same("e", "é"));
}

#[test]
fn texts_are_joined_and_changed() {
    assert_eq!(join(&strings(&["a", "b", "c"]), "\n"), "a\nb\nc");
    assert_eq!(join(&strings(&["a"]), "\n"), "a");
    assert_eq!(join(&Vec::new(), "\n"), "");
    assert_eq!(replace_line_feeds("a\nb\n", "\n    "), "a\n    b\n    ");
    assert_eq!(replace_line_feeds("ab", " "), "ab");
    assert_eq!(trim_slashes("/x//"), "/x");
    assert_eq!(trim_slashes("//"), "");
    assert_eq!(trim_slashes("a/b"), "a/b");
}

#[test]
fn numbers_are_written() {
    for n in [0u128, 7, 10, 909, 1_700_000_000_123_456_789, u128::MAX] {
        assert_eq!(write_decimal(n), n.to_string());
    }
    for n in [0i32, -1, 127, -127, i32::MAX, i32::MIN] {
        assert_eq!(write_signed(n), n.to_string());
    }
    for n in [0u64, 1, 0xdead_beef, u64::MAX] {
        assert_eq!(write_hex(n, 16), format!("{n:016x}"));
    }
}

use merle::reply::{extract_code, is_looping};

#[test]
fn first_block_is_taken() {
    assert_eq!(extract_code("Here:\n```python\nx = 1\n```\nand\n```\ny\n```"), "x = 1");
    assert_eq!(extract_code("```\n\n  a\n\n```"), "a");
    assert_eq!(extract_code("```rust\nfn main() {}\n```"), "fn main() {}");
}

#[test]
fn reply_without_a_block_is_taken_whole() {
    assert_eq!(extract_code("  x = 1\n"), "x = 1");
    assert_eq!(extract_code("```python x = 1"), "```python x = 1");
    assert_eq!(extract_code("```python\nx = 1\n"), "```python\nx = 1");
    assert_eq!(extract_code(""), "");
}

#[test]
fn block_may_be_empty() {
    assert_eq!(extract_code("```\n```"), "");
}

#[test]
fn fenced_code_is_given_back() {
    for (before, label, code, behind) in [
        ("", "", "a = `b` + 1\n", ""),
        ("some `words`\n", "python", "\tx\n\ty\n", "\n``` and more"),
        ("``", "`odd", "z ", "```"),
    ] {
        let reply = format!("{before}```{label}\n{code}```{behind}");
        assert_eq!(extract_code(&reply), code.trim());
    }
}

#[test]
fn code_has_no_white_space_at_its_ends() {
    let code = extract_code("```\n \n a b \n```");
    assert_eq!(code, "a b");
    assert_eq!(extract_code(&code), code);
}

#[test]
fn repetition_is_seen() {
    let sentence = "This sentence is repeated over and over by the model. ";
    let looped = sentence.repeat(5);
    assert!(looped.len() >= 200);
    assert!(is_looping(&looped));
}

#[test]
fn short_output_does_not_loop() {
    assert!(!is_looping(&"ab".repeat(99)));
    assert!(is_looping(&"ab".repeat(100)));
}

#[test]
fn varied_output_does_not_loop() {
    let varied: String = (0..80).map(|n| format!("{n}, ")).collect();
    assert!(varied.len() >= 200);
    assert!(!is_looping(&varied));
}

#[test]
fn repetition_is_cut_between_characters() {
    // The 48th byte from the end stands within a character, so the end begins before it.
    let pack = format!("{}a", "🐶".repeat(20));
    assert!(is_looping(&pack.repeat(3)));
    assert!(!is_looping(&format!("{}{}", "x".repeat(200), "🐶".repeat(12))));
}

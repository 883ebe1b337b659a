use merle::json::read;
use merle::tools::{
    announce, announcement, plan_call, read_arguments, tell_block, tell_list, tell_read, tell_run,
    tell_search, tell_write, write_search, Plan,
};

#[test]
fn calls_are_planned() {
    let args = read("{\"path\":\"p\",\"content\":\"c\",\"cmd\":\"ls\",\"summary\":\"s\",\"pattern\":\"x\"}").unwrap();
    assert!(matches!(plan_call("read_file", &args), Plan::Read { path } if path == "p"));
    assert!(matches!(plan_call("list_dir", &args), Plan::List { path } if path == "p"));
    assert!(matches!(plan_call("grep", &args), Plan::Search { command } if command == "grep -rn \"x\" . 2>/dev/null | head -40"));
    assert!(matches!(plan_call("write_file", &args), Plan::Write { path, content } if path == "p" && content == "c"));
    assert!(matches!(plan_call("run", &args), Plan::Run { command } if command == "ls"));
    assert!(matches!(plan_call("done", &args), Plan::Answer { text } if text == "done: s"));
    assert!(matches!(plan_call("fly", &args), Plan::Answer { text } if text == "unknown tool: fly"));
    assert!(matches!(plan_call("", &args), Plan::Answer { text } if text == "unknown tool: "));
}

#[test]
fn missing_arguments_are_empty() {
    let args = read("{\"path\":7}").unwrap();
    assert!(matches!(plan_call("read_file", &args), Plan::Read { path } if path.is_empty()));
    assert!(matches!(plan_call("run", &args), Plan::Run { command } if command.is_empty()));
    assert!(matches!(plan_call("done", &args), Plan::Answer { text } if text == "done: "));
}

#[test]
fn pattern_is_quoted() {
    let pattern = "say \"hi\"\n\\ é";
    let args = serde_json::Value::Object(
        [("pattern".to_string(), serde_json::Value::String(pattern.to_string()))].into_iter().collect(),
    );
    let wanted = format!("grep -rn {pattern:?} . 2>/dev/null | head -40");
    assert_eq!(wanted, "grep -rn \"say \\\"hi\\\"\\n\\\\ é\" . 2>/dev/null | head -40");
    assert!(matches!(plan_call("grep", &args), Plan::Search { command } if command == wanted));
    assert_eq!(write_search("q"), "grep -rn q . 2>/dev/null | head -40");
}

#[test]
fn arguments_are_read() {
    assert_eq!(read_arguments("{\"a\":1}")["a"], 1);
    assert_eq!(read_arguments("{\"a\":").as_object().unwrap().len(), 0);
    assert_eq!(read_arguments("").as_object().unwrap().len(), 0);
    assert!(read_arguments("null").is_null());
}

#[test]
fn calls_are_announced() {
    let args = read("{ \"cmd\" : \"ls\" }").unwrap();
    assert_eq!(announce("run", &args), "\x1b[36m  ● run {\"cmd\":\"ls\"}\x1b[0m\n");
    assert_eq!(
        announcement("t", &"z".repeat(101)),
        format!("\x1b[36m  ● t {} …(truncated)\x1b[0m\n", "z".repeat(100))
    );
    assert_eq!(announcement("t", "a\nb"), "\x1b[36m  ● t a b\x1b[0m\n");
}

#[test]
fn reading_is_told() {
    assert_eq!(tell_read(&Ok("abc".to_string())), "abc");
    assert_eq!(tell_read(&Ok("a".repeat(4001))), format!("{}\n…(truncated)", "a".repeat(4000)));
    assert_eq!(tell_read(&Err("gone".to_string())), "error: gone");
}

#[test]
fn listing_is_told_in_order() {
    let names = ["b", "B", "é", "a", "ab", "", "z", "🐶", "a", "\u{ffff}"];
    let mut wanted: Vec<String> = names.iter().map(|n| n.to_string()).collect();
    let told = tell_list(Ok(wanted.clone()));
    wanted.sort();
    assert_eq!(told, wanted.join("\n"));
    assert_eq!(tell_list(Ok(Vec::new())), "");
    assert_eq!(tell_list(Err("gone".to_string())), "error: gone");
}

#[test]
fn writing_is_told() {
    assert_eq!(tell_write("p", &None), "wrote p");
    assert_eq!(tell_write("p", &Some("full".to_string())), "error: full");
}

#[test]
fn searches_and_runs_are_told() {
    assert_eq!(tell_search("hit"), "hit");
    assert_eq!(tell_search(&"h".repeat(2001)), format!("{}\n…(truncated)", "h".repeat(2000)));
    assert_eq!(tell_run(-1, "boom"), "exit=-1\nboom");
    assert_eq!(tell_run(0, ""), "exit=0\n");
    assert_eq!(tell_run(0, &"o".repeat(3000)), format!("exit=0\n{}\n…(truncated)", "o".repeat(2993)));
}

#[test]
fn block_is_told() {
    assert_eq!(
        tell_block("would discard"),
        "BLOCKED — not executed: would discard\n\nThis command would permanently discard uncommitted \
         work. Not run. If this is genuinely what the task needs, back it up first (e.g. `git stash` \
         or copy the file elsewhere), or report back that this needs explicit confirmation rather \
         than guessing."
    );
}

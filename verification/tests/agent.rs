use merle::agent::{Agent, Effect, Event};
use merle::message::{AssistantMessage, Message, ToolCall};

fn text(effect: &Effect) -> String {
    match effect {
        Effect::Print(s) => format!("print {s}"),
        Effect::Warn(s) => format!("warn {s}"),
        Effect::Chat => "chat".to_string(),
        Effect::ReadFile { path } => format!("read {path}"),
        Effect::ListDir { path } => format!("list {path}"),
        Effect::Search { command } => format!("search {command}"),
        Effect::WriteFile { path, content } => format!("write {path} {content}"),
        Effect::Status => "status".to_string(),
        Effect::Run { command } => format!("run {command}"),
        Effect::Test => "test".to_string(),
        Effect::Finish(Ok(s)) => format!("finish {s}"),
        Effect::Finish(Err(e)) => format!("fail {e}"),
    }
}

fn texts(effects: Vec<Effect>) -> Vec<String> {
    effects.iter().map(text).collect()
}

fn start(max_steps: usize, has_test: bool) -> (Agent, Vec<String>) {
    let messages = vec![Message::System("sys".to_string()), Message::User("go".to_string())];
    let (agent, effects) = Agent::start(messages, max_steps, has_test);
    (agent, texts(effects))
}

fn report(agent: &mut Agent, event: Event) -> Vec<String> {
    assert!(agent.is_accepted(&event));
    texts(agent.step(event))
}

fn calling(calls: &[(&str, &str, &str)]) -> Event {
    Event::Chatted(Ok(AssistantMessage {
        content: None,
        tool_calls: calls
            .iter()
            .map(|(id, name, arguments)| ToolCall {
                id: id.to_string(),
                name: name.to_string(),
                arguments: arguments.to_string(),
            })
            .collect(),
    }))
}

fn saying(content: &str) -> Event {
    Event::Chatted(Ok(AssistantMessage { content: Some(content.to_string()), tool_calls: Vec::new() }))
}

fn said(name: &str, arguments: &str) -> String {
    format!("print \x1b[36m  ● {name} {arguments}\x1b[0m\n")
}

fn told(agent: &Agent) -> Vec<(String, String)> {
    agent
        .messages()
        .iter()
        .filter_map(|m| match m {
            Message::Tool { call_id, content } => Some((call_id.clone(), content.clone())),
            _ => None,
        })
        .collect()
}

#[test]
fn plain_answer_ends_the_turn() {
    let (mut agent, first) = start(3, true);
    assert_eq!(first, ["chat"]);
    assert!(!agent.is_finished());
    assert_eq!(report(&mut agent, saying("hello")), ["finish hello"]);
    assert!(agent.is_finished());
    let messages = agent.into_messages();
    assert_eq!(messages.len(), 3);
    assert!(matches!(&messages[2], Message::Assistant(m) if m.content.as_deref() == Some("hello")));
}

#[test]
fn failed_request_ends_the_turn() {
    let (mut agent, _) = start(3, false);
    let effects = report(&mut agent, Event::Chatted(Err("no server".to_string())));
    assert_eq!(effects, ["warn \x1b[31m✗ no server\x1b[0m\n", "fail no server"]);
    assert_eq!(agent.messages().len(), 2);
}

#[test]
fn turn_without_steps_asks_nothing() {
    let (agent, first) = start(0, true);
    assert_eq!(first, ["finish (reached max steps)"]);
    assert!(agent.is_finished());
    assert!(!agent.is_accepted(&saying("late")));
}

#[test]
fn model_is_asked_at_most_as_often_as_there_are_steps() {
    let (mut agent, first) = start(3, false);
    let mut asked = first.iter().filter(|e| *e == "chat").count();
    let mut last = String::new();
    while !agent.is_finished() {
        let effects = report(&mut agent, calling(&[("c", "nope", "{}")]));
        asked += effects.iter().filter(|e| *e == "chat").count();
        last = effects.last().unwrap().clone();
    }
    assert_eq!(asked, 3);
    assert_eq!(last, "finish (reached max steps)");
}

#[test]
fn calls_are_carried_out_one_by_one() {
    let (mut agent, _) = start(5, false);
    let effects = report(
        &mut agent,
        calling(&[
            ("c0", "read_file", "{\"path\":\"a\"}"),
            ("c1", "list_dir", "{\"path\":\".\"}"),
            ("c2", "grep", "{\"pattern\":\"x\"}"),
            ("c3", "fly", ""),
            ("c4", "write_file", "{\"path\":\"b\",\"content\":\"new\"}"),
        ]),
    );
    assert_eq!(effects, [said("read_file", "{\"path\":\"a\"}"), "read a".to_string()]);
    let effects = report(&mut agent, Event::Read(Ok("old".to_string())));
    assert_eq!(effects, [said("list_dir", "{\"path\":\".\"}"), "list .".to_string()]);
    let effects = report(&mut agent, Event::Listed(Ok(vec!["b".to_string(), "a".to_string()])));
    assert_eq!(
        effects,
        [said("grep", "{\"pattern\":\"x\"}"), "search grep -rn \"x\" . 2>/dev/null | head -40".to_string()]
    );
    let effects = report(&mut agent, Event::Searched("a:1:x\n".to_string()));
    assert_eq!(
        effects,
        [
            said("fly", "{}"),
            said("write_file", "{\"content\":\"new\",\"path\":\"b\"}"),
            "write b new".to_string()
        ]
    );
    assert_eq!(report(&mut agent, Event::Written(None)), ["chat"]);
    let wanted = [
        ("c0", "old"),
        ("c1", "a\nb"),
        ("c2", "a:1:x\n"),
        ("c3", "unknown tool: fly"),
        ("c4", "wrote b"),
    ];
    let wanted: Vec<(String, String)> = wanted.iter().map(|(i, c)| (i.to_string(), c.to_string())).collect();
    assert_eq!(told(&agent), wanted);
}

#[test]
fn commands_are_guarded() {
    let (mut agent, _) = start(5, false);
    report(&mut agent, calling(&[("c", "run", "{\"cmd\":\"git checkout -- .\"}")]));
    let event = Event::Status { code: 0, output: " M wip.txt\n".to_string() };
    assert_eq!(report(&mut agent, event), ["chat"]);
    let answers = told(&agent);
    assert!(answers[0].1.starts_with("BLOCKED — not executed: a checkout/restore command"));
    assert!(answers[0].1.contains("\nwip.txt\n\nThis command would permanently discard"));
}

#[test]
fn harmless_commands_run() {
    let (mut agent, _) = start(5, false);
    let effects = report(&mut agent, calling(&[("c", "run", "{\"cmd\":\"git checkout -- .\"}")]));
    assert_eq!(effects[1], "status");
    let event = Event::Status { code: 0, output: "\n".to_string() };
    assert_eq!(report(&mut agent, event), ["run git checkout -- ."]);
    assert_eq!(report(&mut agent, Event::Ran { code: 1, output: "no".to_string() }), ["chat"]);
    assert_eq!(told(&agent), [("c".to_string(), "exit=1\nno".to_string())]);
}

#[test]
fn events_that_were_not_asked_for_are_not_accepted() {
    let (mut agent, _) = start(5, false);
    report(&mut agent, calling(&[("c", "run", "{\"cmd\":\"git restore x\"}")]));
    assert!(!agent.is_accepted(&Event::Tested(0)));
    assert!(!agent.is_accepted(&Event::Ran { code: 0, output: String::new() }));
    assert!(agent.is_accepted(&Event::Status { code: 0, output: " M x\n".to_string() }));
}

#[test]
fn done_ends_the_turn_behind_the_other_calls() {
    let (mut agent, _) = start(5, true);
    let effects = report(
        &mut agent,
        calling(&[("c0", "done", "{\"summary\":\"fixed it\"}"), ("c1", "fly", "{}")]),
    );
    assert_eq!(
        effects,
        [
            said("done", "{\"summary\":\"fixed it\"}"),
            said("fly", "{}"),
            "print \x1b[32m  ✓ fixed it\x1b[0m\n".to_string(),
            "finish fixed it".to_string()
        ]
    );
    assert_eq!(told(&agent)[0], ("c0".to_string(), "done: fixed it".to_string()));
}

#[test]
fn done_without_a_summary_says_done() {
    let (mut agent, _) = start(5, true);
    let effects = report(&mut agent, calling(&[("c0", "done", "not json")]));
    assert_eq!(effects.last().unwrap(), "finish done");
    assert_eq!(told(&agent)[0].1, "done: ");
}

#[test]
fn tests_end_the_turn_behind_an_edit() {
    let (mut agent, _) = start(5, true);
    report(&mut agent, calling(&[("c", "write_file", "{\"path\":\"p\"}")]));
    assert_eq!(report(&mut agent, Event::Written(Some("full".to_string()))), ["test"]);
    assert_eq!(told(&agent)[0].1, "error: full");
    assert_eq!(report(&mut agent, Event::Tested(0)), ["finish verified — tests pass"]);
}

#[test]
fn failing_tests_let_the_turn_go_on() {
    let (mut agent, _) = start(2, true);
    report(&mut agent, calling(&[("c", "write_file", "{\"path\":\"p\"}")]));
    report(&mut agent, Event::Written(None));
    assert_eq!(report(&mut agent, Event::Tested(1)), ["chat"]);
    // The edit is remembered: the tests run again behind an answer that writes nothing.
    let effects = report(&mut agent, calling(&[("c", "fly", "{}")]));
    assert_eq!(effects.last().unwrap(), "test");
    assert_eq!(report(&mut agent, Event::Tested(-1)), ["finish (reached max steps)"]);
}

#[test]
fn edits_without_tests_are_not_tested() {
    let (mut agent, _) = start(5, false);
    report(&mut agent, calling(&[("c", "write_file", "{\"path\":\"p\"}")]));
    assert_eq!(report(&mut agent, Event::Written(None)), ["chat"]);
}

#[test]
fn conversation_keeps_one_system_message() {
    let (mut agent, _) = start(5, false);
    report(&mut agent, calling(&[("c0", "fly", "{}"), ("c1", "done", "{}")]));
    let messages = agent.into_messages();
    assert!(matches!(&messages[0], Message::System(s) if s == "sys"));
    assert!(matches!(&messages[1], Message::User(s) if s == "go"));
    assert_eq!(messages.iter().filter(|m| matches!(m, Message::System(_))).count(), 1);
    assert_eq!(messages.len(), 5);
}

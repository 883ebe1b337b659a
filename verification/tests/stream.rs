use merle::json::read;
use merle::stream::Stream;

fn said(text: &str) -> String {
    format!(
        "data: {{\"choices\":[{{\"delta\":{{\"content\":{}}}}}]}}",
        serde_json::Value::String(text.to_string())
    )
}

fn piece(fields: &str) -> String {
    format!("data: {{\"choices\":[{{\"delta\":{{\"tool_calls\":[{fields}]}}}}]}}")
}

#[test]
fn text_is_put_together() {
    let mut stream = Stream::new();
    assert!(!stream.has_spoken());
    let fed = stream.feed_line(&said("Hel"));
    assert_eq!(fed.shown.as_deref(), Some("Hel"));
    assert!(!fed.stop);
    assert_eq!(stream.feed_line(&said("lo")).shown.as_deref(), Some("lo"));
    assert!(stream.has_spoken());
    let message = stream.finish();
    assert_eq!(message.content.as_deref(), Some("Hello"));
    assert!(message.tool_calls.is_empty());
}

#[test]
fn what_is_shown_is_kept() {
    let mut stream = Stream::new();
    let mut shown = String::new();
    for line in [said("a"), ": ping".to_string(), said(""), said(" b\n"), "data: [DONE]".to_string()] {
        let fed = stream.feed_line(&line);
        shown.push_str(&fed.shown.unwrap_or_default());
    }
    assert_eq!(shown, "a b\n");
    assert_eq!(stream.finish().content.as_deref(), Some("a b\n"));
}

#[test]
fn lines_without_data_are_passed_over() {
    let mut stream = Stream::new();
    for line in ["", "event: x", "data:{}", "data: {", "data: nonsense", "data: {}", "data: [1]", "data: {\"choices\":[{\"delta\":{\"content\":null}}]}"] {
        let fed = stream.feed_line(line);
        assert!(fed.shown.is_none(), "{line}");
        assert!(!fed.stop, "{line}");
    }
    assert!(!stream.has_spoken());
    assert_eq!(stream.finish().content.as_deref(), Some(""));
}

#[test]
fn end_mark_ends_the_reading() {
    let mut stream = Stream::new();
    assert!(stream.feed_line("data: [DONE]").stop);
    assert!(stream.feed_line("data:   [DONE]  ").stop);
    assert!(!stream.feed_line("data: [done]").stop);
}

#[test]
fn calls_come_in_pieces() {
    let mut stream = Stream::new();
    stream.feed_line(&piece("{\"index\":0,\"id\":\"c0\",\"function\":{\"name\":\"run\",\"arguments\":\"{\\\"cmd\\\"\"}}"));
    stream.feed_line(&piece("{\"index\":0,\"id\":\"\",\"function\":{\"name\":\"\",\"arguments\":\":\\\"ls\\\"}\"}}"));
    let message = stream.finish();
    assert!(message.content.is_none());
    assert_eq!(message.tool_calls.len(), 1);
    assert_eq!(message.tool_calls[0].id, "c0");
    assert_eq!(message.tool_calls[0].name, "run");
    assert_eq!(message.tool_calls[0].arguments, "{\"cmd\":\"ls\"}");
}

#[test]
fn calls_are_told_apart_by_their_number() {
    let mut stream = Stream::new();
    let fed = stream.feed_line(&piece(
        "{\"index\":2,\"id\":\"c2\"},{\"id\":\"c0\",\"function\":{\"arguments\":\"x\"}},{\"index\":-1,\"function\":{\"arguments\":\"y\"}}",
    ));
    assert!(fed.shown.is_none());
    let message = stream.finish();
    assert_eq!(message.tool_calls.len(), 3);
    assert_eq!(message.tool_calls[0].id, "c0");
    assert_eq!(message.tool_calls[0].arguments, "xy");
    assert_eq!(message.tool_calls[1].id, "");
    assert_eq!(message.tool_calls[2].id, "c2");
}

#[test]
fn later_names_replace_earlier_ones() {
    let mut stream = Stream::new();
    stream.feed_line(&piece("{\"index\":0,\"id\":\"a\",\"function\":{\"name\":\"grep\"}}"));
    stream.feed_line(&piece("{\"index\":0,\"id\":\"b\",\"function\":{\"name\":\"run\"}}"));
    let message = stream.finish();
    assert_eq!(message.tool_calls[0].id, "b");
    assert_eq!(message.tool_calls[0].name, "run");
}

#[test]
fn text_and_calls_stand_together() {
    let mut stream = Stream::new();
    let chunk = read("{\"choices\":[{\"delta\":{\"content\":\"ok\",\"tool_calls\":[{\"index\":0,\"id\":\"c\"}]}}]}").unwrap();
    let fed = stream.feed_chunk(&chunk);
    assert_eq!(fed.shown.as_deref(), Some("ok"));
    let message = stream.finish();
    assert_eq!(message.content.as_deref(), Some("ok"));
    assert_eq!(message.tool_calls.len(), 1);
}

#[test]
fn repetition_ends_the_reading() {
    let mut stream = Stream::new();
    let sentence = "The model says this whole sentence again and again. ";
    let mut stopped = 0;
    for n in 1..20 {
        if stream.feed_line(&said(sentence)).stop {
            stopped = n;
            break;
        }
    }
    assert_eq!(stopped, 4);
    assert_eq!(stream.finish().content, Some(sentence.repeat(4)));
}

#[test]
fn calls_behind_a_repetition_are_not_looked_at() {
    let mut stream = Stream::new();
    stream.feed_line(&piece("{\"index\":0,\"id\":\"first\"}"));
    let text = serde_json::Value::String("ab".repeat(120));
    let fed = stream.feed_line(&format!(
        "data: {{\"choices\":[{{\"delta\":{{\"content\":{text},\"tool_calls\":[{{\"index\":0,\"id\":\"second\"}}]}}}}]}}"
    ));
    assert!(fed.stop);
    assert_eq!(fed.shown, Some("ab".repeat(120)));
    assert_eq!(stream.finish().tool_calls[0].id, "first");
}

use merle::json::{read, text_or};
use merle::message::{message_value, messages_value, AssistantMessage, Message, ToolCall};
use merle::request::{
    answer_text, ask_request, chat_request, endpoint, refusal, silence, tool_schemas,
};

fn parsed(text: &str) -> serde_json::Value {
    read(text).unwrap()
}

#[test]
fn json_is_read() {
    assert_eq!(text_or(&parsed("{\"a\":\"x\",\"b\":1}"), "a", "d"), "x");
    assert_eq!(text_or(&parsed("{\"a\":\"x\",\"b\":1}"), "b", "d"), "d");
    assert_eq!(text_or(&parsed("[\"a\"]"), "a", "d"), "d");
    assert!(read("{").is_none());
    assert!(read("").is_none());
    assert!(read("{} x").is_none());
    assert_eq!(parsed("[1, -2, 0.5]"), serde_json::from_str::<serde_json::Value>("[1,-2,0.5]").unwrap());
}

#[test]
fn messages_go_on_the_wire() {
    assert_eq!(
        message_value(&Message::System("s".to_string())),
        parsed("{\"role\":\"system\",\"content\":\"s\"}")
    );
    assert_eq!(
        message_value(&Message::User("u".to_string())),
        parsed("{\"role\":\"user\",\"content\":\"u\"}")
    );
    assert_eq!(
        message_value(&Message::Tool { call_id: "c1".to_string(), content: "r".to_string() }),
        parsed("{\"role\":\"tool\",\"tool_call_id\":\"c1\",\"content\":\"r\"}")
    );
}

#[test]
fn part_of_the_model_goes_on_the_wire() {
    let plain = AssistantMessage { content: Some("hi".to_string()), tool_calls: Vec::new() };
    assert_eq!(
        message_value(&Message::Assistant(plain)),
        parsed("{\"role\":\"assistant\",\"content\":\"hi\"}")
    );
    let calling = AssistantMessage {
        content: None,
        tool_calls: vec![ToolCall {
            id: "c1".to_string(),
            name: "run".to_string(),
            arguments: "{\"cmd\":\"ls\"}".to_string(),
        }],
    };
    assert_eq!(
        message_value(&Message::Assistant(calling)),
        parsed(
            "{\"role\":\"assistant\",\"tool_calls\":[{\"id\":\"c1\",\"type\":\"function\",\
             \"function\":{\"name\":\"run\",\"arguments\":\"{\\\"cmd\\\":\\\"ls\\\"}\"}}]}"
        )
    );
    let both = AssistantMessage {
        content: Some("so".to_string()),
        tool_calls: vec![ToolCall { id: String::new(), name: String::new(), arguments: String::new() }],
    };
    assert_eq!(message_value(&Message::Assistant(both))["content"], "so");
}

#[test]
fn conversation_keeps_its_order_on_the_wire() {
    let value = messages_value(&vec![Message::User("a".to_string()), Message::User("b".to_string())]);
    assert_eq!(value[0]["content"], "a");
    assert_eq!(value[1]["content"], "b");
    assert_eq!(value.as_array().unwrap().len(), 2);
}

#[test]
fn tools_are_described() {
    let wanted = parsed(
        r#"[
        {"type":"function","function":{"name":"read_file","description":"Read a file's contents.","parameters":{"type":"object","properties":{"path":{"type":"string"}},"required":["path"]}}},
        {"type":"function","function":{"name":"list_dir","description":"List entries in a directory.","parameters":{"type":"object","properties":{"path":{"type":"string"}},"required":["path"]}}},
        {"type":"function","function":{"name":"grep","description":"Search the repo for a string/regex.","parameters":{"type":"object","properties":{"pattern":{"type":"string"}},"required":["pattern"]}}},
        {"type":"function","function":{"name":"write_file","description":"Create or overwrite a file.","parameters":{"type":"object","properties":{"path":{"type":"string"},"content":{"type":"string"}},"required":["path","content"]}}},
        {"type":"function","function":{"name":"run","description":"Run a shell command (build, tests, git…).","parameters":{"type":"object","properties":{"cmd":{"type":"string"}},"required":["cmd"]}}},
        {"type":"function","function":{"name":"done","description":"The request is complete.","parameters":{"type":"object","properties":{"summary":{"type":"string"}},"required":["summary"]}}}
    ]"#,
    );
    assert_eq!(tool_schemas(), wanted);
}

#[test]
fn conversation_is_requested() {
    let request = chat_request(&vec![Message::User("u".to_string())]);
    assert_eq!(request["messages"], parsed("[{\"role\":\"user\",\"content\":\"u\"}]"));
    assert_eq!(request["tools"], tool_schemas());
    assert_eq!(request["max_tokens"], 700);
    assert_eq!(request["stream"], true);
    assert_eq!(
        request["stop"],
        parsed("[\"</think>\",\"<think>\",\"<|im_end|>\",\"<|endoftext|>\",\"<|eot_id|>\"]")
    );
    assert_eq!(request["chat_template_kwargs"], parsed("{\"enable_thinking\":false}"));
    assert_eq!(request.as_object().unwrap().len(), 6);
}

#[test]
fn question_is_requested() {
    let request = ask_request("why?", 1400);
    assert_eq!(
        request,
        parsed(
            "{\"messages\":[{\"role\":\"user\",\"content\":\"why?\"}],\"max_tokens\":1400,\
             \"stop\":[\"</think>\",\"<think>\",\"<|im_end|>\",\"<|endoftext|>\",\"<|eot_id|>\"],\
             \"chat_template_kwargs\":{\"enable_thinking\":false}}"
        )
    );
}

#[test]
fn answer_is_found() {
    assert_eq!(answer_text(&parsed("{\"choices\":[{\"message\":{\"content\":\"yes\"}},{}]}")), "yes");
    assert_eq!(answer_text(&parsed("{\"choices\":[]}")), "");
    assert_eq!(answer_text(&parsed("{\"choices\":[{\"message\":{\"content\":null}}]}")), "");
    assert_eq!(answer_text(&parsed("{\"error\":\"x\"}")), "");
    assert_eq!(answer_text(&parsed("7")), "");
}

#[test]
fn address_is_built() {
    assert_eq!(endpoint(None), "http://localhost:8080/v1/chat/completions");
    assert_eq!(endpoint(Some("http://h/v2")), "http://h/v2/chat/completions");
    assert_eq!(endpoint(Some("")), "/chat/completions");
}

#[test]
fn errors_of_the_server_are_told() {
    assert_eq!(refusal(404, " {\"error\":\"x\"}\n"), "model server returned HTTP 404: {\"error\":\"x\"}");
    assert_eq!(
        refusal(500, &"y".repeat(301)),
        format!("model server returned HTTP 500: {}\n…(truncated)", "y".repeat(300))
    );
    assert_eq!(
        silence("http://h/chat/completions", "refused"),
        "no response from model server at http://h/chat/completions — is it running? (refused)"
    );
}

//! What is sent to the model server, and what its answers outside a stream mean.
//!
//! A request here lacks the sampling numbers (temperature, nucleus and repetition penalty): they
//! are floating-point numbers, and whoever sends the request adds them.

use crate::json::{
    array, as_text, boolean, item, lemma_trees_push, member, object, put, text, tree, trees,
    unsigned, Json,
};
use crate::message::{message_views, messages_json, messages_value, Message, MessageModel};
use crate::text::{trim, trimmed, trunc, truncated, write_decimal};
use vstd::prelude::*;

verus! {

/// Where the server is looked for when nothing else is said.
pub const DEFAULT_BASE: &'static str = "http://localhost:8080/v1";

/// The most tokens of an answer in a conversation with tools.
pub const CHAT_TOKENS: u64 = 700;

/// The characters of a list of literals.
pub open spec fn str_views(v: Seq<&'static str>) -> Seq<Seq<char>> {
    v.map_values(|s: &'static str| s@)
}

/// A list of strings as JSON.
pub open spec fn texts_json(v: Seq<Seq<char>>) -> Json {
    Json::Array(v.map_values(|s: Seq<char>| Json::Text(s)))
}

/// The properties of a tool's parameters, all of them strings.
pub open spec fn properties_json(params: Seq<Seq<char>>) -> Json
    decreases params.len(),
{
    if params.len() == 0 {
        Json::empty()
    } else {
        properties_json(params.drop_last()).with(
            params.last(),
            Json::empty().with("type"@, Json::Text("string"@)),
        )
    }
}

/// The description of a tool whose parameters are strings, all of them required.
pub open spec fn schema_json(
    name: Seq<char>,
    description: Seq<char>,
    params: Seq<Seq<char>>,
) -> Json {
    Json::empty().with("type"@, Json::Text("function"@)).with(
        "function"@,
        Json::empty().with("name"@, Json::Text(name)).with(
            "description"@,
            Json::Text(description),
        ).with(
            "parameters"@,
            Json::empty().with("type"@, Json::Text("object"@)).with(
                "properties"@,
                properties_json(params),
            ).with("required"@, texts_json(params)),
        ),
    )
}

/// The tools that the model may call.
pub open spec fn tools_json() -> Json {
    Json::Array(
        seq![
            schema_json("read_file"@, "Read a file's contents."@, seq!["path"@]),
            schema_json("list_dir"@, "List entries in a directory."@, seq!["path"@]),
            schema_json("grep"@, "Search the repo for a string/regex."@, seq!["pattern"@]),
            schema_json("write_file"@, "Create or overwrite a file."@, seq!["path"@, "content"@]),
            schema_json("run"@, "Run a shell command (build, tests, git…)."@, seq!["cmd"@]),
            schema_json("done"@, "The request is complete."@, seq!["summary"@]),
        ],
    )
}

/// The marks at which the server is to stop: those of hidden thinking and of an answer's end.
pub open spec fn stop_marks() -> Seq<Seq<char>> {
    seq!["</think>"@, "<think>"@, "<|im_end|>"@, "<|endoftext|>"@, "<|eot_id|>"@]
}

/// A request with the switches that every request bears.
pub open spec fn switched(request: Json) -> Json {
    request.with("stop"@, texts_json(stop_marks())).with(
        "chat_template_kwargs"@,
        Json::empty().with("enable_thinking"@, Json::Bool(false)),
    )
}

/// The request that carries on a conversation with tools, to be answered in a stream.
pub open spec fn chat_json(messages: Seq<MessageModel>) -> Json {
    switched(
        Json::empty().with("messages"@, messages_json(messages)).with("tools"@, tools_json()).with(
            "max_tokens"@,
            Json::Unsigned(CHAT_TOKENS),
        ).with("stream"@, Json::Bool(true)),
    )
}

/// The request that asks one question.
pub open spec fn ask_json(prompt: Seq<char>, max_tokens: u64) -> Json {
    switched(
        Json::empty().with("messages"@, messages_json(seq![MessageModel::User(prompt)])).with(
            "max_tokens"@,
            Json::Unsigned(max_tokens),
        ),
    )
}

/// The answer to one question: the text of the first choice, and nothing where there is none.
pub open spec fn answer(reply: Json) -> Seq<char> {
    reply.member("choices"@).item(0).member("message"@).member("content"@).text_or(Seq::empty())
}

/// A list of strings as JSON.
fn texts_value(v: &Vec<&'static str>) -> (r: serde_json::Value)
    ensures
        tree(r) == texts_json(str_views(v@)),
{
    let ghost wanted = str_views(v@).map_values(|s: Seq<char>| Json::Text(s));
    let mut items: Vec<serde_json::Value> = Vec::new();
    let mut i: usize = 0;
    while i < v.len()
        invariant
            i <= v@.len(),
            wanted == str_views(v@).map_values(|s: Seq<char>| Json::Text(s)),
            trees(items@) == wanted.take(i as int),
        decreases v@.len() - i,
    {
        let value = text(v[i].to_owned());
        proof {
            lemma_trees_push(items@, value);
            assert(wanted.take(i + 1) =~= wanted.take(i as int).push(wanted[i as int]));
        }
        items.push(value);
        i += 1;
    }
    assert(wanted.take(i as int) =~= wanted);
    array(items)
}

/// The properties of a tool's parameters.
fn properties_value(params: &Vec<&'static str>) -> (r: serde_json::Value)
    ensures
        tree(r) == properties_json(str_views(params@)),
{
    let mut r = object();
    let mut i: usize = 0;
    while i < params.len()
        invariant
            i <= params@.len(),
            tree(r) == properties_json(str_views(params@).take(i as int)),
            tree(r) is Object,
        decreases params@.len() - i,
    {
        proof {
            assert(str_views(params@).take(i + 1).drop_last() =~= str_views(params@).take(
                i as int,
            ));
        }
        let mut property = object();
        put(&mut property, "type", text("string".to_owned()));
        put(&mut r, params[i], property);
        i += 1;
    }
    assert(str_views(params@).take(i as int) =~= str_views(params@));
    r
}

/// The description of a tool.
fn schema_value(
    name: &'static str,
    description: &'static str,
    params: Vec<&'static str>,
) -> (r: serde_json::Value)
    ensures
        tree(r) == schema_json(name@, description@, str_views(params@)),
{
    let mut parameters = object();
    put(&mut parameters, "type", text("object".to_owned()));
    put(&mut parameters, "properties", properties_value(&params));
    put(&mut parameters, "required", texts_value(&params));
    let mut function = object();
    put(&mut function, "name", text(name.to_owned()));
    put(&mut function, "description", text(description.to_owned()));
    put(&mut function, "parameters", parameters);
    let mut r = object();
    put(&mut r, "type", text("function".to_owned()));
    put(&mut r, "function", function);
    r
}

/// The description of a tool with one parameter.
fn simple_schema(
    name: &'static str,
    description: &'static str,
    param: &'static str,
) -> (r: serde_json::Value)
    ensures
        tree(r) == schema_json(name@, description@, seq![param@]),
{
    let params: Vec<&'static str> = vec![param];
    assert(str_views(params@) =~= seq![param@]);
    schema_value(name, description, params)
}

/// The tools that the model may call.
pub fn tool_schemas() -> (r: serde_json::Value)
    ensures
        tree(r) == tools_json(),
{
    let writing: Vec<&'static str> = vec!["path", "content"];
    assert(str_views(writing@) =~= seq!["path"@, "content"@]);
    let items: Vec<serde_json::Value> = vec![
        simple_schema("read_file", "Read a file's contents.", "path"),
        simple_schema("list_dir", "List entries in a directory.", "path"),
        simple_schema("grep", "Search the repo for a string/regex.", "pattern"),
        schema_value("write_file", "Create or overwrite a file.", writing),
        simple_schema("run", "Run a shell command (build, tests, git…).", "cmd"),
        simple_schema("done", "The request is complete.", "summary"),
    ];
    assert(trees(items@) =~= tools_json()->Array_0);
    array(items)
}

/// Puts the switches that every request bears into a request.
fn switch(request: &mut serde_json::Value)
    requires
        tree(*old(request)) is Object,
    ensures
        tree(*final(request)) == switched(tree(*old(request))),
{
    let stop: Vec<&'static str> = vec![
        "</think>",
        "<think>",
        "<|im_end|>",
        "<|endoftext|>",
        "<|eot_id|>",
    ];
    assert(str_views(stop@) =~= stop_marks());
    put(request, "stop", texts_value(&stop));
    let mut options = object();
    put(&mut options, "enable_thinking", boolean(false));
    put(request, "chat_template_kwargs", options);
}

/// The request that carries on a conversation with tools, to be answered in a stream.
pub fn chat_request(messages: &Vec<Message>) -> (r: serde_json::Value)
    ensures
        tree(r) == chat_json(message_views(messages@)),
{
    let mut r = object();
    put(&mut r, "messages", messages_value(messages));
    put(&mut r, "tools", tool_schemas());
    put(&mut r, "max_tokens", unsigned(CHAT_TOKENS));
    put(&mut r, "stream", boolean(true));
    switch(&mut r);
    r
}

/// The request that asks one question.
pub fn ask_request(prompt: &str, max_tokens: u64) -> (r: serde_json::Value)
    ensures
        tree(r) == ask_json(prompt@, max_tokens),
{
    let question: Vec<Message> = vec![Message::User(prompt.to_owned())];
    assert(message_views(question@) =~= seq![MessageModel::User(prompt@)]);
    let mut r = object();
    put(&mut r, "messages", messages_value(&question));
    put(&mut r, "max_tokens", unsigned(max_tokens));
    switch(&mut r);
    r
}

/// The answer to one question: the text of the first choice, and nothing where there is none.
pub fn answer_text(reply: &serde_json::Value) -> (r: String)
    ensures
        r@ == answer(tree(*reply)),
{
    let first = item(member(reply, "choices"), 0);
    match as_text(member(member(first, "message"), "content")) {
        Some(s) => s.to_owned(),
        None => String::new(),
    }
}

/// The address that requests go to, under a base that may be set from outside.
pub fn endpoint(base: Option<&str>) -> (r: String)
    ensures
        r@ == (match base {
            Some(b) => b@,
            None => DEFAULT_BASE@,
        }) + "/chat/completions"@,
{
    let mut r = match base {
        Some(b) => b.to_owned(),
        None => DEFAULT_BASE.to_owned(),
    };
    r.append("/chat/completions");
    r
}

/// What is reported when the server answers with an error: its status and the start of what it
/// said.
pub fn refusal(status: u16, body: &str) -> (r: String)
    ensures
        r@ == "model server returned HTTP "@ + crate::text::decimal(status as nat) + ": "@
            + truncated(trimmed(body@), 300),
{
    let mut r = "model server returned HTTP ".to_owned();
    r.append(write_decimal(status as u128).as_str());
    r.append(": ");
    r.append(trunc(trim(body).as_str(), 300).as_str());
    r
}

/// What is reported when the server does not answer at all.
pub fn silence(endpoint: &str, error: &str) -> (r: String)
    ensures
        r@ == "no response from model server at "@ + endpoint@ + " — is it running? ("@ + error@
            + ")"@,
{
    let mut r = "no response from model server at ".to_owned();
    r.append(endpoint);
    r.append(" — is it running? (");
    r.append(error);
    r.append(")");
    r
}

// ---- laws ---------------------------------------------------------------------------------

/// A request that carries on a conversation bears all of it, the tools, the limit of seven hundred
/// tokens, and the switches, and nothing else.
pub proof fn law_chat_bears_the_conversation(messages: Seq<MessageModel>, key: Seq<char>)
    ensures
        chat_json(messages).member("messages"@) == messages_json(messages),
        chat_json(messages).member("tools"@) == tools_json(),
        chat_json(messages).member("max_tokens"@) == Json::Unsigned(700),
        chat_json(messages).member("stream"@) == Json::Bool(true),
        chat_json(messages).member("stop"@) == texts_json(
            seq!["</think>"@, "<think>"@, "<|im_end|>"@, "<|endoftext|>"@, "<|eot_id|>"@],
        ),
        chat_json(messages).member("chat_template_kwargs"@).member("enable_thinking"@)
            == Json::Bool(false),
        key != "messages"@ && key != "tools"@ && key != "max_tokens"@ && key != "stream"@ && key
            != "stop"@ && key != "chat_template_kwargs"@ ==> chat_json(messages).member(key)
            == Json::Null,
{
    lemma_keys();
}

/// A request that asks one question bears it as the only message, with the limit that was set and the
/// switches, and nothing else.
pub proof fn law_question_is_the_only_message(prompt: Seq<char>, max_tokens: u64, key: Seq<char>)
    ensures
        ask_json(prompt, max_tokens).member("messages"@) == messages_json(
            seq![MessageModel::User(prompt)],
        ),
        ask_json(prompt, max_tokens).member("max_tokens"@) == Json::Unsigned(max_tokens),
        ask_json(prompt, max_tokens).member("stop"@) == texts_json(
            seq!["</think>"@, "<think>"@, "<|im_end|>"@, "<|endoftext|>"@, "<|eot_id|>"@],
        ),
        ask_json(prompt, max_tokens).member("chat_template_kwargs"@).member("enable_thinking"@)
            == Json::Bool(false),
        key != "messages"@ && key != "max_tokens"@ && key != "stop"@ && key
            != "chat_template_kwargs"@ ==> ask_json(prompt, max_tokens).member(key) == Json::Null,
{
    lemma_keys();
}

proof fn lemma_keys()
    ensures
        "messages"@.len() == 8,
        "tools"@.len() == 5,
        "max_tokens"@.len() == 10,
        "stream"@.len() == 6,
        "stop"@.len() == 4,
        "chat_template_kwargs"@.len() == 20,
{
    reveal_strlit("messages");
    reveal_strlit("tools");
    reveal_strlit("max_tokens");
    reveal_strlit("stream");
    reveal_strlit("stop");
    reveal_strlit("chat_template_kwargs");
}

/// The answer is the text of the first choice, whatever else the reply holds; a reply without such a
/// text has an empty answer.
pub proof fn law_answer_is_the_first_choice(reply: Json, choices: Seq<Json>, text: Seq<char>)
    ensures
        reply.member("choices"@) == Json::Array(choices) && choices.len() > 0
            && choices[0].member("message"@).member("content"@) == Json::Text(text)
            ==> answer(reply) == text,
        !(reply.member("choices"@) is Array) ==> answer(reply) == Seq::<char>::empty(),
        reply.member("choices"@) == Json::Array(choices) && (choices.len() == 0 || !(
        choices[0].member("message"@).member("content"@) is Text)) ==> answer(reply) == Seq::<
            char,
        >::empty(),
{
}

} // verus!

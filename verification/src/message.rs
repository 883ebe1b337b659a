//! The messages of a conversation with the model, and their form on the wire.

use crate::json::{array, lemma_trees_push, object, put, text, tree, trees, Json};
use vstd::prelude::*;

verus! {

/// A call of a tool that the model asked for. The arguments are JSON text as the model wrote it.
pub struct ToolCall {
    pub id: String,
    pub name: String,
    pub arguments: String,
}

/// What a [`ToolCall`] holds.
pub struct ToolCallModel {
    pub id: Seq<char>,
    pub name: Seq<char>,
    pub arguments: Seq<char>,
}

impl View for ToolCall {
    type V = ToolCallModel;

    open spec fn view(&self) -> ToolCallModel {
        ToolCallModel { id: self.id@, name: self.name@, arguments: self.arguments@ }
    }
}

/// What a list of calls holds.
pub open spec fn call_views(calls: Seq<ToolCall>) -> Seq<ToolCallModel> {
    calls.map_values(|c: ToolCall| c@)
}

/// The model's part of a conversation: what it said and the tools it calls.
pub struct AssistantMessage {
    pub content: Option<String>,
    pub tool_calls: Vec<ToolCall>,
}

/// What an [`AssistantMessage`] holds.
pub struct AssistantModel {
    pub content: Option<Seq<char>>,
    pub tool_calls: Seq<ToolCallModel>,
}

/// The characters of a string that may be missing.
pub open spec fn optional(s: Option<String>) -> Option<Seq<char>> {
    match s {
        Some(s) => Some(s@),
        None => None,
    }
}

impl View for AssistantMessage {
    type V = AssistantModel;

    open spec fn view(&self) -> AssistantModel {
        AssistantModel {
            content: optional(self.content),
            tool_calls: call_views(self.tool_calls@),
        }
    }
}

/// One message of a conversation.
pub enum Message {
    System(String),
    User(String),
    Assistant(AssistantMessage),
    Tool { call_id: String, content: String },
}

/// What a [`Message`] holds.
pub enum MessageModel {
    System(Seq<char>),
    User(Seq<char>),
    Assistant(AssistantModel),
    Tool { call_id: Seq<char>, content: Seq<char> },
}

impl View for Message {
    type V = MessageModel;

    open spec fn view(&self) -> MessageModel {
        match self {
            Message::System(s) => MessageModel::System(s@),
            Message::User(s) => MessageModel::User(s@),
            Message::Assistant(m) => MessageModel::Assistant(m@),
            Message::Tool { call_id, content } => MessageModel::Tool {
                call_id: call_id@,
                content: content@,
            },
        }
    }
}

/// What a conversation holds.
pub open spec fn message_views(messages: Seq<Message>) -> Seq<MessageModel> {
    messages.map_values(|m: Message| m@)
}

/// Adding a message to a conversation adds what it holds.
pub proof fn lemma_message_push(messages: Seq<Message>, m: Message)
    ensures
        message_views(messages.push(m)) == message_views(messages).push(m@),
{
    assert(message_views(messages.push(m)) =~= message_views(messages).push(m@));
}

/// A call on the wire.
pub open spec fn call_json(c: ToolCallModel) -> Json {
    Json::empty().with("id"@, Json::Text(c.id)).with("type"@, Json::Text("function"@)).with(
        "function"@,
        Json::empty().with("name"@, Json::Text(c.name)).with(
            "arguments"@,
            Json::Text(c.arguments),
        ),
    )
}

/// A list of calls on the wire.
pub open spec fn calls_json(calls: Seq<ToolCallModel>) -> Json {
    Json::Array(calls.map_values(|c: ToolCallModel| call_json(c)))
}

/// A message that has a role and a text, on the wire.
pub open spec fn spoken_json(role: Seq<char>, content: Seq<char>) -> Json {
    Json::empty().with("role"@, Json::Text(role)).with("content"@, Json::Text(content))
}

/// The model's part on the wire: its calls where there are any, its text where it said any.
pub open spec fn assistant_json(m: AssistantModel) -> Json {
    let head = Json::empty().with("role"@, Json::Text("assistant"@));
    let called = if m.tool_calls.len() == 0 {
        head
    } else {
        head.with("tool_calls"@, calls_json(m.tool_calls))
    };
    match m.content {
        Some(content) => called.with("content"@, Json::Text(content)),
        None => called,
    }
}

/// A message on the wire.
pub open spec fn message_json(m: MessageModel) -> Json {
    match m {
        MessageModel::System(s) => spoken_json("system"@, s),
        MessageModel::User(s) => spoken_json("user"@, s),
        MessageModel::Assistant(a) => assistant_json(a),
        MessageModel::Tool { call_id, content } => Json::empty().with(
            "role"@,
            Json::Text("tool"@),
        ).with("tool_call_id"@, Json::Text(call_id)).with("content"@, Json::Text(content)),
    }
}

/// A conversation on the wire.
pub open spec fn messages_json(ms: Seq<MessageModel>) -> Json {
    Json::Array(ms.map_values(|m: MessageModel| message_json(m)))
}

/// A call on the wire.
fn call_value(call: &ToolCall) -> (r: serde_json::Value)
    ensures
        tree(r) == call_json(call@),
{
    let mut function = object();
    put(&mut function, "name", text(call.name.clone()));
    put(&mut function, "arguments", text(call.arguments.clone()));
    let mut r = object();
    put(&mut r, "id", text(call.id.clone()));
    put(&mut r, "type", text("function".to_owned()));
    put(&mut r, "function", function);
    r
}

/// A list of calls on the wire.
fn calls_value(calls: &Vec<ToolCall>) -> (r: serde_json::Value)
    ensures
        tree(r) == calls_json(call_views(calls@)),
{
    let ghost wanted = call_views(calls@).map_values(|c: ToolCallModel| call_json(c));
    let mut items: Vec<serde_json::Value> = Vec::new();
    let mut i: usize = 0;
    while i < calls.len()
        invariant
            i <= calls@.len(),
            wanted == call_views(calls@).map_values(|c: ToolCallModel| call_json(c)),
            trees(items@) == wanted.take(i as int),
        decreases calls@.len() - i,
    {
        let value = call_value(&calls[i]);
        proof {
            lemma_trees_push(items@, value);
            assert(wanted.take(i + 1) =~= wanted.take(i as int).push(wanted[i as int]));
        }
        items.push(value);
        i += 1;
    }
    assert(wanted.take(i as int) =~= wanted);
    array(items)
}

/// A message that has a role and a text, on the wire.
fn spoken_value(role: &str, content: &str) -> (r: serde_json::Value)
    ensures
        tree(r) == spoken_json(role@, content@),
{
    let mut r = object();
    put(&mut r, "role", text(role.to_owned()));
    put(&mut r, "content", text(content.to_owned()));
    r
}

/// The model's part on the wire.
fn assistant_value(m: &AssistantMessage) -> (r: serde_json::Value)
    ensures
        tree(r) == assistant_json(m@),
{
    let mut r = object();
    put(&mut r, "role", text("assistant".to_owned()));
    if m.tool_calls.len() > 0 {
        put(&mut r, "tool_calls", calls_value(&m.tool_calls));
    }
    if let Some(content) = &m.content {
        put(&mut r, "content", text(content.clone()));
    }
    r
}

/// A message on the wire.
pub fn message_value(m: &Message) -> (r: serde_json::Value)
    ensures
        tree(r) == message_json(m@),
{
    match m {
        Message::System(s) => spoken_value("system", s.as_str()),
        Message::User(s) => spoken_value("user", s.as_str()),
        Message::Assistant(a) => assistant_value(a),
        Message::Tool { call_id, content } => {
            let mut r = object();
            put(&mut r, "role", text("tool".to_owned()));
            put(&mut r, "tool_call_id", text(call_id.clone()));
            put(&mut r, "content", text(content.clone()));
            r
        },
    }
}

/// A conversation on the wire.
pub fn messages_value(ms: &Vec<Message>) -> (r: serde_json::Value)
    ensures
        tree(r) == messages_json(message_views(ms@)),
{
    let ghost wanted = message_views(ms@).map_values(|m: MessageModel| message_json(m));
    let mut items: Vec<serde_json::Value> = Vec::new();
    let mut i: usize = 0;
    while i < ms.len()
        invariant
            i <= ms@.len(),
            wanted == message_views(ms@).map_values(|m: MessageModel| message_json(m)),
            trees(items@) == wanted.take(i as int),
        decreases ms@.len() - i,
    {
        let value = message_value(&ms[i]);
        proof {
            lemma_trees_push(items@, value);
            assert(wanted.take(i + 1) =~= wanted.take(i as int).push(wanted[i as int]));
        }
        items.push(value);
        i += 1;
    }
    assert(wanted.take(i as int) =~= wanted);
    array(items)
}

// ---- laws ---------------------------------------------------------------------------------

/// A message without calls is on the wire what its role and text say, and nothing else.
pub proof fn law_words_go_on_the_wire(s: Seq<char>, id: Seq<char>, key: Seq<char>)
    ensures
        ({
            let system = message_json(MessageModel::System(s));
            let user = message_json(MessageModel::User(s));
            let tool = message_json(MessageModel::Tool { call_id: id, content: s });
            &&& system.member("role"@) == Json::Text("system"@)
            &&& user.member("role"@) == Json::Text("user"@)
            &&& tool.member("role"@) == Json::Text("tool"@)
            &&& system.member("content"@) == Json::Text(s)
            &&& user.member("content"@) == Json::Text(s)
            &&& tool.member("content"@) == Json::Text(s)
            &&& tool.member("tool_call_id"@) == Json::Text(id)
            &&& key != "role"@ && key != "content"@ ==> system.member(key) == Json::Null
                && user.member(key) == Json::Null
            &&& key != "role"@ && key != "content"@ && key != "tool_call_id"@ ==> tool.member(key)
                == Json::Null
        }),
{
    reveal_strlit("role");
    reveal_strlit("content");
    reveal_strlit("tool_call_id");
    assert("role"@.len() == 4 && "content"@.len() == 7 && "tool_call_id"@.len() == 12);
}

/// What the model said goes on the wire as it is: its text where it has one, and its calls where it
/// has any, each with its id, its name and its arguments.
pub proof fn law_answers_go_on_the_wire(a: AssistantModel, key: Seq<char>)
    ensures
        ({
            let j = message_json(MessageModel::Assistant(a));
            &&& j.member("role"@) == Json::Text("assistant"@)
            &&& j.member("content"@) == match a.content {
                Some(c) => Json::Text(c),
                None => Json::Null,
            }
            &&& a.tool_calls.len() == 0 ==> j.member("tool_calls"@) == Json::Null
            &&& a.tool_calls.len() > 0 ==> (j.member("tool_calls"@) matches Json::Array(items)
                && items.len() == a.tool_calls.len() && forall|i: int|
                0 <= i < items.len() ==> (#[trigger] items[i]) == call_json(a.tool_calls[i]))
            &&& key != "role"@ && key != "content"@ && key != "tool_calls"@ ==> j.member(key)
                == Json::Null
        }),
{
    reveal_strlit("role");
    reveal_strlit("content");
    reveal_strlit("tool_calls");
    assert("role"@.len() == 4 && "content"@.len() == 7 && "tool_calls"@.len() == 10);
}

/// A call goes on the wire with its id, its name and its arguments as the model wrote them.
pub proof fn law_calls_go_on_the_wire(c: ToolCallModel, key: Seq<char>)
    ensures
        call_json(c).member("id"@) == Json::Text(c.id),
        call_json(c).member("type"@) == Json::Text("function"@),
        call_json(c).member("function"@).member("name"@) == Json::Text(c.name),
        call_json(c).member("function"@).member("arguments"@) == Json::Text(c.arguments),
        key != "id"@ && key != "type"@ && key != "function"@ ==> call_json(c).member(key)
            == Json::Null,
        key != "name"@ && key != "arguments"@ ==> call_json(c).member("function"@).member(key)
            == Json::Null,
{
    reveal_strlit("id");
    reveal_strlit("type");
    reveal_strlit("function");
    reveal_strlit("name");
    reveal_strlit("arguments");
    assert("id"@.len() == 2 && "type"@.len() == 4 && "function"@.len() == 8);
    assert("name"@.len() == 4 && "arguments"@.len() == 9);
}

/// A conversation goes on the wire message by message, in its order.
pub proof fn law_conversations_go_on_the_wire(ms: Seq<MessageModel>)
    ensures
        messages_json(ms) matches Json::Array(items) && items.len() == ms.len() && forall|i: int|
            0 <= i < ms.len() ==> #[trigger] items[i] == message_json(ms[i]),
{
}

/// A message holds what is written in it.
pub proof fn law_messages_hold_what_they_say(
    c: ToolCall,
    m: AssistantMessage,
    s: String,
    id: String,
)
    ensures
        c@.id == c.id@,
        c@.name == c.name@,
        c@.arguments == c.arguments@,
        m.content matches Some(t) ==> m@.content == Some(t@),
        m.content is None ==> m@.content is None,
        m@.tool_calls.len() == m.tool_calls@.len(),
        forall|i: int|
            0 <= i < m.tool_calls@.len() ==> #[trigger] m@.tool_calls[i] == m.tool_calls@[i]@,
        Message::System(s)@ == MessageModel::System(s@),
        Message::User(s)@ == MessageModel::User(s@),
        Message::Assistant(m)@ == MessageModel::Assistant(m@),
        (Message::Tool { call_id: id, content: s })@ == (MessageModel::Tool {
            call_id: id@,
            content: s@,
        }),
{
}

/// Lists of calls and of messages hold each of them, in order.
pub proof fn law_lists_hold_what_is_in_them(
    calls: Seq<ToolCall>,
    messages: Seq<Message>,
    s: String,
)
    ensures
        call_views(calls).len() == calls.len(),
        forall|i: int| 0 <= i < calls.len() ==> #[trigger] call_views(calls)[i] == calls[i]@,
        message_views(messages).len() == messages.len(),
        forall|i: int|
            0 <= i < messages.len() ==> #[trigger] message_views(messages)[i] == messages[i]@,
        optional(Some(s)) == Some(s@),
        optional(None) == None::<Seq<char>>,
{
}

} // verus!

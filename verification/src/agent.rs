//! One turn of the agent: the model is asked, its tool calls are carried out one by one, and the
//! tests decide when the work is done.
//!
//! [`Agent`] makes the decisions. It hands out [`Effect`]s; whoever drives it performs them in
//! order and reports what came of the last one as an [`Event`].

use crate::guard::{discards_uncommitted_changes, warning};
use crate::json::{text_or, tree};
use crate::message::{
    call_views, lemma_message_push, message_views, optional, AssistantMessage, AssistantModel,
    Message, MessageModel, ToolCall, ToolCallModel,
};
use crate::text::same;
use crate::tools::{
    announce, announced, arguments_json, block_told, list_told, listing, outcome, plan, plan_call,
    read_arguments, read_told, run_told, search_told, tell_block, tell_list, tell_read, tell_run,
    tell_search, tell_write, write_told, Plan, PlanModel,
};
use vstd::prelude::*;

verus! {

/// What the agent wants done. `Print` and `Warn` carry text for the output and for the error
/// output; the others, but for `Finish`, are answered by an event.
pub enum Effect {
    Print(String),
    Warn(String),
    Chat,
    ReadFile { path: String },
    ListDir { path: String },
    Search { command: String },
    WriteFile { path: String, content: String },
    Status,
    Run { command: String },
    Test,
    Finish(Result<String, String>),
}

/// What an [`Effect`] holds.
pub enum EffectModel {
    Print(Seq<char>),
    Warn(Seq<char>),
    Chat,
    ReadFile { path: Seq<char> },
    ListDir { path: Seq<char> },
    Search { command: Seq<char> },
    WriteFile { path: Seq<char>, content: Seq<char> },
    Status,
    Run { command: Seq<char> },
    Test,
    Finish(Result<Seq<char>, Seq<char>>),
}

impl View for Effect {
    type V = EffectModel;

    open spec fn view(&self) -> EffectModel {
        match self {
            Effect::Print(s) => EffectModel::Print(s@),
            Effect::Warn(s) => EffectModel::Warn(s@),
            Effect::Chat => EffectModel::Chat,
            Effect::ReadFile { path } => EffectModel::ReadFile { path: path@ },
            Effect::ListDir { path } => EffectModel::ListDir { path: path@ },
            Effect::Search { command } => EffectModel::Search { command: command@ },
            Effect::WriteFile { path, content } => EffectModel::WriteFile {
                path: path@,
                content: content@,
            },
            Effect::Status => EffectModel::Status,
            Effect::Run { command } => EffectModel::Run { command: command@ },
            Effect::Test => EffectModel::Test,
            Effect::Finish(r) => EffectModel::Finish(outcome(*r)),
        }
    }
}

/// What a list of effects holds.
pub open spec fn effect_views(effects: Seq<Effect>) -> Seq<EffectModel> {
    effects.map_values(|e: Effect| e@)
}

/// What came of an effect.
pub enum Event {
    /// The model's message, or why there is none.
    Chatted(Result<AssistantMessage, String>),
    /// The content of a file, or why it could not be read.
    Read(Result<String, String>),
    /// The names in a directory, or why it could not be listed.
    Listed(Result<Vec<String>, String>),
    /// The output of a search.
    Searched(String),
    /// Why a file could not be written, if it could not.
    Written(Option<String>),
    /// The exit code and the output of `git status --short`.
    Status { code: i32, output: String },
    /// The exit code and the output of a command.
    Ran { code: i32, output: String },
    /// The exit code of the tests.
    Tested(i32),
}

/// What an [`Event`] holds.
pub enum EventModel {
    Chatted(Result<AssistantModel, Seq<char>>),
    Read(Result<Seq<char>, Seq<char>>),
    Listed(Result<Seq<Seq<char>>, Seq<char>>),
    Searched(Seq<char>),
    Written(Option<Seq<char>>),
    Status { code: i32, output: Seq<char> },
    Ran { code: i32, output: Seq<char> },
    Tested(i32),
}

impl View for Event {
    type V = EventModel;

    open spec fn view(&self) -> EventModel {
        match self {
            Event::Chatted(r) => EventModel::Chatted(
                match r {
                    Ok(m) => Ok(m@),
                    Err(e) => Err(e@),
                },
            ),
            Event::Read(r) => EventModel::Read(outcome(*r)),
            Event::Listed(r) => EventModel::Listed(listing(*r)),
            Event::Searched(s) => EventModel::Searched(s@),
            Event::Written(e) => EventModel::Written(optional(*e)),
            Event::Status { code, output } => EventModel::Status { code: *code, output: output@ },
            Event::Ran { code, output } => EventModel::Ran { code: *code, output: output@ },
            Event::Tested(code) => EventModel::Tested(*code),
        }
    }
}

/// What the agent is waiting for.
enum Phase {
    Chatting,
    Reading,
    Listing,
    Searching,
    Writing { path: String },
    Guarding { command: String },
    Running,
    Testing,
    Finished,
}

/// What the agent is waiting for.
pub enum PhaseModel {
    Chatting,
    Reading,
    Listing,
    Searching,
    Writing { path: Seq<char> },
    Guarding { command: Seq<char> },
    Running,
    Testing,
    Finished,
}

impl Phase {
    spec fn model(self) -> PhaseModel {
        match self {
            Phase::Chatting => PhaseModel::Chatting,
            Phase::Reading => PhaseModel::Reading,
            Phase::Listing => PhaseModel::Listing,
            Phase::Searching => PhaseModel::Searching,
            Phase::Writing { path } => PhaseModel::Writing { path: path@ },
            Phase::Guarding { command } => PhaseModel::Guarding { command: command@ },
            Phase::Running => PhaseModel::Running,
            Phase::Testing => PhaseModel::Testing,
            Phase::Finished => PhaseModel::Finished,
        }
    }
}

/// A turn of the agent, as far as it has come.
pub struct Agent {
    messages: Vec<Message>,
    steps: usize,
    has_test: bool,
    edited: bool,
    calls: Vec<ToolCall>,
    at: usize,
    finished: Option<String>,
    phase: Phase,
}

/// What an [`Agent`] holds: the conversation; how many answers of the model it may still work
/// through, with the one at hand; whether there are tests; whether a file was written; the calls
/// of the answer at hand and how many of them are answered; the summary, if the model said that
/// it is done; and what is awaited.
pub struct AgentModel {
    pub messages: Seq<MessageModel>,
    pub steps: nat,
    pub has_test: bool,
    pub edited: bool,
    pub calls: Seq<ToolCallModel>,
    pub at: nat,
    pub finished: Option<Seq<char>>,
    pub phase: PhaseModel,
}

impl View for Agent {
    type V = AgentModel;

    closed spec fn view(&self) -> AgentModel {
        AgentModel {
            messages: message_views(self.messages@),
            steps: self.steps as nat,
            has_test: self.has_test,
            edited: self.edited,
            calls: call_views(self.calls@),
            at: self.at as nat,
            finished: optional(self.finished),
            phase: self.phase.model(),
        }
    }
}

impl AgentModel {
    /// A tool call is being carried out.
    pub open spec fn in_call(self) -> bool {
        match self.phase {
            PhaseModel::Chatting | PhaseModel::Testing | PhaseModel::Finished => false,
            _ => true,
        }
    }

    /// An agent that has not finished has a step left, and one that carries out a call has it at
    /// hand.
    pub open spec fn sound(self) -> bool {
        &&& self.phase !is Finished ==> self.steps > 0
        &&& self.at <= self.calls.len()
        &&& self.in_call() ==> self.at < self.calls.len()
    }

    /// The event answers what the agent asked for.
    pub open spec fn accepts(self, e: EventModel) -> bool {
        match self.phase {
            PhaseModel::Chatting => e is Chatted,
            PhaseModel::Reading => e is Read,
            PhaseModel::Listing => e is Listed,
            PhaseModel::Searching => e is Searched,
            PhaseModel::Writing { path } => e is Written,
            PhaseModel::Guarding { command } => e is Status,
            PhaseModel::Running => e is Ran,
            PhaseModel::Testing => e is Tested,
            PhaseModel::Finished => false,
        }
    }
}

/// Where an event leads: the agent behind it and what it wants done.
pub struct Turn {
    pub agent: AgentModel,
    pub effects: Seq<EffectModel>,
}

/// What is answered when the steps are used up.
pub const OUT_OF_STEPS: &'static str = "(reached max steps)";

/// What is answered when the tests pass behind an edit.
pub const VERIFIED: &'static str = "verified — tests pass";

/// The turn ends with a result.
pub open spec fn finish(
    a: AgentModel,
    out: Seq<EffectModel>,
    result: Result<Seq<char>, Seq<char>>,
) -> Turn {
    Turn {
        agent: AgentModel { phase: PhaseModel::Finished, ..a },
        effects: out.push(EffectModel::Finish(result)),
    }
}

/// The agent waits for what an effect brings.
pub open spec fn await_phase(
    a: AgentModel,
    out: Seq<EffectModel>,
    phase: PhaseModel,
    effect: EffectModel,
) -> Turn {
    Turn { agent: AgentModel { phase, ..a }, effects: out.push(effect) }
}

/// The model is asked, unless the steps are used up.
pub open spec fn begin(a: AgentModel, out: Seq<EffectModel>) -> Turn {
    if a.steps == 0 {
        finish(a, out, Ok(OUT_OF_STEPS@))
    } else {
        await_phase(a, out, PhaseModel::Chatting, EffectModel::Chat)
    }
}

/// The next step begins.
pub open spec fn next_step(a: AgentModel, out: Seq<EffectModel>) -> Turn {
    begin(AgentModel { steps: (a.steps - 1) as nat, ..a }, out)
}

/// All calls of an answer are carried out. If the model said that it is done, the turn ends; if a
/// file was written and there are tests, they decide; else the model is asked again.
pub open spec fn close_round(a: AgentModel, out: Seq<EffectModel>) -> Turn {
    match a.finished {
        Some(summary) => finish(
            a,
            out.push(EffectModel::Print("\x1b[32m  ✓ "@ + summary + "\x1b[0m\n"@)),
            Ok(summary),
        ),
        None => if a.edited && a.has_test {
            await_phase(a, out, PhaseModel::Testing, EffectModel::Test)
        } else {
            next_step(a, out)
        },
    }
}

/// The call at hand is answered, and the next one is at hand.
pub open spec fn answered(a: AgentModel, content: Seq<char>) -> AgentModel {
    let call = a.calls[a.at as int];
    AgentModel {
        messages: a.messages.push(MessageModel::Tool { call_id: call.id, content }),
        edited: a.edited || call.name == "write_file"@,
        finished: if call.name == "done"@ {
            Some(arguments_json(call.arguments).member("summary"@).text_or("done"@))
        } else {
            a.finished
        },
        at: a.at + 1,
        ..a
    }
}

/// The calls from the one at hand on are carried out, up to one that needs an action.
pub open spec fn advance(a: AgentModel, out: Seq<EffectModel>) -> Turn
    decreases a.calls.len() - a.at,
{
    if a.at >= a.calls.len() {
        close_round(a, out)
    } else {
        let call = a.calls[a.at as int];
        let args = arguments_json(call.arguments);
        let said = out.push(
            EffectModel::Print(announced(call.name, crate::json::written(args))),
        );
        match plan(call.name, args) {
            PlanModel::Read { path } => await_phase(
                a,
                said,
                PhaseModel::Reading,
                EffectModel::ReadFile { path },
            ),
            PlanModel::List { path } => await_phase(
                a,
                said,
                PhaseModel::Listing,
                EffectModel::ListDir { path },
            ),
            PlanModel::Search { command } => await_phase(
                a,
                said,
                PhaseModel::Searching,
                EffectModel::Search { command },
            ),
            PlanModel::Write { path, content } => await_phase(
                a,
                said,
                PhaseModel::Writing { path },
                EffectModel::WriteFile { path, content },
            ),
            PlanModel::Run { command } => await_phase(
                a,
                said,
                PhaseModel::Guarding { command },
                EffectModel::Status,
            ),
            PlanModel::Answer { text } => advance(answered(a, text), said),
        }
    }
}

/// The call at hand is answered and the calls behind it are carried out.
pub open spec fn resume(a: AgentModel, content: Seq<char>) -> Turn {
    advance(answered(a, content), Seq::empty())
}

/// A message of the model joins the conversation, and its calls are carried out. A message
/// without calls ends the turn.
pub open spec fn heard(a: AgentModel, m: AssistantModel) -> Turn {
    let b = AgentModel {
        messages: a.messages.push(MessageModel::Assistant(m)),
        calls: m.tool_calls,
        at: 0,
        finished: None,
        ..a
    };
    if m.tool_calls.len() == 0 {
        finish(
            b,
            Seq::empty(),
            Ok(
                match m.content {
                    Some(c) => c,
                    None => Seq::empty(),
                },
            ),
        )
    } else {
        advance(b, Seq::empty())
    }
}

/// Where an event leads.
pub open spec fn step(a: AgentModel, e: EventModel) -> Turn {
    match e {
        EventModel::Chatted(Ok(m)) => heard(a, m),
        EventModel::Chatted(Err(error)) => finish(
            a,
            seq![EffectModel::Warn("\x1b[31m✗ "@ + error + "\x1b[0m\n"@)],
            Err(error),
        ),
        EventModel::Read(r) => resume(a, read_told(r)),
        EventModel::Listed(r) => resume(a, list_told(r)),
        EventModel::Searched(output) => resume(a, search_told(output)),
        EventModel::Written(error) => resume(a, write_told(a.phase->path, error)),
        EventModel::Status { code, output } => match warning(a.phase->command, code, output) {
            Some(w) => resume(a, block_told(w)),
            None => await_phase(
                a,
                Seq::empty(),
                PhaseModel::Running,
                EffectModel::Run { command: a.phase->command },
            ),
        },
        EventModel::Ran { code, output } => resume(a, run_told(code, output)),
        EventModel::Tested(code) => if code == 0 {
            finish(a, Seq::empty(), Ok(VERIFIED@))
        } else {
            next_step(a, Seq::empty())
        },
    }
}

/// An agent that has not begun, with a conversation to carry on.
pub open spec fn fresh(messages: Seq<MessageModel>, max_steps: nat, has_test: bool) -> AgentModel {
    AgentModel {
        messages,
        steps: max_steps,
        has_test,
        edited: false,
        calls: Seq::empty(),
        at: 0,
        finished: None,
        phase: PhaseModel::Finished,
    }
}

/// Adds an effect.
fn emit(out: &mut Vec<Effect>, effect: Effect)
    ensures
        effect_views(final(out)@) == effect_views(old(out)@).push(effect@),
{
    let ghost before = out@;
    out.push(effect);
    assert(effect_views(out@) =~= effect_views(before).push(effect@));
}

/// No effects yet.
fn no_effects() -> (r: Vec<Effect>)
    ensures
        effect_views(r@) == Seq::<EffectModel>::empty(),
{
    let r: Vec<Effect> = Vec::new();
    assert(effect_views(r@) =~= Seq::<EffectModel>::empty());
    r
}

impl Agent {
    /// Begins a turn that carries on a conversation, with at most `max_steps` answers of the
    /// model; `has_test` tells whether there are tests that decide when the work is done.
    pub fn start(messages: Vec<Message>, max_steps: usize, has_test: bool) -> (r: (
        Agent,
        Vec<Effect>,
    ))
        ensures
            r.0@.sound(),
            lined_up(r.0@),
            (Turn { agent: r.0@, effects: effect_views(r.1@) }) == begin(
                fresh(message_views(messages@), max_steps as nat, has_test),
                Seq::empty(),
            ),
    {
        let mut agent = Agent {
            messages,
            steps: max_steps,
            has_test,
            edited: false,
            calls: Vec::new(),
            at: 0,
            finished: None,
            phase: Phase::Finished,
        };
        let mut out = no_effects();
        assert(call_views(agent.calls@) =~= Seq::empty());
        agent.ask(&mut out);
        (agent, out)
    }

    /// The conversation as it stands.
    pub fn messages(&self) -> (r: &Vec<Message>)
        ensures
            message_views(r@) == self@.messages,
    {
        &self.messages
    }

    /// Gives the conversation back.
    pub fn into_messages(self) -> (r: Vec<Message>)
        ensures
            message_views(r@) == self@.messages,
    {
        self.messages
    }

    /// Whether the turn has ended.
    pub fn is_finished(&self) -> (r: bool)
        ensures
            r == (self@.phase is Finished),
    {
        match self.phase {
            Phase::Finished => true,
            _ => false,
        }
    }

    /// Whether an event answers what the agent asked for.
    pub fn is_accepted(&self, event: &Event) -> (r: bool)
        ensures
            r == self@.accepts(event@),
    {
        match (&self.phase, event) {
            (Phase::Chatting, Event::Chatted(_)) => true,
            (Phase::Reading, Event::Read(_)) => true,
            (Phase::Listing, Event::Listed(_)) => true,
            (Phase::Searching, Event::Searched(_)) => true,
            (Phase::Writing { path: _ }, Event::Written(_)) => true,
            (Phase::Guarding { command: _ }, Event::Status { code: _, output: _ }) => true,
            (Phase::Running, Event::Ran { code: _, output: _ }) => true,
            (Phase::Testing, Event::Tested(_)) => true,
            _ => false,
        }
    }

    /// Ends the turn.
    fn end(&mut self, out: &mut Vec<Effect>, result: Result<String, String>)
        ensures
            (Turn { agent: final(self)@, effects: effect_views(final(out)@) }) == finish(
                old(self)@,
                effect_views(old(out)@),
                outcome(result),
            ),
    {
        emit(out, Effect::Finish(result));
        self.phase = Phase::Finished;
    }

    /// Asks the model, unless the steps are used up.
    fn ask(&mut self, out: &mut Vec<Effect>)
        ensures
            (Turn { agent: final(self)@, effects: effect_views(final(out)@) }) == begin(
                old(self)@,
                effect_views(old(out)@),
            ),
    {
        if self.steps == 0 {
            self.end(out, Ok(OUT_OF_STEPS.to_owned()));
        } else {
            emit(out, Effect::Chat);
            self.phase = Phase::Chatting;
        }
    }

    /// Begins the next step.
    fn ask_again(&mut self, out: &mut Vec<Effect>)
        requires
            old(self)@.steps > 0,
        ensures
            (Turn { agent: final(self)@, effects: effect_views(final(out)@) }) == next_step(
                old(self)@,
                effect_views(old(out)@),
            ),
    {
        self.steps = self.steps - 1;
        self.ask(out);
    }

    /// Goes on when all calls of an answer are carried out.
    fn close(&mut self, out: &mut Vec<Effect>)
        requires
            old(self)@.steps > 0,
        ensures
            (Turn { agent: final(self)@, effects: effect_views(final(out)@) }) == close_round(
                old(self)@,
                effect_views(old(out)@),
            ),
    {
        match &self.finished {
            Some(summary) => {
                let summary = summary.clone();
                let mut line = "\x1b[32m  ✓ ".to_owned();
                line.append(summary.as_str());
                line.append("\x1b[0m\n");
                emit(out, Effect::Print(line));
                self.end(out, Ok(summary));
            },
            None => {
                if self.edited && self.has_test {
                    emit(out, Effect::Test);
                    self.phase = Phase::Testing;
                } else {
                    self.ask_again(out);
                }
            },
        }
    }

    /// Answers the call at hand.
    fn answer(&mut self, content: String)
        requires
            old(self)@.at < old(self)@.calls.len(),
        ensures
            final(self)@ == answered(old(self)@, content@),
    {
        let ghost before = self.messages@;
        let i: usize = self.at;
        let reply = Message::Tool { call_id: self.calls[i].id.clone(), content };
        proof {
            lemma_message_push(before, reply);
        }
        self.messages.push(reply);
        if same(self.calls[i].name.as_str(), "write_file") {
            self.edited = true;
        }
        if same(self.calls[i].name.as_str(), "done") {
            let args = read_arguments(self.calls[i].arguments.as_str());
            self.finished = Some(text_or(&args, "summary", "done"));
        }
        assert(i < self.calls.len());
        self.at = i + 1;
    }

    /// Carries out the calls from the one at hand on, up to one that needs an action.
    fn go_on(&mut self, out: &mut Vec<Effect>)
        requires
            old(self)@.steps > 0,
            old(self)@.at <= old(self)@.calls.len(),
        ensures
            (Turn { agent: final(self)@, effects: effect_views(final(out)@) }) == advance(
                old(self)@,
                effect_views(old(out)@),
            ),
    {
        while self.at < self.calls.len()
            invariant
                self@.steps > 0,
                self@.at <= self@.calls.len(),
                advance(self@, effect_views(out@)) == advance(
                    old(self)@,
                    effect_views(old(out)@),
                ),
            decreases self.calls@.len() - self.at,
        {
            let i: usize = self.at;
            let args = read_arguments(self.calls[i].arguments.as_str());
            emit(out, Effect::Print(announce(self.calls[i].name.as_str(), &args)));
            match plan_call(self.calls[i].name.as_str(), &args) {
                Plan::Read { path } => {
                    emit(out, Effect::ReadFile { path });
                    self.phase = Phase::Reading;
                    return ;
                },
                Plan::List { path } => {
                    emit(out, Effect::ListDir { path });
                    self.phase = Phase::Listing;
                    return ;
                },
                Plan::Search { command } => {
                    emit(out, Effect::Search { command });
                    self.phase = Phase::Searching;
                    return ;
                },
                Plan::Write { path, content } => {
                    let target = path.clone();
                    emit(out, Effect::WriteFile { path, content });
                    self.phase = Phase::Writing { path: target };
                    return ;
                },
                Plan::Run { command } => {
                    emit(out, Effect::Status);
                    self.phase = Phase::Guarding { command };
                    return ;
                },
                Plan::Answer { text } => {
                    self.answer(text);
                },
            }
        }
        self.close(out);
    }

    /// Answers the call at hand and carries out those behind it.
    fn resume_with(&mut self, content: String) -> (r: Vec<Effect>)
        requires
            old(self)@.steps > 0,
            old(self)@.at < old(self)@.calls.len(),
        ensures
            (Turn { agent: final(self)@, effects: effect_views(r@) }) == resume(
                old(self)@,
                content@,
            ),
    {
        let mut out = no_effects();
        self.answer(content);
        self.go_on(&mut out);
        out
    }

    /// Takes a message of the model into the conversation and carries out its calls.
    fn hear(&mut self, m: AssistantMessage) -> (r: Vec<Effect>)
        requires
            old(self)@.steps > 0,
        ensures
            (Turn { agent: final(self)@, effects: effect_views(r@) }) == heard(old(self)@, m@),
    {
        let mut out = no_effects();
        let mut calls: Vec<ToolCall> = Vec::new();
        let mut i: usize = 0;
        while i < m.tool_calls.len()
            invariant
                i <= m.tool_calls@.len(),
                call_views(calls@) == call_views(m.tool_calls@).take(i as int),
            decreases m.tool_calls@.len() - i,
        {
            let call = ToolCall {
                id: m.tool_calls[i].id.clone(),
                name: m.tool_calls[i].name.clone(),
                arguments: m.tool_calls[i].arguments.clone(),
            };
            let ghost before = calls@;
            calls.push(call);
            assert(call_views(calls@) =~= call_views(before).push(call@));
            assert(call_views(m.tool_calls@).take(i + 1) =~= call_views(m.tool_calls@).take(
                i as int,
            ).push(call@));
            i += 1;
        }
        assert(call_views(m.tool_calls@).take(i as int) =~= call_views(m.tool_calls@));
        let content = match &m.content {
            Some(c) => c.clone(),
            None => String::new(),
        };
        let message = Message::Assistant(m);
        proof {
            lemma_message_push(self.messages@, message);
        }
        self.messages.push(message);
        self.calls = calls;
        self.at = 0;
        self.finished = None;
        if self.calls.len() == 0 {
            self.end(&mut out, Ok(content));
        } else {
            self.go_on(&mut out);
        }
        out
    }

    /// Takes in what came of the last effect and tells what to do next.
    pub fn step(&mut self, event: Event) -> (r: Vec<Effect>)
        requires
            old(self)@.sound(),
            old(self)@.accepts(event@),
        ensures
            (Turn { agent: final(self)@, effects: effect_views(r@) }) == step(
                old(self)@,
                event@,
            ),
            final(self)@.sound(),
    {
        proof {
            law_step_keeps_sound(self@, event@);
        }
        match event {
            Event::Chatted(Ok(m)) => self.hear(m),
            Event::Chatted(Err(error)) => {
                let mut out = no_effects();
                let mut line = "\x1b[31m✗ ".to_owned();
                line.append(error.as_str());
                line.append("\x1b[0m\n");
                let ghost warned = line@;
                emit(&mut out, Effect::Warn(line));
                assert(effect_views(out@) =~= seq![EffectModel::Warn(warned)]);
                self.end(&mut out, Err(error));
                out
            },
            Event::Read(r) => self.resume_with(tell_read(&r)),
            Event::Listed(r) => self.resume_with(tell_list(r)),
            Event::Searched(output) => self.resume_with(tell_search(output.as_str())),
            Event::Written(error) => {
                let path = match &self.phase {
                    Phase::Writing { path } => path.clone(),
                    _ => String::new(),
                };
                self.resume_with(tell_write(path.as_str(), &error))
            },
            Event::Status { code, output } => {
                let command = match &self.phase {
                    Phase::Guarding { command } => command.clone(),
                    _ => String::new(),
                };
                match discards_uncommitted_changes(command.as_str(), code, output.as_str()) {
                    Some(w) => self.resume_with(tell_block(w.as_str())),
                    None => {
                        let mut out = no_effects();
                        emit(&mut out, Effect::Run { command });
                        self.phase = Phase::Running;
                        out
                    },
                }
            },
            Event::Ran { code, output } => self.resume_with(tell_run(code, output.as_str())),
            Event::Tested(code) => {
                let mut out = no_effects();
                if code == 0 {
                    self.end(&mut out, Ok(VERIFIED.to_owned()));
                } else {
                    self.ask_again(&mut out);
                }
                out
            },
        }
    }
}

// ---- laws ---------------------------------------------------------------------------------

/// The agent with the call at hand answered in a way that needs no action, and what it has said
/// by then. `None` where the call needs an action or where no call is left.
pub open spec fn answered_at_once(a: AgentModel) -> Option<AgentModel> {
    if a.at < a.calls.len() {
        match plan(a.calls[a.at as int].name, arguments_json(a.calls[a.at as int].arguments)) {
            PlanModel::Answer { text } => Some(answered(a, text)),
            _ => None,
        }
    } else {
        None
    }
}

/// What is said of the call at hand.
pub open spec fn said_of(a: AgentModel, out: Seq<EffectModel>) -> Seq<EffectModel> {
    let call = a.calls[a.at as int];
    out.push(
        EffectModel::Print(
            announced(call.name, crate::json::written(arguments_json(call.arguments))),
        ),
    )
}

proof fn lemma_advance_sound(a: AgentModel, out: Seq<EffectModel>)
    requires
        a.steps > 0,
        a.at <= a.calls.len(),
    ensures
        advance(a, out).agent.sound(),
    decreases a.calls.len() - a.at,
{
    if let Some(b) = answered_at_once(a) {
        lemma_advance_sound(b, said_of(a, out));
    }
}

/// The agent from which a step carries out calls, if it does: the calls at hand and behind it are
/// then carried out from there.
pub open spec fn entered(a: AgentModel, e: EventModel) -> Option<AgentModel> {
    match e {
        EventModel::Chatted(Ok(m)) => if m.tool_calls.len() > 0 {
            Some(
                AgentModel {
                    messages: a.messages.push(MessageModel::Assistant(m)),
                    calls: m.tool_calls,
                    at: 0,
                    finished: None,
                    ..a
                },
            )
        } else {
            None
        },
        EventModel::Chatted(Err(_)) => None,
        EventModel::Read(r) => Some(answered(a, read_told(r))),
        EventModel::Listed(r) => Some(answered(a, list_told(r))),
        EventModel::Searched(output) => Some(answered(a, search_told(output))),
        EventModel::Written(error) => Some(answered(a, write_told(a.phase->path, error))),
        EventModel::Status { code, output } => match warning(a.phase->command, code, output) {
            Some(w) => Some(answered(a, block_told(w))),
            None => None,
        },
        EventModel::Ran { code, output } => Some(answered(a, run_told(code, output))),
        EventModel::Tested(_) => None,
    }
}

/// An agent stays sound whatever is reported to it.
pub proof fn law_step_keeps_sound(a: AgentModel, e: EventModel)
    requires
        a.sound(),
        a.accepts(e),
    ensures
        step(a, e).agent.sound(),
{
    if let Some(b) = entered(a, e) {
        lemma_advance_sound(b, Seq::empty());
    }
}

/// No effect runs a command of the model's.
pub open spec fn runs_nothing(effects: Seq<EffectModel>) -> bool {
    forall|i: int| 0 <= i < effects.len() ==> !(#[trigger] effects[i] is Run)
}

proof fn lemma_advance_runs_nothing(a: AgentModel, out: Seq<EffectModel>)
    requires
        runs_nothing(out),
    ensures
        runs_nothing(advance(a, out).effects),
    decreases a.calls.len() - a.at,
{
    if let Some(b) = answered_at_once(a) {
        lemma_advance_runs_nothing(b, said_of(a, out));
    }
}

/// A command of the model's is run only when the state of the repository was asked for just
/// before and gave no warning about that very command: nothing uncommitted is discarded.
pub proof fn law_commands_are_guarded(a: AgentModel, e: EventModel, i: int)
    requires
        a.sound(),
        a.accepts(e),
        0 <= i < step(a, e).effects.len(),
        step(a, e).effects[i] is Run,
    ensures
        a.phase is Guarding,
        e is Status,
        step(a, e).effects[i]->Run_command == a.phase->command,
        warning(a.phase->command, e->Status_code, e->Status_output) is None,
{
    if let Some(b) = entered(a, e) {
        assert(runs_nothing(Seq::<EffectModel>::empty()));
        lemma_advance_runs_nothing(b, Seq::empty());
    }
}

/// A command that is warned about is not run: the model is told why instead.
pub proof fn law_warned_commands_are_answered(a: AgentModel, code: i32, output: Seq<char>)
    requires
        a.sound(),
        a.accepts(EventModel::Status { code, output }),
        warning(a.phase->command, code, output) is Some,
    ensures
        runs_nothing(step(a, EventModel::Status { code, output }).effects),
        ({
            let told = MessageModel::Tool {
                call_id: a.calls[a.at as int].id,
                content: block_told(warning(a.phase->command, code, output)->0),
            };
            a.messages.push(told).is_prefix_of(
                step(a, EventModel::Status { code, output }).agent.messages,
            )
        }),
{
    let b = answered(a, block_told(warning(a.phase->command, code, output)->0));
    assert(runs_nothing(Seq::<EffectModel>::empty()));
    lemma_advance_runs_nothing(b, Seq::empty());
    lemma_advance_messages(b, Seq::empty());
}

/// The messages of `b` are those of `a` with further ones behind them, none of them a system
/// message.
pub open spec fn continues(a: Seq<MessageModel>, b: Seq<MessageModel>) -> bool {
    &&& a.is_prefix_of(b)
    &&& forall|i: int| a.len() <= i < b.len() ==> !(#[trigger] b[i] is System)
}

proof fn lemma_advance_messages(a: AgentModel, out: Seq<EffectModel>)
    ensures
        continues(a.messages, advance(a, out).agent.messages),
    decreases a.calls.len() - a.at,
{
    if let Some(b) = answered_at_once(a) {
        lemma_advance_messages(b, said_of(a, out));
        let end = advance(a, out).agent.messages;
        assert(b.messages =~= end.subrange(0, b.messages.len() as int));
        assert forall|i: int| 0 <= i < a.messages.len() implies a.messages[i] == end[i] by {
            assert(b.messages[i] == end.subrange(0, b.messages.len() as int)[i]);
        }
        assert(a.messages =~= end.subrange(0, a.messages.len() as int));
        assert forall|i: int| a.messages.len() <= i < end.len() implies !(
        #[trigger] end[i] is System) by {
            if i == a.messages.len() {
                assert(b.messages[i] == end.subrange(0, b.messages.len() as int)[i]);
            }
        }
    } else {
        assert(a.messages =~= a.messages.subrange(0, a.messages.len() as int));
    }
}

/// A conversation that begins with a system message and has no other.
pub open spec fn led(messages: Seq<MessageModel>) -> bool {
    &&& messages.len() > 0
    &&& messages[0] is System
    &&& forall|i: int| 0 < i < messages.len() ==> !(#[trigger] messages[i] is System)
}

/// A turn only adds to the conversation, and never a system message.
pub proof fn law_conversation_continues(a: AgentModel, e: EventModel)
    requires
        a.sound(),
        a.accepts(e),
    ensures
        continues(a.messages, step(a, e).agent.messages),
{
    let end = step(a, e).agent.messages;
    if let Some(b) = entered(a, e) {
        lemma_advance_messages(b, Seq::empty());
        assert forall|i: int| 0 <= i < a.messages.len() implies a.messages[i] == end[i] by {
            assert(b.messages[i] == end.subrange(0, b.messages.len() as int)[i]);
        }
        assert(a.messages =~= end.subrange(0, a.messages.len() as int));
        assert forall|i: int| a.messages.len() <= i < end.len() implies !(
        #[trigger] end[i] is System) by {
            if i == a.messages.len() {
                assert(b.messages[i] == end.subrange(0, b.messages.len() as int)[i]);
            }
        }
    } else {
        assert(a.messages =~= end.subrange(0, a.messages.len() as int));
    }
}

/// The system message stays the first and only one, as the model's template demands.
pub proof fn law_one_leading_system_message(a: AgentModel, e: EventModel)
    requires
        a.sound(),
        a.accepts(e),
        led(a.messages),
    ensures
        led(step(a, e).agent.messages),
{
    law_conversation_continues(a, e);
    let end = step(a, e).agent.messages;
    assert(a.messages[0] == end.subrange(0, a.messages.len() as int)[0]);
    assert forall|i: int| 0 < i < end.len() implies !(#[trigger] end[i] is System) by {
        if i < a.messages.len() {
            assert(a.messages[i] == end.subrange(0, a.messages.len() as int)[i]);
        }
    }
}

/// The calls at hand are those of the last message of the model, and behind it stand the answers
/// to those that were carried out, each under the id of its call.
pub open spec fn calls_lined_up(a: AgentModel) -> bool {
    let n = a.messages.len() - a.at;
    a.calls.len() > 0 ==> {
        &&& n > 0
        &&& a.messages[n - 1] is Assistant
        &&& a.messages[n - 1]->Assistant_0.tool_calls == a.calls
        &&& forall|k: int|
            0 <= k < a.at ==> (#[trigger] a.messages[n + k]) is Tool && a.messages[n
                + k]->call_id == a.calls[k].id
    }
}

/// The calls are lined up, and all of them are answered when the model is asked again or the tests
/// are run.
pub open spec fn lined_up(a: AgentModel) -> bool {
    &&& calls_lined_up(a)
    &&& a.phase is Chatting || a.phase is Testing ==> a.at == a.calls.len()
}

proof fn lemma_answered_lined_up(a: AgentModel, content: Seq<char>)
    requires
        a.at < a.calls.len(),
        calls_lined_up(a),
    ensures
        calls_lined_up(answered(a, content)),
{
    let b = answered(a, content);
    let n = a.messages.len() - a.at;
    assert(b.messages[n - 1] == a.messages[n - 1]);
    assert forall|k: int| 0 <= k < b.at implies (#[trigger] b.messages[n + k]) is Tool
        && b.messages[n + k]->call_id == b.calls[k].id by {
        if k < a.at {
            assert(b.messages[n + k] == a.messages[n + k]);
        }
    }
}

proof fn lemma_advance_lined_up(a: AgentModel, out: Seq<EffectModel>)
    requires
        a.at <= a.calls.len(),
        calls_lined_up(a),
    ensures
        lined_up(advance(a, out).agent),
    decreases a.calls.len() - a.at,
{
    if let Some(b) = answered_at_once(a) {
        let call = a.calls[a.at as int];
        lemma_answered_lined_up(a, plan(call.name, arguments_json(call.arguments))->text);
        lemma_advance_lined_up(b, said_of(a, out));
    }
}

/// Every tool call is answered once, in the order of the calls and under its own id, before the
/// model is asked again.
pub proof fn law_calls_are_answered(a: AgentModel, e: EventModel)
    requires
        a.sound(),
        a.accepts(e),
        lined_up(a),
    ensures
        lined_up(step(a, e).agent),
{
    if let Some(b) = entered(a, e) {
        if !(e is Chatted) {
            lemma_answered_lined_up(a, b.messages.last()->Tool_content);
        }
        lemma_advance_lined_up(b, Seq::empty());
    }
}

/// How often the model is asked in a list of effects.
pub open spec fn chats(effects: Seq<EffectModel>) -> nat
    decreases effects.len(),
{
    if effects.len() == 0 {
        0
    } else {
        chats(effects.drop_last()) + if effects.last() is Chat {
            1nat
        } else {
            0
        }
    }
}

/// How often an agent can still ask the model.
pub open spec fn chats_left(a: AgentModel) -> nat {
    if a.phase is Finished || a.steps == 0 {
        0
    } else {
        (a.steps - 1) as nat
    }
}

proof fn lemma_chats_push(effects: Seq<EffectModel>, e: EffectModel)
    ensures
        chats(effects.push(e)) == chats(effects) + if e is Chat {
            1nat
        } else {
            0
        },
{
    assert(effects.push(e).drop_last() =~= effects);
}

proof fn lemma_next_step_chats(a: AgentModel, out: Seq<EffectModel>)
    requires
        a.steps > 0,
    ensures
        chats(next_step(a, out).effects) + chats_left(next_step(a, out).agent) <= chats(out)
            + a.steps - 1,
{
    lemma_chats_push(out, EffectModel::Chat);
    lemma_chats_push(out, EffectModel::Finish(Ok(OUT_OF_STEPS@)));
}

proof fn lemma_advance_chats(a: AgentModel, out: Seq<EffectModel>)
    requires
        a.steps > 0,
    ensures
        chats(advance(a, out).effects) + chats_left(advance(a, out).agent) <= chats(out) + a.steps
            - 1,
    decreases a.calls.len() - a.at,
{
    if let Some(b) = answered_at_once(a) {
        let said = said_of(a, out);
        lemma_chats_push(out, said.last());
        lemma_advance_chats(b, said);
    } else if a.at < a.calls.len() {
        let said = said_of(a, out);
        lemma_chats_push(out, said.last());
        let all = advance(a, out).effects;
        assert(all.drop_last() =~= said);
        lemma_chats_push(said, all.last());
        assert(all =~= said.push(all.last()));
    } else {
        match a.finished {
            Some(summary) => {
                let all = advance(a, out).effects;
                let printed = all.drop_last();
                assert(printed.drop_last() =~= out);
                assert(all =~= out.push(printed.last()).push(all.last()));
                lemma_chats_push(out, printed.last());
                lemma_chats_push(out.push(printed.last()), all.last());
            },
            None => {
                lemma_chats_push(out, EffectModel::Test);
                lemma_next_step_chats(a, out);
            },
        }
    }
}

/// A step asks the model no more often than the steps allow: what it asks and what can still be
/// asked behind it is no more than could be asked before it.
pub proof fn law_step_spends_chats(a: AgentModel, e: EventModel)
    requires
        a.sound(),
        a.accepts(e),
    ensures
        chats(step(a, e).effects) + chats_left(step(a, e).agent) <= chats_left(a),
{
    let none = Seq::<EffectModel>::empty();
    if let Some(b) = entered(a, e) {
        lemma_advance_chats(b, none);
    } else {
        let all = step(a, e).effects;
        if e is Tested {
            lemma_next_step_chats(a, none);
        }
        if all.len() > 0 {
            lemma_chats_push(all.drop_last(), all.last());
            assert(all =~= all.drop_last().push(all.last()));
            if e is Chatted && all.len() == 2 {
                let front = all.drop_last();
                assert(front.drop_last() =~= none);
            } else {
                assert(all.drop_last() =~= none);
            }
        }
    }
}

/// The events can be reported one after the other.
pub open spec fn accepts_all(a: AgentModel, events: Seq<EventModel>) -> bool
    decreases events.len(),
{
    events.len() > 0 ==> a.accepts(events[0]) && accepts_all(
        step(a, events[0]).agent,
        events.drop_first(),
    )
}

/// All that an agent wants done while events are reported to it.
pub open spec fn effects_of(a: AgentModel, events: Seq<EventModel>) -> Seq<EffectModel>
    decreases events.len(),
{
    if events.len() == 0 {
        Seq::empty()
    } else {
        step(a, events[0]).effects + effects_of(step(a, events[0]).agent, events.drop_first())
    }
}

proof fn lemma_chats_join(x: Seq<EffectModel>, y: Seq<EffectModel>)
    ensures
        chats(x + y) == chats(x) + chats(y),
    decreases y.len(),
{
    if y.len() == 0 {
        assert(x + y =~= x);
    } else {
        lemma_chats_join(x, y.drop_last());
        assert((x + y).drop_last() =~= x + y.drop_last());
    }
}

proof fn lemma_run_spends_chats(a: AgentModel, events: Seq<EventModel>)
    requires
        a.sound(),
        accepts_all(a, events),
    ensures
        chats(effects_of(a, events)) <= chats_left(a),
    decreases events.len(),
{
    if events.len() > 0 {
        let t = step(a, events[0]);
        law_step_keeps_sound(a, events[0]);
        law_step_spends_chats(a, events[0]);
        lemma_run_spends_chats(t.agent, events.drop_first());
        lemma_chats_join(t.effects, effects_of(t.agent, events.drop_first()));
    }
}

/// In a whole turn the model is asked at most `max_steps` times, whatever it answers.
pub proof fn law_turn_is_bounded(
    messages: Seq<MessageModel>,
    max_steps: nat,
    has_test: bool,
    events: Seq<EventModel>,
)
    requires
        accepts_all(
            begin(fresh(messages, max_steps, has_test), Seq::empty()).agent,
            events,
        ),
    ensures
        ({
            let first = begin(fresh(messages, max_steps, has_test), Seq::empty());
            chats(first.effects) + chats(effects_of(first.agent, events)) <= max_steps
        }),
{
    let first = begin(fresh(messages, max_steps, has_test), Seq::empty());
    lemma_run_spends_chats(first.agent, events);
    lemma_chats_push(Seq::empty(), first.effects.last());
    assert(first.effects =~= Seq::empty().push(first.effects.last()));
}

/// The tests are run only when there are any, a file was written and the model did not say that
/// it is done.
pub proof fn law_tests_follow_edits(a: AgentModel, e: EventModel)
    requires
        a.sound(),
        a.accepts(e),
        step(a, e).agent.phase is Testing,
    ensures
        step(a, e).agent.has_test,
        step(a, e).agent.edited,
        step(a, e).agent.finished is None,
{
    if let Some(b) = entered(a, e) {
        lemma_advance_tests(b, Seq::empty());
    }
}

proof fn lemma_advance_tests(a: AgentModel, out: Seq<EffectModel>)
    ensures
        advance(a, out).agent.phase is Testing ==> advance(a, out).agent.has_test && advance(
            a,
            out,
        ).agent.edited && advance(a, out).agent.finished is None,
    decreases a.calls.len() - a.at,
{
    if let Some(b) = answered_at_once(a) {
        lemma_advance_tests(b, said_of(a, out));
    }
}

/// When the tests pass the turn ends at once, and when they fail it goes on or runs out of steps.
pub proof fn law_tests_decide(a: AgentModel, code: i32)
    requires
        a.sound(),
        a.accepts(EventModel::Tested(code)),
    ensures
        code == 0 ==> step(a, EventModel::Tested(code)).effects == seq![
            EffectModel::Finish(Ok(VERIFIED@)),
        ],
        code != 0 ==> step(a, EventModel::Tested(code)).effects == seq![
            if a.steps > 1 {
                EffectModel::Chat
            } else {
                EffectModel::Finish(Ok(OUT_OF_STEPS@))
            },
        ],
{
    let all = step(a, EventModel::Tested(code)).effects;
    assert(all =~= seq![all[0]]);
}

/// What a turn ends with when all calls of an answer are carried out: the summary where the model
/// said that it is done, or that the steps are used up.
pub open spec fn ends_with(a: AgentModel, result: Result<Seq<char>, Seq<char>>) -> bool {
    match result {
        Ok(text) => a.finished == Some(text) || a.steps == 0 && text == OUT_OF_STEPS@,
        Err(_) => false,
    }
}

proof fn lemma_advance_ends(a: AgentModel, out: Seq<EffectModel>)
    requires
        a.steps > 0,
    ensures
        advance(a, out).effects.len() > 0,
        advance(a, out).effects.last() is Finish <==> advance(a, out).agent.phase is Finished,
        advance(a, out).effects.last() matches EffectModel::Finish(r) ==> ends_with(
            advance(a, out).agent,
            r,
        ),
    decreases a.calls.len() - a.at,
{
    if let Some(b) = answered_at_once(a) {
        lemma_advance_ends(b, said_of(a, out));
    }
}

/// A turn ends just when the last effect of a step says so, and there are five ways: a request
/// fails, and the error is shown first; the model answers without a call, and its words are the
/// result; it says that it is done, and its summary is the result; the tests pass; or the steps
/// are used up.
pub proof fn law_turn_ends(a: AgentModel, e: EventModel)
    requires
        a.sound(),
        a.accepts(e),
    ensures
        step(a, e).effects.len() > 0,
        step(a, e).effects.last() is Finish <==> step(a, e).agent.phase is Finished,
        step(a, e).effects.last() matches EffectModel::Finish(Err(error)) ==> e
            == EventModel::Chatted(Err::<AssistantModel, Seq<char>>(error)) && step(a, e).effects[0]
            == EffectModel::Warn("\x1b[31m✗ "@ + error + "\x1b[0m\n"@),
        step(a, e).effects.last() matches EffectModel::Finish(Ok(text)) ==> {
            ||| e matches EventModel::Chatted(Ok(m)) && m.tool_calls.len() == 0 && text == (
            match m.content {
                Some(c) => c,
                None => Seq::empty(),
            })
            ||| e == EventModel::Tested(0) && text == VERIFIED@
            ||| ends_with(step(a, e).agent, Ok(text))
        },
{
    if let Some(b) = entered(a, e) {
        lemma_advance_ends(b, Seq::empty());
    }
}

} // verus!

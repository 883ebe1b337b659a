//! What a turn of the agent does, event by event and as a whole: laws of [`crate::agent`] that speak
//! of the calls, of what the model is told, and of the steps.

use crate::agent::{
    accepts_all, advance, answered, begin, chats, effect_views, effects_of, fresh, law_step_keeps_sound, step,
    AgentModel, Effect, EffectModel, Event, EventModel, PhaseModel, Turn,
};
use crate::guard::warning;
use crate::json::{written, Json};
use crate::message::{AssistantMessage, AssistantModel, MessageModel, ToolCallModel};
use crate::text::views;
use crate::tools::{
    announced, argument, arguments_json, block_told, law_tools_do_what_they_are_called, list_told,
    plan, quoted, read_told, run_told, search_told, write_told, PlanModel,
};
use vstd::prelude::*;

verus! {

// ---- one call -----------------------------------------------------------------------------

/// A text among the arguments of a call.
pub open spec fn given(call: ToolCallModel, key: Seq<char>) -> Seq<char> {
    argument(arguments_json(call.arguments), key)
}

/// A call that needs an action in the repository.
pub open spec fn acts(call: ToolCallModel) -> bool {
    call.name == "read_file"@ || call.name == "list_dir"@ || call.name == "grep"@ || call.name
        == "write_file"@ || call.name == "run"@
}

/// What a call that needs no action is answered.
pub open spec fn word(call: ToolCallModel) -> Seq<char> {
    if call.name == "done"@ {
        "done: "@ + given(call, "summary"@)
    } else {
        "unknown tool: "@ + call.name
    }
}

/// The effect and the phase are those that a call needs: its file is read, its directory listed, its
/// pattern searched for, its content written, or the state of the repository asked for before its
/// command.
pub open spec fn suits(call: ToolCallModel, effect: EffectModel, phase: PhaseModel) -> bool {
    &&& call.name == "read_file"@ ==> effect == (EffectModel::ReadFile {
        path: given(call, "path"@),
    }) && phase == PhaseModel::Reading
    &&& call.name == "list_dir"@ ==> effect == (EffectModel::ListDir {
        path: given(call, "path"@),
    }) && phase == PhaseModel::Listing
    &&& call.name == "grep"@ ==> effect == (EffectModel::Search {
        command: "grep -rn "@ + quoted(given(call, "pattern"@)) + " . 2>/dev/null | head -40"@,
    }) && phase == PhaseModel::Searching
    &&& call.name == "write_file"@ ==> effect == (EffectModel::WriteFile {
        path: given(call, "path"@),
        content: given(call, "content"@),
    }) && phase == (PhaseModel::Writing { path: given(call, "path"@) })
    &&& call.name == "run"@ ==> effect == EffectModel::Status && phase == (PhaseModel::Guarding {
        command: given(call, "cmd"@),
    })
}

/// What announces a call.
pub open spec fn announces(call: ToolCallModel) -> EffectModel {
    EffectModel::Print(announced(call.name, written(arguments_json(call.arguments))))
}

/// The summary that a call gives, where it says that the work is done.
pub open spec fn summary(call: ToolCallModel) -> Seq<char> {
    match arguments_json(call.arguments).member("summary"@) {
        Json::Text(t) => t,
        _ => "done"@,
    }
}

/// The summary of the last of the calls from `from` to `to` that says that the work is done, or `was`
/// where none does.
pub open spec fn last_summary(
    calls: Seq<ToolCallModel>,
    from: int,
    to: int,
    was: Option<Seq<char>>,
) -> Option<Seq<char>>
    decreases to - from,
{
    if from >= to {
        was
    } else if calls[to - 1].name == "done"@ {
        Some(summary(calls[to - 1]))
    } else {
        last_summary(calls, from, to - 1, was)
    }
}

proof fn lemma_summary_first(
    calls: Seq<ToolCallModel>,
    from: int,
    to: int,
    was: Option<Seq<char>>,
)
    requires
        from < to,
    ensures
        last_summary(calls, from, to, was) == last_summary(
            calls,
            from + 1,
            to,
            if calls[from].name == "done"@ {
                Some(summary(calls[from]))
            } else {
                was
            },
        ),
    decreases to - from,
{
    if from + 1 == to {
        assert(last_summary(calls, from, from, was) == was);
    } else if calls[to - 1].name != "done"@ {
        lemma_summary_first(calls, from, to - 1, was);
    }
}

// ---- the calls of an answer ---------------------------------------------------------------

/// The agent with the call at hand answered.
pub open spec fn told(a: AgentModel, content: Seq<char>) -> AgentModel {
    let call = a.calls[a.at as int];
    AgentModel {
        messages: a.messages.push(MessageModel::Tool { call_id: call.id, content }),
        edited: a.edited || call.name == "write_file"@,
        finished: if call.name == "done"@ {
            Some(summary(call))
        } else {
            a.finished
        },
        at: a.at + 1,
        ..a
    }
}

/// From an agent on, the calls that need no action are answered, each in its turn, up to the first
/// that needs one; every call is announced as it comes up.
pub open spec fn answers_calls(a: AgentModel, t: Turn) -> bool {
    let end = t.agent.at as int;
    let seen = if end < a.calls.len() {
        end + 1
    } else {
        end
    };
    &&& a.at <= end <= a.calls.len()
    &&& t.agent.calls == a.calls
    &&& t.agent.has_test == a.has_test
    &&& t.agent.edited == a.edited
    &&& t.agent.finished == last_summary(a.calls, a.at as int, end, a.finished)
    &&& t.agent.messages.len() == a.messages.len() + (end - a.at)
    &&& forall|k: int| 0 <= k < a.messages.len() ==> #[trigger] t.agent.messages[k] == a.messages[k]
    &&& forall|k: int|
        a.at <= k < end ==> !acts(#[trigger] a.calls[k]) && t.agent.messages[a.messages.len() + (k
            - a.at)] == (MessageModel::Tool { call_id: a.calls[k].id, content: word(a.calls[k]) })
    &&& t.effects.len() > seen - a.at
    &&& forall|k: int|
        a.at <= k < seen ==> t.effects[k - a.at] == announces(#[trigger] a.calls[k])
}

/// What comes behind the calls that were answered: the action that the next one needs; or, where none
/// is left, the end with the summary if the model said that it is done, the tests if a file was
/// written and there are any, and else the next question, unless this was the last step.
pub open spec fn goes_on(a: AgentModel, t: Turn) -> bool {
    let end = t.agent.at as int;
    let n = end - a.at;
    if end < a.calls.len() {
        &&& acts(a.calls[end])
        &&& t.effects.len() == n + 2
        &&& suits(a.calls[end], t.effects[n + 1], t.agent.phase)
        &&& t.agent.steps == a.steps
    } else {
        match t.agent.finished {
            Some(summary) => {
                &&& t.effects.len() == n + 2
                &&& t.effects[n] == EffectModel::Print("\x1b[32m  ✓ "@ + summary + "\x1b[0m\n"@)
                &&& t.effects[n + 1] == EffectModel::Finish(Ok(summary))
                &&& t.agent.phase == PhaseModel::Finished
                &&& t.agent.steps == a.steps
            },
            None => {
                &&& t.effects.len() == n + 1
                &&& if a.edited && a.has_test {
                    &&& t.effects[n] == EffectModel::Test
                    &&& t.agent.phase == PhaseModel::Testing
                    &&& t.agent.steps == a.steps
                } else if a.steps > 1 {
                    &&& t.effects[n] == EffectModel::Chat
                    &&& t.agent.phase == PhaseModel::Chatting
                    &&& t.agent.steps == a.steps - 1
                } else {
                    &&& t.effects[n] == EffectModel::Finish(Ok("(reached max steps)"@))
                    &&& t.agent.phase == PhaseModel::Finished
                    &&& t.agent.steps == 0
                }
            },
        }
    }
}

/// The turn without the effects that were there before.
pub open spec fn behind(t: Turn, out: Seq<EffectModel>) -> Turn {
    Turn { agent: t.agent, effects: t.effects.skip(out.len() as int) }
}

proof fn lemma_plan(call: ToolCallModel)
    ensures
        acts(call) <==> !(plan(call.name, arguments_json(call.arguments)) is Answer),
        !acts(call) ==> plan(call.name, arguments_json(call.arguments)) == (PlanModel::Answer {
            text: word(call),
        }),
{
    law_tools_do_what_they_are_called(call.name, arguments_json(call.arguments));
    reveal_strlit("read_file");
    reveal_strlit("list_dir");
    reveal_strlit("grep");
    reveal_strlit("write_file");
    reveal_strlit("run");
    reveal_strlit("done");
    assert("read_file"@.len() == 9 && "list_dir"@.len() == 8 && "grep"@.len() == 4);
    assert("write_file"@.len() == 10 && "run"@.len() == 3 && "done"@.len() == 4);
    assert("grep"@[0] == 'g' && "done"@[0] == 'd');
}

proof fn lemma_acts(a: AgentModel, out: Seq<EffectModel>)
    requires
        a.at < a.calls.len(),
        acts(a.calls[a.at as int]),
    ensures
        answers_calls(a, behind(advance(a, out), out)),
        goes_on(a, behind(advance(a, out), out)),
        out.len() <= advance(a, out).effects.len(),
{
    let call = a.calls[a.at as int];
    lemma_plan(call);
    law_tools_do_what_they_are_called(call.name, arguments_json(call.arguments));
    let t = advance(a, out);
    assert(t.effects.len() == out.len() + 2);
    assert(t.effects[out.len() as int] == announces(call));
    let b = behind(t, out);
    assert(b.effects.len() == 2);
    assert(b.effects[0] == announces(call));
    assert(b.effects[1] == t.effects[out.len() as int + 1]);
    reveal_strlit("read_file");
    reveal_strlit("list_dir");
    reveal_strlit("grep");
    reveal_strlit("write_file");
    reveal_strlit("run");
    assert("read_file"@.len() == 9 && "list_dir"@.len() == 8 && "grep"@.len() == 4);
    assert("write_file"@.len() == 10 && "run"@.len() == 3);
    assert(suits(call, b.effects[1], t.agent.phase));
}

proof fn lemma_closes(a: AgentModel, out: Seq<EffectModel>)
    requires
        a.at == a.calls.len(),
        a.steps > 0,
    ensures
        answers_calls(a, behind(advance(a, out), out)),
        goes_on(a, behind(advance(a, out), out)),
        out.len() <= advance(a, out).effects.len(),
{
}

proof fn lemma_carries_out(a: AgentModel, out: Seq<EffectModel>)
    requires
        a.at <= a.calls.len(),
        a.steps > 0,
    ensures
        answers_calls(a, behind(advance(a, out), out)),
        goes_on(a, behind(advance(a, out), out)),
        out.len() <= advance(a, out).effects.len(),
    decreases a.calls.len() - a.at,
{
    if a.at == a.calls.len() {
        lemma_closes(a, out);
    } else {
        let call = a.calls[a.at as int];
        lemma_plan(call);
        if acts(call) {
            lemma_acts(a, out);
        } else {
            lemma_answers(a, out);
        }
    }
}

proof fn lemma_answers(a: AgentModel, out: Seq<EffectModel>)
    requires
        a.at < a.calls.len(),
        a.steps > 0,
        !acts(a.calls[a.at as int]),
    ensures
        answers_calls(a, behind(advance(a, out), out)),
        goes_on(a, behind(advance(a, out), out)),
        out.len() <= advance(a, out).effects.len(),
    decreases a.calls.len() - a.at, 0int,
{
    let call = a.calls[a.at as int];
    lemma_plan(call);
    let next = told(a, word(call));
    let said = out.push(announces(call));
    assert(answered(a, word(call)) == next);
    assert(advance(a, out) == advance(next, said));
    lemma_carries_out(next, said);
    let whole = advance(a, out);
    lemma_said_is_kept(next, said);
    let t = behind(whole, said);
    let u = behind(whole, out);
    let end = whole.agent.at as int;
    assert(u.effects.len() == t.effects.len() + 1);
    assert(u.effects[0] == announces(call)) by {
        assert(said[out.len() as int] == announces(call));
    }
    assert forall|k: int| 0 <= k < t.effects.len() implies #[trigger] u.effects[k + 1]
        == t.effects[k] by {}
    lemma_summary_first(a.calls, a.at as int, end, a.finished);
    assert forall|k: int| 0 <= k < a.messages.len() implies #[trigger] u.agent.messages[k]
        == a.messages[k] by {
        assert(next.messages[k] == a.messages[k]);
    }
    assert forall|k: int| a.at <= k < end implies !acts(#[trigger] a.calls[k])
        && u.agent.messages[a.messages.len() + (k - a.at)] == (MessageModel::Tool {
        call_id: a.calls[k].id,
        content: word(a.calls[k]),
    }) by {
        if k == a.at {
            assert(u.agent.messages[a.messages.len() as int] == next.messages[a.messages.len() as int]);
        } else {
            assert(next.calls[k] == a.calls[k]);
        }
    }
    let seen = if end < a.calls.len() {
        end + 1
    } else {
        end
    };
    assert forall|k: int| a.at <= k < seen implies u.effects[k - a.at] == announces(
        #[trigger] a.calls[k],
    ) by {
        if k > a.at {
            assert(t.effects[k - next.at] == announces(next.calls[k]));
            assert(u.effects[k - next.at + 1] == t.effects[k - next.at]);
        }
    }
    let n = end - next.at;
    if end < a.calls.len() {
        assert(u.effects[n + 2] == t.effects[n + 1]);
    } else {
        assert(u.effects[n + 1] == t.effects[n]);
        if whole.agent.finished is Some {
            assert(u.effects[n + 2] == t.effects[n + 1]);
        }
    }
}

proof fn lemma_said_is_kept(a: AgentModel, out: Seq<EffectModel>)
    ensures
        out.len() <= advance(a, out).effects.len(),
        forall|k: int| 0 <= k < out.len() ==> #[trigger] advance(a, out).effects[k] == out[k],
    decreases a.calls.len() - a.at,
{
    if a.at < a.calls.len() {
        let call = a.calls[a.at as int];
        match plan(call.name, arguments_json(call.arguments)) {
            PlanModel::Answer { text } => {
                let said = out.push(announces(call));
                lemma_said_is_kept(answered(a, text), said);
                assert forall|k: int| 0 <= k < out.len() implies #[trigger] advance(
                    a,
                    out,
                ).effects[k] == out[k] by {
                    assert(said[k] == out[k]);
                }
            },
            _ => {},
        }
    }
}

// ---- what an event leads to ---------------------------------------------------------------

proof fn lemma_behind_nothing(t: Turn)
    ensures
        behind(t, Seq::empty()) == t,
{
    assert(t.effects.skip(0) =~= t.effects);
}

/// What the model said joins the conversation, and its calls are carried out from the first on. Where
/// it called no tool, its words end the turn.
pub proof fn law_answer_is_carried_out(a: AgentModel, m: AssistantModel)
    requires
        a.sound(),
        a.phase is Chatting,
    ensures
        ({
            let t = step(a, EventModel::Chatted(Ok(m)));
            let b = AgentModel {
                messages: a.messages.push(MessageModel::Assistant(m)),
                calls: m.tool_calls,
                at: 0,
                finished: None,
                ..a
            };
            &&& m.tool_calls.len() > 0 ==> answers_calls(b, t) && goes_on(b, t)
            &&& m.tool_calls.len() == 0 ==> t.effects.len() == 1 && t.effects[0]
                == EffectModel::Finish(
                Ok(
                    match m.content {
                        Some(c) => c,
                        None => Seq::empty(),
                    },
                ),
            ) && t.agent.messages == b.messages && t.agent.phase is Finished
        }),
{
    let b = AgentModel {
        messages: a.messages.push(MessageModel::Assistant(m)),
        calls: m.tool_calls,
        at: 0,
        finished: None,
        ..a
    };
    lemma_carries_out(b, Seq::empty());
    lemma_behind_nothing(advance(b, Seq::empty()));
}

/// A request that fails ends the turn with its error, which is shown first; the conversation stays.
pub proof fn law_failed_request_ends_the_turn(a: AgentModel, error: Seq<char>)
    ensures
        ({
            let t = step(a, EventModel::Chatted(Err(error)));
            &&& t.effects.len() == 2
            &&& t.effects[0] == EffectModel::Warn("\x1b[31m✗ "@ + error + "\x1b[0m\n"@)
            &&& t.effects[1] == EffectModel::Finish(Err(error))
            &&& t.agent.messages == a.messages
            &&& t.agent.phase is Finished
        }),
{
}

/// What came of an action is told to the model as the answer to the call at hand, and then the calls
/// behind it are carried out.
pub proof fn law_result_is_told(a: AgentModel, e: EventModel)
    requires
        a.sound(),
        a.accepts(e),
    ensures
        e matches EventModel::Read(r) ==> answers_calls(told(a, read_told(r)), step(a, e)) && goes_on(
            told(a, read_told(r)),
            step(a, e),
        ),
        e matches EventModel::Listed(r) ==> answers_calls(told(a, list_told(r)), step(a, e))
            && goes_on(told(a, list_told(r)), step(a, e)),
        e matches EventModel::Searched(s) ==> answers_calls(told(a, search_told(s)), step(a, e))
            && goes_on(told(a, search_told(s)), step(a, e)),
        e matches EventModel::Written(x) ==> answers_calls(
            told(a, write_told(a.phase->path, x)),
            step(a, e),
        ) && goes_on(told(a, write_told(a.phase->path, x)), step(a, e)),
        e matches EventModel::Ran { code, output } ==> answers_calls(
            told(a, run_told(code, output)),
            step(a, e),
        ) && goes_on(told(a, run_told(code, output)), step(a, e)),
{
    match e {
        EventModel::Read(r) => lemma_told(a, read_told(r)),
        EventModel::Listed(r) => lemma_told(a, list_told(r)),
        EventModel::Searched(s) => lemma_told(a, search_told(s)),
        EventModel::Written(x) => lemma_told(a, write_told(a.phase->path, x)),
        EventModel::Ran { code, output } => lemma_told(a, run_told(code, output)),
        _ => {},
    }
}

proof fn lemma_told(a: AgentModel, content: Seq<char>)
    requires
        a.sound(),
        a.in_call(),
    ensures
        answers_calls(told(a, content), crate::agent::resume(a, content)),
        goes_on(told(a, content), crate::agent::resume(a, content)),
{
    assert(answered(a, content) == told(a, content));
    lemma_carries_out(told(a, content), Seq::empty());
    lemma_behind_nothing(advance(told(a, content), Seq::empty()));
}

/// A command without a warning is run as it is, and nothing else happens; one with a warning is not
/// run, and the model is told why.
pub proof fn law_commands_wait_for_the_guard(a: AgentModel, code: i32, output: Seq<char>)
    requires
        a.sound(),
        a.phase is Guarding,
    ensures
        ({
            let t = step(a, EventModel::Status { code, output });
            let w = warning(a.phase->command, code, output);
            &&& w is None ==> t.effects.len() == 1 && t.effects[0] == (EffectModel::Run {
                command: a.phase->command,
            }) && t.agent == (AgentModel { phase: PhaseModel::Running, ..a })
            &&& w matches Some(why) ==> answers_calls(told(a, block_told(why)), t) && goes_on(
                told(a, block_told(why)),
                t,
            )
        }),
{
    if let Some(why) = warning(a.phase->command, code, output) {
        lemma_told(a, block_told(why));
    }
}

/// What is awaited is what the call at hand needs, with its own path or command.
pub open spec fn phase_fits(a: AgentModel) -> bool {
    a.in_call() ==> {
        let call = a.calls[a.at as int];
        &&& a.phase is Reading ==> call.name == "read_file"@
        &&& a.phase is Listing ==> call.name == "list_dir"@
        &&& a.phase is Searching ==> call.name == "grep"@
        &&& a.phase matches PhaseModel::Writing { path } ==> call.name == "write_file"@ && path
            == given(call, "path"@)
        &&& a.phase matches PhaseModel::Guarding { command } ==> call.name == "run"@ && command
            == given(call, "cmd"@)
        &&& a.phase is Running ==> call.name == "run"@
    }
}

proof fn lemma_carried_fits(a: AgentModel, t: Turn)
    requires
        answers_calls(a, t),
        goes_on(a, t),
    ensures
        phase_fits(t.agent),
{
}

/// Whatever is reported, the agent awaits what the call at hand needs: the command that the guard
/// judges, and that is then run, is the one that the model asked for.
pub proof fn law_action_fits_the_call(a: AgentModel, e: EventModel)
    requires
        a.sound(),
        a.accepts(e),
        phase_fits(a),
    ensures
        phase_fits(step(a, e).agent),
{
    match e {
        EventModel::Chatted(Ok(m)) => {
            law_answer_is_carried_out(a, m);
            if m.tool_calls.len() > 0 {
                lemma_carried_fits(
                    AgentModel {
                        messages: a.messages.push(MessageModel::Assistant(m)),
                        calls: m.tool_calls,
                        at: 0,
                        finished: None,
                        ..a
                    },
                    step(a, e),
                );
            }
        },
        EventModel::Chatted(Err(_)) => {},
        EventModel::Read(r) => {
            lemma_told(a, read_told(r));
            lemma_carried_fits(told(a, read_told(r)), step(a, e));
        },
        EventModel::Listed(r) => {
            lemma_told(a, list_told(r));
            lemma_carried_fits(told(a, list_told(r)), step(a, e));
        },
        EventModel::Searched(s) => {
            lemma_told(a, search_told(s));
            lemma_carried_fits(told(a, search_told(s)), step(a, e));
        },
        EventModel::Written(x) => {
            lemma_told(a, write_told(a.phase->path, x));
            lemma_carried_fits(told(a, write_told(a.phase->path, x)), step(a, e));
        },
        EventModel::Status { code, output } => {
            if let Some(why) = warning(a.phase->command, code, output) {
                lemma_told(a, block_told(why));
                lemma_carried_fits(told(a, block_told(why)), step(a, e));
            }
        },
        EventModel::Ran { code, output } => {
            lemma_told(a, run_told(code, output));
            lemma_carried_fits(told(a, run_told(code, output)), step(a, e));
        },
        EventModel::Tested(_) => {},
    }
}

// ---- the steps ----------------------------------------------------------------------------

/// How many steps a list of effects and the steps that are left account for: one for each question,
/// and the last one when the steps are used up.
pub open spec fn accounts_for(steps: nat, effects: Seq<EffectModel>, left: nat) -> bool {
    steps == left + chats(effects) + if left == 0 {
        1int
    } else {
        0
    }
}

proof fn lemma_no_chats(effects: Seq<EffectModel>)
    requires
        forall|i: int| 0 <= i < effects.len() ==> !(#[trigger] effects[i] is Chat),
    ensures
        chats(effects) == 0,
    decreases effects.len(),
{
    if effects.len() > 0 {
        assert(!(effects[effects.len() - 1] is Chat));
        lemma_no_chats(effects.drop_last());
    }
}

proof fn lemma_last_chat(effects: Seq<EffectModel>)
    requires
        effects.len() > 0,
        forall|i: int| 0 <= i < effects.len() - 1 ==> !(#[trigger] effects[i] is Chat),
    ensures
        chats(effects) == if effects.last() is Chat {
            1int
        } else {
            0
        },
{
    lemma_no_chats(effects.drop_last());
}

proof fn lemma_carried_steps(a: AgentModel, t: Turn)
    requires
        a.steps > 0,
        answers_calls(a, t),
        goes_on(a, t),
    ensures
        accounts_for(a.steps, t.effects, t.agent.steps),
{
    let end = t.agent.at as int;
    let n = end - a.at;
    assert forall|i: int| 0 <= i < t.effects.len() - 1 implies !(#[trigger] t.effects[i] is Chat) by {
        if i < n {
            let k = a.at + i;
            assert(t.effects[k - a.at] == announces(a.calls[k]));
        } else if end < a.calls.len() && i == n {
            assert(t.effects[end - a.at] == announces(a.calls[end]));
        }
    }
    lemma_last_chat(t.effects);
}

/// Each step that goes on to another question takes just one from the steps that are left, and any
/// other takes none; the turn ends for want of steps just when the one that was left is taken.
pub proof fn law_each_question_takes_one_step(a: AgentModel, e: EventModel)
    requires
        a.sound(),
        a.accepts(e),
    ensures
        accounts_for(a.steps, step(a, e).effects, step(a, e).agent.steps),
        step(a, e).agent.steps == a.steps || step(a, e).agent.steps == a.steps - 1,
        step(a, e).agent.steps == a.steps - 1 <==> step(a, e).agent.phase is Chatting || step(
            a,
            e,
        ).agent.steps == 0,
        step(a, e).agent.steps == 0 ==> step(a, e).effects.last() == EffectModel::Finish(
            Ok::<Seq<char>, Seq<char>>("(reached max steps)"@),
        ),
{
    let t = step(a, e);
    match e {
        EventModel::Chatted(Ok(m)) => {
            law_answer_is_carried_out(a, m);
            if m.tool_calls.len() > 0 {
                lemma_carried_steps(
                    AgentModel {
                        messages: a.messages.push(MessageModel::Assistant(m)),
                        calls: m.tool_calls,
                        at: 0,
                        finished: None,
                        ..a
                    },
                    t,
                );
            } else {
                lemma_last_chat(t.effects);
            }
        },
        EventModel::Chatted(Err(_)) => lemma_last_chat(t.effects),
        EventModel::Read(r) => {
            lemma_told(a, read_told(r));
            lemma_carried_steps(told(a, read_told(r)), t);
        },
        EventModel::Listed(r) => {
            lemma_told(a, list_told(r));
            lemma_carried_steps(told(a, list_told(r)), t);
        },
        EventModel::Searched(s) => {
            lemma_told(a, search_told(s));
            lemma_carried_steps(told(a, search_told(s)), t);
        },
        EventModel::Written(x) => {
            lemma_told(a, write_told(a.phase->path, x));
            lemma_carried_steps(told(a, write_told(a.phase->path, x)), t);
        },
        EventModel::Status { code, output } => {
            if let Some(why) = warning(a.phase->command, code, output) {
                lemma_told(a, block_told(why));
                lemma_carried_steps(told(a, block_told(why)), t);
            } else {
                lemma_last_chat(t.effects);
            }
        },
        EventModel::Ran { code, output } => {
            lemma_told(a, run_told(code, output));
            lemma_carried_steps(told(a, run_told(code, output)), t);
        },
        EventModel::Tested(_) => lemma_last_chat(t.effects),
    }
}

/// The agent behind a list of events.
pub open spec fn agent_after(a: AgentModel, events: Seq<EventModel>) -> AgentModel
    decreases events.len(),
{
    if events.len() == 0 {
        a
    } else {
        agent_after(step(a, events[0]).agent, events.drop_first())
    }
}

proof fn lemma_chats_join(x: Seq<EffectModel>, y: Seq<EffectModel>)
    ensures
        chats(x + y) == chats(x) + chats(y),
    decreases y.len(),
{
    if y.len() == 0 {
        assert(x + y =~= x);
    } else {
        lemma_chats_join(x, y.drop_last());
        assert((x + y).drop_last() =~= x + y.drop_last());
    }
}

proof fn lemma_run_takes_steps(a: AgentModel, events: Seq<EventModel>)
    requires
        a.sound(),
        a.steps > 0,
        accepts_all(a, events),
    ensures
        accounts_for(a.steps, effects_of(a, events), agent_after(a, events).steps),
    decreases events.len(),
{
    if events.len() > 0 {
        let t = step(a, events[0]);
        let rest = events.drop_first();
        law_step_keeps_sound(a, events[0]);
        law_each_question_takes_one_step(a, events[0]);
        assert(accepts_all(t.agent, rest));
        lemma_chats_join(t.effects, effects_of(t.agent, rest));
        if t.agent.steps > 0 {
            lemma_run_takes_steps(t.agent, rest);
        } else {
            lemma_ended(t.agent, rest);
        }
    }
}

proof fn lemma_ended(a: AgentModel, events: Seq<EventModel>)
    requires
        a.sound(),
        a.steps == 0,
        accepts_all(a, events),
    ensures
        events.len() == 0,
        effects_of(a, events) == Seq::<EffectModel>::empty(),
        agent_after(a, events) == a,
{
    if events.len() > 0 {
        assert(a.accepts(events[0]));
    }
}

/// A turn begins with a question, unless no step was allowed.
pub proof fn law_turn_begins_with_a_question(
    messages: Seq<MessageModel>,
    max_steps: nat,
    has_test: bool,
)
    ensures
        ({
            let t = begin(fresh(messages, max_steps, has_test), Seq::empty());
            &&& t.agent.messages == messages
            &&& t.agent.has_test == has_test
            &&& t.agent.steps == max_steps
            &&& !t.agent.edited
            &&& t.agent.finished is None
            &&& t.effects.len() == 1
            &&& max_steps > 0 ==> t.effects[0] == EffectModel::Chat && t.agent.phase is Chatting
            &&& max_steps == 0 ==> t.effects[0] == EffectModel::Finish(
                Ok::<Seq<char>, Seq<char>>("(reached max steps)"@),
            ) && t.agent.phase is Finished
        }),
{
}

/// A turn ends for want of steps only when the model was asked just as often as was allowed, and as
/// long as a turn goes on the steps that are left are those that were not taken.
pub proof fn law_all_steps_are_taken(
    messages: Seq<MessageModel>,
    max_steps: nat,
    has_test: bool,
    events: Seq<EventModel>,
)
    requires
        max_steps > 0,
        accepts_all(begin(fresh(messages, max_steps, has_test), Seq::empty()).agent, events),
    ensures
        ({
            let first = begin(fresh(messages, max_steps, has_test), Seq::empty());
            let end = agent_after(first.agent, events);
            let asked = chats(first.effects) + chats(effects_of(first.agent, events));
            &&& end.steps == 0 ==> asked == max_steps
            &&& end.steps > 0 ==> asked == max_steps - end.steps + 1
        }),
{
    let first = begin(fresh(messages, max_steps, has_test), Seq::empty());
    lemma_last_chat(first.effects);
    lemma_run_takes_steps(first.agent, events);
}

// ---- edits and tests ----------------------------------------------------------------------

/// An edit is kept in mind for the whole turn, and comes only from a call that writes a file.
pub proof fn law_edits_are_kept_in_mind(a: AgentModel, e: EventModel)
    requires
        a.sound(),
        a.accepts(e),
    ensures
        a.edited ==> step(a, e).agent.edited,
        step(a, e).agent.edited && !a.edited ==> a.in_call() && a.calls[a.at as int].name
            == "write_file"@,
        a.in_call() && a.calls[a.at as int].name == "write_file"@ && !(e is Status) ==> step(
            a,
            e,
        ).agent.edited,
{
    match e {
        EventModel::Chatted(Ok(m)) => law_answer_is_carried_out(a, m),
        EventModel::Read(r) => lemma_told(a, read_told(r)),
        EventModel::Listed(r) => lemma_told(a, list_told(r)),
        EventModel::Searched(s) => lemma_told(a, search_told(s)),
        EventModel::Written(x) => lemma_told(a, write_told(a.phase->path, x)),
        EventModel::Status { code, output } => {
            if let Some(why) = warning(a.phase->command, code, output) {
                lemma_told(a, block_told(why));
            }
        },
        EventModel::Ran { code, output } => lemma_told(a, run_told(code, output)),
        _ => {},
    }
}

/// Tests that pass end the turn with that; tests that fail lead to the next question, or to the end
/// where the last step was taken. The conversation stays.
pub proof fn law_tests_have_the_last_word(a: AgentModel, code: i32)
    requires
        a.sound(),
        a.phase is Testing,
    ensures
        ({
            let t = step(a, EventModel::Tested(code));
            &&& t.agent.messages == a.messages
            &&& t.effects.len() == 1
            &&& code == 0 ==> t.effects[0] == EffectModel::Finish(
                Ok::<Seq<char>, Seq<char>>("verified — tests pass"@),
            ) && t.agent.phase is Finished
            &&& code != 0 && a.steps > 1 ==> t.effects[0] == EffectModel::Chat && t.agent.phase
                is Chatting && t.agent.steps == a.steps - 1
            &&& code != 0 && a.steps == 1 ==> t.effects[0] == EffectModel::Finish(
                Ok::<Seq<char>, Seq<char>>("(reached max steps)"@),
            ) && t.agent.phase is Finished
        }),
{
}

// ---- what the parts hold ------------------------------------------------------------------

/// An effect holds what is written in it.
pub proof fn law_effects_hold_what_they_say(s: String, t: String)
    ensures
        Effect::Print(s)@ == EffectModel::Print(s@),
        Effect::Warn(s)@ == EffectModel::Warn(s@),
        Effect::Chat@ == EffectModel::Chat,
        (Effect::ReadFile { path: s })@ == (EffectModel::ReadFile { path: s@ }),
        (Effect::ListDir { path: s })@ == (EffectModel::ListDir { path: s@ }),
        (Effect::Search { command: s })@ == (EffectModel::Search { command: s@ }),
        (Effect::WriteFile { path: s, content: t })@ == (EffectModel::WriteFile {
            path: s@,
            content: t@,
        }),
        Effect::Status@ == EffectModel::Status,
        (Effect::Run { command: s })@ == (EffectModel::Run { command: s@ }),
        Effect::Test@ == EffectModel::Test,
        Effect::Finish(Ok(s))@ == EffectModel::Finish(Ok(s@)),
        Effect::Finish(Err(s))@ == EffectModel::Finish(Err(s@)),
{
}

/// An event holds what is written in it.
pub proof fn law_events_hold_what_they_say(
    s: String,
    m: AssistantMessage,
    names: Vec<String>,
    code: i32,
)
    ensures
        Event::Chatted(Ok(m))@ == EventModel::Chatted(Ok(m@)),
        Event::Chatted(Err(s))@ == EventModel::Chatted(Err(s@)),
        Event::Read(Ok(s))@ == EventModel::Read(Ok(s@)),
        Event::Read(Err(s))@ == EventModel::Read(Err(s@)),
        Event::Listed(Ok(names))@ == EventModel::Listed(Ok(views(names@))),
        Event::Listed(Err(s))@ == EventModel::Listed(Err(s@)),
        Event::Searched(s)@ == EventModel::Searched(s@),
        Event::Written(Some(s))@ == EventModel::Written(Some(s@)),
        Event::Written(None)@ == EventModel::Written(None),
        (Event::Status { code, output: s })@ == (EventModel::Status { code, output: s@ }),
        (Event::Ran { code, output: s })@ == (EventModel::Ran { code, output: s@ }),
        Event::Tested(code)@ == EventModel::Tested(code),
{
}

/// A list of effects holds each of them, in order.
pub proof fn law_lists_hold_what_is_in_them(effects: Seq<Effect>)
    ensures
        effect_views(effects).len() == effects.len(),
        forall|i: int|
            0 <= i < effects.len() ==> #[trigger] effect_views(effects)[i] == effects[i]@,
{
}

/// An agent takes any report on what it asked for, and no other: whatever the model says, whatever a
/// file holds, however a command ends.
pub proof fn law_every_answer_is_taken(a: AgentModel, e: EventModel)
    ensures
        a.phase is Chatting ==> (a.accepts(e) <==> e is Chatted),
        a.phase is Reading ==> (a.accepts(e) <==> e is Read),
        a.phase is Listing ==> (a.accepts(e) <==> e is Listed),
        a.phase is Searching ==> (a.accepts(e) <==> e is Searched),
        a.phase is Writing ==> (a.accepts(e) <==> e is Written),
        a.phase is Guarding ==> (a.accepts(e) <==> e is Status),
        a.phase is Running ==> (a.accepts(e) <==> e is Ran),
        a.phase is Testing ==> (a.accepts(e) <==> e is Tested),
        a.phase is Finished ==> !a.accepts(e),
{
}

/// An agent is sound while it has a step left and, as long as it carries out calls, a call at hand.
pub proof fn law_every_step_is_sound(a: AgentModel)
    ensures
        a.steps > 0 && a.at < a.calls.len() ==> a.sound(),
        a.steps > 0 && a.at == a.calls.len() && (a.phase is Chatting || a.phase is Testing)
            ==> a.sound(),
        a.at <= a.calls.len() && a.phase is Finished ==> a.sound(),
        a.in_call() <==> !(a.phase is Chatting) && !(a.phase is Testing) && !(a.phase is Finished),
{
}

} // verus!

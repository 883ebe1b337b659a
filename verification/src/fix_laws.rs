//! What a fix does, event by event and as a whole: laws of [`crate::fix`] that speak of the file, the
//! questions and the outcome.

use crate::diff::{colored, line_changes, plain};
use crate::failure::key_assertion_of;
use crate::fix::{
    accepts_all, effect_views, effects_of, history_text, precedent_text, precedent_views,
    prompt_text, reflect_text, started, step, target_file, target_name, target_repo, Effect,
    EffectModel, Event, EventModel, FixModel, Job, JobModel, Phase, Precedent, Sampling, FIX_TOKENS,
};
use crate::reply::code_of;
use crate::text::{decimal, joined, last_chars, law_last_characters, refed, trimmed};
use vstd::prelude::*;

verus! {

// ---- where it takes place -----------------------------------------------------------------

/// The tests run in the directory that was named, else in that of the file, else in the current one.
pub proof fn law_place_of_the_tests(r: &str, p: &str)
    ensures
        target_repo(Some(r), None) == r@,
        target_repo(Some(r), Some(p)) == r@,
        p@.len() > 0 ==> target_repo(None, Some(p)) == p@,
        p@.len() == 0 ==> target_repo(None, Some(p)) == "."@,
        target_repo(None, None) == "."@,
{
}

/// The file goes by its name. It is found as it was named, by an absolute path or within a directory
/// that was named; else by its name, in its own directory.
pub proof fn law_place_of_the_file(file: &str, name: &str, repo: &str)
    ensures
        target_name(file, Some(name)) == name@,
        target_name(file, None) == file@,
        target_file(file, Some(name), true, None) == file@,
        target_file(file, Some(name), true, Some(repo)) == file@,
        target_file(file, Some(name), false, Some(repo)) == file@,
        target_file(file, Some(name), false, None) == name@,
        target_file(file, None, false, None) == file@,
{
}

// ---- what the model is asked --------------------------------------------------------------

/// The model is shown the file under its name, how the tests failed, the key assertion, and what is
/// known of earlier fixes, in this order.
pub proof fn law_prompt_shows_the_failure(
    name: Seq<char>,
    original: Seq<char>,
    failure: Seq<char>,
    history: Seq<char>,
)
    ensures
        prompt_text(name, original, failure, history)
            == "This file fails its tests. Output ONLY the corrected full file, nothing else.\n\n=== "@
            + name + " ===\n"@ + original + "\n\n=== test failure ===\n"@ + failure
            + "\n=== THE EXACT FAILING ASSERTION (fix THIS condition — watch for flipped >/</>=/<=/==/!= and off-by-one) ===\n"@
            + key_assertion_of(failure) + "\n"@ + history,
{
}

/// The second prompt of a round is the first one with the end of the new failure behind it, six
/// hundred characters of it at most.
pub proof fn law_second_prompt_shows_the_new_failure(
    prompt: Seq<char>,
    lost: Seq<char>,
    kept: Seq<char>,
)
    requires
        kept.len() == 600 || kept.len() < 600 && lost.len() == 0,
    ensures
        reflect_text(prompt, lost + kept) == prompt
            + "\n=== your previous attempt STILL FAILED with ===\n"@ + kept
            + "\n=== reflect on exactly WHY it failed, then output the corrected full file ===\n"@,
{
    law_last_characters(lost, kept, 600);
    if kept.len() < 600 {
        assert(lost + kept =~= kept);
    }
}

/// Each precedent is shown with its likeness and the end of its difference, eight hundred characters
/// of it at most.
pub proof fn law_precedents_are_shown(likeness: Seq<char>, lost: Seq<char>, kept: Seq<char>)
    requires
        kept.len() == 800 || kept.len() < 800 && lost.len() == 0,
    ensures
        precedent_text((lost + kept, likeness)) == "(similarity "@ + likeness + ")\n"@ + kept
            + "\n"@,
{
    law_last_characters(lost, kept, 800);
    if kept.len() < 800 {
        assert(lost + kept =~= kept);
    }
}

/// All precedents are shown, in their order, under their heading; without any, nothing is.
pub proof fn law_all_precedents_are_shown(
    ps: Seq<(Seq<char>, Seq<char>)>,
    texts: Seq<Seq<char>>,
)
    requires
        texts.len() == ps.len(),
        forall|i: int| 0 <= i < ps.len() ==> #[trigger] texts[i] == precedent_text(ps[i]),
    ensures
        ps.len() == 0 ==> history_text(ps) == Seq::<char>::empty(),
        ps.len() > 0 ==> history_text(ps) == "\n=== similar past fixes in this repo ===\n"@ + joined(
            texts,
            "\n"@,
        ),
{
    assert(texts =~= ps.map_values(|p: (Seq<char>, Seq<char>)| precedent_text(p)));
}

// ---- before the rounds --------------------------------------------------------------------

/// A file that can be read is kept in mind as it is, and its tests are run; one that cannot ends the
/// fix with the code two.
pub proof fn law_file_is_read_first(f: FixModel, content: Seq<char>, error: Seq<char>)
    requires
        f.phase == Phase::Reading,
    ensures
        ({
            let t = step(f, EventModel::FileRead(Ok(content)));
            &&& t.fix.original == content
            &&& t.fix.phase == Phase::FirstRun
            &&& t.effects.len() == 2
            &&& t.effects[0] == EffectModel::Print("\x1b[36m● running tests…\x1b[0m\n"@)
            &&& t.effects[1] == EffectModel::Test
        }),
        ({
            let t = step(f, EventModel::FileRead(Err(error)));
            &&& t.fix.phase == Phase::Done
            &&& t.effects.len() == 2
            &&& t.effects[0] == EffectModel::Warn(
                "✗ can't read "@ + f.job.path + ": "@ + error + "\n"@,
            )
            &&& t.effects[1] == EffectModel::Exit(2)
        }),
{
}

/// Where the tests pass at once there is nothing to fix, and the file is not touched; where they
/// fail they are run once more, and nothing else is done.
pub proof fn law_passing_tests_leave_nothing_to_fix(f: FixModel, code: i32, output: Seq<char>)
    requires
        f.phase == Phase::FirstRun,
    ensures
        ({
            let t = step(f, EventModel::Tested { code, output });
            &&& code == 0 ==> t.fix.phase == Phase::Done && t.effects.len() == 2 && t.effects[0]
                == EffectModel::Print("\x1b[32m✓ tests already pass — nothing to fix.\x1b[0m\n"@)
                && t.effects[1] == EffectModel::Exit(0)
            &&& code != 0 ==> t.fix.phase == Phase::SecondRun && t.effects.len() == 1
                && t.effects[0] == EffectModel::Test
        }),
{
}

/// The effect that a round begins with, or those that the fix ends with when all rounds have passed.
pub open spec fn opens_round(
    effects: Seq<EffectModel>,
    at: int,
    prompt: Seq<char>,
    round: int,
    n: usize,
) -> bool {
    &&& round < n ==> effects.len() == at + 1 && effects[at] == (EffectModel::Ask {
        prompt,
        sampling: Sampling::Candidate(round as usize),
    })
    &&& round >= n ==> effects.len() == at + 2 && effects[at] == EffectModel::Print(
        "\x1b[31m✗ no verified fix in "@ + decimal(n as nat)
            + " candidates (file unchanged). Try --n higher.\x1b[0m\n"@,
    ) && effects[at + 1] == EffectModel::Exit(1)
}

/// When the tests have failed twice, what failed is the end of the second run, twelve hundred
/// characters of it at most. Precedents are looked for where that was ordered; else the first
/// candidate is asked for with what failed.
pub proof fn law_failure_is_put_to_the_model(
    f: FixModel,
    code: i32,
    lost: Seq<char>,
    kept: Seq<char>,
)
    requires
        f.sound(),
        f.phase == Phase::SecondRun,
        kept.len() == 1200 || kept.len() < 1200 && lost.len() == 0,
    ensures
        ({
            let t = step(f, EventModel::Tested { code, output: lost + kept });
            &&& t.fix.failure == kept
            &&& t.effects[0] == EffectModel::Print(
                "\x1b[33m✗ failing. generating "@ + decimal(f.job.n as nat)
                    + " candidates…\x1b[0m\n"@,
            )
            &&& f.job.memory ==> t.fix.phase == Phase::Recalling && t.effects.len() == 2
                && t.effects[1] == (EffectModel::Recall { bug: kept })
            &&& !f.job.memory ==> opens_round(
                t.effects,
                1,
                prompt_text(f.job.name, f.original, kept, Seq::empty()),
                0,
                f.job.n,
            ) && (f.job.n > 0 ==> t.fix.phase == Phase::Asking && t.fix.round == 0
                && t.fix.prompt == prompt_text(f.job.name, f.original, kept, Seq::empty()))
        }),
{
    law_last_characters(lost, kept, 1200);
    if kept.len() < 1200 {
        assert(lost + kept =~= kept);
    }
}

/// Precedents that were found go into the prompt, and their number is told; where none was found, or
/// none could be looked for, the first candidate is asked for without.
pub proof fn law_precedents_are_put_to_the_model(
    f: FixModel,
    ps: Seq<(Seq<char>, Seq<char>)>,
    error: Seq<char>,
)
    requires
        f.sound(),
        f.phase == Phase::Recalling,
    ensures
        ({
            let t = step(f, EventModel::Recalled(Ok(ps)));
            let prompt = prompt_text(f.job.name, f.original, f.failure, history_text(ps));
            &&& ps.len() > 0 ==> t.effects[0] == EffectModel::Print(
                "\x1b[36m● memory: "@ + decimal(ps.len())
                    + " similar past fix(es) in this repo\x1b[0m\n"@,
            ) && opens_round(t.effects, 1, prompt, 0, f.job.n)
            &&& ps.len() == 0 ==> opens_round(t.effects, 0, prompt, 0, f.job.n)
            &&& f.job.n > 0 ==> t.fix.phase == Phase::Asking && t.fix.round == 0 && t.fix.prompt
                == prompt
        }),
        ({
            let t = step(f, EventModel::Recalled(Err(error)));
            let prompt = prompt_text(f.job.name, f.original, f.failure, Seq::empty());
            &&& t.effects[0] == EffectModel::Warn(
                "\x1b[33m  (memory lookup skipped: "@ + error + ")\x1b[0m\n"@,
            )
            &&& opens_round(t.effects, 1, prompt, 0, f.job.n)
            &&& f.job.n > 0 ==> t.fix.phase == Phase::Asking && t.fix.round == 0 && t.fix.prompt
                == prompt
        }),
{
    assert(history_text(Seq::empty()) == Seq::<char>::empty());
    if ps.len() == 0 {
        assert(history_text(ps) == Seq::<char>::empty());
    }
}

// ---- in a round ---------------------------------------------------------------------------

/// A candidate that is worth a try is written to the file as it is, with a line feed behind it, and
/// tested; any other ends the round without a touch of the file, and the next round begins.
pub proof fn law_candidate_is_tried(f: FixModel, reply: Seq<char>)
    requires
        f.sound(),
        f.phase == Phase::Asking,
    ensures
        ({
            let t = step(f, EventModel::Replied(reply));
            let code = code_of(reply);
            let worth = code.len() > 0 && trimmed(code) != trimmed(f.original);
            let at: int = if f.job.verbose {
                2
            } else {
                1
            };
            &&& worth ==> t.fix.phase == Phase::Trying && t.fix.written == code + "\n"@
                && !t.fix.retried && t.effects.len() == 2 && t.effects[0] == (EffectModel::Write {
                path: f.job.path,
                content: code + "\n"@,
            }) && t.effects[1] == EffectModel::Test && t.fix.round == f.round
            &&& !worth ==> {
                &&& t.effects[0] == EffectModel::Print(
                    "  candidate "@ + decimal((f.round + 1) as nat) + ": no change\n"@,
                )
                &&& f.job.verbose ==> t.effects[1] == EffectModel::Print(
                    "\x1b[2m    (model returned "@ + (if code.len() == 0 {
                        "an empty response"@
                    } else {
                        "the file unmodified"@
                    }) + ")\x1b[0m\n"@,
                )
                &&& opens_round(t.effects, at, f.prompt, f.round + 1, f.job.n)
                &&& t.fix.phase == Phase::Asking || t.fix.phase == Phase::Done
                &&& t.fix.phase == Phase::Asking ==> t.fix.round == f.round + 1
            }
        }),
{
}

/// What is shown of a failed try where failed tries are to be shown.
pub open spec fn shows_try(
    f: FixModel,
    effects: Seq<EffectModel>,
    label: Seq<char>,
    output: Seq<char>,
) -> bool {
    &&& effects.len() >= 3
    &&& effects[0] == EffectModel::Print("  candidate "@ + decimal((f.round + 1) as nat) + label)
    &&& effects[1] == EffectModel::Print(
        colored(f.job.name, line_changes(f.original, f.written)),
    )
    &&& effects[2] == EffectModel::Print(
        "\x1b[2m    test output: "@ + refed(last_chars(output, 300), "\n    "@) + "\x1b[0m\n"@,
    )
}

/// A candidate on which the tests fail, whatever the round, is followed by one question more, with
/// the new failure; the file is not touched for it.
pub proof fn law_failed_candidate_gets_a_second_try(f: FixModel, code: i32, output: Seq<char>)
    requires
        f.sound(),
        f.phase == Phase::Trying,
        code != 0,
    ensures
        ({
            let t = step(f, EventModel::Tested { code, output });
            let at: int = if f.job.verbose {
                3
            } else {
                0
            };
            &&& t.fix.phase == Phase::Reflecting
            &&& t.fix.round == f.round
            &&& t.fix.written == f.written
            &&& t.effects.len() == at + 1
            &&& t.effects[at] == (EffectModel::Ask {
                prompt: reflect_text(f.prompt, output),
                sampling: Sampling::Reflexion,
            })
            &&& f.job.verbose ==> shows_try(
                f,
                t.effects,
                ": still failing — attempt:\n"@,
                output,
            )
        }),
{
}

/// A second try that is worth it, against the first try and against the file, is written and tested;
/// any other ends the round, and the file is put back.
pub proof fn law_second_try_is_tried(f: FixModel, reply: Seq<char>)
    requires
        f.sound(),
        f.phase == Phase::Reflecting,
    ensures
        ({
            let t = step(f, EventModel::Replied(reply));
            let code = code_of(reply);
            let worth = code.len() > 0 && trimmed(code) != trimmed(f.written) && trimmed(code)
                != trimmed(f.original);
            let at: int = if f.job.verbose {
                1
            } else {
                0
            };
            &&& worth ==> t.fix.phase == Phase::Retrying && t.fix.written == code + "\n"@
                && t.fix.retried && t.effects.len() == 2 && t.effects[0] == (EffectModel::Write {
                path: f.job.path,
                content: code + "\n"@,
            }) && t.effects[1] == EffectModel::Test && t.fix.round == f.round
            &&& !worth ==> {
                &&& f.job.verbose ==> t.effects[0] == EffectModel::Print(
                    "  candidate "@ + decimal((f.round + 1) as nat)
                        + " (reflexion): no change from the reflexion prompt\n"@,
                )
                &&& t.effects[at] == EffectModel::Print(
                    "  candidate "@ + decimal((f.round + 1) as nat)
                        + ": still failing (incl. reflexion)\n"@,
                )
                &&& t.effects[at + 1] == (EffectModel::Write {
                    path: f.job.path,
                    content: f.original,
                })
                &&& opens_round(t.effects, at + 2, f.prompt, f.round + 1, f.job.n)
                &&& t.fix.phase == Phase::Asking || t.fix.phase == Phase::Done
                &&& t.fix.phase == Phase::Asking ==> t.fix.round == f.round + 1
            }
        }),
{
}

/// A second try on which the tests fail ends the round: the file is put back, and then the next round
/// begins.
pub proof fn law_failed_second_try_is_put_back(f: FixModel, code: i32, output: Seq<char>)
    requires
        f.sound(),
        f.phase == Phase::Retrying,
        code != 0,
    ensures
        ({
            let t = step(f, EventModel::Tested { code, output });
            let at: int = if f.job.verbose {
                3
            } else {
                0
            };
            &&& f.job.verbose ==> shows_try(
                f,
                t.effects,
                " (reflexion): still failing — attempt:\n"@,
                output,
            )
            &&& t.effects[at] == EffectModel::Print(
                "  candidate "@ + decimal((f.round + 1) as nat)
                    + ": still failing (incl. reflexion)\n"@,
            )
            &&& t.effects[at + 1] == (EffectModel::Write {
                path: f.job.path,
                content: f.original,
            })
            &&& opens_round(t.effects, at + 2, f.prompt, f.round + 1, f.job.n)
            &&& t.fix.phase == Phase::Asking || t.fix.phase == Phase::Done
            &&& t.fix.phase == Phase::Asking ==> t.fix.round == f.round + 1
        }),
{
}

// ---- success ------------------------------------------------------------------------------

/// An effect that does not put a success at risk: the model is not asked, the file is not written,
/// and the tests are not run again.
pub open spec fn keeps_success(e: EffectModel) -> bool {
    !(e is Ask) && !(e is Write) && !(e is Test) && !(e is Read) && e != EffectModel::Exit(1)
        && e != EffectModel::Exit(2)
}

/// The command that commits a fix, by the file and by whether it took a second try.
pub open spec fn commits(file: Seq<char>, second: bool) -> EffectModel {
    EffectModel::Commit {
        command: "git add "@ + file + (if second {
            " && git commit -q -m 'merle: verified fix (reflexion)'"@
        } else {
            " && git commit -q -m 'merle: verified fix'"@
        }),
    }
}

/// Whenever the tests pass on a candidate or on a second try, in whatever round, the fix succeeds: the
/// pass is announced, the difference is shown, and what follows is to remember it where that was
/// ordered, else to commit it where that was ordered, else the end with success. The model is not
/// asked again, and the file is left as it is.
pub proof fn law_passing_run_succeeds(f: FixModel, output: Seq<char>)
    requires
        f.sound(),
        f.phase == Phase::Trying && !f.retried || f.phase == Phase::Retrying && f.retried,
    ensures
        ({
            let t = step(f, EventModel::Tested { code: 0, output });
            let second = f.phase == Phase::Retrying;
            &&& t.effects.len() == 3
            &&& t.effects[0] == EffectModel::Print(
                "\x1b[32m✓ candidate "@ + decimal((f.round + 1) as nat) + (if second {
                    " PASSES after Reflexion — verified fix applied:\x1b[0m\n"@
                } else {
                    " PASSES — verified fix applied:\x1b[0m\n"@
                }),
            )
            &&& t.effects[1] == EffectModel::Print(
                colored(f.job.name, line_changes(f.original, f.written)),
            )
            &&& t.effects[2] == if f.job.memory {
                EffectModel::Record {
                    bug: f.failure,
                    diff: plain(f.job.name, line_changes(f.original, f.written)),
                }
            } else if f.job.commit {
                commits(f.job.file, second)
            } else {
                EffectModel::Exit(0)
            }
            &&& t.fix.phase == if f.job.memory {
                Phase::Recording
            } else if f.job.commit {
                Phase::Committing
            } else {
                Phase::Done
            }
            &&& forall|i: int| 0 <= i < t.effects.len() ==> keeps_success(#[trigger] t.effects[i])
        }),
{
}

/// Behind a success nothing undoes it: whether the fix could be remembered or committed or not, it
/// ends with success.
pub proof fn law_success_is_final(f: FixModel, e: EventModel)
    requires
        f.accepts(e),
        f.phase == Phase::Recording || f.phase == Phase::Committing,
    ensures
        ({
            let t = step(f, e);
            &&& t.effects.len() > 0
            &&& forall|i: int| 0 <= i < t.effects.len() ==> keeps_success(#[trigger] t.effects[i])
            &&& t.fix.phase == Phase::Committing || t.fix.phase == Phase::Done
            &&& t.fix.phase == Phase::Done ==> t.effects.last() == EffectModel::Exit(0)
            &&& e matches EventModel::Recorded(error) ==> {
                let last = if f.job.commit {
                    commits(f.job.file, f.retried)
                } else {
                    EffectModel::Exit(0)
                };
                &&& t.effects.last() == last
                &&& error is None ==> t.effects.len() == 1
                &&& error matches Some(x) ==> t.effects.len() == 2 && t.effects[0]
                    == EffectModel::Warn(
                    "\x1b[33m  (memory record skipped: "@ + x + ")\x1b[0m\n"@,
                )
            }
            &&& e matches EventModel::Committed(code) ==> t.effects.len() == 2 && t.effects[0]
                == EffectModel::Print(
                if code == 0 {
                    "\x1b[32m  ✓ committed\x1b[0m\n"@
                } else if f.retried {
                    "\x1b[33m  (commit skipped)\x1b[0m\n"@
                } else {
                    "\x1b[33m  (commit skipped — not a git repo, or nothing to commit)\x1b[0m\n"@
                },
            )
        }),
{
}

proof fn lemma_effects_of(f: FixModel, events: Seq<EventModel>)
    requires
        accepts_all(f, events),
        events.len() > 0,
    ensures
        f.accepts(events[0]),
        accepts_all(step(f, events[0]).fix, events.drop_first()),
        effects_of(f, events) == step(f, events[0]).effects + effects_of(
            step(f, events[0]).fix,
            events.drop_first(),
        ),
        events.len() == 1 ==> effects_of(f, events) == step(f, events[0]).effects,
{
    if events.len() == 1 {
        let t = step(f, events[0]);
        assert(effects_of(t.fix, events.drop_first()) == Seq::<EffectModel>::empty());
        assert(t.effects + Seq::<EffectModel>::empty() =~= t.effects);
    }
}

proof fn lemma_done_is_done(f: FixModel, events: Seq<EventModel>)
    requires
        f.phase == Phase::Done,
        accepts_all(f, events),
    ensures
        events.len() == 0,
{
    if events.len() > 0 {
        assert(f.accepts(events[0]));
    }
}

proof fn lemma_commit_ends(f: FixModel, events: Seq<EventModel>)
    requires
        f.phase == Phase::Committing,
        accepts_all(f, events),
        events.len() > 0,
    ensures
        events.len() == 1,
        effects_of(f, events) == step(f, events[0]).effects,
        step(f, events[0]).effects.last() == EffectModel::Exit(0),
{
    lemma_effects_of(f, events);
    let t = step(f, events[0]);
    assert(t.fix.phase == Phase::Done);
    lemma_done_is_done(t.fix, events.drop_first());
}

/// Once the tests have passed on what was written, the fix ends with success whatever is reported to
/// it then, and never asks, writes or tests again.
pub proof fn law_passing_run_ends_in_success(f: FixModel, events: Seq<EventModel>)
    requires
        f.phase == Phase::Recording || f.phase == Phase::Committing,
        accepts_all(f, events),
        events.len() > 0,
    ensures
        events.len() <= 2,
        forall|i: int|
            0 <= i < effects_of(f, events).len() ==> keeps_success(
                #[trigger] effects_of(f, events)[i],
            ),
        effects_of(f, events).last() == EffectModel::Exit(0) || events.len() == 1 && f.phase
            == Phase::Recording && f.job.commit,
{
    lemma_effects_of(f, events);
    law_success_is_final(f, events[0]);
    if f.phase == Phase::Committing {
        lemma_commit_ends(f, events);
    } else {
        lemma_record_ends(f, events);
    }
}

proof fn lemma_record_ends(f: FixModel, events: Seq<EventModel>)
    requires
        f.phase == Phase::Recording,
        accepts_all(f, events),
        events.len() > 0,
    ensures
        events.len() <= 2,
        forall|i: int|
            0 <= i < effects_of(f, events).len() ==> keeps_success(
                #[trigger] effects_of(f, events)[i],
            ),
        effects_of(f, events).last() == EffectModel::Exit(0) || events.len() == 1 && f.job.commit,
{
    lemma_effects_of(f, events);
    law_success_is_final(f, events[0]);
    let t = step(f, events[0]);
    let rest = events.drop_first();
    let first = t.effects;
    let later = effects_of(t.fix, rest);
    if t.fix.phase == Phase::Done {
        lemma_done_is_done(t.fix, rest);
    } else if rest.len() > 0 {
        lemma_commit_ends(t.fix, rest);
        law_success_is_final(t.fix, rest[0]);
        let all = first + later;
        assert(all.last() == later.last());
        assert forall|i: int| 0 <= i < all.len() implies keeps_success(#[trigger] all[i]) by {
            if i < first.len() {
                assert(all[i] == first[i]);
            } else {
                assert(all[i] == later[i - first.len()]);
            }
        }
    }
}

// ---- over all events ----------------------------------------------------------------------

/// What a fix was told at its start never changes; nor does the file that it has in mind once it is
/// read, nor what failed once it is known, nor the prompt within the rounds. Whether a try is a
/// second one is told by what is awaited.
pub proof fn law_step_keeps_what_is_known(f: FixModel, e: EventModel)
    requires
        f.sound(),
        f.accepts(e),
    ensures
        step(f, e).fix.job == f.job,
        f.phase != Phase::Reading ==> step(f, e).fix.original == f.original,
        f.phase != Phase::Reading && f.phase != Phase::FirstRun && f.phase != Phase::SecondRun
            ==> step(f, e).fix.failure == f.failure,
        f.in_round() ==> step(f, e).fix.prompt == f.prompt,
        step(f, e).fix.phase == Phase::Trying ==> !step(f, e).fix.retried,
        step(f, e).fix.phase == Phase::Retrying ==> step(f, e).fix.retried,
        f.phase == Phase::Recording || f.phase == Phase::Committing ==> step(f, e).fix.retried
            == f.retried,
{
}

/// How often a candidate is asked for in a list of effects, second tries aside.
pub open spec fn candidates(effects: Seq<EffectModel>) -> int
    decreases effects.len(),
{
    if effects.len() == 0 {
        0
    } else {
        candidates(effects.drop_last()) + match effects.last() {
            EffectModel::Ask { prompt: _, sampling: Sampling::Candidate(_) } => 1int,
            _ => 0,
        }
    }
}

/// How many candidates have been asked for by a fix that has not ended.
pub open spec fn asked(f: FixModel) -> int {
    match f.phase {
        Phase::Reading | Phase::FirstRun | Phase::SecondRun | Phase::Recalling => 0,
        _ => f.round + 1,
    }
}

proof fn lemma_candidates_last(effects: Seq<EffectModel>)
    requires
        effects.len() > 0,
        forall|i: int| 0 <= i < effects.len() - 1 ==> !(#[trigger] effects[i] is Ask),
    ensures
        candidates(effects) == match effects.last() {
            EffectModel::Ask { prompt: _, sampling: Sampling::Candidate(_) } => 1int,
            _ => 0,
        },
    decreases effects.len(),
{
    if effects.len() > 1 {
        assert(!(effects[effects.len() - 2] is Ask));
        lemma_candidates_last(effects.drop_last());
    } else {
        assert(candidates(effects.drop_last()) == 0);
    }
}

/// Each step that goes on counts the candidates that it asks for, and a fix gives up only behind the
/// last that was ordered.
pub proof fn law_step_counts_candidates(f: FixModel, e: EventModel)
    requires
        f.sound(),
        f.accepts(e),
    ensures
        step(f, e).fix.phase != Phase::Done ==> asked(step(f, e).fix) == asked(f) + candidates(
            step(f, e).effects,
        ),
        step(f, e).effects.last() == EffectModel::Exit(1) ==> asked(f) + candidates(
            step(f, e).effects,
        ) == f.job.n,
        step(f, e).fix.phase == Phase::Done <==> step(f, e).effects.last() is Exit,
{
    lemma_candidates_last(step(f, e).effects);
}

proof fn lemma_candidates_join(x: Seq<EffectModel>, y: Seq<EffectModel>)
    ensures
        candidates(x + y) == candidates(x) + candidates(y),
    decreases y.len(),
{
    if y.len() == 0 {
        assert(x + y =~= x);
    } else {
        lemma_candidates_join(x, y.drop_last());
        assert((x + y).drop_last() =~= x + y.drop_last());
    }
}

#[verifier::rlimit(30)]
proof fn lemma_run_counts_candidates(f: FixModel, events: Seq<EventModel>)
    requires
        f.sound(),
        accepts_all(f, events),
        events.len() > 0,
    ensures
        effects_of(f, events).len() > 0,
        effects_of(f, events).last() == EffectModel::Exit(1) ==> asked(f) + candidates(
            effects_of(f, events),
        ) == f.job.n,
    decreases events.len(),
{
    let t = step(f, events[0]);
    let rest = events.drop_first();
    lemma_effects_of(f, events);
    crate::fix::law_step_keeps_sound(f, events[0]);
    law_step_counts_candidates(f, events[0]);
    law_step_keeps_what_is_known(f, events[0]);
    if rest.len() > 0 {
        if t.fix.phase == Phase::Done {
            lemma_done_is_done(t.fix, rest);
        }
        lemma_run_counts_candidates(t.fix, rest);
        lemma_candidates_join(t.effects, effects_of(t.fix, rest));
        lemma_last_of_both(t.effects, effects_of(t.fix, rest));
    }
}

proof fn lemma_last_of_both(x: Seq<EffectModel>, y: Seq<EffectModel>)
    requires
        y.len() > 0,
    ensures
        (x + y).len() > 0,
        (x + y).last() == y.last(),
{
}

/// A fix gives up only when it has asked for just as many candidates as were ordered.
pub proof fn law_all_candidates_are_tried(job: JobModel, events: Seq<EventModel>)
    requires
        accepts_all(started(job).fix, events),
        events.len() > 0,
    ensures
        effects_of(started(job).fix, events).last() == EffectModel::Exit(1) ==> candidates(
            effects_of(started(job).fix, events),
        ) == job.n,
{
    lemma_run_counts_candidates(started(job).fix, events);
}

/// A fix begins with reading its file, with nothing in mind but its job.
pub proof fn law_fix_begins_with_the_file(job: JobModel)
    ensures
        started(job).fix.job == job,
        started(job).fix.phase == Phase::Reading,
        started(job).effects.len() == 1,
        started(job).effects[0] == (EffectModel::Read { path: job.path }),
{
}

// ---- what the parts hold ------------------------------------------------------------------

/// An effect holds what is written in it.
pub proof fn law_effects_hold_what_they_say(s: String, t: String, sampling: Sampling, code: i32)
    ensures
        Effect::Print(s)@ == EffectModel::Print(s@),
        Effect::Warn(s)@ == EffectModel::Warn(s@),
        (Effect::Read { path: s })@ == (EffectModel::Read { path: s@ }),
        (Effect::Write { path: s, content: t })@ == (EffectModel::Write {
            path: s@,
            content: t@,
        }),
        Effect::Test@ == EffectModel::Test,
        (Effect::Recall { bug: s })@ == (EffectModel::Recall { bug: s@ }),
        (Effect::Ask { prompt: s, sampling })@ == (EffectModel::Ask { prompt: s@, sampling }),
        (Effect::Record { bug: s, diff: t })@ == (EffectModel::Record { bug: s@, diff: t@ }),
        (Effect::Commit { command: s })@ == (EffectModel::Commit { command: s@ }),
        Effect::Exit(code)@ == EffectModel::Exit(code),
{
}

/// An event holds what is written in it.
pub proof fn law_events_hold_what_they_say(s: String, ps: Vec<Precedent>, code: i32)
    ensures
        Event::FileRead(Ok(s))@ == EventModel::FileRead(Ok(s@)),
        Event::FileRead(Err(s))@ == EventModel::FileRead(Err(s@)),
        (Event::Tested { code, output: s })@ == (EventModel::Tested { code, output: s@ }),
        Event::Recalled(Ok(ps))@ == EventModel::Recalled(Ok(precedent_views(ps@))),
        Event::Recalled(Err(s))@ == EventModel::Recalled(Err(s@)),
        Event::Replied(s)@ == EventModel::Replied(s@),
        Event::Recorded(Some(s))@ == EventModel::Recorded(Some(s@)),
        Event::Recorded(None)@ == EventModel::Recorded(None),
        Event::Committed(code)@ == EventModel::Committed(code),
{
}

/// A job and lists of effects and of precedents hold what is in them, in order.
pub proof fn law_jobs_and_lists_hold_what_is_in_them(
    job: Job,
    effects: Seq<Effect>,
    ps: Seq<Precedent>,
)
    ensures
        job@ == (JobModel {
            file: job.file@,
            name: job.name@,
            path: job.path@,
            n: job.n,
            commit: job.commit,
            verbose: job.verbose,
            memory: job.memory,
        }),
        effect_views(effects).len() == effects.len(),
        forall|i: int|
            0 <= i < effects.len() ==> #[trigger] effect_views(effects)[i] == effects[i]@,
        precedent_views(ps).len() == ps.len(),
        forall|i: int|
            0 <= i < ps.len() ==> #[trigger] precedent_views(ps)[i] == (
                ps[i].diff@,
                ps[i].similarity@,
            ),
{
}

/// A fix takes any report on what it asked for, and no other: whatever the file holds, however the
/// tests end, whatever the model says.
pub proof fn law_every_answer_is_taken(f: FixModel, e: EventModel)
    ensures
        f.phase == Phase::Reading ==> (f.accepts(e) <==> e is FileRead),
        f.phase == Phase::FirstRun || f.phase == Phase::SecondRun || f.phase == Phase::Trying
            || f.phase == Phase::Retrying ==> (f.accepts(e) <==> e is Tested),
        f.phase == Phase::Recalling ==> (f.accepts(e) <==> e is Recalled),
        f.phase == Phase::Asking || f.phase == Phase::Reflecting ==> (f.accepts(e) <==> e
            is Replied),
        f.phase == Phase::Recording ==> (f.accepts(e) <==> e is Recorded),
        f.phase == Phase::Committing ==> (f.accepts(e) <==> e is Committed),
        f.phase == Phase::Done ==> !f.accepts(e),
{
}

/// A fix is sound in every round that was ordered, and before the rounds while it counts none.
pub proof fn law_every_round_is_sound(f: FixModel)
    ensures
        f.in_round() && f.round < f.job.n ==> f.sound(),
        f.round == 0 && (f.phase == Phase::Reading || f.phase == Phase::FirstRun || f.phase
            == Phase::SecondRun || f.phase == Phase::Recalling) ==> f.sound(),
        f.phase == Phase::Recording || f.phase == Phase::Committing || f.phase == Phase::Done
            ==> f.sound(),
        f.in_round() <==> f.phase == Phase::Asking || f.phase == Phase::Trying || f.phase
            == Phase::Reflecting || f.phase == Phase::Retrying,
{
}

/// An answer in a fix has fourteen hundred tokens at most.
pub proof fn law_limit_of_an_answer()
    ensures
        FIX_TOKENS == 1400,
{
}

} // verus!

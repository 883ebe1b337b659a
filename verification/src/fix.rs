//! The verified fix of one file: candidates are asked of the model, written to the file and
//! tested; one that makes the tests pass stays, and behind any other the file is put back.
//!
//! [`Fix`] makes the decisions. It hands out [`Effect`]s; whoever drives it performs them in order
//! and reports what came of the last one as an [`Event`].

use crate::diff::{colored, law_difference_is_shown, line_changes, plain, show_diff, tells, Tag};
use crate::failure::{key_assertion, key_assertion_of};
use crate::message::optional;
use crate::reply::{code_of, extract_code};
use crate::text::{
    decimal, join, joined, last_chars, lemma_trimmed_push, lemma_views_push, refed,
    replace_line_feeds, same, tail, trim, trim_slashes, trimmed, unslashed, views, write_decimal,
};
use crate::tools::outcome;
use vstd::prelude::*;

verus! {

// ---- the file -----------------------------------------------------------------------------

/// Where a fix takes place: the directory that the tests run in, the file as it is found from
/// there, the name that the file goes by, and the path that it is read and written at.
pub struct Target {
    pub repo: String,
    pub file: String,
    pub name: String,
    pub path: String,
}

/// The directory that the tests run in: the one that was named, else the one that the file is
/// in, else the current one.
pub open spec fn target_repo(repo: Option<&str>, parent: Option<&str>) -> Seq<char> {
    match repo {
        Some(r) => r@,
        None => match parent {
            Some(p) => if p@.len() == 0 {
                "."@
            } else {
                p@
            },
            None => "."@,
        },
    }
}

/// The name that a file goes by.
pub open spec fn target_name(file: &str, file_name: Option<&str>) -> Seq<char> {
    match file_name {
        Some(n) => n@,
        None => file@,
    }
}

/// The file as it is found from the directory that the tests run in: as it was named; but where the
/// path is relative and no directory was named, the tests run in the file's own directory, and it
/// is found there by its name.
pub open spec fn target_file(
    file: &str,
    file_name: Option<&str>,
    absolute: bool,
    repo: Option<&str>,
) -> Seq<char> {
    if absolute || repo is Some {
        file@
    } else {
        target_name(file, file_name)
    }
}

/// Settles where a fix takes place. A relative path is taken within a directory that was named; where
/// none was, the fix takes place in the file's own directory. `parent`, `file_name` and `absolute` are what the platform
/// makes of the path.
pub fn resolve(
    file: &str,
    parent: Option<&str>,
    file_name: Option<&str>,
    absolute: bool,
    repo: Option<&str>,
) -> (r: Target)
    ensures
        r.repo@ == target_repo(repo, parent),
        r.file@ == target_file(file, file_name, absolute, repo),
        r.name@ == target_name(file, file_name),
        r.path@ == (if absolute {
            file@
        } else {
            unslashed(target_repo(repo, parent)) + "/"@ + target_file(
                file,
                file_name,
                absolute,
                repo,
            )
        }),
{
    let place = match repo {
        Some(r) => r.to_owned(),
        None => match parent {
            Some(p) => if p.is_empty() {
                ".".to_owned()
            } else {
                p.to_owned()
            },
            None => ".".to_owned(),
        },
    };
    let name = match file_name {
        Some(n) => n.to_owned(),
        None => file.to_owned(),
    };
    let within = if absolute || repo.is_some() {
        file.to_owned()
    } else {
        name.clone()
    };
    let path = if absolute {
        file.to_owned()
    } else {
        let mut p = trim_slashes(place.as_str());
        p.append("/");
        p.append(within.as_str());
        p
    };
    Target { repo: place, file: within, name, path }
}

// ---- prompts ------------------------------------------------------------------------------

/// A fix that was made before: its difference, and how alike its failure was, in words.
pub struct Precedent {
    pub diff: String,
    pub similarity: String,
}

/// What a list of precedents holds: difference and likeness of each.
pub open spec fn precedent_views(ps: Seq<Precedent>) -> Seq<(Seq<char>, Seq<char>)> {
    ps.map_values(|p: Precedent| (p.diff@, p.similarity@))
}

/// How many characters of a precedent the model is shown.
pub const PRECEDENT_CHARS: usize = 800;

/// How one precedent is put to the model.
pub open spec fn precedent_text(p: (Seq<char>, Seq<char>)) -> Seq<char> {
    "(similarity "@ + p.1 + ")\n"@ + last_chars(p.0, PRECEDENT_CHARS as int) + "\n"@
}

/// How precedents are put to the model; without any, not at all.
pub open spec fn history_text(ps: Seq<(Seq<char>, Seq<char>)>) -> Seq<char> {
    if ps.len() == 0 {
        Seq::empty()
    } else {
        "\n=== similar past fixes in this repo ===\n"@ + joined(
            ps.map_values(|p: (Seq<char>, Seq<char>)| precedent_text(p)),
            "\n"@,
        )
    }
}

/// How precedents are put to the model; without any, not at all.
pub fn history_block(ps: &Vec<Precedent>) -> (r: String)
    ensures
        r@ == history_text(precedent_views(ps@)),
{
    if ps.len() == 0 {
        return String::new();
    }
    let ghost wanted = precedent_views(ps@).map_values(
        |p: (Seq<char>, Seq<char>)| precedent_text(p),
    );
    let mut parts: Vec<String> = Vec::new();
    let mut i: usize = 0;
    assert(views(parts@) =~= wanted.take(0));
    while i < ps.len()
        invariant
            i <= ps@.len(),
            wanted == precedent_views(ps@).map_values(
                |p: (Seq<char>, Seq<char>)| precedent_text(p),
            ),
            views(parts@) == wanted.take(i as int),
        decreases ps@.len() - i,
    {
        let mut part = "(similarity ".to_owned();
        part.append(ps[i].similarity.as_str());
        part.append(")\n");
        part.append(tail(ps[i].diff.as_str(), PRECEDENT_CHARS).as_str());
        part.append("\n");
        proof {
            lemma_views_push(parts@, part);
            assert(part@ == wanted[i as int]);
            assert(wanted.take(i + 1) =~= wanted.take(i as int).push(wanted[i as int]));
        }
        parts.push(part);
        i += 1;
    }
    assert(wanted.take(i as int) =~= wanted);
    let mut r = "\n=== similar past fixes in this repo ===\n".to_owned();
    r.append(join(&parts, "\n").as_str());
    r
}

/// What the model is asked for a candidate.
pub open spec fn prompt_text(
    name: Seq<char>,
    original: Seq<char>,
    failure: Seq<char>,
    history: Seq<char>,
) -> Seq<char> {
    "This file fails its tests. Output ONLY the corrected full file, nothing else.\n\n=== "@ + name
        + " ===\n"@ + original + "\n\n=== test failure ===\n"@ + failure + ASSERTION_HEADING@
        + key_assertion_of(failure) + "\n"@ + history
}

/// What announces the key assertion in a prompt.
pub const ASSERTION_HEADING: &'static str =
    "\n=== THE EXACT FAILING ASSERTION (fix THIS condition — watch for flipped >/</>=/<=/==/!= and off-by-one) ===\n";

/// What the model is asked for a candidate.
pub fn fix_prompt(name: &str, original: &str, failure: &str, history: &str) -> (r: String)
    ensures
        r@ == prompt_text(name@, original@, failure@, history@),
{
    let mut r =
        "This file fails its tests. Output ONLY the corrected full file, nothing else.\n\n=== ".to_owned();
    r.append(name);
    r.append(" ===\n");
    r.append(original);
    r.append("\n\n=== test failure ===\n");
    r.append(failure);
    r.append(ASSERTION_HEADING);
    r.append(key_assertion(failure).as_str());
    r.append("\n");
    r.append(history);
    r
}

/// The most tokens of an answer.
pub const FIX_TOKENS: u64 = 1400;

/// How many characters of the end of a failed run go into the first prompt.
pub const FAILURE_CHARS: usize = 1200;

/// How many characters of the end of a failed run go into the second prompt of a round.
pub const REFLECT_CHARS: usize = 600;

/// How many characters of the end of a failed run are shown.
pub const SHOWN_CHARS: usize = 300;

/// What the model is asked when its candidate failed.
pub open spec fn reflect_text(prompt: Seq<char>, output: Seq<char>) -> Seq<char> {
    prompt + "\n=== your previous attempt STILL FAILED with ===\n"@ + last_chars(
        output,
        REFLECT_CHARS as int,
    )
        + "\n=== reflect on exactly WHY it failed, then output the corrected full file ===\n"@
}

/// What the model is asked when its candidate failed.
pub fn reflect_prompt(prompt: &str, output: &str) -> (r: String)
    ensures
        r@ == reflect_text(prompt@, output@),
{
    let mut r = prompt.to_owned();
    r.append("\n=== your previous attempt STILL FAILED with ===\n");
    r.append(tail(output, REFLECT_CHARS).as_str());
    r.append("\n=== reflect on exactly WHY it failed, then output the corrected full file ===\n");
    r
}

// ---- effects and events -------------------------------------------------------------------

/// How an answer is to be sampled: for the candidate of a round, counted from zero, or for a
/// second try within a round.
#[derive(Clone, Copy, PartialEq, Eq, Structural, Debug)]
pub enum Sampling {
    Candidate(usize),
    Reflexion,
}

/// What a fix wants done. `Print` and `Warn` carry text for the output and for the error output,
/// and a `Write` that fails is passed over; the others, but for `Exit`, are answered by an event.
pub enum Effect {
    Print(String),
    Warn(String),
    Read { path: String },
    Write { path: String, content: String },
    Test,
    Recall { bug: String },
    Ask { prompt: String, sampling: Sampling },
    Record { bug: String, diff: String },
    Commit { command: String },
    Exit(i32),
}

/// What an [`Effect`] holds.
pub enum EffectModel {
    Print(Seq<char>),
    Warn(Seq<char>),
    Read { path: Seq<char> },
    Write { path: Seq<char>, content: Seq<char> },
    Test,
    Recall { bug: Seq<char> },
    Ask { prompt: Seq<char>, sampling: Sampling },
    Record { bug: Seq<char>, diff: Seq<char> },
    Commit { command: Seq<char> },
    Exit(i32),
}

impl View for Effect {
    type V = EffectModel;

    open spec fn view(&self) -> EffectModel {
        match self {
            Effect::Print(s) => EffectModel::Print(s@),
            Effect::Warn(s) => EffectModel::Warn(s@),
            Effect::Read { path } => EffectModel::Read { path: path@ },
            Effect::Write { path, content } => EffectModel::Write {
                path: path@,
                content: content@,
            },
            Effect::Test => EffectModel::Test,
            Effect::Recall { bug } => EffectModel::Recall { bug: bug@ },
            Effect::Ask { prompt, sampling } => EffectModel::Ask {
                prompt: prompt@,
                sampling: *sampling,
            },
            Effect::Record { bug, diff } => EffectModel::Record { bug: bug@, diff: diff@ },
            Effect::Commit { command } => EffectModel::Commit { command: command@ },
            Effect::Exit(code) => EffectModel::Exit(*code),
        }
    }
}

/// What a list of effects holds.
pub open spec fn effect_views(effects: Seq<Effect>) -> Seq<EffectModel> {
    effects.map_values(|e: Effect| e@)
}

/// What came of an effect.
pub enum Event {
    /// The content of the file, or why it could not be read.
    FileRead(Result<String, String>),
    /// The exit code and the output of the tests.
    Tested { code: i32, output: String },
    /// The precedents that were found, or why none could be looked for.
    Recalled(Result<Vec<Precedent>, String>),
    /// The model's answer.
    Replied(String),
    /// Why the fix could not be remembered, if it could not.
    Recorded(Option<String>),
    /// The exit code of the commit.
    Committed(i32),
}

/// What an [`Event`] holds.
pub enum EventModel {
    FileRead(Result<Seq<char>, Seq<char>>),
    Tested { code: i32, output: Seq<char> },
    Recalled(Result<Seq<(Seq<char>, Seq<char>)>, Seq<char>>),
    Replied(Seq<char>),
    Recorded(Option<Seq<char>>),
    Committed(i32),
}

impl View for Event {
    type V = EventModel;

    open spec fn view(&self) -> EventModel {
        match self {
            Event::FileRead(r) => EventModel::FileRead(outcome(*r)),
            Event::Tested { code, output } => EventModel::Tested { code: *code, output: output@ },
            Event::Recalled(r) => EventModel::Recalled(
                match r {
                    Ok(ps) => Ok(precedent_views(ps@)),
                    Err(e) => Err(e@),
                },
            ),
            Event::Replied(s) => EventModel::Replied(s@),
            Event::Recorded(e) => EventModel::Recorded(optional(*e)),
            Event::Committed(code) => EventModel::Committed(*code),
        }
    }
}

// ---- the state ----------------------------------------------------------------------------

/// What a fix is told at its start: the file as it is found from the directory that the tests run
/// in, its name and path, how many candidates to try, whether to commit the fix, whether to show
/// failed candidates, and whether to recall and remember fixes.
pub struct Job {
    pub file: String,
    pub name: String,
    pub path: String,
    pub n: usize,
    pub commit: bool,
    pub verbose: bool,
    pub memory: bool,
}

/// What a [`Job`] holds.
pub struct JobModel {
    pub file: Seq<char>,
    pub name: Seq<char>,
    pub path: Seq<char>,
    pub n: usize,
    pub commit: bool,
    pub verbose: bool,
    pub memory: bool,
}

impl View for Job {
    type V = JobModel;

    open spec fn view(&self) -> JobModel {
        JobModel {
            file: self.file@,
            name: self.name@,
            path: self.path@,
            n: self.n,
            commit: self.commit,
            verbose: self.verbose,
            memory: self.memory,
        }
    }
}

/// What a fix is waiting for: the file; the first and the second run of its tests; precedents; a
/// candidate; the tests on it; a second try; the tests on that; the fix to be remembered; the fix
/// to be committed; or nothing more.
#[derive(Clone, Copy, PartialEq, Eq, Structural, Debug)]
pub enum Phase {
    Reading,
    FirstRun,
    SecondRun,
    Recalling,
    Asking,
    Trying,
    Reflecting,
    Retrying,
    Recording,
    Committing,
    Done,
}

/// A fix, as far as it has come.
pub struct Fix {
    job: Job,
    original: String,
    failure: String,
    prompt: String,
    round: usize,
    written: String,
    retried: bool,
    phase: Phase,
}

/// What a [`Fix`] holds: the job; the file as it was; how the tests failed on it; what the model
/// is asked; the round, counted from zero; what was written last; whether that was a second try;
/// and what is awaited.
pub struct FixModel {
    pub job: JobModel,
    pub original: Seq<char>,
    pub failure: Seq<char>,
    pub prompt: Seq<char>,
    pub round: usize,
    pub written: Seq<char>,
    pub retried: bool,
    pub phase: Phase,
}

impl View for Fix {
    type V = FixModel;

    closed spec fn view(&self) -> FixModel {
        FixModel {
            job: self.job@,
            original: self.original@,
            failure: self.failure@,
            prompt: self.prompt@,
            round: self.round,
            written: self.written@,
            retried: self.retried,
            phase: self.phase,
        }
    }
}

impl FixModel {
    /// A round is at hand.
    pub open spec fn in_round(self) -> bool {
        match self.phase {
            Phase::Asking | Phase::Trying | Phase::Reflecting | Phase::Retrying => true,
            _ => false,
        }
    }

    /// The round at hand is one of those that were ordered, and the rounds begin with the first.
    pub open spec fn sound(self) -> bool {
        &&& self.in_round() ==> self.round < self.job.n
        &&& match self.phase {
            Phase::Reading | Phase::FirstRun | Phase::SecondRun | Phase::Recalling => self.round
                == 0,
            _ => true,
        }
    }

    /// The event answers what the fix asked for.
    pub open spec fn accepts(self, e: EventModel) -> bool {
        match self.phase {
            Phase::Reading => e is FileRead,
            Phase::FirstRun | Phase::SecondRun | Phase::Trying | Phase::Retrying => e is Tested,
            Phase::Recalling => e is Recalled,
            Phase::Asking | Phase::Reflecting => e is Replied,
            Phase::Recording => e is Recorded,
            Phase::Committing => e is Committed,
            Phase::Done => false,
        }
    }
}

/// Where an event leads: the fix behind it and what it wants done.
pub struct Turn {
    pub fix: FixModel,
    pub effects: Seq<EffectModel>,
}

// ---- what is printed ----------------------------------------------------------------------

/// The start of a line about the candidate at hand.
pub open spec fn candidate(round: usize) -> Seq<char> {
    "  candidate "@ + decimal((round + 1) as nat)
}

/// The line that announces a candidate that passes.
pub open spec fn banner(round: usize, retried: bool) -> Seq<char> {
    "\x1b[32m✓ candidate "@ + decimal((round + 1) as nat) + if retried {
        " PASSES after Reflexion — verified fix applied:\x1b[0m\n"@
    } else {
        " PASSES — verified fix applied:\x1b[0m\n"@
    }
}

/// The command that commits a fix.
pub open spec fn commit_command(file: Seq<char>, retried: bool) -> Seq<char> {
    "git add "@ + file + if retried {
        " && git commit -q -m 'merle: verified fix (reflexion)'"@
    } else {
        " && git commit -q -m 'merle: verified fix'"@
    }
}

/// The line about a commit.
pub open spec fn commit_line(code: i32, retried: bool) -> Seq<char> {
    if code == 0 {
        "\x1b[32m  ✓ committed\x1b[0m\n"@
    } else if retried {
        "\x1b[33m  (commit skipped)\x1b[0m\n"@
    } else {
        "\x1b[33m  (commit skipped — not a git repo, or nothing to commit)\x1b[0m\n"@
    }
}

/// The end of a failed run as it is shown.
pub open spec fn output_line(output: Seq<char>) -> Seq<char> {
    "\x1b[2m    test output: "@ + refed(last_chars(output, SHOWN_CHARS as int), "\n    "@)
        + "\x1b[0m\n"@
}

/// The line at the end of a fix without success.
pub open spec fn exhausted(n: usize) -> Seq<char> {
    "\x1b[31m✗ no verified fix in "@ + decimal(n as nat)
        + " candidates (file unchanged). Try --n higher.\x1b[0m\n"@
}

// ---- decisions ----------------------------------------------------------------------------

/// The fix waits for what an effect brings.
pub open spec fn await_phase(
    f: FixModel,
    out: Seq<EffectModel>,
    phase: Phase,
    effect: EffectModel,
) -> Turn {
    Turn { fix: FixModel { phase, ..f }, effects: out.push(effect) }
}

/// The fix ends with an exit code.
pub open spec fn exit(f: FixModel, out: Seq<EffectModel>, code: i32) -> Turn {
    await_phase(f, out, Phase::Done, EffectModel::Exit(code))
}

/// The round at hand begins, unless as many rounds have passed as were ordered.
pub open spec fn begin_round(f: FixModel, out: Seq<EffectModel>) -> Turn {
    if f.round < f.job.n {
        await_phase(
            f,
            out,
            Phase::Asking,
            EffectModel::Ask { prompt: f.prompt, sampling: Sampling::Candidate(f.round) },
        )
    } else {
        exit(f, out.push(EffectModel::Print(exhausted(f.job.n))), 1)
    }
}

/// The next round begins.
pub open spec fn next_round(f: FixModel, out: Seq<EffectModel>) -> Turn {
    begin_round(FixModel { round: (f.round + 1) as usize, ..f }, out)
}

/// The rounds begin, with a prompt that bears the precedents.
pub open spec fn begin_rounds(f: FixModel, out: Seq<EffectModel>, history: Seq<char>) -> Turn {
    begin_round(
        FixModel { prompt: prompt_text(f.job.name, f.original, f.failure, history), ..f },
        out,
    )
}

/// The file is there: its tests are run.
pub open spec fn file_read(f: FixModel, content: Seq<char>) -> Turn {
    await_phase(
        FixModel { original: content, ..f },
        seq![EffectModel::Print("\x1b[36m● running tests…\x1b[0m\n"@)],
        Phase::FirstRun,
        EffectModel::Test,
    )
}

/// The tests fail: candidates are asked for, behind a look for precedents if those are wanted.
pub open spec fn failing(f: FixModel, output: Seq<char>) -> Turn {
    let g = FixModel { failure: last_chars(output, FAILURE_CHARS as int), ..f };
    let out = seq![
        EffectModel::Print(
            "\x1b[33m✗ failing. generating "@ + decimal(f.job.n as nat)
                + " candidates…\x1b[0m\n"@,
        ),
    ];
    if f.job.memory {
        await_phase(g, out, Phase::Recalling, EffectModel::Recall { bug: g.failure })
    } else {
        begin_rounds(g, out, Seq::empty())
    }
}

/// Precedents were looked for.
pub open spec fn recalled(
    f: FixModel,
    found: Result<Seq<(Seq<char>, Seq<char>)>, Seq<char>>,
) -> Turn {
    match found {
        Ok(ps) => if ps.len() == 0 {
            begin_rounds(f, Seq::empty(), Seq::empty())
        } else {
            begin_rounds(
                f,
                seq![
                    EffectModel::Print(
                        "\x1b[36m● memory: "@ + decimal(ps.len())
                            + " similar past fix(es) in this repo\x1b[0m\n"@,
                    ),
                ],
                history_text(ps),
            )
        },
        Err(e) => begin_rounds(
            f,
            seq![EffectModel::Warn("\x1b[33m  (memory lookup skipped: "@ + e + ")\x1b[0m\n"@)],
            Seq::empty(),
        ),
    }
}

/// Code that is worth a try: there is some, and it is not what stood there, white space at the
/// ends aside.
pub open spec fn fresh(code: Seq<char>, old: Seq<char>) -> bool {
    code.len() > 0 && trimmed(code) != trimmed(old)
}

/// What is written to the file to try some code.
pub open spec fn file_of(code: Seq<char>) -> Seq<char> {
    code + "\n"@
}

/// Code is written to the file and tested.
pub open spec fn try_code(f: FixModel, code: Seq<char>, retried: bool) -> Turn {
    let content = file_of(code);
    await_phase(
        FixModel { written: content, retried, ..f },
        seq![EffectModel::Write { path: f.job.path, content }],
        if retried {
            Phase::Retrying
        } else {
            Phase::Trying
        },
        EffectModel::Test,
    )
}

/// A candidate came. One without a change ends the round.
pub open spec fn proposed(f: FixModel, reply: Seq<char>) -> Turn {
    let code = code_of(reply);
    if fresh(code, f.original) {
        try_code(f, code, false)
    } else {
        let out = seq![EffectModel::Print(candidate(f.round) + ": no change\n"@)];
        next_round(
            f,
            if f.job.verbose {
                out.push(
                    EffectModel::Print(
                        "\x1b[2m    (model returned "@ + (if code.len() == 0 {
                            "an empty response"@
                        } else {
                            "the file unmodified"@
                        }) + ")\x1b[0m\n"@,
                    ),
                )
            } else {
                out
            },
        )
    }
}

/// The effects with those that show a failed try behind them, if failed tries are to be shown.
pub open spec fn shown(
    f: FixModel,
    out: Seq<EffectModel>,
    label: Seq<char>,
    output: Seq<char>,
) -> Seq<EffectModel> {
    if f.job.verbose {
        out.push(EffectModel::Print(candidate(f.round) + label)).push(
            EffectModel::Print(colored(f.job.name, line_changes(f.original, f.written))),
        ).push(EffectModel::Print(output_line(output)))
    } else {
        out
    }
}

/// A candidate failed: the model gets one second try, knowing how it failed.
pub open spec fn try_failed(f: FixModel, output: Seq<char>) -> Turn {
    await_phase(
        f,
        shown(f, Seq::empty(), ": still failing — attempt:\n"@, output),
        Phase::Reflecting,
        EffectModel::Ask {
            prompt: reflect_text(f.prompt, output),
            sampling: Sampling::Reflexion,
        },
    )
}

/// A round ends without success: the file is put back.
pub open spec fn give_up(f: FixModel, out: Seq<EffectModel>) -> Turn {
    next_round(
        f,
        out.push(
            EffectModel::Print(candidate(f.round) + ": still failing (incl. reflexion)\n"@),
        ).push(EffectModel::Write { path: f.job.path, content: f.original }),
    )
}

/// A second try came. One without a change against the first try or the file ends the round.
pub open spec fn reconsidered(f: FixModel, reply: Seq<char>) -> Turn {
    let code = code_of(reply);
    if fresh(code, f.written) && fresh(code, f.original) {
        try_code(f, code, true)
    } else {
        give_up(
            f,
            if f.job.verbose {
                seq![
                    EffectModel::Print(
                        candidate(f.round)
                            + " (reflexion): no change from the reflexion prompt\n"@,
                    ),
                ]
            } else {
                Seq::empty()
            },
        )
    }
}

/// An answer of the model's came.
pub open spec fn replied(f: FixModel, reply: Seq<char>) -> Turn {
    if f.phase == Phase::Asking {
        proposed(f, reply)
    } else {
        reconsidered(f, reply)
    }
}

/// What passed stays: it is committed if that was ordered, else the fix ends.
pub open spec fn settle(f: FixModel, out: Seq<EffectModel>) -> Turn {
    if f.job.commit {
        await_phase(
            f,
            out,
            Phase::Committing,
            EffectModel::Commit { command: commit_command(f.job.file, f.retried) },
        )
    } else {
        exit(f, out, 0)
    }
}

/// The tests pass on what was written: it stays, is shown, and is remembered if that was ordered.
pub open spec fn passed(f: FixModel) -> Turn {
    let changes = line_changes(f.original, f.written);
    let out = seq![
        EffectModel::Print(banner(f.round, f.retried)),
        EffectModel::Print(colored(f.job.name, changes)),
    ];
    if f.job.memory {
        await_phase(
            f,
            out,
            Phase::Recording,
            EffectModel::Record { bug: f.failure, diff: plain(f.job.name, changes) },
        )
    } else {
        settle(f, out)
    }
}

/// The tests were run.
pub open spec fn tested(f: FixModel, code: i32, output: Seq<char>) -> Turn {
    match f.phase {
        Phase::FirstRun => if code == 0 {
            exit(
                f,
                seq![
                    EffectModel::Print(
                        "\x1b[32m✓ tests already pass — nothing to fix.\x1b[0m\n"@,
                    ),
                ],
                0,
            )
        } else {
            await_phase(f, Seq::empty(), Phase::SecondRun, EffectModel::Test)
        },
        Phase::SecondRun => failing(f, output),
        Phase::Trying => if code == 0 {
            passed(f)
        } else {
            try_failed(f, output)
        },
        _ => if code == 0 {
            passed(f)
        } else {
            give_up(
                f,
                shown(f, Seq::empty(), " (reflexion): still failing — attempt:\n"@, output),
            )
        },
    }
}

/// The file cannot be read.
pub open spec fn unreadable(f: FixModel, error: Seq<char>) -> Turn {
    exit(
        f,
        seq![EffectModel::Warn("✗ can't read "@ + f.job.path + ": "@ + error + "\n"@)],
        2,
    )
}

/// The fix was remembered, or could not be.
pub open spec fn recorded(f: FixModel, error: Option<Seq<char>>) -> Turn {
    settle(
        f,
        match error {
            Some(e) => seq![
                EffectModel::Warn("\x1b[33m  (memory record skipped: "@ + e + ")\x1b[0m\n"@),
            ],
            None => Seq::empty(),
        },
    )
}

/// The fix was committed, or could not be.
pub open spec fn committed(f: FixModel, code: i32) -> Turn {
    exit(f, seq![EffectModel::Print(commit_line(code, f.retried))], 0)
}

/// Where an event leads.
pub open spec fn step(f: FixModel, e: EventModel) -> Turn {
    match e {
        EventModel::FileRead(Ok(content)) => file_read(f, content),
        EventModel::FileRead(Err(error)) => unreadable(f, error),
        EventModel::Tested { code, output } => tested(f, code, output),
        EventModel::Recalled(found) => recalled(f, found),
        EventModel::Replied(reply) => replied(f, reply),
        EventModel::Recorded(error) => recorded(f, error),
        EventModel::Committed(code) => committed(f, code),
    }
}

/// A fix that waits for its file.
pub open spec fn started(job: JobModel) -> Turn {
    Turn {
        fix: FixModel {
            job,
            original: Seq::empty(),
            failure: Seq::empty(),
            prompt: Seq::empty(),
            round: 0,
            written: Seq::empty(),
            retried: false,
            phase: Phase::Reading,
        },
        effects: seq![EffectModel::Read { path: job.path }],
    }
}

/// Adds an effect.
fn emit(out: &mut Vec<Effect>, effect: Effect)
    ensures
        effect_views(final(out)@) == effect_views(old(out)@).push(effect@),
{
    let ghost before = out@;
    out.push(effect);
    assert(effect_views(out@) =~= effect_views(before).push(effect@));
}

/// No effects yet.
fn no_effects() -> (r: Vec<Effect>)
    ensures
        effect_views(r@) == Seq::<EffectModel>::empty(),
{
    let r: Vec<Effect> = Vec::new();
    assert(effect_views(r@) =~= Seq::<EffectModel>::empty());
    r
}

/// One effect.
fn one_effect(effect: Effect) -> (r: Vec<Effect>)
    ensures
        effect_views(r@) == seq![effect@],
{
    let mut r = no_effects();
    emit(&mut r, effect);
    assert(effect_views(r@) =~= seq![effect@]);
    r
}

/// A text of parts one behind the other.
fn text3(a: &str, b: &str, c: &str) -> (r: String)
    ensures
        r@ == a@ + b@ + c@,
{
    let mut r = a.to_owned();
    r.append(b);
    r.append(c);
    r
}

impl Fix {
    /// Begins a fix.
    pub fn start(job: Job) -> (r: (Fix, Vec<Effect>))
        ensures
            r.0@.sound(),
            (Turn { fix: r.0@, effects: effect_views(r.1@) }) == started(job@),
    {
        let out = one_effect(Effect::Read { path: job.path.clone() });
        let fix = Fix {
            job,
            original: String::new(),
            failure: String::new(),
            prompt: String::new(),
            round: 0,
            written: String::new(),
            retried: false,
            phase: Phase::Reading,
        };
        (fix, out)
    }

    /// Whether an event answers what the fix asked for.
    pub fn is_accepted(&self, event: &Event) -> (r: bool)
        ensures
            r == self@.accepts(event@),
    {
        match (self.phase, event) {
            (Phase::Reading, Event::FileRead(_)) => true,
            (Phase::FirstRun, Event::Tested { code: _, output: _ }) => true,
            (Phase::SecondRun, Event::Tested { code: _, output: _ }) => true,
            (Phase::Trying, Event::Tested { code: _, output: _ }) => true,
            (Phase::Retrying, Event::Tested { code: _, output: _ }) => true,
            (Phase::Recalling, Event::Recalled(_)) => true,
            (Phase::Asking, Event::Replied(_)) => true,
            (Phase::Reflecting, Event::Replied(_)) => true,
            (Phase::Recording, Event::Recorded(_)) => true,
            (Phase::Committing, Event::Committed(_)) => true,
            _ => false,
        }
    }

    fn end(&mut self, out: &mut Vec<Effect>, code: i32)
        ensures
            (Turn { fix: final(self)@, effects: effect_views(final(out)@) }) == exit(
                old(self)@,
                effect_views(old(out)@),
                code,
            ),
    {
        emit(out, Effect::Exit(code));
        self.phase = Phase::Done;
    }

    fn ask(&mut self, out: &mut Vec<Effect>)
        ensures
            (Turn { fix: final(self)@, effects: effect_views(final(out)@) }) == begin_round(
                old(self)@,
                effect_views(old(out)@),
            ),
    {
        if self.round < self.job.n {
            emit(
                out,
                Effect::Ask {
                    prompt: self.prompt.clone(),
                    sampling: Sampling::Candidate(self.round),
                },
            );
            self.phase = Phase::Asking;
        } else {
            let n = write_decimal(self.job.n as u128);
            emit(
                out,
                Effect::Print(
                    text3(
                        "\x1b[31m✗ no verified fix in ",
                        n.as_str(),
                        " candidates (file unchanged). Try --n higher.\x1b[0m\n",
                    ),
                ),
            );
            self.end(out, 1);
        }
    }

    fn ask_again(&mut self, out: &mut Vec<Effect>)
        requires
            old(self)@.round < old(self)@.job.n,
        ensures
            (Turn { fix: final(self)@, effects: effect_views(final(out)@) }) == next_round(
                old(self)@,
                effect_views(old(out)@),
            ),
    {
        self.round = self.round + 1;
        self.ask(out);
    }

    fn ask_first(&mut self, out: &mut Vec<Effect>, history: &str)
        ensures
            (Turn { fix: final(self)@, effects: effect_views(final(out)@) }) == begin_rounds(
                old(self)@,
                effect_views(old(out)@),
                history@,
            ),
    {
        self.prompt =
        fix_prompt(
            self.job.name.as_str(),
            self.original.as_str(),
            self.failure.as_str(),
            history,
        );
        self.ask(out);
    }

    fn take_failure(&mut self, output: &str) -> (r: Vec<Effect>)
        ensures
            (Turn { fix: final(self)@, effects: effect_views(r@) }) == failing(
                old(self)@,
                output@,
            ),
    {
        self.failure = tail(output, FAILURE_CHARS);
        let n = write_decimal(self.job.n as u128);
        let mut out = one_effect(
            Effect::Print(
                text3(
                    "\x1b[33m✗ failing. generating ",
                    n.as_str(),
                    " candidates…\x1b[0m\n",
                ),
            ),
        );
        if self.job.memory {
            emit(&mut out, Effect::Recall { bug: self.failure.clone() });
            self.phase = Phase::Recalling;
        } else {
            proof {
                reveal_strlit("");
                assert(""@ =~= Seq::empty());
            }
            self.ask_first(&mut out, "");
        }
        out
    }

    fn take_precedents(&mut self, found: Result<Vec<Precedent>, String>) -> (r: Vec<Effect>)
        ensures
            (Turn { fix: final(self)@, effects: effect_views(r@) }) == recalled(
                old(self)@,
                (Event::Recalled(found))@->Recalled_0,
            ),
    {
        proof {
            reveal_strlit("");
            assert(""@ =~= Seq::empty());
        }
        match found {
            Ok(ps) => {
                if ps.len() == 0 {
                    let mut out = no_effects();
                    self.ask_first(&mut out, "");
                    out
                } else {
                    let count = write_decimal(ps.len() as u128);
                    let mut out = one_effect(
                        Effect::Print(
                            text3(
                                "\x1b[36m● memory: ",
                                count.as_str(),
                                " similar past fix(es) in this repo\x1b[0m\n",
                            ),
                        ),
                    );
                    let history = history_block(&ps);
                    self.ask_first(&mut out, history.as_str());
                    out
                }
            },
            Err(e) => {
                let mut out = one_effect(
                    Effect::Warn(
                        text3(
                            "\x1b[33m  (memory lookup skipped: ",
                            e.as_str(),
                            ")\x1b[0m\n",
                        ),
                    ),
                );
                self.ask_first(&mut out, "");
                out
            },
        }
    }

    /// A line about the candidate at hand.
    fn candidate_line(&self, rest: &str) -> (r: String)
        requires
            self@.round < self@.job.n,
        ensures
            r@ == candidate(self@.round) + rest@,
    {
        let number = write_decimal((self.round + 1) as u128);
        text3("  candidate ", number.as_str(), rest)
    }

    fn try_out(&mut self, code: String, retried: bool) -> (r: Vec<Effect>)
        ensures
            (Turn { fix: final(self)@, effects: effect_views(r@) }) == try_code(
                old(self)@,
                code@,
                retried,
            ),
    {
        let mut content = code;
        content.append("\n");
        self.written = content.clone();
        self.retried = retried;
        let mut out = one_effect(Effect::Write { path: self.job.path.clone(), content });
        emit(&mut out, Effect::Test);
        self.phase = if retried {
            Phase::Retrying
        } else {
            Phase::Trying
        };
        out
    }

    fn take_candidate(&mut self, reply: &str) -> (r: Vec<Effect>)
        requires
            old(self)@.round < old(self)@.job.n,
        ensures
            (Turn { fix: final(self)@, effects: effect_views(r@) }) == proposed(
                old(self)@,
                reply@,
            ),
    {
        let code = extract_code(reply);
        if is_fresh(code.as_str(), self.original.as_str()) {
            return self.try_out(code, false);
        }
        let mut out = one_effect(Effect::Print(self.candidate_line(": no change\n")));
        if self.job.verbose {
            let what = if code.as_str().is_empty() {
                "an empty response"
            } else {
                "the file unmodified"
            };
            emit(
                &mut out,
                Effect::Print(text3("\x1b[2m    (model returned ", what, ")\x1b[0m\n")),
            );
        }
        self.ask_again(&mut out);
        out
    }

    fn show_failed(&self, out: &mut Vec<Effect>, label: &str, output: &str)
        requires
            self@.round < self@.job.n,
        ensures
            effect_views(final(out)@) == shown(
                self@,
                effect_views(old(out)@),
                label@,
                output@,
            ),
    {
        if self.job.verbose {
            emit(out, Effect::Print(self.candidate_line(label)));
            let diff = show_diff(
                self.job.name.as_str(),
                self.original.as_str(),
                self.written.as_str(),
            );
            emit(out, Effect::Print(diff.colored));
            let end = replace_line_feeds(tail(output, SHOWN_CHARS).as_str(), "\n    ");
            emit(
                out,
                Effect::Print(text3("\x1b[2m    test output: ", end.as_str(), "\x1b[0m\n")),
            );
        }
    }

    fn put_back(&mut self, out: &mut Vec<Effect>)
        requires
            old(self)@.round < old(self)@.job.n,
        ensures
            (Turn { fix: final(self)@, effects: effect_views(final(out)@) }) == give_up(
                old(self)@,
                effect_views(old(out)@),
            ),
    {
        emit(
            out,
            Effect::Print(self.candidate_line(": still failing (incl. reflexion)\n")),
        );
        emit(
            out,
            Effect::Write { path: self.job.path.clone(), content: self.original.clone() },
        );
        self.ask_again(out);
    }

    fn take_second_try(&mut self, reply: &str) -> (r: Vec<Effect>)
        requires
            old(self)@.round < old(self)@.job.n,
        ensures
            (Turn { fix: final(self)@, effects: effect_views(r@) }) == reconsidered(
                old(self)@,
                reply@,
            ),
    {
        let code = extract_code(reply);
        if is_fresh(code.as_str(), self.written.as_str()) && is_fresh(
            code.as_str(),
            self.original.as_str(),
        ) {
            return self.try_out(code, true);
        }
        let mut out = no_effects();
        if self.job.verbose {
            out =
            one_effect(
                Effect::Print(
                    self.candidate_line(
                        " (reflexion): no change from the reflexion prompt\n",
                    ),
                ),
            );
        }
        self.put_back(&mut out);
        out
    }

    fn conclude(&mut self, out: &mut Vec<Effect>)
        ensures
            (Turn { fix: final(self)@, effects: effect_views(final(out)@) }) == settle(
                old(self)@,
                effect_views(old(out)@),
            ),
    {
        if self.job.commit {
            let command = if self.retried {
                text3(
                    "git add ",
                    self.job.file.as_str(),
                    " && git commit -q -m 'merle: verified fix (reflexion)'",
                )
            } else {
                text3(
                    "git add ",
                    self.job.file.as_str(),
                    " && git commit -q -m 'merle: verified fix'",
                )
            };
            emit(out, Effect::Commit { command });
            self.phase = Phase::Committing;
        } else {
            self.end(out, 0);
        }
    }

    fn succeed(&mut self) -> (r: Vec<Effect>)
        requires
            old(self)@.round < old(self)@.job.n,
        ensures
            (Turn { fix: final(self)@, effects: effect_views(r@) }) == passed(old(self)@),
    {
        let number = write_decimal((self.round + 1) as u128);
        let line = if self.retried {
            text3(
                "\x1b[32m✓ candidate ",
                number.as_str(),
                " PASSES after Reflexion — verified fix applied:\x1b[0m\n",
            )
        } else {
            text3(
                "\x1b[32m✓ candidate ",
                number.as_str(),
                " PASSES — verified fix applied:\x1b[0m\n",
            )
        };
        let diff = show_diff(
            self.job.name.as_str(),
            self.original.as_str(),
            self.written.as_str(),
        );
        let mut out = one_effect(Effect::Print(line));
        emit(&mut out, Effect::Print(diff.colored));
        proof {
            let changes = line_changes(self@.original, self@.written);
            assert(effect_views(out@) =~= seq![
                EffectModel::Print(banner(self@.round, self@.retried)),
                EffectModel::Print(colored(self@.job.name, changes)),
            ]);
        }
        if self.job.memory {
            emit(&mut out, Effect::Record { bug: self.failure.clone(), diff: diff.plain });
            self.phase = Phase::Recording;
        } else {
            self.conclude(&mut out);
        }
        out
    }

    fn take_test(&mut self, code: i32, output: &str) -> (r: Vec<Effect>)
        requires
            old(self)@.sound(),
            old(self)@.accepts(EventModel::Tested { code, output: output@ }),
        ensures
            (Turn { fix: final(self)@, effects: effect_views(r@) }) == tested(
                old(self)@,
                code,
                output@,
            ),
    {
        match self.phase {
            Phase::FirstRun => {
                if code == 0 {
                    let mut out = one_effect(
                        Effect::Print(
                            "\x1b[32m✓ tests already pass — nothing to fix.\x1b[0m\n".to_owned(),
                        ),
                    );
                    self.end(&mut out, 0);
                    out
                } else {
                    let mut out = no_effects();
                    emit(&mut out, Effect::Test);
                    self.phase = Phase::SecondRun;
                    out
                }
            },
            Phase::SecondRun => self.take_failure(output),
            Phase::Trying => {
                if code == 0 {
                    self.succeed()
                } else {
                    let mut out = no_effects();
                    self.show_failed(&mut out, ": still failing — attempt:\n", output);
                    let prompt = reflect_prompt(self.prompt.as_str(), output);
                    emit(&mut out, Effect::Ask { prompt, sampling: Sampling::Reflexion });
                    self.phase = Phase::Reflecting;
                    out
                }
            },
            _ => {
                if code == 0 {
                    self.succeed()
                } else {
                    let mut out = no_effects();
                    self.show_failed(
                        &mut out,
                        " (reflexion): still failing — attempt:\n",
                        output,
                    );
                    self.put_back(&mut out);
                    out
                }
            },
        }
    }

    fn take_file(&mut self, content: String) -> (r: Vec<Effect>)
        ensures
            (Turn { fix: final(self)@, effects: effect_views(r@) }) == file_read(
                old(self)@,
                content@,
            ),
    {
        self.original = content;
        let mut out = one_effect(
            Effect::Print("\x1b[36m● running tests…\x1b[0m\n".to_owned()),
        );
        emit(&mut out, Effect::Test);
        self.phase = Phase::FirstRun;
        out
    }

    fn take_error(&mut self, error: &str) -> (r: Vec<Effect>)
        ensures
            (Turn { fix: final(self)@, effects: effect_views(r@) }) == unreadable(
                old(self)@,
                error@,
            ),
    {
        let mut line = text3("✗ can't read ", self.job.path.as_str(), ": ");
        line.append(error);
        line.append("\n");
        let mut out = one_effect(Effect::Warn(line));
        self.end(&mut out, 2);
        out
    }

    fn take_record(&mut self, error: Option<String>) -> (r: Vec<Effect>)
        ensures
            (Turn { fix: final(self)@, effects: effect_views(r@) }) == recorded(
                old(self)@,
                optional(error),
            ),
    {
        let mut out = match error {
            Some(e) => one_effect(
                Effect::Warn(
                    text3("\x1b[33m  (memory record skipped: ", e.as_str(), ")\x1b[0m\n"),
                ),
            ),
            None => no_effects(),
        };
        self.conclude(&mut out);
        out
    }

    fn take_commit(&mut self, code: i32) -> (r: Vec<Effect>)
        ensures
            (Turn { fix: final(self)@, effects: effect_views(r@) }) == committed(
                old(self)@,
                code,
            ),
    {
        let line = if code == 0 {
            "\x1b[32m  ✓ committed\x1b[0m\n"
        } else if self.retried {
            "\x1b[33m  (commit skipped)\x1b[0m\n"
        } else {
            "\x1b[33m  (commit skipped — not a git repo, or nothing to commit)\x1b[0m\n"
        };
        let mut out = one_effect(Effect::Print(line.to_owned()));
        self.end(&mut out, 0);
        out
    }

    fn take_reply(&mut self, reply: &str) -> (r: Vec<Effect>)
        requires
            old(self)@.round < old(self)@.job.n,
        ensures
            (Turn { fix: final(self)@, effects: effect_views(r@) }) == replied(
                old(self)@,
                reply@,
            ),
    {
        if self.phase == Phase::Asking {
            self.take_candidate(reply)
        } else {
            self.take_second_try(reply)
        }
    }

    /// Takes in what came of the last effect and tells what to do next.
    pub fn step(&mut self, event: Event) -> (r: Vec<Effect>)
        requires
            old(self)@.sound(),
            old(self)@.accepts(event@),
        ensures
            (Turn { fix: final(self)@, effects: effect_views(r@) }) == step(old(self)@, event@),
            final(self)@.sound(),
    {
        proof {
            law_step_keeps_sound(self@, event@);
        }
        match event {
            Event::FileRead(Ok(content)) => self.take_file(content),
            Event::FileRead(Err(error)) => self.take_error(error.as_str()),
            Event::Tested { code, output } => self.take_test(code, output.as_str()),
            Event::Recalled(found) => self.take_precedents(found),
            Event::Replied(reply) => self.take_reply(reply.as_str()),
            Event::Recorded(error) => self.take_record(error),
            Event::Committed(code) => self.take_commit(code),
        }
    }
}

/// Whether code is worth a try against what stood there.
fn is_fresh(code: &str, old: &str) -> (r: bool)
    ensures
        r == fresh(code@, old@),
{
    !code.is_empty() && !same(trim(code).as_str(), trim(old).as_str())
}

// ---- laws ---------------------------------------------------------------------------------

/// What the file holds, and what the last run of the tests was on and ended with, where every
/// write succeeds and nothing else writes to the file.
pub struct Ledger {
    pub disk: Seq<char>,
    pub tested: Option<(Seq<char>, i32)>,
}

/// What the file holds behind a list of effects.
pub open spec fn disk_after(disk: Seq<char>, effects: Seq<EffectModel>) -> Seq<char>
    decreases effects.len(),
{
    if effects.len() == 0 {
        disk
    } else {
        match effects.last() {
            EffectModel::Write { path, content } => content,
            _ => disk_after(disk, effects.drop_last()),
        }
    }
}

/// The ledger behind an event and the effects that it led to.
pub open spec fn entered(l: Ledger, e: EventModel, effects: Seq<EffectModel>) -> Ledger {
    Ledger {
        disk: disk_after(l.disk, effects),
        tested: match e {
            EventModel::Tested { code, output } => Some((l.disk, code)),
            _ => l.tested,
        },
    }
}

/// The file holds what the fix takes it to hold.
pub open spec fn true_to(f: FixModel, l: Ledger) -> bool {
    match f.phase {
        Phase::Reading | Phase::Done => true,
        Phase::FirstRun | Phase::SecondRun | Phase::Recalling | Phase::Asking => l.disk
            == f.original,
        Phase::Trying | Phase::Reflecting | Phase::Retrying => l.disk == f.written,
        Phase::Recording | Phase::Committing => l.disk == f.written && l.tested == Some(
            (f.written, 0i32),
        ),
    }
}

/// An event that says what the file holds says what it does hold.
pub open spec fn truthful(l: Ledger, e: EventModel) -> bool {
    match e {
        EventModel::FileRead(Ok(content)) => content == l.disk,
        _ => true,
    }
}

proof fn lemma_disk_push(disk: Seq<char>, effects: Seq<EffectModel>, e: EffectModel)
    ensures
        disk_after(disk, effects.push(e)) == (match e {
            EffectModel::Write { path, content } => content,
            _ => disk_after(disk, effects),
        }),
{
    assert(effects.push(e).drop_last() =~= effects);
}

proof fn lemma_disk_one(disk: Seq<char>, e: EffectModel)
    ensures
        disk_after(disk, seq![e]) == (match e {
            EffectModel::Write { path, content } => content,
            _ => disk,
        }),
{
    let none = Seq::<EffectModel>::empty();
    lemma_disk_push(disk, none, e);
    assert(none.push(e) =~= seq![e]);
    assert(disk_after(disk, none) == disk);
}

proof fn lemma_begin_round_disk(f: FixModel, out: Seq<EffectModel>, disk: Seq<char>)
    ensures
        disk_after(disk, begin_round(f, out).effects) == disk_after(disk, out),
{
    if f.round < f.job.n {
        lemma_disk_push(disk, out, begin_round(f, out).effects.last());
    } else {
        let printed = EffectModel::Print(exhausted(f.job.n));
        lemma_disk_push(disk, out, printed);
        lemma_disk_push(disk, out.push(printed), EffectModel::Exit(1));
    }
}

proof fn lemma_shown_disk(
    f: FixModel,
    out: Seq<EffectModel>,
    label: Seq<char>,
    output: Seq<char>,
    disk: Seq<char>,
)
    ensures
        disk_after(disk, shown(f, out, label, output)) == disk_after(disk, out),
{
    if f.job.verbose {
        let a = EffectModel::Print(candidate(f.round) + label);
        let b = EffectModel::Print(colored(f.job.name, line_changes(f.original, f.written)));
        let c = EffectModel::Print(output_line(output));
        lemma_disk_push(disk, out, a);
        lemma_disk_push(disk, out.push(a), b);
        lemma_disk_push(disk, out.push(a).push(b), c);
    }
}

proof fn lemma_give_up_disk(f: FixModel, out: Seq<EffectModel>, disk: Seq<char>)
    ensures
        disk_after(disk, give_up(f, out).effects) == f.original,
{
    let said = out.push(
        EffectModel::Print(candidate(f.round) + ": still failing (incl. reflexion)\n"@),
    );
    let back = EffectModel::Write { path: f.job.path, content: f.original };
    lemma_disk_push(disk, said, back);
    lemma_begin_round_disk(
        FixModel { round: (f.round + 1) as usize, ..f },
        said.push(back),
        disk,
    );
}

proof fn lemma_settle_disk(f: FixModel, out: Seq<EffectModel>, disk: Seq<char>)
    ensures
        disk_after(disk, settle(f, out).effects) == disk_after(disk, out),
{
    lemma_disk_push(disk, out, settle(f, out).effects.last());
}

proof fn lemma_passed_disk(f: FixModel, disk: Seq<char>)
    ensures
        disk_after(disk, passed(f).effects) == disk,
{
    let changes = line_changes(f.original, f.written);
    let a = EffectModel::Print(banner(f.round, f.retried));
    let b = EffectModel::Print(colored(f.job.name, changes));
    assert(seq![a, b] =~= seq![a].push(b));
    lemma_disk_one(disk, a);
    lemma_disk_push(disk, seq![a], b);
    lemma_disk_push(disk, seq![a, b], passed(f).effects.last());
    lemma_settle_disk(f, seq![a, b], disk);
}

proof fn lemma_tested_disk(f: FixModel, code: i32, output: Seq<char>, l: Ledger)
    requires
        f.sound(),
        f.accepts(EventModel::Tested { code, output }),
        true_to(f, l),
    ensures
        true_to(
            tested(f, code, output).fix,
            entered(l, EventModel::Tested { code, output }, tested(f, code, output).effects),
        ),
        tested(f, code, output).fix.original == f.original,
        tested(f, code, output).fix.phase == Phase::Done && code != 0 ==> disk_after(
            l.disk,
            tested(f, code, output).effects,
        ) == f.original,
        tested(f, code, output).fix.phase == Phase::Done && code == 0 && f.phase
            != Phase::SecondRun ==> disk_after(l.disk, tested(f, code, output).effects) == l.disk,
        f.phase == Phase::SecondRun ==> disk_after(l.disk, tested(f, code, output).effects)
            == f.original,
{
    let d = l.disk;
    let none = Seq::<EffectModel>::empty();
    match f.phase {
        Phase::FirstRun => {
            if code == 0 {
                let out = seq![
                    EffectModel::Print(
                        "\x1b[32m✓ tests already pass — nothing to fix.\x1b[0m\n"@,
                    ),
                ];
                lemma_disk_one(d, out[0]);
                lemma_disk_push(d, out, EffectModel::Exit(0));
            } else {
                lemma_disk_push(d, none, EffectModel::Test);
            }
        },
        Phase::SecondRun => {
            let g = FixModel { failure: last_chars(output, FAILURE_CHARS as int), ..f };
            let out = seq![
                EffectModel::Print(
                    "\x1b[33m✗ failing. generating "@ + decimal(f.job.n as nat)
                        + " candidates…\x1b[0m\n"@,
                ),
            ];
            lemma_disk_one(d, out[0]);
            if f.job.memory {
                lemma_disk_push(d, out, EffectModel::Recall { bug: g.failure });
            } else {
                let h = FixModel {
                    prompt: prompt_text(g.job.name, g.original, g.failure, Seq::empty()),
                    ..g
                };
                lemma_begin_round_disk(h, out, d);
            }
        },
        Phase::Trying => {
            if code == 0 {
                lemma_passed_disk(f, d);
            } else {
                let out = shown(f, none, ": still failing — attempt:\n"@, output);
                lemma_shown_disk(f, none, ": still failing — attempt:\n"@, output, d);
                lemma_disk_push(d, out, try_failed(f, output).effects.last());
            }
        },
        _ => {
            if code == 0 {
                lemma_passed_disk(f, d);
            } else {
                let label = " (reflexion): still failing — attempt:\n"@;
                lemma_give_up_disk(f, shown(f, none, label, output), d);
            }
        },
    }
}

/// What a step leaves the file with is what the fix takes it to hold. When the fix ends with
/// success, the tests passed on just what the file holds; when it ends without, the file holds
/// what it held at first; and when the file cannot be read it is not touched.
pub proof fn law_step_keeps_ledger(f: FixModel, l: Ledger, e: EventModel)
    requires
        f.sound(),
        f.accepts(e),
        true_to(f, l),
        truthful(l, e),
    ensures
        step(f, e).fix.sound(),
        true_to(step(f, e).fix, entered(l, e, step(f, e).effects)),
        step(f, e).effects.last() == EffectModel::Exit(0) ==> entered(
            l,
            e,
            step(f, e).effects,
        ).tested == Some((entered(l, e, step(f, e).effects).disk, 0i32)),
        step(f, e).effects.last() == EffectModel::Exit(1) ==> entered(
            l,
            e,
            step(f, e).effects,
        ).disk == step(f, e).fix.original,
        step(f, e).effects.last() == EffectModel::Exit(2) ==> entered(
            l,
            e,
            step(f, e).effects,
        ).disk == l.disk,
{
    let d = l.disk;
    let t = step(f, e);
    let none = Seq::<EffectModel>::empty();
    match e {
        EventModel::FileRead(Ok(content)) => {
            let out = seq![EffectModel::Print("\x1b[36m● running tests…\x1b[0m\n"@)];
            lemma_disk_one(d, out[0]);
            lemma_disk_push(d, out, EffectModel::Test);
        },
        EventModel::FileRead(Err(error)) => {
            let out = t.effects.drop_last();
            lemma_disk_one(d, out[0]);
            assert(out =~= seq![out[0]]);
            lemma_disk_push(d, out, EffectModel::Exit(2));
        },
        EventModel::Tested { code, output } => {
            lemma_tested_disk(f, code, output, l);
        },
        EventModel::Recalled(found) => {
            match found {
                Ok(ps) => {
                    let out = if ps.len() == 0 {
                        none
                    } else {
                        seq![
                            EffectModel::Print(
                                "\x1b[36m● memory: "@ + decimal(ps.len())
                                    + " similar past fix(es) in this repo\x1b[0m\n"@,
                            ),
                        ]
                    };
                    if ps.len() > 0 {
                        lemma_disk_one(d, out[0]);
                    }
                    lemma_begin_round_disk(
                        FixModel {
                            prompt: prompt_text(
                                f.job.name,
                                f.original,
                                f.failure,
                                history_text(ps),
                            ),
                            ..f
                        },
                        out,
                        d,
                    );
                },
                Err(error) => {
                    let out = seq![
                        EffectModel::Warn(
                            "\x1b[33m  (memory lookup skipped: "@ + error + ")\x1b[0m\n"@,
                        ),
                    ];
                    lemma_disk_one(d, out[0]);
                    lemma_begin_round_disk(
                        FixModel {
                            prompt: prompt_text(f.job.name, f.original, f.failure, Seq::empty()),
                            ..f
                        },
                        out,
                        d,
                    );
                },
            }
        },
        EventModel::Replied(reply) => {
            lemma_replied_disk(f, reply, d);
        },
        EventModel::Recorded(error) => {
            let out = match error {
                Some(x) => seq![
                    EffectModel::Warn("\x1b[33m  (memory record skipped: "@ + x + ")\x1b[0m\n"@),
                ],
                None => none,
            };
            if error is Some {
                lemma_disk_one(d, out[0]);
            }
            lemma_settle_disk(f, out, d);
        },
        EventModel::Committed(code) => {
            let out = seq![EffectModel::Print(commit_line(code, f.retried))];
            lemma_disk_one(d, out[0]);
            lemma_disk_push(d, out, EffectModel::Exit(0));
        },
    }
}

proof fn lemma_replied_disk(f: FixModel, reply: Seq<char>, d: Seq<char>)
    requires
        f.sound(),
        f.accepts(EventModel::Replied(reply)),
        f.phase == Phase::Asking ==> d == f.original,
        f.phase == Phase::Reflecting ==> d == f.written,
    ensures
        ({
            let t = step(f, EventModel::Replied(reply));
            let after = disk_after(d, t.effects);
            &&& t.fix.original == f.original
            &&& t.fix.phase == Phase::Asking || t.fix.phase == Phase::Done ==> after
                == f.original
            &&& t.fix.phase == Phase::Trying || t.fix.phase == Phase::Retrying ==> after
                == t.fix.written
        }),
{
    let none = Seq::<EffectModel>::empty();
    let code = code_of(reply);
    let write = EffectModel::Write { path: f.job.path, content: file_of(code) };
    lemma_disk_one(d, write);
    lemma_disk_push(d, seq![write], EffectModel::Test);
    if f.phase == Phase::Asking {
        if !fresh(code, f.original) {
            let a = EffectModel::Print(candidate(f.round) + ": no change\n"@);
            lemma_disk_one(d, a);
            let b = EffectModel::Print(
                "\x1b[2m    (model returned "@ + (if code.len() == 0 {
                    "an empty response"@
                } else {
                    "the file unmodified"@
                }) + ")\x1b[0m\n"@,
            );
            lemma_disk_push(d, seq![a], b);
            let out = if f.job.verbose {
                seq![a].push(b)
            } else {
                seq![a]
            };
            lemma_begin_round_disk(FixModel { round: (f.round + 1) as usize, ..f }, out, d);
        }
    } else if !(fresh(code, f.written) && fresh(code, f.original)) {
        let out = if f.job.verbose {
            seq![
                EffectModel::Print(
                    candidate(f.round) + " (reflexion): no change from the reflexion prompt\n"@,
                ),
            ]
        } else {
            none
        };
        lemma_give_up_disk(f, out, d);
    }
}

/// The events can be reported one after the other.
pub open spec fn accepts_all(f: FixModel, events: Seq<EventModel>) -> bool
    decreases events.len(),
{
    events.len() > 0 ==> f.accepts(events[0]) && accepts_all(
        step(f, events[0]).fix,
        events.drop_first(),
    )
}

/// What a run of events ends with: the fix, the ledger, and the effects of the last event.
pub open spec fn ended(f: FixModel, l: Ledger, events: Seq<EventModel>) -> (
    FixModel,
    Ledger,
    Seq<EffectModel>,
)
    decreases events.len(),
{
    if events.len() == 0 {
        (f, l, Seq::empty())
    } else {
        let t = step(f, events[0]);
        let behind = entered(l, events[0], t.effects);
        if events.len() == 1 {
            (t.fix, behind, t.effects)
        } else {
            ended(t.fix, behind, events.drop_first())
        }
    }
}

proof fn lemma_run(f: FixModel, l: Ledger, events: Seq<EventModel>)
    requires
        f.sound(),
        true_to(f, l),
        f.phase != Phase::Reading,
        accepts_all(f, events),
        events.len() > 0,
    ensures
        ({
            let (g, m, effects) = ended(f, l, events);
            &&& effects.last() == EffectModel::Exit(0) ==> m.tested == Some((m.disk, 0i32))
            &&& effects.last() == EffectModel::Exit(1) ==> m.disk == f.original
            &&& effects.last() != EffectModel::Exit(2)
        }),
    decreases events.len(),
{
    law_step_keeps_ledger(f, l, events[0]);
    let t = step(f, events[0]);
    lemma_step_keeps_original(f, events[0]);
    if events.len() > 1 {
        assert(t.fix.phase != Phase::Reading);
        lemma_run(t.fix, entered(l, events[0], t.effects), events.drop_first());
    }
}

proof fn lemma_step_keeps_original(f: FixModel, e: EventModel)
    requires
        f.accepts(e),
        f.phase != Phase::Reading,
    ensures
        step(f, e).fix.original == f.original,
        step(f, e).fix.phase != Phase::Reading,
        step(f, e).effects.last() != EffectModel::Exit(2),
{
}

/// Verified or untouched. However the model, the tests and the memory behave, a fix of a file
/// that can be read and written ends with success only when the last run of the tests was on what
/// the file then holds and passed; and when it ends without success the file holds what it held
/// before.
pub proof fn law_verified_or_unchanged(
    job: JobModel,
    content: Seq<char>,
    tested: Option<(Seq<char>, i32)>,
    events: Seq<EventModel>,
)
    requires
        events.len() > 0,
        events[0] == EventModel::FileRead(Ok::<Seq<char>, Seq<char>>(content)),
        accepts_all(started(job).fix, events),
    ensures
        ({
            let (f, l, effects) = ended(
                started(job).fix,
                Ledger { disk: content, tested },
                events,
            );
            &&& effects.last() == EffectModel::Exit(0) ==> l.tested == Some((l.disk, 0i32))
            &&& effects.last() == EffectModel::Exit(1) ==> l.disk == content
            &&& effects.last() != EffectModel::Exit(2)
        }),
{
    let f = started(job).fix;
    let l = Ledger { disk: content, tested };
    law_step_keeps_ledger(f, l, events[0]);
    let t = step(f, events[0]);
    if events.len() > 1 {
        lemma_run(t.fix, entered(l, events[0], t.effects), events.drop_first());
    }
}

/// Only code of the model's that changes something is ever tried: what is written to the file is
/// either the file as it was, or the code of the reply at hand with a line feed, where that code
/// is not empty and differs from the file in more than white space at the ends.
pub proof fn law_only_changes_are_tried(f: FixModel, e: EventModel, i: int)
    requires
        f.sound(),
        f.accepts(e),
        0 <= i < step(f, e).effects.len(),
        step(f, e).effects[i] is Write,
    ensures
        step(f, e).effects[i]->Write_path == f.job.path,
        step(f, e).effects[i]->content == f.original || (e is Replied && step(
            f,
            e,
        ).effects[i]->content == file_of(code_of(e->Replied_0)) && fresh(
            code_of(e->Replied_0),
            f.original,
        )),
{
}

/// Fixes are recalled and remembered only where that was ordered, a fix is committed only where
/// that was ordered, and both remembering and committing come only behind tests that passed on
/// what was written.
pub proof fn law_memory_and_commits_are_ordered(f: FixModel, l: Ledger, e: EventModel, i: int)
    requires
        f.sound(),
        f.accepts(e),
        true_to(f, l),
        truthful(l, e),
        0 <= i < step(f, e).effects.len(),
    ensures
        step(f, e).effects[i] is Recall ==> f.job.memory,
        step(f, e).effects[i] is Record ==> f.job.memory && entered(
            l,
            e,
            step(f, e).effects,
        ).tested == Some((f.written, 0i32)),
        step(f, e).effects[i] is Commit ==> f.job.commit && entered(
            l,
            e,
            step(f, e).effects,
        ).tested == Some((f.written, 0i32)),
{
}

/// How often the model is asked in a list of effects.
pub open spec fn asks(effects: Seq<EffectModel>) -> int
    decreases effects.len(),
{
    if effects.len() == 0 {
        0
    } else {
        asks(effects.drop_last()) + if effects.last() is Ask {
            1int
        } else {
            0
        }
    }
}

/// How often a fix can still ask the model.
pub open spec fn asks_left(f: FixModel) -> int {
    match f.phase {
        Phase::Reading | Phase::FirstRun | Phase::SecondRun | Phase::Recalling => 2 * f.job.n,
        Phase::Asking | Phase::Trying => 2 * (f.job.n - f.round) - 1,
        Phase::Reflecting | Phase::Retrying => 2 * (f.job.n - f.round) - 2,
        Phase::Recording | Phase::Committing | Phase::Done => 0,
    }
}

/// Only the last of the effects of a step can ask the model.
proof fn lemma_asks_last(effects: Seq<EffectModel>)
    requires
        effects.len() > 0,
        forall|i: int| 0 <= i < effects.len() - 1 ==> !(#[trigger] effects[i] is Ask),
    ensures
        asks(effects) == if effects.last() is Ask {
            1int
        } else {
            0
        },
    decreases effects.len(),
{
    if effects.len() > 1 {
        let front = effects.drop_last();
        assert(!(effects[effects.len() - 2] is Ask));
        lemma_asks_last(front);
    } else {
        assert(asks(effects.drop_last()) == 0);
    }
}

/// A step asks the model no more often than two tries for each candidate allow: what it asks and
/// what can still be asked behind it is no more than could be asked before it.
pub proof fn law_step_spends_asks(f: FixModel, e: EventModel)
    requires
        f.sound(),
        f.accepts(e),
    ensures
        asks(step(f, e).effects) + asks_left(step(f, e).fix) <= asks_left(f),
        asks_left(step(f, e).fix) >= 0,
{
    lemma_asks_last(step(f, e).effects);
}

proof fn lemma_asks_join(x: Seq<EffectModel>, y: Seq<EffectModel>)
    ensures
        asks(x + y) == asks(x) + asks(y),
    decreases y.len(),
{
    if y.len() == 0 {
        assert(x + y =~= x);
    } else {
        lemma_asks_join(x, y.drop_last());
        assert((x + y).drop_last() =~= x + y.drop_last());
    }
}

/// All that a fix wants done while events are reported to it.
pub open spec fn effects_of(f: FixModel, events: Seq<EventModel>) -> Seq<EffectModel>
    decreases events.len(),
{
    if events.len() == 0 {
        Seq::empty()
    } else {
        step(f, events[0]).effects + effects_of(step(f, events[0]).fix, events.drop_first())
    }
}

/// A fix stays sound whatever is reported to it.
pub proof fn law_step_keeps_sound(f: FixModel, e: EventModel)
    requires
        f.sound(),
        f.accepts(e),
    ensures
        step(f, e).fix.sound(),
{
}

proof fn lemma_run_spends_asks(f: FixModel, events: Seq<EventModel>)
    requires
        f.sound(),
        accepts_all(f, events),
        asks_left(f) >= 0,
    ensures
        asks(effects_of(f, events)) <= asks_left(f),
    decreases events.len(),
{
    if events.len() > 0 {
        let t = step(f, events[0]);
        law_step_keeps_sound(f, events[0]);
        law_step_spends_asks(f, events[0]);
        lemma_run_spends_asks(t.fix, events.drop_first());
        lemma_asks_join(t.effects, effects_of(t.fix, events.drop_first()));
    }
}

/// A whole fix asks the model at most twice for each candidate that was ordered.
pub proof fn law_fix_is_bounded(job: JobModel, events: Seq<EventModel>)
    requires
        accepts_all(started(job).fix, events),
    ensures
        asks(effects_of(started(job).fix, events)) <= 2 * job.n,
{
    lemma_run_spends_asks(started(job).fix, events);
}

/// What is tried differs from the file by a line at least: its difference shows a change.
pub proof fn law_tries_show_a_change(
    changes: Seq<(Tag, Seq<char>)>,
    original: Seq<char>,
    code: Seq<char>,
)
    requires
        fresh(code, original),
        tells(changes, original, file_of(code)),
    ensures
        exists|i: int| 0 <= i < changes.len() && (#[trigger] changes[i]).0 != Tag::Equal,
{
    reveal_strlit("\n");
    assert(file_of(code) =~= code.push('\n'));
    lemma_trimmed_push(code, '\n');
    assert(original + "\n"@ =~= original.push('\n'));
    lemma_trimmed_push(original, '\n');
    law_difference_is_shown(changes, original, file_of(code));
}

} // verus!

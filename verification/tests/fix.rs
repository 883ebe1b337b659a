use merle::fix::{
    fix_prompt, history_block, reflect_prompt, resolve, Effect, Event, Fix, Job, Precedent, Sampling,
};

fn text(effect: &Effect) -> String {
    match effect {
        Effect::Print(s) => format!("print {s}"),
        Effect::Warn(s) => format!("warn {s}"),
        Effect::Read { path } => format!("read {path}"),
        Effect::Write { path, content } => format!("write {path} {content}"),
        Effect::Test => "test".to_string(),
        Effect::Recall { bug } => format!("recall {bug}"),
        Effect::Ask { prompt: _, sampling: Sampling::Candidate(n) } => format!("ask {n}"),
        Effect::Ask { prompt: _, sampling: Sampling::Reflexion } => "ask again".to_string(),
        Effect::Record { bug, diff } => format!("record {bug}|{diff}"),
        Effect::Commit { command } => format!("commit {command}"),
        Effect::Exit(code) => format!("exit {code}"),
    }
}

fn texts(effects: Vec<Effect>) -> Vec<String> {
    effects.iter().map(text).collect()
}

fn job(n: usize) -> Job {
    Job {
        file: "calc.py".to_string(),
        name: "calc.py".to_string(),
        path: "./calc.py".to_string(),
        n,
        commit: false,
        verbose: false,
        memory: false,
    }
}

fn report(fix: &mut Fix, event: Event) -> Vec<String> {
    assert!(fix.is_accepted(&event));
    texts(fix.step(event))
}

fn tested(code: i32, output: &str) -> Event {
    Event::Tested { code, output: output.to_string() }
}

fn replied(code: &str) -> Event {
    Event::Replied(format!("```python\n{code}\n```"))
}

/// A fix whose file holds `x = 1` and whose tests fail, at its first question.
fn failing(job: Job) -> (Fix, Vec<String>) {
    let (mut fix, first) = Fix::start(job);
    assert_eq!(texts(first), ["read ./calc.py"]);
    let effects = report(&mut fix, Event::FileRead(Ok("x = 1\n".to_string())));
    assert_eq!(effects, ["print \x1b[36m● running tests…\x1b[0m\n", "test"]);
    assert_eq!(report(&mut fix, tested(1, "first")), ["test"]);
    let effects = report(&mut fix, tested(1, "assert x == 2"));
    (fix, effects)
}

#[test]
fn place_of_a_fix_is_resolved() {
    let place = |file, parent, name, absolute, repo| {
        let t = resolve(file, parent, name, absolute, repo);
        [t.repo, t.file, t.name, t.path]
    };
    // In the directory of the file.
    assert_eq!(
        place("src/calc.py", Some("src"), Some("calc.py"), false, None),
        ["src", "calc.py", "calc.py", "src/calc.py"]
    );
    assert_eq!(
        place("a.py", Some(""), Some("a.py"), false, None),
        [".", "a.py", "a.py", "./a.py"]
    );
    // In a directory that was named.
    assert_eq!(
        place("ms.py", Some(""), Some("ms.py"), false, Some("/x//")),
        ["/x//", "ms.py", "ms.py", "/x/ms.py"]
    );
    assert_eq!(
        place("src/ms.py", Some("src"), Some("ms.py"), false, Some("/x")),
        ["/x", "src/ms.py", "ms.py", "/x/src/ms.py"]
    );
    // By an absolute path.
    assert_eq!(
        place("/y/b.py", Some("/y"), Some("b.py"), true, Some("/x")),
        ["/x", "/y/b.py", "b.py", "/y/b.py"]
    );
    assert_eq!(
        place("/y/b.py", Some("/y"), Some("b.py"), true, None),
        ["/y", "/y/b.py", "b.py", "/y/b.py"]
    );
    // Without a name.
    assert_eq!(place("..", Some(""), None, false, None), [".", "..", "..", "./.."]);
}

#[test]
fn prompts_are_put_together() {
    let prompt = fix_prompt("f.py", "code", "E assert 1 == 2", "H");
    assert_eq!(
        prompt,
        "This file fails its tests. Output ONLY the corrected full file, nothing else.\n\n\
         === f.py ===\ncode\n\n=== test failure ===\nE assert 1 == 2\n\
         === THE EXACT FAILING ASSERTION (fix THIS condition — watch for flipped >/</>=/<=/==/!= and off-by-one) ===\n\
         E assert 1 == 2\nH"
    );
    assert_eq!(
        reflect_prompt("P", &"o".repeat(700)),
        format!(
            "P\n=== your previous attempt STILL FAILED with ===\n{}\n\
             === reflect on exactly WHY it failed, then output the corrected full file ===\n",
            "o".repeat(600)
        )
    );
}

#[test]
fn precedents_are_put_together() {
    assert_eq!(history_block(&Vec::new()), "");
    let found = vec![
        Precedent { diff: "d1".to_string(), similarity: "0.91".to_string() },
        Precedent { diff: "x".repeat(900), similarity: "0.50".to_string() },
    ];
    assert_eq!(
        history_block(&found),
        format!(
            "\n=== similar past fixes in this repo ===\n(similarity 0.91)\nd1\n\n(similarity 0.50)\n{}\n",
            "x".repeat(800)
        )
    );
}

#[test]
fn file_that_cannot_be_read_ends_the_fix() {
    let (mut fix, _) = Fix::start(job(5));
    let effects = report(&mut fix, Event::FileRead(Err("No such file".to_string())));
    assert_eq!(effects, ["warn ✗ can't read ./calc.py: No such file\n", "exit 2"]);
    assert!(!fix.is_accepted(&tested(0, "")));
}

#[test]
fn passing_tests_leave_nothing_to_fix() {
    let (mut fix, _) = Fix::start(job(5));
    report(&mut fix, Event::FileRead(Ok("x".to_string())));
    let effects = report(&mut fix, tested(0, ""));
    assert_eq!(effects, ["print \x1b[32m✓ tests already pass — nothing to fix.\x1b[0m\n", "exit 0"]);
}

#[test]
fn candidate_that_passes_stays() {
    let (mut fix, effects) = failing(job(3));
    assert_eq!(effects, ["print \x1b[33m✗ failing. generating 3 candidates…\x1b[0m\n", "ask 0"]);
    assert_eq!(report(&mut fix, replied("x = 2")), ["write ./calc.py x = 2\n", "test"]);
    let effects = report(&mut fix, tested(0, "ok"));
    assert_eq!(effects.len(), 3);
    assert_eq!(effects[0], "print \x1b[32m✓ candidate 1 PASSES — verified fix applied:\x1b[0m\n");
    assert!(effects[1].contains("\x1b[31m-x = 1\n\x1b[0m\x1b[32m+x = 2\n\x1b[0m"));
    assert_eq!(effects[2], "exit 0");
}

#[test]
fn prompt_bears_the_end_of_the_second_run() {
    let (mut fix, _) = Fix::start(job(1));
    report(&mut fix, Event::FileRead(Ok("x".to_string())));
    report(&mut fix, tested(1, "first"));
    let output = format!("{}{}", "old".repeat(10), "n".repeat(1200));
    let effects = fix.step(tested(0, &output));
    assert!(matches!(
        &effects[1],
        Effect::Ask { prompt, sampling: Sampling::Candidate(0) }
            if *prompt == fix_prompt("calc.py", "x", &"n".repeat(1200), "")
    ));
}

#[test]
fn candidates_without_a_change_are_not_tried() {
    let (mut fix, _) = failing(job(2));
    assert_eq!(report(&mut fix, replied("  x = 1")), ["print   candidate 1: no change\n", "ask 1"]);
    assert_eq!(
        report(&mut fix, Event::Replied(String::new())),
        [
            "print   candidate 2: no change\n",
            "print \x1b[31m✗ no verified fix in 2 candidates (file unchanged). Try --n higher.\x1b[0m\n",
            "exit 1"
        ]
    );
}

#[test]
fn second_try_that_passes_stays() {
    let (mut fix, _) = failing(job(1));
    report(&mut fix, replied("x = 3"));
    assert_eq!(report(&mut fix, tested(1, "still bad")), ["ask again"]);
    assert_eq!(report(&mut fix, replied("x = 2")), ["write ./calc.py x = 2\n", "test"]);
    let effects = report(&mut fix, tested(0, ""));
    assert_eq!(
        effects[0],
        "print \x1b[32m✓ candidate 1 PASSES after Reflexion — verified fix applied:\x1b[0m\n"
    );
    assert_eq!(effects[2], "exit 0");
}

#[test]
fn file_is_put_back_behind_a_failed_round() {
    let (mut fix, _) = failing(job(1));
    report(&mut fix, replied("x = 3"));
    report(&mut fix, tested(1, "bad"));
    report(&mut fix, replied("x = 4"));
    assert_eq!(
        report(&mut fix, tested(1, "bad")),
        [
            "print   candidate 1: still failing (incl. reflexion)\n",
            "write ./calc.py x = 1\n",
            "print \x1b[31m✗ no verified fix in 1 candidates (file unchanged). Try --n higher.\x1b[0m\n",
            "exit 1"
        ]
    );
}

#[test]
fn second_try_without_a_change_is_not_tried() {
    for again in ["x = 3", "x = 1", ""] {
        let (mut fix, _) = failing(job(2));
        report(&mut fix, replied("x = 3"));
        report(&mut fix, tested(1, "bad"));
        assert_eq!(
            report(&mut fix, replied(again)),
            [
                "print   candidate 1: still failing (incl. reflexion)\n",
                "write ./calc.py x = 1\n",
                "ask 1"
            ]
        );
    }
}

#[test]
fn no_candidates_are_asked_for_where_none_is_ordered() {
    let (_, effects) = failing(job(0));
    assert_eq!(
        effects,
        [
            "print \x1b[33m✗ failing. generating 0 candidates…\x1b[0m\n",
            "print \x1b[31m✗ no verified fix in 0 candidates (file unchanged). Try --n higher.\x1b[0m\n",
            "exit 1"
        ]
    );
}

#[test]
fn model_is_asked_at_most_twice_for_each_candidate() {
    let (mut fix, effects) = failing(job(4));
    let mut asked = effects.iter().filter(|e| e.starts_with("ask")).count();
    let mut disk = "x = 1\n".to_string();
    let mut next = effects.last().unwrap().clone();
    let mut tries = 2;
    while !next.starts_with("exit") {
        let event = if next == "test" {
            tested(1, "bad")
        } else {
            tries += 1;
            replied(&format!("x = {tries}"))
        };
        let effects = report(&mut fix, event);
        asked += effects.iter().filter(|e| e.starts_with("ask")).count();
        for effect in &effects {
            if let Some(content) = effect.strip_prefix("write ./calc.py ") {
                disk = content.to_string();
            }
        }
        next = effects.last().unwrap().clone();
    }
    assert_eq!(asked, 8);
    assert_eq!(next, "exit 1");
    assert_eq!(disk, "x = 1\n");
}

#[test]
fn fix_is_committed() {
    let (mut fix, _) = failing(Job { commit: true, ..job(1) });
    report(&mut fix, replied("x = 2"));
    let effects = report(&mut fix, tested(0, ""));
    assert_eq!(effects[2], "commit git add calc.py && git commit -q -m 'merle: verified fix'");
    assert_eq!(report(&mut fix, Event::Committed(0)), ["print \x1b[32m  ✓ committed\x1b[0m\n", "exit 0"]);
}

#[test]
fn commit_that_fails_is_skipped() {
    let (mut fix, _) = failing(Job { commit: true, ..job(1) });
    report(&mut fix, replied("x = 2"));
    report(&mut fix, tested(0, ""));
    assert_eq!(
        report(&mut fix, Event::Committed(1)),
        ["print \x1b[33m  (commit skipped — not a git repo, or nothing to commit)\x1b[0m\n", "exit 0"]
    );
}

#[test]
fn second_try_is_committed_as_such() {
    let (mut fix, _) = failing(Job { commit: true, ..job(1) });
    report(&mut fix, replied("x = 3"));
    report(&mut fix, tested(1, ""));
    report(&mut fix, replied("x = 2"));
    let effects = report(&mut fix, tested(0, ""));
    assert_eq!(
        effects[2],
        "commit git add calc.py && git commit -q -m 'merle: verified fix (reflexion)'"
    );
    assert_eq!(report(&mut fix, Event::Committed(1)), ["print \x1b[33m  (commit skipped)\x1b[0m\n", "exit 0"]);
}

#[test]
fn precedents_are_recalled_and_fixes_remembered() {
    let (mut fix, effects) = failing(Job { memory: true, ..job(1) });
    assert_eq!(effects[1], "recall assert x == 2");
    let found = vec![Precedent { diff: "d".to_string(), similarity: "0.80".to_string() }];
    let block = history_block(&found);
    let effects = fix.step(Event::Recalled(Ok(found)));
    assert_eq!(text(&effects[0]), "print \x1b[36m● memory: 1 similar past fix(es) in this repo\x1b[0m\n");
    assert!(matches!(
        &effects[1],
        Effect::Ask { prompt, sampling: Sampling::Candidate(0) }
            if *prompt == fix_prompt("calc.py", "x = 1\n", "assert x == 2", &block)
    ));
    report(&mut fix, replied("x = 2"));
    let effects = report(&mut fix, tested(0, ""));
    assert_eq!(
        effects[2],
        "record assert x == 2|--- a/calc.py\n+++ b/calc.py\n-x = 1\n+x = 2\n"
    );
    assert_eq!(report(&mut fix, Event::Recorded(None)), ["exit 0"]);
}

#[test]
fn memory_that_fails_is_skipped() {
    let (mut fix, _) = failing(Job { memory: true, commit: true, ..job(1) });
    assert_eq!(
        report(&mut fix, Event::Recalled(Err("no disk".to_string()))),
        ["warn \x1b[33m  (memory lookup skipped: no disk)\x1b[0m\n", "ask 0"]
    );
    report(&mut fix, replied("x = 2"));
    report(&mut fix, tested(0, ""));
    assert_eq!(
        report(&mut fix, Event::Recorded(Some("no disk".to_string()))),
        [
            "warn \x1b[33m  (memory record skipped: no disk)\x1b[0m\n",
            "commit git add calc.py && git commit -q -m 'merle: verified fix'"
        ]
    );
}

#[test]
fn memory_without_precedents_says_nothing() {
    let (mut fix, _) = failing(Job { memory: true, ..job(1) });
    assert_eq!(report(&mut fix, Event::Recalled(Ok(Vec::new()))), ["ask 0"]);
}

#[test]
fn failed_tries_are_shown_where_wanted() {
    let (mut fix, _) = failing(Job { verbose: true, ..job(3) });
    assert_eq!(
        report(&mut fix, Event::Replied(" \n".to_string())),
        [
            "print   candidate 1: no change\n",
            "print \x1b[2m    (model returned an empty response)\x1b[0m\n",
            "ask 1"
        ]
    );
    assert_eq!(
        report(&mut fix, replied("x = 1"))[1],
        "print \x1b[2m    (model returned the file unmodified)\x1b[0m\n"
    );
    report(&mut fix, replied("x = 3"));
    let effects = report(&mut fix, tested(1, "a\nb"));
    assert_eq!(effects[0], "print   candidate 3: still failing — attempt:\n");
    assert!(effects[1].starts_with("print --- a/calc.py\n+++ b/calc.py\n"));
    assert_eq!(effects[2], "print \x1b[2m    test output: a\n    b\x1b[0m\n");
    assert_eq!(effects[3], "ask again");
    assert_eq!(
        report(&mut fix, replied("x = 3"))[0],
        "print   candidate 3 (reflexion): no change from the reflexion prompt\n"
    );
}

#[test]
fn failed_second_tries_are_shown_where_wanted() {
    let (mut fix, _) = failing(Job { verbose: true, ..job(1) });
    report(&mut fix, replied("x = 3"));
    report(&mut fix, tested(1, "bad"));
    report(&mut fix, replied("x = 4"));
    let effects = report(&mut fix, tested(1, &"e".repeat(400)));
    assert_eq!(effects[0], "print   candidate 1 (reflexion): still failing — attempt:\n");
    assert!(effects[1].contains("+x = 4\n"));
    assert_eq!(effects[2], format!("print \x1b[2m    test output: {}\x1b[0m\n", "e".repeat(300)));
    assert_eq!(effects[3], "print   candidate 1: still failing (incl. reflexion)\n");
}

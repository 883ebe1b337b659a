//! The tools of the agent: what a call asks for, and what the model is told of how it went.

use crate::json::{object, parsed, read, text_or, tree, write_text, written, Json};
use crate::text::{
    join, joined, law_cuts_are_marked, law_line_feeds_are_replaced, refed, replace_line_feeds, same,
    signed_decimal, trunc, truncated, views, write_signed,
};
use vstd::prelude::*;
use vstd::string::*;
use vstd::utf8::encode_utf8;

verus! {

// ---- what a call asks for -----------------------------------------------------------------

/// What a call asks for: an action in the repository, or an answer that needs none.
pub enum Plan {
    Read { path: String },
    List { path: String },
    Search { command: String },
    Write { path: String, content: String },
    Run { command: String },
    Answer { text: String },
}

/// What a [`Plan`] holds.
pub enum PlanModel {
    Read { path: Seq<char> },
    List { path: Seq<char> },
    Search { command: Seq<char> },
    Write { path: Seq<char>, content: Seq<char> },
    Run { command: Seq<char> },
    Answer { text: Seq<char> },
}

impl View for Plan {
    type V = PlanModel;

    open spec fn view(&self) -> PlanModel {
        match self {
            Plan::Read { path } => PlanModel::Read { path: path@ },
            Plan::List { path } => PlanModel::List { path: path@ },
            Plan::Search { command } => PlanModel::Search { command: command@ },
            Plan::Write { path, content } => PlanModel::Write { path: path@, content: content@ },
            Plan::Run { command } => PlanModel::Run { command: command@ },
            Plan::Answer { text } => PlanModel::Answer { text: text@ },
        }
    }
}

/// The text that the standard library's debug format writes for a string: the string in double
/// quotes, with escapes.
pub uninterp spec fn quoted(s: Seq<char>) -> Seq<char>;

/// The debug format of `str`. Which characters it escapes, and how, is left to the standard
/// library.
#[verifier::external_body]
fn quote(s: &str) -> (r: String)
    ensures
        r@ == quoted(s@),
{
    format!("{:?}", s)
}

/// The command that searches a repository for a pattern.
pub open spec fn search_command(pattern: Seq<char>) -> Seq<char> {
    quoted_search(quoted(pattern))
}

/// The command that searches a repository for a pattern that is already quoted.
pub open spec fn quoted_search(pattern: Seq<char>) -> Seq<char> {
    "grep -rn "@ + pattern + " . 2>/dev/null | head -40"@
}

/// The arguments of a call: what its text denotes, and no arguments where that is no JSON.
pub open spec fn arguments_json(text: Seq<char>) -> Json {
    match parsed(text) {
        Some(j) => j,
        None => Json::empty(),
    }
}

/// A text among the arguments, empty where it is missing or no text.
pub open spec fn argument(args: Json, key: Seq<char>) -> Seq<char> {
    args.member(key).text_or(Seq::empty())
}

/// What a call of the tool `name` asks for.
pub open spec fn plan(name: Seq<char>, args: Json) -> PlanModel {
    if name == "read_file"@ {
        PlanModel::Read { path: argument(args, "path"@) }
    } else if name == "list_dir"@ {
        PlanModel::List { path: argument(args, "path"@) }
    } else if name == "grep"@ {
        PlanModel::Search { command: search_command(argument(args, "pattern"@)) }
    } else if name == "write_file"@ {
        PlanModel::Write {
            path: argument(args, "path"@),
            content: argument(args, "content"@),
        }
    } else if name == "run"@ {
        PlanModel::Run { command: argument(args, "cmd"@) }
    } else if name == "done"@ {
        PlanModel::Answer { text: "done: "@ + argument(args, "summary"@) }
    } else {
        PlanModel::Answer { text: "unknown tool: "@ + name }
    }
}

/// The command that searches a repository for a pattern that is already quoted.
pub fn write_search(pattern: &str) -> (r: String)
    ensures
        r@ == quoted_search(pattern@),
{
    let mut r = "grep -rn ".to_owned();
    r.append(pattern);
    r.append(" . 2>/dev/null | head -40");
    r
}

/// A text among the arguments, empty where it is missing or no text.
fn argument_text(args: &serde_json::Value, key: &str) -> (r: String)
    ensures
        r@ == argument(tree(*args), key@),
{
    proof {
        reveal_strlit("");
        assert(""@ =~= Seq::empty());
    }
    text_or(args, key, "")
}

/// The arguments of a call: what its text denotes, and no arguments where that is no JSON.
pub fn read_arguments(text: &str) -> (r: serde_json::Value)
    ensures
        tree(r) == arguments_json(text@),
{
    match read(text) {
        Some(v) => v,
        None => object(),
    }
}

/// What a call of the tool `name` asks for.
pub fn plan_call(name: &str, args: &serde_json::Value) -> (r: Plan)
    ensures
        r@ == plan(name@, tree(*args)),
{
    if same(name, "read_file") {
        Plan::Read { path: argument_text(args, "path") }
    } else if same(name, "list_dir") {
        Plan::List { path: argument_text(args, "path") }
    } else if same(name, "grep") {
        let pattern = quote(argument_text(args, "pattern").as_str());
        Plan::Search { command: write_search(pattern.as_str()) }
    } else if same(name, "write_file") {
        Plan::Write {
            path: argument_text(args, "path"),
            content: argument_text(args, "content"),
        }
    } else if same(name, "run") {
        Plan::Run { command: argument_text(args, "cmd") }
    } else if same(name, "done") {
        let mut text = "done: ".to_owned();
        text.append(argument_text(args, "summary").as_str());
        Plan::Answer { text }
    } else {
        let mut text = "unknown tool: ".to_owned();
        text.append(name);
        Plan::Answer { text }
    }
}

/// The line that announces a call.
pub open spec fn announced(name: Seq<char>, arguments: Seq<char>) -> Seq<char> {
    "\x1b[36m  ● "@ + name + " "@ + refed(truncated(arguments, 100), " "@) + "\x1b[0m\n"@
}

/// The line that announces a call, given its arguments as text.
pub fn announcement(name: &str, arguments: &str) -> (r: String)
    ensures
        r@ == announced(name@, arguments@),
{
    let mut r = "\x1b[36m  ● ".to_owned();
    r.append(name);
    r.append(" ");
    r.append(replace_line_feeds(trunc(arguments, 100).as_str(), " ").as_str());
    r.append("\x1b[0m\n");
    r
}

/// The line that announces a call.
pub fn announce(name: &str, args: &serde_json::Value) -> (r: String)
    ensures
        r@ == announced(name@, written(tree(*args))),
{
    announcement(name, write_text(args).as_str())
}

// ---- what the model is told ---------------------------------------------------------------

/// The characters of a result or of an error.
pub open spec fn outcome(r: Result<String, String>) -> Result<Seq<char>, Seq<char>> {
    match r {
        Ok(s) => Ok(s@),
        Err(e) => Err(e@),
    }
}

/// What is told of an error.
pub open spec fn failed(error: Seq<char>) -> Seq<char> {
    "error: "@ + error
}

/// What is told of a file that was read.
pub open spec fn read_told(content: Result<Seq<char>, Seq<char>>) -> Seq<char> {
    match content {
        Ok(c) => truncated(c, 4000),
        Err(e) => failed(e),
    }
}

/// What is told of a directory that was listed: its entries in order, a line each.
pub open spec fn list_told(entries: Result<Seq<Seq<char>>, Seq<char>>) -> Seq<char> {
    match entries {
        Ok(names) => joined(in_order(names), "\n"@),
        Err(e) => failed(e),
    }
}

/// What is told of a file that was to be written.
pub open spec fn write_told(path: Seq<char>, error: Option<Seq<char>>) -> Seq<char> {
    match error {
        None => "wrote "@ + path,
        Some(e) => failed(e),
    }
}

/// What is told of a search.
pub open spec fn search_told(output: Seq<char>) -> Seq<char> {
    truncated(output, 2000)
}

/// What is told of a command that ran.
pub open spec fn run_told(code: i32, output: Seq<char>) -> Seq<char> {
    truncated("exit="@ + signed_decimal(code as int) + "\n"@ + output, 3000)
}

/// What is told of a command that was not run.
pub open spec fn block_told(warning: Seq<char>) -> Seq<char> {
    "BLOCKED — not executed: "@ + warning + BLOCK_ADVICE@
}

/// The advice that goes with a command that was not run.
pub const BLOCK_ADVICE: &'static str = "\n\nThis command would permanently discard \
                     uncommitted work. Not run. If this is genuinely what the task needs, back it up \
                     first (e.g. `git stash` or copy the file elsewhere), or report back that this \
                     needs explicit confirmation rather than guessing.";

/// What is told of an error.
fn tell_error(error: &str) -> (r: String)
    ensures
        r@ == failed(error@),
{
    let mut r = "error: ".to_owned();
    r.append(error);
    r
}

/// What is told of a file that was read.
pub fn tell_read(content: &Result<String, String>) -> (r: String)
    ensures
        r@ == read_told(outcome(*content)),
{
    match content {
        Ok(c) => trunc(c.as_str(), 4000),
        Err(e) => tell_error(e.as_str()),
    }
}

/// The characters of a list of names or of an error.
pub open spec fn listing(r: Result<Vec<String>, String>) -> Result<Seq<Seq<char>>, Seq<char>> {
    match r {
        Ok(names) => Ok(views(names@)),
        Err(e) => Err(e@),
    }
}

/// What is told of a directory that was listed.
pub fn tell_list(entries: Result<Vec<String>, String>) -> (r: String)
    ensures
        r@ == list_told(listing(entries)),
{
    match entries {
        Ok(names) => {
            let sorted = put_in_order(names);
            join(&sorted, "\n")
        },
        Err(e) => tell_error(e.as_str()),
    }
}

/// What is told of a file that was to be written.
pub fn tell_write(path: &str, error: &Option<String>) -> (r: String)
    ensures
        r@ == write_told(path@, crate::message::optional(*error)),
{
    match error {
        None => {
            let mut r = "wrote ".to_owned();
            r.append(path);
            r
        },
        Some(e) => tell_error(e.as_str()),
    }
}

/// What is told of a search.
pub fn tell_search(output: &str) -> (r: String)
    ensures
        r@ == search_told(output@),
{
    trunc(output, 2000)
}

/// What is told of a command that ran.
pub fn tell_run(code: i32, output: &str) -> (r: String)
    ensures
        r@ == run_told(code, output@),
{
    let mut all = "exit=".to_owned();
    all.append(write_signed(code).as_str());
    all.append("\n");
    all.append(output);
    trunc(all.as_str(), 3000)
}

/// What is told of a command that was not run.
pub fn tell_block(warning: &str) -> (r: String)
    ensures
        r@ == block_told(warning@),
{
    let mut r = "BLOCKED — not executed: ".to_owned();
    r.append(warning);
    r.append(BLOCK_ADVICE);
    r
}

// ---- order --------------------------------------------------------------------------------

/// Byte sequences in the order of a dictionary.
pub open spec fn bytes_ordered(a: Seq<u8>, b: Seq<u8>) -> bool
    decreases a.len(),
{
    ||| a.len() == 0
    ||| b.len() > 0 && (a[0] < b[0] || a[0] == b[0] && bytes_ordered(
        a.drop_first(),
        b.drop_first(),
    ))
}

/// Strings in the order of their bytes.
pub open spec fn ordered(a: Seq<char>, b: Seq<char>) -> bool {
    bytes_ordered(encode_utf8(a), encode_utf8(b))
}

/// A list in order with `name` put at its place.
pub open spec fn placed(names: Seq<Seq<char>>, name: Seq<char>) -> Seq<Seq<char>>
    decreases names.len(),
{
    if names.len() == 0 || ordered(names.last(), name) {
        names.push(name)
    } else {
        placed(names.drop_last(), name).push(names.last())
    }
}

/// The names in order.
pub open spec fn in_order(names: Seq<Seq<char>>) -> Seq<Seq<char>>
    decreases names.len(),
{
    if names.len() == 0 {
        names
    } else {
        placed(in_order(names.drop_last()), names.last())
    }
}

/// Whether two strings are in the order of their bytes.
fn is_ordered(a: &str, b: &str) -> (r: bool)
    ensures
        r == ordered(a@, b@),
{
    let x = a.as_bytes();
    let y = b.as_bytes();
    let mut i: usize = 0;
    assert(x@.skip(0) =~= x@);
    assert(y@.skip(0) =~= y@);
    while i < x.len()
        invariant
            x@ == encode_utf8(a@),
            y@ == encode_utf8(b@),
            i <= x@.len(),
            i <= y@.len(),
            bytes_ordered(x@, y@) == bytes_ordered(x@.skip(i as int), y@.skip(i as int)),
        decreases x@.len() - i,
    {
        if i >= y.len() || x[i] > y[i] {
            return false;
        }
        if x[i] < y[i] {
            return true;
        }
        assert(x@.skip(i as int).drop_first() =~= x@.skip(i + 1));
        assert(y@.skip(i as int).drop_first() =~= y@.skip(i + 1));
        i += 1;
    }
    true
}

proof fn lemma_placed(names: Seq<Seq<char>>, name: Seq<char>, i: int)
    requires
        0 <= i <= names.len(),
        forall|j: int| i <= j < names.len() ==> !ordered(#[trigger] names[j], name),
        i == 0 || ordered(names[i - 1], name),
    ensures
        placed(names, name) == names.insert(i, name),
    decreases names.len(),
{
    if i == names.len() {
        assert(names.insert(i, name) =~= names.push(name));
    } else {
        let front = names.drop_last();
        assert(!ordered(names[names.len() - 1], name));
        assert forall|j: int| i <= j < front.len() implies !ordered(#[trigger] front[j], name) by {
            assert(front[j] == names[j]);
        }
        lemma_placed(front, name, i);
        assert(names.insert(i, name) =~= front.insert(i, name).push(names.last()));
    }
}

/// The names in order.
fn put_in_order(names: Vec<String>) -> (r: Vec<String>)
    ensures
        views(r@) == in_order(views(names@)),
{
    let mut r: Vec<String> = Vec::new();
    let mut k: usize = 0;
    assert(views(r@) =~= views(names@).take(0));
    while k < names.len()
        invariant
            k <= names@.len(),
            views(r@) == in_order(views(names@).take(k as int)),
        decreases names@.len() - k,
    {
        let name = names[k].clone();
        let mut i: usize = r.len();
        while i > 0 && !is_ordered(r[i - 1].as_str(), name.as_str())
            invariant
                i <= r@.len(),
                forall|j: int|
                    i <= j < r@.len() ==> !ordered(#[trigger] views(r@)[j], name@),
            decreases i,
        {
            i -= 1;
        }
        proof {
            if i > 0 {
                assert(views(r@)[i - 1] == r@[i - 1]@);
            }
            lemma_placed(views(r@), name@, i as int);
            assert(views(r@.insert(i as int, name)) =~= views(r@).insert(i as int, name@));
            assert(views(names@).take(k + 1).drop_last() =~= views(names@).take(k as int));
        }
        r.insert(i, name);
        k += 1;
    }
    assert(views(names@).take(k as int) =~= views(names@));
    r
}

proof fn lemma_bytes_total(a: Seq<u8>, b: Seq<u8>)
    ensures
        bytes_ordered(a, b) || bytes_ordered(b, a),
    decreases a.len(),
{
    if a.len() > 0 && b.len() > 0 && a[0] == b[0] {
        lemma_bytes_total(a.drop_first(), b.drop_first());
    }
}

proof fn lemma_bytes_transitive(a: Seq<u8>, b: Seq<u8>, c: Seq<u8>)
    requires
        bytes_ordered(a, b),
        bytes_ordered(b, c),
    ensures
        bytes_ordered(a, c),
    decreases a.len(),
{
    if a.len() > 0 && b.len() > 0 && c.len() > 0 && a[0] == b[0] && b[0] == c[0] {
        lemma_bytes_transitive(a.drop_first(), b.drop_first(), c.drop_first());
    }
}

/// Every name stands before those that it precedes in the order of their bytes.
pub open spec fn is_in_order(names: Seq<Seq<char>>) -> bool {
    forall|i: int, j: int| 0 <= i <= j < names.len() ==> ordered(#[trigger] names[i], #[trigger] names[j])
}

/// A directory is listed in order, and its entries are those that were found, each as often as it
/// was found.
pub proof fn law_listing(names: Seq<Seq<char>>)
    ensures
        is_in_order(in_order(names)),
        in_order(names).to_multiset() == names.to_multiset(),
    decreases names.len(),
{
    if names.len() > 0 {
        let front = names.drop_last();
        law_listing(front);
        lemma_placed_in_order(in_order(front), names.last());
        assert(names =~= front.push(names.last()));
        front.to_multiset_ensures();
    }
}

proof fn lemma_placed_in_order(names: Seq<Seq<char>>, name: Seq<char>)
    requires
        is_in_order(names),
    ensures
        is_in_order(placed(names, name)),
        placed(names, name).to_multiset() == names.to_multiset().insert(name),
        forall|i: int|
            0 <= i < placed(names, name).len() ==> #[trigger] placed(names, name)[i] == name
                || names.contains(placed(names, name)[i]),
    decreases names.len(),
{
    names.to_multiset_ensures();
    let all = placed(names, name);
    lemma_bytes_total(encode_utf8(name), encode_utf8(name));
    if names.len() == 0 || ordered(names.last(), name) {
        assert forall|i: int, j: int| 0 <= i <= j < all.len() implies ordered(
            #[trigger] all[i],
            #[trigger] all[j],
        ) by {
            if j == names.len() && i < j {
                assert(ordered(names[i], names[names.len() - 1]));
                lemma_bytes_transitive(
                    encode_utf8(names[i]),
                    encode_utf8(names.last()),
                    encode_utf8(name),
                );
            }
        }
        assert forall|i: int| 0 <= i < all.len() implies #[trigger] all[i] == name
            || names.contains(all[i]) by {
            if i < names.len() {
                assert(all[i] == names[i]);
            }
        }
    } else {
        let front = names.drop_last();
        let head = placed(front, name);
        lemma_placed_in_order(front, name);
        lemma_bytes_total(encode_utf8(names.last()), encode_utf8(name));
        assert forall|i: int, j: int| 0 <= i <= j < all.len() implies ordered(
            #[trigger] all[i],
            #[trigger] all[j],
        ) by {
            if j < head.len() {
                assert(all[i] == head[i] && all[j] == head[j]);
            } else if i < head.len() {
                assert(all[i] == head[i]);
                if head[i] != name {
                    assert(front.contains(head[i]));
                    let k = choose|k: int| 0 <= k < front.len() && front[k] == head[i];
                    assert(ordered(names[k], names[names.len() - 1]));
                }
            } else {
                assert(ordered(names[names.len() - 1], names[names.len() - 1]));
            }
        }
        assert forall|i: int| 0 <= i < all.len() implies #[trigger] all[i] == name
            || names.contains(all[i]) by {
            if i < head.len() {
                assert(all[i] == head[i]);
                if head[i] != name {
                    let k = choose|k: int| 0 <= k < front.len() && front[k] == head[i];
                    assert(names[k] == all[i]);
                }
            } else {
                assert(names[names.len() - 1] == all[i]);
            }
        }
        assert(names =~= front.push(names.last()));
        front.to_multiset_ensures();
        head.to_multiset_ensures();
        assert(all.to_multiset() =~= names.to_multiset().insert(name));
    }
}

/// What a text among the arguments is: the text under the key, and empty where the key is missing or
/// bears no text.
pub proof fn law_arguments_are_found(args: Json, key: Seq<char>)
    ensures
        args.member(key) matches Json::Text(t) ==> argument(args, key) == t,
        !(args.member(key) is Text) ==> argument(args, key) == Seq::<char>::empty(),
{
}

/// Each tool asks for what its name says, with its own arguments, and any other name is told to be
/// unknown.
pub proof fn law_tools_do_what_they_are_called(name: Seq<char>, args: Json)
    ensures
        plan("read_file"@, args) == (PlanModel::Read { path: argument(args, "path"@) }),
        plan("list_dir"@, args) == (PlanModel::List { path: argument(args, "path"@) }),
        plan("grep"@, args) == (PlanModel::Search {
            command: "grep -rn "@ + quoted(argument(args, "pattern"@))
                + " . 2>/dev/null | head -40"@,
        }),
        plan("write_file"@, args) == (PlanModel::Write {
            path: argument(args, "path"@),
            content: argument(args, "content"@),
        }),
        plan("run"@, args) == (PlanModel::Run { command: argument(args, "cmd"@) }),
        plan("done"@, args) == (PlanModel::Answer {
            text: "done: "@ + argument(args, "summary"@),
        }),
        name != "read_file"@ && name != "list_dir"@ && name != "grep"@ && name != "write_file"@
            && name != "run"@ && name != "done"@ ==> plan(name, args) == (PlanModel::Answer {
            text: "unknown tool: "@ + name,
        }),
{
    reveal_strlit("read_file");
    reveal_strlit("list_dir");
    reveal_strlit("grep");
    reveal_strlit("write_file");
    reveal_strlit("run");
    reveal_strlit("done");
    assert("read_file"@.len() == 9 && "list_dir"@.len() == 8 && "grep"@.len() == 4);
    assert("write_file"@.len() == 10 && "run"@.len() == 3 && "done"@.len() == 4);
    assert("grep"@[0] == 'g' && "done"@[0] == 'd');
}

/// The arguments of a call are what their text denotes; a text that is no JSON gives none.
pub proof fn law_arguments_are_what_the_text_denotes(text: Seq<char>, key: Seq<char>)
    ensures
        parsed(text) matches Some(j) ==> arguments_json(text) == j,
        parsed(text) is None ==> argument(arguments_json(text), key) == Seq::<char>::empty(),
        parsed(text) is None ==> arguments_json(text) == Json::Object(Map::empty()),
{
}

/// What the model is told of a result is the result, cut where it is too long: four thousand
/// characters of a file, two thousand of a search, three thousand of a run with its exit code.
pub proof fn law_results_are_told(kept: Seq<char>, lost: Seq<char>, code: i32)
    ensures
        kept.len() <= 4000 ==> read_told(Ok(kept)) == kept,
        kept.len() == 4000 && lost.len() > 0 ==> read_told(Ok(kept + lost)) == kept
            + "\n…(truncated)"@,
        kept.len() <= 2000 ==> search_told(kept) == kept,
        kept.len() == 2000 && lost.len() > 0 ==> search_told(kept + lost) == kept
            + "\n…(truncated)"@,
        ({
            let whole = "exit="@ + signed_decimal(code as int) + "\n"@ + kept;
            &&& whole.len() <= 3000 ==> run_told(code, kept) == whole
            &&& whole.len() == 3000 && lost.len() > 0 ==> run_told(code, kept + lost) == whole
                + "\n…(truncated)"@
        }),
{
    law_cuts_are_marked(kept, lost, 4000);
    law_cuts_are_marked(kept, lost, 2000);
    let whole = "exit="@ + signed_decimal(code as int) + "\n"@ + kept;
    law_cuts_are_marked(whole, lost, 3000);
    assert("exit="@ + signed_decimal(code as int) + "\n"@ + (kept + lost) =~= whole + lost);
}

/// An error is told as one, whatever failed.
pub proof fn law_errors_are_told(path: Seq<char>, error: Seq<char>)
    ensures
        read_told(Err(error)) == "error: "@ + error,
        list_told(Err(error)) == "error: "@ + error,
        write_told(path, Some(error)) == "error: "@ + error,
        write_told(path, None) == "wrote "@ + path,
{
}

/// A listing is told a name on each line, in order.
pub proof fn law_listings_are_told(names: Seq<Seq<char>>)
    ensures
        list_told(Ok(names)) == joined(in_order(names), "\n"@),
{
}

/// What the model is told of a command that was blocked holds the warning, says that it was not run,
/// and is never what a command that ran is told of.
pub proof fn law_blocks_are_told(warning: Seq<char>, code: i32, output: Seq<char>)
    ensures
        ("BLOCKED — not executed: "@ + warning).is_prefix_of(block_told(warning)),
        block_told(warning) != run_told(code, output),
{
    reveal_strlit("BLOCKED — not executed: ");
    reveal_strlit("exit=");
    let head = "BLOCKED — not executed: "@ + warning;
    let told = block_told(warning);
    assert(head =~= told.subrange(0, head.len() as int));
    let ran = run_told(code, output);
    assert(told[0] == 'B');
    assert(ran.len() > 0 ==> ran[0] == 'e');
}

/// A call is announced with its name and its arguments on one line, the arguments cut where they are
/// longer than a hundred characters.
pub proof fn law_calls_are_announced(name: Seq<char>, kept: Seq<char>, lost: Seq<char>)
    ensures
        kept.len() <= 100 && !kept.contains('\n') ==> announced(name, kept) == "\x1b[36m  ● "@ + name
            + " "@ + kept + "\x1b[0m\n"@,
        kept.len() == 100 && lost.len() > 0 && !kept.contains('\n') ==> announced(name, kept + lost)
            == "\x1b[36m  ● "@ + name + " "@ + (kept + " …(truncated)"@) + "\x1b[0m\n"@,
        kept.len() <= 100 ==> announced(name, kept) == "\x1b[36m  ● "@ + name + " "@ + refed(
            kept,
            " "@,
        ) + "\x1b[0m\n"@,
{
    law_cuts_are_marked(kept, lost, 100);
    law_line_feeds_are_replaced(kept, Seq::empty(), " "@);
    if kept.len() == 100 && lost.len() > 0 && !kept.contains('\n') {
        reveal_strlit("\n…(truncated)");
        reveal_strlit(" …(truncated)");
        reveal_strlit(" ");
        let mark = "\n…(truncated)"@;
        let rest = mark.drop_first();
        assert(kept + mark =~= kept + seq!['\n'] + rest);
        assert(!rest.contains('\n'));
        law_line_feeds_are_replaced(kept, rest, " "@);
        law_line_feeds_are_replaced(rest, Seq::empty(), " "@);
        assert(kept + " "@ + rest =~= kept + " …(truncated)"@);
    }
}

/// Names are in the order of their bytes: one that begins another comes first, and else the first
/// byte in which they differ decides.
pub proof fn law_bytes_decide(a: Seq<u8>, b: Seq<u8>)
    ensures
        bytes_ordered(a, b) <==> (a.is_prefix_of(b) || exists|i: int|
            0 <= i < a.len() && i < b.len() && #[trigger] a[i] < b[i] && a.take(i) == b.take(i)),
    decreases a.len(),
{
    if a.len() == 0 {
        assert(a =~= b.subrange(0, 0));
    } else if b.len() > 0 {
        if a[0] == b[0] {
            let x = a.drop_first();
            let y = b.drop_first();
            law_bytes_decide(x, y);
            if x.is_prefix_of(y) {
                assert forall|k: int| 0 <= k < a.len() implies a[k] == b[k] by {
                    if k > 0 {
                        assert(x[k - 1] == y.subrange(0, x.len() as int)[k - 1]);
                    }
                }
                assert(a =~= b.subrange(0, a.len() as int));
            }
            if a.is_prefix_of(b) {
                assert forall|k: int| 0 <= k < x.len() implies x[k] == y[k] by {
                    assert(a[k + 1] == b.subrange(0, a.len() as int)[k + 1]);
                }
                assert(x =~= y.subrange(0, x.len() as int));
            }
            if exists|i: int|
                0 <= i < x.len() && i < y.len() && #[trigger] x[i] < y[i] && x.take(i) == y.take(i) {
                let i = choose|i: int|
                    0 <= i < x.len() && i < y.len() && #[trigger] x[i] < y[i] && x.take(i)
                        == y.take(i);
                assert(a[i + 1] < b[i + 1]);
                assert forall|k: int| 0 <= k < i + 1 implies a[k] == b[k] by {
                    if k > 0 {
                        assert(x.take(i)[k - 1] == y.take(i)[k - 1]);
                    }
                }
                assert(a.take(i + 1) =~= b.take(i + 1));
            }
            if exists|i: int|
                0 <= i < a.len() && i < b.len() && #[trigger] a[i] < b[i] && a.take(i) == b.take(i) {
                let i = choose|i: int|
                    0 <= i < a.len() && i < b.len() && #[trigger] a[i] < b[i] && a.take(i)
                        == b.take(i);
                assert(i > 0);
                assert(x[i - 1] < y[i - 1]);
                assert forall|k: int| 0 <= k < i - 1 implies x[k] == y[k] by {
                    assert(a.take(i)[k + 1] == b.take(i)[k + 1]);
                }
                assert(x.take(i - 1) =~= y.take(i - 1));
            }
        } else {
            if a[0] < b[0] {
                assert(a.take(0) =~= b.take(0));
            }
            if a.is_prefix_of(b) {
                assert(a[0] == b.subrange(0, a.len() as int)[0]);
            }
            assert forall|i: int|
                0 <= i < a.len() && i < b.len() && #[trigger] a[i] < b[i] && a.take(i) == b.take(
                    i,
                ) implies a[0] < b[0] by {
                if i > 0 {
                    assert(a.take(i)[0] == b.take(i)[0]);
                }
            }
        }
    }
}

/// Strings are in order just when their bytes are.
pub proof fn law_names_are_ordered_by_their_bytes(a: Seq<char>, b: Seq<char>)
    ensures
        ordered(a, b) <==> bytes_ordered(encode_utf8(a), encode_utf8(b)),
{
}

/// A plan holds what is written in it, and so do results and listings.
pub proof fn law_plans_hold_what_they_say(s: String, t: String, names: Vec<String>)
    ensures
        (Plan::Read { path: s })@ == (PlanModel::Read { path: s@ }),
        (Plan::List { path: s })@ == (PlanModel::List { path: s@ }),
        (Plan::Search { command: s })@ == (PlanModel::Search { command: s@ }),
        (Plan::Write { path: s, content: t })@ == (PlanModel::Write { path: s@, content: t@ }),
        (Plan::Run { command: s })@ == (PlanModel::Run { command: s@ }),
        (Plan::Answer { text: s })@ == (PlanModel::Answer { text: s@ }),
        outcome(Ok(s)) == Ok::<Seq<char>, Seq<char>>(s@),
        outcome(Err(s)) == Err::<Seq<char>, Seq<char>>(s@),
        listing(Ok(names)) == Ok::<Seq<Seq<char>>, Seq<char>>(views(names@)),
        listing(Err(s)) == Err::<Seq<Seq<char>>, Seq<char>>(s@),
{
}

/// A search is for the pattern as it is quoted, from the current directory on, and shows forty lines.
pub proof fn law_search_is_for_the_pattern(pattern: Seq<char>)
    ensures
        quoted_search(pattern) == "grep -rn "@ + pattern + " . 2>/dev/null | head -40"@,
        search_command(pattern) == quoted_search(quoted(pattern)),
{
}

/// What the model is told of a command that was blocked is the warning, and the advice behind it.
pub proof fn law_advice_goes_with_a_block(warning: Seq<char>)
    ensures
        block_told(warning) == "BLOCKED — not executed: "@ + warning
            + "\n\nThis command would permanently discard uncommitted work. Not run. If this is genuinely what the task needs, back it up first (e.g. `git stash` or copy the file elsewhere), or report back that this needs explicit confirmation rather than guessing."@,
{
}

/// Arguments that are cut are announced as they are cut, on one line.
pub proof fn law_long_arguments_are_cut(name: Seq<char>, kept: Seq<char>, lost: Seq<char>)
    requires
        kept.len() == 100,
        lost.len() > 0,
    ensures
        announced(name, kept + lost) == "\x1b[36m  ● "@ + name + " "@ + refed(
            kept + "\n…(truncated)"@,
            " "@,
        ) + "\x1b[0m\n"@,
{
    law_cuts_are_marked(kept, lost, 100);
}

} // verus!

//! The guard that keeps a shell command from discarding work that was never committed.

use crate::text::{
    chars_of, contains, holds, join, joined, law_joined_parts, lemma_line_stands, lemma_trimmed_filled,
    lemma_views_push, lines, lines_of, matches_at, occurs_at, trim, trim_range, trimmed, views,
};
use vstd::prelude::*;

verus! {

// ---- commands -----------------------------------------------------------------------------

/// A character that ends a part of a shell command.
pub open spec fn ends_part(c: char) -> bool {
    c == ';' || c == '&' || c == '|' || c == ')' || c == '`' || c == '\n'
}

/// What stands before the first character that ends a part.
pub open spec fn part(s: Seq<char>) -> Seq<char>
    decreases s.len(),
{
    if s.len() == 0 || ends_part(s[0]) {
        Seq::empty()
    } else {
        seq![s[0]] + part(s.drop_first())
    }
}

/// An option of `git clean` that leaves it a cleaning: with directories, with ignored files, with
/// those only, quietly, or by force.
pub open spec fn cleaning_option(c: char) -> bool {
    c == 'd' || c == 'x' || c == 'X' || c == 'q' || c == 'f'
}

/// Where a bundle of such options that begins at `i` ends.
pub open spec fn bundle_end(s: Seq<char>, i: int) -> int
    decreases s.len() - i,
{
    if 0 <= i < s.len() && cleaning_option(s[i]) {
        bundle_end(s, i + 1)
    } else {
        i
    }
}

/// A character that a bundle of options can go on with.
pub open spec fn goes_on(c: char) -> bool {
    'a' <= c <= 'z' || 'A' <= c <= 'Z' || '0' <= c <= '9' || c == '-'
}

/// Further options that make a cleaning a dry run, or have it ask first.
pub open spec fn calls_off(options: Seq<char>) -> bool {
    ||| holds(options, " -n"@)
    ||| holds(options, " --dry-run"@)
    ||| holds(options, " -i"@)
    ||| holds(options, " --interactive"@)
}

/// A bundle of cleaning options begins at `i`, one of them force, and nothing behind it calls the
/// cleaning off.
pub open spec fn forced(cmd: Seq<char>, i: int) -> bool {
    let end = bundle_end(cmd, i);
    &&& cmd.subrange(i, end).contains('f')
    &&& end == cmd.len() || !goes_on(cmd[end])
    &&& !calls_off(part(cmd.skip(end)))
}

/// What a command begins with that cleans a repository with options.
pub const CLEAN: &'static str = "git clean -";

/// A command that cleans a repository by force where force is one option of a bundle, as in
/// `git clean -xdf`.
pub open spec fn cleans_by_bundle(cmd: Seq<char>) -> bool {
    exists|i: int| #[trigger] occurs_at(cmd, CLEAN@, i) && forced(cmd, i + CLEAN@.len())
}

/// A command that throws away every uncommitted change of a repository, by the words in it.
pub open spec fn wipes_by_words(cmd: Seq<char>) -> bool {
    ||| holds(cmd, "git reset --hard"@)
    ||| holds(cmd, "git clean"@) && (holds(cmd, "-f"@) || holds(cmd, "--force"@))
}

/// A command that throws away every uncommitted change of a repository.
pub open spec fn wipes(cmd: Seq<char>) -> bool {
    wipes_by_words(cmd) || cleans_by_bundle(cmd)
}

/// Where a word that begins at `i` ends.
pub open spec fn word_end(s: Seq<char>, i: int) -> int
    decreases s.len() - i,
{
    if 0 <= i < s.len() && s[i] != ' ' && !ends_part(s[i]) {
        word_end(s, i + 1)
    } else {
        i
    }
}

/// At `i` begins the name of a commit with paths behind it: behind dashes, or beginning with a dot.
pub open spec fn names_paths(cmd: Seq<char>, i: int) -> bool {
    let end = word_end(cmd, i);
    &&& i < end
    &&& cmd[i] != '-'
    &&& {
        ||| occurs_at(cmd, " ."@, end)
        ||| occurs_at(cmd, " -- "@, end) && end + 4 < word_end(cmd, end + 4)
    }
}

/// What a checkout begins with.
pub const CHECKOUT: &'static str = "git checkout ";

/// A checkout of files out of a commit, as in `git checkout main -- notes.txt`.
pub open spec fn takes_files(cmd: Seq<char>) -> bool {
    exists|i: int| #[trigger] occurs_at(cmd, CHECKOUT@, i) && names_paths(cmd, i + CHECKOUT@.len())
}

/// A command that brings files back to a committed state. What begins with a dot is never a branch,
/// so a checkout of it is one of files.
pub open spec fn restores(cmd: Seq<char>) -> bool {
    ||| holds(cmd, "git checkout --"@)
    ||| holds(cmd, "git checkout ."@)
    ||| holds(cmd, "git checkout -f"@)
    ||| holds(cmd, "git switch -f"@)
    ||| holds(cmd, "git switch --force "@)
    ||| holds(cmd, "git switch --discard-changes"@)
    ||| holds(cmd, "git restore"@)
    ||| takes_files(cmd)
}

// ---- the state of a repository ------------------------------------------------------------

/// The two marks of a line of `git status --short` tell of a change that a restore discards. The
/// first mark is of the index, the second of the working tree: there the file was modified, made
/// another kind of file, or deleted. A file that was modified in the index alone counts too.
pub open spec fn marked(line: Seq<char>) -> bool {
    &&& line.len() >= 2
    &&& {
        ||| line[0] == 'M' && line[1] == ' '
        ||| in_index(line[0]) && (line[1] == 'M' || line[1] == 'T' || line[1] == 'D')
    }
}

/// The mark of a file that is in the index: unchanged, modified, of another kind, added, renamed or
/// copied.
pub open spec fn in_index(mark: char) -> bool {
    mark == ' ' || mark == 'M' || mark == 'T' || mark == 'A' || mark == 'R' || mark == 'C'
}

/// The path on a line of `git status --short`, if the line tells of such a change.
pub open spec fn modified_path(line: Seq<char>) -> Option<Seq<char>> {
    if line.len() > 3 && marked(line) {
        Some(trimmed(line.skip(3)))
    } else {
        None
    }
}

/// The paths of the files with such changes.
pub open spec fn modified_paths(lines: Seq<Seq<char>>) -> Seq<Seq<char>>
    decreases lines.len(),
{
    if lines.len() == 0 {
        Seq::empty()
    } else {
        match modified_path(lines.last()) {
            Some(path) => modified_paths(lines.drop_last()).push(path),
            None => modified_paths(lines.drop_last()),
        }
    }
}

/// A clean repository, or none at all: `git status --short` failed or reported nothing.
pub open spec fn nothing_to_lose(code: i32, status: Seq<char>) -> bool {
    code != 0 || trimmed(status).len() == 0
}

/// The warning for a command, given what `git status --short` ended with and printed.
pub open spec fn warning(cmd: Seq<char>, code: i32, status: Seq<char>) -> Option<Seq<char>> {
    if nothing_to_lose(code, status) {
        None
    } else if wipes(cmd) {
        Some("would discard ALL uncommitted changes in the repo:\n"@ + trimmed(status))
    } else if restores(cmd) && modified_paths(lines_of(status)).len() > 0 {
        Some(RESTORE_WARNING@ + joined(modified_paths(lines_of(status)), "\n"@))
    } else {
        None
    }
}

/// What the warning about a checkout or restore begins with.
pub const RESTORE_WARNING: &'static str =
    "a checkout/restore command is about to run while these files have uncommitted changes \
             (blocked regardless of the exact target, since '.' or a directory would silently include \
             them too):\n";

/// Whether the marks of a line tell of a change that a restore discards.
fn is_marked(line: &Vec<char>) -> (r: bool)
    ensures
        r == marked(line@),
{
    if line.len() < 2 {
        return false;
    }
    let x: char = line[0];
    let y: char = line[1];
    (x == 'M' && y == ' ') || ((x == ' ' || x == 'M' || x == 'T' || x == 'A' || x == 'R' || x == 'C')
        && (y == 'M' || y == 'T' || y == 'D'))
}

/// What stands from `from` on before the first character that ends a part.
fn part_from(s: &Vec<char>, from: usize) -> (r: String)
    requires
        from <= s@.len(),
    ensures
        r@ == part(s@.skip(from as int)),
{
    let mut r = String::new();
    let mut i: usize = from;
    assert(Seq::<char>::empty() + part(s@.skip(i as int)) =~= part(s@.skip(i as int)));
    while i < s.len() && !(s[i] == ';' || s[i] == '&' || s[i] == '|' || s[i] == ')' || s[i] == '`'
        || s[i] == '\n')
        invariant
            from <= i <= s@.len(),
            r@ + part(s@.skip(i as int)) == part(s@.skip(from as int)),
        decreases s@.len() - i,
    {
        let ghost before = r@;
        let ghost rest = s@.skip(i as int);
        r.push(s[i]);
        proof {
            assert(rest.drop_first() =~= s@.skip(i + 1));
            assert(before.push(rest[0]) + part(s@.skip(i + 1)) =~= before + (seq![rest[0]] + part(
                s@.skip(i + 1),
            )));
        }
        i += 1;
    }
    assert(r@ + Seq::<char>::empty() =~= r@);
    r
}

/// Whether further options call a cleaning off.
fn is_called_off(options: &str) -> (r: bool)
    ensures
        r == calls_off(options@),
{
    contains(options, " -n") || contains(options, " --dry-run") || contains(options, " -i")
        || contains(options, " --interactive")
}

/// Whether a bundle of cleaning options begins at a position, one of them force, with nothing
/// behind it that calls the cleaning off.
fn is_forced(cmd: &Vec<char>, from: usize) -> (r: bool)
    requires
        from <= cmd@.len(),
    ensures
        r == forced(cmd@, from as int),
{
    let mut end: usize = from;
    let mut force = false;
    while end < cmd.len() && (cmd[end] == 'd' || cmd[end] == 'x' || cmd[end] == 'X' || cmd[end]
        == 'q' || cmd[end] == 'f')
        invariant
            from <= end <= cmd@.len(),
            bundle_end(cmd@, from as int) == bundle_end(cmd@, end as int),
            force == cmd@.subrange(from as int, end as int).contains('f'),
        decreases cmd@.len() - end,
    {
        let ghost read = cmd@.subrange(from as int, end as int);
        let c: char = cmd[end];
        proof {
            let next = cmd@.subrange(from as int, end + 1);
            assert(next =~= read.push(c));
            if c == 'f' {
                assert(next[end - from] == 'f');
            }
            if read.contains('f') {
                let k = read.index_of('f');
                assert(next[k] == 'f');
            }
        }
        if c == 'f' {
            force = true;
        }
        end += 1;
    }
    if !force {
        return false;
    }
    if end < cmd.len() {
        let c: char = cmd[end];
        if ('a' <= c && c <= 'z') || ('A' <= c && c <= 'Z') || ('0' <= c && c <= '9') || c == '-' {
            return false;
        }
    }
    !is_called_off(part_from(cmd, end).as_str())
}

/// Whether a command cleans a repository by force where force is one option of a bundle.
fn is_clean_by_bundle(cmd: &str) -> (r: bool)
    ensures
        r == cleans_by_bundle(cmd@),
{
    let chars = chars_of(cmd);
    let clean = chars_of(CLEAN);
    let mut i: usize = 0;
    while i < chars.len()
        invariant
            i <= chars@.len(),
            chars@ == cmd@,
            clean@ == CLEAN@,
            forall|j: int|
                0 <= j < i && #[trigger] occurs_at(cmd@, CLEAN@, j) ==> !forced(
                    cmd@,
                    j + CLEAN@.len(),
                ),
        decreases chars@.len() - i,
    {
        if matches_at(&chars, &clean, i) && is_forced(&chars, i + clean.len()) {
            return true;
        }
        i += 1;
    }
    proof {
        reveal_strlit("git clean -");
    }
    false
}

/// Where a word that begins at a position ends.
fn find_word_end(s: &Vec<char>, from: usize) -> (r: usize)
    requires
        from <= s@.len(),
    ensures
        r == word_end(s@, from as int),
        from <= r <= s@.len(),
{
    let mut i: usize = from;
    while i < s.len() && s[i] != ' ' && !(s[i] == ';' || s[i] == '&' || s[i] == '|' || s[i] == ')'
        || s[i] == '`' || s[i] == '\n')
        invariant
            from <= i <= s@.len(),
            word_end(s@, from as int) == word_end(s@, i as int),
        decreases s@.len() - i,
    {
        i += 1;
    }
    i
}

/// Whether at a position begins the name of a commit with paths behind it.
fn is_naming_paths(cmd: &Vec<char>, from: usize) -> (r: bool)
    requires
        from <= cmd@.len(),
    ensures
        r == names_paths(cmd@, from as int),
{
    proof {
        reveal_strlit(" -- ");
    }
    let end = find_word_end(cmd, from);
    if from == end || cmd[from] == '-' {
        return false;
    }
    let dot = chars_of(" .");
    if matches_at(cmd, &dot, end) {
        return true;
    }
    let dashes = chars_of(" -- ");
    if matches_at(cmd, &dashes, end) {
        assert(end + 4 <= cmd.len());
        let path: usize = end + 4;
        return path < find_word_end(cmd, path);
    }
    false
}

/// Whether a command is a checkout of files out of a commit.
fn is_taking_files(cmd: &str) -> (r: bool)
    ensures
        r == takes_files(cmd@),
{
    let chars = chars_of(cmd);
    let checkout = chars_of(CHECKOUT);
    let mut i: usize = 0;
    while i < chars.len()
        invariant
            i <= chars@.len(),
            chars@ == cmd@,
            checkout@ == CHECKOUT@,
            forall|j: int|
                0 <= j < i && #[trigger] occurs_at(cmd@, CHECKOUT@, j) ==> !names_paths(
                    cmd@,
                    j + CHECKOUT@.len(),
                ),
        decreases chars@.len() - i,
    {
        if matches_at(&chars, &checkout, i) && is_naming_paths(&chars, i + checkout.len()) {
            return true;
        }
        i += 1;
    }
    proof {
        reveal_strlit("git checkout ");
    }
    false
}

/// Whether a command throws away every uncommitted change.
fn is_wipe(cmd: &str) -> (r: bool)
    ensures
        r == wipes(cmd@),
{
    contains(cmd, "git reset --hard") || (contains(cmd, "git clean") && (contains(cmd, "-f")
        || contains(cmd, "--force"))) || is_clean_by_bundle(cmd)
}

/// Whether a command brings files back to a committed state.
fn is_restore(cmd: &str) -> (r: bool)
    ensures
        r == restores(cmd@),
{
    contains(cmd, "git checkout --") || contains(cmd, "git checkout .") || contains(
        cmd,
        "git checkout -f",
    ) || contains(cmd, "git switch -f") || contains(cmd, "git switch --force ") || contains(
        cmd,
        "git switch --discard-changes",
    ) || contains(cmd, "git restore") || is_taking_files(cmd)
}

/// A warning if `cmd` would discard uncommitted changes that exist right now, judged by its text
/// (see [`wipes`] and [`restores`]) and by the exit code and the output of `git status --short`. While any file has such a change, a checkout or
/// restore of files is warned about whatever it names, since `.` or a directory reaches the changed
/// files too.
pub fn discards_uncommitted_changes(cmd: &str, code: i32, status: &str) -> (r: Option<String>)
    ensures
        r is Some <==> warning(cmd@, code, status@) is Some,
        r matches Some(w) ==> warning(cmd@, code, status@) == Some(w@),
{
    let shown = trim(status);
    if code != 0 || shown.as_str().is_empty() {
        return None;
    }
    if is_wipe(cmd) {
        let mut w = "would discard ALL uncommitted changes in the repo:\n".to_owned();
        w.append(shown.as_str());
        return Some(w);
    }
    if is_restore(cmd) {
        let all = lines(status);
        let mut paths: Vec<String> = Vec::new();
        let mut i: usize = 0;
        while i < all.len()
            invariant
                i <= all@.len(),
                views(paths@) == modified_paths(views(all@).take(i as int)),
            decreases all@.len() - i,
        {
            proof {
                assert(views(all@).take(i + 1).drop_last() =~= views(all@).take(i as int));
            }
            let chars = chars_of(all[i].as_str());
            if chars.len() > 3 && is_marked(&chars) {
                assert(chars@.subrange(3, chars@.len() as int) =~= chars@.skip(3));
                let path = trim_range(&chars, 3, chars.len());
                proof {
                    lemma_views_push(paths@, path);
                }
                paths.push(path);
            }
            i += 1;
        }
        assert(views(all@).take(i as int) =~= views(all@));
        if paths.len() == 0 {
            return None;
        }
        let mut w = RESTORE_WARNING.to_owned();
        w.append(join(&paths, "\n").as_str());
        return Some(w);
    }
    None
}

/// Where nothing is uncommitted no command is warned about.
pub proof fn law_clean_is_never_blocked(cmd: Seq<char>, code: i32, status: Seq<char>)
    requires
        nothing_to_lose(code, status),
    ensures
        warning(cmd, code, status) is None,
{
}

/// A command that wipes the repository is warned about whenever something is uncommitted.
pub proof fn law_wipe_is_blocked(cmd: Seq<char>, code: i32, status: Seq<char>)
    requires
        wipes(cmd),
        !nothing_to_lose(code, status),
    ensures
        warning(cmd, code, status) is Some,
{
}

/// A checkout or restore is judged by the state of the repository alone: whatever two such
/// commands name, both are warned about or neither is, in the same words.
pub proof fn law_target_is_irrelevant(a: Seq<char>, b: Seq<char>, code: i32, status: Seq<char>)
    requires
        restores(a) && !wipes(a),
        restores(b) && !wipes(b),
    ensures
        warning(a, code, status) == warning(b, code, status),
{
}

/// While a file has a change that a restore discards, a checkout or restore of files is warned
/// about.
pub proof fn law_restore_is_blocked(cmd: Seq<char>, code: i32, status: Seq<char>, i: int)
    requires
        restores(cmd),
        code == 0,
        0 <= i < lines_of(status).len(),
        modified_path(lines_of(status)[i]) is Some,
    ensures
        warning(cmd, code, status) is Some,
{
    let line = lines_of(status)[i];
    let k: int = if line[0] == ' ' {
        1
    } else {
        0
    };
    let p = lemma_line_stands(status, i);
    assert(status[p + k] == status.subrange(p, p + line.len())[k]);
    lemma_trimmed_filled(status, p + k);
    lemma_some_modified(lines_of(status), i);
}

proof fn lemma_some_modified(lines: Seq<Seq<char>>, i: int)
    requires
        0 <= i < lines.len(),
        modified_path(lines[i]) is Some,
    ensures
        modified_paths(lines).len() > 0,
    decreases lines.len(),
{
    if i < lines.len() - 1 {
        lemma_some_modified(lines.drop_last(), i);
    }
}

proof fn lemma_holds_wrapped(p: Seq<char>, c: Seq<char>, q: Seq<char>, pat: Seq<char>)
    requires
        holds(c, pat),
    ensures
        holds(p + c + q, pat),
{
    let i = choose|i: int| occurs_at(c, pat, i);
    lemma_occurs_wrapped(p, c, q, pat, i);
}

proof fn lemma_occurs_wrapped(p: Seq<char>, c: Seq<char>, q: Seq<char>, pat: Seq<char>, i: int)
    requires
        occurs_at(c, pat, i),
    ensures
        occurs_at(p + c + q, pat, p.len() + i),
{
    let all = p + c + q;
    let k = p.len() + i;
    assert(all.subrange(k, k + pat.len()) =~= c.subrange(i, i + pat.len()));
}

proof fn lemma_bundle_end(s: Seq<char>, i: int)
    requires
        0 <= i <= s.len(),
    ensures
        i <= bundle_end(s, i) <= s.len(),
    decreases s.len() - i,
{
    if i < s.len() && cleaning_option(s[i]) {
        lemma_bundle_end(s, i + 1);
    }
}

proof fn lemma_bundle_end_wrapped(p: Seq<char>, c: Seq<char>, q: Seq<char>, i: int)
    requires
        0 <= i <= c.len(),
        q.len() == 0 || !cleaning_option(q[0]),
    ensures
        bundle_end(p + c + q, p.len() + i) == p.len() + bundle_end(c, i),
    decreases c.len() - i,
{
    let all = p + c + q;
    if i < c.len() {
        assert(all[p.len() + i] == c[i]);
        if cleaning_option(c[i]) {
            lemma_bundle_end_wrapped(p, c, q, i + 1);
        }
    } else if q.len() > 0 {
        assert(all[p.len() + i] == q[0]);
    }
}

proof fn lemma_part_wrapped(s: Seq<char>, q: Seq<char>)
    requires
        q.len() == 0 || ends_part(q[0]),
    ensures
        part(s + q) == part(s),
    decreases s.len(),
{
    if s.len() == 0 {
        assert(s + q =~= q);
    } else if !ends_part(s[0]) {
        lemma_part_wrapped(s.drop_first(), q);
        assert((s + q).drop_first() =~= s.drop_first() + q);
    }
}

proof fn lemma_forced_wrapped(p: Seq<char>, c: Seq<char>, q: Seq<char>, i: int)
    requires
        0 <= i <= c.len(),
        forced(c, i),
        q.len() == 0 || ends_part(q[0]),
    ensures
        forced(p + c + q, p.len() + i),
{
    let all = p + c + q;
    let end = bundle_end(c, i);
    lemma_bundle_end(c, i);
    lemma_bundle_end_wrapped(p, c, q, i);
    assert(all.subrange(p.len() + i, p.len() + end) =~= c.subrange(i, end));
    assert(all.skip(p.len() + end) =~= c.skip(end) + q);
    lemma_part_wrapped(c.skip(end), q);
    if end < c.len() {
        assert(all[p.len() + end] == c[end]);
    } else if q.len() > 0 {
        assert(all[p.len() + end] == q[0]);
    }
}

proof fn lemma_wipes_wrapped(p: Seq<char>, c: Seq<char>, q: Seq<char>)
    requires
        wipes(c),
        wipes_by_words(c) || q.len() == 0 || ends_part(q[0]),
    ensures
        wipes(p + c + q),
{
    if holds(c, "git reset --hard"@) {
        lemma_holds_wrapped(p, c, q, "git reset --hard"@);
    } else if wipes_by_words(c) {
        lemma_holds_wrapped(p, c, q, "git clean"@);
        if holds(c, "-f"@) {
            lemma_holds_wrapped(p, c, q, "-f"@);
        } else {
            lemma_holds_wrapped(p, c, q, "--force"@);
        }
    } else {
        let i = choose|i: int| #[trigger]
            occurs_at(c, CLEAN@, i) && forced(c, i + CLEAN@.len());
        lemma_occurs_wrapped(p, c, q, CLEAN@, i);
        lemma_forced_wrapped(p, c, q, i + CLEAN@.len());
        assert(forced(p + c + q, p.len() + i + CLEAN@.len()));
    }
}

proof fn lemma_word_end(s: Seq<char>, i: int)
    requires
        0 <= i <= s.len(),
    ensures
        i <= word_end(s, i) <= s.len(),
    decreases s.len() - i,
{
    if i < s.len() && s[i] != ' ' && !ends_part(s[i]) {
        lemma_word_end(s, i + 1);
    }
}

proof fn lemma_word_end_wrapped(p: Seq<char>, c: Seq<char>, q: Seq<char>, i: int)
    requires
        0 <= i <= c.len(),
    ensures
        word_end(c, i) < c.len() ==> word_end(p + c + q, p.len() + i) == p.len() + word_end(c, i),
        word_end(p + c + q, p.len() + i) >= p.len() + word_end(c, i),
    decreases c.len() - i,
{
    let all = p + c + q;
    lemma_word_end(all, p.len() + i);
    if i < c.len() {
        assert(all[p.len() + i] == c[i]);
        if c[i] != ' ' && !ends_part(c[i]) {
            lemma_word_end_wrapped(p, c, q, i + 1);
        }
    }
}

proof fn lemma_paths_wrapped(p: Seq<char>, c: Seq<char>, q: Seq<char>, i: int)
    requires
        0 <= i <= c.len(),
        names_paths(c, i),
    ensures
        names_paths(p + c + q, p.len() + i),
{
    reveal_strlit(" .");
    reveal_strlit(" -- ");
    let end = word_end(c, i);
    lemma_word_end(c, i);
    lemma_word_end_wrapped(p, c, q, i);
    assert((p + c + q)[p.len() + i] == c[i]);
    if occurs_at(c, " ."@, end) {
        lemma_occurs_wrapped(p, c, q, " ."@, end);
    } else {
        lemma_occurs_wrapped(p, c, q, " -- "@, end);
        lemma_word_end_wrapped(p, c, q, end + 4);
    }
}

proof fn lemma_restores_wrapped(p: Seq<char>, c: Seq<char>, q: Seq<char>)
    requires
        restores(c),
    ensures
        restores(p + c + q),
{
    if holds(c, "git checkout --"@) {
        lemma_holds_wrapped(p, c, q, "git checkout --"@);
    } else if holds(c, "git checkout ."@) {
        lemma_holds_wrapped(p, c, q, "git checkout ."@);
    } else if holds(c, "git checkout -f"@) {
        lemma_holds_wrapped(p, c, q, "git checkout -f"@);
    } else if holds(c, "git switch -f"@) {
        lemma_holds_wrapped(p, c, q, "git switch -f"@);
    } else if holds(c, "git switch --force "@) {
        lemma_holds_wrapped(p, c, q, "git switch --force "@);
    } else if holds(c, "git switch --discard-changes"@) {
        lemma_holds_wrapped(p, c, q, "git switch --discard-changes"@);
    } else if holds(c, "git restore"@) {
        lemma_holds_wrapped(p, c, q, "git restore"@);
    } else {
        let i = choose|i: int| #[trigger]
            occurs_at(c, CHECKOUT@, i) && names_paths(c, i + CHECKOUT@.len());
        lemma_occurs_wrapped(p, c, q, CHECKOUT@, i);
        lemma_paths_wrapped(p, c, q, i + CHECKOUT@.len());
        assert(names_paths(p + c + q, p.len() + i + CHECKOUT@.len()));
    }
}

/// A command that is warned about is warned about inside any longer one too, such as one that
/// changes the directory first. The one exception is a cleaning whose force is told by its bundle of
/// options alone: what follows in the same part may make it a dry run.
pub proof fn law_wrapping_stays_blocked(
    p: Seq<char>,
    c: Seq<char>,
    q: Seq<char>,
    code: i32,
    status: Seq<char>,
)
    requires
        warning(c, code, status) is Some,
        cleans_by_bundle(c) && !wipes_by_words(c) ==> q.len() == 0 || ends_part(q[0]),
    ensures
        warning(p + c + q, code, status) is Some,
{
    if wipes(c) {
        lemma_wipes_wrapped(p, c, q);
    } else {
        lemma_restores_wrapped(p, c, q);
    }
}

// ---- what the warnings say ----------------------------------------------------------------

/// The marks of a line tell of a change that is lost: of a file in the index that was modified, made
/// another kind of file or deleted since, or of one that was modified in the index.
pub open spec fn loses(x: char, y: char) -> bool {
    ||| " MTARC"@.contains(x) && "MTD"@.contains(y)
    ||| x == 'M' && y == ' '
}

proof fn lemma_loses(line: Seq<char>)
    ensures
        line.len() >= 2 ==> (marked(line) <==> loses(line[0], line[1])),
{
    reveal_strlit(" MTARC");
    reveal_strlit("MTD");
    if line.len() >= 2 {
        let a = " MTARC"@;
        let b = "MTD"@;
        let x = line[0];
        let y = line[1];
        assert(a[0] == ' ' && a[1] == 'M' && a[2] == 'T' && a[3] == 'A' && a[4] == 'R' && a[5]
            == 'C');
        assert(b[0] == 'M' && b[1] == 'T' && b[2] == 'D');
        if a.contains(x) {
            let i = choose|i: int| 0 <= i < a.len() && a[i] == x;
        }
        if b.contains(y) {
            let i = choose|i: int| 0 <= i < b.len() && b[i] == y;
        }
    }
}

/// The paths that are warned about are those of all lines with a path whose marks tell of a change
/// that is lost, whatever the paths are, in the order of the lines.
pub proof fn law_every_loss_counts(lines: Seq<Seq<char>>) -> (places: Seq<int>)
    ensures
        places.len() == modified_paths(lines).len(),
        forall|i: int| 0 <= i < places.len() ==> 0 <= #[trigger] places[i] < lines.len(),
        forall|i: int, j: int|
            0 <= i < j < places.len() ==> #[trigger] places[i] < #[trigger] places[j],
        forall|i: int|
            0 <= i < places.len() ==> #[trigger] modified_paths(lines)[i] == trimmed(
                lines[places[i]].skip(3),
            ),
        forall|k: int|
            0 <= k < lines.len() ==> (places.contains(k) <==> (#[trigger] lines[k]).len() > 3
                && loses(lines[k][0], lines[k][1])),
    decreases lines.len(),
{
    if lines.len() == 0 {
        Seq::empty()
    } else {
        let front = lines.drop_last();
        let n = front.len() as int;
        let before = law_every_loss_counts(front);
        let line = lines.last();
        lemma_loses(line);
        let counts = line.len() > 3 && loses(line[0], line[1]);
        let places = if counts {
            before.push(n)
        } else {
            before
        };
        assert forall|i: int| 0 <= i < places.len() implies #[trigger] modified_paths(lines)[i]
            == trimmed(lines[places[i]].skip(3)) by {
            if i < before.len() {
                assert(modified_paths(lines)[i] == modified_paths(front)[i]);
                assert(lines[places[i]] == front[before[i]]);
            }
        }
        assert forall|k: int| 0 <= k < lines.len() implies (places.contains(k) <==> (
        #[trigger] lines[k]).len() > 3 && loses(lines[k][0], lines[k][1])) by {
            if k < n {
                assert(front[k] == lines[k]);
                if before.contains(k) {
                    let j = choose|j: int| 0 <= j < before.len() && before[j] == k;
                    assert(places[j] == k);
                }
                if places.contains(k) {
                    let j = choose|j: int| 0 <= j < places.len() && places[j] == k;
                    assert(before[j] == k);
                }
            } else if counts {
                assert(places[before.len() as int] == k);
            } else if places.contains(k) {
                let j = choose|j: int| 0 <= j < places.len() && places[j] == k;
                assert(before[j] == k);
            }
        }
        places
    }
}

proof fn lemma_joined_holds(parts: Seq<Seq<char>>, k: int, sep: Seq<char>)
    requires
        0 <= k < parts.len(),
    ensures
        holds(joined(parts, sep), parts[k]),
{
    let a = parts.take(k);
    let one = seq![parts[k]];
    let b = parts.skip(k + 1);
    assert(parts =~= a + (one + b));
    law_joined_parts(one, b, sep);
    law_joined_parts(a, one + b, sep);
    let all = joined(parts, sep);
    let tail = joined(one + b, sep);
    let x = parts[k];
    if b.len() == 0 {
        assert(one + b =~= one);
    }
    assert(tail.subrange(0, x.len() as int) =~= x);
    if a.len() == 0 {
        assert(a + (one + b) =~= one + b);
        assert(occurs_at(all, x, 0));
    } else {
        let i = (joined(a, sep) + sep).len() as int;
        assert(all.subrange(i, i + x.len()) =~= x);
        assert(occurs_at(all, x, i));
    }
}

/// Whenever `git status --short` reports a line that is longer than three characters and begins with
/// ` M`, `M ` or `MM`, a command that holds `git checkout --` or `git restore` anywhere is warned
/// about, whatever the path on the line and whatever the command names; and unless the command wipes
/// the repository anyway, the path on the line stands in the warning.
pub proof fn law_modified_file_blocks_a_restore(
    before: Seq<char>,
    behind: Seq<char>,
    by_checkout: bool,
    status: Seq<char>,
    i: int,
)
    requires
        0 <= i < lines_of(status).len(),
        lines_of(status)[i].len() > 3,
        ({
            let x = lines_of(status)[i][0];
            let y = lines_of(status)[i][1];
            x == ' ' && y == 'M' || x == 'M' && y == ' ' || x == 'M' && y == 'M'
        }),
    ensures
        ({
            let cmd = before + (if by_checkout {
                "git checkout --"@
            } else {
                "git restore"@
            }) + behind;
            let w = warning(cmd, 0, status);
            &&& w is Some
            &&& !wipes(cmd) ==> holds(w->0, trimmed(lines_of(status)[i].skip(3)))
        }),
{
    let form = if by_checkout {
        "git checkout --"@
    } else {
        "git restore"@
    };
    let cmd = before + form + behind;
    lemma_form_stands(before, form, behind);
    let line = lines_of(status)[i];
    law_restore_is_blocked(cmd, 0, status, i);
    let paths = modified_paths(lines_of(status));
    let places = law_every_loss_counts(lines_of(status));
    lemma_loses(line);
    assert(places.contains(i));
    let k = choose|k: int| 0 <= k < places.len() && places[k] == i;
    assert(paths[k] == trimmed(line.skip(3)));
    lemma_joined_holds(paths, k, "\n"@);
    if !wipes(cmd) {
        let list = joined(paths, "\n"@);
        let empty = Seq::<char>::empty();
        lemma_holds_wrapped(RESTORE_WARNING@, list, empty, paths[k]);
        assert(RESTORE_WARNING@ + list + empty =~= RESTORE_WARNING@ + list);
    }
}

proof fn lemma_form_stands(before: Seq<char>, form: Seq<char>, behind: Seq<char>)
    ensures
        holds(before + form + behind, form),
{
    let cmd = before + form + behind;
    let i = before.len() as int;
    assert(cmd.subrange(i, i + form.len()) =~= form);
    assert(occurs_at(cmd, form, i));
}

/// The warning about a checkout or restore names the files that would lose a change, a line each, and
/// there is none where no file would.
pub proof fn law_restore_warning(
    before: Seq<char>,
    k: int,
    behind: Seq<char>,
    status: Seq<char>,
)
    requires
        0 <= k < 7,
        trimmed(status).len() > 0,
        ({
            let cmd = before + seq![
                "git checkout --"@,
                "git checkout ."@,
                "git checkout -f"@,
                "git switch -f"@,
                "git switch --force "@,
                "git switch --discard-changes"@,
                "git restore"@,
            ][k] + behind;
            !holds(cmd, "git reset --hard"@) && !holds(cmd, "git clean"@)
        }),
    ensures
        ({
            let cmd = before + seq![
                "git checkout --"@,
                "git checkout ."@,
                "git checkout -f"@,
                "git switch -f"@,
                "git switch --force "@,
                "git switch --discard-changes"@,
                "git restore"@,
            ][k] + behind;
            let paths = modified_paths(lines_of(status));
            warning(cmd, 0, status) == if paths.len() == 0 {
                None::<Seq<char>>
            } else {
                Some(
                    "a checkout/restore command is about to run while these files have uncommitted changes (blocked regardless of the exact target, since '.' or a directory would silently include them too):\n"@
                        + joined(paths, "\n"@),
                )
            }
        }),
{
    let form = seq![
        "git checkout --"@,
        "git checkout ."@,
        "git checkout -f"@,
        "git switch -f"@,
        "git switch --force "@,
        "git switch --discard-changes"@,
        "git restore"@,
    ][k];
    let cmd = before + form + behind;
    lemma_form_stands(before, form, behind);
    lemma_not_cleaned(cmd);
    assert(restores(cmd));
}

proof fn lemma_not_cleaned(cmd: Seq<char>)
    requires
        !holds(cmd, "git clean"@),
    ensures
        !cleans_by_bundle(cmd),
{
    reveal_strlit("git clean");
    reveal_strlit("git clean -");
    if cleans_by_bundle(cmd) {
        let i = choose|i: int| #[trigger]
            occurs_at(cmd, CLEAN@, i) && forced(cmd, i + CLEAN@.len());
        let cut = cmd.subrange(i, i + 11);
        assert(cmd.subrange(i, i + 9) =~= cut.take(9));
        assert(cut.take(9) =~= "git clean"@);
        assert(occurs_at(cmd, "git clean"@, i));
    }
}

/// Whenever something is uncommitted, a command that holds `git reset --hard`, or `git clean` and
/// `-f` or `--force`, is warned about, and the whole report is shown.
pub proof fn law_wipe_warning(cmd: Seq<char>, status: Seq<char>)
    requires
        holds(cmd, "git reset --hard"@) || holds(cmd, "git clean"@) && (holds(cmd, "-f"@) || holds(
            cmd,
            "--force"@,
        )),
        trimmed(status).len() > 0,
    ensures
        warning(cmd, 0, status) == Some(
            "would discard ALL uncommitted changes in the repo:\n"@ + trimmed(status),
        ),
{
}

/// A cleaning by force is one wherever force stands in its bundle of options.
pub proof fn law_bundled_force_is_force(
    before: Seq<char>,
    options: Seq<char>,
    behind: Seq<char>,
    status: Seq<char>,
)
    requires
        forall|i: int|
            0 <= i < options.len() ==> "dxXqf"@.contains(#[trigger] options[i]),
        options.contains('f'),
        behind.len() > 0 ==> behind[0] == ' ' || behind[0] == ';' || behind[0] == '&' || behind[0]
            == '|' || behind[0] == '\n',
        !behind.contains('-'),
        trimmed(status).len() > 0,
    ensures
        warning(before + "git clean -"@ + options + behind, 0, status) == Some(
            "would discard ALL uncommitted changes in the repo:\n"@ + trimmed(status),
        ),
{
    reveal_strlit("dxXqf");
    reveal_strlit("git clean -");
    let form = "git clean -"@;
    let cmd = before + form + options + behind;
    let at = before.len() as int;
    let i = at + form.len();
    assert(cmd.subrange(at, at + form.len()) =~= form);
    assert(occurs_at(cmd, CLEAN@, at));
    let end = i + options.len();
    assert forall|k: int| i <= k < end implies cleaning_option(#[trigger] cmd[k]) by {
        assert(cmd[k] == options[k - i]);
        let set = "dxXqf"@;
        let j = choose|j: int| 0 <= j < set.len() && set[j] == options[k - i];
        assert(set[0] == 'd' && set[1] == 'x' && set[2] == 'X' && set[3] == 'q' && set[4] == 'f');
    }
    if end < cmd.len() {
        assert(cmd[end] == behind[0]);
    }
    lemma_bundle_end_is(cmd, i, end);
    assert(cmd.subrange(i, end) =~= options);
    assert(cmd.skip(end) =~= behind);
    lemma_part_within(behind);
    assert(!part(behind).contains('-'));
    lemma_not_called_off(part(behind));
    assert(forced(cmd, i));
}

proof fn lemma_bundle_end_is(s: Seq<char>, i: int, end: int)
    requires
        0 <= i <= end <= s.len(),
        forall|k: int| i <= k < end ==> cleaning_option(#[trigger] s[k]),
        end == s.len() || !cleaning_option(s[end]),
    ensures
        bundle_end(s, i) == end,
    decreases end - i,
{
    if i < end {
        lemma_bundle_end_is(s, i + 1, end);
    }
}

proof fn lemma_part_within(s: Seq<char>)
    ensures
        forall|c: char| #[trigger] part(s).contains(c) ==> s.contains(c),
    decreases s.len(),
{
    if s.len() > 0 && !ends_part(s[0]) {
        lemma_part_within(s.drop_first());
        assert forall|c: char| #[trigger] part(s).contains(c) implies s.contains(c) by {
            let k = choose|k: int| 0 <= k < part(s).len() && part(s)[k] == c;
            if k == 0 {
                assert(s[0] == c);
            } else {
                assert(part(s.drop_first())[k - 1] == c);
                assert(part(s.drop_first()).contains(c));
                let j = choose|j: int| 0 <= j < s.drop_first().len() && s.drop_first()[j] == c;
                assert(s[j + 1] == c);
            }
        }
    }
}

proof fn lemma_not_called_off(s: Seq<char>)
    requires
        !s.contains('-'),
    ensures
        !calls_off(s),
{
    reveal_strlit(" -n");
    reveal_strlit(" --dry-run");
    reveal_strlit(" -i");
    reveal_strlit(" --interactive");
    lemma_no_dash(s, " -n"@);
    lemma_no_dash(s, " --dry-run"@);
    lemma_no_dash(s, " -i"@);
    lemma_no_dash(s, " --interactive"@);
}

proof fn lemma_no_dash(s: Seq<char>, pat: Seq<char>)
    requires
        !s.contains('-'),
        pat.len() > 1,
        pat[1] == '-',
    ensures
        !holds(s, pat),
{
    if holds(s, pat) {
        let i = choose|i: int| occurs_at(s, pat, i);
        assert(s.subrange(i, i + pat.len())[1] == s[i + 1]);
        assert(s.contains(s[i + 1]));
    }
}

/// A checkout of a path out of a commit is warned about while a file is modified, whatever the commit
/// and the path are called.
pub proof fn law_checkout_out_of_a_commit_is_blocked(
    before: Seq<char>,
    commit: Seq<char>,
    path: Seq<char>,
    behind: Seq<char>,
    status: Seq<char>,
    i: int,
)
    requires
        commit.len() > 0,
        commit[0] != '-',
        forall|k: int|
            0 <= k < commit.len() ==> #[trigger] commit[k] != ' ' && !ends_part(commit[k]),
        path.len() > 0,
        path[0] != ' ' && !ends_part(path[0]),
        0 <= i < lines_of(status).len(),
        lines_of(status)[i].len() > 3,
        lines_of(status)[i][0] == ' ',
        lines_of(status)[i][1] == 'M',
    ensures
        warning(before + "git checkout "@ + commit + " -- "@ + path + behind, 0, status) is Some,
{
    reveal_strlit("git checkout ");
    reveal_strlit(" -- ");
    let cmd = before + "git checkout "@ + commit + " -- "@ + path + behind;
    let at = before.len() as int;
    assert(cmd.subrange(at, at + 13) =~= "git checkout "@);
    assert(occurs_at(cmd, CHECKOUT@, at));
    let start = at + 13;
    let end = start + commit.len();
    assert forall|k: int| start <= k < end implies #[trigger] cmd[k] != ' ' && !ends_part(cmd[k]) by {
        assert(cmd[k] == commit[k - start]);
    }
    assert(cmd[end] == ' ');
    lemma_word_end_is(cmd, start, end);
    assert(cmd[start] == commit[0]);
    assert(cmd.subrange(end, end + 4) =~= " -- "@);
    assert(cmd[end + 4] == path[0]);
    lemma_word_end(cmd, end + 5);
    assert(names_paths(cmd, start));
    law_restore_is_blocked(cmd, 0, status, i);
}

proof fn lemma_word_end_is(s: Seq<char>, i: int, end: int)
    requires
        0 <= i <= end < s.len(),
        forall|k: int| i <= k < end ==> #[trigger] s[k] != ' ' && !ends_part(s[k]),
        s[end] == ' ',
    ensures
        word_end(s, i) == end,
    decreases end - i,
{
    if i < end {
        lemma_word_end_is(s, i + 1, end);
    }
}

/// A command that names none of the five commands of git that can discard changes is never warned
/// about.
pub proof fn law_other_commands_are_free(cmd: Seq<char>, code: i32, status: Seq<char>)
    requires
        !holds(cmd, "git reset --hard"@),
        !holds(cmd, "git clean"@),
        !holds(cmd, "git checkout "@),
        !holds(cmd, "git switch "@),
        !holds(cmd, "git restore"@),
    ensures
        warning(cmd, code, status) is None,
{
    reveal_strlit("git checkout ");
    reveal_strlit("git switch ");
    reveal_strlit("git checkout --");
    reveal_strlit("git checkout .");
    reveal_strlit("git checkout -f");
    reveal_strlit("git switch -f");
    reveal_strlit("git switch --force ");
    reveal_strlit("git switch --discard-changes");
    lemma_not_cleaned(cmd);
    lemma_longer(cmd, "git checkout "@, "git checkout --"@);
    lemma_longer(cmd, "git checkout "@, "git checkout ."@);
    lemma_longer(cmd, "git checkout "@, "git checkout -f"@);
    lemma_longer(cmd, "git switch "@, "git switch -f"@);
    lemma_longer(cmd, "git switch "@, "git switch --force "@);
    lemma_longer(cmd, "git switch "@, "git switch --discard-changes"@);
    if takes_files(cmd) {
        let i = choose|i: int| #[trigger]
            occurs_at(cmd, CHECKOUT@, i) && names_paths(cmd, i + CHECKOUT@.len());
        assert(occurs_at(cmd, "git checkout "@, i));
    }
}

proof fn lemma_longer(cmd: Seq<char>, short: Seq<char>, long: Seq<char>)
    requires
        !holds(cmd, short),
        short.len() <= long.len(),
        short =~= long.take(short.len() as int),
    ensures
        !holds(cmd, long),
{
    if holds(cmd, long) {
        let i = choose|i: int| occurs_at(cmd, long, i);
        let cut = cmd.subrange(i, i + long.len());
        assert(cmd.subrange(i, i + short.len()) =~= cut.take(short.len() as int));
        assert(occurs_at(cmd, short, i));
    }
}

/// To check out a branch is free: its name has no blank in it and begins with neither a dot nor a
/// dash.
pub proof fn law_branch_is_free(branch: Seq<char>, code: i32, status: Seq<char>)
    requires
        !branch.contains(' '),
        branch.len() > 0 ==> branch[0] != '.' && branch[0] != '-',
    ensures
        warning("git checkout "@ + branch, code, status) is None,
{
    reveal_strlit("git checkout ");
    reveal_strlit("git reset --hard");
    reveal_strlit("git clean");
    reveal_strlit("git checkout --");
    reveal_strlit("git checkout .");
    reveal_strlit("git checkout -f");
    reveal_strlit("git switch -f");
    reveal_strlit("git switch --force ");
    reveal_strlit("git switch --discard-changes");
    reveal_strlit("git restore");
    reveal_strlit(" .");
    reveal_strlit(" -- ");
    let cmd = "git checkout "@ + branch;
    assert forall|j: int| 0 <= j < cmd.len() && #[trigger] cmd[j] == ' ' implies j == 3 || j == 12 by {
        if j >= 13 {
            assert(branch.contains(branch[j - 13]));
        }
    }
    assert(cmd[4] == 'c' && cmd[5] == 'h' && cmd[9] == 'o');
    if branch.len() > 0 {
        assert(cmd[13] == branch[0]);
    }
    lemma_at_start(cmd, "git reset --hard"@, 4);
    lemma_at_start(cmd, "git clean"@, 5);
    lemma_at_start(cmd, "git checkout --"@, 13);
    lemma_at_start(cmd, "git checkout ."@, 13);
    lemma_at_start(cmd, "git checkout -f"@, 13);
    lemma_at_start(cmd, "git switch -f"@, 4);
    lemma_at_start(cmd, "git switch --force "@, 4);
    lemma_at_start(cmd, "git switch --discard-changes"@, 4);
    lemma_at_start(cmd, "git restore"@, 4);
    lemma_not_cleaned(cmd);
    if takes_files(cmd) {
        let i = choose|i: int| #[trigger]
            occurs_at(cmd, CHECKOUT@, i) && names_paths(cmd, i + CHECKOUT@.len());
        assert(cmd.subrange(i, i + 13)[3] == cmd[i + 3]);
        assert(cmd.subrange(i, i + 13)[0] == cmd[i]);
        assert(i == 0);
        lemma_word_end(cmd, 13);
        let end = word_end(cmd, 13);
        if occurs_at(cmd, " ."@, end) {
            assert(cmd.subrange(end, end + 2)[0] == cmd[end]);
        } else {
            assert(cmd.subrange(end, end + 4)[0] == cmd[end]);
        }
    }
}

proof fn lemma_at_start(cmd: Seq<char>, pat: Seq<char>, k: int)
    requires
        pat.len() >= 6,
        pat[0] == 'g',
        pat[3] == ' ',
        cmd.len() >= 13,
        cmd[9] == 'o',
        forall|j: int| 0 <= j < cmd.len() && #[trigger] cmd[j] == ' ' ==> j == 3 || j == 12,
        0 <= k < pat.len(),
        k >= cmd.len() || pat[k] != cmd[k],
    ensures
        !holds(cmd, pat),
{
    if holds(cmd, pat) {
        let i = choose|i: int| occurs_at(cmd, pat, i);
        let cut = cmd.subrange(i, i + pat.len());
        assert(cut[3] == cmd[i + 3]);
        assert(cut[0] == cmd[i]);
        assert(i == 0);
        assert(cut[k] == cmd[k]);
    }
}

/// A dry run is free: where `n` stands in the bundle of options of a cleaning, and the bundle does not
/// begin with force, nothing is warned about.
pub proof fn law_dry_run_is_free(options: Seq<char>, code: i32, status: Seq<char>)
    requires
        options.contains('n'),
        options[0] != 'f',
        forall|i: int| 0 <= i < options.len() ==> 'a' <= #[trigger] options[i] <= 'z',
    ensures
        warning("git clean -"@ + options, code, status) is None,
{
    reveal_strlit("git clean -");
    reveal_strlit("git reset --hard");
    reveal_strlit("-f");
    reveal_strlit("--force");
    reveal_strlit("git checkout ");
    reveal_strlit("git switch ");
    reveal_strlit("git restore");
    reveal_strlit("git checkout --");
    reveal_strlit("git checkout .");
    reveal_strlit("git checkout -f");
    reveal_strlit("git switch -f");
    reveal_strlit("git switch --force ");
    reveal_strlit("git switch --discard-changes");
    let cmd = "git clean -"@ + options;
    assert forall|j: int| 0 <= j < cmd.len() && #[trigger] cmd[j] == ' ' implies j == 3 || j == 9 by {
        if j >= 11 {
            assert(cmd[j] == options[j - 11]);
        }
    }
    assert(cmd[4] == 'c' && cmd[5] == 'l' && cmd[6] == 'e');
    lemma_only_start(cmd, "git reset --hard"@);
    lemma_only_start(cmd, "git checkout "@);
    lemma_only_start(cmd, "git switch "@);
    lemma_only_start(cmd, "git restore"@);
    if holds(cmd, "-f"@) {
        let i = choose|i: int| occurs_at(cmd, "-f"@, i);
        assert(cmd.subrange(i, i + 2)[0] == cmd[i]);
        assert(cmd.subrange(i, i + 2)[1] == cmd[i + 1]);
        if i >= 11 {
            assert(cmd[i] == options[i - 11]);
        }
        assert(cmd[11] == options[0]);
    }
    if holds(cmd, "--force"@) {
        let i = choose|i: int| occurs_at(cmd, "--force"@, i);
        assert(cmd.subrange(i, i + 7)[0] == cmd[i]);
        assert(cmd.subrange(i, i + 7)[1] == cmd[i + 1]);
        if i >= 11 {
            assert(cmd[i] == options[i - 11]);
        } else {
            assert(cmd[i + 1] == options[0]);
        }
    }
    if cleans_by_bundle(cmd) {
        let i = choose|i: int| #[trigger]
            occurs_at(cmd, CLEAN@, i) && forced(cmd, i + CLEAN@.len());
        assert(cmd.subrange(i, i + 11)[3] == cmd[i + 3]);
        assert(cmd.subrange(i, i + 11)[0] == cmd[i]);
        assert(i == 0);
        let k = choose|k: int| 0 <= k < options.len() && options[k] == 'n';
        assert(cmd[11 + k] == 'n');
        lemma_bundle_stops(cmd, 11, 11 + k);
        let end = bundle_end(cmd, 11);
        assert(cmd[end] == options[end - 11]);
    }
    lemma_longer(cmd, "git checkout "@, "git checkout --"@);
    lemma_longer(cmd, "git checkout "@, "git checkout ."@);
    lemma_longer(cmd, "git checkout "@, "git checkout -f"@);
    lemma_longer(cmd, "git switch "@, "git switch -f"@);
    lemma_longer(cmd, "git switch "@, "git switch --force "@);
    lemma_longer(cmd, "git switch "@, "git switch --discard-changes"@);
    if takes_files(cmd) {
        let i = choose|i: int| #[trigger]
            occurs_at(cmd, CHECKOUT@, i) && names_paths(cmd, i + CHECKOUT@.len());
        assert(occurs_at(cmd, "git checkout "@, i));
    }
}

proof fn lemma_only_start(cmd: Seq<char>, pat: Seq<char>)
    requires
        pat.len() >= 6,
        pat[0] == 'g',
        pat[3] == ' ',
        cmd.len() >= 11,
        cmd[6] == 'e',
        cmd[4] != pat[4] || cmd[5] != pat[5],
        forall|j: int| 0 <= j < cmd.len() && #[trigger] cmd[j] == ' ' ==> j == 3 || j == 9,
    ensures
        !holds(cmd, pat),
{
    if holds(cmd, pat) {
        let i = choose|i: int| occurs_at(cmd, pat, i);
        let cut = cmd.subrange(i, i + pat.len());
        assert(cut[3] == cmd[i + 3]);
        assert(cut[0] == cmd[i]);
        assert(i == 0);
        assert(cut[4] == cmd[4] && cut[5] == cmd[5]);
    }
}

proof fn lemma_bundle_stops(s: Seq<char>, i: int, stop: int)
    requires
        0 <= i <= stop < s.len(),
        !cleaning_option(s[stop]),
    ensures
        i <= bundle_end(s, i) <= stop,
    decreases stop - i,
{
    if i < stop && cleaning_option(s[i]) {
        lemma_bundle_stops(s, i + 1, stop);
    }
}

/// Where the state of the repository cannot be told, or nothing is uncommitted, no command is warned
/// about.
pub proof fn law_nothing_is_lost_where_nothing_is_uncommitted(
    cmd: Seq<char>,
    code: i32,
    status: Seq<char>,
)
    requires
        code != 0 || forall|i: int| 0 <= i < status.len() ==> crate::text::white(#[trigger] status[i]),
    ensures
        warning(cmd, code, status) is None,
{
    if code == 0 {
        let none = Seq::<char>::empty();
        crate::text::law_trim_takes_white_space_off(status, none, none);
        assert(status + none + none =~= status);
    }
}

/// A part of a command reaches to the first character that ends one, or to the end.
pub proof fn law_parts_end_where_they_end(s: Seq<char>, c: char, behind: Seq<char>)
    requires
        forall|i: int|
            0 <= i < s.len() ==> !";&|)`\n"@.contains(#[trigger] s[i]),
        ";&|)`\n"@.contains(c),
    ensures
        part(s) == s,
        part(s + seq![c] + behind) == s,
    decreases s.len(),
{
    reveal_strlit(";&|)`\n");
    let set = ";&|)`\n"@;
    assert(set[0] == ';' && set[1] == '&' && set[2] == '|' && set[3] == ')' && set[4] == '`'
        && set[5] == '\n');
    let all = s + seq![c] + behind;
    if s.len() == 0 {
        let k = choose|k: int| 0 <= k < set.len() && set[k] == c;
        assert(all[0] == c);
        assert(part(all) =~= s);
    } else {
        let x = s[0];
        if ends_part(x) {
            assert(set.contains(x)) by {
                assert(x == set[0] || x == set[1] || x == set[2] || x == set[3] || x == set[4] || x
                    == set[5]);
            }
            assert(false);
        }
        let rest = s.drop_first();
        assert forall|i: int| 0 <= i < rest.len() implies !set.contains(#[trigger] rest[i]) by {
            assert(rest[i] == s[i + 1]);
        }
        law_parts_end_where_they_end(rest, c, behind);
        assert(all[0] == s[0]);
        assert(all.drop_first() =~= rest + seq![c] + behind);
        assert(part(s) =~= s);
        assert(part(all) =~= s);
    }
}

/// A cleaning by force stays one with further options, unless one of them makes it a dry run or has
/// it ask first.
pub proof fn law_further_options_do_not_matter(
    before: Seq<char>,
    options: Seq<char>,
    behind: Seq<char>,
    status: Seq<char>,
)
    requires
        forall|i: int|
            0 <= i < options.len() ==> "dxXqf"@.contains(#[trigger] options[i]),
        options.contains('f'),
        behind.len() > 0,
        behind[0] == ' ',
        !holds(part(behind), " -n"@),
        !holds(part(behind), " --dry-run"@),
        !holds(part(behind), " -i"@),
        !holds(part(behind), " --interactive"@),
        trimmed(status).len() > 0,
    ensures
        warning(before + "git clean -"@ + options + behind, 0, status) == Some(
            "would discard ALL uncommitted changes in the repo:\n"@ + trimmed(status),
        ),
{
    reveal_strlit("dxXqf");
    reveal_strlit("git clean -");
    let form = "git clean -"@;
    let cmd = before + form + options + behind;
    let at = before.len() as int;
    let i = at + form.len();
    assert(cmd.subrange(at, at + form.len()) =~= form);
    assert(occurs_at(cmd, CLEAN@, at));
    let end = i + options.len();
    assert forall|k: int| i <= k < end implies cleaning_option(#[trigger] cmd[k]) by {
        assert(cmd[k] == options[k - i]);
        let set = "dxXqf"@;
        let j = choose|j: int| 0 <= j < set.len() && set[j] == options[k - i];
        assert(set[0] == 'd' && set[1] == 'x' && set[2] == 'X' && set[3] == 'q' && set[4] == 'f');
    }
    assert(cmd[end] == ' ');
    lemma_bundle_end_is(cmd, i, end);
    assert(cmd.subrange(i, end) =~= options);
    assert(cmd.skip(end) =~= behind);
    assert(forced(cmd, i));
}

/// Nothing but these commands is warned about: one that throws everything away by its words or by a
/// bundle of options with force, or one of the forms that bring files back.
pub proof fn law_only_these_commands_are_warned_about(
    cmd: Seq<char>,
    code: i32,
    status: Seq<char>,
)
    requires
        warning(cmd, code, status) is Some,
    ensures
        code == 0,
        trimmed(status).len() > 0,
        ({
            ||| holds(cmd, "git reset --hard"@)
            ||| holds(cmd, "git clean"@) && (holds(cmd, "-f"@) || holds(cmd, "--force"@))
            ||| cleans_by_bundle(cmd)
            ||| modified_paths(lines_of(status)).len() > 0 && (holds(cmd, "git checkout --"@)
                || holds(cmd, "git checkout ."@) || holds(cmd, "git checkout -f"@) || holds(
                cmd,
                "git switch -f"@,
            ) || holds(cmd, "git switch --force "@) || holds(cmd, "git switch --discard-changes"@)
                || holds(cmd, "git restore"@) || takes_files(cmd))
        }),
{
}

proof fn lemma_bundle_is_of_options(s: Seq<char>, i: int)
    requires
        0 <= i <= s.len(),
    ensures
        forall|k: int| i <= k < bundle_end(s, i) ==> cleaning_option(#[trigger] s[k]),
    decreases s.len() - i,
{
    if i < s.len() && cleaning_option(s[i]) {
        lemma_bundle_is_of_options(s, i + 1);
    }
}

/// A command that cleans by a bundle of options has one: behind `git clean -` stand cleaning options
/// only, force among them, and what follows neither goes on with the bundle nor calls the cleaning
/// off.
pub proof fn law_bundles_are_of_cleaning_options(cmd: Seq<char>) -> (r: (
    Seq<char>,
    Seq<char>,
    Seq<char>,
))
    requires
        cleans_by_bundle(cmd),
    ensures
        cmd == r.0 + "git clean -"@ + r.1 + r.2,
        forall|i: int|
            0 <= i < r.1.len() ==> ({
                let c = #[trigger] r.1[i];
                c == 'd' || c == 'x' || c == 'X' || c == 'q' || c == 'f'
            }),
        r.1.contains('f'),
        r.2.len() > 0 ==> !('a' <= r.2[0] <= 'z') && !('A' <= r.2[0] <= 'Z') && !('0' <= r.2[0]
            <= '9') && r.2[0] != '-',
        !holds(part(r.2), " -n"@),
        !holds(part(r.2), " --dry-run"@),
        !holds(part(r.2), " -i"@),
        !holds(part(r.2), " --interactive"@),
{
    reveal_strlit("git clean -");
    let at = choose|i: int| #[trigger] occurs_at(cmd, CLEAN@, i) && forced(cmd, i + CLEAN@.len());
    let i = at + 11;
    lemma_bundle_end(cmd, i);
    lemma_bundle_is_of_options(cmd, i);
    let end = bundle_end(cmd, i);
    let before = cmd.take(at);
    let options = cmd.subrange(i, end);
    let behind = cmd.skip(end);
    let cut = cmd.subrange(at, at + 11);
    assert(cmd =~= before + cut + options + behind);
    assert forall|k: int| 0 <= k < options.len() implies ({
        let c = #[trigger] options[k];
        c == 'd' || c == 'x' || c == 'X' || c == 'q' || c == 'f'
    }) by {
        assert(options[k] == cmd[i + k]);
        assert(cleaning_option(cmd[i + k]));
    }
    if behind.len() > 0 {
        assert(behind[0] == cmd[end]);
    }
    (before, options, behind)
}

proof fn lemma_word_is_a_word(s: Seq<char>, i: int)
    requires
        0 <= i <= s.len(),
    ensures
        forall|k: int| i <= k < word_end(s, i) ==> #[trigger] s[k] != ' ' && !ends_part(s[k]),
    decreases s.len() - i,
{
    if i < s.len() && s[i] != ' ' && !ends_part(s[i]) {
        lemma_word_is_a_word(s, i + 1);
    }
}

/// A checkout that takes files names a commit and, behind it, a path: one that begins with a dot, or
/// one behind two dashes.
pub proof fn law_files_are_taken_out_of_a_commit(cmd: Seq<char>) -> (r: (
    Seq<char>,
    Seq<char>,
    Seq<char>,
))
    requires
        takes_files(cmd),
    ensures
        cmd == r.0 + "git checkout "@ + r.1 + r.2,
        r.1.len() > 0,
        r.1[0] != '-',
        forall|k: int| 0 <= k < r.1.len() ==> #[trigger] r.1[k] != ' ' && !ends_part(r.1[k]),
        r.2.len() >= 2,
        r.2.take(2) == " ."@ || r.2.len() >= 5 && r.2.take(4) == " -- "@ && r.2[4] != ' '
            && !ends_part(r.2[4]),
{
    reveal_strlit("git checkout ");
    reveal_strlit(" .");
    reveal_strlit(" -- ");
    let at = choose|i: int| #[trigger]
        occurs_at(cmd, CHECKOUT@, i) && names_paths(cmd, i + CHECKOUT@.len());
    let i = at + 13;
    let end = word_end(cmd, i);
    lemma_word_end(cmd, i);
    lemma_word_is_a_word(cmd, i);
    let before = cmd.take(at);
    let commit = cmd.subrange(i, end);
    let behind = cmd.skip(end);
    let cut = cmd.subrange(at, at + 13);
    assert(cmd =~= before + cut + commit + behind);
    assert forall|k: int| 0 <= k < commit.len() implies #[trigger] commit[k] != ' ' && !ends_part(
        commit[k],
    ) by {
        assert(commit[k] == cmd[i + k]);
    }
    assert(commit[0] == cmd[i]);
    if occurs_at(cmd, " ."@, end) {
        assert(behind.take(2) =~= cmd.subrange(end, end + 2));
    } else {
        assert(behind.take(4) =~= cmd.subrange(end, end + 4));
        lemma_word_end(cmd, end + 4);
        lemma_word_is_a_word(cmd, end + 4);
        assert(behind[4] == cmd[end + 4]);
    }
    (before, commit, behind)
}

/// A checkout of a path that begins with a dot, out of a commit, is warned about while a file is
/// modified.
pub proof fn law_checkout_of_a_dotted_path_is_blocked(
    before: Seq<char>,
    commit: Seq<char>,
    behind: Seq<char>,
    status: Seq<char>,
    i: int,
)
    requires
        commit.len() > 0,
        commit[0] != '-',
        forall|k: int|
            0 <= k < commit.len() ==> #[trigger] commit[k] != ' ' && !ends_part(commit[k]),
        0 <= i < lines_of(status).len(),
        lines_of(status)[i].len() > 3,
        lines_of(status)[i][0] == ' ',
        lines_of(status)[i][1] == 'M',
    ensures
        warning(before + "git checkout "@ + commit + " ."@ + behind, 0, status) is Some,
{
    reveal_strlit("git checkout ");
    reveal_strlit(" .");
    let cmd = before + "git checkout "@ + commit + " ."@ + behind;
    let at = before.len() as int;
    assert(cmd.subrange(at, at + 13) =~= "git checkout "@);
    assert(occurs_at(cmd, CHECKOUT@, at));
    let start = at + 13;
    let end = start + commit.len();
    assert forall|k: int| start <= k < end implies #[trigger] cmd[k] != ' ' && !ends_part(cmd[k]) by {
        assert(cmd[k] == commit[k - start]);
    }
    assert(cmd[end] == ' ');
    lemma_word_end_is(cmd, start, end);
    assert(cmd[start] == commit[0]);
    assert(cmd.subrange(end, end + 2) =~= " ."@);
    assert(names_paths(cmd, start));
    law_restore_is_blocked(cmd, 0, status, i);
}

} // verus!

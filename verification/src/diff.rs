//! The difference between two texts, line by line, as it is shown and as it is remembered.

use vstd::prelude::*;

verus! {

/// What became of a line.
#[derive(Clone, Copy, PartialEq, Eq, Structural, Debug)]
pub enum Tag {
    Equal,
    Delete,
    Insert,
}

/// The changes that `similar` finds between the lines of two texts, in order: what became of each
/// line, and the line with its end.
pub uninterp spec fn line_changes(before: Seq<char>, after: Seq<char>) -> Seq<(Tag, Seq<char>)>;

/// What a list of changes holds.
pub open spec fn change_views(changes: Seq<(Tag, String)>) -> Seq<(Tag, Seq<char>)> {
    changes.map_values(|c: (Tag, String)| (c.0, c.1@))
}

/// The lines of one of the two texts: those that were kept, and those with the tag of the text.
pub open spec fn side(changes: Seq<(Tag, Seq<char>)>, tag: Tag) -> Seq<char>
    decreases changes.len(),
{
    if changes.len() == 0 {
        Seq::empty()
    } else {
        let front = side(changes.drop_last(), tag);
        if changes.last().0 == Tag::Equal || changes.last().0 == tag {
            front + changes.last().1
        } else {
            front
        }
    }
}

/// A text whose last line is ended, with a line feed where it was not.
pub open spec fn ended(s: Seq<char>) -> Seq<char> {
    if s.len() == 0 || s.last() == '\n' || s.last() == '\r' {
        s
    } else {
        s + "\n"@
    }
}

/// The kept and the dropped lines make up the first text, and the kept and the added lines the
/// second.
pub open spec fn tells(changes: Seq<(Tag, Seq<char>)>, before: Seq<char>, after: Seq<char>) -> bool {
    side(changes, Tag::Delete) == ended(before) && side(changes, Tag::Insert) == ended(after)
}

/// The texts have no more lines together than `similar` can number.
pub open spec fn numbered(before: Seq<char>, after: Seq<char>) -> bool {
    before.len() + after.len() <= u32::MAX
}

/// `similar::TextDiff::from_lines` with `iter_all_changes`: the changes between the lines of two
/// texts, each with its tag and with its text as `similar` displays it, which ends every line. No
/// line of either text is lost: the kept and the dropped ones make up the first, the kept and the
/// added ones the second. Which lines it takes for kept, dropped and added is left to its algorithm.
#[verifier::external_body]
fn find_changes(before: &str, after: &str) -> (r: Vec<(Tag, String)>)
    ensures
        change_views(r@) == line_changes(before@, after@),
        numbered(before@, after@) ==> tells(change_views(r@), before@, after@),
{
    let mut r: Vec<(Tag, String)> = Vec::new();
    for change in similar::TextDiff::from_lines(before, after).iter_all_changes() {
        let tag = match change.tag() {
            similar::ChangeTag::Equal => Tag::Equal,
            similar::ChangeTag::Delete => Tag::Delete,
            similar::ChangeTag::Insert => Tag::Insert,
        };
        r.push((tag, change.to_string()));
    }
    r
}

/// A difference for the terminal and for the record.
pub struct Shown {
    pub colored: String,
    pub plain: String,
}

/// The sign before a line.
pub open spec fn sign(tag: Tag) -> Seq<char> {
    match tag {
        Tag::Delete => "-"@,
        Tag::Insert => "+"@,
        Tag::Equal => " "@,
    }
}

/// The color of a line.
pub open spec fn color(tag: Tag) -> Seq<char> {
    match tag {
        Tag::Delete => "\x1b[31m"@,
        Tag::Insert => "\x1b[32m"@,
        Tag::Equal => "\x1b[0m"@,
    }
}

/// The two lines that name the file.
pub open spec fn header(name: Seq<char>) -> Seq<char> {
    "--- a/"@ + name + "\n+++ b/"@ + name + "\n"@
}

/// The changes as plain text, under the name of the file.
pub open spec fn plain(name: Seq<char>, changes: Seq<(Tag, Seq<char>)>) -> Seq<char>
    decreases changes.len(),
{
    if changes.len() == 0 {
        header(name)
    } else {
        plain(name, changes.drop_last()) + sign(changes.last().0) + changes.last().1
    }
}

/// The changes as colored text, under the name of the file.
pub open spec fn colored(name: Seq<char>, changes: Seq<(Tag, Seq<char>)>) -> Seq<char>
    decreases changes.len(),
{
    if changes.len() == 0 {
        header(name)
    } else {
        colored(name, changes.drop_last()) + color(changes.last().0) + sign(changes.last().0)
            + changes.last().1 + "\x1b[0m"@
    }
}

/// The sign before a line.
fn sign_of(tag: Tag) -> (r: &'static str)
    ensures
        r@ == sign(tag),
{
    match tag {
        Tag::Delete => "-",
        Tag::Insert => "+",
        Tag::Equal => " ",
    }
}

/// The color of a line.
fn color_of(tag: Tag) -> (r: &'static str)
    ensures
        r@ == color(tag),
{
    match tag {
        Tag::Delete => "\x1b[31m",
        Tag::Insert => "\x1b[32m",
        Tag::Equal => "\x1b[0m",
    }
}

/// Renders a list of changes under the name of a file.
pub fn render_changes(name: &str, changes: &Vec<(Tag, String)>) -> (r: Shown)
    ensures
        r.colored@ == colored(name@, change_views(changes@)),
        r.plain@ == plain(name@, change_views(changes@)),
{
    let mut dull = "--- a/".to_owned();
    dull.append(name);
    dull.append("\n+++ b/");
    dull.append(name);
    dull.append("\n");
    let mut bright = dull.clone();
    let ghost all = change_views(changes@);
    let mut i: usize = 0;
    while i < changes.len()
        invariant
            i <= changes@.len(),
            all == change_views(changes@),
            bright@ == colored(name@, all.take(i as int)),
            dull@ == plain(name@, all.take(i as int)),
        decreases changes@.len() - i,
    {
        proof {
            assert(all.take(i + 1).drop_last() =~= all.take(i as int));
        }
        let tag = changes[i].0;
        dull.append(sign_of(tag));
        dull.append(changes[i].1.as_str());
        bright.append(color_of(tag));
        bright.append(sign_of(tag));
        bright.append(changes[i].1.as_str());
        bright.append("\x1b[0m");
        i += 1;
    }
    assert(all.take(i as int) =~= all);
    Shown { colored: bright, plain: dull }
}

/// The difference between two texts of a file, for the terminal and for the record.
pub fn show_diff(name: &str, before: &str, after: &str) -> (r: Shown)
    ensures
        r.colored@ == colored(name@, line_changes(before@, after@)),
        r.plain@ == plain(name@, line_changes(before@, after@)),
        numbered(before@, after@) ==> tells(line_changes(before@, after@), before@, after@),
{
    render_changes(name, &find_changes(before, after))
}

proof fn lemma_kept_sides(changes: Seq<(Tag, Seq<char>)>)
    requires
        forall|i: int| 0 <= i < changes.len() ==> (#[trigger] changes[i]).0 == Tag::Equal,
    ensures
        side(changes, Tag::Delete) == side(changes, Tag::Insert),
    decreases changes.len(),
{
    if changes.len() > 0 {
        let front = changes.drop_last();
        assert forall|i: int| 0 <= i < front.len() implies (#[trigger] front[i]).0 == Tag::Equal by {
            assert(changes[i].0 == Tag::Equal);
        }
        lemma_kept_sides(front);
        assert(changes[changes.len() - 1].0 == Tag::Equal);
    }
}

/// The difference between two texts that differ in more than the end of their last line shows a
/// change.
pub proof fn law_difference_is_shown(
    changes: Seq<(Tag, Seq<char>)>,
    before: Seq<char>,
    after: Seq<char>,
)
    requires
        tells(changes, before, after),
        ended(before) != ended(after),
    ensures
        exists|i: int| 0 <= i < changes.len() && (#[trigger] changes[i]).0 != Tag::Equal,
{
    if forall|i: int| 0 <= i < changes.len() ==> (#[trigger] changes[i]).0 == Tag::Equal {
        lemma_kept_sides(changes);
    }
}

/// A difference begins with the name of the file, and each change adds its line behind its sign: a
/// dash for a dropped line, a plus for an added one, a blank for a kept one.
pub proof fn law_lines_bear_their_signs(
    name: Seq<char>,
    changes: Seq<(Tag, Seq<char>)>,
    line: Seq<char>,
)
    ensures
        plain(name, Seq::empty()) == "--- a/"@ + name + "\n+++ b/"@ + name + "\n"@,
        plain(name, changes.push((Tag::Delete, line))) == plain(name, changes) + "-"@ + line,
        plain(name, changes.push((Tag::Insert, line))) == plain(name, changes) + "+"@ + line,
        plain(name, changes.push((Tag::Equal, line))) == plain(name, changes) + " "@ + line,
        colored(name, Seq::empty()) == "--- a/"@ + name + "\n+++ b/"@ + name + "\n"@,
        colored(name, changes.push((Tag::Delete, line))) == colored(name, changes) + "\x1b[31m"@
            + "-"@ + line + "\x1b[0m"@,
        colored(name, changes.push((Tag::Insert, line))) == colored(name, changes) + "\x1b[32m"@
            + "+"@ + line + "\x1b[0m"@,
        colored(name, changes.push((Tag::Equal, line))) == colored(name, changes) + "\x1b[0m"@
            + " "@ + line + "\x1b[0m"@,
{
    assert(changes.push((Tag::Delete, line)).drop_last() =~= changes);
    assert(changes.push((Tag::Insert, line)).drop_last() =~= changes);
    assert(changes.push((Tag::Equal, line)).drop_last() =~= changes);
}

/// A list of changes holds the tag and the line of each, in order.
pub proof fn law_changes_hold_what_is_in_them(changes: Seq<(Tag, String)>)
    ensures
        change_views(changes).len() == changes.len(),
        forall|i: int|
            0 <= i < changes.len() ==> #[trigger] change_views(changes)[i] == (
                changes[i].0,
                changes[i].1@,
            ),
{
}

} // verus!

//! Picking the lines of a failed test run that say what went wrong.

use crate::text::{
    contains, holds, join, joined, lemma_views_push, lines, lines_of, occurs_at, same, trim, trimmed,
    views,
};
use vstd::prelude::*;

verus! {

/// The text that `str::to_lowercase` makes of a text.
pub uninterp spec fn lowercase(s: Seq<char>) -> Seq<char>;

/// `str::to_lowercase`: the lowercase equivalent of a text. Which characters that gives is left
/// to the Unicode tables of the standard library.
#[verifier::external_body]
fn to_lower(s: &str) -> (r: String)
    ensures
        r@ == lowercase(s@),
{
    s.to_lowercase()
}

/// What the key assertion reads where no line looks like one.
pub const NO_ASSERTION: &'static str =
    "(no explicit assertion line — infer the exact failing condition from the failure above)";

/// The most lines that a key assertion has.
pub const KEY_LINES: usize = 8;

/// A line, in lower case, that bears one of the words of a failed assertion.
pub open spec fn diagnostic(lowered: Seq<char>) -> bool {
    ||| holds(lowered, "assert"@)
    ||| holds(lowered, "expected"@)
    ||| holds(lowered, "actual"@)
    ||| holds(lowered, "!="@)
    ||| holds(lowered, "=="@)
    ||| holds(lowered, " to equal"@)
    ||| holds(lowered, " to be"@)
    ||| holds(lowered, "assertionerror"@)
    ||| holds(lowered, "panicked"@)
    ||| holds(lowered, "left:"@)
    ||| holds(lowered, "right:"@)
    ||| holds(lowered, "got "@)
    ||| holds(lowered, "but was"@)
    ||| holds(lowered, "should"@)
    ||| holds(lowered, "fail"@)
}

/// Whether a line, in lower case, bears one of the words of a failed assertion.
pub fn is_diagnostic(lowered: &str) -> (r: bool)
    ensures
        r == diagnostic(lowered@),
{
    contains(lowered, "assert") || contains(lowered, "expected") || contains(lowered, "actual")
        || contains(lowered, "!=") || contains(lowered, "==") || contains(lowered, " to equal")
        || contains(lowered, " to be") || contains(lowered, "assertionerror") || contains(
        lowered,
        "panicked",
    ) || contains(lowered, "left:") || contains(lowered, "right:") || contains(lowered, "got ")
        || contains(lowered, "but was") || contains(lowered, "should") || contains(lowered, "fail")
}

/// The lines without white space at their ends, and without those that are then empty.
pub open spec fn filled(lines: Seq<Seq<char>>) -> Seq<Seq<char>>
    decreases lines.len(),
{
    if lines.len() == 0 {
        Seq::empty()
    } else {
        let line = trimmed(lines.last());
        if line.len() == 0 {
            filled(lines.drop_last())
        } else {
            filled(lines.drop_last()).push(line)
        }
    }
}

/// The lines whose lower-case form is diagnostic, where a line that repeats the one before it in
/// this list is left out.
pub open spec fn key_lines(lines: Seq<Seq<char>>, lowered: Seq<Seq<char>>) -> Seq<Seq<char>>
    decreases lines.len(),
{
    if lines.len() == 0 {
        Seq::empty()
    } else {
        let front = key_lines(lines.drop_last(), lowered.drop_last());
        let repeated = front.len() > 0 && front.last() == lines.last();
        if diagnostic(lowered.last()) && !repeated {
            front.push(lines.last())
        } else {
            front
        }
    }
}

/// The first [`KEY_LINES`] key lines, or [`NO_ASSERTION`] where there is none.
pub open spec fn key_text(lines: Seq<Seq<char>>, lowered: Seq<Seq<char>>) -> Seq<char> {
    let hits = key_lines(lines, lowered);
    if hits.len() == 0 {
        NO_ASSERTION@
    } else {
        joined(hits.take(if hits.len() < KEY_LINES {
            hits.len() as int
        } else {
            KEY_LINES as int
        }), "\n"@)
    }
}

/// The lower-case forms of a list of lines.
pub open spec fn lowercases(lines: Seq<Seq<char>>) -> Seq<Seq<char>> {
    lines.map_values(|s: Seq<char>| lowercase(s))
}

/// The key assertion of a failure: the key lines among its filled lines.
pub open spec fn key_assertion_of(failure: Seq<char>) -> Seq<char> {
    let lines = filled(lines_of(failure));
    key_text(lines, lowercases(lines))
}

/// The first key lines of a list of lines whose lower-case forms are given.
pub fn pick_key_lines(lines: &Vec<String>, lowered: &Vec<String>) -> (r: String)
    requires
        lines@.len() == lowered@.len(),
    ensures
        r@ == key_text(views(lines@), views(lowered@)),
{
    let mut hits: Vec<String> = Vec::new();
    let mut i: usize = 0;
    while i < lines.len()
        invariant
            i <= lines@.len() == lowered@.len(),
            views(hits@) == key_lines(
                views(lines@).take(i as int),
                views(lowered@).take(i as int),
            ),
        decreases lines@.len() - i,
    {
        proof {
            assert(views(lines@).take(i + 1).drop_last() =~= views(lines@).take(i as int));
            assert(views(lowered@).take(i + 1).drop_last() =~= views(lowered@).take(i as int));
        }
        let ghost front = hits@;
        if is_diagnostic(lowered[i].as_str()) {
            let repeated = hits.len() > 0 && same(hits[hits.len() - 1].as_str(), lines[i].as_str());
            if !repeated {
                let hit = lines[i].clone();
                proof {
                    lemma_views_push(front, hit);
                }
                hits.push(hit);
            }
        }
        i += 1;
    }
    proof {
        assert(views(lines@).take(i as int) =~= views(lines@));
        assert(views(lowered@).take(i as int) =~= views(lowered@));
    }
    if hits.len() == 0 {
        return NO_ASSERTION.to_owned();
    }
    let ghost all = views(hits@);
    if hits.len() > KEY_LINES {
        hits.truncate(KEY_LINES);
        assert(views(hits@) =~= all.take(KEY_LINES as int));
    } else {
        assert(all =~= all.take(all.len() as int));
    }
    join(&hits, "\n")
}

/// The most telling lines of a test failure, at most [`KEY_LINES`] of them: what was asserted,
/// what was expected and what came.
pub fn key_assertion(failure: &str) -> (r: String)
    ensures
        r@ == key_assertion_of(failure@),
{
    let all = lines(failure);
    let mut kept: Vec<String> = Vec::new();
    let mut lowered: Vec<String> = Vec::new();
    let mut i: usize = 0;
    while i < all.len()
        invariant
            i <= all@.len(),
            views(kept@) == filled(views(all@).take(i as int)),
            views(lowered@) == lowercases(views(kept@)),
        decreases all@.len() - i,
    {
        proof {
            assert(views(all@).take(i + 1).drop_last() =~= views(all@).take(i as int));
        }
        let line = trim(all[i].as_str());
        if !line.as_str().is_empty() {
            let low = to_lower(line.as_str());
            proof {
                lemma_views_push(kept@, line);
                lemma_views_push(lowered@, low);
                assert(lowercases(views(kept@).push(line@)) =~= lowercases(views(kept@)).push(
                    lowercase(line@),
                ));
            }
            kept.push(line);
            lowered.push(low);
        }
        i += 1;
    }
    assert(views(all@).take(i as int) =~= views(all@));
    pick_key_lines(&kept, &lowered)
}

/// Each key line is a line that was given and whose lower-case form is diagnostic, and no two
/// neighbouring key lines are equal.
pub proof fn law_key_lines(lines: Seq<Seq<char>>, lowered: Seq<Seq<char>>)
    requires
        lines.len() == lowered.len(),
    ensures
        forall|i: int|
            0 <= i < key_lines(lines, lowered).len() ==> exists|k: int|
                #![trigger lines[k]]
                0 <= k < lines.len() && lines[k] == #[trigger] key_lines(lines, lowered)[i]
                    && diagnostic(lowered[k]),
        forall|i: int|
            0 < i < key_lines(lines, lowered).len() ==> #[trigger] key_lines(lines, lowered)[i]
                != key_lines(lines, lowered)[i - 1],
    decreases lines.len(),
{
    if lines.len() > 0 {
        let a = lines.drop_last();
        let b = lowered.drop_last();
        law_key_lines(a, b);
        let front = key_lines(a, b);
        let all = key_lines(lines, lowered);
        assert forall|i: int| 0 <= i < all.len() implies exists|k: int|
            #![trigger lines[k]]
            0 <= k < lines.len() && lines[k] == #[trigger] all[i] && diagnostic(lowered[k]) by {
            if i < front.len() {
                assert(all[i] == front[i]);
                let k = choose|k: int|
                    #![trigger a[k]]
                    0 <= k < a.len() && a[k] == front[i] && diagnostic(b[k]);
                assert(lines[k] == a[k]);
            } else {
                assert(lines[lines.len() - 1] == all[i]);
            }
        }
        assert forall|i: int| 0 < i < all.len() implies #[trigger] all[i] != all[i - 1] by {
            if i < front.len() {
                assert(all[i] == front[i] && all[i - 1] == front[i - 1]);
            }
        }
    }
}

// ---- laws ---------------------------------------------------------------------------------

/// The words of a failed assertion.
pub open spec fn assertion_words() -> Seq<Seq<char>> {
    seq![
        "assert"@,
        "expected"@,
        "actual"@,
        "!="@,
        "=="@,
        " to equal"@,
        " to be"@,
        "assertionerror"@,
        "panicked"@,
        "left:"@,
        "right:"@,
        "got "@,
        "but was"@,
        "should"@,
        "fail"@,
    ]
}

/// A line is diagnostic just when one of the words stands in it, wherever it stands.
pub proof fn law_words_are_diagnostic(before: Seq<char>, k: int, behind: Seq<char>)
    requires
        0 <= k < assertion_words().len(),
    ensures
        diagnostic(before + assertion_words()[k] + behind),
{
    let word = assertion_words()[k];
    let line = before + word + behind;
    let i = before.len() as int;
    assert(line.subrange(i, i + word.len()) =~= word);
    assert(occurs_at(line, word, i));
    assert(holds(line, word));
}

/// A line without any of the words is not diagnostic.
pub proof fn law_other_lines_are_not_diagnostic(line: Seq<char>)
    requires
        forall|k: int, i: int|
            0 <= k < assertion_words().len() && 0 <= i && i + assertion_words()[k].len()
                <= line.len() ==> #[trigger] line.subrange(i, i + assertion_words()[k].len())
                != assertion_words()[k],
    ensures
        !diagnostic(line),
{
    let words = assertion_words();
    assert forall|k: int| 0 <= k < words.len() implies !holds(line, #[trigger] words[k]) by {
        if holds(line, words[k]) {
            let i = choose|i: int| occurs_at(line, words[k], i);
            assert(line.subrange(i, i + words[k].len()) == words[k]);
        }
    }
    assert(!holds(line, words[0]) && !holds(line, words[1]) && !holds(line, words[2]));
    assert(!holds(line, words[3]) && !holds(line, words[4]) && !holds(line, words[5]));
    assert(!holds(line, words[6]) && !holds(line, words[7]) && !holds(line, words[8]));
    assert(!holds(line, words[9]) && !holds(line, words[10]) && !holds(line, words[11]));
    assert(!holds(line, words[12]) && !holds(line, words[13]) && !holds(line, words[14]));
}

/// The positions rise.
pub open spec fn rising(places: Seq<int>, n: int) -> bool {
    &&& forall|i: int| 0 <= i < places.len() ==> 0 <= #[trigger] places[i] < n
    &&& forall|i: int, j: int|
        0 <= i < j < places.len() ==> #[trigger] places[i] < #[trigger] places[j]
}

/// The filled lines are the lines with something but white space on them, each without the white
/// space at its ends, all of them and in their order.
pub proof fn law_filled_lines(lines: Seq<Seq<char>>) -> (places: Seq<int>)
    ensures
        places.len() == filled(lines).len(),
        rising(places, lines.len() as int),
        forall|i: int|
            0 <= i < places.len() ==> #[trigger] filled(lines)[i] == trimmed(lines[places[i]])
                && filled(lines)[i].len() > 0,
        forall|k: int|
            0 <= k < lines.len() && !places.contains(k) ==> trimmed(#[trigger] lines[k]).len()
                == 0,
    decreases lines.len(),
{
    if lines.len() == 0 {
        Seq::empty()
    } else {
        let front = lines.drop_last();
        let n = front.len() as int;
        let before = law_filled_lines(front);
        let places = if trimmed(lines.last()).len() == 0 {
            before
        } else {
            before.push(n)
        };
        assert forall|i: int| 0 <= i < places.len() implies #[trigger] filled(lines)[i] == trimmed(
            lines[places[i]],
        ) && filled(lines)[i].len() > 0 by {
            if i < before.len() {
                assert(filled(lines)[i] == filled(front)[i]);
                assert(lines[places[i]] == front[before[i]]);
            }
        }
        assert forall|k: int| 0 <= k < lines.len() && !places.contains(k) implies trimmed(
            #[trigger] lines[k],
        ).len() == 0 by {
            if k < n {
                if before.contains(k) {
                    let j = choose|j: int| 0 <= j < before.len() && before[j] == k;
                    assert(places[j] == k);
                }
                assert(front[k] == lines[k]);
            } else if trimmed(lines.last()).len() > 0 {
                assert(places[before.len() as int] == k);
            }
        }
        places
    }
}

/// The key lines are the diagnostic lines, all of them and in their order, but that of several equal
/// ones that no other diagnostic line parts only the first is taken: what lies between two lines that
/// were taken is not diagnostic or repeats the former, and before the first nothing is diagnostic.
pub proof fn law_key_lines_are_all(lines: Seq<Seq<char>>, lowered: Seq<Seq<char>>) -> (places: Seq<
    int,
>)
    requires
        lines.len() == lowered.len(),
    ensures
        places.len() == key_lines(lines, lowered).len(),
        rising(places, lines.len() as int),
        forall|i: int|
            0 <= i < places.len() ==> #[trigger] key_lines(lines, lowered)[i] == lines[places[i]]
                && diagnostic(lowered[places[i]]),
        forall|i: int|
            0 < i < places.len() ==> #[trigger] lines[places[i]] != lines[places[i - 1]],
        places.len() == 0 ==> forall|k: int|
            0 <= k < lines.len() ==> !diagnostic(#[trigger] lowered[k]),
        places.len() > 0 ==> forall|k: int|
            0 <= k < places[0] ==> !diagnostic(#[trigger] lowered[k]),
        forall|i: int, k: int|
            0 <= i < places.len() && places[i] < k < (if i + 1 < places.len() {
                places[i + 1]
            } else {
                lines.len() as int
            }) && diagnostic(lowered[k]) ==> #[trigger] lines[k] == lines[#[trigger] places[i]],
    decreases lines.len(),
{
    if lines.len() == 0 {
        Seq::empty()
    } else {
        let a = lines.drop_last();
        let b = lowered.drop_last();
        let n = a.len() as int;
        let front = key_lines(a, b);
        let before = law_key_lines_are_all(a, b);
        let repeated = front.len() > 0 && front.last() == lines.last();
        let taken = diagnostic(lowered.last()) && !repeated;
        let places = if taken {
            before.push(n)
        } else {
            before
        };
        let all = key_lines(lines, lowered);
        assert forall|i: int| 0 <= i < places.len() implies #[trigger] all[i] == lines[places[i]]
            && diagnostic(lowered[places[i]]) by {
            if i < before.len() {
                assert(all[i] == front[i]);
                assert(lines[places[i]] == a[before[i]]);
                assert(lowered[places[i]] == b[before[i]]);
            }
        }
        assert forall|i: int| 0 < i < places.len() implies #[trigger] lines[places[i]]
            != lines[places[i - 1]] by {
            if i < before.len() {
                assert(a[before[i]] != a[before[i - 1]]);
            } else {
                assert(front.last() == front[before.len() - 1]);
            }
        }
        if places.len() == 0 {
            assert forall|k: int| 0 <= k < lines.len() implies !diagnostic(
                #[trigger] lowered[k],
            ) by {
                if k < n {
                    assert(lowered[k] == b[k]);
                }
            }
        } else {
            assert forall|k: int| 0 <= k < places[0] implies !diagnostic(#[trigger] lowered[k]) by {
                assert(lowered[k] == b[k]);
            }
        }
        assert forall|i: int, k: int|
            0 <= i < places.len() && places[i] < k < (if i + 1 < places.len() {
                places[i + 1]
            } else {
                lines.len() as int
            }) && diagnostic(lowered[k]) implies #[trigger] lines[k] == lines[#[trigger] places[i]] by {
            if i < before.len() {
                assert(places[i] == before[i]);
                if k < n {
                    assert(lowered[k] == b[k]);
                    assert(a[k] == a[before[i]]);
                } else {
                    assert(i + 1 == before.len());
                    assert(front.last() == front[i]);
                }
            }
        }
        places
    }
}

/// A key assertion is made of the first eight key lines, or of all where there are fewer, a line
/// each; where there is none, it says so.
pub proof fn law_key_assertion_is_short(lines: Seq<Seq<char>>, lowered: Seq<Seq<char>>)
    ensures
        key_lines(lines, lowered).len() == 0 ==> key_text(lines, lowered)
            == "(no explicit assertion line — infer the exact failing condition from the failure above)"@,
        0 < key_lines(lines, lowered).len() <= 8 ==> key_text(lines, lowered) == joined(
            key_lines(lines, lowered),
            "\n"@,
        ),
        key_lines(lines, lowered).len() > 8 ==> key_text(lines, lowered) == joined(
            key_lines(lines, lowered).take(8),
            "\n"@,
        ),
{
    let hits = key_lines(lines, lowered);
    if hits.len() <= 8 {
        assert(hits.take(hits.len() as int) =~= hits);
    }
}

/// A key assertion is looked for on the filled lines of the failure, by the lower-case form of each.
pub proof fn law_key_assertion_is_of_the_failure(failure: Seq<char>, lowered: Seq<Seq<char>>)
    requires
        lowered.len() == filled(lines_of(failure)).len(),
        forall|i: int|
            0 <= i < lowered.len() ==> #[trigger] lowered[i] == lowercase(
                filled(lines_of(failure))[i],
            ),
    ensures
        key_assertion_of(failure) == key_text(filled(lines_of(failure)), lowered),
{
    assert(lowered =~= lowercases(filled(lines_of(failure))));
}

} // verus!

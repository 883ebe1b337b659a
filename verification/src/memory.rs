//! Fixes that are remembered: what is stored of a fix, and which stored fixes are brought up when
//! a failure looks like an earlier one.
//!
//! A similarity is a single-precision floating-point number, which stands here by its 32-bit
//! pattern. Patterns of numbers that are not negative are ordered as the numbers are.

use crate::json::{as_text, member, object, put, text, tree, Json};
use crate::text::{decimal, hex, write_decimal, write_hex};
use vstd::prelude::*;

verus! {

/// The pattern of the similarity below which no fix is brought up: one half.
pub const MIN_SIMILARITY: u32 = 0x3f00_0000;

/// The pattern of infinity. Those above it are of negative numbers and of what is no number.
pub const INFINITY: u32 = 0x7f80_0000;

/// How many fixes are looked up at most.
pub const RECALL_LIMIT: usize = 3;

/// The name of the collection that fixes are stored in.
pub const COLLECTION: &'static str = "fixes";

/// What is stored of a fix: an id, and the failure and the difference as fields.
pub struct FixRecord {
    pub id: String,
    pub fields: serde_json::Value,
}

/// The fields that are stored of a fix.
pub open spec fn record_json(bug: Seq<char>, diff: Seq<char>) -> Json {
    Json::empty().with("bug_desc"@, Json::Text(bug)).with("diff"@, Json::Text(diff))
}

/// What is stored of a fix. Its id is the time since the epoch in nanoseconds, or zero where the
/// clock stands before the epoch.
pub fn record_fix(bug_desc: &str, diff: &str, nanos: Option<u128>) -> (r: FixRecord)
    ensures
        r.id@ == decimal(
            match nanos {
                Some(n) => n as nat,
                None => 0,
            },
        ),
        tree(r.fields) == record_json(bug_desc@, diff@),
{
    let id = match nanos {
        Some(n) => write_decimal(n),
        None => write_decimal(0),
    };
    let mut fields = object();
    put(&mut fields, "bug_desc", text(bug_desc.to_owned()));
    put(&mut fields, "diff", text(diff.to_owned()));
    FixRecord { id, fields }
}

/// A stored fix that was looked up: its fields, and the pattern of its similarity.
pub struct Hit {
    pub fields: serde_json::Value,
    pub similarity: u32,
}

/// What a [`Hit`] holds.
pub open spec fn hit_views(hits: Seq<Hit>) -> Seq<(Json, u32)> {
    hits.map_values(|h: Hit| (tree(h.fields), h.similarity))
}

/// A fix that is brought up: its difference, and the pattern of its similarity.
pub struct PastFix {
    pub diff: String,
    pub similarity: u32,
}

/// What a list of fixes holds.
pub open spec fn fix_views(fixes: Seq<PastFix>) -> Seq<(Seq<char>, u32)> {
    fixes.map_values(|f: PastFix| (f.diff@, f.similarity))
}

/// The pattern is that of a number of at least one half.
pub open spec fn similar_enough(similarity: u32) -> bool {
    MIN_SIMILARITY <= similarity <= INFINITY
}

/// The fixes among the hits that bear a difference and are similar enough, in the order of the
/// hits.
pub open spec fn brought_up(hits: Seq<(Json, u32)>) -> Seq<(Seq<char>, u32)>
    decreases hits.len(),
{
    if hits.len() == 0 {
        Seq::empty()
    } else {
        let front = brought_up(hits.drop_last());
        let (fields, similarity) = hits.last();
        match fields.member("diff"@).text() {
            Some(diff) => if similar_enough(similarity) {
                front.push((diff, similarity))
            } else {
                front
            },
            None => front,
        }
    }
}

/// The fixes among the hits that bear a difference and are similar enough. Where none is, none is
/// brought up, rather than the nearest that there is.
pub fn similar_fixes(hits: &Vec<Hit>) -> (r: Vec<PastFix>)
    ensures
        fix_views(r@) == brought_up(hit_views(hits@)),
{
    let mut r: Vec<PastFix> = Vec::new();
    let ghost all = hit_views(hits@);
    let mut i: usize = 0;
    assert(fix_views(r@) =~= brought_up(all.take(0)));
    while i < hits.len()
        invariant
            i <= hits@.len(),
            all == hit_views(hits@),
            fix_views(r@) == brought_up(all.take(i as int)),
        decreases hits@.len() - i,
    {
        proof {
            assert(all.take(i + 1).drop_last() =~= all.take(i as int));
        }
        let similarity: u32 = hits[i].similarity;
        if let Some(diff) = as_text(member(&hits[i].fields, "diff")) {
            if MIN_SIMILARITY <= similarity && similarity <= INFINITY {
                let fix = PastFix { diff: diff.to_owned(), similarity };
                let ghost before = r@;
                r.push(fix);
                assert(fix_views(r@) =~= fix_views(before).push((fix.diff@, similarity)));
            }
        }
        i += 1;
    }
    assert(all.take(i as int) =~= all);
    r
}

/// The vector for a single text: the first that was made of it, or an error where none was.
pub fn first_vector<T>(vectors: Vec<T>) -> (r: Result<T, String>)
    ensures
        vectors@.len() > 0 ==> r == Ok::<T, String>(vectors@[0]),
        vectors@.len() == 0 ==> (r matches Err(e) && e@ == "embedder returned no vector"@),
{
    let mut all = vectors;
    if all.len() == 0 {
        Err("embedder returned no vector".to_owned())
    } else {
        Ok(all.swap_remove(0))
    }
}

/// Whether the memory of a repository is opened. What is not there yet is made only to store
/// something: a lookup leaves the disk alone, and finds nothing.
pub fn is_opened(to_store: bool, exists: bool) -> (r: bool)
    ensures
        r == (to_store || exists),
{
    to_store || exists
}

/// Whether the collection of fixes is made in a memory that was opened: only to store something,
/// and only where it was not found there. A lookup that does not find it finds nothing.
pub fn is_made(to_store: bool, found: bool) -> (r: bool)
    ensures
        r == (to_store && !found),
{
    to_store && !found
}

/// The name of the directory that holds the memory of a repository, made of a digest of the
/// repository's path: sixteen digits.
pub fn memory_dir_name(digest: u64) -> (r: String)
    ensures
        r@ == hex(digest as nat, 16),
{
    write_hex(digest, 16)
}

/// What was stored of a fix is what comes back of it: looked up with a similarity of at least one
/// half, its difference is brought up as it was stored; with less, it is not brought up.
pub proof fn law_recorded_fix_comes_back(bug: Seq<char>, diff: Seq<char>, similarity: u32)
    ensures
        brought_up(seq![(record_json(bug, diff), similarity)]) == if similar_enough(similarity) {
            seq![(diff, similarity)]
        } else {
            Seq::empty()
        },
{
    reveal_strlit("bug_desc");
    reveal_strlit("diff");
    let hits = seq![(record_json(bug, diff), similarity)];
    assert(hits.drop_last() =~= Seq::empty());
    assert(brought_up(hits.drop_last()) =~= Seq::empty());
    assert(brought_up(hits) =~= if similar_enough(similarity) {
        seq![(diff, similarity)]
    } else {
        Seq::empty()
    });
}

/// Nothing that is not similar enough is ever brought up, and no more fixes are brought up than
/// were looked up.
pub proof fn law_no_junk(hits: Seq<(Json, u32)>)
    ensures
        brought_up(hits).len() <= hits.len(),
        forall|i: int|
            0 <= i < brought_up(hits).len() ==> similar_enough(
                #[trigger] brought_up(hits)[i].1,
            ),
    decreases hits.len(),
{
    if hits.len() > 0 {
        law_no_junk(hits.drop_last());
    }
}

proof fn lemma_hex(a: nat, b: nat, width: nat)
    requires
        hex(a, width) == hex(b, width),
        a < vstd::arithmetic::power::pow(16, width),
        b < vstd::arithmetic::power::pow(16, width),
    ensures
        a == b,
    decreases width,
{
    reveal(vstd::arithmetic::power::pow);
    reveal_strlit("0123456789abcdef");
    if width > 0 {
        let w = (width - 1) as nat;
        let x = hex(a, width);
        let y = hex(b, width);
        assert(x.drop_last() =~= hex(a / 16, w));
        assert(y.drop_last() =~= hex(b / 16, w));
        assert(x.last() == crate::text::digit((a % 16) as int));
        assert(y.last() == crate::text::digit((b % 16) as int));
        assert(a % 16 == b % 16);
        lemma_hex(a / 16, b / 16, w);
    }
}

/// Two digests never share a directory.
pub proof fn law_directories_are_distinct(a: u64, b: u64)
    requires
        hex(a as nat, 16) == hex(b as nat, 16),
    ensures
        a == b,
{
    assert(vstd::arithmetic::power::pow(16, 16) == 0x1_0000_0000_0000_0000int) by {
        reveal_with_fuel(vstd::arithmetic::power::pow, 17);
    }
    lemma_hex(a as nat, b as nat, 16);
}

/// The fixes that are brought up are all the hits with a difference whose similarity is at least one
/// half, in the order of the hits, each with its own difference and similarity.
pub proof fn law_every_similar_fix_is_brought_up(hits: Seq<(Json, u32)>) -> (places: Seq<int>)
    ensures
        places.len() == brought_up(hits).len(),
        forall|i: int| 0 <= i < places.len() ==> 0 <= #[trigger] places[i] < hits.len(),
        forall|i: int, j: int|
            0 <= i < j < places.len() ==> #[trigger] places[i] < #[trigger] places[j],
        forall|i: int|
            0 <= i < places.len() ==> hits[places[i]].0.member("diff"@) == Json::Text(
                (#[trigger] brought_up(hits)[i]).0,
            ) && brought_up(hits)[i].1 == hits[places[i]].1,
        forall|k: int|
            0 <= k < hits.len() ==> (places.contains(k) <==> (#[trigger] hits[k]).0.member(
                "diff"@,
            ) is Text && 0x3f00_0000 <= hits[k].1 <= 0x7f80_0000),
    decreases hits.len(),
{
    if hits.len() == 0 {
        Seq::empty()
    } else {
        let front = hits.drop_last();
        let n = front.len() as int;
        let before = law_every_similar_fix_is_brought_up(front);
        let last = hits.last();
        let counts = last.0.member("diff"@) is Text && 0x3f00_0000 <= last.1 <= 0x7f80_0000;
        let places = if counts {
            before.push(n)
        } else {
            before
        };
        let all = brought_up(hits);
        assert forall|i: int| 0 <= i < places.len() implies hits[places[i]].0.member("diff"@)
            == Json::Text((#[trigger] all[i]).0) && all[i].1 == hits[places[i]].1 by {
            if i < before.len() {
                assert(all[i] == brought_up(front)[i]);
                assert(hits[places[i]] == front[before[i]]);
            }
        }
        assert forall|k: int| 0 <= k < hits.len() implies (places.contains(k) <==> (
        #[trigger] hits[k]).0.member("diff"@) is Text && 0x3f00_0000 <= hits[k].1
            <= 0x7f80_0000) by {
            if k < n {
                assert(front[k] == hits[k]);
                if before.contains(k) {
                    let j = choose|j: int| 0 <= j < before.len() && before[j] == k;
                    assert(places[j] == k);
                }
                if places.contains(k) {
                    let j = choose|j: int| 0 <= j < places.len() && places[j] == k;
                    assert(before[j] == k);
                }
            } else if counts {
                assert(places[before.len() as int] == k);
            } else if places.contains(k) {
                let j = choose|j: int| 0 <= j < places.len() && places[j] == k;
                assert(before[j] == k);
            }
        }
        places
    }
}

/// A record holds the failure and the difference as they are, and nothing else.
pub proof fn law_record_holds_both(bug: Seq<char>, diff: Seq<char>, key: Seq<char>)
    ensures
        record_json(bug, diff).member("bug_desc"@) == Json::Text(bug),
        record_json(bug, diff).member("diff"@) == Json::Text(diff),
        key != "bug_desc"@ && key != "diff"@ ==> record_json(bug, diff).member(key) == Json::Null,
{
    reveal_strlit("bug_desc");
    reveal_strlit("diff");
    assert("bug_desc"@.len() != "diff"@.len());
}

/// Lists of hits and of fixes hold each of them, in order.
pub proof fn law_hits_and_fixes_hold_what_is_in_them(hits: Seq<Hit>, fixes: Seq<PastFix>)
    ensures
        hit_views(hits).len() == hits.len(),
        forall|i: int|
            0 <= i < hits.len() ==> #[trigger] hit_views(hits)[i] == (
                tree(hits[i].fields),
                hits[i].similarity,
            ),
        fix_views(fixes).len() == fixes.len(),
        forall|i: int|
            0 <= i < fixes.len() ==> #[trigger] fix_views(fixes)[i] == (
                fixes[i].diff@,
                fixes[i].similarity,
            ),
{
}

} // verus!

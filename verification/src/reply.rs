//! Reading what the model wrote: the code in its reply, and the sign that it repeats itself.

use crate::text::{
    chars_of, contains, find, found, holds, law_trim_twice, lemma_found, lemma_has_first, occurs_at,
    trim, trim_range, trimmed,
};
use vstd::prelude::*;
use vstd::string::*;
use vstd::utf8::is_char_boundary;

verus! {

/// What opens and closes a block of code.
pub const FENCE: &'static str = "```";

/// What stands in the first fenced block of a text: behind the line that the first fence opens,
/// up to the next fence.
pub open spec fn fenced(text: Seq<char>) -> Option<Seq<char>> {
    match found(text, FENCE@) {
        None => None,
        Some(open) => {
            let after = text.skip(open + FENCE@.len());
            match found(after, seq!['\n']) {
                None => None,
                Some(feed) => {
                    let rest = after.skip(feed + 1);
                    match found(rest, FENCE@) {
                        None => None,
                        Some(close) => Some(rest.take(close)),
                    }
                },
            }
        },
    }
}

/// The code in a reply: its first fenced block, or all of it where it has none, without white
/// space at the ends.
pub open spec fn code_of(text: Seq<char>) -> Seq<char> {
    match fenced(text) {
        Some(block) => trimmed(block),
        None => trimmed(text),
    }
}

/// The code in a reply: its first fenced block, or all of it where it has none, without white
/// space at the ends.
pub fn extract_code(text: &str) -> (r: String)
    ensures
        r@ == code_of(text@),
{
    let chars = chars_of(text);
    let fence = chars_of(FENCE);
    let mut feed: Vec<char> = Vec::new();
    feed.push('\n');
    assert(feed@ =~= seq!['\n']);
    assert(chars@.skip(0) =~= text@);
    if let Some(open) = find(&chars, 0, &fence) {
        let after: usize = open + fence.len();
        if let Some(end) = find(&chars, after, &feed) {
            let start: usize = after + end + 1;
            let ghost rest = text@.skip(after as int).skip(end + 1);
            assert(rest =~= chars@.skip(start as int));
            if let Some(close) = find(&chars, start, &fence) {
                assert(rest.take(close as int) =~= chars@.subrange(
                    start as int,
                    start + close as int,
                ));
                return trim_range(&chars, start, start + close);
            }
        }
    }
    trim(text)
}

/// A reply that holds one fenced block gives the code in it back, whatever stands around the
/// block and whatever label its opening line bears. A block that ends with a backtick is no such
/// block, since its end cannot be told from the closing fence.
pub proof fn law_fenced_code_is_given_back(
    before: Seq<char>,
    label: Seq<char>,
    code: Seq<char>,
    behind: Seq<char>,
)
    requires
        !holds(before, FENCE@),
        !label.contains('\n'),
        !holds(code, FENCE@),
        code.len() > 0 ==> code.last() != '`',
    ensures
        code_of(before + FENCE@ + label + seq!['\n'] + code + FENCE@ + behind) == trimmed(code),
{
    let feed = seq!['\n'];
    let rest = code + FENCE@ + behind;
    let opened = label + feed + rest;
    let text = before + FENCE@ + label + feed + code + FENCE@ + behind;
    lemma_parts(before, FENCE@, label, feed, code, behind);
    let open = lemma_opening(before, opened);
    let after = text.skip(open + FENCE@.len());
    let line = lemma_line(after, label, feed, rest);
    lemma_feed(line, rest);
    assert(after.skip(line.len() as int + 1) =~= rest);
    lemma_closing(code, behind);
    assert(rest.take(code.len() as int) =~= code);
}

proof fn lemma_parts(
    before: Seq<char>,
    fence: Seq<char>,
    label: Seq<char>,
    feed: Seq<char>,
    code: Seq<char>,
    behind: Seq<char>,
)
    ensures
        before + fence + label + feed + code + fence + behind == before + fence + (label + feed + (
        code + fence + behind)),
{
    assert(before + fence + label + feed + code + fence + behind =~= before + fence + (label + feed
        + (code + fence + behind)));
}

proof fn lemma_line(
    after: Seq<char>,
    label: Seq<char>,
    feed: Seq<char>,
    rest: Seq<char>,
) -> (line: Seq<char>)
    requires
        after.len() >= (label + feed + rest).len(),
        after.skip(after.len() - (label + feed + rest).len()) == label + feed + rest,
        !after.take(after.len() - (label + feed + rest).len()).contains('\n'),
        !label.contains('\n'),
    ensures
        after == line + feed + rest,
        !line.contains('\n'),
{
    let n = after.len() - (label + feed + rest).len();
    let ticks = after.take(n);
    let line = ticks + label;
    assert(after =~= ticks + after.skip(n));
    assert(after =~= line + feed + rest);
    assert forall|i: int| 0 <= i < line.len() implies line[i] != '\n' by {
        if i < n {
            assert(ticks.contains(ticks[i]));
        } else {
            assert(label.contains(label[i - n]));
        }
    }
    line
}

proof fn lemma_opening(before: Seq<char>, x: Seq<char>) -> (open: int)
    requires
        !holds(before, FENCE@),
    ensures
        found(before + FENCE@ + x, FENCE@) == Some(open),
        0 <= open <= before.len(),
        ({
            let after = (before + FENCE@ + x).skip(open + FENCE@.len());
            &&& after.len() >= x.len()
            &&& after.skip(after.len() - x.len()) == x
            &&& !after.take(after.len() - x.len()).contains('\n')
        }),
{
    reveal_strlit("```");
    let text = before + FENCE@ + x;
    let b = before.len() as int;
    assert(text.subrange(b, b + 3) =~= FENCE@);
    let open = lemma_has_first(text, FENCE@, b);
    lemma_found(text, FENCE@, open);
    if open + 3 <= b {
        assert(before.subrange(open, open + 3) =~= text.subrange(open, open + 3));
        assert(occurs_at(before, FENCE@, open));
    }
    let after = text.skip(open + 3);
    assert(after.skip(after.len() - x.len()) =~= x);
    let ticks = after.take(after.len() - x.len());
    assert forall|i: int| 0 <= i < ticks.len() implies ticks[i] != '\n' by {
        assert(ticks[i] == FENCE@[open + 3 + i - b]);
    }
    open
}

proof fn lemma_feed(line: Seq<char>, y: Seq<char>)
    requires
        !line.contains('\n'),
    ensures
        found(line + seq!['\n'] + y, seq!['\n']) == Some(line.len() as int),
{
    let nl = seq!['\n'];
    let s = line + nl + y;
    let n = line.len() as int;
    assert(s.subrange(n, n + 1) =~= nl);
    assert forall|j: int| 0 <= j < n implies !occurs_at(s, nl, j) by {
        if occurs_at(s, nl, j) {
            assert(s.subrange(j, j + 1)[0] == '\n');
            assert(line[j] == '\n');
        }
    }
    lemma_found(s, nl, n);
}

proof fn lemma_closing(code: Seq<char>, behind: Seq<char>)
    requires
        !holds(code, FENCE@),
        code.len() > 0 ==> code.last() != '`',
    ensures
        found(code + FENCE@ + behind, FENCE@) == Some(code.len() as int),
{
    reveal_strlit("```");
    let s = code + FENCE@ + behind;
    let c = code.len() as int;
    assert(s.subrange(c, c + 3) =~= FENCE@);
    assert forall|j: int| 0 <= j < c implies !occurs_at(s, FENCE@, j) by {
        if occurs_at(s, FENCE@, j) {
            if j + 3 <= c {
                assert(code.subrange(j, j + 3) =~= s.subrange(j, j + 3));
                assert(occurs_at(code, FENCE@, j));
            } else {
                assert(s.subrange(j, j + 3)[c - 1 - j] == '`');
                assert(s[c - 1] == code.last());
            }
        }
    }
    lemma_found(s, FENCE@, c);
}

/// Code that is read out of a reply has no white space at its ends.
pub proof fn law_code_is_trimmed(text: Seq<char>)
    ensures
        trimmed(code_of(text)) == code_of(text),
{
    match fenced(text) {
        Some(block) => law_trim_twice(block),
        None => law_trim_twice(text),
    }
}

/// The shortest output, in bytes, in which a repetition is looked for.
pub const LOOP_FLOOR: usize = 200;

/// How many bytes at the end of an output are looked for earlier in it.
pub const LOOP_TAIL: usize = 48;

/// The last boundary between characters at or before byte `i`.
pub open spec fn boundary_before(bytes: Seq<u8>, i: int) -> int
    decreases i,
{
    if i <= 0 || is_char_boundary(bytes, i) {
        i
    } else {
        boundary_before(bytes, i - 1)
    }
}

/// An output loops when it is long and what stands at its end, about [`LOOP_TAIL`] bytes from a
/// boundary between characters on, already stood earlier in it.
pub open spec fn looping(bytes: Seq<u8>) -> bool {
    bytes.len() >= LOOP_FLOOR && {
        let cut = boundary_before(bytes, bytes.len() - LOOP_TAIL);
        holds(bytes.take(cut), bytes.skip(cut))
    }
}

/// Whether the bytes from `cut` on also stand before `cut`.
fn repeats(bytes: &[u8], cut: usize) -> (r: bool)
    requires
        cut <= bytes@.len(),
    ensures
        r == holds(bytes@.take(cut as int), bytes@.skip(cut as int)),
{
    let ghost front = bytes@.take(cut as int);
    let ghost end = bytes@.skip(cut as int);
    let size: usize = bytes.len() - cut;
    if size > cut {
        assert(forall|i: int| !occurs_at(front, end, i));
        return false;
    }
    let mut i: usize = 0;
    while i <= cut - size
        invariant
            cut <= bytes.len(),
            size == bytes@.len() - cut,
            size <= cut,
            i <= cut - size + 1,
            front == bytes@.take(cut as int),
            end == bytes@.skip(cut as int),
            forall|j: int| 0 <= j < i ==> !#[trigger] occurs_at(front, end, j),
        decreases cut - size + 1 - i,
    {
        let mut k: usize = 0;
        while k < size && bytes[i + k] == bytes[cut + k]
            invariant
                cut <= bytes.len(),
                size == bytes@.len() - cut,
                i + size <= cut,
                k <= size,
                front == bytes@.take(cut as int),
                end == bytes@.skip(cut as int),
                forall|j: int| 0 <= j < k ==> front[i + j] == #[trigger] end[j],
            decreases size - k,
        {
            k += 1;
        }
        if k == size {
            assert(front.subrange(i as int, i + size) =~= end);
            assert(occurs_at(front, end, i as int));
            return true;
        }
        assert(front.subrange(i as int, i + size)[k as int] != end[k as int]);
        i += 1;
    }
    assert(forall|j: int| !occurs_at(front, end, j));
    false
}

/// Whether an output has fallen into repeating itself.
pub fn is_looping(content: &str) -> (r: bool)
    ensures
        r == looping(content.spec_bytes()),
{
    let bytes = content.as_bytes();
    if bytes.len() < LOOP_FLOOR {
        return false;
    }
    let mut cut: usize = bytes.len() - LOOP_TAIL;
    while cut > 0 && !content.is_char_boundary(cut)
        invariant
            bytes@ == content.spec_bytes(),
            cut <= bytes@.len(),
            boundary_before(bytes@, cut as int) == boundary_before(
                bytes@,
                bytes@.len() - LOOP_TAIL,
            ),
        decreases cut,
    {
        cut -= 1;
    }
    repeats(bytes, cut)
}

// ---- laws ---------------------------------------------------------------------------------

/// Three backticks stand at a position.
pub open spec fn fence_at(text: Seq<char>, i: int) -> bool {
    0 <= i && i + 3 <= text.len() && text[i] == '`' && text[i + 1] == '`' && text[i + 2] == '`'
}

proof fn lemma_fence_at(text: Seq<char>, i: int)
    ensures
        fence_at(text, i) <==> occurs_at(text, FENCE@, i),
{
    reveal_strlit("```");
    if fence_at(text, i) {
        assert(text.subrange(i, i + 3) =~= FENCE@);
    }
    if occurs_at(text, FENCE@, i) {
        let cut = text.subrange(i, i + 3);
        assert(cut[0] == text[i] && cut[1] == text[i + 1] && cut[2] == text[i + 2]);
    }
}

proof fn lemma_first_fence(text: Seq<char>, i: int)
    requires
        fence_at(text, i),
        forall|j: int| 0 <= j < i ==> !#[trigger] fence_at(text, j),
    ensures
        found(text, FENCE@) == Some(i),
{
    lemma_fence_at(text, i);
    assert forall|j: int| 0 <= j < i implies !occurs_at(text, FENCE@, j) by {
        lemma_fence_at(text, j);
    }
    lemma_found(text, FENCE@, i);
}

proof fn lemma_no_fence(text: Seq<char>)
    requires
        forall|j: int| !#[trigger] fence_at(text, j),
    ensures
        found(text, FENCE@) is None,
{
    assert forall|j: int| !occurs_at(text, FENCE@, j) by {
        lemma_fence_at(text, j);
    }
}

proof fn lemma_first_feed(text: Seq<char>, i: int)
    requires
        0 <= i < text.len(),
        text[i] == '\n',
        forall|j: int| 0 <= j < i ==> #[trigger] text[j] != '\n',
    ensures
        found(text, seq!['\n']) == Some(i),
{
    let feed = seq!['\n'];
    assert(text.subrange(i, i + 1) =~= feed);
    assert forall|j: int| 0 <= j < i implies !occurs_at(text, feed, j) by {
        if occurs_at(text, feed, j) {
            assert(text.subrange(j, j + 1)[0] == '\n');
            assert(text[j] == '\n');
        }
    }
    lemma_found(text, feed, i);
}

proof fn lemma_no_feed(text: Seq<char>)
    requires
        forall|j: int| 0 <= j < text.len() ==> #[trigger] text[j] != '\n',
    ensures
        found(text, seq!['\n']) is None,
{
    let feed = seq!['\n'];
    assert forall|j: int| !occurs_at(text, feed, j) by {
        if occurs_at(text, feed, j) {
            assert(text.subrange(j, j + 1)[0] == '\n');
            assert(text[j] == '\n');
        }
    }
}

/// The code of a reply with a closed block is what stands between the end of the line of the first
/// fence and the next fence, without white space at its ends, whatever else the reply holds.
pub proof fn law_first_block_is_taken(text: Seq<char>, open: int, feed: int, close: int)
    requires
        fence_at(text, open),
        forall|j: int| 0 <= j < open ==> !#[trigger] fence_at(text, j),
        open + 3 <= feed < text.len(),
        text[feed] == '\n',
        forall|j: int| open + 3 <= j < feed ==> #[trigger] text[j] != '\n',
        feed < close,
        fence_at(text, close),
        forall|j: int| feed < j < close ==> !#[trigger] fence_at(text, j),
    ensures
        code_of(text) == trimmed(text.subrange(feed + 1, close)),
{
    reveal_strlit("```");
    lemma_first_fence(text, open);
    let after = text.skip(open + 3);
    assert forall|j: int| 0 <= j < feed - open - 3 implies #[trigger] after[j] != '\n' by {
        assert(after[j] == text[open + 3 + j]);
    }
    lemma_first_feed(after, feed - open - 3);
    let rest = after.skip(feed - open - 3 + 1);
    assert(rest =~= text.skip(feed + 1));
    assert(fence_at(rest, close - feed - 1));
    assert forall|j: int| 0 <= j < close - feed - 1 implies !#[trigger] fence_at(rest, j) by {
        assert(!fence_at(text, feed + 1 + j));
    }
    lemma_first_fence(rest, close - feed - 1);
    assert(rest.take(close - feed - 1) =~= text.subrange(feed + 1, close));
}

/// A reply without a closed block is code from end to end: where no fence is followed by a line
/// feed and, behind that, by another fence, the code is the whole text without white space at its
/// ends.
pub proof fn law_reply_without_a_block_is_taken_whole(text: Seq<char>)
    requires
        forall|open: int, feed: int, close: int|
            !(#[trigger] fence_at(text, open) && open + 3 <= feed < close && #[trigger] text[feed]
                == '\n' && #[trigger] fence_at(text, close)),
    ensures
        code_of(text) == trimmed(text),
{
    reveal_strlit("```");
    if exists|j: int| #[trigger] fence_at(text, j) {
        let some = choose|j: int| #[trigger] fence_at(text, j);
        let open = lemma_first_of_fences(text, some);
        lemma_first_fence(text, open);
        let after = text.skip(open + 3);
        if exists|j: int| 0 <= j < after.len() && #[trigger] after[j] == '\n' {
            let k = choose|j: int| 0 <= j < after.len() && #[trigger] after[j] == '\n';
            let first = lemma_first_of_feeds(after, k);
            lemma_first_feed(after, first);
            let rest = after.skip(first + 1);
            assert forall|j: int| !#[trigger] fence_at(rest, j) by {
                if fence_at(rest, j) {
                    let feed = open + 3 + first;
                    assert(text[feed] == after[first]);
                    assert(rest[j] == text[feed + 1 + j]);
                    assert(rest[j + 1] == text[feed + 2 + j]);
                    assert(rest[j + 2] == text[feed + 3 + j]);
                    assert(fence_at(text, feed + 1 + j));
                }
            }
            lemma_no_fence(rest);
        } else {
            lemma_no_feed(after);
        }
    } else {
        lemma_no_fence(text);
    }
}

proof fn lemma_first_of_fences(text: Seq<char>, i: int) -> (first: int)
    requires
        fence_at(text, i),
    ensures
        fence_at(text, first),
        forall|j: int| 0 <= j < first ==> !#[trigger] fence_at(text, j),
    decreases i,
{
    if exists|j: int| 0 <= j < i && #[trigger] fence_at(text, j) {
        let j = choose|j: int| 0 <= j < i && #[trigger] fence_at(text, j);
        lemma_first_of_fences(text, j)
    } else {
        i
    }
}

proof fn lemma_first_of_feeds(text: Seq<char>, i: int) -> (first: int)
    requires
        0 <= i < text.len(),
        text[i] == '\n',
    ensures
        0 <= first < text.len(),
        text[first] == '\n',
        forall|j: int| 0 <= j < first ==> #[trigger] text[j] != '\n',
    decreases i,
{
    if exists|j: int| 0 <= j < i && #[trigger] text[j] == '\n' {
        let j = choose|j: int| 0 <= j < i && #[trigger] text[j] == '\n';
        lemma_first_of_feeds(text, j)
    } else {
        i
    }
}

/// Code that is read out of a reply is what is read out of it again, unless it holds a fence itself.
pub proof fn law_code_is_its_own_code(text: Seq<char>)
    requires
        forall|j: int| !#[trigger] fence_at(code_of(text), j),
    ensures
        code_of(code_of(text)) == code_of(text),
{
    law_reply_without_a_block_is_taken_whole(code_of(text));
    law_code_is_trimmed(text);
}

/// An output of less than two hundred bytes does not loop; a longer one loops just when what it ends
/// with, from the last boundary between characters on that leaves at least forty-eight bytes, also
/// stands somewhere before that boundary.
pub proof fn law_looping_is_repetition(bytes: Seq<u8>, cut: int)
    requires
        bytes.len() >= 200 ==> 0 <= cut <= bytes.len() - 48,
        bytes.len() >= 200 ==> cut == 0 || is_char_boundary(bytes, cut),
        bytes.len() >= 200 ==> forall|i: int|
            cut < i <= bytes.len() - 48 ==> !#[trigger] is_char_boundary(bytes, i),
    ensures
        bytes.len() < 200 ==> !looping(bytes),
        bytes.len() >= 200 ==> (looping(bytes) <==> exists|i: int|
            0 <= i && i + (bytes.len() - cut) <= cut && #[trigger] bytes.subrange(
                i,
                i + (bytes.len() - cut),
            ) == bytes.skip(cut)),
{
    if bytes.len() >= 200 {
        lemma_boundary_before(bytes, bytes.len() - 48, cut);
        let front = bytes.take(cut);
        let end = bytes.skip(cut);
        let size = bytes.len() - cut;
        if looping(bytes) {
            let i = choose|i: int| occurs_at(front, end, i);
            assert(bytes.subrange(i, i + size) =~= front.subrange(i, i + size));
        }
        if exists|i: int|
            0 <= i && i + size <= cut && #[trigger] bytes.subrange(i, i + size) == end {
            let i = choose|i: int|
                0 <= i && i + size <= cut && #[trigger] bytes.subrange(i, i + size) == end;
            assert(front.subrange(i, i + size) =~= bytes.subrange(i, i + size));
            assert(occurs_at(front, end, i));
        }
    }
}

proof fn lemma_boundary_before(bytes: Seq<u8>, i: int, cut: int)
    requires
        0 <= cut <= i,
        cut == 0 || is_char_boundary(bytes, cut),
        forall|k: int| cut < k <= i ==> !#[trigger] is_char_boundary(bytes, k),
    ensures
        boundary_before(bytes, i) == cut,
    decreases i - cut,
{
    if cut < i {
        assert(!is_char_boundary(bytes, i));
        lemma_boundary_before(bytes, i - 1, cut);
    }
}

} // verus!

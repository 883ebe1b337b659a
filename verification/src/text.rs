//! Character-level text operations: searching, trimming, splitting into lines, joining, and
//! writing numbers, each stated over the sequence of characters that a string holds.

use vstd::prelude::*;

verus! {

/// `String::push` appends one character to the end of the string.
pub assume_specification[ String::push ](s: &mut String, c: char)
    ensures
        final(s)@ == old(s)@.push(c),
;

// ---- searching ----------------------------------------------------------------------------

/// `pat` stands in `s` at position `i`.
pub open spec fn occurs_at<T>(s: Seq<T>, pat: Seq<T>, i: int) -> bool {
    0 <= i <= s.len() - pat.len() && s.subrange(i, i + pat.len()) == pat
}

/// `pat` stands somewhere in `s`.
pub open spec fn holds<T>(s: Seq<T>, pat: Seq<T>) -> bool {
    exists|i: int| occurs_at(s, pat, i)
}

/// `i` is the leftmost position at which `pat` stands in `s`.
pub open spec fn first_at<T>(s: Seq<T>, pat: Seq<T>, i: int) -> bool {
    occurs_at(s, pat, i) && forall|j: int| 0 <= j < i ==> !occurs_at(s, pat, j)
}

/// The leftmost position at which `pat` stands in `s`, if it stands there at all.
pub open spec fn found<T>(s: Seq<T>, pat: Seq<T>) -> Option<int> {
    if holds(s, pat) {
        Some(choose|i: int| first_at(s, pat, i))
    } else {
        None
    }
}

/// A leftmost position is the position that `found` gives.
pub proof fn lemma_found<T>(s: Seq<T>, pat: Seq<T>, i: int)
    requires
        first_at(s, pat, i),
    ensures
        found(s, pat) == Some(i),
{
    assert(occurs_at(s, pat, i));
    let k = choose|k: int| first_at(s, pat, k);
    assert(first_at(s, pat, k));
}

/// Where `pat` stands at all it has a leftmost position.
pub proof fn lemma_has_first<T>(s: Seq<T>, pat: Seq<T>, i: int) -> (first: int)
    requires
        occurs_at(s, pat, i),
    ensures
        first_at(s, pat, first),
        first <= i,
    decreases i,
{
    if exists|j: int| 0 <= j < i && occurs_at(s, pat, j) {
        let j = choose|j: int| 0 <= j < i && occurs_at(s, pat, j);
        lemma_has_first(s, pat, j)
    } else {
        i
    }
}

/// The characters of a string.
pub fn chars_of(s: &str) -> (r: Vec<char>)
    ensures
        r@ == s@,
{
    let mut r: Vec<char> = Vec::new();
    for c in it: s.chars()
        invariant
            it.seq() == s@,
            r@ == it.seq().take(it.index()),
    {
        r.push(c);
    }
    r
}

/// The characters `from .. to` as a string.
pub fn string_of(chars: &Vec<char>, from: usize, to: usize) -> (r: String)
    requires
        from <= to <= chars@.len(),
    ensures
        r@ == chars@.subrange(from as int, to as int),
{
    let mut r = String::new();
    let mut i: usize = from;
    while i < to
        invariant
            from <= i <= to <= chars@.len(),
            r@ == chars@.subrange(from as int, i as int),
        decreases to - i,
    {
        r.push(chars[i]);
        i += 1;
    }
    r
}

/// Whether `pat` stands in `s` at position `i`.
pub(crate) fn matches_at(s: &Vec<char>, pat: &Vec<char>, i: usize) -> (r: bool)
    requires
        i <= s@.len(),
    ensures
        r == occurs_at(s@, pat@, i as int),
{
    if s.len() - i < pat.len() {
        return false;
    }
    let mut k: usize = 0;
    while k < pat.len()
        invariant
            i + pat@.len() <= s.len(),
            k <= pat@.len(),
            forall|j: int| 0 <= j < k ==> s@[i + j] == #[trigger] pat@[j],
        decreases pat@.len() - k,
    {
        if s[i + k] != pat[k] {
            assert(s@.subrange(i as int, i + pat@.len())[k as int] != pat@[k as int]);
            return false;
        }
        k += 1;
    }
    assert(s@.subrange(i as int, i + pat@.len()) =~= pat@);
    true
}

/// The leftmost position at which `pat` stands in `s` from position `from` on, counted from
/// `from`.
pub fn find(s: &Vec<char>, from: usize, pat: &Vec<char>) -> (r: Option<usize>)
    requires
        from <= s@.len(),
    ensures
        r matches Some(i) ==> found(s@.skip(from as int), pat@) == Some(i as int) && from + i
            + pat.len() <= s.len(),
        r is None ==> found(s@.skip(from as int), pat@) is None,
{
    let ghost rest = s@.skip(from as int);
    let mut i: usize = from;
    loop
        invariant
            from <= i <= s@.len(),
            rest == s@.skip(from as int),
            forall|j: int| 0 <= j < i - from ==> !#[trigger] occurs_at(rest, pat@, j),
        decreases s@.len() - i,
    {
        let hit = matches_at(s, pat, i);
        proof {
            if i + pat@.len() <= s@.len() {
                assert(rest.subrange(i - from, i - from + pat@.len()) =~= s@.subrange(
                    i as int,
                    i + pat@.len(),
                ));
            }
            assert(hit == occurs_at(rest, pat@, i - from));
        }
        if hit {
            proof {
                lemma_found(rest, pat@, i - from);
            }
            return Some(i - from);
        }
        if i == s.len() {
            assert(forall|j: int| !occurs_at(rest, pat@, j));
            return None;
        }
        i += 1;
    }
}

/// Whether `pat` stands somewhere in `s`.
pub fn contains(s: &str, pat: &str) -> (r: bool)
    ensures
        r == holds(s@, pat@),
{
    let chars = chars_of(s);
    let wanted = chars_of(pat);
    let at = find(&chars, 0, &wanted);
    assert(s@.skip(0) =~= s@);
    at.is_some()
}

/// Whether `s` begins with `prefix`.
pub fn starts_with(s: &str, prefix: &str) -> (r: bool)
    ensures
        r == prefix@.is_prefix_of(s@),
{
    let chars = chars_of(s);
    let wanted = chars_of(prefix);
    matches_at(&chars, &wanted, 0)
}

/// The rest of `s` behind `prefix`, if `s` begins with it.
pub fn strip_prefix(s: &str, prefix: &str) -> (r: Option<String>)
    ensures
        r is Some <==> prefix@.is_prefix_of(s@),
        r matches Some(rest) ==> rest@ == s@.skip(prefix@.len() as int),
{
    if starts_with(s, prefix) {
        let chars = chars_of(s);
        let from = chars_of(prefix).len();
        let rest = string_of(&chars, from, chars.len());
        assert(rest@ =~= s@.skip(prefix@.len() as int));
        Some(rest)
    } else {
        None
    }
}

/// Whether two strings hold the same characters.
pub fn same(a: &str, b: &str) -> (r: bool)
    ensures
        r == (a@ == b@),
{
    a.to_owned() == b.to_owned()
}

// ---- trimming -----------------------------------------------------------------------------

/// The characters with the Unicode property White_Space.
pub open spec fn white(c: char) -> bool {
    let n = c as u32;
    ||| 0x09 <= n <= 0x0d
    ||| n == 0x20
    ||| n == 0x85
    ||| n == 0xa0
    ||| n == 0x1680
    ||| 0x2000 <= n <= 0x200a
    ||| n == 0x2028
    ||| n == 0x2029
    ||| n == 0x202f
    ||| n == 0x205f
    ||| n == 0x3000
}

/// Whether a character is white space.
pub fn is_white(c: char) -> (r: bool)
    ensures
        r == white(c),
{
    let n: u32 = c as u32;
    (0x09 <= n && n <= 0x0d) || n == 0x20 || n == 0x85 || n == 0xa0 || n == 0x1680 || (0x2000 <= n
        && n <= 0x200a) || n == 0x2028 || n == 0x2029 || n == 0x202f || n == 0x205f || n == 0x3000
}

/// `s` without the white space at its start.
pub open spec fn trimmed_start(s: Seq<char>) -> Seq<char>
    decreases s.len(),
{
    if s.len() > 0 && white(s[0]) {
        trimmed_start(s.drop_first())
    } else {
        s
    }
}

/// `s` without the white space at its end.
pub open spec fn trimmed_end(s: Seq<char>) -> Seq<char>
    decreases s.len(),
{
    if s.len() > 0 && white(s.last()) {
        trimmed_end(s.drop_last())
    } else {
        s
    }
}

/// `s` without the white space at both ends.
pub open spec fn trimmed(s: Seq<char>) -> Seq<char> {
    trimmed_end(trimmed_start(s))
}

proof fn lemma_trimmed_start(s: Seq<char>, n: int)
    requires
        0 <= n <= s.len(),
        forall|i: int| 0 <= i < n ==> white(#[trigger] s[i]),
        n == s.len() || !white(s[n]),
    ensures
        trimmed_start(s) == s.skip(n),
    decreases n,
{
    if n == 0 {
        assert(s.skip(0) =~= s);
    } else {
        assert(white(s[0]));
        let rest = s.drop_first();
        assert forall|i: int| 0 <= i < n - 1 implies white(#[trigger] rest[i]) by {
            assert(white(s[i + 1]));
        }
        lemma_trimmed_start(rest, n - 1);
        assert(rest.skip(n - 1) =~= s.skip(n));
    }
}

proof fn lemma_trimmed_end(s: Seq<char>, n: int)
    requires
        0 <= n <= s.len(),
        forall|i: int| n <= i < s.len() ==> white(#[trigger] s[i]),
        n == 0 || !white(s[n - 1]),
    ensures
        trimmed_end(s) == s.take(n),
    decreases s.len() - n,
{
    if n == s.len() {
        assert(s.take(n) =~= s);
    } else {
        assert(white(s[s.len() - 1]));
        let rest = s.drop_last();
        assert forall|i: int| n <= i < rest.len() implies white(#[trigger] rest[i]) by {
            assert(white(s[i]));
        }
        lemma_trimmed_end(rest, n);
        assert(rest.take(n) =~= s.take(n));
    }
}

/// What trimming leaves neither starts nor ends with white space, and stands in what was
/// trimmed.
pub proof fn lemma_trimmed_ends(s: Seq<char>)
    ensures
        trimmed(s).len() > 0 ==> !white(trimmed(s)[0]) && !white(trimmed(s).last()),
        holds(s, trimmed(s)),
        trimmed(s).len() <= s.len(),
{
    lemma_start_is_suffix(s);
    let a = trimmed_start(s);
    lemma_end_is_prefix(a);
    let b = trimmed_end(a);
    let i = s.len() - a.len();
    assert(s.subrange(i, i + b.len()) =~= b);
    assert(occurs_at(s, b, i));
}

proof fn lemma_start_is_suffix(s: Seq<char>)
    ensures
        trimmed_start(s).len() <= s.len(),
        trimmed_start(s) == s.skip(s.len() - trimmed_start(s).len()),
        trimmed_start(s).len() > 0 ==> !white(trimmed_start(s)[0]),
    decreases s.len(),
{
    if s.len() > 0 && white(s[0]) {
        lemma_start_is_suffix(s.drop_first());
        assert(trimmed_start(s) =~= s.skip(s.len() - trimmed_start(s).len()));
    } else {
        assert(s.skip(0) =~= s);
    }
}

proof fn lemma_end_is_prefix(s: Seq<char>)
    ensures
        trimmed_end(s).len() <= s.len(),
        trimmed_end(s) == s.take(trimmed_end(s).len() as int),
        trimmed_end(s).len() > 0 ==> !white(trimmed_end(s).last()),
    decreases s.len(),
{
    if s.len() > 0 && white(s.last()) {
        lemma_end_is_prefix(s.drop_last());
        assert(trimmed_end(s) =~= s.take(trimmed_end(s).len() as int));
    } else {
        assert(s.take(s.len() as int) =~= s);
    }
}

/// Trimming leaves something of a text in which any character is not white space.
pub proof fn lemma_trimmed_filled(s: Seq<char>, i: int)
    requires
        0 <= i < s.len(),
        !white(s[i]),
    ensures
        trimmed(s).len() > 0,
{
    lemma_start_keeps(s, i);
    let a = trimmed_start(s);
    let j = i - (s.len() - a.len());
    lemma_start_is_suffix(s);
    assert(a[j] == s[i]);
    lemma_end_keeps(a, j);
}

proof fn lemma_start_keeps(s: Seq<char>, i: int)
    requires
        0 <= i < s.len(),
        !white(s[i]),
    ensures
        trimmed_start(s).len() >= s.len() - i,
    decreases s.len(),
{
    if white(s[0]) {
        lemma_start_keeps(s.drop_first(), i - 1);
    }
}

proof fn lemma_end_keeps(s: Seq<char>, i: int)
    requires
        0 <= i < s.len(),
        !white(s[i]),
    ensures
        trimmed_end(s).len() > i,
    decreases s.len(),
{
    if white(s.last()) {
        lemma_end_keeps(s.drop_last(), i);
    }
}

/// Trimming what is trimmed changes nothing.
pub proof fn law_trim_twice(s: Seq<char>)
    ensures
        trimmed(trimmed(s)) == trimmed(s),
{
    lemma_trimmed_ends(s);
    let t = trimmed(s);
    assert(trimmed_start(t) == t);
    assert(trimmed_end(t) == t);
}

/// White space at the end of a text is lost by trimming.
pub proof fn lemma_trimmed_push(s: Seq<char>, c: char)
    requires
        white(c),
    ensures
        trimmed(s.push(c)) == trimmed(s),
    decreases s.len(),
{
    if s.len() == 0 {
        assert(s.push(c).drop_first() =~= s);
        assert(trimmed_start(s.push(c)) == trimmed_start(s));
    } else if white(s[0]) {
        assert(s.push(c).drop_first() =~= s.drop_first().push(c));
        lemma_trimmed_push(s.drop_first(), c);
    } else {
        assert(s.push(c).drop_last() =~= s);
    }
}

/// The part of `chars` from `from` to `to` without white space at its ends.
pub fn trim_range(chars: &Vec<char>, from: usize, to: usize) -> (r: String)
    requires
        from <= to <= chars@.len(),
    ensures
        r@ == trimmed(chars@.subrange(from as int, to as int)),
{
    let ghost s = chars@.subrange(from as int, to as int);
    let mut i: usize = from;
    while i < to && is_white(chars[i])
        invariant
            from <= i <= to <= chars@.len(),
            s == chars@.subrange(from as int, to as int),
            forall|j: int| 0 <= j < i - from ==> white(#[trigger] s[j]),
        decreases to - i,
    {
        i += 1;
    }
    proof {
        lemma_trimmed_start(s, i - from);
    }
    let ghost a = s.skip(i - from);
    let mut k: usize = to;
    while k > i && is_white(chars[k - 1])
        invariant
            from <= i <= k <= to <= chars@.len(),
            s == chars@.subrange(from as int, to as int),
            a == s.skip(i - from),
            forall|j: int| k - i <= j < a.len() ==> white(#[trigger] a[j]),
        decreases k,
    {
        k -= 1;
    }
    proof {
        lemma_trimmed_end(a, k - i);
        assert(a.take(k - i) =~= chars@.subrange(i as int, k as int));
    }
    string_of(chars, i, k)
}

/// `s` without the white space at its ends.
pub fn trim(s: &str) -> (r: String)
    ensures
        r@ == trimmed(s@),
{
    let chars = chars_of(s);
    assert(chars@.subrange(0, chars@.len() as int) =~= s@);
    trim_range(&chars, 0, chars.len())
}

/// `s` without the slashes at its end.
pub open spec fn unslashed(s: Seq<char>) -> Seq<char>
    decreases s.len(),
{
    if s.len() > 0 && s.last() == '/' {
        unslashed(s.drop_last())
    } else {
        s
    }
}

/// `s` without the slashes at its end.
pub fn trim_slashes(s: &str) -> (r: String)
    ensures
        r@ == unslashed(s@),
{
    let chars = chars_of(s);
    let mut k: usize = chars.len();
    assert(chars@.take(k as int) =~= s@);
    while k > 0 && chars[k - 1] == '/'
        invariant
            k <= chars@.len(),
            unslashed(chars@.take(k as int)) == unslashed(s@),
        decreases k,
    {
        assert(chars@.take(k as int).drop_last() =~= chars@.take(k - 1));
        k -= 1;
    }
    assert(chars@.subrange(0, k as int) =~= chars@.take(k as int));
    string_of(&chars, 0, k)
}

// ---- lines --------------------------------------------------------------------------------

/// The position of the first line feed, or the length where there is none.
pub open spec fn line_end(s: Seq<char>) -> int
    decreases s.len(),
{
    if s.len() == 0 || s[0] == '\n' {
        0
    } else {
        1 + line_end(s.drop_first())
    }
}

/// `s` without one carriage return at its end.
pub open spec fn without_return(s: Seq<char>) -> Seq<char> {
    if s.len() > 0 && s.last() == '\r' {
        s.drop_last()
    } else {
        s
    }
}

/// The lines of a text. A line ends with a line feed or with a carriage return and a line feed,
/// which are no part of it; the last line need not end with either.
pub open spec fn lines_of(s: Seq<char>) -> Seq<Seq<char>>
    decreases s.len(),
{
    if s.len() == 0 {
        Seq::empty()
    } else {
        let end = line_end(s);
        if 0 <= end < s.len() {
            seq![without_return(s.take(end))] + lines_of(s.skip(end + 1))
        } else {
            seq![s]
        }
    }
}

/// The strings of a list, each as its characters.
pub open spec fn views(v: Seq<String>) -> Seq<Seq<char>> {
    v.map_values(|s: String| s@)
}

proof fn lemma_line_end(s: Seq<char>, n: int)
    requires
        0 <= n <= s.len(),
        forall|i: int| 0 <= i < n ==> #[trigger] s[i] != '\n',
        n == s.len() || s[n] == '\n',
    ensures
        line_end(s) == n,
    decreases n,
{
    if n > 0 {
        assert(s[0] != '\n');
        let rest = s.drop_first();
        assert forall|i: int| 0 <= i < n - 1 implies #[trigger] rest[i] != '\n' by {
            assert(s[i + 1] != '\n');
        }
        lemma_line_end(rest, n - 1);
    }
}

/// A line of a text stands in the text.
pub proof fn lemma_line_stands(s: Seq<char>, i: int) -> (p: int)
    requires
        0 <= i < lines_of(s).len(),
    ensures
        occurs_at(s, lines_of(s)[i], p),
    decreases s.len(),
{
    let end = line_end(s);
    if 0 <= end < s.len() {
        if i == 0 {
            let line = without_return(s.take(end));
            assert(s.subrange(0, line.len() as int) =~= line);
            0
        } else {
            let rest = s.skip(end + 1);
            let q = lemma_line_stands(rest, i - 1);
            let line = lines_of(rest)[i - 1];
            assert(lines_of(s)[i] == line);
            assert(s.subrange(end + 1 + q, end + 1 + q + line.len()) =~= rest.subrange(
                q,
                q + line.len(),
            ));
            end + 1 + q
        }
    } else {
        assert(s.subrange(0, s.len() as int) =~= s);
        0
    }
}

/// Adding a string to a list adds its characters to the list's.
pub proof fn lemma_views_push(v: Seq<String>, s: String)
    ensures
        views(v.push(s)) == views(v).push(s@),
{
    assert(views(v.push(s)) =~= views(v).push(s@));
}

/// The lines of a text.
pub fn lines(s: &str) -> (r: Vec<String>)
    ensures
        views(r@) == lines_of(s@),
{
    let chars = chars_of(s);
    let mut r: Vec<String> = Vec::new();
    let mut at: usize = 0;
    assert(chars@.skip(0) =~= s@);
    assert(views(r@) + lines_of(s@) =~= lines_of(s@));
    while at < chars.len()
        invariant
            at <= chars@.len(),
            views(r@) + lines_of(chars@.skip(at as int)) == lines_of(s@),
        decreases chars@.len() - at,
    {
        let ghost rest = chars@.skip(at as int);
        let ghost before = r@;
        let mut end: usize = at;
        while end < chars.len() && chars[end] != '\n'
            invariant
                at <= end <= chars@.len(),
                rest == chars@.skip(at as int),
                forall|i: int| 0 <= i < end - at ==> #[trigger] rest[i] != '\n',
            decreases chars@.len() - end,
        {
            end += 1;
        }
        proof {
            lemma_line_end(rest, end - at);
        }
        if end < chars.len() {
            let stop = if end > at && chars[end - 1] == '\r' {
                end - 1
            } else {
                end
            };
            let line = string_of(&chars, at, stop);
            proof {
                let cut = rest.take(end - at);
                assert(line@ =~= without_return(cut));
                assert(rest.skip(end - at + 1) =~= chars@.skip(end + 1));
                lemma_views_push(before, line);
                assert(views(before).push(line@) + lines_of(chars@.skip(end + 1)) =~= views(before)
                    + (seq![line@] + lines_of(chars@.skip(end + 1))));
            }
            r.push(line);
            at = end + 1;
        } else {
            let line = string_of(&chars, at, end);
            proof {
                assert(line@ =~= rest);
                lemma_views_push(before, line);
                assert(chars@.skip(end as int) =~= Seq::<char>::empty());
                assert(views(before).push(line@) + Seq::<Seq<char>>::empty() =~= views(before)
                    + seq![rest]);
            }
            r.push(line);
            at = end;
        }
    }
    assert(chars@.skip(at as int) =~= Seq::<char>::empty());
    assert(views(r@) + Seq::<Seq<char>>::empty() =~= views(r@));
    r
}

/// The parts one behind the other, with `sep` between them.
pub open spec fn joined(parts: Seq<Seq<char>>, sep: Seq<char>) -> Seq<char>
    decreases parts.len(),
{
    if parts.len() == 0 {
        Seq::empty()
    } else if parts.len() == 1 {
        parts.last()
    } else {
        joined(parts.drop_last(), sep) + (sep + parts.last())
    }
}

/// The strings one behind the other, with `sep` between them.
pub fn join(parts: &Vec<String>, sep: &str) -> (r: String)
    ensures
        r@ == joined(views(parts@), sep@),
{
    let mut r = String::new();
    let mut i: usize = 0;
    assert(views(parts@).take(0) =~= Seq::<Seq<char>>::empty());
    while i < parts.len()
        invariant
            i <= parts@.len(),
            r@ == joined(views(parts@).take(i as int), sep@),
        decreases parts@.len() - i,
    {
        proof {
            let next = views(parts@).take(i + 1);
            assert(next.drop_last() =~= views(parts@).take(i as int));
            assert(next.last() == parts@[i as int]@);
        }
        let ghost start = r@;
        if i > 0 {
            r.append(sep);
        }
        r.append(parts[i].as_str());
        proof {
            if i > 0 {
                assert(r@ =~= start + (sep@ + parts@[i as int]@));
            } else {
                assert(r@ =~= parts@[i as int]@);
            }
        }
        i += 1;
    }
    assert(views(parts@).take(i as int) =~= views(parts@));
    r
}

/// `s` with `with` in place of each line feed.
pub open spec fn refed(s: Seq<char>, with: Seq<char>) -> Seq<char>
    decreases s.len(),
{
    if s.len() == 0 {
        Seq::empty()
    } else if s.last() == '\n' {
        refed(s.drop_last(), with) + with
    } else {
        refed(s.drop_last(), with).push(s.last())
    }
}

/// `s` with `with` in place of each line feed.
pub fn replace_line_feeds(s: &str, with: &str) -> (r: String)
    ensures
        r@ == refed(s@, with@),
{
    let chars = chars_of(s);
    let mut r = String::new();
    let mut i: usize = 0;
    while i < chars.len()
        invariant
            i <= chars@.len(),
            r@ == refed(chars@.take(i as int), with@),
        decreases chars@.len() - i,
    {
        assert(chars@.take(i + 1).drop_last() =~= chars@.take(i as int));
        if chars[i] == '\n' {
            r.append(with);
        } else {
            r.push(chars[i]);
        }
        i += 1;
    }
    assert(chars@.take(i as int) =~= s@);
    r
}

// ---- cutting to a length ------------------------------------------------------------------

/// The last `n` characters of `s`, or all of it where it is shorter.
pub open spec fn last_chars(s: Seq<char>, n: int) -> Seq<char> {
    if s.len() <= n {
        s
    } else {
        s.skip(s.len() - n)
    }
}

/// The first `n` characters of `s`, or all of it where it is shorter.
pub open spec fn first_chars(s: Seq<char>, n: int) -> Seq<char> {
    if s.len() <= n {
        s
    } else {
        s.take(n)
    }
}

/// What a text that was cut off ends with.
pub const CUT_MARK: &'static str = "\n…(truncated)";

/// `s` where it has at most `n` characters, else its first `n` characters and [`CUT_MARK`].
pub open spec fn truncated(s: Seq<char>, n: int) -> Seq<char> {
    if s.len() > n {
        s.take(n) + CUT_MARK@
    } else {
        s
    }
}

/// The last `n` characters of `s`, or all of it where it is shorter.
pub fn tail(s: &str, n: usize) -> (r: String)
    ensures
        r@ == last_chars(s@, n as int),
{
    let chars = chars_of(s);
    let from = if chars.len() <= n {
        0
    } else {
        chars.len() - n
    };
    assert(chars@.subrange(from as int, chars@.len() as int) =~= last_chars(s@, n as int));
    string_of(&chars, from, chars.len())
}

/// The first `n` characters of `s`, or all of it where it is shorter.
pub fn head(s: &str, n: usize) -> (r: String)
    ensures
        r@ == first_chars(s@, n as int),
{
    let chars = chars_of(s);
    let to = if chars.len() <= n {
        chars.len()
    } else {
        n
    };
    assert(chars@.subrange(0, to as int) =~= first_chars(s@, n as int));
    string_of(&chars, 0, to)
}

/// `s` where it has at most `n` characters, else its first `n` characters and [`CUT_MARK`].
pub fn trunc(s: &str, n: usize) -> (r: String)
    ensures
        r@ == truncated(s@, n as int),
{
    let chars = chars_of(s);
    if chars.len() > n {
        let mut r = string_of(&chars, 0, n);
        r.append(CUT_MARK);
        assert(s@.subrange(0, n as int) =~= s@.take(n as int));
        r
    } else {
        s.to_owned()
    }
}

// ---- numbers ------------------------------------------------------------------------------

/// The digit of a number below sixteen.
pub open spec fn digit(d: int) -> char {
    "0123456789abcdef"@[d]
}

/// A number in decimal.
pub open spec fn decimal(n: nat) -> Seq<char>
    decreases n,
{
    if n < 10 {
        seq![digit(n as int)]
    } else {
        decimal(n / 10).push(digit((n % 10) as int))
    }
}

/// An integer in decimal, with a minus sign before a negative one.
pub open spec fn signed_decimal(n: int) -> Seq<char> {
    if n < 0 {
        "-"@ + decimal((-n) as nat)
    } else {
        decimal(n as nat)
    }
}

/// The last `width` digits of a number in base sixteen.
pub open spec fn hex(n: nat, width: nat) -> Seq<char>
    decreases width,
{
    if width == 0 {
        Seq::empty()
    } else {
        hex(n / 16, (width - 1) as nat).push(digit((n % 16) as int))
    }
}

/// The digit of a number below sixteen.
fn digit_char(d: usize) -> (r: char)
    requires
        d < 16,
    ensures
        r == digit(d as int),
{
    proof {
        reveal_strlit("0123456789abcdef");
    }
    "0123456789abcdef".get_char(d)
}

/// A number in decimal.
pub fn write_decimal(n: u128) -> (r: String)
    ensures
        r@ == decimal(n as nat),
    decreases n,
{
    if n < 10 {
        let mut r = String::new();
        r.push(digit_char(n as usize));
        assert(r@ =~= seq![digit(n as int)]);
        r
    } else {
        let mut r = write_decimal(n / 10);
        r.push(digit_char((n % 10) as usize));
        r
    }
}

/// An integer in decimal, with a minus sign before a negative one.
pub fn write_signed(n: i32) -> (r: String)
    ensures
        r@ == signed_decimal(n as int),
{
    if n < 0 {
        let size: i64 = -(n as i64);
        let mut r = "-".to_owned();
        r.append(write_decimal(size as u128).as_str());
        r
    } else {
        write_decimal(n as u128)
    }
}

/// The last `width` digits of a number in base sixteen.
pub fn write_hex(n: u64, width: usize) -> (r: String)
    ensures
        r@ == hex(n as nat, width as nat),
    decreases width,
{
    if width == 0 {
        String::new()
    } else {
        let mut r = write_hex(n / 16, width - 1);
        r.push(digit_char((n % 16) as usize));
        r
    }
}

// ---- laws ---------------------------------------------------------------------------------

/// Trimming takes off just the white space at the ends: whatever white space stands around a text
/// that neither starts nor ends with any, the text is what is left.
pub proof fn law_trim_takes_white_space_off(before: Seq<char>, s: Seq<char>, behind: Seq<char>)
    requires
        forall|i: int| 0 <= i < before.len() ==> white(#[trigger] before[i]),
        forall|i: int| 0 <= i < behind.len() ==> white(#[trigger] behind[i]),
        s.len() > 0 ==> !white(s[0]) && !white(s.last()),
    ensures
        trimmed(before + s + behind) == s,
{
    let all = before + s + behind;
    let n = before.len() as int;
    if s.len() == 0 {
        assert forall|i: int| 0 <= i < all.len() implies white(#[trigger] all[i]) by {
            if i >= n {
                assert(all[i] == behind[i - n]);
            }
        }
        lemma_trimmed_start(all, all.len() as int);
        assert(trimmed_start(all) =~= Seq::<char>::empty());
        assert(trimmed(all) =~= s);
    } else {
        assert(all[n] == s[0]);
        lemma_trimmed_start(all, n);
        let rest = all.skip(n);
        let m = s.len() as int;
        assert(rest[m - 1] == s.last());
        assert forall|i: int| m <= i < rest.len() implies white(#[trigger] rest[i]) by {
            assert(rest[i] == behind[i - m]);
        }
        lemma_trimmed_end(rest, m);
        assert(rest.take(m) =~= s);
    }
}

/// Slashes at the end are taken off, however many there are, and no others.
pub proof fn law_slashes_are_taken_off(s: Seq<char>, slashes: Seq<char>)
    requires
        forall|i: int| 0 <= i < slashes.len() ==> #[trigger] slashes[i] == '/',
        s.len() > 0 ==> s.last() != '/',
    ensures
        unslashed(s + slashes) == s,
    decreases slashes.len(),
{
    if slashes.len() == 0 {
        assert(s + slashes =~= s);
    } else {
        assert(slashes[slashes.len() - 1] == '/');
        let rest = slashes.drop_last();
        assert((s + slashes).drop_last() =~= s + rest);
        assert forall|i: int| 0 <= i < rest.len() implies #[trigger] rest[i] == '/' by {
            assert(slashes[i] == '/');
        }
        law_slashes_are_taken_off(s, rest);
    }
}

/// A text begins with the line before its first line feed, without the one carriage return that
/// may stand there, and goes on with the lines behind it.
pub proof fn law_line_feed_ends_a_line(line: Seq<char>, rest: Seq<char>)
    requires
        forall|i: int| 0 <= i < line.len() ==> #[trigger] line[i] != '\n',
    ensures
        line.len() == 0 || line.last() != '\r' ==> lines_of(line + seq!['\n'] + rest) == seq![line]
            + lines_of(rest),
        line.len() > 0 && line.last() == '\r' ==> lines_of(line + seq!['\n'] + rest) == seq![
            line.drop_last(),
        ] + lines_of(rest),
{
    let s = line + seq!['\n'] + rest;
    let n = line.len() as int;
    assert forall|i: int| 0 <= i < n implies #[trigger] s[i] != '\n' by {
        assert(s[i] == line[i]);
    }
    assert(s[n] == '\n');
    lemma_line_end(s, n);
    assert(s.take(n) =~= line);
    assert(s.skip(n + 1) =~= rest);
}

/// A text without a line feed is one line as it stands, and an empty text has none.
pub proof fn law_last_line_need_not_end(line: Seq<char>)
    requires
        forall|i: int| 0 <= i < line.len() ==> #[trigger] line[i] != '\n',
    ensures
        lines_of(line) == if line.len() == 0 {
            Seq::<Seq<char>>::empty()
        } else {
            seq![line]
        },
{
    lemma_line_end(line, line.len() as int);
}

/// Two lists that are joined one behind the other are joined with one separator between them.
pub proof fn law_joined_parts(a: Seq<Seq<char>>, b: Seq<Seq<char>>, sep: Seq<char>)
    ensures
        a.len() > 0 && b.len() > 0 ==> joined(a + b, sep) == joined(a, sep) + sep + joined(b, sep),
        a.len() == 0 ==> joined(a, sep) == Seq::<char>::empty(),
        a.len() == 1 ==> joined(a, sep) == a[0],
    decreases b.len(),
{
    if a.len() > 0 && b.len() > 0 {
        assert((a + b).drop_last() =~= a + b.drop_last());
        if b.len() == 1 {
            assert(a + b.drop_last() =~= a);
            assert(joined(a + b, sep) =~= joined(a, sep) + sep + joined(b, sep));
        } else {
            law_joined_parts(a, b.drop_last(), sep);
            assert(joined(a + b, sep) =~= joined(a, sep) + sep + joined(b, sep));
        }
    }
}

/// Line feeds are replaced wherever they stand, and nothing else is.
pub proof fn law_line_feeds_are_replaced(a: Seq<char>, b: Seq<char>, with: Seq<char>)
    ensures
        refed(a + seq!['\n'] + b, with) == refed(a, with) + with + refed(b, with),
        !a.contains('\n') ==> refed(a, with) == a,
    decreases a.len() + b.len(),
{
    let s = a + seq!['\n'] + b;
    if b.len() == 0 {
        assert(s.drop_last() =~= a);
        assert(refed(s, with) =~= refed(a, with) + with + refed(b, with));
    } else {
        law_line_feeds_are_replaced(a, b.drop_last(), with);
        assert(s.drop_last() =~= a + seq!['\n'] + b.drop_last());
        assert(refed(s, with) =~= refed(a, with) + with + refed(b, with));
    }
    if !a.contains('\n') {
        lemma_nothing_replaced(a, with);
    }
}

proof fn lemma_nothing_replaced(a: Seq<char>, with: Seq<char>)
    requires
        !a.contains('\n'),
    ensures
        refed(a, with) == a,
    decreases a.len(),
{
    if a.len() > 0 {
        assert(a.contains(a[a.len() - 1]));
        let front = a.drop_last();
        assert forall|i: int| 0 <= i < front.len() implies front[i] != '\n' by {
            assert(a.contains(a[i]));
        }
        lemma_nothing_replaced(front, with);
        assert(front.push(a.last()) =~= a);
    }
}

/// The last characters are those behind all others, however many those are.
pub proof fn law_last_characters(others: Seq<char>, last: Seq<char>, n: nat)
    ensures
        last_chars(others + last, last.len() as int) == last,
        last.len() <= n ==> last_chars(last, n as int) == last,
{
    let s = others + last;
    if s.len() <= last.len() {
        assert(s =~= last);
    } else {
        assert(s.skip(s.len() - last.len()) =~= last);
    }
}

/// The first characters are those before all others, however many those are.
pub proof fn law_first_characters(first: Seq<char>, others: Seq<char>, n: nat)
    ensures
        first_chars(first + others, first.len() as int) == first,
        first.len() <= n ==> first_chars(first, n as int) == first,
{
    let s = first + others;
    if s.len() <= first.len() {
        assert(s =~= first);
    } else {
        assert(s.take(first.len() as int) =~= first);
    }
}

/// What is too long is cut, and the cut is marked; what is not is left alone.
pub proof fn law_cuts_are_marked(kept: Seq<char>, lost: Seq<char>, n: nat)
    ensures
        lost.len() > 0 ==> truncated(kept + lost, kept.len() as int) == kept
            + "\n…(truncated)"@,
        kept.len() <= n ==> truncated(kept, n as int) == kept,
{
    assert((kept + lost).take(kept.len() as int) =~= kept);
}

/// The number that decimal digits denote.
pub open spec fn denoted(digits: Seq<char>) -> int
    decreases digits.len(),
{
    if digits.len() == 0 {
        0
    } else {
        10 * denoted(digits.drop_last()) + (digits.last() as int - '0' as int)
    }
}

/// A number is written in decimal digits that denote it, without a zero before them.
pub proof fn law_decimal_denotes_the_number(n: nat)
    ensures
        denoted(decimal(n)) == n,
        decimal(n).len() > 0,
        decimal(n).len() > 1 ==> decimal(n)[0] != '0',
        forall|i: int| 0 <= i < decimal(n).len() ==> '0' <= #[trigger] decimal(n)[i] <= '9',
    decreases n,
{
    reveal_strlit("0123456789abcdef");
    if n < 10 {
        let s = decimal(n);
        assert(s.drop_last() =~= Seq::<char>::empty());
        assert(denoted(s.drop_last()) == 0);
    } else {
        law_decimal_denotes_the_number(n / 10);
        let front = decimal(n / 10);
        let s = decimal(n);
        assert(s.drop_last() =~= front);
        assert(s[0] == front[0]);
        if front.len() == 1 {
            assert(front.drop_last() =~= Seq::<char>::empty());
            assert(denoted(front.drop_last()) == 0);
            if front[0] == '0' {
                assert(denoted(front) == 0);
            }
        }
        assert forall|i: int| 0 <= i < s.len() implies '0' <= #[trigger] s[i] <= '9' by {
            if i < front.len() {
                assert(s[i] == front[i]);
            }
        }
    }
}

/// A negative number is written as its opposite behind a minus sign.
pub proof fn law_sign_is_written(n: nat)
    ensures
        signed_decimal(n as int) == decimal(n),
        n > 0 ==> signed_decimal(-n) == seq!['-'] + decimal(n),
{
    reveal_strlit("-");
    assert("-"@ =~= seq!['-']);
}

/// The number that digits in base sixteen denote.
pub open spec fn denoted_hex(digits: Seq<char>) -> int
    decreases digits.len(),
{
    if digits.len() == 0 {
        0
    } else {
        16 * denoted_hex(digits.drop_last()) + if digits.last() <= '9' {
            digits.last() as int - '0' as int
        } else {
            digits.last() as int - 'a' as int + 10
        }
    }
}

/// A number that fits is written in as many digits as were asked for, and they denote it.
pub proof fn law_hex_denotes_the_number(n: nat, width: nat)
    requires
        n < vstd::arithmetic::power::pow(16, width),
    ensures
        hex(n, width).len() == width,
        denoted_hex(hex(n, width)) == n,
        forall|i: int|
            0 <= i < width ==> '0' <= #[trigger] hex(n, width)[i] <= '9' || 'a' <= hex(
                n,
                width,
            )[i] <= 'f',
    decreases width,
{
    reveal(vstd::arithmetic::power::pow);
    reveal_strlit("0123456789abcdef");
    if width > 0 {
        let w = (width - 1) as nat;
        law_hex_denotes_the_number(n / 16, w);
        let s = hex(n, width);
        assert(s.drop_last() =~= hex(n / 16, w));
        assert forall|i: int| 0 <= i < width implies '0' <= #[trigger] s[i] <= '9' || 'a' <= s[i]
            <= 'f' by {
            if i < w {
                assert(s[i] == hex(n / 16, w)[i]);
            }
        }
    }
}

/// The place that is found is the leftmost: the text stands there, and nowhere before. Nothing is
/// found just where the text stands nowhere.
pub proof fn law_leftmost_is_found(s: Seq<char>, pat: Seq<char>)
    ensures
        found(s, pat) matches Some(i) ==> 0 <= i && i + pat.len() <= s.len() && s.subrange(
            i,
            i + pat.len(),
        ) == pat && forall|j: int|
            0 <= j < i ==> #[trigger] s.subrange(j, j + pat.len()) != pat,
        found(s, pat) is None ==> forall|j: int|
            0 <= j && j + pat.len() <= s.len() ==> #[trigger] s.subrange(j, j + pat.len()) != pat,
        holds(s, pat) <==> found(s, pat) is Some,
{
    if holds(s, pat) {
        let i = choose|i: int| occurs_at(s, pat, i);
        let first = lemma_has_first(s, pat, i);
        lemma_found(s, pat, first);
        assert forall|j: int| 0 <= j < first implies #[trigger] s.subrange(j, j + pat.len()) != pat by {
            assert(!occurs_at(s, pat, j));
        }
    } else {
        assert forall|j: int| 0 <= j && j + pat.len() <= s.len() implies #[trigger] s.subrange(
            j,
            j + pat.len(),
        ) != pat by {
            assert(!occurs_at(s, pat, j));
        }
    }
}

/// A list of strings holds the characters of each, in order.
pub proof fn law_views_are_the_characters(v: Seq<String>)
    ensures
        views(v).len() == v.len(),
        forall|i: int| 0 <= i < v.len() ==> #[trigger] views(v)[i] == v[i]@,
{
}

} // verus!

//! Putting a streamed answer together: the text that the model types and the tool calls that
//! come in pieces.

use crate::json::{
    as_items, as_text, as_unsigned, item, member, parsed, read, tree, trees, Json,
};
use crate::message::{
    call_views, AssistantMessage, AssistantModel, ToolCall, ToolCallModel,
};
use crate::reply::{is_looping, looping};
use crate::text::{same, strip_prefix, trim, trimmed};
use vstd::prelude::*;
use vstd::string::*;
use vstd::utf8::encode_utf8;

verus! {

/// An answer as far as it has come.
pub struct Stream {
    pub content: String,
    pub calls: Vec<ToolCall>,
}

/// What a [`Stream`] holds.
pub struct StreamModel {
    pub content: Seq<char>,
    pub calls: Seq<ToolCallModel>,
}

impl View for Stream {
    type V = StreamModel;

    open spec fn view(&self) -> StreamModel {
        StreamModel { content: self.content@, calls: call_views(self.calls@) }
    }
}

/// What a line of the stream brought: text to show, and whether reading is to end.
pub struct Fed {
    pub shown: Option<String>,
    pub stop: bool,
}

/// A call of which nothing has come yet.
pub open spec fn blank_call() -> ToolCallModel {
    ToolCallModel { id: Seq::empty(), name: Seq::empty(), arguments: Seq::empty() }
}

/// The calls with blank ones behind them, up to `n` calls.
pub open spec fn padded(calls: Seq<ToolCallModel>, n: int) -> Seq<ToolCallModel> {
    if calls.len() >= n {
        calls
    } else {
        calls + Seq::new((n - calls.len()) as nat, |i: int| blank_call())
    }
}

/// The number of the call that a piece belongs to.
pub open spec fn piece_index(piece: Json) -> usize {
    match piece.member("index"@).unsigned() {
        Some(n) => n as usize,
        None => 0,
    }
}

/// What a piece says a field to be, where it says anything; else what the field was.
pub open spec fn renewed(was: Seq<char>, said: Option<Seq<char>>) -> Seq<char> {
    match said {
        Some(s) => if s.len() == 0 {
            was
        } else {
            s
        },
        None => was,
    }
}

/// A call with a piece of it added: its id and name as the piece has them, its arguments grown.
pub open spec fn pieced(call: ToolCallModel, piece: Json) -> ToolCallModel {
    ToolCallModel {
        id: renewed(call.id, piece.member("id"@).text()),
        name: renewed(call.name, piece.member("function"@).member("name"@).text()),
        arguments: call.arguments + piece.member("function"@).member("arguments"@).text_or(
            Seq::empty(),
        ),
    }
}

/// The calls with one piece added to the call it belongs to.
pub open spec fn with_piece(calls: Seq<ToolCallModel>, piece: Json) -> Seq<ToolCallModel> {
    let i = piece_index(piece) as int;
    let all = padded(calls, i + 1);
    all.update(i, pieced(all[i], piece))
}

/// The calls with pieces added one after the other.
pub open spec fn with_pieces(calls: Seq<ToolCallModel>, pieces: Seq<Json>) -> Seq<ToolCallModel>
    decreases pieces.len(),
{
    if pieces.len() == 0 {
        calls
    } else {
        with_piece(with_pieces(calls, pieces.drop_last()), pieces.last())
    }
}

/// The part of a chunk that adds to the answer.
pub open spec fn delta(chunk: Json) -> Json {
    chunk.member("choices"@).item(0).member("delta"@)
}

/// The text that a chunk brings, where it brings any.
pub open spec fn said(chunk: Json) -> Option<Seq<char>> {
    match delta(chunk).member("content"@).text() {
        Some(c) => if c.len() == 0 {
            None
        } else {
            Some(c)
        },
        None => None,
    }
}

/// What a line brings: the answer behind it, the text to show, whether reading ends.
pub struct Feeding {
    pub stream: StreamModel,
    pub shown: Option<Seq<char>>,
    pub stop: bool,
}

/// What a chunk brings. Where its text shows that the model repeats itself, reading ends there
/// and the calls in the chunk are not looked at.
pub open spec fn chunk_fed(s: StreamModel, chunk: Json) -> Feeding {
    let content = match said(chunk) {
        Some(c) => s.content + c,
        None => s.content,
    };
    if said(chunk) is Some && looping(encode_utf8(content)) {
        Feeding {
            stream: StreamModel { content, calls: s.calls },
            shown: said(chunk),
            stop: true,
        }
    } else {
        Feeding {
            stream: StreamModel {
                content,
                calls: match delta(chunk).member("tool_calls"@).items() {
                    Some(pieces) => with_pieces(s.calls, pieces),
                    None => s.calls,
                },
            },
            shown: said(chunk),
            stop: false,
        }
    }
}

/// The data on a line of the stream, if it is a line of data.
pub open spec fn line_data(line: Seq<char>) -> Option<Seq<char>> {
    if "data: "@.is_prefix_of(line) {
        Some(trimmed(line.skip("data: "@.len() as int)))
    } else {
        None
    }
}

/// What a line brings: nothing where it is no data or no JSON; the end where it says so.
pub open spec fn line_fed(s: StreamModel, line: Seq<char>) -> Feeding {
    match line_data(line) {
        None => Feeding { stream: s, shown: None, stop: false },
        Some(data) => if data == "[DONE]"@ {
            Feeding { stream: s, shown: None, stop: true }
        } else {
            match parsed(data) {
                None => Feeding { stream: s, shown: None, stop: false },
                Some(chunk) => chunk_fed(s, chunk),
            }
        },
    }
}

/// The message that an answer makes. It bears its text unless it has calls and no text.
pub open spec fn assembled(s: StreamModel) -> AssistantModel {
    AssistantModel {
        content: if s.calls.len() > 0 && s.content.len() == 0 {
            None
        } else {
            Some(s.content)
        },
        tool_calls: s.calls,
    }
}

impl Fed {
    /// Whether this is what the line was found to bring.
    pub open spec fn tells(self, f: Feeding) -> bool {
        &&& self.stop == f.stop
        &&& self.shown is Some <==> f.shown is Some
        &&& self.shown matches Some(s) ==> f.shown == Some(s@)
    }
}

/// What a field becomes by what a piece says of it.
fn renew(was: &str, said: Option<&str>) -> (r: String)
    ensures
        r@ == renewed(
            was@,
            match said {
                Some(s) => Some(s@),
                None => None,
            },
        ),
{
    match said {
        Some(s) => if s.is_empty() {
            was.to_owned()
        } else {
            s.to_owned()
        },
        None => was.to_owned(),
    }
}

/// Adds a piece to the call it belongs to.
fn add_piece(calls: &mut Vec<ToolCall>, piece: &serde_json::Value)
    ensures
        call_views(final(calls)@) == with_piece(call_views(old(calls)@), tree(*piece)),
{
    let i: usize = match as_unsigned(member(piece, "index")) {
        Some(n) => n as usize,
        None => 0,
    };
    let ghost start = call_views(calls@);
    proof {
        assert(start =~= padded(start, start.len() as int));
    }
    while calls.len() <= i
        invariant
            start == call_views(old(calls)@),
            start.len() <= calls@.len(),
            calls@.len() > start.len() ==> calls@.len() <= i + 1,
            call_views(calls@) == padded(start, calls@.len() as int),
        decreases i + 1 - calls@.len(),
    {
        let ghost before = calls@;
        calls.push(
            ToolCall { id: String::new(), name: String::new(), arguments: String::new() },
        );
        assert(call_views(calls@) =~= call_views(before).push(blank_call()));
        assert(call_views(calls@) =~= padded(start, calls@.len() as int));
    }
    proof {
        if start.len() >= i + 1 {
            assert(padded(start, calls@.len() as int) == start);
        }
        assert(call_views(calls@) == padded(start, i + 1));
    }
    let ghost before = calls@;
    let function = member(piece, "function");
    let id = renew(calls[i].id.as_str(), as_text(member(piece, "id")));
    let name = renew(calls[i].name.as_str(), as_text(member(function, "name")));
    let mut arguments = calls[i].arguments.clone();
    if let Some(more) = as_text(member(function, "arguments")) {
        arguments.append(more);
    } else {
        assert(arguments@ + Seq::<char>::empty() =~= arguments@);
    }
    let call = ToolCall { id, name, arguments };
    proof {
        assert(call@ == pieced(call_views(before)[i as int], tree(*piece)));
    }
    calls[i] = call;
    assert(call_views(calls@) =~= call_views(before).update(i as int, call@));
}

impl Stream {
    /// An answer of which nothing has come yet.
    pub fn new() -> (r: Stream)
        ensures
            r@ == (StreamModel { content: Seq::empty(), calls: Seq::empty() }),
    {
        let r = Stream { content: String::new(), calls: Vec::new() };
        assert(call_views(r.calls@) =~= Seq::empty());
        r
    }

    /// Takes in one chunk of the stream.
    pub fn feed_chunk(&mut self, chunk: &serde_json::Value) -> (r: Fed)
        ensures
            final(self)@ == chunk_fed(old(self)@, tree(*chunk)).stream,
            r.tells(chunk_fed(old(self)@, tree(*chunk))),
    {
        let delta = member(item(member(chunk, "choices"), 0), "delta");
        let mut shown: Option<String> = None;
        if let Some(c) = as_text(member(delta, "content")) {
            if !c.is_empty() {
                self.content.append(c);
                shown = Some(c.to_owned());
                if is_looping(self.content.as_str()) {
                    return Fed { shown, stop: true };
                }
            }
        }
        if let Some(pieces) = as_items(member(delta, "tool_calls")) {
            let ghost start = call_views(self.calls@);
            let ghost all = trees(pieces@);
            let mut k: usize = 0;
            while k < pieces.len()
                invariant
                    k <= pieces@.len(),
                    all == trees(pieces@),
                    call_views(self.calls@) == with_pieces(start, all.take(k as int)),
                    self.content@ == chunk_fed(old(self)@, tree(*chunk)).stream.content,
                decreases pieces@.len() - k,
            {
                proof {
                    assert(all.take(k + 1).drop_last() =~= all.take(k as int));
                }
                add_piece(&mut self.calls, &pieces[k]);
                k += 1;
            }
            assert(all.take(k as int) =~= all);
        }
        Fed { shown, stop: false }
    }

    /// Takes in one line of the stream.
    pub fn feed_line(&mut self, line: &str) -> (r: Fed)
        ensures
            final(self)@ == line_fed(old(self)@, line@).stream,
            r.tells(line_fed(old(self)@, line@)),
    {
        let data = match strip_prefix(line, "data: ") {
            Some(d) => trim(d.as_str()),
            None => return Fed { shown: None, stop: false },
        };
        if same(data.as_str(), "[DONE]") {
            return Fed { shown: None, stop: true };
        }
        match read(data.as_str()) {
            Some(chunk) => self.feed_chunk(&chunk),
            None => Fed { shown: None, stop: false },
        }
    }

    /// Whether any text has come, so that the line it was shown on is to be ended.
    pub fn has_spoken(&self) -> (r: bool)
        ensures
            r == (self@.content.len() > 0),
    {
        !self.content.as_str().is_empty()
    }

    /// The message that the answer makes.
    pub fn finish(self) -> (r: AssistantMessage)
        ensures
            r@ == assembled(self@),
    {
        let content = if self.calls.len() > 0 && self.content.as_str().is_empty() {
            None
        } else {
            Some(self.content)
        };
        AssistantMessage { content, tool_calls: self.calls }
    }
}

/// The answer behind a list of lines, read until one of them ends the reading.
pub open spec fn lines_fed(s: StreamModel, lines: Seq<Seq<char>>) -> StreamModel
    decreases lines.len(),
{
    if lines.len() == 0 {
        s
    } else {
        let first = line_fed(s, lines[0]);
        if first.stop {
            first.stream
        } else {
            lines_fed(first.stream, lines.drop_first())
        }
    }
}

/// All that was shown while a list of lines was read.
pub open spec fn lines_shown(s: StreamModel, lines: Seq<Seq<char>>) -> Seq<char>
    decreases lines.len(),
{
    if lines.len() == 0 {
        Seq::empty()
    } else {
        let first = line_fed(s, lines[0]);
        let shown = match first.shown {
            Some(t) => t,
            None => Seq::empty(),
        };
        if first.stop {
            shown
        } else {
            shown + lines_shown(first.stream, lines.drop_first())
        }
    }
}

/// What was shown is what the answer holds: the text of the message is, to the letter, what was
/// printed while it streamed in.
pub proof fn law_shown_is_kept(s: StreamModel, lines: Seq<Seq<char>>)
    ensures
        lines_fed(s, lines).content == s.content + lines_shown(s, lines),
    decreases lines.len(),
{
    if lines.len() > 0 {
        let first = line_fed(s, lines[0]);
        let shown = match first.shown {
            Some(t) => t,
            None => Seq::empty(),
        };
        assert(first.stream.content =~= s.content + shown);
        if !first.stop {
            law_shown_is_kept(first.stream, lines.drop_first());
            assert(lines_fed(s, lines).content =~= s.content + lines_shown(s, lines));
        }
    } else {
        assert(s.content + Seq::<char>::empty() =~= s.content);
    }
}

/// A line never takes a call away that has come: the calls only grow in number.
pub proof fn law_calls_grow(s: StreamModel, line: Seq<char>)
    ensures
        line_fed(s, line).stream.calls.len() >= s.calls.len(),
{
    if let Some(data) = line_data(line) {
        if let Some(chunk) = parsed(data) {
            if let Some(pieces) = delta(chunk).member("tool_calls"@).items() {
                lemma_pieces_grow(s.calls, pieces);
            }
        }
    }
}

proof fn lemma_pieces_grow(calls: Seq<ToolCallModel>, pieces: Seq<Json>)
    ensures
        with_pieces(calls, pieces).len() >= calls.len(),
    decreases pieces.len(),
{
    if pieces.len() > 0 {
        lemma_pieces_grow(calls, pieces.drop_last());
    }
}

/// The arguments of a call are the pieces of it, one behind the other.
pub proof fn law_arguments_are_joined(calls: Seq<ToolCallModel>, pieces: Seq<Json>, i: int)
    requires
        0 <= i < calls.len(),
        forall|k: int| 0 <= k < pieces.len() ==> piece_index(#[trigger] pieces[k]) == i,
    ensures
        with_pieces(calls, pieces).len() == calls.len(),
        with_pieces(calls, pieces)[i].arguments == calls[i].arguments + argument_text(pieces),
    decreases pieces.len(),
{
    if pieces.len() > 0 {
        let front = pieces.drop_last();
        assert forall|k: int| 0 <= k < front.len() implies piece_index(#[trigger] front[k]) == i by {
            assert(front[k] == pieces[k]);
        }
        law_arguments_are_joined(calls, front, i);
        assert(piece_index(pieces[pieces.len() - 1]) == i);
        assert(with_pieces(calls, pieces)[i].arguments =~= calls[i].arguments + argument_text(
            pieces,
        ));
    } else {
        assert(calls[i].arguments + Seq::<char>::empty() =~= calls[i].arguments);
    }
}

/// The argument text that pieces bring, one behind the other.
pub open spec fn argument_text(pieces: Seq<Json>) -> Seq<char>
    decreases pieces.len(),
{
    if pieces.len() == 0 {
        Seq::empty()
    } else {
        argument_text(pieces.drop_last()) + pieces.last().member("function"@).member(
            "arguments"@,
        ).text_or(Seq::empty())
    }
}

// ---- what a line brings -------------------------------------------------------------------

/// A line that does not begin with the mark of data brings nothing.
pub proof fn law_other_lines_bring_nothing(s: StreamModel, line: Seq<char>)
    requires
        line.len() < 6 || line.take(6) != "data: "@,
    ensures
        line_fed(s, line).stream == s,
        line_fed(s, line).shown is None,
        !line_fed(s, line).stop,
{
    reveal_strlit("data: ");
    if line_data(line) is Some {
        assert(line.subrange(0, 6) =~= line.take(6));
    }
}

proof fn lemma_line_data(rest: Seq<char>)
    ensures
        line_data("data: "@ + rest) == Some(trimmed(rest)),
{
    reveal_strlit("data: ");
    let line = "data: "@ + rest;
    assert(line.subrange(0, 6) =~= "data: "@);
    assert(line.skip(6) =~= rest);
}

/// A line of data that holds the end mark and nothing else ends the reading, and brings nothing.
pub proof fn law_end_mark_ends_the_reading(s: StreamModel, rest: Seq<char>)
    requires
        trimmed(rest) == "[DONE]"@,
    ensures
        line_fed(s, "data: "@ + rest).stream == s,
        line_fed(s, "data: "@ + rest).shown is None,
        line_fed(s, "data: "@ + rest).stop,
{
    lemma_line_data(rest);
}

/// A line of data that is no JSON brings nothing, and the reading goes on.
pub proof fn law_other_data_bring_nothing(s: StreamModel, rest: Seq<char>)
    requires
        trimmed(rest) != "[DONE]"@,
        parsed(trimmed(rest)) is None,
    ensures
        line_fed(s, "data: "@ + rest).stream == s,
        line_fed(s, "data: "@ + rest).shown is None,
        !line_fed(s, "data: "@ + rest).stop,
{
    lemma_line_data(rest);
}

/// A line of data that is a chunk brings its text: the text is shown and joins the content, where it
/// is not empty. The reading ends just when such a text makes the content loop, and then no call
/// changes; else the pieces of calls in the chunk are added.
pub proof fn law_chunk_brings_text_and_pieces(s: StreamModel, rest: Seq<char>, chunk: Json)
    requires
        trimmed(rest) != "[DONE]"@,
        parsed(trimmed(rest)) == Some(chunk),
    ensures
        ({
            let fed = line_fed(s, "data: "@ + rest);
            let delta = chunk.member("choices"@).item(0).member("delta"@);
            let text = match delta.member("content"@) {
                Json::Text(t) => t,
                _ => Seq::empty(),
            };
            let pieces = match delta.member("tool_calls"@) {
                Json::Array(items) => items,
                _ => Seq::empty(),
            };
            &&& fed.stream.content == s.content + text
            &&& fed.shown == if text.len() > 0 {
                Some(text)
            } else {
                None
            }
            &&& fed.stop <==> text.len() > 0 && looping(encode_utf8(s.content + text))
            &&& fed.stream.calls == if fed.stop {
                s.calls
            } else {
                with_pieces(s.calls, pieces)
            }
        }),
{
    lemma_line_data(rest);
    assert(s.content + Seq::<char>::empty() =~= s.content);
    assert(with_pieces(s.calls, Seq::<Json>::empty()) == s.calls);
}

// ---- what the calls are made of -----------------------------------------------------------

/// A piece belongs to the call with the number that it bears, and to the first where it bears none.
pub open spec fn belongs(piece: Json, i: int) -> bool {
    match piece.member("index"@) {
        Json::Unsigned(n) => n as usize == i,
        _ => i == 0,
    }
}

/// The argument texts of the pieces that belong to a call, one behind the other.
pub open spec fn own_arguments(pieces: Seq<Json>, i: int) -> Seq<char>
    decreases pieces.len(),
{
    if pieces.len() == 0 {
        Seq::empty()
    } else {
        let front = own_arguments(pieces.drop_last(), i);
        match pieces.last().member("function"@).member("arguments"@) {
            Json::Text(t) => if belongs(pieces.last(), i) {
                front + t
            } else {
                front
            },
            _ => front,
        }
    }
}

/// The last id among the pieces that belong to a call that is not empty, or `was` where there is
/// none.
pub open spec fn own_id(pieces: Seq<Json>, i: int, was: Seq<char>) -> Seq<char>
    decreases pieces.len(),
{
    if pieces.len() == 0 {
        was
    } else {
        match pieces.last().member("id"@) {
            Json::Text(t) => if belongs(pieces.last(), i) && t.len() > 0 {
                t
            } else {
                own_id(pieces.drop_last(), i, was)
            },
            _ => own_id(pieces.drop_last(), i, was),
        }
    }
}

/// The last name among the pieces that belong to a call that is not empty, or `was` where there is
/// none.
pub open spec fn own_name(pieces: Seq<Json>, i: int, was: Seq<char>) -> Seq<char>
    decreases pieces.len(),
{
    if pieces.len() == 0 {
        was
    } else {
        match pieces.last().member("function"@).member("name"@) {
            Json::Text(t) => if belongs(pieces.last(), i) && t.len() > 0 {
                t
            } else {
                own_name(pieces.drop_last(), i, was)
            },
            _ => own_name(pieces.drop_last(), i, was),
        }
    }
}

/// Each call is made of its own pieces and of no others: its arguments are their argument texts in
/// order, behind what it had; its id and name are the last that they give. A call that was not there
/// before had nothing.
pub proof fn law_calls_are_made_of_their_pieces(
    calls: Seq<ToolCallModel>,
    pieces: Seq<Json>,
    i: int,
)
    requires
        0 <= i < with_pieces(calls, pieces).len(),
    ensures
        i < calls.len() ==> with_pieces(calls, pieces)[i] == (ToolCallModel {
            id: own_id(pieces, i, calls[i].id),
            name: own_name(pieces, i, calls[i].name),
            arguments: calls[i].arguments + own_arguments(pieces, i),
        }),
        i >= calls.len() ==> with_pieces(calls, pieces)[i] == (ToolCallModel {
            id: own_id(pieces, i, Seq::empty()),
            name: own_name(pieces, i, Seq::empty()),
            arguments: own_arguments(pieces, i),
        }),
    decreases pieces.len(),
{
    let start = if i < calls.len() {
        calls[i]
    } else {
        ToolCallModel { id: Seq::empty(), name: Seq::empty(), arguments: Seq::empty() }
    };
    let all = with_pieces(calls, pieces);
    if pieces.len() == 0 {
        assert(start.arguments + Seq::<char>::empty() =~= start.arguments);
    } else {
        let front = pieces.drop_last();
        let piece = pieces.last();
        let before = with_pieces(calls, front);
        let k = piece_index(piece) as int;
        assert(belongs(piece, i) <==> k == i);
        let padded_calls = padded(before, k + 1);
        if i < before.len() {
            law_calls_are_made_of_their_pieces(calls, front, i);
            assert(padded_calls[i] == before[i]);
        } else {
            lemma_unnumbered(calls, front, i);
            assert(padded_calls[i] == blank_call());
            lemma_pieces_grow(calls, front);
        }
        let text = piece.member("function"@).member("arguments"@).text_or(Seq::empty());
        assert(start.arguments + own_arguments(front, i) + text =~= start.arguments + (own_arguments(
            front,
            i,
        ) + text));
        assert(own_arguments(front, i) + Seq::<char>::empty() =~= own_arguments(front, i));
        assert(start.arguments + own_arguments(front, i) + Seq::<char>::empty()
            =~= start.arguments + own_arguments(front, i));
        if i >= calls.len() {
            assert(start.arguments + own_arguments(pieces, i) =~= own_arguments(pieces, i));
            assert(start.arguments + own_arguments(front, i) =~= own_arguments(front, i));
        }
        assert(all[i].arguments =~= start.arguments + own_arguments(pieces, i));
    }
}

/// No piece belongs to a call that is not there.
proof fn lemma_unnumbered(calls: Seq<ToolCallModel>, pieces: Seq<Json>, i: int)
    requires
        i >= with_pieces(calls, pieces).len(),
    ensures
        own_arguments(pieces, i) == Seq::<char>::empty(),
        own_id(pieces, i, Seq::empty()) == Seq::<char>::empty(),
        own_name(pieces, i, Seq::empty()) == Seq::<char>::empty(),
        forall|k: int| 0 <= k < pieces.len() ==> !belongs(#[trigger] pieces[k], i),
    decreases pieces.len(),
{
    if pieces.len() > 0 {
        let front = pieces.drop_last();
        lemma_pieces_grow(with_pieces(calls, front), seq![pieces.last()]);
        assert(with_pieces(calls, pieces).len() >= with_pieces(calls, front).len());
        lemma_unnumbered(calls, front, i);
        assert(!belongs(pieces.last(), i));
        assert forall|k: int| 0 <= k < pieces.len() implies !belongs(#[trigger] pieces[k], i) by {
            if k < front.len() {
                assert(front[k] == pieces[k]);
            }
        }
    }
}

/// There are just as many calls as the pieces have numbered: every piece has its call, and a call
/// that was not there before is there because a piece belongs to it or to one behind it.
pub proof fn law_calls_are_numbered_by_their_pieces(calls: Seq<ToolCallModel>, pieces: Seq<Json>)
    ensures
        with_pieces(calls, pieces).len() >= calls.len(),
        forall|k: int, i: int|
            0 <= k < pieces.len() && #[trigger] belongs(pieces[k], i) ==> i < with_pieces(
                calls,
                pieces,
            ).len(),
        with_pieces(calls, pieces).len() > calls.len() ==> exists|k: int|
            0 <= k < pieces.len() && belongs(
                #[trigger] pieces[k],
                with_pieces(calls, pieces).len() - 1,
            ),
    decreases pieces.len(),
{
    lemma_pieces_grow(calls, pieces);
    assert forall|k: int, i: int|
        0 <= k < pieces.len() && #[trigger] belongs(pieces[k], i) implies i < with_pieces(
        calls,
        pieces,
    ).len() by {
        if i >= with_pieces(calls, pieces).len() {
            lemma_unnumbered(calls, pieces, i);
        }
    }
    if pieces.len() > 0 {
        let front = pieces.drop_last();
        law_calls_are_numbered_by_their_pieces(calls, front);
        let before = with_pieces(calls, front).len();
        let all = with_pieces(calls, pieces).len();
        if all > before {
            assert(belongs(pieces[pieces.len() - 1], all - 1));
        } else if all > calls.len() {
            let k = choose|k: int| 0 <= k < front.len() && belongs(#[trigger] front[k], before - 1);
            assert(pieces[k] == front[k]);
        }
    }
}

/// The pieces that a line brings.
pub open spec fn line_pieces(s: StreamModel, line: Seq<char>) -> Seq<Json> {
    if line.len() >= 6 && line.take(6) == "data: "@ && trimmed(line.skip(6)) != "[DONE]"@ {
        match parsed(trimmed(line.skip(6))) {
            Some(chunk) => match chunk.member("choices"@).item(0).member("delta"@).member(
                "tool_calls"@,
            ) {
                Json::Array(items) => if line_fed(s, line).stop {
                    Seq::empty()
                } else {
                    items
                },
                _ => Seq::empty(),
            },
            None => Seq::empty(),
        }
    } else {
        Seq::empty()
    }
}

/// The pieces that a list of lines brings, read until one of them ends the reading.
pub open spec fn pieces_read(s: StreamModel, lines: Seq<Seq<char>>) -> Seq<Json>
    decreases lines.len(),
{
    if lines.len() == 0 {
        Seq::empty()
    } else if line_fed(s, lines[0]).stop {
        line_pieces(s, lines[0])
    } else {
        line_pieces(s, lines[0]) + pieces_read(line_fed(s, lines[0]).stream, lines.drop_first())
    }
}

proof fn lemma_pieces_join(calls: Seq<ToolCallModel>, a: Seq<Json>, b: Seq<Json>)
    ensures
        with_pieces(calls, a + b) == with_pieces(with_pieces(calls, a), b),
    decreases b.len(),
{
    if b.len() == 0 {
        assert(a + b =~= a);
    } else {
        lemma_pieces_join(calls, a, b.drop_last());
        assert((a + b).drop_last() =~= a + b.drop_last());
    }
}

proof fn lemma_line_calls(s: StreamModel, line: Seq<char>)
    ensures
        line_fed(s, line).stream.calls == with_pieces(s.calls, line_pieces(s, line)),
{
    reveal_strlit("data: ");
    assert(with_pieces(s.calls, Seq::<Json>::empty()) == s.calls);
    if line.len() >= 6 && line.take(6) == "data: "@ {
        let rest = line.skip(6);
        assert(line =~= "data: "@ + rest);
        if trimmed(rest) == "[DONE]"@ {
            law_end_mark_ends_the_reading(s, rest);
        } else {
            match parsed(trimmed(rest)) {
                Some(chunk) => law_chunk_brings_text_and_pieces(s, rest, chunk),
                None => law_other_data_bring_nothing(s, rest),
            }
        }
    } else {
        law_other_lines_bring_nothing(s, line);
    }
}

/// The calls of an answer are made of the pieces of all its lines, as if those had come at once.
pub proof fn law_calls_come_from_all_lines(s: StreamModel, lines: Seq<Seq<char>>)
    ensures
        lines_fed(s, lines).calls == with_pieces(s.calls, pieces_read(s, lines)),
    decreases lines.len(),
{
    if lines.len() > 0 {
        let first = line_fed(s, lines[0]);
        lemma_line_calls(s, lines[0]);
        if !first.stop {
            let rest = lines.drop_first();
            law_calls_come_from_all_lines(first.stream, rest);
            lemma_pieces_join(s.calls, line_pieces(s, lines[0]), pieces_read(first.stream, rest));
        }
    }
}

/// The calls of a finished answer: each has the arguments of just the pieces that belong to it, in
/// order, and the last id and name that they give, or none where they give none.
pub proof fn law_finished_calls(lines: Seq<Seq<char>>, i: int)
    requires
        0 <= i < lines_fed(
            StreamModel { content: Seq::empty(), calls: Seq::empty() },
            lines,
        ).calls.len(),
    ensures
        ({
            let new = StreamModel { content: Seq::<char>::empty(), calls: Seq::empty() };
            let pieces = pieces_read(new, lines);
            assembled(lines_fed(new, lines)).tool_calls[i] == (ToolCallModel {
                id: own_id(pieces, i, Seq::empty()),
                name: own_name(pieces, i, Seq::empty()),
                arguments: own_arguments(pieces, i),
            })
        }),
{
    let new = StreamModel { content: Seq::<char>::empty(), calls: Seq::empty() };
    law_calls_come_from_all_lines(new, lines);
    law_calls_are_made_of_their_pieces(Seq::empty(), pieces_read(new, lines), i);
}

/// The message of an answer bears its calls, and its text unless there are calls and no text.
pub proof fn law_message_bears_text_and_calls(s: StreamModel)
    ensures
        assembled(s).tool_calls == s.calls,
        s.content.len() > 0 ==> assembled(s).content == Some(s.content),
        s.calls.len() == 0 ==> assembled(s).content == Some(s.content),
        s.content.len() == 0 && s.calls.len() > 0 ==> assembled(s).content is None,
{
}

/// What is told of a line is what it was found to bring.
pub proof fn law_lines_are_told_of(fed: Fed, f: Feeding)
    requires
        fed.tells(f),
    ensures
        fed.stop == f.stop,
        fed.shown is None ==> f.shown is None,
        fed.shown matches Some(s) ==> f.shown == Some(s@),
{
}

/// An answer holds its text and its calls, in order.
pub proof fn law_stream_holds_what_is_in_it(s: Stream)
    ensures
        s@.content == s.content@,
        s@.calls.len() == s.calls@.len(),
        forall|i: int| 0 <= i < s.calls@.len() ==> #[trigger] s@.calls[i] == s.calls@[i]@,
{
}

} // verus!

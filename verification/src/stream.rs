//! Streaming chat completions: cutting the server-sent event stream into
//! events, picking the `data:` payloads, and folding the decoded events into
//! the final reply. The caller reads the network and decodes each payload's
//! JSON; everything it decides on is here.

use vstd::prelude::*;
use crate::commit_link::strs;
use crate::llm::{call_view, ChatResponse, ToolCall, ToolCallFunction};
use crate::text::{chars_of, owned, push_str, slice_chars, string_of, trim_chars, trim_seq};

verus! {

/// A blank line (`\n\n`) starts at position `i` of `s`.
pub open spec fn nn_at(s: Seq<char>, i: int) -> bool {
    0 <= i && i + 1 < s.len() && s[i] == '\n' && s[i as int + 1] == '\n'
}

/// Scanning `s` from position `i`: the events that end in a blank line, in
/// order, and what is left after the last of them.
pub open spec fn sse_scan(s: Seq<char>, i: nat) -> (Seq<Seq<char>>, Seq<char>)
    decreases s.len(), s.len() - i,
{
    if i + 1 >= s.len() {
        (Seq::empty(), s)
    } else if s[i as int] == '\n' && s[i as int + 1] == '\n' {
        let rest = sse_scan(s.subrange(i as int + 2, s.len() as int), 0);
        (seq![s.take(i as int)] + rest.0, rest.1)
    } else {
        sse_scan(s, i + 1)
    }
}

/// The complete events of a stream text (each cut at the first blank line
/// after the previous one) and the unfinished tail.
pub open spec fn sse_blocks(s: Seq<char>) -> (Seq<Seq<char>>, Seq<char>) {
    sse_scan(s, 0)
}

proof fn lemma_scan_skip(s: Seq<char>, i: nat)
    requires
        forall|j: int| 0 <= j < i ==> !nn_at(s, j),
        i == 0 || i < s.len(),
    ensures
        sse_scan(s, 0) == sse_scan(s, i),
    decreases i,
{
    if i > 0 {
        let k = (i - 1) as nat;
        assert(!nn_at(s, k as int));
        lemma_scan_skip(s, k);
    }
}

proof fn lemma_scan_append(a: Seq<char>, b: Seq<char>, i: nat)
    requires
        forall|j: int| 0 <= j < i ==> !nn_at(a, j),
        i == 0 || i < a.len(),
    ensures
        ({
            let (b1, r1) = sse_scan(a, i);
            let (b2, r2) = sse_scan(r1 + b, 0);
            sse_scan(a + b, i) == (b1 + b2, r2)
        }),
    decreases a.len(), a.len() - i,
{
    let s = a + b;
    if i + 1 >= a.len() {
        assert forall|j: int| 0 <= j < i implies !nn_at(s, j) by {
            assert(!nn_at(a, j));
            assert(s[j] == a[j] && s[j + 1] == a[j + 1]);
        }
        if i > 0 {
            lemma_scan_skip(s, i);
        }
        let (b2, r2) = sse_scan(a + b, 0);
        assert(Seq::<Seq<char>>::empty() + b2 =~= b2);
    } else if a[i as int] == '\n' && a[i as int + 1] == '\n' {
        let t = a.subrange(i as int + 2, a.len() as int);
        lemma_scan_append(t, b, 0);
        assert(s[i as int] == '\n' && s[i as int + 1] == '\n');
        assert(s.subrange(i as int + 2, s.len() as int) =~= t + b);
        assert(s.take(i as int) =~= a.take(i as int));
        let (tb, tr) = sse_scan(t, 0);
        let (b2, r2) = sse_scan(tr + b, 0);
        assert(seq![a.take(i as int)] + (tb + b2) =~= (seq![a.take(i as int)] + tb) + b2);
    } else {
        assert(!nn_at(a, i as int));
        assert(s[i as int] == a[i as int] && s[i as int + 1] == a[i as int + 1]);
        lemma_scan_append(a, b, i + 1);
    }
}

/// Stream framing does not depend on how the text arrives: cutting `a + b`
/// gives the events of `a`, then the events of what was left of `a`
/// followed by `b`, and that tail.
pub proof fn lemma_sse_chunking(a: Seq<char>, b: Seq<char>)
    ensures
        ({
            let (b1, r1) = sse_blocks(a);
            let (b2, r2) = sse_blocks(r1 + b);
            sse_blocks(a + b) == (b1 + b2, r2)
        }),
{
    lemma_scan_append(a, b, 0);
}

/// A line as `str::lines` gives it: without its `\n`, and without a `\r`
/// just before that `\n`.
pub open spec fn line_piece(s: Seq<char>) -> Seq<char> {
    if s.len() > 0 && s.last() == '\r' {
        s.drop_last()
    } else {
        s
    }
}

/// `str::lines` from position `i`: lines end at `\n` (or `\r\n`); a last
/// line without an ending counts when it is not empty.
pub open spec fn lines_scan(s: Seq<char>, i: nat) -> Seq<Seq<char>>
    decreases s.len(), s.len() - i,
{
    if i >= s.len() {
        if s.len() == 0 {
            Seq::empty()
        } else {
            seq![s]
        }
    } else if s[i as int] == '\n' {
        seq![line_piece(s.take(i as int))] + lines_scan(s.subrange(i as int + 1, s.len() as int), 0)
    } else {
        lines_scan(s, i + 1)
    }
}

/// The payload of an event line: what follows `data: `, trimmed, unless it
/// is the end marker `[DONE]`.
pub open spec fn payload_of(line: Seq<char>) -> Option<Seq<char>> {
    if line.len() >= 6 && line.take(6) == "data: "@ {
        let d = trim_seq(line.skip(6));
        if d == "[DONE]"@ {
            None
        } else {
            Some(d)
        }
    } else {
        None
    }
}

/// The payloads of a list of lines, in order.
pub open spec fn payloads(lines: Seq<Seq<char>>) -> Seq<Seq<char>>
    decreases lines.len(),
{
    if lines.len() == 0 {
        Seq::empty()
    } else {
        let rest = payloads(lines.drop_first());
        match payload_of(lines[0]) {
            Some(d) => seq![d] + rest,
            None => rest,
        }
    }
}

proof fn lemma_payloads_cons(x: Seq<char>, rest: Seq<Seq<char>>)
    ensures
        payloads(seq![x] + rest) == match payload_of(x) {
            Some(d) => seq![d] + payloads(rest),
            None => payloads(rest),
        },
{
    assert((seq![x] + rest).drop_first() =~= rest);
    assert((seq![x] + rest)[0] == x);
}

fn payload_exec(v: &Vec<char>, lo: usize, hi: usize) -> (r: Option<String>)
    requires
        lo <= hi <= v.len(),
    ensures
        match r {
            Some(d) => payload_of(v@.subrange(lo as int, hi as int)) == Some(d@),
            None => payload_of(v@.subrange(lo as int, hi as int)).is_none(),
        },
{
    let line = slice_chars(v, lo, hi);
    let ghost l = v@.subrange(lo as int, hi as int);
    assert(line@ =~= l);
    let prefix = chars_of("data: ");
    proof {
        reveal_strlit("data: ");
    }
    if line.len() < 6 || !crate::text::starts_with_chars(&line, &prefix) {
        assert(line.len() >= 6 ==> l.take(6) =~= l.subrange(0, 6));
        return None;
    }
    assert(l.take(6) =~= l.subrange(0, 6));
    let rest = slice_chars(&line, 6, line.len());
    assert(rest@ =~= l.skip(6));
    let d = trim_chars(&rest);
    if crate::text::seq_eq(&d, &chars_of("[DONE]")) {
        return None;
    }
    Some(string_of(&d))
}

/// The `data:` payloads of one event, in line order, end markers left out.
pub fn event_payloads(block: &str) -> (r: Vec<String>)
    ensures
        strs(r) == payloads(lines_scan(block@, 0)),
{
    let v = chars_of(block);
    let ghost s = v@;
    let mut out: Vec<String> = Vec::new();
    let mut start: usize = 0;
    let mut i: usize = 0;
    assert(s.subrange(0, s.len() as int) =~= s);
    while i < v.len()
        invariant
            v@ == s,
            start <= i <= v.len(),
            payloads(lines_scan(s, 0)) == strs(out) + payloads(lines_scan(s.subrange(start as int, s.len() as int), (i - start) as nat)),
        decreases v.len() - i,
    {
        let ghost sub = s.subrange(start as int, s.len() as int);
        let ghost k = (i - start) as nat;
        if v[i] == '\n' {
            let ghost piece = sub.take(k as int);
            let ghost rest = lines_scan(sub.subrange(k as int + 1, sub.len() as int), 0);
            assert(sub[k as int] == '\n');
            assert(lines_scan(sub, k) == seq![line_piece(piece)] + rest);
            proof {
                lemma_payloads_cons(line_piece(piece), rest);
            }
            let hi = if i > start && v[i - 1] == '\r' {
                i - 1
            } else {
                i
            };
            assert(v@.subrange(start as int, hi as int) =~= line_piece(piece));
            let ghost before = strs(out);
            match payload_exec(&v, start, hi) {
                Some(d) => {
                    out.push(d);
                    assert(strs(out) =~= before.push(out@[out.len() - 1]@));
                    assert(before + (seq![out@[out.len() - 1]@] + payloads(rest)) =~= strs(out) + payloads(rest));
                },
                None => {},
            }
            assert(sub.subrange(k as int + 1, sub.len() as int) =~= s.subrange(i + 1, s.len() as int));
            start = i + 1;
            i = i + 1;
        } else {
            i = i + 1;
        }
    }
    let ghost sub = s.subrange(start as int, s.len() as int);
    if start < v.len() {
        let ghost before = strs(out);
        assert(lines_scan(sub, (i - start) as nat) == seq![sub]);
        proof {
            lemma_payloads_cons(sub, Seq::empty());
        }
        assert(seq![sub] =~= seq![sub] + Seq::<Seq<char>>::empty());
        match payload_exec(&v, start, v.len()) {
            Some(d) => {
                out.push(d);
                assert(strs(out) =~= before.push(out@[out.len() - 1]@));
            },
            None => {
                assert(strs(out) =~= before + Seq::<Seq<char>>::empty());
            },
        }
    } else {
        assert(strs(out) + Seq::<Seq<char>>::empty() =~= strs(out));
    }
    out
}

/// One entry of a delta's `tool_calls`.
#[derive(Debug, Clone)]
pub struct ToolCallDelta {
    /// Which call it continues (`0` when absent).
    pub index: Option<u64>,
    pub id: Option<String>,
    pub name: Option<String>,
    /// A piece of the JSON arguments.
    pub arguments: Option<String>,
}

/// The `delta` of the first choice of a stream event.
#[derive(Debug, Clone)]
pub struct ChunkDelta {
    pub content: Option<String>,
    pub reasoning_content: Option<String>,
    pub tool_calls: Vec<ToolCallDelta>,
}

/// Token counts reported by a stream event.
#[derive(Debug, Clone)]
pub struct ChunkUsage {
    pub prompt_tokens: Option<u64>,
    pub completion_tokens: Option<u64>,
}

/// A decoded stream event: the parts of its JSON that matter.
#[derive(Debug, Clone)]
pub struct StreamChunk {
    /// The first choice's `delta`.
    pub delta: Option<ChunkDelta>,
    /// The first choice's `finish_reason`.
    pub finish_reason: Option<String>,
    pub usage: Option<ChunkUsage>,
    pub model: Option<String>,
}

/// A tool call as plain values: id, kind, name, arguments.
pub type CallView = (Seq<char>, Seq<char>, Seq<char>, Seq<char>);

/// A call slot not yet filled in by any delta.
pub open spec fn empty_call() -> CallView {
    (Seq::empty(), "function"@, Seq::empty(), Seq::empty())
}

/// The slot a delta writes to.
pub open spec fn delta_index(d: ToolCallDelta) -> int {
    match d.index {
        Some(x) => x as int,
        None => 0,
    }
}

/// `calls` grown with empty slots to at least `n` entries.
pub open spec fn pad_calls(calls: Seq<CallView>, n: int) -> Seq<CallView> {
    if calls.len() >= n {
        calls
    } else {
        calls + Seq::new((n - calls.len()) as nat, |k: int| empty_call())
    }
}

/// One tool-call delta applied: a non-empty id or name replaces the slot's,
/// an argument piece is appended.
pub open spec fn apply_call_delta(calls: Seq<CallView>, d: ToolCallDelta) -> Seq<CallView> {
    let idx = delta_index(d);
    let padded = pad_calls(calls, idx + 1);
    let c = padded[idx];
    let id = match d.id {
        Some(x) => if x@.len() > 0 { x@ } else { c.0 },
        None => c.0,
    };
    let name = match d.name {
        Some(x) => if x@.len() > 0 { x@ } else { c.2 },
        None => c.2,
    };
    let args = match d.arguments {
        Some(x) => c.3 + x@,
        None => c.3,
    };
    padded.update(idx, (id, c.1, name, args))
}

/// The deltas applied in order.
pub open spec fn apply_call_deltas(calls: Seq<CallView>, ds: Seq<ToolCallDelta>) -> Seq<CallView>
    decreases ds.len(),
{
    if ds.len() == 0 {
        calls
    } else {
        apply_call_delta(apply_call_deltas(calls, ds.drop_last()), ds.last())
    }
}

/// The state of a streamed reply: text so far, tool calls by slot, finish
/// reason, model and token counts.
pub struct StreamState {
    pub text: String,
    pub calls: Vec<ToolCall>,
    pub finish_reason: String,
    pub model: String,
    pub tokens_in: u64,
    pub tokens_out: u64,
}

/// A stream state's tool calls as plain values.
pub open spec fn calls_of(st: StreamState) -> Seq<CallView> {
    st.calls@.map_values(|c: ToolCall| call_view(c))
}

/// Text added by an event: its content when not empty; then its reasoning
/// content when not empty, if the text so far is still blank.
pub open spec fn text_pieces(text: Seq<char>, d: Option<ChunkDelta>) -> Seq<Seq<char>> {
    match d {
        None => Seq::empty(),
        Some(dd) => {
            let first: Seq<Seq<char>> = match dd.content {
                Some(c) => if c@.len() > 0 { seq![c@] } else { Seq::empty() },
                None => Seq::empty(),
            };
            let t1 = match dd.content {
                Some(c) => if c@.len() > 0 { text + c@ } else { text },
                None => text,
            };
            let second: Seq<Seq<char>> = match dd.reasoning_content {
                Some(r) => if trim_seq(t1).len() == 0 && r@.len() > 0 { seq![r@] } else { Seq::empty() },
                None => Seq::empty(),
            };
            first + second
        },
    }
}

/// Joins pieces of text.
pub open spec fn concat(pieces: Seq<Seq<char>>) -> Seq<char>
    decreases pieces.len(),
{
    if pieces.len() == 0 {
        Seq::empty()
    } else {
        concat(pieces.drop_last()) + pieces.last()
    }
}

/// The text a stream state holds after a run of event deltas, starting
/// from the text `t0`: each event adds its pieces.
pub open spec fn text_from(t0: Seq<char>, deltas: Seq<Option<ChunkDelta>>) -> Seq<char>
    decreases deltas.len(),
{
    if deltas.len() == 0 {
        t0
    } else {
        let t = text_from(t0, deltas.drop_last());
        t + concat(text_pieces(t, deltas.last()))
    }
}

/// Every piece shown over a run of event deltas starting from the text
/// `t0`, in order.
pub open spec fn shown_from(t0: Seq<char>, deltas: Seq<Option<ChunkDelta>>) -> Seq<Seq<char>>
    decreases deltas.len(),
{
    if deltas.len() == 0 {
        Seq::empty()
    } else {
        shown_from(t0, deltas.drop_last()) + text_pieces(text_from(t0, deltas.drop_last()), deltas.last())
    }
}

/// The deltas of a run of events.
pub open spec fn deltas_of(events: Seq<StreamChunk>) -> Seq<Option<ChunkDelta>> {
    events.map_values(|e: StreamChunk| e.delta)
}

proof fn lemma_concat_append(a: Seq<Seq<char>>, b: Seq<Seq<char>>)
    ensures
        concat(a + b) == concat(a) + concat(b),
    decreases b.len(),
{
    if b.len() == 0 {
        assert(a + b =~= a);
        assert(concat(a) + concat(b) =~= concat(a));
    } else {
        lemma_concat_append(a, b.drop_last());
        assert((a + b).drop_last() =~= a + b.drop_last());
        assert((a + b).last() == b.last());
        assert(concat(a) + concat(b) =~= concat(a) + concat(b.drop_last()) + b.last());
    }
}

/// Over any run of events fed to `StreamState::apply` (from the start
/// state, whose text is empty, or from any other), the pieces shown, joined
/// in order, are exactly what the text grew by; from the start state they
/// are the text `finish` returns.
pub proof fn lemma_shown_pieces_make_text(t0: Seq<char>, deltas: Seq<Option<ChunkDelta>>)
    ensures
        text_from(t0, deltas) == t0 + concat(shown_from(t0, deltas)),
    decreases deltas.len(),
{
    if deltas.len() == 0 {
        assert(t0 + concat(shown_from(t0, deltas)) =~= t0);
    } else {
        let init = deltas.drop_last();
        lemma_shown_pieces_make_text(t0, init);
        lemma_concat_append(shown_from(t0, init), text_pieces(text_from(t0, init), deltas.last()));
        assert(t0 + concat(shown_from(t0, deltas)) =~= t0 + concat(shown_from(t0, init)) + concat(
            text_pieces(text_from(t0, init), deltas.last()),
        ));
    }
}

/// The text of the stream received so far that does not yet end an event.
pub struct SseBuffer {
    pub pending: String,
}

impl SseBuffer {
    /// An empty buffer.
    pub fn new() -> (r: SseBuffer)
        ensures
            r.pending@ == Seq::<char>::empty(),
    {
        SseBuffer { pending: String::new() }
    }

    /// Adds received text; returns the events it completes, in order, and
    /// keeps the rest.
    pub fn push_chunk(&mut self, chunk: &str) -> (blocks: Vec<String>)
        ensures
            (strs(blocks), final(self).pending@) == sse_blocks(old(self).pending@ + chunk@),
    {
        let mut all = self.pending.clone();
        push_str(&mut all, chunk);
        let v = chars_of(all.as_str());
        let ghost s = v@;
        let mut out: Vec<String> = Vec::new();
        let mut start: usize = 0;
        let mut i: usize = 0;
        assert(s.subrange(0, s.len() as int) =~= s);
        while v.len() - i > 1
            invariant
                v@ == s,
                start <= i <= v.len(),
                sse_blocks(s).0 == strs(out) + sse_scan(s.subrange(start as int, s.len() as int), (i - start) as nat).0,
                sse_blocks(s).1 == sse_scan(s.subrange(start as int, s.len() as int), (i - start) as nat).1,
            decreases v.len() - i,
        {
            let ghost sub = s.subrange(start as int, s.len() as int);
            let ghost k = (i - start) as nat;
            if v[i] == '\n' && v[i + 1] == '\n' {
                assert(sub[k as int] == '\n' && sub[k as int + 1] == '\n');
                let ghost rest = sse_scan(sub.subrange(k as int + 2, sub.len() as int), 0);
                assert(sse_scan(sub, k) == (seq![sub.take(k as int)] + rest.0, rest.1));
                let piece = string_of(&slice_chars(&v, start, i));
                assert(piece@ =~= sub.take(k as int));
                let ghost before = strs(out);
                out.push(piece);
                assert(strs(out) =~= before.push(piece@));
                assert(sub.subrange(k as int + 2, sub.len() as int) =~= s.subrange(i + 2, s.len() as int));
                assert(before + (seq![sub.take(k as int)] + rest.0) =~= before.push(piece@) + rest.0);
                start = i + 2;
                i = i + 2;
            } else {
                assert(!(sub[k as int] == '\n' && sub[k as int + 1] == '\n'));
                i = i + 1;
            }
        }
        let ghost sub = s.subrange(start as int, s.len() as int);
        assert(sse_scan(sub, (i - start) as nat) == (Seq::<Seq<char>>::empty(), sub));
        assert(strs(out) + Seq::<Seq<char>>::empty() =~= strs(out));
        let tail = string_of(&slice_chars(&v, start, v.len()));
        assert(tail@ =~= sub);
        self.pending = tail;
        out
    }
}


fn empty_tool_call() -> (r: ToolCall)
    ensures
        call_view(r) == empty_call(),
{
    ToolCall {
        id: String::new(),
        kind: owned("function"),
        function: ToolCallFunction { name: String::new(), arguments: String::new() },
    }
}

fn apply_call_delta_exec(calls: &mut Vec<ToolCall>, d: &ToolCallDelta)
    requires
        delta_index(*d) < usize::MAX,
    ensures
        final(calls)@.map_values(|c: ToolCall| call_view(c)) == apply_call_delta(
            old(calls)@.map_values(|c: ToolCall| call_view(c)),
            *d,
        ),
{
    let ghost before = calls@.map_values(|c: ToolCall| call_view(c));
    let idx: usize = match d.index {
        Some(x) => x as usize,
        None => 0,
    };
    while calls.len() <= idx
        invariant
            idx == delta_index(*d),
            idx < usize::MAX,
            calls@.map_values(|c: ToolCall| call_view(c)) == if before.len() >= calls.len() {
                before
            } else {
                before + Seq::new((calls.len() - before.len()) as nat, |k: int| empty_call())
            },
            calls.len() >= before.len(),
            calls.len() <= if before.len() >= idx + 1 { before.len() as int } else { idx + 1 },
        decreases idx + 1 - calls.len(),
    {
        let ghost cur = calls@.map_values(|c: ToolCall| call_view(c));
        calls.push(empty_tool_call());
        assert(calls@.map_values(|c: ToolCall| call_view(c)) =~= cur.push(empty_call()));
        assert(before + Seq::new((calls.len() - before.len()) as nat, |k: int| empty_call()) =~= (if before.len() >= calls.len() - 1 {
            before
        } else {
            before + Seq::new((calls.len() - 1 - before.len()) as nat, |k: int| empty_call())
        }).push(empty_call()));
    }
    let ghost padded = calls@.map_values(|c: ToolCall| call_view(c));
    assert(padded =~= pad_calls(before, idx + 1));
    let old_c = &calls[idx];
    let id = match &d.id {
        Some(x) => if !x.as_str().is_empty() {
            x.clone()
        } else {
            old_c.id.clone()
        },
        None => old_c.id.clone(),
    };
    let name = match &d.name {
        Some(x) => if !x.as_str().is_empty() {
            x.clone()
        } else {
            old_c.function.name.clone()
        },
        None => old_c.function.name.clone(),
    };
    let mut args = old_c.function.arguments.clone();
    match &d.arguments {
        Some(x) => push_str(&mut args, x.as_str()),
        None => {},
    }
    let kind = old_c.kind.clone();
    let newc = ToolCall { id, kind, function: ToolCallFunction { name, arguments: args } };
    calls.set(idx, newc);
    assert(calls@.map_values(|c: ToolCall| call_view(c)) =~= apply_call_delta(before, *d));
}

impl StreamState {
    /// The state before any event, for a request to `model`.
    pub fn start(model: String) -> (r: StreamState)
        ensures
            r.text@ == Seq::<char>::empty(),
            r.calls.len() == 0,
            r.finish_reason@ == Seq::<char>::empty(),
            r.model@ == model@,
            r.tokens_in == 0,
            r.tokens_out == 0,
    {
        StreamState { text: String::new(), calls: Vec::new(), finish_reason: String::new(), model, tokens_in: 0, tokens_out: 0 }
    }

    /// Folds in one decoded event; returns the text pieces to show, in
    /// order.
    pub fn apply(&mut self, ev: &StreamChunk) -> (shown: Vec<String>)
        requires
            ev.delta matches Some(d) ==> forall|k: int| 0 <= k < d.tool_calls.len() ==> delta_index(#[trigger] d.tool_calls@[k]) < usize::MAX,
        ensures
            strs(shown) == text_pieces(old(self).text@, ev.delta),
            final(self).text@ == old(self).text@ + concat(strs(shown)),
            calls_of(*final(self)) == match ev.delta {
                Some(d) => apply_call_deltas(calls_of(*old(self)), d.tool_calls@),
                None => calls_of(*old(self)),
            },
            final(self).finish_reason@ == match ev.finish_reason {
                Some(f) => if f@.len() > 0 { f@ } else { old(self).finish_reason@ },
                None => old(self).finish_reason@,
            },
            final(self).tokens_in == match ev.usage {
                Some(u) => match u.prompt_tokens { Some(n) => n, None => 0 },
                None => old(self).tokens_in,
            },
            final(self).tokens_out == match ev.usage {
                Some(u) => match u.completion_tokens { Some(n) => n, None => 0 },
                None => old(self).tokens_out,
            },
            final(self).model@ == match ev.model {
                Some(m) => m@,
                None => old(self).model@,
            },
    {
        let mut shown: Vec<String> = Vec::new();
        let ghost t0 = self.text@;
        let ghost f0 = self.finish_reason@;
        let ghost m0 = self.model@;
        let ghost ti0 = self.tokens_in;
        let ghost to0 = self.tokens_out;
        match &ev.delta {
            Some(d) => {
                match &d.content {
                    Some(c) => if !c.as_str().is_empty() {
                        push_str(&mut self.text, c.as_str());
                        shown.push(c.clone());
                        assert(strs(shown) =~= seq![c@]);
                        assert(seq![c@].drop_last() =~= Seq::<Seq<char>>::empty());
                        assert(seq![c@].last() == c@);
                        assert(concat(Seq::<Seq<char>>::empty()) =~= Seq::<char>::empty());
                        assert(concat(seq![c@]) =~= c@);
                    } else {
                        assert(strs(shown) =~= Seq::<Seq<char>>::empty());
                    },
                    None => {
                        assert(strs(shown) =~= Seq::<Seq<char>>::empty());
                    },
                }
                assert(self.text@ =~= t0 + concat(strs(shown)));
                match &d.reasoning_content {
                    Some(rc) => {
                        let blank = trim_chars(&chars_of(self.text.as_str())).len() == 0;
                        if blank && !rc.as_str().is_empty() {
                            let ghost before = strs(shown);
                            push_str(&mut self.text, rc.as_str());
                            shown.push(rc.clone());
                            assert(strs(shown) =~= before.push(rc@));
                            assert(strs(shown).drop_last() =~= before);
                            assert(self.text@ =~= t0 + concat(strs(shown)));
                        }
                    },
                    None => {},
                }
                assert(strs(shown) =~= text_pieces(t0, ev.delta));
                assert(self.text@ =~= t0 + concat(strs(shown)));
                let mut k: usize = 0;
                let ghost c0 = calls_of(*self);
                while k < d.tool_calls.len()
                    invariant
                        k <= d.tool_calls.len(),
                        forall|j: int| 0 <= j < d.tool_calls.len() ==> delta_index(#[trigger] d.tool_calls@[j]) < usize::MAX,
                        calls_of(*self) == apply_call_deltas(c0, d.tool_calls@.take(k as int)),
                        self.text@ == t0 + concat(strs(shown)),
                        self.finish_reason@ == f0,
                        self.model@ == m0,
                        self.tokens_in == ti0,
                        self.tokens_out == to0,
                    decreases d.tool_calls.len() - k,
                {
                    apply_call_delta_exec(&mut self.calls, &d.tool_calls[k]);
                    assert(d.tool_calls@.take(k + 1).drop_last() =~= d.tool_calls@.take(k as int));
                    k = k + 1;
                }
                assert(d.tool_calls@.take(d.tool_calls.len() as int) =~= d.tool_calls@);
            },
            None => {
                assert(strs(shown) =~= Seq::<Seq<char>>::empty());
                assert(self.text@ =~= t0 + concat(strs(shown)));
            },
        }
        match &ev.finish_reason {
            Some(f) => if !f.as_str().is_empty() {
                self.finish_reason = f.clone();
            },
            None => {},
        }
        match &ev.usage {
            Some(u) => {
                self.tokens_in = match u.prompt_tokens {
                    Some(n) => n,
                    None => 0,
                };
                self.tokens_out = match u.completion_tokens {
                    Some(n) => n,
                    None => 0,
                };
            },
            None => {},
        }
        match &ev.model {
            Some(m) => {
                self.model = m.clone();
            },
            None => {},
        }
        shown
    }
}


/// Every tool-call slot an event names fits in memory.
pub open spec fn indices_fit(ev: StreamChunk) -> bool {
    ev.delta matches Some(d) ==> forall|k: int| 0 <= k < d.tool_calls.len() ==> delta_index(#[trigger] d.tool_calls@[k]) < usize::MAX
}

impl StreamState {
    /// Folds in a run of decoded events, in order; returns every text piece
    /// to show, in order.
    pub fn apply_all(&mut self, events: &Vec<StreamChunk>) -> (shown: Vec<String>)
        requires
            forall|i: int| 0 <= i < events.len() ==> indices_fit(#[trigger] events@[i]),
        ensures
            strs(shown) == shown_from(old(self).text@, deltas_of(events@)),
            final(self).text@ == text_from(old(self).text@, deltas_of(events@)),
            final(self).text@ == old(self).text@ + concat(strs(shown)),
    {
        let ghost t0 = self.text@;
        let mut shown: Vec<String> = Vec::new();
        let mut i: usize = 0;
        while i < events.len()
            invariant
                i <= events.len(),
                forall|j: int| 0 <= j < events.len() ==> indices_fit(#[trigger] events@[j]),
                strs(shown) == shown_from(t0, deltas_of(events@).take(i as int)),
                self.text@ == text_from(t0, deltas_of(events@).take(i as int)),
            decreases events.len() - i,
        {
            let ghost before = strs(shown);
            let ghost ds = deltas_of(events@).take(i + 1);
            assert(ds.drop_last() =~= deltas_of(events@).take(i as int));
            assert(ds.last() == events@[i as int].delta);
            assert(indices_fit(events@[i as int]));
            let mut more = self.apply(&events[i]);
            shown.append(&mut more);
            proof {
                assert(strs(shown) =~= before + text_pieces(text_from(t0, ds.drop_last()), ds.last()));
            }
            i = i + 1;
        }
        assert(deltas_of(events@).take(events.len() as int) =~= deltas_of(events@));
        proof {
            lemma_shown_pieces_make_text(t0, deltas_of(events@));
        }
        shown
    }
}

/// The calls that got a name, in slot order.
pub open spec fn named_calls(cs: Seq<CallView>) -> Seq<CallView>
    decreases cs.len(),
{
    if cs.len() == 0 {
        Seq::empty()
    } else {
        let r = named_calls(cs.drop_last());
        if cs.last().2.len() > 0 {
            r.push(cs.last())
        } else {
            r
        }
    }
}

/// The error of a stream that brought neither text nor a tool call.
pub open spec fn empty_stream_error() -> Seq<char> {
    "LLM 流式响应既无内容也无 tool_calls"@
}

impl StreamState {
    /// The reply once the stream has ended: the text, the calls that got a
    /// name, the finish reason (`stop` when none came), the token counts and
    /// model; an error when there is neither text nor a call.
    pub fn finish(self) -> (r: Result<ChatResponse, String>)
        ensures
            match r {
                Ok(resp) => {
                    &&& !(self.text@.len() == 0 && named_calls(calls_of(self)).len() == 0)
                    &&& resp.text@ == self.text@
                    &&& resp.tool_calls@.map_values(|c: ToolCall| call_view(c)) == named_calls(calls_of(self))
                    &&& resp.finish_reason@ == if self.finish_reason@.len() == 0 {
                        "stop"@
                    } else {
                        self.finish_reason@
                    }
                    &&& resp.tokens_in == self.tokens_in
                    &&& resp.tokens_out == self.tokens_out
                    &&& resp.model@ == self.model@
                },
                Err(e) => self.text@.len() == 0 && named_calls(calls_of(self)).len() == 0 && e@ == empty_stream_error(),
            },
    {
        let ghost all = calls_of(self);
        let StreamState { text, calls, finish_reason, model, tokens_in, tokens_out } = self;
        let mut kept: Vec<ToolCall> = Vec::new();
        let mut rest = calls;
        assert(rest@.map_values(|c: ToolCall| call_view(c)) == all);
        let mut taken: Vec<ToolCall> = Vec::new();
        while rest.len() > 0
            invariant
                taken@.map_values(|c: ToolCall| call_view(c)) + rest@.map_values(|c: ToolCall| call_view(c)) == all,
                kept@.map_values(|c: ToolCall| call_view(c)) == named_calls(taken@.map_values(|c: ToolCall| call_view(c))),
            decreases rest.len(),
        {
            let ghost tv = taken@.map_values(|c: ToolCall| call_view(c));
            let ghost rv = rest@.map_values(|c: ToolCall| call_view(c));
            let ghost kv = kept@.map_values(|c: ToolCall| call_view(c));
            let c = rest.remove(0);
            assert(rest@.map_values(|c: ToolCall| call_view(c)) =~= rv.drop_first());
            let ghost cv = call_view(c);
            assert(cv == rv[0]);
            if !c.function.name.as_str().is_empty() {
                kept.push(ToolCall { id: c.id.clone(), kind: c.kind.clone(), function: ToolCallFunction { name: c.function.name.clone(), arguments: c.function.arguments.clone() } });
                assert(kept@.map_values(|c: ToolCall| call_view(c)) =~= kv.push(cv));
            }
            taken.push(c);
            assert(taken@.map_values(|c: ToolCall| call_view(c)) =~= tv.push(cv));
            assert(tv.push(cv).drop_last() =~= tv);
            assert(tv.push(cv) + rv.drop_first() =~= tv + rv);
        }
        assert(taken@.map_values(|c: ToolCall| call_view(c)) =~= all);
        if text.as_str().is_empty() && kept.len() == 0 {
            return Err(owned("LLM 流式响应既无内容也无 tool_calls"));
        }
        let fr = if finish_reason.as_str().is_empty() {
            owned("stop")
        } else {
            finish_reason
        };
        Ok(ChatResponse { text, tool_calls: kept, finish_reason: fr, tokens_in, tokens_out, model })
    }
}

/// How a streamed chat goes for a protocol: `responses` and `anthropic`
/// servers are asked once without streaming (`false`); others stream
/// server-sent events (`true`). Missing credentials are errors, as for any
/// model call.
pub fn stream_route(api_key: &str, base_url: &str, wire_api: &str) -> (r: Result<bool, String>)
    ensures
        api_key@.len() == 0 ==> r.is_err() && r->Err_0@
            == "LLM apiKey 未配置（检查 ~/.jarvis/config.json 的 llm.apiKey 或 env LLM_API_KEY）"@,
        api_key@.len() > 0 && base_url@.len() == 0 ==> r.is_err() && r->Err_0@ == "LLM baseUrl 未配置"@,
        api_key@.len() > 0 && base_url@.len() > 0 ==> r == Ok::<bool, String>(!(wire_api@ == "responses"@ || wire_api@ == "anthropic"@)),
{
    match crate::llm::check_llm_credentials(api_key, base_url) {
        Err(e) => Err(e),
        Ok(()) => {
            let w = chars_of(wire_api);
            let plain = crate::text::seq_eq(&w, &chars_of("responses")) || crate::text::seq_eq(&w, &chars_of("anthropic"));
            Ok(!plain)
        },
    }
}

/// What is shown of a reply obtained without streaming: its whole text at
/// once, if there is any.
pub fn unstreamed_pieces(text: &str) -> (r: Vec<String>)
    ensures
        strs(r) == if text@.len() > 0 {
            seq![text@]
        } else {
            Seq::<Seq<char>>::empty()
        },
{
    let mut out: Vec<String> = Vec::new();
    if !text.is_empty() {
        out.push(owned(text));
        assert(strs(out) =~= seq![text@]);
    } else {
        assert(strs(out) =~= Seq::<Seq<char>>::empty());
    }
    out
}

} // verus!

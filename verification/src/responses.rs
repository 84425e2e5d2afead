//! The OpenAI Responses wire format: turning a conversation into the
//! request's input items, and reading a reply's output items back into a
//! chat reply. The caller does the JSON encoding and decoding.

use vstd::prelude::*;
use crate::llm::{call_view, ChatMessage, ChatResponse, Role, ToolCall, ToolCallFunction};
use crate::text::{chars_of, owned, push_str, seq_eq, trim, trim_seq};

verus! {

/// One input item of a Responses request.
#[derive(Debug, Clone)]
pub enum ResponsesInput {
    /// `{type:"message", role, content}`.
    Message { role: String, content: String },
    /// `{type:"function_call", call_id, name, arguments}`.
    FunctionCall { call_id: String, name: String, arguments: String },
    /// `{type:"function_call_output", call_id, output}`.
    FunctionCallOutput { call_id: String, output: String },
}

/// An input item as plain values: kind (0 message, 1 call, 2 call output)
/// and its three texts (role, content, -), (call id, name, arguments) or
/// (call id, output, -).
pub type InputView = (nat, Seq<char>, Seq<char>, Seq<char>);

/// An input item as plain values.
pub open spec fn input_view(i: ResponsesInput) -> InputView {
    match i {
        ResponsesInput::Message { role, content } => (0, role@, content@, Seq::empty()),
        ResponsesInput::FunctionCall { call_id, name, arguments } => (1, call_id@, name@, arguments@),
        ResponsesInput::FunctionCallOutput { call_id, output } => (2, call_id@, output@, Seq::empty()),
    }
}

/// The role name of a message.
pub open spec fn role_name(r: Role) -> Seq<char> {
    match r {
        Role::System => "system"@,
        Role::User => "user"@,
        Role::Assistant => "assistant"@,
        Role::Tool => "tool"@,
    }
}

/// The error for a tool result that names no call.
pub open spec fn missing_call_id_error() -> Seq<char> {
    "tool 消息缺少 tool_call_id，Responses API 无法定位调用"@
}

/// The input items of one message: a tool result becomes a call output (an
/// error without its call id); an assistant message with tool calls becomes
/// its text (when not blank) and one call item per call; any other message
/// stays a message.
pub open spec fn message_items(m: ChatMessage) -> Option<Seq<InputView>> {
    if m.role == Role::Tool {
        match m.tool_call_id {
            Some(id) => Some(seq![(2nat, id@, m.content@, Seq::<char>::empty())]),
            None => None,
        }
    } else if m.role == Role::Assistant && m.tool_calls.is_some() && m.tool_calls.unwrap().len() > 0 {
        let head: Seq<InputView> = if trim_seq(m.content@).len() > 0 {
            seq![(0nat, "assistant"@, m.content@, Seq::<char>::empty())]
        } else {
            Seq::empty()
        };
        Some(head + m.tool_calls.unwrap()@.map_values(|c: ToolCall| (1nat, c.id@, c.function.name@, c.function.arguments@)))
    } else {
        Some(seq![(0nat, role_name(m.role), m.content@, Seq::<char>::empty())])
    }
}

/// The input items of a conversation; an error at the first tool result
/// without a call id.
pub open spec fn input_items(ms: Seq<ChatMessage>) -> Option<Seq<InputView>>
    decreases ms.len(),
{
    if ms.len() == 0 {
        Some(Seq::empty())
    } else {
        match input_items(ms.drop_last()) {
            None => None,
            Some(prev) => match message_items(ms.last()) {
                None => None,
                Some(x) => Some(prev + x),
            },
        }
    }
}

fn copy_str(s: &String) -> (r: String)
    ensures
        r@ == s@,
{
    s.clone()
}

/// Builds the input items of a Responses request.
pub fn messages_to_responses_input(messages: &Vec<ChatMessage>) -> (r: Result<Vec<ResponsesInput>, String>)
    ensures
        match r {
            Ok(v) => input_items(messages@) == Some(v@.map_values(|i: ResponsesInput| input_view(i))),
            Err(e) => input_items(messages@).is_none() && e@ == missing_call_id_error(),
        },
{
    let mut out: Vec<ResponsesInput> = Vec::new();
    let mut i: usize = 0;
    assert(messages@.take(0) =~= Seq::<ChatMessage>::empty());
    while i < messages.len()
        invariant
            i <= messages.len(),
            input_items(messages@.take(i as int)) == Some(out@.map_values(|x: ResponsesInput| input_view(x))),
        decreases messages.len() - i,
    {
        let m = &messages[i];
        assert(messages@.take(i + 1).drop_last() =~= messages@.take(i as int));
        assert(messages@.take(i + 1).last() == *m);
        let ghost before = out@.map_values(|x: ResponsesInput| input_view(x));
        if m.role == Role::Tool {
            match &m.tool_call_id {
                Some(id) => {
                    out.push(ResponsesInput::FunctionCallOutput { call_id: copy_str(id), output: copy_str(&m.content) });
                    assert(out@.map_values(|x: ResponsesInput| input_view(x)) =~= before + seq![(2nat, id@, m.content@, Seq::<char>::empty())]);
                },
                None => {
                    proof {
                        lemma_items_error_sticks(messages@, i as int + 1);
                    }
                    return Err(owned("tool 消息缺少 tool_call_id，Responses API 无法定位调用"));
                },
            }
        } else {
            let has_calls = match &m.tool_calls {
                Some(v) => v.len() > 0,
                None => false,
            };
            if m.role == Role::Assistant && has_calls {
                let calls = match &m.tool_calls {
                    Some(v) => v,
                    None => {
                        assert(false);
                        return Err(String::new());
                    },
                };
                let blank = trim(m.content.as_str()).as_str().is_empty();
                if !blank {
                    out.push(ResponsesInput::Message { role: owned("assistant"), content: copy_str(&m.content) });
                }
                let ghost head: Seq<InputView> = if trim_seq(m.content@).len() > 0 {
                    seq![(0nat, "assistant"@, m.content@, Seq::<char>::empty())]
                } else {
                    Seq::empty()
                };
                assert(out@.map_values(|x: ResponsesInput| input_view(x)) =~= before + head);
                let mut k: usize = 0;
                while k < calls.len()
                    invariant
                        k <= calls.len(),
                        out@.map_values(|x: ResponsesInput| input_view(x)) == before + head + calls@.take(k as int).map_values(
                            |c: ToolCall| (1nat, c.id@, c.function.name@, c.function.arguments@),
                        ),
                    decreases calls.len() - k,
                {
                    let c = &calls[k];
                    let ghost prev = out@.map_values(|x: ResponsesInput| input_view(x));
                    out.push(ResponsesInput::FunctionCall {
                        call_id: copy_str(&c.id),
                        name: copy_str(&c.function.name),
                        arguments: copy_str(&c.function.arguments),
                    });
                    assert(out@.map_values(|x: ResponsesInput| input_view(x)) =~= prev.push((1nat, c.id@, c.function.name@, c.function.arguments@)));
                    assert(calls@.take(k + 1).map_values(|c: ToolCall| (1nat, c.id@, c.function.name@, c.function.arguments@)) =~= calls@.take(
                        k as int,
                    ).map_values(|c: ToolCall| (1nat, c.id@, c.function.name@, c.function.arguments@)).push(
                        (1nat, c.id@, c.function.name@, c.function.arguments@),
                    ));
                    k = k + 1;
                }
                assert(calls@.take(calls.len() as int) =~= calls@);
                assert(before + head + calls@.map_values(|c: ToolCall| (1nat, c.id@, c.function.name@, c.function.arguments@)) =~= before + (head
                    + calls@.map_values(|c: ToolCall| (1nat, c.id@, c.function.name@, c.function.arguments@))));
            } else {
                let role = match m.role {
                    Role::System => owned("system"),
                    Role::User => owned("user"),
                    Role::Assistant => owned("assistant"),
                    Role::Tool => owned("tool"),
                };
                out.push(ResponsesInput::Message { role, content: copy_str(&m.content) });
                assert(out@.map_values(|x: ResponsesInput| input_view(x)) =~= before + seq![(0nat, role_name(m.role), m.content@, Seq::<char>::empty())]);
            }
        }
        i = i + 1;
    }
    assert(messages@.take(messages.len() as int) =~= messages@);
    Ok(out)
}

proof fn lemma_items_error_sticks(ms: Seq<ChatMessage>, n: int)
    requires
        0 < n <= ms.len(),
        input_items(ms.take(n)).is_none(),
    ensures
        input_items(ms).is_none(),
    decreases ms.len() - n,
{
    if n < ms.len() {
        assert(ms.take(n + 1).drop_last() =~= ms.take(n));
        lemma_items_error_sticks(ms, n + 1);
    } else {
        assert(ms.take(n) =~= ms);
    }
}

/// A part of a message item's `content` array.
#[derive(Debug, Clone)]
pub struct ResponsePart {
    /// The part itself, when it is a plain string.
    pub plain: Option<String>,
    /// Its `type`, when it is an object with a string `type`.
    pub kind: Option<String>,
    /// Its string `text`.
    pub text: Option<String>,
}

/// A message item's `content`.
#[derive(Debug, Clone)]
pub enum ResponseContent {
    Text(String),
    Parts(Vec<ResponsePart>),
    /// Missing or of another kind.
    Other,
}

/// An output item of a Responses reply.
#[derive(Debug, Clone)]
pub struct ResponseItem {
    /// Its string `type`.
    pub kind: Option<String>,
    pub content: ResponseContent,
    /// Its string `name`.
    pub name: Option<String>,
    /// Its `call_id` field: absent (`None`), or present, holding a string
    /// or not.
    pub call_id: Option<Option<String>>,
    /// Its string `id`.
    pub id: Option<String>,
    /// Its `arguments`: the string, or the JSON text of another value.
    pub arguments: Option<String>,
}

/// The parts of a Responses reply the client reads.
#[derive(Debug, Clone)]
pub struct ResponsesReply {
    /// The `output` array, when there is one.
    pub items: Option<Vec<ResponseItem>>,
    /// The string `output_text`.
    pub output_text: Option<String>,
    /// The string `status`.
    pub status: Option<String>,
    pub input_tokens: Option<u64>,
    pub output_tokens: Option<u64>,
    /// The string `model`.
    pub model: Option<String>,
    /// The reply text shortened for error messages.
    pub snippet: String,
}

/// The text of a content part: a plain string, or the text of an
/// `output_text` part.
pub open spec fn part_text(p: ResponsePart) -> Seq<char> {
    match p.plain {
        Some(s) => s@,
        None => if p.kind.is_some() && p.kind.unwrap()@ == "output_text"@ && p.text.is_some() {
            p.text.unwrap()@
        } else {
            Seq::empty()
        },
    }
}

/// The texts of parts, joined.
pub open spec fn parts_text(ps: Seq<ResponsePart>) -> Seq<char>
    decreases ps.len(),
{
    if ps.len() == 0 {
        Seq::empty()
    } else {
        parts_text(ps.drop_last()) + part_text(ps.last())
    }
}

/// An item's kind is `k`.
pub open spec fn item_is(it: ResponseItem, k: Seq<char>) -> bool {
    it.kind.is_some() && it.kind.unwrap()@ == k
}

/// The text of a message item.
pub open spec fn item_text(it: ResponseItem) -> Seq<char> {
    if item_is(it, "message"@) {
        match it.content {
            ResponseContent::Text(s) => s@,
            ResponseContent::Parts(ps) => parts_text(ps@),
            ResponseContent::Other => Seq::empty(),
        }
    } else {
        Seq::empty()
    }
}

/// The call id of a function-call item: its `call_id` when present (empty
/// unless a string), else its `id`.
pub open spec fn item_call_id(it: ResponseItem) -> Seq<char> {
    match it.call_id {
        Some(c) => match c {
            Some(s) => s@,
            None => Seq::empty(),
        },
        None => match it.id {
            Some(s) => s@,
            None => Seq::empty(),
        },
    }
}

/// The tool call of an item: function-call items with a name and a call id
/// (arguments `{}` when missing).
pub open spec fn item_call(it: ResponseItem) -> Option<(Seq<char>, Seq<char>, Seq<char>, Seq<char>)> {
    let name = match it.name {
        Some(s) => s@,
        None => Seq::empty(),
    };
    let id = item_call_id(it);
    if item_is(it, "function_call"@) && name.len() > 0 && id.len() > 0 {
        Some((id, "function"@, name, match it.arguments {
            Some(a) => a@,
            None => "{}"@,
        }))
    } else {
        None
    }
}

/// The message text of the items, joined.
pub open spec fn items_text(its: Seq<ResponseItem>) -> Seq<char>
    decreases its.len(),
{
    if its.len() == 0 {
        Seq::empty()
    } else {
        items_text(its.drop_last()) + item_text(its.last())
    }
}

/// The tool calls of the items, in order.
pub open spec fn items_calls(its: Seq<ResponseItem>) -> Seq<(Seq<char>, Seq<char>, Seq<char>, Seq<char>)>
    decreases its.len(),
{
    if its.len() == 0 {
        Seq::empty()
    } else {
        items_calls(its.drop_last()) + match item_call(its.last()) {
            Some(c) => seq![c],
            None => Seq::empty(),
        }
    }
}

/// The tool calls of a Responses reply are exactly its `function_call`
/// items that have a name and a call id (`call_id`, else `id`), each once,
/// in item order, with type `function` and the arguments (`{}` when
/// missing); an item added at the end adds its call after the others, and
/// the text of the items is their texts joined in order.
pub proof fn lemma_items_calls_in_order(its: Seq<ResponseItem>)
    ensures
        items_calls(its) == its.filter_map(|it: ResponseItem| item_call(it)),
        forall|it: ResponseItem|
            #[trigger] items_calls(its.push(it)) == items_calls(its) + match item_call(it) {
                Some(c) => seq![c],
                None => Seq::empty(),
            },
        forall|it: ResponseItem|
            #[trigger] items_text(its.push(it)) == items_text(its) + item_text(it),
        forall|it: ResponseItem|
            (#[trigger] item_call(it)).is_some() <==> (it.kind.is_some() && it.kind.unwrap()@ == "function_call"@
                && it.name.is_some() && it.name.unwrap()@.len() > 0 && item_call_id(it).len() > 0),
        forall|it: ResponseItem|
            #[trigger] item_call(it) matches Some(c) ==> c == (item_call_id(it), "function"@, it.name.unwrap()@, match it.arguments {
                Some(a) => a@,
                None => "{}"@,
            }),
    decreases its.len(),
{
    if its.len() > 0 {
        lemma_items_calls_in_order(its.drop_last());
    }
    assert forall|it: ResponseItem| #[trigger] items_calls(its.push(it)) == items_calls(its) + match item_call(it) {
        Some(c) => seq![c],
        None => Seq::empty(),
    } by {
        assert(its.push(it).drop_last() =~= its);
    }
    assert forall|it: ResponseItem| #[trigger] items_text(its.push(it)) == items_text(its) + item_text(it) by {
        assert(its.push(it).drop_last() =~= its);
    }
}

/// The reply text: the message items' text, or `output_text` when that is
/// empty.
pub open spec fn responses_text(d: ResponsesReply) -> Seq<char> {
    let t = match d.items {
        Some(v) => items_text(v@),
        None => Seq::empty(),
    };
    if t.len() == 0 && d.output_text.is_some() {
        d.output_text.unwrap()@
    } else {
        t
    }
}

/// The reply's tool calls.
pub open spec fn responses_calls(d: ResponsesReply) -> Seq<(Seq<char>, Seq<char>, Seq<char>, Seq<char>)> {
    match d.items {
        Some(v) => items_calls(v@),
        None => Seq::empty(),
    }
}

fn opt_is(o: &Option<String>, k: &str) -> (r: bool)
    ensures
        r == (o.is_some() && o.unwrap()@ == k@),
{
    match o {
        Some(s) => seq_eq(&chars_of(s.as_str()), &chars_of(k)),
        None => false,
    }
}

fn item_parts(it: &ResponseItem) -> (r: (String, Option<ToolCall>))
    ensures
        r.0@ == item_text(*it),
        match r.1 {
            Some(c) => item_call(*it) == Some(call_view(c)),
            None => item_call(*it).is_none(),
        },
{
    let mut text = String::new();
    if opt_is(&it.kind, "message") {
        match &it.content {
            ResponseContent::Text(s) => push_str(&mut text, s.as_str()),
            ResponseContent::Parts(ps) => {
                let mut j: usize = 0;
                assert(ps@.take(0) =~= Seq::<ResponsePart>::empty());
                while j < ps.len()
                    invariant
                        j <= ps.len(),
                        text@ == parts_text(ps@.take(j as int)),
                    decreases ps.len() - j,
                {
                    let p = &ps[j];
                    assert(ps@.take(j + 1).drop_last() =~= ps@.take(j as int));
                    assert(ps@.take(j + 1).last() == *p);
                    match &p.plain {
                        Some(s) => push_str(&mut text, s.as_str()),
                        None => {
                            if opt_is(&p.kind, "output_text") {
                                match &p.text {
                                    Some(t) => push_str(&mut text, t.as_str()),
                                    None => {},
                                }
                            }
                        },
                    }
                    j = j + 1;
                }
                assert(ps@.take(ps.len() as int) =~= ps@);
            },
            ResponseContent::Other => {},
        }
    }
    let name = match &it.name {
        Some(s) => s.clone(),
        None => String::new(),
    };
    let id = match &it.call_id {
        Some(c) => match c {
            Some(s) => s.clone(),
            None => String::new(),
        },
        None => match &it.id {
            Some(s) => s.clone(),
            None => String::new(),
        },
    };
    if opt_is(&it.kind, "function_call") && !name.as_str().is_empty() && !id.as_str().is_empty() {
        let args = match &it.arguments {
            Some(a) => a.clone(),
            None => owned("{}"),
        };
        (text, Some(ToolCall { id, kind: owned("function"), function: ToolCallFunction { name, arguments: args } }))
    } else {
        (text, None)
    }
}

/// The finish reason: `tool_calls` when there are calls, `length` for an
/// incomplete reply, else `stop`.
pub open spec fn responses_finish(has_calls: bool, status: Option<Seq<char>>) -> Seq<char> {
    if has_calls {
        "tool_calls"@
    } else if status == Some("incomplete"@) {
        "length"@
    } else {
        "stop"@
    }
}

/// A Responses reply with tool calls finishes with `tool_calls`; without,
/// an `incomplete` status gives `length` and anything else `stop`.
pub proof fn lemma_responses_finish_reasons(has_calls: bool, status: Option<Seq<char>>)
    ensures
        has_calls ==> responses_finish(has_calls, status) == "tool_calls"@,
        !has_calls && status == Some("incomplete"@) ==> responses_finish(has_calls, status) == "length"@,
        !has_calls && status != Some("incomplete"@) ==> responses_finish(has_calls, status) == "stop"@,
{
}

/// Reads a Responses reply into a chat reply. A reply with neither text nor
/// tool calls is an error.
pub fn parse_responses_output(data: &ResponsesReply, fallback_model: &str) -> (r: Result<ChatResponse, String>)
    ensures
        ({
            let text = responses_text(*data);
            let calls = responses_calls(*data);
            if text.len() == 0 && calls.len() == 0 {
                r.is_err() && r->Err_0@ == "Responses 响应既无文本也无 tool_calls: "@ + data.snippet@
            } else {
                &&& r.is_ok()
                &&& r->Ok_0.text@ == text
                &&& r->Ok_0.tool_calls@.map_values(|c: ToolCall| call_view(c)) == calls
                &&& r->Ok_0.finish_reason@ == responses_finish(calls.len() > 0, match data.status {
                    Some(s) => Some(s@),
                    None => None,
                })
                &&& r->Ok_0.tokens_in == data.input_tokens.unwrap_or(0)
                &&& r->Ok_0.tokens_out == data.output_tokens.unwrap_or(0)
                &&& r->Ok_0.model@ == match data.model {
                    Some(m) => m@,
                    None => fallback_model@,
                }
            }
        }),
{
    let mut text = String::new();
    let mut calls: Vec<ToolCall> = Vec::new();
    match &data.items {
        Some(its) => {
            let mut i: usize = 0;
            assert(its@.take(0) =~= Seq::<ResponseItem>::empty());
            while i < its.len()
                invariant
                    i <= its.len(),
                    text@ == items_text(its@.take(i as int)),
                    calls@.map_values(|c: ToolCall| call_view(c)) == items_calls(its@.take(i as int)),
                decreases its.len() - i,
            {
                let it = &its[i];
                assert(its@.take(i + 1).drop_last() =~= its@.take(i as int));
                assert(its@.take(i + 1).last() == *it);
                let (t, c) = item_parts(it);
                push_str(&mut text, t.as_str());
                let ghost before = calls@.map_values(|c: ToolCall| call_view(c));
                match c {
                    Some(call) => {
                        let ghost cv = call_view(call);
                        calls.push(call);
                        assert(calls@.map_values(|c: ToolCall| call_view(c)) =~= before + seq![cv]);
                    },
                    None => {
                        assert(calls@.map_values(|c: ToolCall| call_view(c)) =~= before + Seq::empty());
                    },
                }
                i = i + 1;
            }
            assert(its@.take(its.len() as int) =~= its@);
        },
        None => {},
    }
    if text.as_str().is_empty() {
        match &data.output_text {
            Some(s) => {
                text = s.clone();
            },
            None => {},
        }
    }
    if text.as_str().is_empty() && calls.len() == 0 {
        let mut msg = owned("Responses 响应既无文本也无 tool_calls: ");
        push_str(&mut msg, data.snippet.as_str());
        return Err(msg);
    }
    let finish_reason = if calls.len() > 0 {
        owned("tool_calls")
    } else if opt_is(&data.status, "incomplete") {
        owned("length")
    } else {
        owned("stop")
    };
    let model = match &data.model {
        Some(m) => m.clone(),
        None => owned(fallback_model),
    };
    Ok(ChatResponse {
        text,
        tool_calls: calls,
        finish_reason,
        tokens_in: match data.input_tokens {
            Some(n) => n,
            None => 0,
        },
        tokens_out: match data.output_tokens {
            Some(n) => n,
            None => 0,
        },
        model,
    })
}

} // verus!

//! Reading a Chat Completions reply: the answer text (falling back to the
//! reasoning text), the function tool calls, and the errors for replies
//! that cannot be used. The caller decodes the JSON.

use vstd::prelude::*;
use crate::llm::{call_view, ChatResponse, ToolCall, ToolCallFunction};
use crate::text::{chars_of, decimal_seq, decimal_string, owned, push_str, seq_eq, trim, trim_seq};

verus! {

/// A tool call entry of a reply message.
#[derive(Debug, Clone)]
pub struct CompletionToolCall {
    /// Its string `type`.
    pub kind: Option<String>,
    /// It has a `function` field.
    pub has_function: bool,
    /// The function's string `name`.
    pub name: Option<String>,
    /// The function's `arguments`: the string, or the JSON text of another
    /// value.
    pub arguments: Option<String>,
    /// Its string `id`.
    pub id: Option<String>,
}

/// `choices[0].message` of a reply.
#[derive(Debug, Clone)]
pub struct CompletionMessage {
    /// Its string `content`.
    pub content: Option<String>,
    /// Its string `reasoning_content`.
    pub reasoning_content: Option<String>,
    /// Its `tool_calls` array.
    pub tool_calls: Option<Vec<CompletionToolCall>>,
}

/// The parts of a Chat Completions reply the client reads.
#[derive(Debug, Clone)]
pub struct CompletionReply {
    pub message: Option<CompletionMessage>,
    /// The string `choices[0].finish_reason`.
    pub finish_reason: Option<String>,
    pub prompt_tokens: Option<u64>,
    pub completion_tokens: Option<u64>,
    /// The string `model`.
    pub model: Option<String>,
}

/// The tool call of an entry: `function` entries with a function that has
/// a string name (arguments `{}` and id empty when missing).
pub open spec fn entry_call(c: CompletionToolCall) -> Option<(Seq<char>, Seq<char>, Seq<char>, Seq<char>)> {
    if c.kind.is_some() && c.kind.unwrap()@ == "function"@ && c.has_function && c.name.is_some() {
        Some((match c.id {
            Some(i) => i@,
            None => Seq::empty(),
        }, "function"@, c.name.unwrap()@, match c.arguments {
            Some(a) => a@,
            None => "{}"@,
        }))
    } else {
        None
    }
}

/// The tool calls of the entries, in order.
pub open spec fn entry_calls(cs: Seq<CompletionToolCall>) -> Seq<(Seq<char>, Seq<char>, Seq<char>, Seq<char>)>
    decreases cs.len(),
{
    if cs.len() == 0 {
        Seq::empty()
    } else {
        entry_calls(cs.drop_last()) + match entry_call(cs.last()) {
            Some(c) => seq![c],
            None => Seq::empty(),
        }
    }
}

/// The tool calls of a chat-completions reply are exactly its `function`
/// entries that have a function with a string name, each once, in entry
/// order, with their id (empty when missing), type `function`, the name and
/// the arguments (`{}` when missing); an entry added at the end adds its
/// call after the others.
pub proof fn lemma_entry_calls_in_order(cs: Seq<CompletionToolCall>)
    ensures
        entry_calls(cs) == cs.filter_map(|c: CompletionToolCall| entry_call(c)),
        forall|c: CompletionToolCall|
            #[trigger] entry_calls(cs.push(c)) == entry_calls(cs) + match entry_call(c) {
                Some(x) => seq![x],
                None => Seq::empty(),
            },
        forall|c: CompletionToolCall|
            (#[trigger] entry_call(c)).is_some() <==> (c.kind.is_some() && c.kind.unwrap()@ == "function"@
                && c.has_function && c.name.is_some()),
        forall|c: CompletionToolCall|
            #[trigger] entry_call(c) matches Some(x) ==> x == (match c.id {
                Some(i) => i@,
                None => Seq::empty(),
            }, "function"@, c.name.unwrap()@, match c.arguments {
                Some(a) => a@,
                None => "{}"@,
            }),
    decreases cs.len(),
{
    if cs.len() > 0 {
        lemma_entry_calls_in_order(cs.drop_last());
    }
    assert forall|c: CompletionToolCall| #[trigger] entry_calls(cs.push(c)) == entry_calls(cs) + match entry_call(c) {
        Some(x) => seq![x],
        None => Seq::empty(),
    } by {
        assert(cs.push(c).drop_last() =~= cs);
    }
}

/// The tool calls of a reply message.
pub open spec fn message_calls(m: CompletionMessage) -> Seq<(Seq<char>, Seq<char>, Seq<char>, Seq<char>)> {
    match m.tool_calls {
        Some(v) => entry_calls(v@),
        None => Seq::empty(),
    }
}

/// The answer text: `content`, or `reasoning_content` when the content is
/// blank (empty when missing).
pub open spec fn message_text(m: CompletionMessage) -> Seq<char> {
    let c = match m.content {
        Some(s) => s@,
        None => Seq::empty(),
    };
    if trim_seq(c).len() == 0 {
        match m.reasoning_content {
            Some(s) => s@,
            None => Seq::empty(),
        }
    } else {
        c
    }
}

/// The tool calls of a reply message.
pub fn parse_tool_calls_from_message(m: &CompletionMessage) -> (r: Vec<ToolCall>)
    ensures
        r@.map_values(|c: ToolCall| call_view(c)) == message_calls(*m),
{
    let mut out: Vec<ToolCall> = Vec::new();
    match &m.tool_calls {
        None => {
            assert(out@.map_values(|c: ToolCall| call_view(c)) =~= Seq::<(Seq<char>, Seq<char>, Seq<char>, Seq<char>)>::empty());
        },
        Some(cs) => {
            let mut i: usize = 0;
            assert(cs@.take(0) =~= Seq::<CompletionToolCall>::empty());
            while i < cs.len()
                invariant
                    i <= cs.len(),
                    out@.map_values(|c: ToolCall| call_view(c)) == entry_calls(cs@.take(i as int)),
                decreases cs.len() - i,
            {
                let c = &cs[i];
                assert(cs@.take(i + 1).drop_last() =~= cs@.take(i as int));
                assert(cs@.take(i + 1).last() == *c);
                let ghost before = out@.map_values(|c: ToolCall| call_view(c));
                let is_fn = match &c.kind {
                    Some(k) => seq_eq(&chars_of(k.as_str()), &chars_of("function")),
                    None => false,
                };
                if is_fn && c.has_function {
                    match &c.name {
                        Some(name) => {
                            let id = match &c.id {
                                Some(x) => x.clone(),
                                None => String::new(),
                            };
                            let args = match &c.arguments {
                                Some(a) => a.clone(),
                                None => owned("{}"),
                            };
                            let call = ToolCall { id, kind: owned("function"), function: ToolCallFunction { name: name.clone(), arguments: args } };
                            let ghost cv = call_view(call);
                            out.push(call);
                            assert(out@.map_values(|c: ToolCall| call_view(c)) =~= before + seq![cv]);
                        },
                        None => {
                            assert(out@.map_values(|c: ToolCall| call_view(c)) =~= before + Seq::empty());
                        },
                    }
                } else {
                    assert(out@.map_values(|c: ToolCall| call_view(c)) =~= before + Seq::empty());
                }
                i = i + 1;
            }
            assert(cs@.take(cs.len() as int) =~= cs@);
        },
    }
    out
}

/// The error for a failed HTTP status: the code and the start of the body.
pub open spec fn http_error_spec(status: u16, snippet: Seq<char>) -> Seq<char> {
    "LLM HTTP "@ + decimal_seq(status as nat) + ": "@ + snippet
}

/// The error text for a reply with a failing HTTP status.
pub fn http_error(status: u16, snippet: &str) -> (r: String)
    ensures
        r@ == http_error_spec(status, snippet@),
{
    let mut e = owned("LLM HTTP ");
    push_str(&mut e, decimal_string(status as u64).as_str());
    push_str(&mut e, ": ");
    push_str(&mut e, snippet);
    e
}

/// Reads a Chat Completions reply (`None`: the body was not JSON). Errors
/// name the start of the body, `snippet`.
pub fn parse_chat_completion(data: &Option<CompletionReply>, snippet: &str, model: &str) -> (r: Result<ChatResponse, String>)
    ensures
        match data {
            None => r.is_err() && r->Err_0@ == "LLM 返回非 JSON: "@ + snippet@,
            Some(d) => match d.message {
                None => r.is_err() && r->Err_0@ == "LLM 响应缺 choices[0].message: "@ + snippet@,
                Some(m) => if message_text(m).len() == 0 && message_calls(m).len() == 0 {
                    r.is_err() && r->Err_0@ == "LLM 响应既无 content 也无 tool_calls: "@ + snippet@
                } else {
                    &&& r.is_ok()
                    &&& r->Ok_0.text@ == message_text(m)
                    &&& r->Ok_0.tool_calls@.map_values(|c: ToolCall| call_view(c)) == message_calls(m)
                    &&& r->Ok_0.finish_reason@ == match d.finish_reason {
                        Some(f) => f@,
                        None => "stop"@,
                    }
                    &&& r->Ok_0.tokens_in == d.prompt_tokens.unwrap_or(0)
                    &&& r->Ok_0.tokens_out == d.completion_tokens.unwrap_or(0)
                    &&& r->Ok_0.model@ == match d.model {
                        Some(x) => x@,
                        None => model@,
                    }
                },
            },
        },
{
    let d = match data {
        None => {
            let mut e = owned("LLM 返回非 JSON: ");
            push_str(&mut e, snippet);
            return Err(e);
        },
        Some(d) => d,
    };
    let m = match &d.message {
        None => {
            let mut e = owned("LLM 响应缺 choices[0].message: ");
            push_str(&mut e, snippet);
            return Err(e);
        },
        Some(m) => m,
    };
    let content = match &m.content {
        Some(s) => s.clone(),
        None => String::new(),
    };
    let text = if trim(content.as_str()).as_str().is_empty() {
        match &m.reasoning_content {
            Some(s) => s.clone(),
            None => String::new(),
        }
    } else {
        content
    };
    let calls = parse_tool_calls_from_message(m);
    if text.as_str().is_empty() && calls.len() == 0 {
        let mut e = owned("LLM 响应既无 content 也无 tool_calls: ");
        push_str(&mut e, snippet);
        return Err(e);
    }
    let finish_reason = match &d.finish_reason {
        Some(f) => f.clone(),
        None => owned("stop"),
    };
    let model_out = match &d.model {
        Some(x) => x.clone(),
        None => owned(model),
    };
    Ok(ChatResponse {
        text,
        tool_calls: calls,
        finish_reason,
        tokens_in: match d.prompt_tokens {
            Some(n) => n,
            None => 0,
        },
        tokens_out: match d.completion_tokens {
            Some(n) => n,
            None => 0,
        },
        model: model_out,
    })
}

} // verus!

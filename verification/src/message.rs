//! Conversation messages in the form that does not depend on a provider;
//! each provider adapter converts them from and to its own wire format.

use vstd::prelude::*;

use crate::json::{json_text, no_members, Json, JsonView};
use crate::seqs::{group_views, opt_view, views};
use crate::text::{byte_len, copy_of, utf8_len};

verus! {

broadcast use group_views;

/// One entry in the conversation history.
#[derive(Debug, PartialEq)]
pub enum Message {
    System { content: String },
    User { content: String },
    Assistant { content: String, reasoning: Option<String>, tool_calls: Vec<ToolCall> },
    /// Result of a tool execution, keyed to the [`ToolCall`] that asked for
    /// it.
    ToolResult { tool_call_id: String, content: String, is_error: bool },
}

/// A tool call that the model asked for.
#[derive(Debug, PartialEq)]
pub struct ToolCall {
    pub id: String,
    pub name: String,
    /// Raw JSON arguments as produced by the model.
    pub arguments: Json,
}

/// What a [`Message`] stands for.
#[verifier::ext_equal]
pub enum MessageView {
    System { content: Seq<char> },
    User { content: Seq<char> },
    Assistant {
        content: Seq<char>,
        reasoning: Option<Seq<char>>,
        tool_calls: Seq<ToolCallView>,
    },
    ToolResult { tool_call_id: Seq<char>, content: Seq<char>, is_error: bool },
}

/// What a [`ToolCall`] stands for.
#[verifier::ext_equal]
pub struct ToolCallView {
    pub id: Seq<char>,
    pub name: Seq<char>,
    pub arguments: JsonView,
}

impl View for ToolCall {
    type V = ToolCallView;

    open spec fn view(&self) -> ToolCallView {
        ToolCallView { id: self.id@, name: self.name@, arguments: self.arguments@ }
    }
}

impl View for Message {
    type V = MessageView;

    open spec fn view(&self) -> MessageView {
        match self {
            Message::System { content } => MessageView::System { content: content@ },
            Message::User { content } => MessageView::User { content: content@ },
            Message::Assistant { content, reasoning, tool_calls } => MessageView::Assistant {
                content: content@,
                reasoning: opt_view(*reasoning),
                tool_calls: views(tool_calls@),
            },
            Message::ToolResult { tool_call_id, content, is_error } => MessageView::ToolResult {
                tool_call_id: tool_call_id@,
                content: content@,
                is_error: *is_error,
            },
        }
    }
}

impl Clone for ToolCall {
    fn clone(&self) -> (r: Self)
        ensures
            r@ == self@,
    {
        ToolCall {
            id: copy_of(&self.id),
            name: copy_of(&self.name),
            arguments: self.arguments.clone(),
        }
    }
}

/// A copy of the calls.
pub fn copy_calls(calls: &Vec<ToolCall>) -> (r: Vec<ToolCall>)
    ensures
        views(r@) == views(calls@),
{
    let n: usize = calls.len();
    let mut r: Vec<ToolCall> = Vec::new();
    for i in 0..n
        invariant
            n == calls@.len(),
            views(r@) == views(calls@).take(i as int),
    {
        r.push(calls[i].clone());
        assert(views(r@) =~= views(calls@).take(i + 1));
    }
    assert(views(calls@).take(n as int) =~= views(calls@));
    r
}

/// A copy of an optional text.
pub fn copy_opt(o: &Option<String>) -> (r: Option<String>)
    ensures
        opt_view(r) == opt_view(*o),
{
    match o {
        Some(s) => Some(copy_of(s)),
        None => None,
    }
}

impl Clone for Message {
    fn clone(&self) -> (r: Self)
        ensures
            r@ == self@,
    {
        match self {
            Message::System { content } => Message::System { content: copy_of(content) },
            Message::User { content } => Message::User { content: copy_of(content) },
            Message::Assistant { content, reasoning, tool_calls } => Message::Assistant {
                content: copy_of(content),
                reasoning: copy_opt(reasoning),
                tool_calls: copy_calls(tool_calls),
            },
            Message::ToolResult { tool_call_id, content, is_error } => Message::ToolResult {
                tool_call_id: copy_of(tool_call_id),
                content: copy_of(content),
                is_error: *is_error,
            },
        }
    }
}

/// A copy of the messages.
pub fn copy_messages(msgs: &Vec<Message>) -> (r: Vec<Message>)
    ensures
        views(r@) == views(msgs@),
{
    let n: usize = msgs.len();
    let mut r: Vec<Message> = Vec::new();
    for i in 0..n
        invariant
            n == msgs@.len(),
            views(r@) == views(msgs@).take(i as int),
    {
        r.push(msgs[i].clone());
        assert(views(r@) =~= views(msgs@).take(i + 1));
    }
    assert(views(msgs@).take(n as int) =~= views(msgs@));
    r
}

/// A call as a JSON object.
pub open spec fn call_json(c: ToolCallView) -> JsonView {
    no_members().plus("id"@, JsonView::Str(c.id)).plus("name"@, JsonView::Str(c.name)).plus(
        "arguments"@,
        c.arguments,
    )
}

/// The bytes of a call, written as JSON.
pub open spec fn call_bytes(c: ToolCallView) -> nat {
    utf8_len(json_text(call_json(c)))
}

/// The bytes of all calls, written as JSON.
pub open spec fn calls_bytes(calls: Seq<ToolCallView>) -> nat
    decreases calls.len(),
{
    if calls.len() == 0 {
        0
    } else {
        calls_bytes(calls.drop_last()) + call_bytes(calls.last())
    }
}

impl MessageView {
    /// The bytes of the text in this message that the model sees.
    pub open spec fn bytes(self) -> nat {
        match self {
            MessageView::System { content } => utf8_len(content),
            MessageView::User { content } => utf8_len(content),
            MessageView::Assistant { content, reasoning, tool_calls } => utf8_len(content) + (
            match reasoning {
                Some(r) => utf8_len(r),
                None => 0,
            }) + calls_bytes(tool_calls),
            MessageView::ToolResult { tool_call_id, content, .. } => utf8_len(content) + utf8_len(
                tool_call_id,
            ),
        }
    }
}

impl ToolCall {
    /// The bytes of this call, written as JSON.
    fn json_bytes(&self) -> (n: usize)
        ensures
            n == call_bytes(self@),
    {
        let j = Json::object().with("id", Json::string(&self.id)).with(
            "name",
            Json::string(&self.name),
        ).with("arguments", self.arguments.clone());
        byte_len(&j.to_text())
    }
}

/// The bytes of all calls, written as JSON.
fn total_json_bytes(calls: &Vec<ToolCall>) -> (n: u128)
    ensures
        n == calls_bytes(views(calls@)),
        n <= usize::MAX * usize::MAX,
{
    let count: usize = calls.len();
    let mut n: u128 = 0;
    for i in 0..count
        invariant
            count == calls@.len(),
            n == calls_bytes(views(calls@).take(i as int)),
            n <= i * usize::MAX,
    {
        assert(i * usize::MAX + usize::MAX == (i + 1) * usize::MAX) by (nonlinear_arith);
        assert((i + 1) * usize::MAX <= usize::MAX * usize::MAX) by (nonlinear_arith)
            requires
                i + 1 <= usize::MAX,
        ;
        assert(usize::MAX * usize::MAX <= u128::MAX) by (nonlinear_arith)
            requires
                usize::MAX <= 0xffff_ffff_ffff_ffff,
        ;
        assert(views(calls@).take(i + 1).drop_last() =~= views(calls@).take(i as int));
        assert(views(calls@).take(i + 1).last() == calls@[i as int]@);
        n = n + calls[i].json_bytes() as u128;
    }
    assert(count * usize::MAX <= usize::MAX * usize::MAX) by (nonlinear_arith)
        requires
            count <= usize::MAX,
    ;
    assert(views(calls@).take(count as int) =~= views(calls@));
    n
}

impl Message {
    /// A system message.
    pub fn system(content: &str) -> (r: Message)
        ensures
            r@ == (MessageView::System { content: content@ }),
    {
        Message::System { content: copy_of(content) }
    }

    /// A user message.
    pub fn user(content: &str) -> (r: Message)
        ensures
            r@ == (MessageView::User { content: content@ }),
    {
        Message::User { content: copy_of(content) }
    }

    /// The bytes of the text in this message that the model sees, in a type
    /// that holds every such number.
    pub fn total_bytes(&self) -> (n: u128)
        ensures
            n == self@.bytes(),
    {
        match self {
            Message::System { content } => byte_len(content) as u128,
            Message::User { content } => byte_len(content) as u128,
            Message::Assistant { content, reasoning, tool_calls } => {
                let calls: u128 = total_json_bytes(tool_calls);
                assert(usize::MAX * usize::MAX + usize::MAX + usize::MAX <= u128::MAX)
                    by (nonlinear_arith)
                    requires
                        usize::MAX <= 0xffff_ffff_ffff_ffff,
                ;
                let thought: u128 = match reasoning {
                    Some(r) => byte_len(r) as u128,
                    None => 0,
                };
                byte_len(content) as u128 + thought + calls
            },
            Message::ToolResult { tool_call_id, content, .. } => byte_len(content) as u128
                + byte_len(tool_call_id) as u128,
        }
    }

    /// The bytes of the text in this message that the model sees. The token
    /// estimate goes by it; storage does not.
    pub fn content_bytes(&self) -> (n: usize)
        requires
            self@.bytes() <= usize::MAX,
        ensures
            n == self@.bytes(),
    {
        self.total_bytes() as usize
    }

    /// The bytes of the text in this message that the model sees; nothing
    /// where a `usize` cannot hold their number.
    pub fn checked_content_bytes(&self) -> (n: Option<usize>)
        ensures
            match n {
                Some(n) => n == self@.bytes(),
                None => self@.bytes() > usize::MAX,
            },
    {
        if self.total_bytes() <= usize::MAX as u128 {
            Some(self.content_bytes())
        } else {
            None
        }
    }
}

/// Usage that the provider reports for a single completed response.
#[derive(Debug, Clone, Copy, PartialEq, Eq, Structural)]
pub struct Usage {
    pub input_tokens: i64,
    pub output_tokens: i64,
    pub total_tokens: i64,
}

/// No tokens at all.
pub open spec fn no_usage() -> Usage {
    Usage { input_tokens: 0, output_tokens: 0, total_tokens: 0 }
}

impl Default for Usage {
    fn default() -> (r: Self)
        ensures
            r == no_usage(),
    {
        Usage { input_tokens: 0, output_tokens: 0, total_tokens: 0 }
    }
}

/// Every text of a message counts, byte by byte: what is said, what is
/// thought, the calls that are asked for and the id of the call that is
/// answered.
pub proof fn law_every_text_counts(
    content: Seq<char>,
    thought: Seq<char>,
    calls: Seq<ToolCallView>,
    id: Seq<char>,
    is_error: bool,
)
    ensures
        (MessageView::System { content }).bytes() == utf8_len(content),
        (MessageView::User { content }).bytes() == utf8_len(content),
        (MessageView::Assistant { content, reasoning: None, tool_calls: calls }).bytes() == utf8_len(
            content,
        ) + calls_bytes(calls),
        (MessageView::Assistant { content, reasoning: Some(thought), tool_calls: calls }).bytes()
            == utf8_len(content) + utf8_len(thought) + calls_bytes(calls),
        (MessageView::ToolResult { tool_call_id: id, content, is_error }).bytes() == utf8_len(content)
            + utf8_len(id),
        calls.len() > 0 ==> calls_bytes(calls) == calls_bytes(calls.drop_last()) + utf8_len(
            json_text(call_json(calls.last())),
        ),
        calls.len() == 0 ==> calls_bytes(calls) == 0,
{
}

} // verus!

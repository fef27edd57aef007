//! Anthropic Messages adapter: `POST {base_url}/v1/messages`, streamed.
//!
//! - `content_block_delta` with a `text_delta` brings text, with a
//!   `thinking_delta` reasoning
//! - `content_block_start` with a `tool_use` block opens a call; the
//!   `input_json_delta` fragments of its block append to its arguments
//! - `message_start` carries the input usage (tokens read from and written
//!   to the cache count as input), `message_delta` the output count
//! - the results of parallel calls go into one user message

use vstd::prelude::*;

use crate::context::{clamp64, sat_sum};
use crate::json::{group_json, json_of_text, no_members, Json, JsonView};
use crate::message::{Message, MessageView, ToolCall, ToolCallView, Usage};
use crate::openai::{message_of, plus_some, reasoning_of, without_slashes};
use crate::provider::{
    call_arguments,
    endpoint_below,
    endpoint_of,
    frame_value,
    interrupted,
    interruption,
    read_arguments,
    read_frame,
    result_text,
    tool_result_text,
};
use crate::responses::{or_text, CallHead};
use crate::seqs::{group_views, opt_view, views};
use crate::slots::{found, Slots};
use crate::text::{copy_of, join2, join3, some_text, str_eq, text_or_empty, trim_end_char};
use crate::traits::{
    ModelRequest,
    ModelRequestView,
    ProviderEvent,
    ProviderEventView,
    ToolSpec,
    ToolSpecView,
};

verus! {

broadcast use {group_views, group_json};

/// The adapter's address.
#[derive(Debug)]
pub struct AnthropicProvider {
    base_url: String,
}

impl AnthropicProvider {
    pub closed spec fn url(&self) -> Seq<char> {
        self.base_url@
    }

    pub fn new(base_url: &str) -> (r: AnthropicProvider)
        ensures
            r.url() == without_slashes(base_url@),
    {
        AnthropicProvider { base_url: trim_end_char(base_url, '/') }
    }

    /// The name for logs and the user interface.
    pub fn name(&self) -> (r: &str)
        ensures
            r@ == "anthropic-messages"@,
    {
        "anthropic-messages"
    }

    /// The address that requests go to.
    pub fn endpoint(&self) -> (r: String)
        ensures
            r@ == endpoint_of(self.url(), "/messages"@),
    {
        endpoint_below(&self.base_url, "/messages")
    }
}

/// One message on the wire: its role, its blocks, and whether the blocks
/// are tool results.
#[verifier::ext_equal]
pub struct WireTurn {
    pub role: Seq<char>,
    pub results: bool,
    pub blocks: Seq<JsonView>,
}

/// A text block.
pub open spec fn text_block(text: Seq<char>) -> JsonView {
    no_members().plus("type"@, JsonView::Str("text"@)).plus("text"@, JsonView::Str(text))
}

/// A call as a block.
pub open spec fn call_block(c: ToolCallView) -> JsonView {
    no_members().plus("type"@, JsonView::Str("tool_use"@)).plus("id"@, JsonView::Str(c.id)).plus(
        "name"@,
        JsonView::Str(c.name),
    ).plus("input"@, c.arguments)
}

/// A tool result as a block.
pub open spec fn result_block(id: Seq<char>, text: Seq<char>) -> JsonView {
    no_members().plus("type"@, JsonView::Str("tool_result"@)).plus(
        "tool_use_id"@,
        JsonView::Str(id),
    ).plus("content"@, JsonView::Str(text))
}

/// The calls as blocks.
pub open spec fn call_blocks(calls: Seq<ToolCallView>) -> Seq<JsonView> {
    Seq::new(calls.len(), |i: int| call_block(calls[i]))
}

/// The blocks of an assistant message: its text unless empty, and its
/// calls; an empty text where there is neither.
pub open spec fn assistant_blocks(content: Seq<char>, calls: Seq<ToolCallView>) -> Seq<JsonView> {
    let text = if content.len() == 0 {
        Seq::empty()
    } else {
        seq![text_block(content)]
    };
    let blocks = text + call_blocks(calls);
    if blocks.len() == 0 {
        seq![text_block(Seq::empty())]
    } else {
        blocks
    }
}

/// The system text and the messages on the wire, with one more message.
/// System messages are joined by blank lines; a result that follows another
/// result goes into the same user message.
pub open spec fn wire_push(so_far: (Seq<char>, Seq<WireTurn>), m: MessageView) -> (
    Seq<char>,
    Seq<WireTurn>,
) {
    match m {
        MessageView::System { content } => (
            if so_far.0.len() == 0 {
                content
            } else {
                so_far.0 + "\n\n"@ + content
            },
            so_far.1,
        ),
        MessageView::User { content } => (
            so_far.0,
            so_far.1.push(
                WireTurn { role: "user"@, results: false, blocks: seq![text_block(content)] },
            ),
        ),
        MessageView::Assistant { content, tool_calls, .. } => (
            so_far.0,
            so_far.1.push(
                WireTurn {
                    role: "assistant"@,
                    results: false,
                    blocks: assistant_blocks(content, tool_calls),
                },
            ),
        ),
        MessageView::ToolResult { tool_call_id, content, is_error } => {
            let block = result_block(tool_call_id, result_text(content, is_error));
            if so_far.1.len() > 0 && so_far.1.last().results {
                (
                    so_far.0,
                    so_far.1.drop_last().push(
                        WireTurn { blocks: so_far.1.last().blocks.push(block), ..so_far.1.last() },
                    ),
                )
            } else {
                (
                    so_far.0,
                    so_far.1.push(
                        WireTurn { role: "user"@, results: true, blocks: seq![block] },
                    ),
                )
            }
        },
    }
}

/// The system text and the messages on the wire.
pub open spec fn wire(msgs: Seq<MessageView>) -> (Seq<char>, Seq<WireTurn>)
    decreases msgs.len(),
{
    if msgs.len() == 0 {
        (Seq::empty(), Seq::empty())
    } else {
        wire_push(wire(msgs.drop_last()), msgs.last())
    }
}

/// A message on the wire as JSON.
pub open spec fn turn_json(t: WireTurn) -> JsonView {
    no_members().plus("role"@, JsonView::Str(t.role)).plus("content"@, JsonView::Array(t.blocks))
}

/// The messages on the wire as JSON.
pub open spec fn turns_json(turns: Seq<WireTurn>) -> Seq<JsonView> {
    Seq::new(turns.len(), |i: int| turn_json(turns[i]))
}

struct Turn {
    role: &'static str,
    results: bool,
    blocks: Vec<Json>,
}

impl View for Turn {
    type V = WireTurn;

    closed spec fn view(&self) -> WireTurn {
        WireTurn { role: self.role@, results: self.results, blocks: views(self.blocks@) }
    }
}

fn to_text_block(text: &str) -> (r: Json)
    ensures
        r@ == text_block(text@),
{
    Json::object().with("type", Json::string("text")).with("text", Json::string(text))
}

fn to_assistant_blocks(content: &str, calls: &Vec<ToolCall>) -> (r: Vec<Json>)
    ensures
        views(r@) == assistant_blocks(content@, views(calls@)),
{
    let mut r: Vec<Json> = Vec::new();
    if !content.is_empty() {
        r.push(to_text_block(content));
    }
    let ghost before = views(r@);
    let ghost all = call_blocks(views(calls@));
    let n: usize = calls.len();
    assert(before + all.take(0) =~= before);
    for i in 0..n
        invariant
            n == calls@.len(),
            all == call_blocks(views(calls@)),
            views(r@) == before + all.take(i as int),
    {
        let c = &calls[i];
        r.push(
            Json::object().with("type", Json::string("tool_use")).with("id", Json::string(&c.id)).with(
                "name",
                Json::string(&c.name),
            ).with("input", c.arguments.clone()),
        );
        assert(all[i as int] == call_block(c@));
        assert(views(r@) =~= before + all.take(i + 1));
    }
    assert(all.take(n as int) =~= all);
    if r.len() == 0 {
        r.push(to_text_block(""));
        proof {
            reveal_strlit("");
            assert(""@ =~= Seq::empty());
        }
    }
    assert(views(r@) =~= assistant_blocks(content@, views(calls@)));
    r
}

fn push_turn(system: &mut String, turns: &mut Vec<Turn>, m: &Message)
    ensures
        (final(system)@, views(final(turns)@)) == wire_push(
            (old(system)@, views(old(turns)@)),
            m@,
        ),
{
    let ghost before = views(turns@);
    match m {
        Message::System { content } => {
            if system.as_str().is_empty() {
                *system = copy_of(content);
            } else {
                *system = join3(system, "\n\n", content);
            }
        },
        Message::User { content } => {
            let mut blocks: Vec<Json> = Vec::new();
            blocks.push(to_text_block(content));
            assert(views(blocks@) =~= seq![text_block(content@)]);
            turns.push(Turn { role: "user", results: false, blocks });
        },
        Message::Assistant { content, tool_calls, .. } => {
            let blocks = to_assistant_blocks(content, tool_calls);
            turns.push(Turn { role: "assistant", results: false, blocks });
        },
        Message::ToolResult { tool_call_id, content, is_error } => {
            let block = Json::object().with("type", Json::string("tool_result")).with(
                "tool_use_id",
                Json::string(tool_call_id),
            ).with("content", Json::Str(tool_result_text(content, *is_error)));
            let n: usize = turns.len();
            let ghost items = turns@;
            let merge: bool = n > 0 && turns[n - 1].results;
            assert(n > 0 ==> before.last() == items[n - 1]@);
            if merge {
                match turns.pop() {
                    Some(t) => {
                        let mut t = t;
                        assert(views(turns@) =~= before.drop_last());
                        t.blocks.push(block);
                        turns.push(t);
                    },
                    None => {},
                }
            } else {
                let mut blocks: Vec<Json> = Vec::new();
                blocks.push(block);
                assert(views(blocks@) =~= seq![block@]);
                turns.push(Turn { role: "user", results: true, blocks });
            }
        },
    }
}

fn copy_items(items: &Vec<Json>) -> (r: Vec<Json>)
    ensures
        views(r@) == views(items@),
{
    let n: usize = items.len();
    let mut r: Vec<Json> = Vec::new();
    for i in 0..n
        invariant
            n == items@.len(),
            views(r@) == views(items@).take(i as int),
    {
        r.push(items[i].clone());
        assert(views(r@) =~= views(items@).take(i + 1));
    }
    assert(views(items@).take(n as int) =~= views(items@));
    r
}

/// Converts messages to the wire format: the system text, and the messages.
pub fn to_wire(msgs: &Vec<Message>) -> (r: (String, Vec<Json>))
    ensures
        r.0@ == wire(views(msgs@)).0,
        views(r.1@) == turns_json(wire(views(msgs@)).1),
{
    let n: usize = msgs.len();
    let mut system = String::new();
    let mut turns: Vec<Turn> = Vec::new();
    assert(system@ =~= Seq::empty());
    for i in 0..n
        invariant
            n == msgs@.len(),
            (system@, views(turns@)) == wire(views(msgs@).take(i as int)),
    {
        push_turn(&mut system, &mut turns, &msgs[i]);
        assert(views(msgs@).take(i + 1).drop_last() =~= views(msgs@).take(i as int));
    }
    assert(views(msgs@).take(n as int) =~= views(msgs@));
    let count: usize = turns.len();
    let ghost all = turns_json(views(turns@));
    let mut out: Vec<Json> = Vec::new();
    for i in 0..count
        invariant
            count == turns@.len(),
            all == turns_json(views(turns@)),
            views(out@) == all.take(i as int),
    {
        let t = &turns[i];
        out.push(
            Json::object().with("role", Json::string(t.role)).with(
                "content",
                Json::Array(copy_items(&t.blocks)),
            ),
        );
        assert(all[i as int] == turn_json(t@));
        assert(views(out@) =~= all.take(i + 1));
    }
    assert(all.take(count as int) =~= all);
    (system, out)
}

/// A tool on the wire.
pub open spec fn wire_tool(s: ToolSpecView) -> JsonView {
    no_members().plus("name"@, JsonView::Str(s.name)).plus(
        "description"@,
        JsonView::Str(s.description),
    ).plus("input_schema"@, s.parameters)
}

/// The tools on the wire.
pub open spec fn wire_tools(specs: Seq<ToolSpecView>) -> Seq<JsonView> {
    Seq::new(specs.len(), |i: int| wire_tool(specs[i]))
}

/// Converts tool specs to the wire format.
pub fn to_wire_tools(specs: &Vec<ToolSpec>) -> (r: Vec<Json>)
    ensures
        views(r@) == wire_tools(views(specs@)),
{
    let n: usize = specs.len();
    let mut r: Vec<Json> = Vec::new();
    for i in 0..n
        invariant
            n == specs@.len(),
            views(r@) == wire_tools(views(specs@)).take(i as int),
    {
        let s = &specs[i];
        r.push(
            Json::object().with("name", Json::string(&s.name)).with(
                "description",
                Json::string(&s.description),
            ).with("input_schema", s.parameters.clone()),
        );
        assert(views(r@) =~= wire_tools(views(specs@)).take(i + 1));
    }
    assert(wire_tools(views(specs@)).take(n as int) =~= wire_tools(views(specs@)));
    r
}

/// The body of a request.
pub open spec fn body_of(req: ModelRequestView) -> JsonView {
    let (system, turns) = wire(req.messages);
    let base = no_members().plus("model"@, JsonView::Str(req.model)).plus(
        "messages"@,
        JsonView::Array(turns_json(turns)),
    ).plus("stream"@, JsonView::Bool(true)).plus(
        "max_tokens"@,
        JsonView::PosInt(req.max_tokens as u64),
    );
    let ruled = if system.len() == 0 {
        base
    } else {
        base.plus("system"@, JsonView::Str(system))
    };
    let warm = plus_some(ruled, "temperature"@, req.temperature);
    if req.tools.len() == 0 {
        warm
    } else {
        warm.plus("tools"@, JsonView::Array(wire_tools(req.tools)))
    }
}

/// The body of a request.
pub fn request_body(req: &ModelRequest) -> (r: Json)
    ensures
        r@ == body_of(req@),
{
    let (system, messages) = to_wire(&req.messages);
    let body = Json::object().with("model", Json::string(&req.model)).with(
        "messages",
        Json::Array(messages),
    ).with("stream", Json::Bool(true)).with("max_tokens", Json::PosInt(req.max_tokens as u64));
    let body = if system.as_str().is_empty() {
        body
    } else {
        body.with("system", Json::Str(system))
    };
    let body = match &req.temperature {
        Some(t) => body.with("temperature", t.clone()),
        None => body,
    };
    if req.tools.len() == 0 {
        body
    } else {
        body.with("tools", Json::Array(to_wire_tools(&req.tools)))
    }
}

/// What the frames of one response have come to.
#[derive(Debug)]
pub struct StreamState {
    pub calls: Vec<CallHead>,
    /// The arguments of the calls so far.
    pub args: Vec<String>,
    /// Which call an open block belongs to.
    pub block_to_call: Slots<usize>,
    pub usage_in: i64,
    pub usage_out: i64,
    pub error: Option<String>,
    /// The transport broke.
    pub transport_error: Option<String>,
}

/// What a [`StreamState`] stands for.
#[verifier::ext_equal]
pub struct StateView {
    pub calls: Seq<(Seq<char>, Seq<char>)>,
    pub args: Seq<Seq<char>>,
    pub blocks: Map<u64, usize>,
    pub usage_in: i64,
    pub usage_out: i64,
    pub error: Option<Seq<char>>,
    pub transport_error: Option<Seq<char>>,
}

impl View for StreamState {
    type V = StateView;

    open spec fn view(&self) -> StateView {
        StateView {
            calls: views(self.calls@),
            args: views(self.args@),
            blocks: self.block_to_call@,
            usage_in: self.usage_in,
            usage_out: self.usage_out,
            error: opt_view(self.error),
            transport_error: opt_view(self.transport_error),
        }
    }
}

/// The input tokens that a message starts with: the new ones, those written
/// to the cache and those read from it.
pub open spec fn input_tokens(v: JsonView) -> i64 {
    match v.member2("message"@, "usage"@) {
        Some(u) => clamp64(
            clamp64(u.signed_at("input_tokens"@) + u.signed_at("cache_creation_input_tokens"@))
                + u.signed_at("cache_read_input_tokens"@),
        ),
        None => 0,
    }
}

/// The text of a member of the delta, where it is a text and not empty.
pub open spec fn delta_text(v: JsonView, key: Seq<char>) -> Option<Seq<char>> {
    match v.text_at2("delta"@, key) {
        Some(s) => if s.len() > 0 {
            Some(s)
        } else {
            None
        },
        None => None,
    }
}

impl StateView {
    /// Every call has its arguments, and every block belongs to a call.
    pub open spec fn well_formed(self) -> bool {
        &&& self.calls.len() == self.args.len()
        &&& forall|k: u64|
            (#[trigger] found(self.blocks, k)) is Some ==> found(self.blocks, k)->0
                < self.calls.len()
    }

    /// The state before anything has arrived.
    pub open spec fn blank() -> StateView {
        StateView {
            calls: Seq::empty(),
            args: Seq::empty(),
            blocks: Map::empty(),
            usage_in: 0,
            usage_out: 0,
            error: None,
            transport_error: None,
        }
    }

    /// A block is opened; one that uses a tool opens a call.
    pub open spec fn opens(self, v: JsonView) -> StateView {
        match v.member("content_block"@) {
            Some(b) => if b.text_at("type"@) == Some("tool_use"@) {
                StateView {
                    calls: self.calls.push(
                        (text_or_empty(b.text_at("id"@)), text_or_empty(b.text_at("name"@))),
                    ),
                    args: self.args.push(Seq::empty()),
                    blocks: self.blocks.insert(
                        v.unsigned_at("index"@),
                        self.calls.len() as usize,
                    ),
                    ..self
                }
            } else {
                self
            },
            None => self,
        }
    }

    /// Arguments are appended to the call that the block belongs to.
    pub open spec fn appends(self, v: JsonView) -> StateView {
        match (
            v.text_at2("delta"@, "partial_json"@),
            found(self.blocks, v.unsigned_at("index"@)),
        ) {
            (Some(p), Some(slot)) => StateView {
                args: self.args.update(slot as int, self.args[slot as int] + p),
                ..self
            },
            _ => self,
        }
    }

    /// What a delta makes of the state, and the events that it brings.
    pub open spec fn delta(self, v: JsonView) -> (StateView, Seq<ProviderEventView>) {
        let kind = v.text_at2("delta"@, "type"@);
        if kind == Some("text_delta"@) {
            (self, message_of(delta_text(v, "text"@)))
        } else if kind == Some("thinking_delta"@) {
            (self, reasoning_of(delta_text(v, "thinking"@)))
        } else if kind == Some("input_json_delta"@) {
            (self.appends(v), Seq::empty())
        } else {
            (self, Seq::empty())
        }
    }

    /// The output tokens after a `message_delta`.
    pub open spec fn output_tokens(self, v: JsonView) -> i64 {
        match v.member2("usage"@, "output_tokens"@) {
            Some(n) => match n.signed() {
                Some(n) => n,
                None => self.usage_out,
            },
            None => self.usage_out,
        }
    }

    /// What a frame makes of the state, and the events that it brings.
    pub open spec fn frame(self, v: JsonView) -> (StateView, Seq<ProviderEventView>) {
        let ty = text_or_empty(v.text_at("type"@));
        let nothing = Seq::<ProviderEventView>::empty();
        if ty == "error"@ {
            (
                StateView {
                    error: Some(
                        or_text(v.text_at2("error"@, "message"@), "messages stream error"@),
                    ),
                    ..self
                },
                nothing,
            )
        } else if ty == "message_start"@ {
            (StateView { usage_in: input_tokens(v), ..self }, nothing)
        } else if ty == "content_block_start"@ {
            (self.opens(v), nothing)
        } else if ty == "content_block_delta"@ {
            self.delta(v)
        } else if ty == "message_delta"@ {
            (StateView { usage_out: self.output_tokens(v), ..self }, nothing)
        } else {
            (self, nothing)
        }
    }

    /// The first `n` calls, without those that have no id.
    pub open spec fn calls_up_to(self, n: nat) -> Seq<ToolCallView>
        decreases n,
    {
        if n == 0 {
            Seq::empty()
        } else {
            let head = self.calls_up_to((n - 1) as nat);
            let c = self.calls[n - 1];
            let args = self.args[n - 1];
            if c.0.len() > 0 {
                head.push(
                    ToolCallView {
                        id: c.0,
                        name: c.1,
                        arguments: call_arguments(args, json_of_text(args)),
                    },
                )
            } else {
                head
            }
        }
    }

    /// The usage of the response, where any was reported.
    pub open spec fn usage(self) -> Option<Usage> {
        if self.usage_in > 0 || self.usage_out > 0 {
            Some(
                Usage {
                    input_tokens: self.usage_in,
                    output_tokens: self.usage_out,
                    total_tokens: clamp64(self.usage_in + self.usage_out),
                },
            )
        } else {
            None
        }
    }

    /// The events at the end of the stream.
    pub open spec fn final_events(self) -> Seq<ProviderEventView> {
        let calls = self.calls_up_to(self.calls.len());
        let one = if calls.len() > 0 {
            seq![ProviderEventView::ToolCalls { calls }]
        } else {
            Seq::empty()
        };
        let two = match self.usage() {
            Some(usage) => one.push(ProviderEventView::Usage { usage }),
            None => one,
        };
        let three = match self.error {
            Some(message) => two.push(ProviderEventView::ProviderError { message }),
            None => two,
        };
        let four = match self.transport_error {
            Some(e) => three.push(interrupted(e)),
            None => three,
        };
        four.push(ProviderEventView::Done)
    }
}

fn filled_delta(v: &Json, key: &str) -> (r: Option<String>)
    ensures
        opt_view(r) == delta_text(v@, key@),
{
    match v.str_at2("delta", key) {
        Some(s) => if s.is_empty() {
            None
        } else {
            Some(copy_of(s))
        },
        None => None,
    }
}

impl StreamState {
    /// The state before anything has arrived.
    pub fn new() -> (r: StreamState)
        ensures
            r@ == StateView::blank(),
            r@.well_formed(),
    {
        StreamState {
            calls: Vec::new(),
            args: Vec::new(),
            block_to_call: Slots::new(),
            usage_in: 0,
            usage_out: 0,
            error: None,
            transport_error: None,
        }
    }

    fn open_block(&mut self, v: &Json)
        requires
            old(self)@.well_formed(),
        ensures
            final(self)@ == old(self)@.opens(v@),
            final(self)@.well_formed(),
    {
        let ghost before = self@;
        if let Some(b) = v.get("content_block") {
            let is_call: bool = match b.str_at("type") {
                Some(t) => str_eq(t, "tool_use"),
                None => false,
            };
            if is_call {
                let slot: usize = self.calls.len();
                self.calls.push(
                    CallHead { id: some_text(b.str_at("id")), name: some_text(b.str_at("name")) },
                );
                let nothing = String::new();
                assert(nothing@ =~= Seq::empty());
                self.args.push(nothing);
                let index: u64 = v.u64_at("index");
                self.block_to_call.set(index, slot);
                assert forall|k: u64| (#[trigger] found(self@.blocks, k)) is Some implies found(
                    self@.blocks,
                    k,
                )->0 < self@.calls.len() by {
                    assert(found(before.blocks, k) is Some ==> found(before.blocks, k)->0
                        < before.calls.len());
                }
            }
        }
    }

    fn append_args(&mut self, v: &Json)
        requires
            old(self)@.well_formed(),
        ensures
            final(self)@ == old(self)@.appends(v@),
            final(self)@.well_formed(),
    {
        let index: u64 = v.u64_at("index");
        if let Some(p) = v.str_at2("delta", "partial_json") {
            if let Some(slot) = self.block_to_call.get(index) {
                let slot: usize = *slot;
                assert(found(self@.blocks, index) is Some);
                let longer = join2(&self.args[slot], p);
                let ghost before = views(self.args@);
                self.args.set(slot, longer);
                assert(views(self.args@) =~= before.update(slot as int, longer@));
            }
        }
    }

    fn on_delta(&mut self, v: &Json) -> (out: Vec<ProviderEvent>)
        requires
            old(self)@.well_formed(),
        ensures
            (final(self)@, views(out@)) == old(self)@.delta(v@),
            final(self)@.well_formed(),
    {
        let mut out: Vec<ProviderEvent> = Vec::new();
        assert(views(out@) =~= Seq::empty());
        let kind = match v.str_at2("delta", "type") {
            Some(k) => k,
            None => {
                return out;
            },
        };
        if str_eq(kind, "text_delta") {
            if let Some(t) = filled_delta(v, "text") {
                out.push(ProviderEvent::MessageDelta { delta: t });
            }
            assert(views(out@) =~= message_of(delta_text(v@, "text"@)));
        } else if str_eq(kind, "thinking_delta") {
            if let Some(t) = filled_delta(v, "thinking") {
                out.push(ProviderEvent::ReasoningDelta { delta: t });
            }
            assert(views(out@) =~= reasoning_of(delta_text(v@, "thinking"@)));
        } else if str_eq(kind, "input_json_delta") {
            self.append_args(v);
        }
        out
    }

    /// Takes the value of one frame and returns the events to pass on.
    pub fn take(&mut self, v: &Json) -> (out: Vec<ProviderEvent>)
        requires
            old(self)@.well_formed(),
        ensures
            (final(self)@, views(out@)) == old(self)@.frame(v@),
            final(self)@.well_formed(),
    {
        let out: Vec<ProviderEvent> = Vec::new();
        assert(views(out@) =~= Seq::empty());
        let ty = some_text(v.str_at("type"));
        if str_eq(&ty, "error") {
            self.error = Some(
                match v.str_at2("error", "message") {
                    Some(m) => copy_of(m),
                    None => copy_of("messages stream error"),
                },
            );
        } else if str_eq(&ty, "message_start") {
            self.usage_in = match v.get2("message", "usage") {
                Some(u) => sat_sum(
                    sat_sum(u.i64_at("input_tokens"), u.i64_at("cache_creation_input_tokens")),
                    u.i64_at("cache_read_input_tokens"),
                ),
                None => 0,
            };
        } else if str_eq(&ty, "content_block_start") {
            self.open_block(v);
        } else if str_eq(&ty, "content_block_delta") {
            return self.on_delta(v);
        } else if str_eq(&ty, "message_delta") {
            if let Some(n) = v.get2("usage", "output_tokens") {
                if let Some(n) = n.as_i64() {
                    self.usage_out = n;
                }
            }
        }
        out
    }

    /// The transport broke.
    pub fn on_transport_error(&mut self, err: &str)
        requires
            old(self)@.well_formed(),
        ensures
            final(self)@ == (StateView { transport_error: Some(err@), ..old(self)@ }),
            final(self)@.well_formed(),
    {
        self.transport_error = Some(copy_of(err));
    }

    /// The events at the end of the stream.
    pub fn finalize(&self) -> (out: Vec<ProviderEvent>)
        requires
            self@.well_formed(),
        ensures
            views(out@) == self@.final_events(),
    {
        let n: usize = self.calls.len();
        let mut calls: Vec<ToolCall> = Vec::new();
        for i in 0..n
            invariant
                n == self@.calls.len(),
                n == self.calls@.len(),
                n == self.args@.len(),
                views(calls@) == self@.calls_up_to(i as nat),
        {
            let head = &self.calls[i];
            if !head.id.as_str().is_empty() {
                calls.push(
                    ToolCall {
                        id: copy_of(&head.id),
                        name: copy_of(&head.name),
                        arguments: read_arguments(&self.args[i]),
                    },
                );
            }
        }
        let mut out: Vec<ProviderEvent> = Vec::new();
        if calls.len() > 0 {
            out.push(ProviderEvent::ToolCalls { calls });
        }
        if self.usage_in > 0 || self.usage_out > 0 {
            out.push(
                ProviderEvent::Usage {
                    usage: Usage {
                        input_tokens: self.usage_in,
                        output_tokens: self.usage_out,
                        total_tokens: sat_sum(self.usage_in, self.usage_out),
                    },
                },
            );
        }
        if let Some(e) = &self.error {
            out.push(ProviderEvent::ProviderError { message: copy_of(e) });
        }
        if let Some(e) = &self.transport_error {
            out.push(interruption(e));
        }
        out.push(ProviderEvent::Done);
        assert(views(out@) =~= self@.final_events());
        out
    }
}

/// What a frame makes of the state, and the events that it brings; a frame
/// that is blank or not JSON changes nothing.
pub open spec fn after_frame(st: StateView, value: Option<JsonView>) -> (
    StateView,
    Seq<ProviderEventView>,
) {
    match value {
        Some(v) => st.frame(v),
        None => (st, Seq::empty()),
    }
}

/// Handles one frame of the stream: changes the state and returns the
/// events to pass on.
pub fn handle_frame(data: &str, st: &mut StreamState) -> (out: Vec<ProviderEvent>)
    requires
        old(st)@.well_formed(),
    ensures
        (final(st)@, views(out@)) == after_frame(old(st)@, frame_value(data@)),
        final(st)@.well_formed(),
{
    match read_frame(data) {
        Some(v) => st.take(&v),
        None => {
            let out: Vec<ProviderEvent> = Vec::new();
            assert(views(out@) =~= Seq::empty());
            out
        },
    }
}

/// The results of parallel calls go into one user message: between two
/// messages of results there is always another message.
pub proof fn law_results_are_merged(msgs: Seq<MessageView>, i: int)
    requires
        0 < i < wire(msgs).1.len(),
        wire(msgs).1[i].results,
    ensures
        !wire(msgs).1[i - 1].results,
    decreases msgs.len(),
{
    if msgs.len() > 0 {
        let before = wire(msgs.drop_last()).1;
        if i < before.len() {
            if before[i].results {
                law_results_are_merged(msgs.drop_last(), i);
            }
        }
    }
}

/// The stream always ends with `Done`, and a broken transport is always
/// reported right before it.
pub proof fn law_broken_transport_is_reported(st: StateView)
    ensures
        st.final_events().last() == ProviderEventView::Done,
        st.transport_error is Some ==> st.final_events()[st.final_events().len() - 2]
            == interrupted(st.transport_error->0),
{
}

/// A frame that is blank or not JSON changes nothing; any other does what its
/// value does.
pub proof fn law_only_readable_frames_count(st: StateView, v: JsonView)
    ensures
        after_frame(st, None).0 == st,
        after_frame(st, None).1.len() == 0,
        after_frame(st, Some(v)) == st.frame(v),
{
}

} // verus!

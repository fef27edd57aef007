//! OpenAI Responses adapter: `POST {base_url}/v1/responses`, streamed.
//!
//! - `response.output_text.delta` brings text
//! - `response.output_item.added` with a `function_call` item opens a call
//!   under its `output_index`; `response.function_call_arguments.delta`
//!   appends to its arguments, `response.function_call_arguments.done` gives
//!   them whole
//! - `response.completed` carries usage; `response.failed` and `error`
//!   frames carry errors
//! - some gateways append an untyped `{"error": ...}` frame; it counts only
//!   if nothing else was received

use vstd::prelude::*;

use crate::json::{group_json, json_of_text, json_text, no_members, Json, JsonView};
use crate::message::{Message, MessageView, ToolCall, ToolCallView, Usage};
use crate::openai::{error_member, filled, message_of, plus_some, reasoning_of};
use crate::openai::without_slashes;
use crate::provider::{
    call_arguments,
    endpoint_below,
    endpoint_of,
    first_of,
    frame_value,
    interrupted,
    interruption,
    read_arguments,
    read_frame,
    result_text,
    tool_result_text,
};
use crate::seqs::{group_views, opt_view, views};
use crate::slots::{found, in_order, Slots};
use crate::text::{copy_of, join2, some_text, str_eq, text_or_empty, trim_end_char};
use crate::traits::{
    ModelRequest,
    ModelRequestView,
    ProviderEvent,
    ProviderEventView,
    ToolSpec,
    ToolSpecView,
};

verus! {

broadcast use {group_views, group_json};

/// The adapter's address.
#[derive(Debug)]
pub struct ResponsesProvider {
    base_url: String,
}

impl ResponsesProvider {
    pub closed spec fn url(&self) -> Seq<char> {
        self.base_url@
    }

    pub fn new(base_url: &str) -> (r: ResponsesProvider)
        ensures
            r.url() == without_slashes(base_url@),
    {
        ResponsesProvider { base_url: trim_end_char(base_url, '/') }
    }

    /// The name for logs and the user interface.
    pub fn name(&self) -> (r: &str)
        ensures
            r@ == "openai-responses"@,
    {
        "openai-responses"
    }

    /// The address that requests go to.
    pub fn endpoint(&self) -> (r: String)
        ensures
            r@ == endpoint_of(self.url(), "/responses"@),
    {
        endpoint_below(&self.base_url, "/responses")
    }
}

/// A message item with one text block.
pub open spec fn text_item(role: Seq<char>, kind: Seq<char>, text: Seq<char>) -> JsonView {
    no_members().plus("role"@, JsonView::Str(role)).plus(
        "content"@,
        JsonView::Array(
            seq![
                no_members().plus("type"@, JsonView::Str(kind)).plus("text"@, JsonView::Str(text)),
            ],
        ),
    )
}

/// A call as an input item.
pub open spec fn call_item(c: ToolCallView) -> JsonView {
    no_members().plus("type"@, JsonView::Str("function_call"@)).plus(
        "call_id"@,
        JsonView::Str(c.id),
    ).plus("name"@, JsonView::Str(c.name)).plus(
        "arguments"@,
        JsonView::Str(json_text(c.arguments)),
    )
}

/// The calls as input items.
pub open spec fn call_items(calls: Seq<ToolCallView>) -> Seq<JsonView> {
    Seq::new(calls.len(), |i: int| call_item(calls[i]))
}

/// The input items of one message. System text is an item of the developer
/// role, so that its place in the transcript is kept.
pub open spec fn message_items(m: MessageView) -> Seq<JsonView> {
    match m {
        MessageView::System { content } => seq![
            text_item("developer"@, "input_text"@, content),
        ],
        MessageView::User { content } => seq![text_item("user"@, "input_text"@, content)],
        MessageView::Assistant { content, tool_calls, .. } => {
            let text = if content.len() == 0 {
                Seq::empty()
            } else {
                seq![text_item("assistant"@, "output_text"@, content)]
            };
            text + call_items(tool_calls)
        },
        MessageView::ToolResult { tool_call_id, content, is_error } => seq![
            no_members().plus("type"@, JsonView::Str("function_call_output"@)).plus(
                "call_id"@,
                JsonView::Str(tool_call_id),
            ).plus("output"@, JsonView::Str(result_text(content, is_error))),
        ],
    }
}

/// The input items of the messages, in order.
pub open spec fn wire_input(msgs: Seq<MessageView>) -> Seq<JsonView>
    decreases msgs.len(),
{
    if msgs.len() == 0 {
        Seq::empty()
    } else {
        wire_input(msgs.drop_last()) + message_items(msgs.last())
    }
}

/// A tool on the wire.
pub open spec fn wire_tool(s: ToolSpecView) -> JsonView {
    no_members().plus("type"@, JsonView::Str("function"@)).plus("name"@, JsonView::Str(s.name)).plus(
        "description"@,
        JsonView::Str(s.description),
    ).plus("parameters"@, s.parameters)
}

/// The tools on the wire.
pub open spec fn wire_tools(specs: Seq<ToolSpecView>) -> Seq<JsonView> {
    Seq::new(specs.len(), |i: int| wire_tool(specs[i]))
}

fn to_text_item(role: &str, kind: &str, text: &str) -> (r: Json)
    ensures
        r@ == text_item(role@, kind@, text@),
{
    let block = Json::object().with("type", Json::string(kind)).with("text", Json::string(text));
    Json::object().with("role", Json::string(role)).with("content", Json::array1(block))
}

fn push_call_items(calls: &Vec<ToolCall>, out: &mut Vec<Json>)
    ensures
        views(final(out)@) == views(old(out)@) + call_items(views(calls@)),
{
    let ghost before = views(out@);
    let ghost all = call_items(views(calls@));
    let n: usize = calls.len();
    assert(before + all.take(0) =~= before);
    for i in 0..n
        invariant
            n == calls@.len(),
            all == call_items(views(calls@)),
            views(out@) == before + all.take(i as int),
    {
        let c = &calls[i];
        out.push(
            Json::object().with("type", Json::string("function_call")).with(
                "call_id",
                Json::string(&c.id),
            ).with("name", Json::string(&c.name)).with(
                "arguments",
                Json::Str(c.arguments.to_text()),
            ),
        );
        assert(all[i as int] == call_item(c@));
        assert(views(out@) =~= before + all.take(i + 1));
    }
    assert(all.take(n as int) =~= all);
}

fn push_message_items(m: &Message, out: &mut Vec<Json>)
    ensures
        views(final(out)@) == views(old(out)@) + message_items(m@),
{
    let ghost before = views(out@);
    match m {
        Message::System { content } => {
            out.push(to_text_item("developer", "input_text", content));
            assert(views(out@) =~= before + message_items(m@));
        },
        Message::User { content } => {
            out.push(to_text_item("user", "input_text", content));
            assert(views(out@) =~= before + message_items(m@));
        },
        Message::Assistant { content, tool_calls, .. } => {
            if !content.as_str().is_empty() {
                out.push(to_text_item("assistant", "output_text", content));
            }
            push_call_items(tool_calls, out);
            assert(views(out@) =~= before + message_items(m@));
        },
        Message::ToolResult { tool_call_id, content, is_error } => {
            out.push(
                Json::object().with("type", Json::string("function_call_output")).with(
                    "call_id",
                    Json::string(tool_call_id),
                ).with("output", Json::Str(tool_result_text(content, *is_error))),
            );
            assert(views(out@) =~= before + message_items(m@));
        },
    }
}

/// Converts messages to the `input` array of a request.
pub fn to_wire_input(msgs: &Vec<Message>) -> (r: Vec<Json>)
    ensures
        views(r@) == wire_input(views(msgs@)),
{
    let n: usize = msgs.len();
    let mut r: Vec<Json> = Vec::new();
    for i in 0..n
        invariant
            n == msgs@.len(),
            views(r@) == wire_input(views(msgs@).take(i as int)),
    {
        push_message_items(&msgs[i], &mut r);
        assert(views(msgs@).take(i + 1).drop_last() =~= views(msgs@).take(i as int));
    }
    assert(views(msgs@).take(n as int) =~= views(msgs@));
    r
}

/// Converts tool specs to the wire format.
pub fn to_wire_tools(specs: &Vec<ToolSpec>) -> (r: Vec<Json>)
    ensures
        views(r@) == wire_tools(views(specs@)),
{
    let n: usize = specs.len();
    let mut r: Vec<Json> = Vec::new();
    for i in 0..n
        invariant
            n == specs@.len(),
            views(r@) == wire_tools(views(specs@)).take(i as int),
    {
        let s = &specs[i];
        r.push(
            Json::object().with("type", Json::string("function")).with(
                "name",
                Json::string(&s.name),
            ).with("description", Json::string(&s.description)).with(
                "parameters",
                s.parameters.clone(),
            ),
        );
        assert(views(r@) =~= wire_tools(views(specs@)).take(i + 1));
    }
    assert(wire_tools(views(specs@)).take(n as int) =~= wire_tools(views(specs@)));
    r
}

/// The body of a request.
pub open spec fn body_of(req: ModelRequestView) -> JsonView {
    let base = no_members().plus("model"@, JsonView::Str(req.model)).plus(
        "input"@,
        JsonView::Array(wire_input(req.messages)),
    ).plus("stream"@, JsonView::Bool(true)).plus(
        "max_output_tokens"@,
        JsonView::PosInt(req.max_tokens as u64),
    );
    let warm = plus_some(base, "temperature"@, req.temperature);
    if req.tools.len() == 0 {
        warm
    } else {
        warm.plus("tools"@, JsonView::Array(wire_tools(req.tools)))
    }
}

/// The body of a request.
pub fn request_body(req: &ModelRequest) -> (r: Json)
    ensures
        r@ == body_of(req@),
{
    let body = Json::object().with("model", Json::string(&req.model)).with(
        "input",
        Json::Array(to_wire_input(&req.messages)),
    ).with("stream", Json::Bool(true)).with(
        "max_output_tokens",
        Json::PosInt(req.max_tokens as u64),
    );
    let body = match &req.temperature {
        Some(t) => body.with("temperature", t.clone()),
        None => body,
    };
    if req.tools.len() == 0 {
        body
    } else {
        body.with("tools", Json::Array(to_wire_tools(&req.tools)))
    }
}

/// Id and name of a call that was opened.
#[derive(Debug)]
pub struct CallHead {
    pub id: String,
    pub name: String,
}

impl View for CallHead {
    type V = (Seq<char>, Seq<char>);

    open spec fn view(&self) -> (Seq<char>, Seq<char>) {
        (self.id@, self.name@)
    }
}

/// What the frames of one response have come to.
#[derive(Debug)]
pub struct StreamState {
    pub calls: Slots<CallHead>,
    /// The arguments of the calls so far, under the same keys.
    pub args: Slots<String>,
    pub usage: Option<Usage>,
    pub error: Option<String>,
    /// The error came in a frame without a type.
    pub stray: bool,
    /// Text has arrived.
    pub got_content: bool,
    /// The transport broke.
    pub transport_error: Option<String>,
}

/// What a [`StreamState`] stands for.
#[verifier::ext_equal]
pub struct StateView {
    pub calls: Map<u64, (Seq<char>, Seq<char>)>,
    pub args: Map<u64, Seq<char>>,
    pub usage: Option<Usage>,
    pub error: Option<Seq<char>>,
    pub stray: bool,
    pub got_content: bool,
    pub transport_error: Option<Seq<char>>,
}

impl View for StreamState {
    type V = StateView;

    open spec fn view(&self) -> StateView {
        StateView {
            calls: self.calls@,
            args: self.args@,
            usage: self.usage,
            error: opt_view(self.error),
            stray: self.stray,
            got_content: self.got_content,
            transport_error: opt_view(self.transport_error),
        }
    }
}

/// The text, or the given one where there is none.
pub open spec fn or_text(t: Option<Seq<char>>, other: Seq<char>) -> Seq<char> {
    match t {
        Some(s) => s,
        None => other,
    }
}

/// The text of a member that may be missing.
pub open spec fn text_of(v: Option<JsonView>) -> Option<Seq<char>> {
    match v {
        Some(v) => v.text(),
        None => None,
    }
}

/// The usage that a completed response reports.
pub open spec fn reported_usage(u: JsonView) -> Usage {
    Usage {
        input_tokens: u.signed_at("input_tokens"@),
        output_tokens: u.signed_at("output_tokens"@),
        total_tokens: u.signed_at("total_tokens"@),
    }
}

impl StateView {
    /// The state before anything has arrived.
    pub open spec fn blank() -> StateView {
        StateView {
            calls: Map::empty(),
            args: Map::empty(),
            usage: None,
            error: None,
            stray: false,
            got_content: false,
            transport_error: None,
        }
    }

    /// With an error.
    pub open spec fn fails(self, message: Seq<char>, stray: bool) -> StateView {
        StateView { error: Some(message), stray, ..self }
    }

    /// With an error out of a frame without a type; an error that is there
    /// already stays.
    pub open spec fn stray_error(self, message: Seq<char>) -> StateView {
        if self.error is Some {
            self
        } else {
            self.fails(message, true)
        }
    }

    /// A call is opened.
    pub open spec fn opens(self, v: JsonView) -> StateView {
        match v.member("item"@) {
            Some(item) => if item.text_at("type"@) == Some("function_call"@) {
                let k = v.unsigned_at("output_index"@);
                StateView {
                    calls: self.calls.insert(
                        k,
                        (
                            text_or_empty(item.text_at("call_id"@)),
                            text_or_empty(item.text_at("name"@)),
                        ),
                    ),
                    args: self.args.insert(k, Seq::empty()),
                    ..self
                }
            } else {
                self
            },
            None => self,
        }
    }

    /// Arguments are appended.
    pub open spec fn appends(self, v: JsonView) -> StateView {
        let k = v.unsigned_at("output_index"@);
        match v.text_at("delta"@) {
            Some(d) => StateView {
                args: self.args.insert(k, text_or_empty(found(self.args, k)) + d),
                ..self
            },
            None => self,
        }
    }

    /// Arguments are given whole.
    pub open spec fn completes_args(self, v: JsonView) -> StateView {
        let k = v.unsigned_at("output_index"@);
        match v.text_at("arguments"@) {
            Some(d) => if found(self.args, k) is Some {
                StateView { args: self.args.insert(k, d), ..self }
            } else {
                self
            },
            None => self,
        }
    }

    /// The response is completed.
    pub open spec fn completed(self, v: JsonView) -> StateView {
        let counted = match v.member2("response"@, "usage"@) {
            Some(u) => StateView { usage: Some(reported_usage(u)), ..self },
            None => self,
        };
        match v.member2("response"@, "error"@) {
            Some(e) => if e is Null {
                counted
            } else {
                counted.fails(or_text(e.text_at("message"@), "response error"@), false)
            },
            None => counted,
        }
    }

    /// The message of a failed response.
    pub open spec fn failure(v: JsonView) -> Seq<char> {
        match v.member2("response"@, "error"@) {
            Some(e) => or_text(e.text_at("message"@), "response failed"@),
            None => "response failed"@,
        }
    }

    /// The message of an error frame.
    pub open spec fn frame_error(v: JsonView) -> Seq<char> {
        or_text(
            text_of(first_of(v.member2("error"@, "message"@), v.member("message"@))),
            "responses stream error"@,
        )
    }

    /// What a frame makes of the state, and the events that it brings. A
    /// frame goes by its own type, else by the name of its event.
    pub open spec fn frame(self, event_name: Seq<char>, v: JsonView) -> (
        StateView,
        Seq<ProviderEventView>,
    ) {
        let ty = or_text(v.text_at("type"@), event_name);
        let nothing = Seq::<ProviderEventView>::empty();
        if ty == "response.output_text.delta"@ {
            (StateView { got_content: true, ..self }, message_of(filled(v, "delta"@)))
        } else if ty == "response.reasoning_summary_text.delta"@ || ty
            == "response.reasoning_text.delta"@ {
            (self, reasoning_of(filled(v, "delta"@)))
        } else if ty == "response.output_item.added"@ {
            (self.opens(v), nothing)
        } else if ty == "response.function_call_arguments.delta"@ {
            (self.appends(v), nothing)
        } else if ty == "response.function_call_arguments.done"@ {
            (self.completes_args(v), nothing)
        } else if ty == "response.completed"@ {
            (self.completed(v), nothing)
        } else if ty == "response.failed"@ {
            (self.fails(Self::failure(v), false), nothing)
        } else if ty == "error"@ {
            (self.fails(Self::frame_error(v), false), nothing)
        } else if v.text_at("type"@) is None && error_member(v) is Some {
            (self.stray_error(Self::frame_error(v)), nothing)
        } else {
            (self, nothing)
        }
    }

    /// The call under the key `k`, with its arguments.
    pub open spec fn call_at(self, k: u64) -> ToolCallView {
        let args = text_or_empty(found(self.args, k));
        ToolCallView {
            id: self.calls[k].0,
            name: self.calls[k].1,
            arguments: call_arguments(args, json_of_text(args)),
        }
    }

    /// The calls under the keys, in their order, without those that have
    /// neither id nor name.
    pub open spec fn calls_under(self, keys: Seq<u64>) -> Seq<ToolCallView>
        decreases keys.len(),
    {
        if keys.len() == 0 {
            Seq::empty()
        } else {
            let head = self.calls_under(keys.drop_last());
            let c = self.call_at(keys.last());
            if c.id.len() > 0 || c.name.len() > 0 {
                head.push(c)
            } else {
                head
            }
        }
    }

    /// Whether the error is reported: an error of the response only if no
    /// text arrived, an error in a frame without a type only if nothing at
    /// all did.
    pub open spec fn reports_error(self) -> bool {
        &&& self.error is Some
        &&& !self.got_content
        &&& self.stray ==> self.usage is None && self.calls == Map::<u64, (Seq<char>, Seq<char>)>::empty()
    }

    /// The events at the end of the stream.
    pub open spec fn final_events(self) -> Seq<ProviderEventView> {
        let calls = self.calls_under(in_order(self.calls.dom()));
        let one = if calls.len() > 0 {
            seq![ProviderEventView::ToolCalls { calls }]
        } else {
            Seq::empty()
        };
        let two = match self.usage {
            Some(usage) => one.push(ProviderEventView::Usage { usage }),
            None => one,
        };
        let three = if self.reports_error() {
            two.push(ProviderEventView::ProviderError { message: self.error->0 })
        } else {
            two
        };
        let four = match self.transport_error {
            Some(e) => three.push(interrupted(e)),
            None => three,
        };
        four.push(ProviderEventView::Done)
    }
}

fn text_else(t: Option<&str>, other: &str) -> (r: String)
    ensures
        r@ == or_text(opt_view(t), other@),
{
    match t {
        Some(s) => copy_of(s),
        None => copy_of(other),
    }
}

/// The text delta of a frame, if it is not empty.
fn text_delta(v: &Json) -> (r: Vec<ProviderEvent>)
    ensures
        views(r@) == message_of(filled(v@, "delta"@)),
{
    let mut r: Vec<ProviderEvent> = Vec::new();
    if let Some(d) = v.str_at("delta") {
        if !d.is_empty() {
            r.push(ProviderEvent::MessageDelta { delta: copy_of(d) });
        }
    }
    assert(views(r@) =~= message_of(filled(v@, "delta"@)));
    r
}

/// The reasoning delta of a frame, if it is not empty.
fn reasoning_delta(v: &Json) -> (r: Vec<ProviderEvent>)
    ensures
        views(r@) == reasoning_of(filled(v@, "delta"@)),
{
    let mut r: Vec<ProviderEvent> = Vec::new();
    if let Some(d) = v.str_at("delta") {
        if !d.is_empty() {
            r.push(ProviderEvent::ReasoningDelta { delta: copy_of(d) });
        }
    }
    assert(views(r@) =~= reasoning_of(filled(v@, "delta"@)));
    r
}

fn error_text_of(v: &Json) -> (r: String)
    ensures
        r@ == StateView::frame_error(v@),
{
    let found = match v.get2("error", "message") {
        Some(m) => Some(m),
        None => v.get("message"),
    };
    match found {
        Some(m) => text_else(m.as_str(), "responses stream error"),
        None => copy_of("responses stream error"),
    }
}

impl StreamState {
    /// The state before anything has arrived.
    pub fn new() -> (r: StreamState)
        ensures
            r@ == StateView::blank(),
    {
        StreamState {
            calls: Slots::new(),
            args: Slots::new(),
            usage: None,
            error: None,
            stray: false,
            got_content: false,
            transport_error: None,
        }
    }

    fn set_error(&mut self, message: String, stray: bool)
        ensures
            final(self)@ == old(self)@.fails(message@, stray),
    {
        self.error = Some(message);
        self.stray = stray;
    }

    fn open_call(&mut self, v: &Json)
        ensures
            final(self)@ == old(self)@.opens(v@),
    {
        if let Some(item) = v.get("item") {
            let is_call: bool = match item.str_at("type") {
                Some(t) => str_eq(t, "function_call"),
                None => false,
            };
            if is_call {
                let k: u64 = v.u64_at("output_index");
                self.calls.set(
                    k,
                    CallHead {
                        id: some_text(item.str_at("call_id")),
                        name: some_text(item.str_at("name")),
                    },
                );
                let nothing = String::new();
                assert(nothing@ =~= Seq::empty());
                self.args.set(k, nothing);
            }
        }
    }

    fn append_args(&mut self, v: &Json)
        ensures
            final(self)@ == old(self)@.appends(v@),
    {
        let k: u64 = v.u64_at("output_index");
        if let Some(d) = v.str_at("delta") {
            let so_far = match self.args.get(k) {
                Some(s) => copy_of(s),
                None => String::new(),
            };
            assert(so_far@ =~= text_or_empty(found(self@.args, k)));
            self.args.set(k, join2(&so_far, d));
        }
    }

    fn replace_args(&mut self, v: &Json)
        ensures
            final(self)@ == old(self)@.completes_args(v@),
    {
        let k: u64 = v.u64_at("output_index");
        if let Some(d) = v.str_at("arguments") {
            if self.args.get(k).is_some() {
                self.args.set(k, copy_of(d));
            }
        }
    }

    fn complete(&mut self, v: &Json)
        ensures
            final(self)@ == old(self)@.completed(v@),
    {
        if let Some(u) = v.get2("response", "usage") {
            self.usage = Some(
                Usage {
                    input_tokens: u.i64_at("input_tokens"),
                    output_tokens: u.i64_at("output_tokens"),
                    total_tokens: u.i64_at("total_tokens"),
                },
            );
        }
        if let Some(e) = v.get2("response", "error") {
            if !e.is_null() {
                let message = text_else(e.str_at("message"), "response error");
                self.set_error(message, false);
            }
        }
    }

    /// Takes the value of one frame and returns the events to pass on.
    pub fn take(&mut self, event_name: &str, v: &Json) -> (out: Vec<ProviderEvent>)
        ensures
            (final(self)@, views(out@)) == old(self)@.frame(event_name@, v@),
    {
        let ty = text_else(v.str_at("type"), event_name);
        let out: Vec<ProviderEvent> = Vec::new();
        assert(views(out@) =~= Seq::empty());
        if str_eq(&ty, "response.output_text.delta") {
            self.got_content = true;
            return text_delta(v);
        }
        if str_eq(&ty, "response.reasoning_summary_text.delta") || str_eq(
            &ty,
            "response.reasoning_text.delta",
        ) {
            return reasoning_delta(v);
        }
        if str_eq(&ty, "response.output_item.added") {
            self.open_call(v);
        } else if str_eq(&ty, "response.function_call_arguments.delta") {
            self.append_args(v);
        } else if str_eq(&ty, "response.function_call_arguments.done") {
            self.replace_args(v);
        } else if str_eq(&ty, "response.completed") {
            self.complete(v);
        } else if str_eq(&ty, "response.failed") {
            let message = match v.get2("response", "error") {
                Some(e) => text_else(e.str_at("message"), "response failed"),
                None => copy_of("response failed"),
            };
            self.set_error(message, false);
        } else if str_eq(&ty, "error") {
            let message = error_text_of(v);
            self.set_error(message, false);
        } else {
            let has_error: bool = match v.get("error") {
                Some(e) => !e.is_null(),
                None => false,
            };
            if v.str_at("type").is_none() && has_error && self.error.is_none() {
                let message = error_text_of(v);
                self.set_error(message, true);
            }
        }
        out
    }

    /// The transport broke.
    pub fn on_transport_error(&mut self, err: &str)
        ensures
            final(self)@ == (StateView { transport_error: Some(err@), ..old(self)@ }),
    {
        self.transport_error = Some(copy_of(err));
    }

    /// The events at the end of the stream.
    pub fn finalize(&self) -> (out: Vec<ProviderEvent>)
        ensures
            views(out@) == self@.final_events(),
    {
        let keys = self.calls.keys();
        let n: usize = keys.len();
        let mut calls: Vec<ToolCall> = Vec::new();
        for i in 0..n
            invariant
                n == keys@.len(),
                forall|k: u64| #[trigger] keys@.contains(k) ==> self@.calls.contains_key(k),
                views(calls@) == self@.calls_under(keys@.take(i as int)),
        {
            let k: u64 = keys[i];
            assert(keys@.take(i + 1).drop_last() =~= keys@.take(i as int));
            assert(keys@.contains(k));
            if let Some(head) = self.calls.get(k) {
                if !head.id.as_str().is_empty() || !head.name.as_str().is_empty() {
                    let args = match self.args.get(k) {
                        Some(s) => copy_of(s),
                        None => String::new(),
                    };
                    assert(args@ =~= text_or_empty(found(self@.args, k)));
                    calls.push(
                        ToolCall {
                            id: copy_of(&head.id),
                            name: copy_of(&head.name),
                            arguments: read_arguments(&args),
                        },
                    );
                }
            }
        }
        assert(keys@.take(n as int) =~= keys@);
        proof {
            if n == 0 {
                assert forall|k: u64| !self@.calls.contains_key(k) by {
                    assert(!keys@.contains(k));
                }
                assert(self@.calls =~= Map::empty());
            } else {
                assert(keys@.contains(keys@[0]));
                assert(self@.calls.contains_key(keys@[0]));
            }
        }
        let mut out: Vec<ProviderEvent> = Vec::new();
        if calls.len() > 0 {
            out.push(ProviderEvent::ToolCalls { calls });
        }
        if let Some(usage) = self.usage {
            out.push(ProviderEvent::Usage { usage });
        }
        if let Some(e) = &self.error {
            if !self.got_content && (!self.stray || (self.usage.is_none() && n == 0)) {
                out.push(ProviderEvent::ProviderError { message: copy_of(e) });
            }
        }
        if let Some(e) = &self.transport_error {
            out.push(interruption(e));
        }
        out.push(ProviderEvent::Done);
        assert(views(out@) =~= self@.final_events());
        out
    }
}

/// What a frame makes of the state, and the events that it brings; a frame
/// that is blank or not JSON changes nothing.
pub open spec fn after_frame(
    st: StateView,
    event_name: Seq<char>,
    value: Option<JsonView>,
) -> (StateView, Seq<ProviderEventView>) {
    match value {
        Some(v) => st.frame(event_name, v),
        None => (st, Seq::empty()),
    }
}

/// Handles one frame of the stream: changes the state and returns the
/// events to pass on.
pub fn handle_frame(event_name: &str, data: &str, st: &mut StreamState) -> (out: Vec<
    ProviderEvent,
>)
    ensures
        (final(st)@, views(out@)) == after_frame(old(st)@, event_name@, frame_value(data@)),
{
    match read_frame(data) {
        Some(v) => st.take(event_name, &v),
        None => {
            let out: Vec<ProviderEvent> = Vec::new();
            assert(views(out@) =~= Seq::empty());
            out
        },
    }
}

/// A gateway's error behind content never surfaces, and one without any
/// content always does.
pub proof fn law_trailing_error_is_dropped(st: StateView)
    requires
        st.error is Some,
        st.stray,
    ensures
        st.reports_error() <==> !st.got_content && st.usage is None && st.calls
            == Map::<u64, (Seq<char>, Seq<char>)>::empty(),
{
}

/// A failure of the response is never lost: an error frame without a type
/// that follows it leaves it as it is.
pub proof fn law_failure_survives_stray_errors(st: StateView, event_name: Seq<char>, v: JsonView)
    requires
        st.error is Some,
        v.text_at("type"@) is None,
        event_name != "error"@,
        event_name != "response.failed"@,
        event_name != "response.completed"@,
    ensures
        st.frame(event_name, v).0.error == st.error,
        st.frame(event_name, v).0.stray == st.stray,
{
}

/// The stream always ends with `Done`, and a broken transport is always
/// reported right before it.
pub proof fn law_broken_transport_is_reported(st: StateView)
    ensures
        st.final_events().last() == ProviderEventView::Done,
        st.transport_error is Some ==> st.final_events()[st.final_events().len() - 2]
            == interrupted(st.transport_error->0),
{
}

/// A frame that is blank or not JSON changes nothing; any other does what its
/// value does.
pub proof fn law_only_readable_frames_count(
    st: StateView,
    event_name: Seq<char>,
    v: JsonView,
)
    ensures
        after_frame(st, event_name, None).0 == st,
        after_frame(st, event_name, None).1.len() == 0,
        after_frame(st, event_name, Some(v)) == st.frame(event_name, v),
{
}

} // verus!

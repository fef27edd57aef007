//! OpenAI-compatible adapter: `POST {base_url}/v1/chat/completions`,
//! streamed. Works with any vendor that speaks this wire format.
//!
//! Deltas are read from server-sent frames; reasoning models that emit
//! `reasoning_content` are surfaced as reasoning deltas. Usage is taken from
//! the chunk that carries it. Tool calls arrive in fragments, which are put
//! together by index.

use vstd::prelude::*;

use crate::answers::{
    asked,
    fragments,
    lemma_no_piece,
    lemma_one_piece,
    lemma_pieces,
    reasoned,
    said,
    usages,
};
use crate::json::{group_json, json_of_text, json_text, no_members, Json, JsonView};
use crate::message::{Message, MessageView, ToolCall, ToolCallView, Usage};
use crate::provider::{
    call_arguments,
    endpoint_below,
    endpoint_of,
    frame_value,
    interrupted,
    interruption,
    read_arguments,
    read_frame,
    result_text,
    tool_result_text,
};
use crate::seqs::{group_views, opt_view, views};
use crate::text::{copy_of, join2, some_text, text_or_empty, trim_end_by, trim_end_char};
use crate::traits::{
    ModelRequest,
    ModelRequestView,
    ProviderEvent,
    ProviderEventView,
    ToolSpec,
    ToolSpecView,
};

verus! {

broadcast use {group_views, group_json};

/// The adapter's address and label.
#[derive(Debug)]
pub struct OpenAiProvider {
    base_url: String,
    label: String,
}

/// A base address without slashes at its end.
pub open spec fn without_slashes(url: Seq<char>) -> Seq<char> {
    trim_end_by(url, |c: char| c == '/')
}

impl OpenAiProvider {
    pub closed spec fn url(&self) -> Seq<char> {
        self.base_url@
    }

    pub closed spec fn tag(&self) -> Seq<char> {
        self.label@
    }

    pub fn new(base_url: &str) -> (r: OpenAiProvider)
        ensures
            r.url() == without_slashes(base_url@),
            r.tag() == "openai-compatible"@,
    {
        OpenAiProvider {
            base_url: trim_end_char(base_url, '/'),
            label: copy_of("openai-compatible"),
        }
    }

    pub fn with_label(self, label: &str) -> (r: OpenAiProvider)
        ensures
            r.url() == self.url(),
            r.tag() == label@,
    {
        OpenAiProvider { base_url: self.base_url, label: copy_of(label) }
    }

    /// The normalized base address.
    pub fn base_url(&self) -> (r: String)
        ensures
            r@ == self.url(),
    {
        copy_of(&self.base_url)
    }

    /// The name for logs and the user interface.
    pub fn name(&self) -> (r: &str)
        ensures
            r@ == self.tag(),
    {
        self.label.as_str()
    }

    /// The address that requests go to.
    pub fn endpoint(&self) -> (r: String)
        ensures
            r@ == endpoint_of(self.url(), "/chat/completions"@),
    {
        endpoint_below(&self.base_url, "/chat/completions")
    }
}

/// A call on the wire.
pub open spec fn wire_call(c: ToolCallView) -> JsonView {
    no_members().plus("id"@, JsonView::Str(c.id)).plus(
        "type"@,
        JsonView::Str("function"@),
    ).plus(
        "function"@,
        no_members().plus("name"@, JsonView::Str(c.name)).plus(
            "arguments"@,
            JsonView::Str(json_text(c.arguments)),
        ),
    )
}

/// The calls on the wire.
pub open spec fn wire_calls(calls: Seq<ToolCallView>) -> Seq<JsonView> {
    Seq::new(calls.len(), |i: int| wire_call(calls[i]))
}

/// A message on the wire.
pub open spec fn wire_message(m: MessageView) -> JsonView {
    match m {
        MessageView::System { content } => no_members().plus(
            "role"@,
            JsonView::Str("system"@),
        ).plus("content"@, JsonView::Str(content)),
        MessageView::User { content } => no_members().plus("role"@, JsonView::Str("user"@)).plus(
            "content"@,
            JsonView::Str(content),
        ),
        MessageView::Assistant { content, tool_calls, .. } => {
            let plain = no_members().plus("role"@, JsonView::Str("assistant"@)).plus(
                "content"@,
                JsonView::Str(content),
            );
            if tool_calls.len() == 0 {
                plain
            } else {
                plain.plus("tool_calls"@, JsonView::Array(wire_calls(tool_calls)))
            }
        },
        MessageView::ToolResult { tool_call_id, content, is_error } => no_members().plus(
            "role"@,
            JsonView::Str("tool"@),
        ).plus("tool_call_id"@, JsonView::Str(tool_call_id)).plus(
            "content"@,
            JsonView::Str(result_text(content, is_error)),
        ),
    }
}

/// The messages on the wire.
pub open spec fn wire_messages(msgs: Seq<MessageView>) -> Seq<JsonView> {
    Seq::new(msgs.len(), |i: int| wire_message(msgs[i]))
}

/// A tool on the wire.
pub open spec fn wire_tool(s: ToolSpecView) -> JsonView {
    no_members().plus("type"@, JsonView::Str("function"@)).plus(
        "function"@,
        no_members().plus("name"@, JsonView::Str(s.name)).plus(
            "description"@,
            JsonView::Str(s.description),
        ).plus("parameters"@, s.parameters),
    )
}

/// The tools on the wire.
pub open spec fn wire_tools(specs: Seq<ToolSpecView>) -> Seq<JsonView> {
    Seq::new(specs.len(), |i: int| wire_tool(specs[i]))
}

fn call_to_wire(c: &ToolCall) -> (r: Json)
    ensures
        r@ == wire_call(c@),
{
    let function = Json::object().with("name", Json::string(&c.name)).with(
        "arguments",
        Json::Str(c.arguments.to_text()),
    );
    Json::object().with("id", Json::string(&c.id)).with("type", Json::string("function")).with(
        "function",
        function,
    )
}

fn calls_to_wire(calls: &Vec<ToolCall>) -> (r: Vec<Json>)
    ensures
        views(r@) == wire_calls(views(calls@)),
{
    let n: usize = calls.len();
    let mut r: Vec<Json> = Vec::new();
    for i in 0..n
        invariant
            n == calls@.len(),
            views(r@) == wire_calls(views(calls@)).take(i as int),
    {
        r.push(call_to_wire(&calls[i]));
        assert(views(r@) =~= wire_calls(views(calls@)).take(i + 1));
    }
    assert(wire_calls(views(calls@)).take(n as int) =~= wire_calls(views(calls@)));
    r
}

fn message_to_wire(m: &Message) -> (r: Json)
    ensures
        r@ == wire_message(m@),
{
    match m {
        Message::System { content } => Json::object().with("role", Json::string("system")).with(
            "content",
            Json::string(content),
        ),
        Message::User { content } => Json::object().with("role", Json::string("user")).with(
            "content",
            Json::string(content),
        ),
        Message::Assistant { content, tool_calls, .. } => {
            let plain = Json::object().with("role", Json::string("assistant")).with(
                "content",
                Json::string(content),
            );
            if tool_calls.len() == 0 {
                plain
            } else {
                plain.with("tool_calls", Json::Array(calls_to_wire(tool_calls)))
            }
        },
        Message::ToolResult { tool_call_id, content, is_error } => Json::object().with(
            "role",
            Json::string("tool"),
        ).with("tool_call_id", Json::string(tool_call_id)).with(
            "content",
            Json::Str(tool_result_text(content, *is_error)),
        ),
    }
}

/// Converts messages to the chat/completions wire format.
pub fn to_wire_messages(msgs: &Vec<Message>) -> (r: Vec<Json>)
    ensures
        views(r@) == wire_messages(views(msgs@)),
{
    let n: usize = msgs.len();
    let mut r: Vec<Json> = Vec::new();
    for i in 0..n
        invariant
            n == msgs@.len(),
            views(r@) == wire_messages(views(msgs@)).take(i as int),
    {
        r.push(message_to_wire(&msgs[i]));
        assert(views(r@) =~= wire_messages(views(msgs@)).take(i + 1));
    }
    assert(wire_messages(views(msgs@)).take(n as int) =~= wire_messages(views(msgs@)));
    r
}

/// Converts tool specs to the chat/completions wire format.
pub fn to_wire_tools(specs: &Vec<ToolSpec>) -> (r: Vec<Json>)
    ensures
        views(r@) == wire_tools(views(specs@)),
{
    let n: usize = specs.len();
    let mut r: Vec<Json> = Vec::new();
    for i in 0..n
        invariant
            n == specs@.len(),
            views(r@) == wire_tools(views(specs@)).take(i as int),
    {
        let s = &specs[i];
        let function = Json::object().with("name", Json::string(&s.name)).with(
            "description",
            Json::string(&s.description),
        ).with("parameters", s.parameters.clone());
        r.push(Json::object().with("type", Json::string("function")).with("function", function));
        assert(views(r@) =~= wire_tools(views(specs@)).take(i + 1));
    }
    assert(wire_tools(views(specs@)).take(n as int) =~= wire_tools(views(specs@)));
    r
}

/// The body with one more member, where there is a value for it.
pub open spec fn plus_some(body: JsonView, key: Seq<char>, v: Option<JsonView>) -> JsonView {
    match v {
        Some(v) => body.plus(key, v),
        None => body,
    }
}

/// The body of a request.
pub open spec fn body_of(req: ModelRequestView) -> JsonView {
    let base = no_members().plus("model"@, JsonView::Str(req.model)).plus(
        "messages"@,
        JsonView::Array(wire_messages(req.messages)),
    ).plus("stream"@, JsonView::Bool(true)).plus(
        "stream_options"@,
        no_members().plus("include_usage"@, JsonView::Bool(true)),
    ).plus("max_tokens"@, JsonView::PosInt(req.max_tokens as u64));
    let warm = plus_some(base, "temperature"@, req.temperature);
    if req.tools.len() == 0 {
        warm
    } else {
        warm.plus("tools"@, JsonView::Array(wire_tools(req.tools)))
    }
}

/// The body of a request.
pub fn request_body(req: &ModelRequest) -> (r: Json)
    ensures
        r@ == body_of(req@),
{
    let options = Json::object().with("include_usage", Json::Bool(true));
    let body = Json::object().with("model", Json::string(&req.model)).with(
        "messages",
        Json::Array(to_wire_messages(&req.messages)),
    ).with("stream", Json::Bool(true)).with("stream_options", options).with(
        "max_tokens",
        Json::PosInt(req.max_tokens as u64),
    );
    let body = match &req.temperature {
        Some(t) => body.with("temperature", t.clone()),
        None => body,
    };
    if req.tools.len() == 0 {
        body
    } else {
        body.with("tools", Json::Array(to_wire_tools(&req.tools)))
    }
}

/// The message in an error member.
pub open spec fn chunk_error(err: JsonView) -> Seq<char> {
    match err.text() {
        Some(s) => s,
        None => match err.text_at("message"@) {
            Some(s) => s,
            None => "unknown provider error"@,
        },
    }
}

/// The usage in a chunk. A total of 0 means that the gateway dropped the
/// usage fields; such a usage is none.
pub open spec fn chunk_usage(v: JsonView) -> Seq<ProviderEventView> {
    match v.member("usage"@) {
        Some(u) => if u.signed_at("total_tokens"@) > 0 {
            seq![
                ProviderEventView::Usage {
                    usage: Usage {
                        input_tokens: u.signed_at("prompt_tokens"@),
                        output_tokens: u.signed_at("completion_tokens"@),
                        total_tokens: u.signed_at("total_tokens"@),
                    },
                },
            ]
        } else {
            Seq::empty()
        },
        None => Seq::empty(),
    }
}

/// The text of a member, where it is a text and not empty.
pub open spec fn filled(v: JsonView, key: Seq<char>) -> Option<Seq<char>> {
    match v.text_at(key) {
        Some(s) => if s.len() > 0 {
            Some(s)
        } else {
            None
        },
        None => None,
    }
}

/// A reasoning delta, where there is one.
pub open spec fn reasoning_of(t: Option<Seq<char>>) -> Seq<ProviderEventView> {
    match t {
        Some(s) => seq![ProviderEventView::ReasoningDelta { delta: s }],
        None => Seq::empty(),
    }
}

/// A message delta, where there is one.
pub open spec fn message_of(t: Option<Seq<char>>) -> Seq<ProviderEventView> {
    match t {
        Some(s) => seq![ProviderEventView::MessageDelta { delta: s }],
        None => Seq::empty(),
    }
}

/// One fragment of a tool call.
pub open spec fn fragment_of(tc: JsonView) -> ProviderEventView {
    ProviderEventView::ToolCallFragment {
        index: tc.unsigned_at("index"@) as usize,
        id: text_or_empty(tc.text_at("id"@)),
        name: text_or_empty(tc.text_at2("function"@, "name"@)),
        args: text_or_empty(tc.text_at2("function"@, "arguments"@)),
    }
}

/// The fragments of tool calls in a delta.
pub open spec fn fragments_of(delta: JsonView) -> Seq<ProviderEventView> {
    match delta.member("tool_calls"@) {
        Some(tcs) => match tcs.items() {
            Some(v) => Seq::new(v.len(), |i: int| fragment_of(v[i])),
            None => Seq::empty(),
        },
        None => Seq::empty(),
    }
}

/// The events of one choice.
pub open spec fn choice_events(choice: JsonView) -> Seq<ProviderEventView> {
    match choice.member("delta"@) {
        Some(delta) => reasoning_of(filled(delta, "reasoning_content"@)) + reasoning_of(
            filled(delta, "reasoning"@),
        ) + message_of(filled(delta, "content"@)) + fragments_of(delta),
        None => Seq::empty(),
    }
}

/// The events of the choices, in order.
pub open spec fn choices_events(choices: Seq<JsonView>) -> Seq<ProviderEventView>
    decreases choices.len(),
{
    if choices.len() == 0 {
        Seq::empty()
    } else {
        choices_events(choices.drop_last()) + choice_events(choices.last())
    }
}

/// The error of a chunk, where it has one that is not null.
pub open spec fn error_member(v: JsonView) -> Option<JsonView> {
    match v.member("error"@) {
        Some(e) => if e is Null {
            None
        } else {
            Some(e)
        },
        None => None,
    }
}

/// The events of a chunk: an error alone, or else its usage and what its
/// choices bring.
pub open spec fn value_events(v: JsonView) -> Seq<ProviderEventView> {
    match error_member(v) {
        Some(e) => seq![ProviderEventView::ProviderError { message: chunk_error(e) }],
        None => chunk_usage(v) + match v.member("choices"@) {
            Some(c) => match c.items() {
                Some(choices) => choices_events(choices),
                None => Seq::empty(),
            },
            None => Seq::empty(),
        },
    }
}

/// The events of a frame; none where it is blank or not JSON.
pub open spec fn chunk_events(data: Seq<char>) -> Seq<ProviderEventView> {
    match frame_value(data) {
        Some(v) => value_events(v),
        None => Seq::empty(),
    }
}

fn filled_text(v: &Json, key: &str) -> (r: Option<String>)
    ensures
        opt_view(r) == filled(v@, key@),
{
    match v.str_at(key) {
        Some(s) => if s.is_empty() {
            None
        } else {
            Some(copy_of(s))
        },
        None => None,
    }
}

fn push_fragments(delta: &Json, acc: &mut Vec<ProviderEvent>)
    ensures
        views(final(acc)@) == views(old(acc)@) + fragments_of(delta@),
{
    let ghost before = views(acc@);
    if let Some(tcs) = delta.get("tool_calls") {
        if let Some(items) = tcs.as_array() {
            let n: usize = items.len();
            let ghost all = fragments_of(delta@);
            assert(all.len() == n);
            for i in 0..n
                invariant
                    n == items@.len(),
                    all == Seq::new(views(items@).len(), |k: int| fragment_of(views(items@)[k])),
                    views(acc@) == before + all.take(i as int),
            {
                let tc = &items[i];
                let index: usize = tc.u64_at("index") as usize;
                acc.push(
                    ProviderEvent::ToolCallFragment {
                        index,
                        id: some_text(tc.str_at("id")),
                        name: some_text(tc.str_at2("function", "name")),
                        args: some_text(tc.str_at2("function", "arguments")),
                    },
                );
                assert(all[i as int] == fragment_of(tc@));
                assert(views(acc@) =~= before + all.take(i + 1));
            }
            assert(all.take(n as int) =~= all);
            return;
        }
    }
    assert(before + Seq::<ProviderEventView>::empty() =~= before);
}

fn push_choice(choice: &Json, acc: &mut Vec<ProviderEvent>)
    ensures
        views(final(acc)@) == views(old(acc)@) + choice_events(choice@),
{
    let ghost before = views(acc@);
    match choice.get("delta") {
        Some(delta) => {
            if let Some(t) = filled_text(delta, "reasoning_content") {
                acc.push(ProviderEvent::ReasoningDelta { delta: t });
            }
            let ghost one = reasoning_of(filled(delta@, "reasoning_content"@));
            assert(views(acc@) =~= before + one);
            if let Some(t) = filled_text(delta, "reasoning") {
                acc.push(ProviderEvent::ReasoningDelta { delta: t });
            }
            let ghost two = reasoning_of(filled(delta@, "reasoning"@));
            assert(views(acc@) =~= before + one + two);
            if let Some(t) = filled_text(delta, "content") {
                acc.push(ProviderEvent::MessageDelta { delta: t });
            }
            let ghost three = message_of(filled(delta@, "content"@));
            assert(views(acc@) =~= before + one + two + three);
            push_fragments(delta, acc);
            assert(before + one + two + three + fragments_of(delta@) =~= before + (one + two + three
                + fragments_of(delta@)));
        },
        None => {
            assert(before + Seq::<ProviderEventView>::empty() =~= before);
        },
    }
}

/// The events of a chunk.
pub fn events_of(v: &Json) -> (r: Vec<ProviderEvent>)
    ensures
        views(r@) == value_events(v@),
{
    let mut acc: Vec<ProviderEvent> = Vec::new();
    if let Some(e) = v.get("error") {
        if !e.is_null() {
            let message = match e.as_str() {
                Some(s) => copy_of(s),
                None => match e.str_at("message") {
                    Some(s) => copy_of(s),
                    None => copy_of("unknown provider error"),
                },
            };
            acc.push(ProviderEvent::ProviderError { message });
            assert(views(acc@) =~= value_events(v@));
            return acc;
        }
    }
    if let Some(u) = v.get("usage") {
        let total: i64 = u.i64_at("total_tokens");
        if total > 0 {
            acc.push(
                ProviderEvent::Usage {
                    usage: Usage {
                        input_tokens: u.i64_at("prompt_tokens"),
                        output_tokens: u.i64_at("completion_tokens"),
                        total_tokens: total,
                    },
                },
            );
        }
    }
    let ghost usage = chunk_usage(v@);
    assert(views(acc@) =~= usage);
    if let Some(c) = v.get("choices") {
        if let Some(choices) = c.as_array() {
            let n: usize = choices.len();
            assert(usage + choices_events(views(choices@).take(0)) =~= usage);
            for i in 0..n
                invariant
                    n == choices@.len(),
                    views(acc@) == usage + choices_events(views(choices@).take(i as int)),
            {
                push_choice(&choices[i], &mut acc);
                proof {
                    let head = views(choices@).take(i as int);
                    assert(views(choices@).take(i + 1).drop_last() =~= head);
                    assert(usage + choices_events(head) + choice_events(choices@[i as int]@)
                        =~= usage + (choices_events(head) + choice_events(choices@[i as int]@)));
                }
            }
            assert(views(choices@).take(n as int) =~= views(choices@));
            return acc;
        }
    }
    assert(usage + Seq::<ProviderEventView>::empty() =~= usage);
    acc
}

/// Reads one frame into zero or more events.
pub fn parse_chunk(data: &str, acc: &mut Vec<ProviderEvent>)
    ensures
        views(final(acc)@) == views(old(acc)@) + chunk_events(data@),
{
    let ghost before = views(acc@);
    match read_frame(data) {
        Some(v) => {
            let mut more = events_of(&v);
            acc.append(&mut more);
        },
        None => {
            assert(before + Seq::<ProviderEventView>::empty() =~= before);
        },
    }
}

/// Sanity cap on fragment indexes. The index comes from the server; a bogus
/// huge value must not grow the state without bound.
pub const MAX_TOOL_CALL_INDEX: usize = 1024;

/// What the fragments of tool calls have come to.
#[derive(Debug)]
pub struct FragmentState {
    /// Id and name of each call.
    pub fragments: Vec<ToolCall>,
    /// The text of each call's arguments so far.
    pub args: Vec<String>,
    /// Set when the transport broke in the middle of the stream, so that
    /// truncated output is never reported as a complete answer.
    pub transport_error: Option<String>,
}

/// One call that is being put together.
#[verifier::ext_equal]
pub struct Part {
    pub id: Seq<char>,
    pub name: Seq<char>,
    pub args: Seq<char>,
}

/// A call of which nothing has arrived.
pub open spec fn blank_part() -> Part {
    Part { id: Seq::empty(), name: Seq::empty(), args: Seq::empty() }
}

impl FragmentState {
    /// The calls that are being put together.
    pub open spec fn parts(&self) -> Seq<Part> {
        Seq::new(
            self.fragments@.len(),
            |i: int|
                Part {
                    id: self.fragments@[i].id@,
                    name: self.fragments@[i].name@,
                    args: self.args@[i]@,
                },
        )
    }

    /// Every call has its arguments, and there are not too many.
    pub open spec fn well_formed(&self) -> bool {
        &&& self.fragments@.len() == self.args@.len()
        &&& self.fragments@.len() <= MAX_TOOL_CALL_INDEX + 1
    }
}

/// The parts, made longer by blank ones so that there is one at `index`.
pub open spec fn padded(parts: Seq<Part>, index: nat) -> Seq<Part> {
    if parts.len() > index {
        parts
    } else {
        parts + Seq::new((index + 1 - parts.len()) as nat, |i: int| blank_part())
    }
}

/// The parts after one more fragment: an id or a name that is not empty
/// takes the place of the one before, and arguments are appended.
pub open spec fn with_fragment(
    parts: Seq<Part>,
    index: nat,
    id: Seq<char>,
    name: Seq<char>,
    args: Seq<char>,
) -> Seq<Part> {
    let long = padded(parts, index);
    let p = long[index as int];
    long.update(
        index as int,
        Part {
            id: if id.len() > 0 {
                id
            } else {
                p.id
            },
            name: if name.len() > 0 {
                name
            } else {
                p.name
            },
            args: p.args + args,
        },
    )
}

/// The state before anything has arrived.
pub fn no_fragments() -> (r: FragmentState)
    ensures
        r.well_formed(),
        r.parts() == Seq::<Part>::empty(),
        r.transport_error is None,
{
    let r = FragmentState { fragments: Vec::new(), args: Vec::new(), transport_error: None };
    assert(r.parts() =~= Seq::<Part>::empty());
    r
}

impl Default for FragmentState {
    fn default() -> (r: Self)
        ensures
            r.well_formed(),
            r.parts() == Seq::<Part>::empty(),
            r.transport_error is None,
    {
        no_fragments()
    }
}

/// Applies one fragment of a tool call. Returns false, and changes nothing,
/// when the index is bogus and the fragment is dropped.
pub fn apply_fragment(
    st: &mut FragmentState,
    index: usize,
    id: &str,
    name: &str,
    args: &str,
) -> (r: bool)
    requires
        old(st).well_formed(),
    ensures
        final(st).well_formed(),
        final(st).transport_error == old(st).transport_error,
        r == (index <= MAX_TOOL_CALL_INDEX),
        final(st).parts() == if r {
            with_fragment(old(st).parts(), index as nat, id@, name@, args@)
        } else {
            old(st).parts()
        },
{
    if index > MAX_TOOL_CALL_INDEX {
        return false;
    }
    let ghost start = st.parts();
    assert(padded(start, index as nat).take(st.fragments@.len() as int) =~= start
        || start.len() > index);
    while st.fragments.len() <= index
        invariant
            index <= MAX_TOOL_CALL_INDEX,
            st.well_formed(),
            st.transport_error == old(st).transport_error,
            padded(st.parts(), index as nat) == padded(start, index as nat),
        decreases index + 1 - st.fragments@.len(),
    {
        let ghost before = st.parts();
        st.fragments.push(
            ToolCall { id: String::new(), name: String::new(), arguments: Json::string("") },
        );
        st.args.push(String::new());
        proof {
            assert(st.fragments@.last().id@ =~= Seq::empty());
            assert(st.fragments@.last().name@ =~= Seq::empty());
            assert(st.args@.last()@ =~= Seq::empty());
            assert(st.parts() =~= before.push(blank_part()));
            assert(padded(st.parts(), index as nat) =~= padded(before, index as nat));
        }
    }
    let ghost long = st.parts();
    assert(long == padded(start, index as nat));
    let new_id = if id.is_empty() {
        copy_of(&st.fragments[index].id)
    } else {
        copy_of(id)
    };
    let new_name = if name.is_empty() {
        copy_of(&st.fragments[index].name)
    } else {
        copy_of(name)
    };
    let new_args = join2(&st.args[index], args);
    st.fragments.set(
        index,
        ToolCall { id: new_id, name: new_name, arguments: Json::string("") },
    );
    st.args.set(index, new_args);
    assert(st.parts() =~= with_fragment(start, index as nat, id@, name@, args@));
    true
}

/// What a frame makes of the parts: its fragments are applied in order,
/// except those with a bogus index.
pub open spec fn with_events(parts: Seq<Part>, events: Seq<ProviderEventView>) -> Seq<Part>
    decreases events.len(),
{
    if events.len() == 0 {
        parts
    } else {
        let head = with_events(parts, events.drop_last());
        match events.last() {
            ProviderEventView::ToolCallFragment { index, id, name, args } => if index
                <= MAX_TOOL_CALL_INDEX {
                with_fragment(head, index as nat, id, name, args)
            } else {
                head
            },
            _ => head,
        }
    }
}

/// The events that are passed on: all but the fragments.
pub open spec fn passed_on(events: Seq<ProviderEventView>) -> Seq<ProviderEventView>
    decreases events.len(),
{
    if events.len() == 0 {
        Seq::empty()
    } else if events.last() is ToolCallFragment {
        passed_on(events.drop_last())
    } else {
        passed_on(events.drop_last()).push(events.last())
    }
}

/// The calls that are complete: those with an id and a name. Slots that a
/// sparse index left blank would be rejected by the vendor.
pub open spec fn finished_calls(parts: Seq<Part>) -> Seq<ToolCallView>
    decreases parts.len(),
{
    if parts.len() == 0 {
        Seq::empty()
    } else {
        let head = finished_calls(parts.drop_last());
        let p = parts.last();
        if p.id.len() > 0 && p.name.len() > 0 {
            head.push(
                ToolCallView {
                    id: p.id,
                    name: p.name,
                    arguments: call_arguments(p.args, json_of_text(p.args)),
                },
            )
        } else {
            head
        }
    }
}

/// The events at the end of the stream.
pub open spec fn final_events(
    parts: Seq<Part>,
    transport_error: Option<Seq<char>>,
) -> Seq<ProviderEventView> {
    let calls = finished_calls(parts);
    let first = if calls.len() > 0 {
        seq![ProviderEventView::ToolCalls { calls }]
    } else {
        Seq::empty()
    };
    let second = match transport_error {
        Some(e) => first.push(interrupted(e)),
        None => first,
    };
    second.push(ProviderEventView::Done)
}

impl FragmentState {
    /// Takes one frame of the stream and returns the events to pass on.
    pub fn on_frame(&mut self, data: &str) -> (out: Vec<ProviderEvent>)
        requires
            old(self).well_formed(),
        ensures
            final(self).well_formed(),
            final(self).transport_error == old(self).transport_error,
            final(self).parts() == with_events(old(self).parts(), chunk_events(data@)),
            views(out@) == passed_on(chunk_events(data@)),
    {
        let mut acc: Vec<ProviderEvent> = Vec::new();
        parse_chunk(data, &mut acc);
        let ghost events = chunk_events(data@);
        assert(views(acc@) =~= events);
        let mut out: Vec<ProviderEvent> = Vec::new();
        let ghost mut done: int = 0;
        let mut rest = acc;
        let mut left: usize = rest.len();
        assert(views(rest@) =~= events.skip(0));
        while left > 0
            invariant
                0 <= done <= events.len(),
                left == events.len() - done,
                views(rest@) == events.skip(done),
                self.well_formed(),
                self.transport_error == old(self).transport_error,
                self.parts() == with_events(old(self).parts(), events.take(done)),
                views(out@) == passed_on(events.take(done)),
            decreases left,
        {
            let ghost before = rest@;
            assert(views(before).len() == before.len());
            assert(views(before)[0] == before[0]@);
            let ev = rest.remove(0);
            left = left - 1;
            proof {
                assert(ev@ == events[done]);
                assert(views(rest@) =~= events.skip(done + 1));
                assert(events.take(done + 1).drop_last() =~= events.take(done));
                assert(events.take(done + 1).last() == events[done]);
                done = done + 1;
            }
            match ev {
                ProviderEvent::ToolCallFragment { index, id, name, args } => {
                    let _ = apply_fragment(self, index, &id, &name, &args);
                },
                other => {
                    out.push(other);
                },
            }
        }
        assert(events.take(done) =~= events);
        out
    }

    /// The transport broke.
    pub fn on_transport_error(&mut self, err: &str)
        ensures
            final(self).parts() == old(self).parts(),
            final(self).fragments == old(self).fragments,
            final(self).args == old(self).args,
            opt_view(final(self).transport_error) == Some(err@),
    {
        self.transport_error = Some(copy_of(err));
        assert(self.parts() =~= old(self).parts());
    }

    /// The events at the end of the stream.
    pub fn finalize(&self) -> (out: Vec<ProviderEvent>)
        requires
            self.well_formed(),
        ensures
            views(out@) == final_events(self.parts(), opt_view(self.transport_error)),
    {
        let n: usize = self.fragments.len();
        let mut calls: Vec<ToolCall> = Vec::new();
        for i in 0..n
            invariant
                self.well_formed(),
                n == self.fragments@.len(),
                views(calls@) == finished_calls(self.parts().take(i as int)),
        {
            proof {
                assert(self.parts().take(i + 1).drop_last() =~= self.parts().take(i as int));
                assert(self.parts().take(i + 1).last() == self.parts()[i as int]);
            }
            if !self.fragments[i].id.as_str().is_empty()
                && !self.fragments[i].name.as_str().is_empty() {
                calls.push(
                    ToolCall {
                        id: copy_of(&self.fragments[i].id),
                        name: copy_of(&self.fragments[i].name),
                        arguments: read_arguments(&self.args[i]),
                    },
                );
            }
        }
        assert(self.parts().take(n as int) =~= self.parts());
        let mut out: Vec<ProviderEvent> = Vec::new();
        if calls.len() > 0 {
            out.push(ProviderEvent::ToolCalls { calls });
        }
        if let Some(e) = &self.transport_error {
            out.push(interruption(e));
        }
        out.push(ProviderEvent::Done);
        assert(views(out@) =~= final_events(self.parts(), opt_view(self.transport_error)));
        out
    }
}

/// The stream always ends with `Done`, and a broken transport is always
/// reported before it: truncated output is never presented as complete.
pub proof fn law_broken_transport_is_reported(parts: Seq<Part>, err: Option<Seq<char>>)
    ensures
        ({
            let out = final_events(parts, err);
            &&& out.last() == ProviderEventView::Done
            &&& err is Some ==> out[out.len() - 2] == interrupted(err->0)
            &&& err is None ==> forall|i: int|
                0 <= i < out.len() ==> !(#[trigger] out[i] is ProviderError)
        }),
{
}

/// However a call's arguments are cut into fragments, they come together as
/// they were; and no other call is touched.
pub proof fn law_fragments_come_together(
    parts: Seq<Part>,
    index: nat,
    id: Seq<char>,
    name: Seq<char>,
    a: Seq<char>,
    b: Seq<char>,
)
    ensures
        with_fragment(
            with_fragment(parts, index, id, name, a),
            index,
            Seq::empty(),
            Seq::empty(),
            b,
        ) == with_fragment(parts, index, id, name, a + b),
        forall|i: int|
            0 <= i < parts.len() && i != index ==> #[trigger] with_fragment(
                parts,
                index,
                id,
                name,
                a,
            )[i] == parts[i],
{
    let long = padded(parts, index);
    let one = with_fragment(parts, index, id, name, a);
    assert(padded(one, index) == one);
    assert(long[index as int].args + a + b =~= long[index as int].args + (a + b));
    assert(with_fragment(one, index, Seq::empty(), Seq::empty(), b) =~= with_fragment(
        parts,
        index,
        id,
        name,
        a + b,
    ));
}

/// Whatever the server sends, the state stays bounded.
pub proof fn law_fragments_stay_bounded(parts: Seq<Part>, events: Seq<ProviderEventView>)
    requires
        parts.len() <= MAX_TOOL_CALL_INDEX + 1,
    ensures
        with_events(parts, events).len() <= MAX_TOOL_CALL_INDEX + 1,
    decreases events.len(),
{
    if events.len() > 0 {
        law_fragments_stay_bounded(parts, events.drop_last());
    }
}

proof fn lemma_finished_calls_are_named(parts: Seq<Part>)
    ensures
        forall|i: int|
            0 <= i < finished_calls(parts).len() ==> (#[trigger] finished_calls(parts)[i]).id.len()
                > 0 && finished_calls(parts)[i].name.len() > 0,
    decreases parts.len(),
{
    if parts.len() > 0 {
        lemma_finished_calls_are_named(parts.drop_last());
    }
}

/// Every call that is reported has an id and a name: slots that a sparse
/// index left blank are dropped.
pub proof fn law_reported_calls_are_named(parts: Seq<Part>, i: int)
    requires
        0 <= i < finished_calls(parts).len(),
    ensures
        finished_calls(parts)[i].id.len() > 0,
        finished_calls(parts)[i].name.len() > 0,
{
    lemma_finished_calls_are_named(parts);
}

/// Whether the call has an id and a name.
pub open spec fn is_named(p: Part) -> bool {
    p.id.len() > 0 && p.name.len() > 0
}

/// How many of the first `n` parts have an id and a name.
pub open spec fn named_among(parts: Seq<Part>, n: nat) -> nat
    decreases n,
{
    if n == 0 {
        0
    } else {
        named_among(parts, (n - 1) as nat) + if is_named(parts[n - 1]) {
            1nat
        } else {
            0nat
        }
    }
}

/// Whether the call is the one that the part came to: its id and name, and
/// as its arguments the value of its text, an empty object where there is
/// no text, and the text itself where it is not JSON.
pub open spec fn comes_from(c: ToolCallView, p: Part) -> bool {
    &&& c.id == p.id
    &&& c.name == p.name
    &&& crate::text::trimmed(p.args).len() == 0 ==> c.arguments == no_members()
    &&& crate::text::trimmed(p.args).len() > 0 && json_of_text(p.args) is Some ==> c.arguments
        == json_of_text(p.args)->0
    &&& crate::text::trimmed(p.args).len() > 0 && json_of_text(p.args) is None
        ==> c.arguments.text_at("_raw"@) == Some(p.args)
}

proof fn lemma_named_among(parts: Seq<Part>, more: Seq<Part>, n: nat)
    requires
        n <= parts.len(),
        n <= more.len(),
        parts.take(n as int) == more.take(n as int),
    ensures
        named_among(parts, n) == named_among(more, n),
    decreases n,
{
    if n > 0 {
        assert(parts.take(n as int)[n - 1] == more.take(n as int)[n - 1]);
        assert(parts.take(n - 1) =~= parts.take(n as int).take(n - 1));
        assert(more.take(n - 1) =~= more.take(n as int).take(n - 1));
        lemma_named_among(parts, more, (n - 1) as nat);
    }
}

proof fn lemma_named_grows(parts: Seq<Part>, n: nat, m: nat)
    requires
        n <= m,
    ensures
        named_among(parts, n) <= named_among(parts, m),
        n < m && is_named(parts[n as int]) ==> named_among(parts, n) < named_among(parts, m),
    decreases m,
{
    if n < m {
        lemma_named_grows(parts, n, (m - 1) as nat);
    }
}

proof fn lemma_finished_calls(parts: Seq<Part>)
    ensures
        finished_calls(parts).len() == named_among(parts, parts.len()),
        forall|i: int|
            0 <= i < parts.len() && is_named(#[trigger] parts[i]) ==> comes_from(
                finished_calls(parts)[named_among(parts, i as nat) as int],
                parts[i],
            ),
    decreases parts.len(),
{
    broadcast use crate::json::law_added_member_is_found;

    if parts.len() > 0 {
        let head = parts.drop_last();
        lemma_finished_calls(head);
        assert(head.take(head.len() as int) =~= parts.take(head.len() as int));
        lemma_named_among(head, parts, head.len());
        assert forall|i: int| 0 <= i < parts.len() && is_named(
            #[trigger] parts[i],
        ) implies comes_from(
            finished_calls(parts)[named_among(parts, i as nat) as int],
            parts[i],
        ) by {
            if i < head.len() {
                assert(head[i] == parts[i]);
                assert(head.take(i) =~= parts.take(i));
                lemma_named_among(head, parts, i as nat);
                lemma_named_grows(head, i as nat, head.len());
                let calls = finished_calls(head);
                assert(finished_calls(parts)[named_among(parts, i as nat) as int]
                    == calls[named_among(parts, i as nat) as int]);
            }
        }
    }
}

/// Every call that was put together is reported: where some part has an id
/// and a name, the first event holds one call for each such part and for no
/// other, in the order of their indexes, each with its own arguments.
pub proof fn law_every_named_call_is_reported(parts: Seq<Part>, err: Option<Seq<char>>)
    ensures
        ({
            let out = final_events(parts, err);
            let n = named_among(parts, parts.len());
            &&& asked(out).len() == n
            &&& n > 0 ==> out[0] == (ProviderEventView::ToolCalls { calls: asked(out) })
            &&& forall|i: int|
                0 <= i < parts.len() && is_named(#[trigger] parts[i]) ==> named_among(
                    parts,
                    i as nat,
                ) < n && comes_from(asked(out)[named_among(parts, i as nat) as int], parts[i])
        }),
{
    let out = final_events(parts, err);
    let calls = finished_calls(parts);
    lemma_finished_calls(parts);
    lemma_no_piece();
    assert forall|i: int| 0 <= i < parts.len() && is_named(
        #[trigger] parts[i],
    ) implies named_among(parts, i as nat) < named_among(parts, parts.len()) by {
        lemma_named_grows(parts, i as nat, parts.len());
    }
    let first = if calls.len() > 0 {
        seq![ProviderEventView::ToolCalls { calls }]
    } else {
        Seq::empty()
    };
    if calls.len() > 0 {
        lemma_one_piece(ProviderEventView::ToolCalls { calls });
    }
    assert(asked(first) =~= calls);
    match err {
        Some(e) => {
            assert(out.drop_last().drop_last() =~= first);
            assert(out.drop_last().last() == interrupted(e));
            assert(asked(out.drop_last()) == asked(first));
        },
        None => {
            assert(out.drop_last() =~= first);
        },
    }
}

/// A fragment lands at its index: the arguments of that call grow by it, an
/// id or a name that it brings is taken over and one that it leaves empty
/// stays; calls that are skipped over are blank.
pub proof fn law_fragment_lands_at_its_index(
    parts: Seq<Part>,
    index: nat,
    id: Seq<char>,
    name: Seq<char>,
    args: Seq<char>,
)
    ensures
        ({
            let after = with_fragment(parts, index, id, name, args);
            let known = index < parts.len();
            let p = after[index as int];
            &&& after.len() == if known {
                parts.len()
            } else {
                index + 1
            }
            &&& p.args == if known {
                parts[index as int].args + args
            } else {
                args
            }
            &&& id.len() > 0 ==> p.id == id
            &&& name.len() > 0 ==> p.name == name
            &&& id.len() == 0 && known ==> p.id == parts[index as int].id
            &&& name.len() == 0 && known ==> p.name == parts[index as int].name
            &&& id.len() == 0 && !known ==> p.id.len() == 0
            &&& name.len() == 0 && !known ==> p.name.len() == 0
            &&& forall|i: int|
                parts.len() <= i < index ==> (#[trigger] after[i]).id.len() == 0
                    && after[i].name.len() == 0 && after[i].args.len() == 0
        }),
{
    let p = padded(parts, index)[index as int];
    if index >= parts.len() {
        assert(p.args + args =~= args);
    }
}

/// Fragments are applied one after the other, and every other event is
/// passed on, in order: of a frame nothing is lost and nothing repeated.
pub proof fn law_frames_are_taken_in_order(
    parts: Seq<Part>,
    events: Seq<ProviderEventView>,
    e: ProviderEventView,
)
    ensures
        passed_on(events.push(e)) == if e is ToolCallFragment {
            passed_on(events)
        } else {
            passed_on(events).push(e)
        },
        passed_on(Seq::empty()).len() == 0,
        with_events(parts, Seq::empty()) == parts,
        e matches ProviderEventView::ToolCallFragment { index, id, name, args } ==> with_events(
            parts,
            events.push(e),
        ) == if index <= MAX_TOOL_CALL_INDEX {
            with_fragment(with_events(parts, events), index as nat, id, name, args)
        } else {
            with_events(parts, events)
        },
        !(e is ToolCallFragment) ==> with_events(parts, events.push(e)) == with_events(
            parts,
            events,
        ),
        said(passed_on(events)) == said(events),
        reasoned(passed_on(events)) == reasoned(events),
        usages(passed_on(events)) == usages(events),
        asked(passed_on(events)) == asked(events),
        fragments(passed_on(events)).len() == 0,
    decreases events.len(),
{
    assert(events.push(e).drop_last() =~= events);
    if events.len() > 0 {
        let head = events.drop_last();
        law_frames_are_taken_in_order(parts, head, e);
        if !(events.last() is ToolCallFragment) {
            assert(passed_on(events).drop_last() =~= passed_on(head));
        }
    }
}

/// The text of the member `key` of a choice's delta; nothing where it has
/// none.
pub open spec fn delta_of(choice: JsonView, key: Seq<char>) -> Seq<char> {
    text_or_empty(choice.text_at2("delta"@, key))
}

/// The texts that the choices bring, one after another.
pub open spec fn texts_of(choices: Seq<JsonView>) -> Seq<char>
    decreases choices.len(),
{
    if choices.len() == 0 {
        Seq::empty()
    } else {
        texts_of(choices.drop_last()) + delta_of(choices.last(), "content"@)
    }
}

/// The reasoning that the choices bring, under either of its names.
pub open spec fn thoughts_of(choices: Seq<JsonView>) -> Seq<char>
    decreases choices.len(),
{
    if choices.len() == 0 {
        Seq::empty()
    } else {
        thoughts_of(choices.drop_last()) + delta_of(choices.last(), "reasoning_content"@)
            + delta_of(choices.last(), "reasoning"@)
    }
}

/// The pieces of calls that the choices bring, in order.
pub open spec fn pieces_of(choices: Seq<JsonView>) -> Seq<JsonView>
    decreases choices.len(),
{
    if choices.len() == 0 {
        Seq::empty()
    } else {
        pieces_of(choices.drop_last()) + match choices.last().member2("delta"@, "tool_calls"@) {
            Some(tcs) => match tcs.items() {
                Some(v) => v,
                None => Seq::empty(),
            },
            None => Seq::empty(),
        }
    }
}

/// Whether the event is the fragment that the piece of a call stands for.
pub open spec fn is_fragment_of(e: ProviderEventView, tc: JsonView) -> bool {
    e matches ProviderEventView::ToolCallFragment { index, id, name, args } && {
        &&& index == tc.unsigned_at("index"@) as usize
        &&& id == text_or_empty(tc.text_at("id"@))
        &&& name == text_or_empty(tc.text_at2("function"@, "name"@))
        &&& args == text_or_empty(tc.text_at2("function"@, "arguments"@))
    }
}

/// Whether the events are the fragments that the pieces stand for.
pub open spec fn are_fragments_of(es: Seq<ProviderEventView>, tcs: Seq<JsonView>) -> bool {
    &&& es.len() == tcs.len()
    &&& forall|i: int| 0 <= i < es.len() ==> is_fragment_of(#[trigger] es[i], tcs[i])
}

proof fn lemma_some_reasoning(t: Option<Seq<char>>)
    ensures
        ({
            let es = reasoning_of(t);
            &&& reasoned(es) == text_or_empty(t)
            &&& said(es).len() == 0 && asked(es).len() == 0 && usages(es).len() == 0
            &&& fragments(es).len() == 0
        }),
{
    lemma_no_piece();
    match t {
        Some(s) => {
            lemma_one_piece(ProviderEventView::ReasoningDelta { delta: s });
        },
        None => {},
    }
}

proof fn lemma_some_text(t: Option<Seq<char>>)
    ensures
        ({
            let es = message_of(t);
            &&& said(es) == text_or_empty(t)
            &&& reasoned(es).len() == 0 && asked(es).len() == 0 && usages(es).len() == 0
            &&& fragments(es).len() == 0
        }),
{
    lemma_no_piece();
    match t {
        Some(s) => {
            lemma_one_piece(ProviderEventView::MessageDelta { delta: s });
        },
        None => {},
    }
}

proof fn lemma_all_fragments(es: Seq<ProviderEventView>)
    requires
        forall|i: int| 0 <= i < es.len() ==> #[trigger] es[i] is ToolCallFragment,
    ensures
        fragments(es) == es,
        said(es).len() == 0 && reasoned(es).len() == 0 && asked(es).len() == 0 && usages(es).len()
            == 0,
    decreases es.len(),
{
    if es.len() > 0 {
        let head = es.drop_last();
        assert forall|i: int| 0 <= i < head.len() implies #[trigger] head[i]
            is ToolCallFragment by {
            assert(es[i] is ToolCallFragment);
        }
        lemma_all_fragments(head);
        assert(es[es.len() - 1] is ToolCallFragment);
        assert(head.push(es.last()) =~= es);
    } else {
        assert(fragments(es) =~= es);
    }
}

proof fn lemma_choice(choice: JsonView)
    ensures
        ({
            let es = choice_events(choice);
            let delta = choice.member("delta"@);
            &&& said(es) == delta_of(choice, "content"@)
            &&& reasoned(es) == delta_of(choice, "reasoning_content"@) + delta_of(
                choice,
                "reasoning"@,
            )
            &&& asked(es).len() == 0 && usages(es).len() == 0
            &&& fragments(es) == match delta {
                Some(d) => fragments_of(d),
                None => Seq::empty(),
            }
        }),
{
    lemma_no_piece();
    match choice.member("delta"@) {
        Some(d) => {
            let a = reasoning_of(filled(d, "reasoning_content"@));
            let b = reasoning_of(filled(d, "reasoning"@));
            let c = message_of(filled(d, "content"@));
            let f = fragments_of(d);
            lemma_some_reasoning(filled(d, "reasoning_content"@));
            lemma_some_reasoning(filled(d, "reasoning"@));
            lemma_some_text(filled(d, "content"@));
            lemma_all_fragments(f);
            lemma_pieces(a, b);
            lemma_pieces(a + b, c);
            lemma_pieces(a + b + c, f);
            assert(text_or_empty(filled(d, "content"@)) =~= delta_of(choice, "content"@));
            assert(text_or_empty(filled(d, "reasoning_content"@)) =~= delta_of(
                choice,
                "reasoning_content"@,
            ));
            assert(text_or_empty(filled(d, "reasoning"@)) =~= delta_of(choice, "reasoning"@));
            let es = choice_events(choice);
            assert(said(es) =~= said(c));
            assert(reasoned(es) =~= reasoned(a) + reasoned(b));
            assert(fragments(es) =~= f);
        },
        None => {
            assert(reasoned(choice_events(choice)) =~= delta_of(choice, "reasoning_content"@)
                + delta_of(choice, "reasoning"@));
        },
    }
}

proof fn lemma_choices(choices: Seq<JsonView>)
    ensures
        ({
            let es = choices_events(choices);
            &&& said(es) == texts_of(choices)
            &&& reasoned(es) == thoughts_of(choices)
            &&& asked(es).len() == 0 && usages(es).len() == 0
            &&& are_fragments_of(fragments(es), pieces_of(choices))
        }),
    decreases choices.len(),
{
    lemma_no_piece();
    if choices.len() > 0 {
        let head = choices_events(choices.drop_last());
        let last = choice_events(choices.last());
        lemma_choices(choices.drop_last());
        lemma_choice(choices.last());
        lemma_pieces(head, last);
        assert(thoughts_of(choices) =~= thoughts_of(choices.drop_last()) + (delta_of(
            choices.last(),
            "reasoning_content"@,
        ) + delta_of(choices.last(), "reasoning"@)));
        let fs = fragments(choices_events(choices));
        let before = fragments(head);
        assert forall|i: int| 0 <= i < fs.len() implies is_fragment_of(
            #[trigger] fs[i],
            pieces_of(choices)[i],
        ) by {
            if i < before.len() {
                assert(fs[i] == before[i]);
                assert(pieces_of(choices)[i] == pieces_of(choices.drop_last())[i]);
            } else {
                assert(fs[i] == fragments(last)[i - before.len()]);
            }
        }
    }
}

/// The choices of a chunk; none where it has no such list.
pub open spec fn choices_of(v: JsonView) -> Seq<JsonView> {
    match v.member("choices"@) {
        Some(c) => match c.items() {
            Some(choices) => choices,
            None => Seq::empty(),
        },
        None => Seq::empty(),
    }
}

/// A chunk brings what it holds and nothing else: the texts of its choices,
/// their reasoning and their pieces of calls, each in order, and its usage
/// where the total is positive. A chunk with an error brings that error
/// alone.
pub proof fn law_chunk_brings_what_it_holds(v: JsonView)
    ensures
        v.member("error"@) is None || v.member("error"@)->0 is Null ==> {
            let es = value_events(v);
            &&& said(es) == texts_of(choices_of(v))
            &&& reasoned(es) == thoughts_of(choices_of(v))
            &&& are_fragments_of(fragments(es), pieces_of(choices_of(v)))
            &&& asked(es).len() == 0
            &&& match v.member("usage"@) {
                Some(u) => if u.signed_at("total_tokens"@) > 0 {
                    &&& usages(es).len() == 1
                    &&& usages(es)[0].input_tokens == u.signed_at("prompt_tokens"@)
                    &&& usages(es)[0].output_tokens == u.signed_at("completion_tokens"@)
                    &&& usages(es)[0].total_tokens == u.signed_at("total_tokens"@)
                } else {
                    usages(es).len() == 0
                },
                None => usages(es).len() == 0,
            }
        },
        v.member("error"@) matches Some(e) ==> !(e is Null) ==> {
            let es = value_events(v);
            &&& es.len() == 1
            &&& es[0] matches ProviderEventView::ProviderError { message } && {
                &&& e matches JsonView::Str(s) ==> message == s
                &&& !(e is Str) && e.text_at("message"@) is Some ==> message == e.text_at(
                    "message"@,
                )->0
            }
        },
{
    lemma_no_piece();
    lemma_choices(choices_of(v));
    lemma_pieces(chunk_usage(v), choices_events(choices_of(v)));
    if chunk_usage(v).len() > 0 {
        assert(chunk_usage(v) =~= seq![chunk_usage(v)[0]]);
        lemma_one_piece(chunk_usage(v)[0]);
    } else {
        assert(chunk_usage(v) =~= Seq::empty());
    }
    let es = chunk_usage(v) + choices_events(choices_of(v));
    assert(said(es) =~= texts_of(choices_of(v)));
    assert(reasoned(es) =~= thoughts_of(choices_of(v)));
    assert(fragments(es) =~= fragments(choices_events(choices_of(v))));
    assert(usages(es) =~= usages(chunk_usage(v)));
}

/// A frame brings the events of its value, and none where it is blank or not
/// JSON.
pub proof fn law_frame_brings_its_events(data: Seq<char>)
    ensures
        frame_value(data) is None ==> chunk_events(data).len() == 0,
        frame_value(data) matches Some(v) ==> chunk_events(data) == value_events(v),
{
}

/// A base address loses the slashes at its end, all of them, and nothing
/// else.
pub proof fn law_base_address_loses_slashes_only(url: Seq<char>)
    ensures
        ({
            let r = without_slashes(url);
            &&& r.len() <= url.len()
            &&& r == url.take(r.len() as int)
            &&& r.len() > 0 ==> r.last() != '/'
            &&& forall|i: int| r.len() <= i < url.len() ==> #[trigger] url[i] == '/'
        }),
{
    crate::text::law_trailing_characters_are_cut(url, '/');
}

} // verus!

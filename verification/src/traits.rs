//! What passes between the agent, the model providers and the tools.

use vstd::prelude::*;

use crate::json::{Json, JsonView};
use crate::message::{Message, MessageView, ToolCall, ToolCallView, Usage};
use crate::seqs::{group_views, opt_view, views};
use crate::text::copy_of;

verus! {

broadcast use group_views;

/// A request ready to be sent to a model. Providers translate it into their
/// wire format.
#[derive(Debug, PartialEq)]
pub struct ModelRequest {
    pub messages: Vec<Message>,
    /// Tool specs in JSON-schema form.
    pub tools: Vec<ToolSpec>,
    pub model: String,
    /// Sampling temperature, a JSON number; nothing for the provider's own.
    pub temperature: Option<Json>,
    pub max_tokens: u32,
    /// Hint that the client wants reasoning streamed where it is available.
    pub stream_reasoning: bool,
}

/// What a [`ModelRequest`] stands for.
#[verifier::ext_equal]
pub struct ModelRequestView {
    pub messages: Seq<MessageView>,
    pub tools: Seq<ToolSpecView>,
    pub model: Seq<char>,
    pub temperature: Option<JsonView>,
    pub max_tokens: u32,
    pub stream_reasoning: bool,
}

impl View for ModelRequest {
    type V = ModelRequestView;

    open spec fn view(&self) -> ModelRequestView {
        ModelRequestView {
            messages: views(self.messages@),
            tools: views(self.tools@),
            model: self.model@,
            temperature: opt_view(self.temperature),
            max_tokens: self.max_tokens,
            stream_reasoning: self.stream_reasoning,
        }
    }
}

/// A tool as it is described to the model.
#[derive(Debug, PartialEq)]
pub struct ToolSpec {
    pub name: String,
    pub description: String,
    /// JSON Schema for the arguments object.
    pub parameters: Json,
}

/// What a [`ToolSpec`] stands for.
#[verifier::ext_equal]
pub struct ToolSpecView {
    pub name: Seq<char>,
    pub description: Seq<char>,
    pub parameters: JsonView,
}

impl View for ToolSpec {
    type V = ToolSpecView;

    open spec fn view(&self) -> ToolSpecView {
        ToolSpecView {
            name: self.name@,
            description: self.description@,
            parameters: self.parameters@,
        }
    }
}

impl Clone for ToolSpec {
    fn clone(&self) -> (r: Self)
        ensures
            r@ == self@,
    {
        ToolSpec {
            name: copy_of(&self.name),
            description: copy_of(&self.description),
            parameters: self.parameters.clone(),
        }
    }
}

/// A copy of the specs.
pub fn copy_specs(specs: &Vec<ToolSpec>) -> (r: Vec<ToolSpec>)
    ensures
        views(r@) == views(specs@),
        r@.len() == specs@.len(),
        forall|i: int| 0 <= i < specs@.len() ==> (#[trigger] r@[i])@ == specs@[i]@,
{
    let n: usize = specs.len();
    let mut r: Vec<ToolSpec> = Vec::new();
    for i in 0..n
        invariant
            n == specs@.len(),
            views(r@) == views(specs@).take(i as int),
    {
        r.push(specs[i].clone());
        assert(views(r@) =~= views(specs@).take(i + 1));
    }
    assert(views(specs@).take(n as int) =~= views(specs@));
    proof {
        assert(views(r@).len() == views(specs@).len());
        assert forall|i: int| 0 <= i < specs@.len() implies (#[trigger] r@[i])@ == specs@[i]@ by {
            assert(views(r@)[i] == views(specs@)[i]);
        }
    }
    r
}

/// One streaming event from a provider.
#[derive(Debug, PartialEq)]
pub enum ProviderEvent {
    /// Incremental assistant text.
    MessageDelta { delta: String },
    /// Incremental chain-of-thought.
    ReasoningDelta { delta: String },
    /// A piece of a tool call. Providers put the pieces together; the agent
    /// sees complete calls only, unless a provider forwards fragments.
    ToolCallFragment { index: usize, id: String, name: String, args: String },
    /// Complete tool calls requested by the model.
    ToolCalls { calls: Vec<ToolCall> },
    /// Final usage for the response.
    Usage { usage: Usage },
    /// Provider error in the middle of a stream. The stream counts as
    /// finished after this.
    ProviderError { message: String },
    /// The stream finished normally.
    Done,
}

/// What a [`ProviderEvent`] stands for.
#[verifier::ext_equal]
pub enum ProviderEventView {
    MessageDelta { delta: Seq<char> },
    ReasoningDelta { delta: Seq<char> },
    ToolCallFragment { index: usize, id: Seq<char>, name: Seq<char>, args: Seq<char> },
    ToolCalls { calls: Seq<ToolCallView> },
    Usage { usage: Usage },
    ProviderError { message: Seq<char> },
    Done,
}

impl View for ProviderEvent {
    type V = ProviderEventView;

    open spec fn view(&self) -> ProviderEventView {
        match self {
            ProviderEvent::MessageDelta { delta } => ProviderEventView::MessageDelta {
                delta: delta@,
            },
            ProviderEvent::ReasoningDelta { delta } => ProviderEventView::ReasoningDelta {
                delta: delta@,
            },
            ProviderEvent::ToolCallFragment { index, id, name, args } => {
                ProviderEventView::ToolCallFragment {
                    index: *index,
                    id: id@,
                    name: name@,
                    args: args@,
                }
            },
            ProviderEvent::ToolCalls { calls } => ProviderEventView::ToolCalls {
                calls: views(calls@),
            },
            ProviderEvent::Usage { usage } => ProviderEventView::Usage { usage: *usage },
            ProviderEvent::ProviderError { message } => ProviderEventView::ProviderError {
                message: message@,
            },
            ProviderEvent::Done => ProviderEventView::Done,
        }
    }
}

/// What a tool reports while it runs.
pub trait ToolCallbacks {
    /// One more piece of output of the call.
    fn output_delta(&self, call_id: &str, chunk: String);
}

/// Result of executing a tool.
#[derive(Debug, PartialEq)]
pub struct ToolOutput {
    /// Final merged text returned to the model.
    pub content: String,
    pub exit_code: Option<i32>,
    pub timed_out: bool,
    pub duration_ms: u64,
}

/// What a [`ToolOutput`] stands for.
#[verifier::ext_equal]
pub struct ToolOutputView {
    pub content: Seq<char>,
    pub exit_code: Option<i32>,
    pub timed_out: bool,
    pub duration_ms: u64,
}

impl View for ToolOutput {
    type V = ToolOutputView;

    open spec fn view(&self) -> ToolOutputView {
        ToolOutputView {
            content: self.content@,
            exit_code: self.exit_code,
            timed_out: self.timed_out,
            duration_ms: self.duration_ms,
        }
    }
}

} // verus!

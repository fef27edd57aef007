//! What the user interface and the storage layer observe of a turn.

use vstd::prelude::*;

use crate::message::Usage;

verus! {

/// Everything that is observed of a turn, in order. The agent is the only
/// producer.
#[derive(Debug, PartialEq)]
pub enum AgentEvent {
    /// A user turn has begun (the model request is about to be sent).
    TurnStarted,
    /// Incremental assistant text output.
    MessageDelta { delta: String },
    /// Incremental chain-of-thought output.
    ReasoningDelta { delta: String },
    /// The model requested a tool call; execution is starting.
    ToolCallStarted { call_id: String, name: String, command: String },
    /// Live chunk of tool output (stdout and stderr merged).
    ToolCallOutputDelta { call_id: String, chunk: String },
    /// The tool call needs the user's approval before it may run; the turn
    /// waits for the answer.
    ApprovalRequested { call_id: String, tool: String, command: String },
    /// The tool finished. `output` is its whole merged text.
    ToolCallCompleted {
        call_id: String,
        exit_code: Option<i32>,
        timed_out: bool,
        duration_ms: u64,
        output: String,
    },
    /// The token accounting was refreshed.
    TokenCountUpdated { used: i64, limit: i64 },
    /// Context compaction began.
    CompactionStarted,
    /// Context compaction finished.
    CompactionCompleted { tokens_before: i64, tokens_after: i64 },
    /// Non-fatal warning.
    Warning { message: String },
    /// A turn finished (success or error); `usage` is cumulative for the
    /// turn.
    TurnCompleted { usage: Usage },
    /// Fatal or per-turn error surfaced to the user.
    Error { message: String },
}

/// What an [`AgentEvent`] stands for.
#[verifier::ext_equal]
pub enum AgentEventView {
    TurnStarted,
    MessageDelta { delta: Seq<char> },
    ReasoningDelta { delta: Seq<char> },
    ToolCallStarted { call_id: Seq<char>, name: Seq<char>, command: Seq<char> },
    ToolCallOutputDelta { call_id: Seq<char>, chunk: Seq<char> },
    ApprovalRequested { call_id: Seq<char>, tool: Seq<char>, command: Seq<char> },
    ToolCallCompleted {
        call_id: Seq<char>,
        exit_code: Option<i32>,
        timed_out: bool,
        duration_ms: u64,
        output: Seq<char>,
    },
    TokenCountUpdated { used: i64, limit: i64 },
    CompactionStarted,
    CompactionCompleted { tokens_before: i64, tokens_after: i64 },
    Warning { message: Seq<char> },
    TurnCompleted { usage: Usage },
    Error { message: Seq<char> },
}

impl View for AgentEvent {
    type V = AgentEventView;

    open spec fn view(&self) -> AgentEventView {
        match self {
            AgentEvent::TurnStarted => AgentEventView::TurnStarted,
            AgentEvent::MessageDelta { delta } => AgentEventView::MessageDelta { delta: delta@ },
            AgentEvent::ReasoningDelta { delta } => AgentEventView::ReasoningDelta {
                delta: delta@,
            },
            AgentEvent::ToolCallStarted { call_id, name, command } => {
                AgentEventView::ToolCallStarted {
                    call_id: call_id@,
                    name: name@,
                    command: command@,
                }
            },
            AgentEvent::ToolCallOutputDelta { call_id, chunk } => {
                AgentEventView::ToolCallOutputDelta { call_id: call_id@, chunk: chunk@ }
            },
            AgentEvent::ApprovalRequested { call_id, tool, command } => {
                AgentEventView::ApprovalRequested {
                    call_id: call_id@,
                    tool: tool@,
                    command: command@,
                }
            },
            AgentEvent::ToolCallCompleted {
                call_id,
                exit_code,
                timed_out,
                duration_ms,
                output,
            } => AgentEventView::ToolCallCompleted {
                call_id: call_id@,
                exit_code: *exit_code,
                timed_out: *timed_out,
                duration_ms: *duration_ms,
                output: output@,
            },
            AgentEvent::TokenCountUpdated { used, limit } => AgentEventView::TokenCountUpdated {
                used: *used,
                limit: *limit,
            },
            AgentEvent::CompactionStarted => AgentEventView::CompactionStarted,
            AgentEvent::CompactionCompleted { tokens_before, tokens_after } => {
                AgentEventView::CompactionCompleted {
                    tokens_before: *tokens_before,
                    tokens_after: *tokens_after,
                }
            },
            AgentEvent::Warning { message } => AgentEventView::Warning { message: message@ },
            AgentEvent::TurnCompleted { usage } => AgentEventView::TurnCompleted {
                usage: *usage,
            },
            AgentEvent::Error { message } => AgentEventView::Error { message: message@ },
        }
    }
}

} // verus!

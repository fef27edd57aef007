//! The agent: one user turn as a state machine. Model requests, tool
//! execution, permission decisions and storage are outside work; the machine
//! says what is awaited next, takes the reply, and says what is to be
//! reported.
//!
//! A turn runs: compaction where it is due, the user message, then model
//! request, streamed answer and tool calls, until the model answers without
//! asking for a tool. Compaction is checked before the turn and after every
//! tool output. Whatever the outcome, the turn ends with `TurnCompleted`,
//! and an `Error` goes before it where the turn failed.

use vstd::prelude::*;

use crate::budget::{BudgetView, TurnBudget};
use crate::compact::{
    truncate_middle_bytes,
    truncated,
    CompactStep,
    CompactStepView,
    Compaction,
    CompactionView,
};
use crate::config::{BudgetConfig, ContextConfig};
use crate::context::{clamp64, sat_sum, ContextManager, ContextView};
use crate::error::{error_text, Error, ErrorView};
use crate::event::{AgentEvent, AgentEventView};
use crate::json::{json_text, Json, JsonView};
use crate::message::{
    copy_calls,
    copy_messages,
    no_usage,
    Message,
    MessageView,
    ToolCall,
    ToolCallView,
    Usage,
};
use crate::seqs::{group_views, opt_view, views};
use crate::session::{PermissionDecision, ToolEventState};
use crate::text::{copy_of, join2, join3, str_eq};
use crate::traits::{
    copy_specs,
    ModelRequest,
    ModelRequestView,
    ProviderEvent,
    ProviderEventView,
    ToolOutput,
    ToolOutputView,
    ToolSpec,
    ToolSpecView,
};

verus! {

broadcast use group_views;

/// What a turn goes on with after a compaction.
#[derive(Debug, Clone, Copy, PartialEq, Eq, Structural)]
pub enum Resume {
    /// The turn has not begun yet.
    BeforeTurn,
    /// The current call is done; the next one is looked at.
    AfterCall,
    /// The request that did not fit is made again.
    Retry,
    /// Nothing: the user asked for the compaction.
    Manual,
}

/// What a turn goes on with after the transcript was saved.
#[derive(Debug, PartialEq)]
pub enum AfterSave {
    /// The user message is recorded.
    BeginTurn,
    /// The assistant message is recorded.
    Answered,
    /// The refusal of the current call is recorded.
    Denied,
    /// The result of the current call is recorded.
    ResultRecorded { is_error: bool, content: String },
    /// The calls that will not run are recorded; the turn fails.
    Stop(Error),
    /// A compaction is recorded.
    Compacted(Resume),
    /// The turn succeeds.
    Final,
}

/// Where a turn stands.
#[derive(Debug, PartialEq)]
pub enum Phase {
    /// No turn has begun.
    Idle,
    /// A model request is to be sent.
    Opening,
    /// The answer is being streamed.
    Streaming,
    /// The permission policy is asked about the current call.
    Deciding,
    /// The user is asked about the current call.
    Approving,
    /// The current call is being executed.
    Executing,
    /// The transcript is being saved.
    Saving(AfterSave),
    /// A summarization request is to be sent.
    AskingSummary(Resume),
    /// The summary is being streamed.
    ReadingSummary(Resume),
    /// The turn has ended.
    Finished,
}

/// What an [`AfterSave`] stands for.
#[verifier::ext_equal]
pub enum AfterSaveView {
    BeginTurn,
    Answered,
    Denied,
    ResultRecorded { is_error: bool, content: Seq<char> },
    Stop(ErrorView),
    Compacted(Resume),
    Final,
}

/// What a [`Phase`] stands for.
#[verifier::ext_equal]
pub enum PhaseView {
    Idle,
    Opening,
    Streaming,
    Deciding,
    Approving,
    Executing,
    Saving(AfterSaveView),
    AskingSummary(Resume),
    ReadingSummary(Resume),
    Finished,
}

impl View for AfterSave {
    type V = AfterSaveView;

    open spec fn view(&self) -> AfterSaveView {
        match self {
            AfterSave::BeginTurn => AfterSaveView::BeginTurn,
            AfterSave::Answered => AfterSaveView::Answered,
            AfterSave::Denied => AfterSaveView::Denied,
            AfterSave::ResultRecorded { is_error, content } => AfterSaveView::ResultRecorded {
                is_error: *is_error,
                content: content@,
            },
            AfterSave::Stop(e) => AfterSaveView::Stop(e@),
            AfterSave::Compacted(r) => AfterSaveView::Compacted(*r),
            AfterSave::Final => AfterSaveView::Final,
        }
    }
}

impl View for Phase {
    type V = PhaseView;

    open spec fn view(&self) -> PhaseView {
        match self {
            Phase::Idle => PhaseView::Idle,
            Phase::Opening => PhaseView::Opening,
            Phase::Streaming => PhaseView::Streaming,
            Phase::Deciding => PhaseView::Deciding,
            Phase::Approving => PhaseView::Approving,
            Phase::Executing => PhaseView::Executing,
            Phase::Saving(n) => PhaseView::Saving(n@),
            Phase::AskingSummary(r) => PhaseView::AskingSummary(*r),
            Phase::ReadingSummary(r) => PhaseView::ReadingSummary(*r),
            Phase::Finished => PhaseView::Finished,
        }
    }
}

/// What is to be reported, in order.
#[derive(Debug, PartialEq)]
pub enum Effect {
    /// An event for the user interface.
    Emit(AgentEvent),
    /// The execution log notes that a call starts.
    LogStarted(ToolCall),
    /// The execution log notes how a call ended.
    LogFinished { call_id: String, state: ToolEventState, output: String },
}

/// What an [`Effect`] stands for.
#[verifier::ext_equal]
pub enum EffectView {
    Emit(AgentEventView),
    LogStarted(ToolCallView),
    LogFinished { call_id: Seq<char>, state: ToolEventState, output: Seq<char> },
}

impl View for Effect {
    type V = EffectView;

    open spec fn view(&self) -> EffectView {
        match self {
            Effect::Emit(e) => EffectView::Emit(e@),
            Effect::LogStarted(c) => EffectView::LogStarted(c@),
            Effect::LogFinished { call_id, state, output } => EffectView::LogFinished {
                call_id: call_id@,
                state: *state,
                output: output@,
            },
        }
    }
}

/// What comes back from the outside.
#[derive(Debug)]
pub enum Reply {
    /// The request was accepted; its answer can be read.
    Opened,
    /// The request failed.
    Failed(Error),
    /// The request was not sent: nobody receives the events any more. A
    /// compaction that has only just been announced ends with it.
    Unheard,
    /// One event of the answer.
    Event(ProviderEvent),
    /// The answer is over.
    End,
    /// Reading the answer was given up because the user cancelled. Without
    /// the user's signal beside it this is no cancellation, and the turn
    /// goes on.
    Cancelled,
    /// The permission policy's decision.
    Decision(PermissionDecision),
    /// The user's answer.
    Answer(bool),
    /// The tool came to an end after `elapsed_ms` milliseconds.
    Executed { result: Result<ToolOutput, Error>, elapsed_ms: u64 },
    /// The transcript was saved, or was not.
    Saved(Result<(), Error>),
}

/// What a [`Reply`] stands for.
#[verifier::ext_equal]
pub enum ReplyView {
    Opened,
    Failed(ErrorView),
    Unheard,
    Event(ProviderEventView),
    End,
    Cancelled,
    Decision(PermissionDecision),
    Answer(bool),
    Executed { result: Result<ToolOutputView, ErrorView>, elapsed_ms: u64 },
    Saved(Result<(), ErrorView>),
}

impl View for Reply {
    type V = ReplyView;

    open spec fn view(&self) -> ReplyView {
        match self {
            Reply::Opened => ReplyView::Opened,
            Reply::Failed(e) => ReplyView::Failed(e@),
            Reply::Unheard => ReplyView::Unheard,
            Reply::Event(ev) => ReplyView::Event(ev@),
            Reply::End => ReplyView::End,
            Reply::Cancelled => ReplyView::Cancelled,
            Reply::Decision(d) => ReplyView::Decision(*d),
            Reply::Answer(b) => ReplyView::Answer(*b),
            Reply::Executed { result, elapsed_ms } => ReplyView::Executed {
                result: match result {
                    Ok(o) => Ok(o@),
                    Err(e) => Err(e@),
                },
                elapsed_ms: *elapsed_ms,
            },
            Reply::Saved(r) => ReplyView::Saved(
                match r {
                    Ok(_) => Ok(()),
                    Err(e) => Err(e@),
                },
            ),
        }
    }
}

/// What holds outside when a reply is handed in.
#[derive(Debug, Clone, Copy, PartialEq, Eq, Structural)]
pub struct Signal {
    /// The user has cancelled the turn.
    pub cancelled: bool,
    /// Seconds since `TurnStarted`.
    pub elapsed_secs: u64,
}

/// What is awaited from the outside.
#[derive(Debug, Clone, Copy, PartialEq, Eq, Structural)]
pub enum Await {
    /// Nothing: no turn is running.
    Nothing,
    /// [`Agent::request`] is to be sent.
    OpenStream,
    /// The next event of the answer.
    NextEvent,
    /// The permission policy's decision on [`Agent::current_call`].
    Decision,
    /// The user's answer on [`Agent::current_call`].
    Answer,
    /// The execution of [`Agent::current_call`].
    Execution,
    /// The transcript is to be saved as [`Agent::save_plan`] says.
    Save,
    /// [`Agent::summary_request`] is to be sent.
    OpenSummary,
    /// The next event of the summary.
    NextSummaryEvent,
}

/// How the transcript is saved.
#[derive(Debug, Clone, Copy, PartialEq, Eq, Structural)]
pub enum SavePlan {
    /// Nothing is saved: the conversation has no session.
    Skip,
    /// The messages from `from` on are appended.
    Append { from: usize },
    /// The stored transcript is replaced.
    Replace,
}

/// The agent: its conversation and the turn under way.
#[derive(Debug)]
pub struct Agent {
    pub context: ContextManager,
    /// The tools that can be called.
    pub tools: Vec<ToolSpec>,
    pub api_key: String,
    /// Model name sent with every request.
    pub model: String,
    /// Sampling temperature, a JSON number; nothing for the provider's own.
    pub temperature: Option<Json>,
    pub max_tokens: u32,
    /// Per-turn budget limits and loop-detection threshold.
    pub budget: BudgetConfig,
    /// Session for persistence; nothing for an ephemeral conversation.
    pub session_id: Option<u128>,
    /// How many history items are already stored. Growth appends; a
    /// shrunken history triggers one full replace.
    pub persisted_len: usize,
    /// Set after compaction replaced the history: the next save must rewrite
    /// the transcript (content changed even if the length did not shrink),
    /// and only a successful rewrite clears it.
    pub history_replaced: bool,
    /// Set while transcript writes are failing, so that the user gets one
    /// clear warning per failure streak.
    pub persist_failed: bool,
    /// Whether a user can be asked for approval.
    pub approvals_enabled: bool,
    /// Where the turn stands.
    pub phase: Phase,
    /// The user's message.
    pub input: String,
    /// Usage of the turn so far.
    pub usage: Usage,
    /// Budget of the turn so far.
    pub spent: TurnBudget,
    /// Whether a request that did not fit was already made again.
    pub overflow_retried: bool,
    /// Text of the current answer.
    pub text: String,
    /// Calls of the current answer.
    pub calls: Vec<ToolCall>,
    /// The current call.
    pub at: usize,
    /// The compaction under way.
    pub compaction: Option<Compaction>,
    /// Tokens before and after the last compaction.
    pub compacted: (i64, i64),
    /// How the turn ended.
    pub result: Result<String, Error>,
    /// What is to be reported of the current step.
    pub out: Vec<Effect>,
}

/// What an [`Agent`] stands for.
#[verifier::ext_equal]
pub struct AgentView {
    pub context: ContextView,
    pub tools: Seq<ToolSpecView>,
    pub api_key: Seq<char>,
    pub model: Seq<char>,
    pub temperature: Option<JsonView>,
    pub max_tokens: u32,
    pub budget: BudgetConfig,
    pub session_id: Option<u128>,
    pub persisted_len: nat,
    pub history_replaced: bool,
    pub persist_failed: bool,
    pub approvals_enabled: bool,
    pub phase: PhaseView,
    pub input: Seq<char>,
    pub usage: Usage,
    pub spent: BudgetView,
    pub overflow_retried: bool,
    pub text: Seq<char>,
    pub calls: Seq<ToolCallView>,
    pub at: nat,
    pub compaction: Option<CompactionView>,
    pub compacted: (i64, i64),
    pub result: Result<Seq<char>, ErrorView>,
    pub out: Seq<EffectView>,
}

impl View for Agent {
    type V = AgentView;

    open spec fn view(&self) -> AgentView {
        AgentView {
            context: self.context@,
            tools: views(self.tools@),
            api_key: self.api_key@,
            model: self.model@,
            temperature: opt_view(self.temperature),
            max_tokens: self.max_tokens,
            budget: self.budget,
            session_id: self.session_id,
            persisted_len: self.persisted_len as nat,
            history_replaced: self.history_replaced,
            persist_failed: self.persist_failed,
            approvals_enabled: self.approvals_enabled,
            phase: self.phase@,
            input: self.input@,
            usage: self.usage,
            spent: self.spent@,
            overflow_retried: self.overflow_retried,
            text: self.text@,
            calls: views(self.calls@),
            at: self.at as nat,
            compaction: opt_view(self.compaction),
            compacted: self.compacted,
            result: match self.result {
                Ok(t) => Ok(t@),
                Err(e) => Err(e@),
            },
            out: views(self.out@),
        }
    }
}

/// The result recorded for a call that the user cancelled.
pub open spec fn cancelled_note() -> Seq<char> {
    "cancelled by user"@
}

/// The result recorded for a call that a budget kept from running.
pub open spec fn not_executed_note(reason: Seq<char>) -> Seq<char> {
    "not executed: "@ + reason
}

/// The result recorded for a call that was not permitted.
pub open spec fn refusal(name: Seq<char>) -> Seq<char> {
    "Permission denied for tool "@ + name
}

/// The warning before a request that did not fit is made again.
pub open spec fn overflow_warning() -> Seq<char> {
    "context window exceeded; compacting and retrying once"@
}

/// The warning after a compaction.
pub open spec fn accuracy_warning() -> Seq<char> {
    "Heads up: long threads and multiple compactions can reduce model accuracy. Consider starting a fresh session."@
}

/// The warning when saving works again.
pub open spec fn recovered_warning() -> Seq<char> {
    "transcript saving recovered"@
}

/// The warning when saving begins to fail.
pub open spec fn save_failed_warning(e: ErrorView) -> Seq<char> {
    "transcript saving failed: "@ + error_text(e)
        + " — the conversation continues but is not being saved"@
}

/// The result message for a call.
pub open spec fn result_message(
    id: Seq<char>,
    content: Seq<char>,
    is_error: bool,
) -> MessageView {
    MessageView::ToolResult { tool_call_id: id, content, is_error }
}

/// The event that a call starts.
pub open spec fn started_event(c: ToolCallView) -> AgentEventView {
    AgentEventView::ToolCallStarted {
        call_id: c.id,
        name: c.name,
        command: json_text(c.arguments),
    }
}

/// The event that a call ended without an exit code.
pub open spec fn ended_event(
    id: Seq<char>,
    duration_ms: u64,
    output: Seq<char>,
) -> AgentEventView {
    AgentEventView::ToolCallCompleted {
        call_id: id,
        exit_code: None,
        timed_out: false,
        duration_ms,
        output,
    }
}

impl AgentView {
    /// With one more event to report.
    pub open spec fn emit(self, ev: AgentEventView) -> AgentView {
        AgentView { out: self.out.push(EffectView::Emit(ev)), ..self }
    }

    /// With one more entry for the execution log, where there is a session.
    pub open spec fn log(self, e: EffectView) -> AgentView {
        if self.session_id is Some {
            AgentView { out: self.out.push(e), ..self }
        } else {
            self
        }
    }

    /// With one more message.
    pub open spec fn record(self, m: MessageView) -> AgentView {
        AgentView { context: self.context.push(m), ..self }
    }

    /// In another phase.
    pub open spec fn go(self, phase: PhaseView) -> AgentView {
        AgentView { phase, ..self }
    }

    /// The transcript is saved, then `next` follows.
    pub open spec fn save(self, next: AfterSaveView) -> AgentView {
        self.go(PhaseView::Saving(next))
    }

    /// The current call.
    pub open spec fn call(self) -> ToolCallView {
        self.calls[self.at as int]
    }

    /// The turn succeeds.
    pub open spec fn succeed(self) -> AgentView {
        AgentView { result: Ok(self.text), ..self }.emit(
            AgentEventView::TurnCompleted { usage: self.usage },
        ).go(PhaseView::Finished)
    }

    /// The turn fails.
    pub open spec fn fail(self, e: ErrorView) -> AgentView {
        AgentView { result: Err(e), ..self }.emit(
            AgentEventView::Error { message: error_text(e) },
        ).emit(AgentEventView::TurnCompleted { usage: no_usage() }).go(PhaseView::Finished)
    }

    /// The next model request is due, unless the user cancelled or a budget
    /// of the turn is used up.
    pub open spec fn next_attempt(self, sig: Signal) -> AgentView {
        if sig.cancelled {
            self.fail(ErrorView::Cancelled)
        } else {
            match self.spent.stop_between_attempts(sig.elapsed_secs, self.usage.total_tokens) {
                Some(reason) => self.fail(ErrorView::BudgetExceeded(reason)),
                None => AgentView { text: Seq::empty(), calls: Seq::empty(), at: 0, ..self }.go(
                    PhaseView::Opening,
                ),
            }
        }
    }

    /// The attempt failed: a request that does not fit is made again once,
    /// after a compaction; any other failure ends the turn.
    pub open spec fn attempt_failed(self, e: ErrorView) -> AgentView {
        if e is ContextWindowExceeded && !self.overflow_retried {
            AgentView { overflow_retried: true, ..self }.emit(
                AgentEventView::Warning { message: overflow_warning() },
            ).start_compaction(Resume::Retry)
        } else {
            self.fail(e)
        }
    }

    /// A compaction begins.
    pub open spec fn start_compaction(self, resume: Resume) -> AgentView {
        AgentView { compaction: Some(CompactionView::of(self.context)), ..self }.emit(
            AgentEventView::CompactionStarted,
        ).go(PhaseView::AskingSummary(resume))
    }

    /// A compaction begins where one is due and the user has not cancelled;
    /// else the turn goes on.
    pub open spec fn maybe_compact(self, resume: Resume, sig: Signal) -> AgentView {
        if !sig.cancelled && self.context.due() {
            self.start_compaction(resume)
        } else {
            self.resume(resume, sig)
        }
    }

    /// The turn goes on after a compaction, or where none was due.
    pub open spec fn resume(self, resume: Resume, sig: Signal) -> AgentView {
        match resume {
            Resume::BeforeTurn => self.record(MessageView::User { content: self.input }).save(
                AfterSaveView::BeginTurn,
            ),
            Resume::AfterCall => self.next_call().look_at_call(sig),
            Resume::Retry => self.next_attempt(sig),
            Resume::Manual => AgentView { result: Ok(Seq::empty()), ..self }.go(
                PhaseView::Finished,
            ),
        }
    }

    /// The next call becomes the current one.
    pub open spec fn next_call(self) -> AgentView {
        AgentView {
            at: if self.at < self.calls.len() {
                self.at + 1
            } else {
                self.at
            },
            ..self
        }
    }

    /// The current call is looked at: where there is none the next attempt
    /// follows; where the user cancelled or a budget is used up, it and the
    /// calls behind it are recorded as not run; else its permission is asked
    /// for.
    pub open spec fn look_at_call(self, sig: Signal) -> AgentView {
        if self.at >= self.calls.len() {
            self.next_attempt(sig)
        } else if sig.cancelled {
            self.skip_calls(self.at, cancelled_note()).save(
                AfterSaveView::Stop(ErrorView::Cancelled),
            )
        } else {
            let c = self.call();
            let args = json_text(c.arguments);
            let counted = AgentView { spent: self.spent.with_call(c.name, args), ..self };
            match self.spent.stop_before_call(c.name, args) {
                Some(reason) => counted.skip_calls(self.at, not_executed_note(reason)).save(
                    AfterSaveView::Stop(ErrorView::BudgetExceeded(reason)),
                ),
                None => counted.go(PhaseView::Deciding),
            }
        }
    }

    /// One call that will not run: its start, its result and its end are
    /// recorded, so that the history stays valid.
    pub open spec fn skip_call(self, c: ToolCallView, note: Seq<char>) -> AgentView {
        self.emit(started_event(c)).record(result_message(c.id, note, true)).emit(
            ended_event(c.id, 0, note),
        )
    }

    /// The calls from `from` on will not run.
    pub open spec fn skip_calls(self, from: nat, note: Seq<char>) -> AgentView
        decreases self.calls.len() - from,
    {
        if from >= self.calls.len() {
            self
        } else {
            self.skip_call(self.calls[from as int], note).skip_calls(from + 1, note)
        }
    }

    /// One event of the answer.
    pub open spec fn answer_event(self, ev: ProviderEventView) -> AgentView {
        match ev {
            ProviderEventView::MessageDelta { delta } => AgentView {
                text: self.text + delta,
                ..self
            }.emit(AgentEventView::MessageDelta { delta }),
            ProviderEventView::ReasoningDelta { delta } => self.emit(
                AgentEventView::ReasoningDelta { delta },
            ),
            ProviderEventView::ToolCallFragment { .. } => self,
            ProviderEventView::ToolCalls { calls } => AgentView {
                calls: self.calls + calls,
                ..self
            },
            ProviderEventView::Usage { usage } => self.count_usage(usage),
            ProviderEventView::ProviderError { message } => self.attempt_failed(
                ErrorView::Provider(message),
            ),
            ProviderEventView::Done => self.answer_ended(),
        }
    }

    /// Usage is cumulative for the turn. A total of 0 means that the
    /// provider reported none.
    pub open spec fn count_usage(self, usage: Usage) -> AgentView {
        if usage.total_tokens == 0 {
            self
        } else {
            let counted = AgentView {
                usage: Usage {
                    input_tokens: clamp64(self.usage.input_tokens + usage.input_tokens),
                    output_tokens: clamp64(self.usage.output_tokens + usage.output_tokens),
                    total_tokens: clamp64(self.usage.total_tokens + usage.total_tokens),
                },
                context: self.context.reported(usage),
                ..self
            };
            counted.emit(
                AgentEventView::TokenCountUpdated {
                    used: counted.context.accounting.used(),
                    limit: counted.context.limit() as i64,
                },
            )
        }
    }

    /// The answer is complete. One with neither text nor calls is an empty
    /// shell and is not recorded.
    pub open spec fn answer_ended(self) -> AgentView {
        if self.text.len() == 0 && self.calls.len() == 0 {
            self.save(AfterSaveView::Final)
        } else {
            self.record(
                MessageView::Assistant {
                    content: self.text,
                    reasoning: None,
                    tool_calls: self.calls,
                },
            ).save(AfterSaveView::Answered)
        }
    }

    /// The permission policy has decided on the current call.
    pub open spec fn decided(self, d: PermissionDecision) -> AgentView {
        match d {
            PermissionDecision::Allow => self.start_call(),
            PermissionDecision::Deny => self.deny_call(),
            PermissionDecision::Ask => if self.approvals_enabled {
                self.emit(
                    AgentEventView::ApprovalRequested {
                        call_id: self.call().id,
                        tool: self.call().name,
                        command: json_text(self.call().arguments),
                    },
                ).go(PhaseView::Approving)
            } else {
                self.deny_call()
            },
        }
    }

    /// The current call is not permitted.
    pub open spec fn deny_call(self) -> AgentView {
        let c = self.call();
        self.emit(started_event(c)).record(result_message(c.id, refusal(c.name), true)).log(
            EffectView::LogFinished {
                call_id: c.id,
                state: ToolEventState::Failed,
                output: refusal(c.name),
            },
        ).save(AfterSaveView::Denied)
    }

    /// Whether there is a tool of this name.
    pub open spec fn knows_tool(self, name: Seq<char>) -> bool {
        exists|i: int| 0 <= i < self.tools.len() && (#[trigger] self.tools[i]).name == name
    }

    /// The current call starts. Its start is logged before it runs, so that
    /// recovery can tell "never ran" from "ran, outcome unknown".
    pub open spec fn start_call(self) -> AgentView {
        let c = self.call();
        let started = AgentView { spent: self.spent.with_executed(), ..self }.emit(
            started_event(c),
        ).log(EffectView::LogStarted(c));
        if self.knows_tool(c.name) {
            started.go(PhaseView::Executing)
        } else {
            started.call_failed("tool error: "@ + error_text(
                ErrorView::Tool("unknown tool: "@ + c.name),
            ), 0)
        }
    }

    /// The current call came to an end.
    pub open spec fn call_ended(
        self,
        result: Result<ToolOutputView, ErrorView>,
        elapsed_ms: u64,
    ) -> AgentView {
        match result {
            Ok(o) => self.log(
                EffectView::LogFinished {
                    call_id: self.call().id,
                    state: ToolEventState::Completed,
                    output: o.content,
                },
            ).emit(
                AgentEventView::ToolCallCompleted {
                    call_id: self.call().id,
                    exit_code: o.exit_code,
                    timed_out: o.timed_out,
                    duration_ms: o.duration_ms,
                    output: o.content,
                },
            ).record_result(o.content, false),
            Err(ErrorView::Cancelled) => self.call_failed(cancelled_note(), elapsed_ms),
            Err(e) => self.call_failed("tool error: "@ + error_text(e), elapsed_ms),
        }
    }

    /// The current call failed.
    pub open spec fn call_failed(self, note: Seq<char>, elapsed_ms: u64) -> AgentView {
        self.log(
            EffectView::LogFinished {
                call_id: self.call().id,
                state: ToolEventState::Failed,
                output: note,
            },
        ).emit(ended_event(self.call().id, elapsed_ms, note)).record_result(note, true)
    }

    /// The result of the current call is recorded, truncated to the
    /// configured size.
    pub open spec fn record_result(self, content: Seq<char>, is_error: bool) -> AgentView {
        let kept = truncated(content, self.context.cfg.tool_output_max_bytes as nat);
        self.record(result_message(self.call().id, kept, is_error)).save(
            AfterSaveView::ResultRecorded { is_error, content: kept },
        )
    }

    /// The compaction has moved on.
    pub open spec fn compaction_moved(
        self,
        resume: Resume,
        moved: (CompactionView, CompactStepView),
        sig: Signal,
    ) -> AgentView {
        let with = AgentView { compaction: Some(moved.0), ..self };
        match moved.1 {
            CompactStepView::More => with.go(PhaseView::ReadingSummary(resume)),
            CompactStepView::Ask => with.go(PhaseView::AskingSummary(resume)),
            CompactStepView::Done => with.compaction_done(resume),
            CompactStepView::Failed(e) => with.compaction_failed(resume, e),
        }
    }

    /// The history is replaced; the next save must rewrite the transcript.
    pub open spec fn compaction_done(self, resume: Resume) -> AgentView {
        let c = self.compaction->0;
        let context = c.outcome(self.context);
        let tokens = (c.tokens_before, context.accounting.local_estimate);
        AgentView {
            context,
            compaction: None,
            compacted: tokens,
            history_replaced: true,
            ..self
        }.emit(
            AgentEventView::CompactionCompleted { tokens_before: tokens.0, tokens_after: tokens.1 },
        ).emit(AgentEventView::Warning { message: accuracy_warning() }).save(
            AfterSaveView::Compacted(resume),
        )
    }

    /// The compaction failed: after a call this counts as a failed attempt,
    /// else it ends the turn.
    pub open spec fn compaction_failed(self, resume: Resume, e: ErrorView) -> AgentView {
        let without = AgentView { compaction: None, ..self };
        match resume {
            Resume::AfterCall => without.attempt_failed(e),
            Resume::Manual => AgentView { result: Err(e), ..without }.go(PhaseView::Finished),
            _ => without.fail(e),
        }
    }

    /// The transcript was saved, or was not. A failing store is reported
    /// once per streak, and so is its recovery; the turn goes on.
    pub open spec fn note_saved(self, r: Result<(), ErrorView>) -> AgentView {
        if self.session_id is None {
            self
        } else {
            match r {
                Ok(_) => {
                    let stored = AgentView {
                        persisted_len: self.context.items.len(),
                        history_replaced: false,
                        persist_failed: false,
                        ..self
                    };
                    if self.persist_failed {
                        stored.emit(AgentEventView::Warning { message: recovered_warning() })
                    } else {
                        stored
                    }
                },
                Err(e) => if self.persist_failed {
                    self
                } else {
                    AgentView { persist_failed: true, ..self }.emit(
                        AgentEventView::Warning { message: save_failed_warning(e) },
                    )
                },
            }
        }
    }

    /// What follows the save after a compaction that the user asked for: a
    /// failing store is that command's error, and the rewrite stays due.
    pub open spec fn manual_saved(self, r: Result<(), ErrorView>) -> AgentView {
        match r {
            Err(e) if self.session_id is Some => AgentView {
                result: Err(ErrorView::Storage(error_text(e))),
                ..self
            }.go(PhaseView::Finished),
            _ => {
                let stored = if self.session_id is Some {
                    AgentView {
                        persisted_len: self.context.items.len(),
                        history_replaced: false,
                        ..self
                    }
                } else {
                    self
                };
                AgentView { result: Ok(Seq::empty()), ..stored }.go(PhaseView::Finished)
            },
        }
    }

    /// The turn goes on after a save.
    pub open spec fn saved(self, next: AfterSaveView, sig: Signal) -> AgentView {
        match next {
            AfterSaveView::BeginTurn => self.emit(AgentEventView::TurnStarted).next_attempt(sig),
            AfterSaveView::Answered => if self.calls.len() == 0 {
                self.save(AfterSaveView::Final)
            } else {
                self.look_at_call(sig)
            },
            AfterSaveView::Denied => self.emit(
                ended_event(self.call().id, 0, refusal(self.call().name)),
            ).next_call().look_at_call(sig),
            AfterSaveView::ResultRecorded { is_error, content } => self.result_recorded(
                is_error,
                content,
                sig,
            ),
            AfterSaveView::Stop(e) => self.fail(e),
            AfterSaveView::Compacted(resume) => self.resume(resume, sig),
            AfterSaveView::Final => self.succeed(),
        }
    }

    /// What follows a recorded result: a failure that repeats itself stops
    /// the turn, and else compaction is checked.
    pub open spec fn result_recorded(
        self,
        is_error: bool,
        content: Seq<char>,
        sig: Signal,
    ) -> AgentView {
        if is_error {
            let name = self.call().name;
            let counted = AgentView { spent: self.spent.with_error(name, content), ..self };
            match self.spent.stop_after_error(name, content) {
                Some(reason) => counted.skip_calls(
                    self.at + 1,
                    not_executed_note(reason),
                ).save(AfterSaveView::Stop(ErrorView::BudgetExceeded(reason))),
                None => counted.maybe_compact(Resume::AfterCall, sig),
            }
        } else {
            AgentView { spent: self.spent.with_success(), ..self }.maybe_compact(
                Resume::AfterCall,
                sig,
            )
        }
    }

    /// The machine takes a reply. One that is not awaited changes nothing.
    pub open spec fn advance(self, reply: ReplyView, sig: Signal) -> AgentView {
        match (self.phase, reply) {
            (PhaseView::Opening, ReplyView::Opened) => self.go(PhaseView::Streaming),
            (PhaseView::Opening, ReplyView::Failed(e)) => self.attempt_failed(e),
            (PhaseView::Streaming, ReplyView::Event(ev)) => self.answer_event(ev),
            (PhaseView::Streaming, ReplyView::End) => self.answer_ended(),
            (PhaseView::Streaming, ReplyView::Cancelled) => if sig.cancelled {
                self.fail(ErrorView::Cancelled)
            } else {
                self
            },
            (PhaseView::Deciding, ReplyView::Decision(d)) => if self.at < self.calls.len() {
                self.decided(d)
            } else {
                self
            },
            (PhaseView::Approving, ReplyView::Answer(yes)) => if self.at < self.calls.len() {
                if yes {
                    self.start_call()
                } else {
                    self.deny_call()
                }
            } else {
                self
            },
            (PhaseView::Executing, ReplyView::Executed { result, elapsed_ms }) => if self.at
                < self.calls.len() {
                self.call_ended(result, elapsed_ms)
            } else {
                self
            },
            (PhaseView::Saving(next), ReplyView::Saved(r)) => if next is Denied
                || next is ResultRecorded {
                if self.at < self.calls.len() {
                    self.note_saved(r).saved(next, sig)
                } else {
                    self
                }
            } else if next == AfterSaveView::Compacted(Resume::Manual) {
                self.manual_saved(r)
            } else {
                self.note_saved(r).saved(next, sig)
            },
            (PhaseView::AskingSummary(resume), ReplyView::Opened) => self.go(
                PhaseView::ReadingSummary(resume),
            ),
            (PhaseView::AskingSummary(resume), ReplyView::Failed(e)) => match self.compaction {
                Some(c) => self.compaction_moved(resume, c.request_failed(e), sig),
                None => self,
            },
            (PhaseView::AskingSummary(resume), ReplyView::Unheard) => match self.compaction {
                Some(c) => self.compaction_moved(resume, c.unheard(), sig),
                None => self,
            },
            (PhaseView::ReadingSummary(resume), ReplyView::Event(ev)) => match self.compaction {
                Some(c) => self.compaction_moved(resume, c.event(ev), sig),
                None => self,
            },
            (PhaseView::ReadingSummary(resume), ReplyView::End) => match self.compaction {
                Some(c) => self.compaction_moved(resume, c.answer_ended(), sig),
                None => self,
            },
            _ => self,
        }
    }

    /// One step: what it reports is in `out`, and nothing else is.
    pub open spec fn step(self, reply: ReplyView, sig: Signal) -> AgentView {
        AgentView { out: Seq::empty(), ..self }.advance(reply, sig)
    }

    /// The agent at the very start of a turn: nothing is used up yet.
    pub open spec fn fresh(self, input: Seq<char>) -> AgentView {
        AgentView {
            out: Seq::empty(),
            input,
            usage: no_usage(),
            spent: BudgetView::fresh(self.budget),
            overflow_retried: false,
            ..self
        }
    }

    /// A turn begins.
    pub open spec fn begin(self, input: Seq<char>, sig: Signal) -> AgentView {
        self.fresh(input).emit(
            AgentEventView::TokenCountUpdated {
                used: self.context.accounting.used(),
                limit: self.context.limit() as i64,
            },
        ).maybe_compact(Resume::BeforeTurn, sig)
    }

    /// A compaction that the user asks for begins; an empty history needs
    /// none.
    pub open spec fn begin_compaction(self) -> AgentView {
        let start = AgentView { out: Seq::empty(), compacted: (0, 0), ..self };
        if self.context.items.len() == 0 {
            AgentView { result: Ok(Seq::empty()), ..start }.go(PhaseView::Finished)
        } else {
            start.start_compaction(Resume::Manual)
        }
    }

    /// What is awaited.
    pub open spec fn awaited(self) -> Await {
        match self.phase {
            PhaseView::Idle => Await::Nothing,
            PhaseView::Opening => Await::OpenStream,
            PhaseView::Streaming => Await::NextEvent,
            PhaseView::Deciding => Await::Decision,
            PhaseView::Approving => Await::Answer,
            PhaseView::Executing => Await::Execution,
            PhaseView::Saving(_) => Await::Save,
            PhaseView::AskingSummary(_) => Await::OpenSummary,
            PhaseView::ReadingSummary(_) => Await::NextSummaryEvent,
            PhaseView::Finished => Await::Nothing,
        }
    }

    /// How the transcript is saved: appended to while the history grows, and
    /// replaced where it was rewritten or is shorter than what is stored.
    pub open spec fn plan(self) -> SavePlan {
        if self.session_id is None {
            SavePlan::Skip
        } else if !self.history_replaced && self.context.items.len() >= self.persisted_len {
            SavePlan::Append { from: self.persisted_len as usize }
        } else {
            SavePlan::Replace
        }
    }

    /// The model request: the whole history with all tools.
    pub open spec fn model_request(self) -> ModelRequestView {
        ModelRequestView {
            messages: self.context.items,
            tools: self.tools,
            model: self.model,
            temperature: self.temperature,
            max_tokens: self.max_tokens,
            stream_reasoning: true,
        }
    }

    /// The summarization request: a plain one, without tools.
    pub open spec fn summarization_request(self, input: Seq<MessageView>) -> ModelRequestView {
        ModelRequestView {
            messages: input,
            tools: Seq::empty(),
            model: self.model,
            temperature: self.temperature,
            max_tokens: self.max_tokens,
            stream_reasoning: false,
        }
    }
}

impl Clone for AfterSave {
    fn clone(&self) -> (r: Self)
        ensures
            r@ == self@,
    {
        match self {
            AfterSave::BeginTurn => AfterSave::BeginTurn,
            AfterSave::Answered => AfterSave::Answered,
            AfterSave::Denied => AfterSave::Denied,
            AfterSave::ResultRecorded { is_error, content } => AfterSave::ResultRecorded {
                is_error: *is_error,
                content: copy_of(content),
            },
            AfterSave::Stop(e) => AfterSave::Stop(e.clone()),
            AfterSave::Compacted(r) => AfterSave::Compacted(*r),
            AfterSave::Final => AfterSave::Final,
        }
    }
}

impl Agent {
    /// An agent without a conversation.
    pub fn new(
        context: ContextConfig,
        tools: Vec<ToolSpec>,
        api_key: String,
        model: String,
        temperature: Option<Json>,
        max_tokens: u32,
        budget: BudgetConfig,
        session_id: Option<u128>,
    ) -> (r: Agent)
        ensures
            r@.context.items == Seq::<MessageView>::empty(),
            r@.context.cfg == context,
            r@.context.rewrites == 0,
            r@.context.accounting == crate::context::no_tokens(),
            r@.tools == views(tools@),
            r@.api_key == api_key@,
            r@.model == model@,
            r@.temperature == opt_view(temperature),
            r@.max_tokens == max_tokens,
            r@.budget == budget,
            r@.session_id == session_id,
            r@.persisted_len == 0,
            !r@.history_replaced,
            !r@.persist_failed,
            !r@.approvals_enabled,
            r@.phase == PhaseView::Idle,
            r@.input == Seq::<char>::empty(),
            r@.usage == no_usage(),
            r@.spent == BudgetView::fresh(budget),
            !r@.overflow_retried,
            r@.text == Seq::<char>::empty(),
            r@.calls == Seq::<ToolCallView>::empty(),
            r@.at == 0,
            r@.compaction is None,
            r@.compacted == (0i64, 0i64),
            r@.result == Ok::<Seq<char>, ErrorView>(Seq::<char>::empty()),
            r@.out == Seq::<EffectView>::empty(),
    {
        let r = Agent {
            context: ContextManager::new(context),
            tools,
            api_key,
            model,
            temperature,
            max_tokens,
            budget,
            session_id,
            persisted_len: 0,
            history_replaced: false,
            persist_failed: false,
            approvals_enabled: false,
            phase: Phase::Idle,
            input: String::new(),
            usage: Usage::default(),
            spent: TurnBudget::new(budget),
            overflow_retried: false,
            text: String::new(),
            calls: Vec::new(),
            at: 0,
            compaction: None,
            compacted: (0, 0),
            result: Ok(String::new()),
            out: Vec::new(),
        };
        assert(r@.input =~= Seq::empty());
        assert(r@.text =~= Seq::empty());
        assert(r.result->Ok_0@ =~= Seq::empty());
        r
    }

    fn emit(&mut self, ev: AgentEvent)
        ensures
            final(self)@ == old(self)@.emit(ev@),
    {
        self.out.push(Effect::Emit(ev));
    }

    fn warn(&mut self, message: &str)
        ensures
            final(self)@ == old(self)@.emit(AgentEventView::Warning { message: message@ }),
    {
        self.emit(AgentEvent::Warning { message: copy_of(message) });
    }

    fn log(&mut self, e: Effect)
        ensures
            final(self)@ == old(self)@.log(e@),
    {
        if self.session_id.is_some() {
            self.out.push(e);
        }
    }

    /// Best-effort entry of how the call `id` ended.
    fn log_tool_finished(&mut self, id: &str, state: ToolEventState, output: &str)
        ensures
            final(self)@ == old(self)@.log(
                EffectView::LogFinished { call_id: id@, state, output: output@ },
            ),
    {
        self.log(
            Effect::LogFinished { call_id: copy_of(id), state, output: copy_of(output) },
        );
    }

    fn record(&mut self, m: Message)
        ensures
            final(self)@ == old(self)@.record(m@),
    {
        self.context.push(m);
    }

    fn succeed(&mut self)
        ensures
            final(self)@ == old(self)@.succeed(),
    {
        self.result = Ok(copy_of(&self.text));
        let usage = self.usage;
        self.emit(AgentEvent::TurnCompleted { usage });
        self.phase = Phase::Finished;
    }

    fn fail(&mut self, e: Error)
        ensures
            final(self)@ == old(self)@.fail(e@),
    {
        let message = e.message();
        self.result = Err(e);
        self.emit(AgentEvent::Error { message });
        self.emit(AgentEvent::TurnCompleted { usage: Usage::default() });
        self.phase = Phase::Finished;
    }

    fn next_attempt(&mut self, sig: Signal)
        ensures
            final(self)@ == old(self)@.next_attempt(sig),
    {
        if sig.cancelled {
            self.fail(Error::Cancelled);
            return;
        }
        match self.spent.between_attempts_reason(sig.elapsed_secs, self.usage.total_tokens) {
            Some(reason) => {
                self.fail(Error::BudgetExceeded(reason));
            },
            None => {
                self.text = String::new();
                self.calls = Vec::new();
                self.at = 0;
                self.phase = Phase::Opening;
                assert(self.text@ =~= Seq::empty());
                assert(views(self.calls@) =~= Seq::empty());
            },
        }
    }

    fn attempt_failed(&mut self, e: Error)
        ensures
            final(self)@ == old(self)@.attempt_failed(e@),
    {
        if e.is_context_window_exceeded() && !self.overflow_retried {
            self.overflow_retried = true;
            self.warn("context window exceeded; compacting and retrying once");
            self.start_compaction(Resume::Retry);
        } else {
            self.fail(e);
        }
    }

    fn start_compaction(&mut self, resume: Resume)
        ensures
            final(self)@ == old(self)@.start_compaction(resume),
    {
        self.compaction = Some(Compaction::begin(&self.context));
        self.emit(AgentEvent::CompactionStarted);
        self.phase = Phase::AskingSummary(resume);
    }

    fn maybe_compact(&mut self, resume: Resume, sig: Signal)
        ensures
            final(self)@ == old(self)@.maybe_compact(resume, sig),
    {
        if !sig.cancelled && self.context.should_compact() {
            self.start_compaction(resume);
        } else {
            self.resume(resume, sig);
        }
    }

    fn resume(&mut self, resume: Resume, sig: Signal)
        ensures
            final(self)@ == old(self)@.resume(resume, sig),
    {
        match resume {
            Resume::BeforeTurn => {
                let m = Message::user(&self.input);
                self.record(m);
                self.phase = Phase::Saving(AfterSave::BeginTurn);
            },
            Resume::AfterCall => {
                self.next_call();
                self.look_at_call(sig);
            },
            Resume::Retry => {
                self.next_attempt(sig);
            },
            Resume::Manual => {
                let nothing = String::new();
                assert(nothing@ =~= Seq::empty());
                self.result = Ok(nothing);
                self.phase = Phase::Finished;
            },
        }
    }

    fn next_call(&mut self)
        ensures
            final(self)@ == old(self)@.next_call(),
    {
        if self.at < self.calls.len() {
            self.at = self.at + 1;
        }
    }

    fn look_at_call(&mut self, sig: Signal)
        ensures
            final(self)@ == old(self)@.look_at_call(sig),
    {
        if self.at >= self.calls.len() {
            self.next_attempt(sig);
            return;
        }
        let from: usize = self.at;
        if sig.cancelled {
            self.record_skipped_results(from, "cancelled by user");
            self.phase = Phase::Saving(AfterSave::Stop(Error::Cancelled));
            return;
        }
        let name = copy_of(&self.calls[from].name);
        let args = self.calls[from].arguments.to_text();
        match self.spent.before_call_reason(&name, &args) {
            Some(reason) => {
                let note = join2("not executed: ", &reason);
                self.record_skipped_results(from, &note);
                self.phase = Phase::Saving(AfterSave::Stop(Error::BudgetExceeded(reason)));
            },
            None => {
                self.phase = Phase::Deciding;
            },
        }
    }

    fn emit_started(&mut self, c: &ToolCall)
        ensures
            final(self)@ == old(self)@.emit(started_event(c@)),
    {
        let command = c.arguments.to_text();
        self.emit(
            AgentEvent::ToolCallStarted { call_id: copy_of(&c.id), name: copy_of(&c.name), command },
        );
    }

    fn emit_ended(&mut self, id: &str, duration_ms: u64, output: &str)
        ensures
            final(self)@ == old(self)@.emit(ended_event(id@, duration_ms, output@)),
    {
        self.emit(
            AgentEvent::ToolCallCompleted {
                call_id: copy_of(id),
                exit_code: None,
                timed_out: false,
                duration_ms,
                output: copy_of(output),
            },
        );
    }

    /// Records `note` results for the calls from `from` on, which will never
    /// run this turn, keeping history valid.
    fn record_skipped_results(&mut self, from: usize, note: &str)
        ensures
            final(self)@ == old(self)@.skip_calls(from as nat, note@),
    {
        let n: usize = self.calls.len();
        let mut i: usize = from;
        while i < n
            invariant
                n == self@.calls.len(),
                from <= i,
                self@.skip_calls(i as nat, note@) == old(self)@.skip_calls(from as nat, note@),
            decreases n - i,
        {
            let c = self.calls[i].clone();
            self.emit_started(&c);
            self.record(
                Message::ToolResult {
                    tool_call_id: copy_of(&c.id),
                    content: copy_of(note),
                    is_error: true,
                },
            );
            self.emit_ended(&c.id, 0, note);
            i = i + 1;
        }
    }

    fn answer_event(&mut self, ev: ProviderEvent)
        ensures
            final(self)@ == old(self)@.answer_event(ev@),
    {
        match ev {
            ProviderEvent::MessageDelta { delta } => {
                self.text = join2(&self.text, &delta);
                self.emit(AgentEvent::MessageDelta { delta });
            },
            ProviderEvent::ReasoningDelta { delta } => {
                self.emit(AgentEvent::ReasoningDelta { delta });
            },
            ProviderEvent::ToolCallFragment { .. } => {},
            ProviderEvent::ToolCalls { calls } => {
                let mut calls = calls;
                self.calls.append(&mut calls);
            },
            ProviderEvent::Usage { usage } => {
                self.count_usage(usage);
            },
            ProviderEvent::ProviderError { message } => {
                self.attempt_failed(Error::Provider(message));
            },
            ProviderEvent::Done => {
                self.answer_ended();
            },
        }
    }

    fn count_usage(&mut self, usage: Usage)
        ensures
            final(self)@ == old(self)@.count_usage(usage),
    {
        if usage.total_tokens == 0 {
            return;
        }
        self.usage = Usage {
            input_tokens: sat_sum(self.usage.input_tokens, usage.input_tokens),
            output_tokens: sat_sum(self.usage.output_tokens, usage.output_tokens),
            total_tokens: sat_sum(self.usage.total_tokens, usage.total_tokens),
        };
        self.context.record_usage(usage);
        let (used, limit) = self.context.token_status();
        self.emit(AgentEvent::TokenCountUpdated { used, limit });
    }

    fn answer_ended(&mut self)
        ensures
            final(self)@ == old(self)@.answer_ended(),
    {
        if self.text.as_str().is_empty() && self.calls.len() == 0 {
            self.phase = Phase::Saving(AfterSave::Final);
        } else {
            let m = Message::Assistant {
                content: copy_of(&self.text),
                reasoning: None,
                tool_calls: copy_calls(&self.calls),
            };
            self.record(m);
            self.phase = Phase::Saving(AfterSave::Answered);
        }
    }

    fn decided(&mut self, d: PermissionDecision)
        requires
            old(self)@.at < old(self)@.calls.len(),
        ensures
            final(self)@ == old(self)@.decided(d),
    {
        match d {
            PermissionDecision::Allow => self.start_call(),
            PermissionDecision::Deny => self.deny_call(),
            PermissionDecision::Ask => {
                if self.approvals_enabled {
                    let c = self.calls[self.at].clone();
                    self.emit(
                        AgentEvent::ApprovalRequested {
                            call_id: copy_of(&c.id),
                            tool: copy_of(&c.name),
                            command: c.arguments.to_text(),
                        },
                    );
                    self.phase = Phase::Approving;
                } else {
                    self.deny_call();
                }
            },
        }
    }

    fn deny_call(&mut self)
        requires
            old(self)@.at < old(self)@.calls.len(),
        ensures
            final(self)@ == old(self)@.deny_call(),
    {
        let c = self.calls[self.at].clone();
        let text = join2("Permission denied for tool ", &c.name);
        self.emit_started(&c);
        self.record(
            Message::ToolResult {
                tool_call_id: copy_of(&c.id),
                content: copy_of(&text),
                is_error: true,
            },
        );
        self.log_tool_finished(&c.id, ToolEventState::Failed, &text);
        self.phase = Phase::Saving(AfterSave::Denied);
    }

    fn has_tool(&self, name: &str) -> (r: bool)
        ensures
            r == self@.knows_tool(name@),
    {
        let n: usize = self.tools.len();
        for i in 0..n
            invariant
                n == self.tools@.len(),
                forall|j: int| 0 <= j < i ==> (#[trigger] self@.tools[j]).name != name@,
        {
            if str_eq(&self.tools[i].name, name) {
                assert(self@.tools[i as int].name == name@);
                return true;
            }
        }
        false
    }

    fn start_call(&mut self)
        requires
            old(self)@.at < old(self)@.calls.len(),
        ensures
            final(self)@ == old(self)@.start_call(),
    {
        let c = self.calls[self.at].clone();
        let known: bool = self.has_tool(&c.name);
        self.spent.note_executed();
        self.emit_started(&c);
        self.log(Effect::LogStarted(c.clone()));
        if known {
            self.phase = Phase::Executing;
        } else {
            let e = Error::Tool(join2("unknown tool: ", &c.name));
            let note = join2("tool error: ", &e.message());
            self.call_failed(&note, 0);
        }
    }

    fn call_ended(&mut self, result: Result<ToolOutput, Error>, elapsed_ms: u64)
        requires
            old(self)@.at < old(self)@.calls.len(),
        ensures
            final(self)@ == old(self)@.call_ended(
                match result {
                    Ok(o) => Ok(o@),
                    Err(e) => Err(e@),
                },
                elapsed_ms,
            ),
    {
        match result {
            Ok(out) => {
                let id = copy_of(&self.calls[self.at].id);
                self.log_tool_finished(&id, ToolEventState::Completed, &out.content);
                self.emit(
                    AgentEvent::ToolCallCompleted {
                        call_id: id,
                        exit_code: out.exit_code,
                        timed_out: out.timed_out,
                        duration_ms: out.duration_ms,
                        output: copy_of(&out.content),
                    },
                );
                self.record_result(&out.content, false);
            },
            Err(Error::Cancelled) => {
                self.call_failed("cancelled by user", elapsed_ms);
            },
            Err(e) => {
                let note = join2("tool error: ", &e.message());
                self.call_failed(&note, elapsed_ms);
            },
        }
    }

    fn call_failed(&mut self, note: &str, elapsed_ms: u64)
        requires
            old(self)@.at < old(self)@.calls.len(),
        ensures
            final(self)@ == old(self)@.call_failed(note@, elapsed_ms),
    {
        let id = copy_of(&self.calls[self.at].id);
        self.log_tool_finished(&id, ToolEventState::Failed, note);
        self.emit_ended(&id, elapsed_ms, note);
        self.record_result(note, true);
    }

    fn record_result(&mut self, content: &str, is_error: bool)
        requires
            old(self)@.at < old(self)@.calls.len(),
        ensures
            final(self)@ == old(self)@.record_result(content@, is_error),
    {
        let id = copy_of(&self.calls[self.at].id);
        let kept = truncate_middle_bytes(content, self.context.config().tool_output_max_bytes);
        self.record(Message::ToolResult { tool_call_id: id, content: copy_of(&kept), is_error });
        self.phase = Phase::Saving(AfterSave::ResultRecorded { is_error, content: kept });
    }

    fn compaction_moved(&mut self, resume: Resume, c: Compaction, moved: CompactStep, sig: Signal)
        ensures
            final(self)@ == old(self)@.compaction_moved(resume, (c@, moved@), sig),
    {
        match moved {
            CompactStep::More => {
                self.compaction = Some(c);
                self.phase = Phase::ReadingSummary(resume);
            },
            CompactStep::Ask => {
                self.compaction = Some(c);
                self.phase = Phase::AskingSummary(resume);
            },
            CompactStep::Done => {
                self.compaction_done(resume, c);
            },
            CompactStep::Failed(e) => {
                self.compaction_failed(resume, e);
            },
        }
    }

    fn compaction_done(&mut self, resume: Resume, c: Compaction)
        ensures
            final(self)@ == (AgentView { compaction: Some(c@), ..old(self)@ }).compaction_done(
                resume,
            ),
    {
        let tokens: (i64, i64) = c.complete(&mut self.context);
        self.compaction = None;
        self.compacted = tokens;
        self.history_replaced = true;
        self.emit(
            AgentEvent::CompactionCompleted { tokens_before: tokens.0, tokens_after: tokens.1 },
        );
        self.warn(
            "Heads up: long threads and multiple compactions can reduce model accuracy. Consider starting a fresh session.",
        );
        self.phase = Phase::Saving(AfterSave::Compacted(resume));
    }

    fn compaction_failed(&mut self, resume: Resume, e: Error)
        ensures
            final(self)@ == old(self)@.compaction_failed(resume, e@),
    {
        self.compaction = None;
        match resume {
            Resume::AfterCall => {
                self.attempt_failed(e);
            },
            Resume::Manual => {
                self.result = Err(e);
                self.phase = Phase::Finished;
            },
            _ => {
                self.fail(e);
            },
        }
    }

    /// Takes note of whether the transcript was saved.
    fn note_saved(&mut self, r: Result<(), Error>)
        ensures
            final(self)@ == old(self)@.note_saved(
                match r {
                    Ok(_) => Ok(()),
                    Err(e) => Err(e@),
                },
            ),
    {
        if self.session_id.is_none() {
            return;
        }
        match r {
            Ok(_) => {
                let failed: bool = self.persist_failed;
                self.persisted_len = self.context.items().len();
                self.history_replaced = false;
                self.persist_failed = false;
                if failed {
                    self.warn("transcript saving recovered");
                }
            },
            Err(e) => {
                if !self.persist_failed {
                    self.persist_failed = true;
                    let text = join3(
                        "transcript saving failed: ",
                        &e.message(),
                        " — the conversation continues but is not being saved",
                    );
                    self.warn(&text);
                }
            },
        }
    }

    fn manual_saved(&mut self, r: Result<(), Error>)
        ensures
            final(self)@ == old(self)@.manual_saved(
                match r {
                    Ok(_) => Ok(()),
                    Err(e) => Err(e@),
                },
            ),
    {
        let nothing = String::new();
        assert(nothing@ =~= Seq::empty());
        match r {
            Err(e) => {
                if self.session_id.is_some() {
                    self.result = Err(Error::Storage(e.message()));
                } else {
                    self.result = Ok(nothing);
                }
            },
            Ok(_) => {
                if self.session_id.is_some() {
                    self.persisted_len = self.context.items().len();
                    self.history_replaced = false;
                }
                self.result = Ok(nothing);
            },
        }
        self.phase = Phase::Finished;
    }

    fn saved(&mut self, next: AfterSave, sig: Signal)
        requires
            next is Denied || next is ResultRecorded ==> old(self)@.at < old(self)@.calls.len(),
        ensures
            final(self)@ == old(self)@.saved(next@, sig),
    {
        match next {
            AfterSave::BeginTurn => {
                self.emit(AgentEvent::TurnStarted);
                self.next_attempt(sig);
            },
            AfterSave::Answered => {
                if self.calls.len() == 0 {
                    self.phase = Phase::Saving(AfterSave::Final);
                } else {
                    self.look_at_call(sig);
                }
            },
            AfterSave::Denied => {
                let c = self.calls[self.at].clone();
                let text = join2("Permission denied for tool ", &c.name);
                self.emit_ended(&c.id, 0, &text);
                self.next_call();
                self.look_at_call(sig);
            },
            AfterSave::ResultRecorded { is_error, content } => {
                self.result_recorded(is_error, &content, sig);
            },
            AfterSave::Stop(e) => {
                self.fail(e);
            },
            AfterSave::Compacted(resume) => {
                self.resume(resume, sig);
            },
            AfterSave::Final => {
                self.succeed();
            },
        }
    }

    fn result_recorded(&mut self, is_error: bool, content: &str, sig: Signal)
        requires
            old(self)@.at < old(self)@.calls.len(),
        ensures
            final(self)@ == old(self)@.result_recorded(is_error, content@, sig),
    {
        if is_error {
            let name = copy_of(&self.calls[self.at].name);
            match self.spent.note_error(&name, content) {
                Some(reason) => {
                    let note = join2("not executed: ", &reason);
                    let n: usize = self.calls.len();
                    let from: usize = if self.at < n {
                        self.at + 1
                    } else {
                        n
                    };
                    self.record_skipped_results(from, &note);
                    self.phase = Phase::Saving(AfterSave::Stop(Error::BudgetExceeded(reason)));
                },
                None => {
                    self.maybe_compact(Resume::AfterCall, sig);
                },
            }
        } else {
            self.spent.note_success();
            self.maybe_compact(Resume::AfterCall, sig);
        }
    }

    fn take_effects(&mut self) -> (r: Vec<Effect>)
        ensures
            views(r@) == old(self)@.out,
            final(self)@ == (AgentView { out: Seq::empty(), ..old(self)@ }),
    {
        let mut out: Vec<Effect> = Vec::new();
        std::mem::swap(&mut out, &mut self.out);
        assert(views(self.out@) =~= Seq::empty());
        out
    }

    fn take_compaction(&mut self) -> (r: Option<Compaction>)
        ensures
            opt_view(r) == old(self)@.compaction,
            final(self)@ == (AgentView { compaction: None, ..old(self)@ }),
    {
        let mut c: Option<Compaction> = None;
        std::mem::swap(&mut c, &mut self.compaction);
        c
    }

    fn on_opened(&mut self)
        ensures
            forall|sig: Signal| #[trigger] old(self)@.advance(ReplyView::Opened, sig) == final(self)@,
    {
        match &self.phase {
            Phase::Opening => {
                self.phase = Phase::Streaming;
            },
            Phase::AskingSummary(r) => {
                let resume = *r;
                self.phase = Phase::ReadingSummary(resume);
            },
            _ => {},
        }
    }

    fn on_failed(&mut self, e: Error, sig: Signal)
        ensures
            final(self)@ == old(self)@.advance(ReplyView::Failed(e@), sig),
    {
        match &self.phase {
            Phase::Opening => {
                self.attempt_failed(e);
            },
            Phase::AskingSummary(r) => {
                let resume = *r;
                match self.take_compaction() {
                    Some(c) => {
                        let mut c = c;
                        let moved = c.on_request_failed(e);
                        self.compaction_moved(resume, c, moved, sig);
                    },
                    None => {},
                }
            },
            _ => {},
        }
    }

    fn on_unheard(&mut self, sig: Signal)
        ensures
            final(self)@ == old(self)@.advance(ReplyView::Unheard, sig),
    {
        if let Phase::AskingSummary(r) = &self.phase {
            let resume = *r;
            match self.take_compaction() {
                Some(c) => {
                    let mut c = c;
                    let moved = c.on_unheard();
                    self.compaction_moved(resume, c, moved, sig);
                },
                None => {},
            }
        }
    }

    fn on_event(&mut self, ev: ProviderEvent, sig: Signal)
        ensures
            final(self)@ == old(self)@.advance(ReplyView::Event(ev@), sig),
    {
        match &self.phase {
            Phase::Streaming => {
                self.answer_event(ev);
            },
            Phase::ReadingSummary(r) => {
                let resume = *r;
                match self.take_compaction() {
                    Some(c) => {
                        let mut c = c;
                        let moved = c.on_event(ev);
                        self.compaction_moved(resume, c, moved, sig);
                    },
                    None => {},
                }
            },
            _ => {},
        }
    }

    fn on_end(&mut self, sig: Signal)
        ensures
            final(self)@ == old(self)@.advance(ReplyView::End, sig),
    {
        match &self.phase {
            Phase::Streaming => {
                self.answer_ended();
            },
            Phase::ReadingSummary(r) => {
                let resume = *r;
                match self.take_compaction() {
                    Some(c) => {
                        let mut c = c;
                        let moved = c.on_answer_ended();
                        self.compaction_moved(resume, c, moved, sig);
                    },
                    None => {},
                }
            },
            _ => {},
        }
    }

    fn on_saved(&mut self, r: Result<(), Error>, sig: Signal)
        ensures
            final(self)@ == old(self)@.advance(
                ReplyView::Saved(
                    match r {
                        Ok(_) => Ok(()),
                        Err(e) => Err(e@),
                    },
                ),
                sig,
            ),
    {
        let next = match &self.phase {
            Phase::Saving(next) => next.clone(),
            _ => {
                return;
            },
        };
        match next {
            AfterSave::Denied | AfterSave::ResultRecorded { .. } => {
                if self.at < self.calls.len() {
                    self.note_saved(r);
                    self.saved(next, sig);
                }
            },
            AfterSave::Compacted(Resume::Manual) => {
                self.manual_saved(r);
            },
            _ => {
                self.note_saved(r);
                self.saved(next, sig);
            },
        }
    }

    /// Hands a reply to the machine and returns what is to be reported, in
    /// order. A reply that is not awaited changes nothing.
    pub fn step(&mut self, reply: Reply, sig: Signal) -> (effects: Vec<Effect>)
        ensures
            views(effects@) == old(self)@.step(reply@, sig).out,
            final(self)@ == (AgentView { out: Seq::empty(), ..old(self)@.step(reply@, sig) }),
    {
        let _ = self.take_effects();
        match reply {
            Reply::Opened => {
                self.on_opened();
            },
            Reply::Failed(e) => {
                self.on_failed(e, sig);
            },
            Reply::Unheard => {
                self.on_unheard(sig);
            },
            Reply::Event(ev) => {
                self.on_event(ev, sig);
            },
            Reply::End => {
                self.on_end(sig);
            },
            Reply::Cancelled => {
                if let Phase::Streaming = &self.phase {
                    if sig.cancelled {
                        self.fail(Error::Cancelled);
                    }
                }
            },
            Reply::Decision(d) => {
                if let Phase::Deciding = &self.phase {
                    if self.at < self.calls.len() {
                        self.decided(d);
                    }
                }
            },
            Reply::Answer(yes) => {
                if let Phase::Approving = &self.phase {
                    if self.at < self.calls.len() {
                        if yes {
                            self.start_call();
                        } else {
                            self.deny_call();
                        }
                    }
                }
            },
            Reply::Executed { result, elapsed_ms } => {
                if let Phase::Executing = &self.phase {
                    if self.at < self.calls.len() {
                        self.call_ended(result, elapsed_ms);
                    }
                }
            },
            Reply::Saved(r) => {
                self.on_saved(r, sig);
            },
        }
        self.take_effects()
    }

    /// Begins a user turn and returns what is to be reported; the machine
    /// then takes replies until nothing more is awaited.
    pub fn run_turn(&mut self, user_input: &str, sig: Signal) -> (effects: Vec<Effect>)
        ensures
            views(effects@) == old(self)@.begin(user_input@, sig).out,
            final(self)@ == (AgentView {
                out: Seq::empty(),
                ..old(self)@.begin(user_input@, sig)
            }),
    {
        let _ = self.take_effects();
        self.input = copy_of(user_input);
        self.usage = Usage::default();
        self.spent = TurnBudget::new(self.budget);
        self.overflow_retried = false;
        let (used, limit) = self.context.token_status();
        self.emit(AgentEvent::TokenCountUpdated { used, limit });
        self.maybe_compact(Resume::BeforeTurn, sig);
        self.take_effects()
    }

    /// Begins a compaction that the user asks for, regardless of the
    /// threshold, and returns what is to be reported. An empty history needs
    /// none.
    pub fn compact_manual(&mut self) -> (effects: Vec<Effect>)
        ensures
            views(effects@) == old(self)@.begin_compaction().out,
            final(self)@ == (AgentView { out: Seq::empty(), ..old(self)@.begin_compaction() }),
    {
        let _ = self.take_effects();
        self.compacted = (0, 0);
        if self.context.items().len() == 0 {
            let nothing = String::new();
            assert(nothing@ =~= Seq::empty());
            self.result = Ok(nothing);
            self.phase = Phase::Finished;
        } else {
            self.start_compaction(Resume::Manual);
        }
        self.take_effects()
    }

    /// What is awaited.
    pub fn awaiting(&self) -> (r: Await)
        ensures
            r == self@.awaited(),
    {
        match &self.phase {
            Phase::Idle => Await::Nothing,
            Phase::Opening => Await::OpenStream,
            Phase::Streaming => Await::NextEvent,
            Phase::Deciding => Await::Decision,
            Phase::Approving => Await::Answer,
            Phase::Executing => Await::Execution,
            Phase::Saving(_) => Await::Save,
            Phase::AskingSummary(_) => Await::OpenSummary,
            Phase::ReadingSummary(_) => Await::NextSummaryEvent,
            Phase::Finished => Await::Nothing,
        }
    }

    /// How the transcript is saved.
    pub fn save_plan(&self) -> (r: SavePlan)
        ensures
            r == self@.plan(),
    {
        if self.session_id.is_none() {
            SavePlan::Skip
        } else if !self.history_replaced && self.context.items().len() >= self.persisted_len {
            SavePlan::Append { from: self.persisted_len }
        } else {
            SavePlan::Replace
        }
    }

    /// The model request.
    pub fn request(&self) -> (r: ModelRequest)
        ensures
            r@ == self@.model_request(),
            views(r.messages@) == self.context@.items,
            views(r.tools@) == views(self.tools@),
            r.tools@.len() == self.tools@.len(),
            forall|i: int|
                0 <= i < self.tools@.len() ==> {
                    &&& (#[trigger] r.tools@[i]).name@ == self.tools@[i].name@
                    &&& r.tools@[i].description@ == self.tools@[i].description@
                    &&& r.tools@[i].parameters@ == self.tools@[i].parameters@
                },
            r.model@ == self.model@,
            opt_view(r.temperature) == opt_view(self.temperature),
            r.max_tokens == self.max_tokens,
            r.stream_reasoning,
    {
        ModelRequest {
            messages: copy_messages(self.context.items()),
            tools: copy_specs(&self.tools),
            model: copy_of(&self.model),
            temperature: match &self.temperature {
                Some(t) => Some(t.clone()),
                None => None,
            },
            max_tokens: self.max_tokens,
            stream_reasoning: true,
        }
    }

    /// The summarization request of the compaction under way.
    pub fn summary_request(&self) -> (r: Option<ModelRequest>)
        ensures
            opt_view(r) == match self@.compaction {
                Some(c) => Some(self@.summarization_request(c.input)),
                None => None,
            },
            r is Some <==> self.compaction is Some,
            r is Some ==> {
                &&& views(r->0.messages@) == views(self.compaction->0.input@)
                &&& r->0.tools@.len() == 0
                &&& r->0.model@ == self.model@
                &&& opt_view(r->0.temperature) == opt_view(self.temperature)
                &&& r->0.max_tokens == self.max_tokens
                &&& !r->0.stream_reasoning
            },
    {
        match &self.compaction {
            Some(c) => {
                let tools: Vec<ToolSpec> = Vec::new();
                assert(views(tools@) =~= Seq::empty());
                Some(
                    ModelRequest {
                        messages: copy_messages(&c.input),
                        tools,
                        model: copy_of(&self.model),
                        temperature: match &self.temperature {
                            Some(t) => Some(t.clone()),
                            None => None,
                        },
                        max_tokens: self.max_tokens,
                        stream_reasoning: false,
                    },
                )
            },
            None => None,
        }
    }

    /// The call that is decided on, asked about or executed.
    pub fn current_call(&self) -> (r: Option<&ToolCall>)
        ensures
            opt_view(r) == if self@.at < self@.calls.len() {
                Some(self@.call())
            } else {
                None
            },
            self.at < self.calls@.len() ==> r is Some && *r->0 == self.calls@[self.at as int],
            self.at >= self.calls@.len() ==> r is None,
    {
        if self.at < self.calls.len() {
            Some(&self.calls[self.at])
        } else {
            None
        }
    }
}

} // verus!

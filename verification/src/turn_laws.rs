//! What holds of every turn, whatever comes back from the outside.

use vstd::prelude::*;

use crate::agent_loop::{
    ended_event,
    overflow_warning,
    started_event,
    AfterSaveView,
    AgentView,
    EffectView,
    PhaseView,
    ReplyView,
    Resume,
    SavePlan,
    Signal,
};
use crate::compact::{law_compaction_keeps_the_order, CompactStepView, CompactionView};
use crate::context::{no_tokens, TokenAccounting};
use crate::error::{error_text, ErrorView};
use crate::event::AgentEventView;
use crate::history::ids_of;
use crate::message::MessageView;
use crate::protocol::{is_complete, lemma_waiting_push, next_waiting, waiting};
use crate::session::PermissionDecision;
use crate::text::trimmed;
use crate::traits::ProviderEventView;

verus! {

broadcast use lemma_waiting_push;

/// The agent after it took the replies, one after the other.
pub open spec fn run(a: AgentView, replies: Seq<(ReplyView, Signal)>) -> AgentView
    decreases replies.len(),
{
    if replies.len() == 0 {
        a
    } else {
        run(a, replies.drop_last()).step(replies.last().0, replies.last().1)
    }
}

/// Everything that was reported up to then.
pub open spec fn reported(a: AgentView, replies: Seq<(ReplyView, Signal)>) -> Seq<EffectView>
    decreases replies.len(),
{
    if replies.len() == 0 {
        a.out
    } else {
        reported(a, replies.drop_last()) + run(a, replies).out
    }
}

/// Whether what the agent was made with is unchanged: its tools, its model
/// and everything else that goes into a request beside the messages.
pub open spec fn same_settings(a: AgentView, b: AgentView) -> bool {
    &&& a.tools == b.tools
    &&& a.model == b.model
    &&& a.temperature == b.temperature
    &&& a.max_tokens == b.max_tokens
    &&& a.api_key == b.api_key
    &&& a.budget == b.budget
    &&& a.session_id == b.session_id
    &&& a.approvals_enabled == b.approvals_enabled
    &&& a.context.cfg == b.context.cfg
}

// ---- the history stays in order ----

/// Whether the calls behind the current one wait for their results.
pub open spec fn rest_waits(a: AgentView) -> bool {
    a.at < a.calls.len() && waiting(a.context.items) == Some(ids_of(a.calls).skip(a.at as int + 1))
}

/// Whether the history is as it must be where the turn goes on with
/// `resume`.
pub open spec fn resumable(a: AgentView, resume: Resume) -> bool {
    match resume {
        Resume::AfterCall => rest_waits(a),
        _ => is_complete(a.context.items),
    }
}

/// Whether the history is as it must be in the phase that the turn is in:
/// exactly the calls that are still to be looked at wait for their results.
pub open spec fn in_order(a: AgentView) -> bool {
    match a.phase {
        PhaseView::Idle => is_complete(a.context.items),
        PhaseView::Finished => is_complete(a.context.items),
        PhaseView::Opening => is_complete(a.context.items) && a.at == 0,
        PhaseView::Streaming => is_complete(a.context.items) && a.at == 0,
        PhaseView::Deciding => current_waits(a),
        PhaseView::Approving => current_waits(a),
        PhaseView::Executing => current_waits(a),
        PhaseView::Saving(next) => match next {
            AfterSaveView::Answered => a.at == 0 && waiting(a.context.items) == Some(
                ids_of(a.calls),
            ),
            AfterSaveView::Denied => rest_waits(a),
            AfterSaveView::ResultRecorded { .. } => rest_waits(a),
            AfterSaveView::Compacted(resume) => resumable(a, resume),
            _ => is_complete(a.context.items),
        },
        PhaseView::AskingSummary(resume) => resumable(a, resume),
        PhaseView::ReadingSummary(resume) => resumable(a, resume),
    }
}

/// Whether the current call and those behind it wait for their results.
pub open spec fn current_waits(a: AgentView) -> bool {
    a.at < a.calls.len() && waiting(a.context.items) == Some(ids_of(a.calls).skip(a.at as int))
}

/// Whether the reply makes a compaction fail while calls of the answer are
/// still to be looked at. The turn is then over or tries again without
/// them, and they stay without results.
pub open spec fn cuts_batch(a: AgentView, reply: ReplyView) -> bool {
    a.at + 1 < a.calls.len() && match (a.phase, reply, a.compaction) {
        (
            PhaseView::AskingSummary(Resume::AfterCall),
            ReplyView::Failed(e),
            Some(c),
        ) => c.request_failed(e).1 is Failed,
        (
            PhaseView::AskingSummary(Resume::AfterCall),
            ReplyView::Unheard,
            Some(c),
        ) => c.unheard().1 is Failed,
        (
            PhaseView::ReadingSummary(Resume::AfterCall),
            ReplyView::Event(ev),
            Some(c),
        ) => c.event(ev).1 is Failed,
        (
            PhaseView::ReadingSummary(Resume::AfterCall),
            ReplyView::End,
            Some(c),
        ) => c.answer_ended().1 is Failed,
        _ => false,
    }
}

/// Whether no reply made a compaction fail in the middle of a batch of
/// calls.
pub open spec fn keeps_batches(a: AgentView, replies: Seq<(ReplyView, Signal)>) -> bool
    decreases replies.len(),
{
    replies.len() > 0 ==> {
        &&& keeps_batches(a, replies.drop_last())
        &&& !cuts_batch(run(a, replies.drop_last()), replies.last().0)
    }
}

proof fn lemma_skip_calls_order(a: AgentView, from: nat, note: Seq<char>)
    requires
        from <= a.calls.len(),
        waiting(a.context.items) == Some(ids_of(a.calls).skip(from as int)),
    ensures
        is_complete(a.skip_calls(from, note).context.items),
        a.skip_calls(from, note).calls == a.calls,
        a.skip_calls(from, note).at == a.at,
    decreases a.calls.len() - from,
{
    if from >= a.calls.len() {
        assert(ids_of(a.calls).skip(from as int) =~= Seq::empty());
    } else {
        let c = a.calls[from as int];
        let b = a.skip_call(c, note);
        let ids = ids_of(a.calls).skip(from as int);
        assert(ids[0] == c.id);
        assert(ids.drop_first() =~= ids_of(a.calls).skip(from as int + 1));
        lemma_skip_calls_order(b, from + 1, note);
    }
}

proof fn lemma_next_attempt_order(a: AgentView, sig: Signal)
    requires
        is_complete(a.context.items),
    ensures
        in_order(a.next_attempt(sig)),
{
}

proof fn lemma_look_at_call_order(a: AgentView, sig: Signal)
    requires
        a.at <= a.calls.len(),
        waiting(a.context.items) == Some(ids_of(a.calls).skip(a.at as int)),
    ensures
        in_order(a.look_at_call(sig)),
{
    if a.at >= a.calls.len() {
        assert(ids_of(a.calls).skip(a.at as int) =~= Seq::empty());
        lemma_next_attempt_order(a, sig);
    } else if sig.cancelled {
        lemma_skip_calls_order(a, a.at, crate::agent_loop::cancelled_note());
    } else {
        let c = a.call();
        let args = crate::json::json_text(c.arguments);
        let counted = AgentView { spent: a.spent.with_call(c.name, args), ..a };
        match a.spent.stop_before_call(c.name, args) {
            Some(reason) => {
                lemma_skip_calls_order(
                    counted,
                    a.at,
                    crate::agent_loop::not_executed_note(reason),
                );
            },
            None => {},
        }
    }
}

proof fn lemma_resume_order(a: AgentView, resume: Resume, sig: Signal)
    requires
        resumable(a, resume),
    ensures
        in_order(a.resume(resume, sig)),
{
    match resume {
        Resume::AfterCall => {
            lemma_look_at_call_order(a.next_call(), sig);
        },
        Resume::Retry => {
            lemma_next_attempt_order(a, sig);
        },
        Resume::BeforeTurn => {
            assert(next_waiting(
                Seq::empty(),
                MessageView::User { content: a.input },
            )->0 =~= Seq::empty());
        },
        _ => {},
    }
}

proof fn lemma_maybe_compact_order(a: AgentView, resume: Resume, sig: Signal)
    requires
        resumable(a, resume),
    ensures
        in_order(a.maybe_compact(resume, sig)),
{
    if sig.cancelled || !a.context.due() {
        lemma_resume_order(a, resume, sig);
    }
}

proof fn lemma_record_result_order(a: AgentView, m: MessageView)
    requires
        current_waits(a),
        m matches MessageView::ToolResult { tool_call_id, .. } && tool_call_id == a.call().id,
    ensures
        rest_waits(a.record(m)),
{
    let ids = ids_of(a.calls).skip(a.at as int);
    assert(ids[0] == a.call().id);
    assert(ids.drop_first() =~= ids_of(a.calls).skip(a.at as int + 1));
}

proof fn lemma_deny_order(a: AgentView)
    requires
        current_waits(a),
    ensures
        in_order(a.deny_call()),
{
    let c = a.call();
    lemma_record_result_order(
        a.emit(started_event(c)),
        crate::agent_loop::result_message(c.id, crate::agent_loop::refusal(c.name), true),
    );
}

proof fn lemma_call_failed_order(a: AgentView, note: Seq<char>, elapsed_ms: u64)
    requires
        current_waits(a),
    ensures
        in_order(a.call_failed(note, elapsed_ms)),
{
    let b = a.log(
        EffectView::LogFinished {
            call_id: a.call().id,
            state: crate::session::ToolEventState::Failed,
            output: note,
        },
    ).emit(ended_event(a.call().id, elapsed_ms, note));
    let kept = crate::compact::truncated(note, b.context.cfg.tool_output_max_bytes as nat);
    lemma_record_result_order(
        b,
        crate::agent_loop::result_message(b.call().id, kept, true),
    );
}

proof fn lemma_start_call_order(a: AgentView)
    requires
        current_waits(a),
    ensures
        in_order(a.start_call()),
{
    let c = a.call();
    let started = AgentView { spent: a.spent.with_executed(), ..a }.emit(started_event(c)).log(
        EffectView::LogStarted(c),
    );
    lemma_call_failed_order(
        started,
        "tool error: "@ + error_text(ErrorView::Tool("unknown tool: "@ + c.name)),
        0,
    );
}

proof fn lemma_call_ended_order(
    a: AgentView,
    result: Result<crate::traits::ToolOutputView, ErrorView>,
    elapsed_ms: u64,
)
    requires
        current_waits(a),
    ensures
        in_order(a.call_ended(result, elapsed_ms)),
{
    match result {
        Ok(o) => {
            let b = a.log(
                EffectView::LogFinished {
                    call_id: a.call().id,
                    state: crate::session::ToolEventState::Completed,
                    output: o.content,
                },
            ).emit(
                AgentEventView::ToolCallCompleted {
                    call_id: a.call().id,
                    exit_code: o.exit_code,
                    timed_out: o.timed_out,
                    duration_ms: o.duration_ms,
                    output: o.content,
                },
            );
            let kept = crate::compact::truncated(
                o.content,
                b.context.cfg.tool_output_max_bytes as nat,
            );
            lemma_record_result_order(
                b,
                crate::agent_loop::result_message(b.call().id, kept, false),
            );
        },
        Err(ErrorView::Cancelled) => {
            lemma_call_failed_order(a, crate::agent_loop::cancelled_note(), elapsed_ms);
        },
        Err(e) => {
            lemma_call_failed_order(a, "tool error: "@ + error_text(e), elapsed_ms);
        },
    }
}

proof fn lemma_result_recorded_order(
    a: AgentView,
    is_error: bool,
    content: Seq<char>,
    sig: Signal,
)
    requires
        rest_waits(a),
    ensures
        in_order(a.result_recorded(is_error, content, sig)),
{
    if is_error {
        let name = a.call().name;
        let counted = AgentView { spent: a.spent.with_error(name, content), ..a };
        match a.spent.stop_after_error(name, content) {
            Some(reason) => {
                lemma_skip_calls_order(
                    counted,
                    a.at + 1,
                    crate::agent_loop::not_executed_note(reason),
                );
            },
            None => {
                lemma_maybe_compact_order(counted, Resume::AfterCall, sig);
            },
        }
    } else {
        lemma_maybe_compact_order(
            AgentView { spent: a.spent.with_success(), ..a },
            Resume::AfterCall,
            sig,
        );
    }
}

proof fn lemma_saved_order(a: AgentView, next: AfterSaveView, sig: Signal)
    requires
        in_order(a.save(next)),
    ensures
        in_order(a.saved(next, sig)),
{
    match next {
        AfterSaveView::BeginTurn => {},
        AfterSaveView::Answered => {
            if a.calls.len() > 0 {
                assert(ids_of(a.calls).skip(0) =~= ids_of(a.calls));
                lemma_look_at_call_order(a, sig);
            } else {
                assert(ids_of(a.calls) =~= Seq::empty());
            }
        },
        AfterSaveView::Denied => {
            let b = a.emit(
                ended_event(a.call().id, 0, crate::agent_loop::refusal(a.call().name)),
            ).next_call();
            lemma_look_at_call_order(b, sig);
        },
        AfterSaveView::ResultRecorded { is_error, content } => {
            lemma_result_recorded_order(a, is_error, content, sig);
        },
        AfterSaveView::Compacted(resume) => {
            lemma_resume_order(a, resume, sig);
        },
        _ => {},
    }
}

proof fn lemma_compaction_moved_order(
    a: AgentView,
    resume: Resume,
    moved: (CompactionView, CompactStepView),
    sig: Signal,
)
    requires
        resumable(a, resume),
        moved.1 is Failed && resume == Resume::AfterCall ==> a.at + 1 >= a.calls.len(),
    ensures
        in_order(a.compaction_moved(resume, moved, sig)),
{
    match moved.1 {
        CompactStepView::Done => {
            law_compaction_keeps_the_order(a.context.items, trimmed(moved.0.summary));
        },
        CompactStepView::Failed(e) => {
            if resume == Resume::AfterCall {
                assert(ids_of(a.calls).skip(a.at as int + 1) =~= Seq::empty());
            }
        },
        _ => {},
    }
}

/// The history stays in the order that providers demand, step by step:
/// exactly the calls that are still to be looked at wait for their results.
pub proof fn law_step_keeps_the_order(a: AgentView, reply: ReplyView, sig: Signal)
    requires
        in_order(a),
        !cuts_batch(a, reply),
    ensures
        in_order(a.step(reply, sig)),
{
    let b = AgentView { out: Seq::empty(), ..a };
    match (b.phase, reply) {
        (PhaseView::Streaming, ReplyView::Event(ev)) => {
            match ev {
                ProviderEventView::Done => {
                    lemma_answer_ended_order(b);
                },
                _ => {},
            }
        },
        (PhaseView::Streaming, ReplyView::End) => {
            lemma_answer_ended_order(b);
        },
        (PhaseView::Deciding, ReplyView::Decision(d)) => {
            lemma_start_call_order(b);
            lemma_deny_order(b);
        },
        (PhaseView::Approving, ReplyView::Answer(yes)) => {
            lemma_start_call_order(b);
            lemma_deny_order(b);
        },
        (PhaseView::Executing, ReplyView::Executed { result, elapsed_ms }) => {
            lemma_call_ended_order(b, result, elapsed_ms);
        },
        (PhaseView::Saving(next), ReplyView::Saved(r)) => {
            lemma_saved_order(b.note_saved(r), next, sig);
        },
        (PhaseView::AskingSummary(resume), ReplyView::Failed(e)) => {
            if let Some(c) = b.compaction {
                lemma_compaction_moved_order(b, resume, c.request_failed(e), sig);
            }
        },
        (PhaseView::AskingSummary(resume), ReplyView::Unheard) => {
            if let Some(c) = b.compaction {
                lemma_compaction_moved_order(b, resume, c.unheard(), sig);
            }
        },
        (PhaseView::ReadingSummary(resume), ReplyView::Event(ev)) => {
            if let Some(c) = b.compaction {
                lemma_compaction_moved_order(b, resume, c.event(ev), sig);
            }
        },
        (PhaseView::ReadingSummary(resume), ReplyView::End) => {
            if let Some(c) = b.compaction {
                lemma_compaction_moved_order(b, resume, c.answer_ended(), sig);
            }
        },
        _ => {},
    }
}

proof fn lemma_answer_ended_order(a: AgentView)
    requires
        is_complete(a.context.items),
        a.at == 0,
    ensures
        in_order(a.answer_ended()),
{
}

proof fn lemma_run_order(a: AgentView, replies: Seq<(ReplyView, Signal)>)
    requires
        in_order(a),
        keeps_batches(a, replies),
    ensures
        in_order(run(a, replies)),
    decreases replies.len(),
{
    if replies.len() > 0 {
        lemma_run_order(a, replies.drop_last());
        law_step_keeps_the_order(
            run(a, replies.drop_last()),
            replies.last().0,
            replies.last().1,
        );
    }
}

/// A turn that begins with a complete history ends with a complete one,
/// whatever its outcome (cancelled, over budget, failed): every call that
/// the model asked for has its result, right behind it and in order. The
/// one exception is a compaction that fails in the middle of a batch of
/// calls.
pub proof fn law_turn_leaves_a_complete_history(
    a: AgentView,
    input: Seq<char>,
    sig: Signal,
    replies: Seq<(ReplyView, Signal)>,
)
    requires
        is_complete(a.context.items),
        keeps_batches(a.begin(input, sig), replies),
        run(a.begin(input, sig), replies).phase is Finished,
    ensures
        is_complete(run(a.begin(input, sig), replies).context.items),
{
    let start = a.fresh(input).emit(
        AgentEventView::TokenCountUpdated {
            used: a.context.accounting.used(),
            limit: a.context.limit() as i64,
        },
    );
    lemma_maybe_compact_order(start, Resume::BeforeTurn, sig);
    lemma_run_order(a.begin(input, sig), replies);
}

// ---- the events of a turn ----

/// What the events of a turn have come to.
#[verifier::ext_equal]
pub enum Stage {
    /// The turn is under way and no tool call is.
    Open,
    /// The call with this id has started and not completed.
    Running(Seq<char>),
    /// An error was reported; only the end of the turn may follow.
    Failed,
    /// The turn has ended, with success or after an error.
    Done(bool),
    /// The events make no sense.
    Broken,
}

/// What one more report makes of the stage: calls start and complete one
/// after the other, each with its own end; an error is followed by the end
/// of the turn and nothing else; nothing follows the end of the turn.
pub open spec fn next_stage(s: Stage, e: EffectView) -> Stage {
    match (s, e) {
        (Stage::Broken, _) => Stage::Broken,
        (Stage::Done(_), _) => Stage::Broken,
        (Stage::Failed, EffectView::Emit(AgentEventView::TurnCompleted { .. })) => Stage::Done(
            false,
        ),
        (Stage::Failed, _) => Stage::Broken,
        (Stage::Open, EffectView::Emit(AgentEventView::TurnCompleted { .. })) => Stage::Done(true),
        (Stage::Open, EffectView::Emit(AgentEventView::Error { .. })) => Stage::Failed,
        (
            Stage::Open,
            EffectView::Emit(AgentEventView::ToolCallStarted { call_id, .. }),
        ) => Stage::Running(call_id),
        (Stage::Open, EffectView::Emit(AgentEventView::ToolCallCompleted { .. })) => Stage::Broken,
        (Stage::Open, _) => Stage::Open,
        (
            Stage::Running(id),
            EffectView::Emit(AgentEventView::ToolCallCompleted { call_id, .. }),
        ) => if call_id == id {
            Stage::Open
        } else {
            Stage::Broken
        },
        (Stage::Running(_), EffectView::Emit(AgentEventView::ToolCallStarted { .. })) => {
            Stage::Broken
        },
        (Stage::Running(_), EffectView::Emit(AgentEventView::TurnCompleted { .. })) => {
            Stage::Broken
        },
        (Stage::Running(_), EffectView::Emit(AgentEventView::Error { .. })) => Stage::Broken,
        (Stage::Running(id), _) => Stage::Running(id),
    }
}

/// What the reports have come to, from the stage `s` on.
pub open spec fn stage_after(s: Stage, log: Seq<EffectView>) -> Stage
    decreases log.len(),
{
    if log.len() == 0 {
        s
    } else {
        next_stage(stage_after(s, log.drop_last()), log.last())
    }
}

proof fn lemma_stage_push(s: Stage, log: Seq<EffectView>, e: EffectView)
    ensures
        stage_after(s, log.push(e)) == next_stage(stage_after(s, log), e),
{
    assert(log.push(e).drop_last() =~= log);
}

proof fn lemma_stage_concat(s: Stage, a: Seq<EffectView>, b: Seq<EffectView>)
    ensures
        stage_after(s, a + b) == stage_after(stage_after(s, a), b),
    decreases b.len(),
{
    if b.len() == 0 {
        assert(a + b =~= a);
    } else {
        lemma_stage_concat(s, a, b.drop_last());
        assert((a + b).drop_last() =~= a + b.drop_last());
    }
}

/// The stage of an agent whose step began at the stage `s`.
spec fn stage_of(s: Stage, a: AgentView) -> Stage {
    stage_after(s, a.out)
}

/// Whether the stage fits the phase of the turn.
pub open spec fn fits(stage: Stage, a: AgentView) -> bool {
    match a.phase {
        PhaseView::Executing => a.at < a.calls.len() && stage == Stage::Running(a.call().id),
        PhaseView::Saving(AfterSaveView::Denied) => a.at < a.calls.len() && stage
            == Stage::Running(a.call().id),
        PhaseView::Finished => stage == Stage::Done(a.result is Ok),
        PhaseView::Saving(AfterSaveView::Compacted(resume)) => stage is Open && resume
            != Resume::Manual,
        PhaseView::AskingSummary(resume) => stage is Open && resume != Resume::Manual,
        PhaseView::ReadingSummary(resume) => stage is Open && resume != Resume::Manual,
        _ => stage is Open,
    }
}

proof fn lemma_emit_stage(s: Stage, a: AgentView, ev: AgentEventView)
    ensures
        stage_of(s, a.emit(ev)) == next_stage(stage_of(s, a), EffectView::Emit(ev)),
{
    lemma_stage_push(s, a.out, EffectView::Emit(ev));
}

proof fn lemma_log_stage(s: Stage, a: AgentView, e: EffectView)
    requires
        !(e is Emit),
        stage_of(s, a) is Open || stage_of(s, a) is Running,
    ensures
        stage_of(s, a.log(e)) == stage_of(s, a),
{
    lemma_stage_push(s, a.out, e);
}

proof fn lemma_fail_stage(s: Stage, a: AgentView, e: ErrorView)
    requires
        stage_of(s, a) is Open,
    ensures
        fits(stage_of(s, a.fail(e)), a.fail(e)),
{
    let b = AgentView { result: Err(e), ..a };
    let ev = AgentEventView::Error { message: error_text(e) };
    lemma_emit_stage(s, b, ev);
    lemma_emit_stage(
        s,
        b.emit(ev),
        AgentEventView::TurnCompleted { usage: crate::message::no_usage() },
    );
}

proof fn lemma_succeed_stage(s: Stage, a: AgentView)
    requires
        stage_of(s, a) is Open,
    ensures
        fits(stage_of(s, a.succeed()), a.succeed()),
{
    lemma_emit_stage(
        s,
        AgentView { result: Ok(a.text), ..a },
        AgentEventView::TurnCompleted { usage: a.usage },
    );
}

proof fn lemma_next_attempt_stage(s: Stage, a: AgentView, sig: Signal)
    requires
        stage_of(s, a) is Open,
    ensures
        fits(stage_of(s, a.next_attempt(sig)), a.next_attempt(sig)),
{
    if sig.cancelled {
        lemma_fail_stage(s, a, ErrorView::Cancelled);
    } else if let Some(reason) = a.spent.stop_between_attempts(
        sig.elapsed_secs,
        a.usage.total_tokens,
    ) {
        lemma_fail_stage(s, a, ErrorView::BudgetExceeded(reason));
    }
}

proof fn lemma_start_compaction_stage(s: Stage, a: AgentView, resume: Resume)
    requires
        stage_of(s, a) is Open,
        resume != Resume::Manual,
    ensures
        fits(stage_of(s, a.start_compaction(resume)), a.start_compaction(resume)),
{
    lemma_emit_stage(
        s,
        AgentView { compaction: Some(CompactionView::of(a.context)), ..a },
        AgentEventView::CompactionStarted,
    );
}

proof fn lemma_attempt_failed_stage(s: Stage, a: AgentView, e: ErrorView)
    requires
        stage_of(s, a) is Open,
    ensures
        fits(stage_of(s, a.attempt_failed(e)), a.attempt_failed(e)),
{
    if e is ContextWindowExceeded && !a.overflow_retried {
        let b = AgentView { overflow_retried: true, ..a };
        let ev = AgentEventView::Warning { message: overflow_warning() };
        lemma_emit_stage(s, b, ev);
        lemma_start_compaction_stage(s, b.emit(ev), Resume::Retry);
    } else {
        lemma_fail_stage(s, a, e);
    }
}

proof fn lemma_skip_calls_stage(s: Stage, a: AgentView, from: nat, note: Seq<char>)
    requires
        stage_of(s, a) is Open,
    ensures
        stage_of(s, a.skip_calls(from, note)) is Open,
    decreases a.calls.len() - from,
{
    if from < a.calls.len() {
        let c = a.calls[from as int];
        let m = crate::agent_loop::result_message(c.id, note, true);
        lemma_emit_stage(s, a, started_event(c));
        let b = a.emit(started_event(c)).record(m);
        lemma_emit_stage(s, b, ended_event(c.id, 0, note));
        lemma_skip_calls_stage(s, a.skip_call(c, note), from + 1, note);
    }
}

proof fn lemma_look_at_call_stage(s: Stage, a: AgentView, sig: Signal)
    requires
        stage_of(s, a) is Open,
    ensures
        fits(stage_of(s, a.look_at_call(sig)), a.look_at_call(sig)),
{
    if a.at >= a.calls.len() {
        lemma_next_attempt_stage(s, a, sig);
    } else if sig.cancelled {
        lemma_skip_calls_stage(s, a, a.at, crate::agent_loop::cancelled_note());
    } else {
        let c = a.call();
        let args = crate::json::json_text(c.arguments);
        let counted = AgentView { spent: a.spent.with_call(c.name, args), ..a };
        if let Some(reason) = a.spent.stop_before_call(c.name, args) {
            lemma_skip_calls_stage(
                s,
                counted,
                a.at,
                crate::agent_loop::not_executed_note(reason),
            );
        }
    }
}

proof fn lemma_resume_stage(s: Stage, a: AgentView, resume: Resume, sig: Signal)
    requires
        stage_of(s, a) is Open,
        resume != Resume::Manual,
    ensures
        fits(stage_of(s, a.resume(resume, sig)), a.resume(resume, sig)),
{
    match resume {
        Resume::AfterCall => {
            lemma_look_at_call_stage(s, a.next_call(), sig);
        },
        Resume::Retry => {
            lemma_next_attempt_stage(s, a, sig);
        },
        _ => {},
    }
}

proof fn lemma_maybe_compact_stage(s: Stage, a: AgentView, resume: Resume, sig: Signal)
    requires
        stage_of(s, a) is Open,
        resume != Resume::Manual,
    ensures
        fits(stage_of(s, a.maybe_compact(resume, sig)), a.maybe_compact(resume, sig)),
{
    if !sig.cancelled && a.context.due() {
        lemma_start_compaction_stage(s, a, resume);
    } else {
        lemma_resume_stage(s, a, resume, sig);
    }
}

proof fn lemma_deny_stage(s: Stage, a: AgentView)
    requires
        stage_of(s, a) is Open,
        a.at < a.calls.len(),
    ensures
        fits(stage_of(s, a.deny_call()), a.deny_call()),
{
    let c = a.call();
    let text = crate::agent_loop::refusal(c.name);
    lemma_emit_stage(s, a, started_event(c));
    let b = a.emit(started_event(c)).record(
        crate::agent_loop::result_message(c.id, text, true),
    );
    lemma_log_stage(
        s,
        b,
        EffectView::LogFinished {
            call_id: c.id,
            state: crate::session::ToolEventState::Failed,
            output: text,
        },
    );
}

proof fn lemma_call_failed_stage(s: Stage, a: AgentView, note: Seq<char>, elapsed_ms: u64)
    requires
        a.at < a.calls.len(),
        stage_of(s, a) == Stage::Running(a.call().id),
    ensures
        fits(stage_of(s, a.call_failed(note, elapsed_ms)), a.call_failed(note, elapsed_ms)),
{
    let e = EffectView::LogFinished {
        call_id: a.call().id,
        state: crate::session::ToolEventState::Failed,
        output: note,
    };
    lemma_log_stage(s, a, e);
    lemma_emit_stage(s, a.log(e), ended_event(a.call().id, elapsed_ms, note));
}

proof fn lemma_start_call_stage(s: Stage, a: AgentView)
    requires
        stage_of(s, a) is Open,
        a.at < a.calls.len(),
    ensures
        fits(stage_of(s, a.start_call()), a.start_call()),
{
    let c = a.call();
    let b = AgentView { spent: a.spent.with_executed(), ..a };
    lemma_emit_stage(s, b, started_event(c));
    lemma_log_stage(s, b.emit(started_event(c)), EffectView::LogStarted(c));
    let started = b.emit(started_event(c)).log(EffectView::LogStarted(c));
    lemma_call_failed_stage(
        s,
        started,
        "tool error: "@ + error_text(ErrorView::Tool("unknown tool: "@ + c.name)),
        0,
    );
}

proof fn lemma_call_ended_stage(
    s: Stage,
    a: AgentView,
    result: Result<crate::traits::ToolOutputView, ErrorView>,
    elapsed_ms: u64,
)
    requires
        a.at < a.calls.len(),
        stage_of(s, a) == Stage::Running(a.call().id),
    ensures
        fits(stage_of(s, a.call_ended(result, elapsed_ms)), a.call_ended(result, elapsed_ms)),
{
    match result {
        Ok(o) => {
            let e = EffectView::LogFinished {
                call_id: a.call().id,
                state: crate::session::ToolEventState::Completed,
                output: o.content,
            };
            lemma_log_stage(s, a, e);
            lemma_emit_stage(
                s,
                a.log(e),
                AgentEventView::ToolCallCompleted {
                    call_id: a.call().id,
                    exit_code: o.exit_code,
                    timed_out: o.timed_out,
                    duration_ms: o.duration_ms,
                    output: o.content,
                },
            );
        },
        Err(ErrorView::Cancelled) => {
            lemma_call_failed_stage(s, a, crate::agent_loop::cancelled_note(), elapsed_ms);
        },
        Err(e) => {
            lemma_call_failed_stage(s, a, "tool error: "@ + error_text(e), elapsed_ms);
        },
    }
}

proof fn lemma_result_recorded_stage(
    s: Stage,
    a: AgentView,
    is_error: bool,
    content: Seq<char>,
    sig: Signal,
)
    requires
        stage_of(s, a) is Open,
    ensures
        fits(
            stage_of(s, a.result_recorded(is_error, content, sig)),
            a.result_recorded(is_error, content, sig),
        ),
{
    if is_error {
        let name = a.call().name;
        let counted = AgentView { spent: a.spent.with_error(name, content), ..a };
        match a.spent.stop_after_error(name, content) {
            Some(reason) => {
                lemma_skip_calls_stage(
                    s,
                    counted,
                    a.at + 1,
                    crate::agent_loop::not_executed_note(reason),
                );
            },
            None => {
                lemma_maybe_compact_stage(s, counted, Resume::AfterCall, sig);
            },
        }
    } else {
        lemma_maybe_compact_stage(
            s,
            AgentView { spent: a.spent.with_success(), ..a },
            Resume::AfterCall,
            sig,
        );
    }
}

proof fn lemma_note_saved_stage(s: Stage, a: AgentView, r: Result<(), ErrorView>)
    requires
        stage_of(s, a) is Open || stage_of(s, a) is Running,
    ensures
        stage_of(s, a.note_saved(r)) == stage_of(s, a),
        a.note_saved(r).at == a.at,
        a.note_saved(r).calls == a.calls,
        a.note_saved(r).phase == a.phase,
{
    match r {
        Ok(_) => {
            let stored = AgentView {
                persisted_len: a.context.items.len(),
                history_replaced: false,
                persist_failed: false,
                ..a
            };
            lemma_emit_stage(
                s,
                stored,
                AgentEventView::Warning { message: crate::agent_loop::recovered_warning() },
            );
        },
        Err(e) => {
            lemma_emit_stage(
                s,
                AgentView { persist_failed: true, ..a },
                AgentEventView::Warning { message: crate::agent_loop::save_failed_warning(e) },
            );
        },
    }
}

proof fn lemma_saved_stage(s: Stage, a: AgentView, next: AfterSaveView, sig: Signal)
    requires
        fits(stage_of(s, a), a.save(next)),
    ensures
        fits(stage_of(s, a.saved(next, sig)), a.saved(next, sig)),
{
    match next {
        AfterSaveView::BeginTurn => {
            lemma_emit_stage(s, a, AgentEventView::TurnStarted);
            lemma_next_attempt_stage(s, a.emit(AgentEventView::TurnStarted), sig);
        },
        AfterSaveView::Answered => {
            lemma_look_at_call_stage(s, a, sig);
        },
        AfterSaveView::Denied => {
            let ev = ended_event(a.call().id, 0, crate::agent_loop::refusal(a.call().name));
            lemma_emit_stage(s, a, ev);
            lemma_look_at_call_stage(s, a.emit(ev).next_call(), sig);
        },
        AfterSaveView::ResultRecorded { is_error, content } => {
            lemma_result_recorded_stage(s, a, is_error, content, sig);
        },
        AfterSaveView::Stop(e) => {
            lemma_fail_stage(s, a, e);
        },
        AfterSaveView::Compacted(resume) => {
            lemma_resume_stage(s, a, resume, sig);
        },
        AfterSaveView::Final => {
            lemma_succeed_stage(s, a);
        },
    }
}

proof fn lemma_compaction_moved_stage(
    s: Stage,
    a: AgentView,
    resume: Resume,
    moved: (CompactionView, CompactStepView),
    sig: Signal,
)
    requires
        stage_of(s, a) is Open,
        resume != Resume::Manual,
    ensures
        fits(
            stage_of(s, a.compaction_moved(resume, moved, sig)),
            a.compaction_moved(resume, moved, sig),
        ),
{
    let with = AgentView { compaction: Some(moved.0), ..a };
    match moved.1 {
        CompactStepView::Done => {
            let c = moved.0;
            let context = c.outcome(a.context);
            let tokens = (c.tokens_before, context.accounting.local_estimate);
            let b = AgentView {
                context,
                compaction: None,
                compacted: tokens,
                history_replaced: true,
                ..with
            };
            let ev = AgentEventView::CompactionCompleted {
                tokens_before: tokens.0,
                tokens_after: tokens.1,
            };
            lemma_emit_stage(s, b, ev);
            lemma_emit_stage(
                s,
                b.emit(ev),
                AgentEventView::Warning { message: crate::agent_loop::accuracy_warning() },
            );
        },
        CompactStepView::Failed(e) => {
            let without = AgentView { compaction: None, ..with };
            lemma_attempt_failed_stage(s, without, e);
            lemma_fail_stage(s, without, e);
        },
        _ => {},
    }
}

proof fn lemma_answer_event_stage(s: Stage, a: AgentView, ev: ProviderEventView)
    requires
        stage_of(s, a) is Open,
        a.phase is Streaming,
    ensures
        fits(stage_of(s, a.answer_event(ev)), a.answer_event(ev)),
{
    match ev {
        ProviderEventView::MessageDelta { delta } => {
            lemma_emit_stage(
                s,
                AgentView { text: a.text + delta, ..a },
                AgentEventView::MessageDelta { delta },
            );
        },
        ProviderEventView::ReasoningDelta { delta } => {
            lemma_emit_stage(s, a, AgentEventView::ReasoningDelta { delta });
        },
        ProviderEventView::Usage { usage } => {
            if usage.total_tokens != 0 {
                let b = AgentView {
                    usage: a.count_usage(usage).usage,
                    context: a.context.reported(usage),
                    ..a
                };
                lemma_emit_stage(
                    s,
                    b,
                    AgentEventView::TokenCountUpdated {
                        used: b.context.accounting.used(),
                        limit: b.context.limit() as i64,
                    },
                );
            }
        },
        ProviderEventView::ProviderError { message } => {
            lemma_attempt_failed_stage(s, a, ErrorView::Provider(message));
        },
        _ => {},
    }
}

/// What a step reports fits where the turn stood and where it stands then.
proof fn lemma_step_stage(s: Stage, a: AgentView, reply: ReplyView, sig: Signal)
    requires
        fits(s, a),
    ensures
        fits(stage_after(s, a.step(reply, sig).out), a.step(reply, sig)) || a.phase is Finished,
{
    let b = AgentView { out: Seq::empty(), ..a };
    match (b.phase, reply) {
        (PhaseView::Opening, ReplyView::Failed(e)) => {
            lemma_attempt_failed_stage(s, b, e);
        },
        (PhaseView::Streaming, ReplyView::Event(ev)) => {
            lemma_answer_event_stage(s, b, ev);
        },
        (PhaseView::Streaming, ReplyView::Cancelled) => {
            lemma_fail_stage(s, b, ErrorView::Cancelled);
        },
        (PhaseView::Deciding, ReplyView::Decision(d)) => {
            if b.at < b.calls.len() {
                lemma_start_call_stage(s, b);
                lemma_deny_stage(s, b);
                lemma_emit_stage(
                    s,
                    b,
                    AgentEventView::ApprovalRequested {
                        call_id: b.call().id,
                        tool: b.call().name,
                        command: crate::json::json_text(b.call().arguments),
                    },
                );
            }
        },
        (PhaseView::Approving, ReplyView::Answer(yes)) => {
            if b.at < b.calls.len() {
                lemma_start_call_stage(s, b);
                lemma_deny_stage(s, b);
            }
        },
        (PhaseView::Executing, ReplyView::Executed { result, elapsed_ms }) => {
            lemma_call_ended_stage(s, b, result, elapsed_ms);
        },
        (PhaseView::Saving(next), ReplyView::Saved(r)) => {
            lemma_note_saved_stage(s, b, r);
            lemma_saved_stage(s, b.note_saved(r), next, sig);
        },
        (PhaseView::AskingSummary(resume), ReplyView::Failed(e)) => {
            if let Some(c) = b.compaction {
                lemma_compaction_moved_stage(s, b, resume, c.request_failed(e), sig);
            }
        },
        (PhaseView::AskingSummary(resume), ReplyView::Unheard) => {
            if let Some(c) = b.compaction {
                lemma_compaction_moved_stage(s, b, resume, c.unheard(), sig);
            }
        },
        (PhaseView::ReadingSummary(resume), ReplyView::Event(ev)) => {
            if let Some(c) = b.compaction {
                lemma_compaction_moved_stage(s, b, resume, c.event(ev), sig);
            }
        },
        (PhaseView::ReadingSummary(resume), ReplyView::End) => {
            if let Some(c) = b.compaction {
                lemma_compaction_moved_stage(s, b, resume, c.answer_ended(), sig);
            }
        },
        _ => {},
    }
}

/// Every turn has exactly one observable end, and its events make sense
/// throughout: calls start and complete one after the other, each start
/// with its own completion; where the turn failed an error is reported and
/// then its end; where it succeeded its end alone; and nothing follows the
/// end.
pub proof fn law_turn_ends_once(
    a: AgentView,
    input: Seq<char>,
    sig: Signal,
    replies: Seq<(ReplyView, Signal)>,
)
    ensures
        fits(
            stage_after(Stage::Open, reported(a.begin(input, sig), replies)),
            run(a.begin(input, sig), replies),
        ),
    decreases replies.len(),
{
    let start = a.begin(input, sig);
    if replies.len() == 0 {
        let b = a.fresh(input);
        let ev = AgentEventView::TokenCountUpdated {
            used: a.context.accounting.used(),
            limit: a.context.limit() as i64,
        };
        lemma_emit_stage(Stage::Open, b, ev);
        lemma_maybe_compact_stage(Stage::Open, b.emit(ev), Resume::BeforeTurn, sig);
    } else {
        law_turn_ends_once(a, input, sig, replies.drop_last());
        let before = run(start, replies.drop_last());
        let log = reported(start, replies.drop_last());
        let s = stage_after(Stage::Open, log);
        let after = run(start, replies);
        lemma_step_stage(s, before, replies.last().0, replies.last().1);
        lemma_stage_concat(Stage::Open, log, after.out);
        if before.phase is Finished {
            assert(after.out =~= Seq::empty());
        }
    }
}

// ---- what a step carries along ----

/// How often the overflow warning was reported.
pub open spec fn overflow_warnings(log: Seq<EffectView>) -> nat
    decreases log.len(),
{
    if log.len() == 0 {
        0
    } else {
        overflow_warnings(log.drop_last()) + if log.last() == EffectView::Emit(
            AgentEventView::Warning { message: overflow_warning() },
        ) {
            1nat
        } else {
            0nat
        }
    }
}

proof fn lemma_warnings_concat(a: Seq<EffectView>, b: Seq<EffectView>)
    ensures
        overflow_warnings(a + b) == overflow_warnings(a) + overflow_warnings(b),
    decreases b.len(),
{
    if b.len() == 0 {
        assert(a + b =~= a);
    } else {
        lemma_warnings_concat(a, b.drop_last());
        assert((a + b).drop_last() =~= a + b.drop_last());
    }
}

/// One where a request that did not fit was already made again.
spec fn retries(a: AgentView) -> int {
    if a.overflow_retried {
        1
    } else {
        0
    }
}

/// Whether `b` comes from `a` by parts of a step that execute no call: the
/// history only grew, unless it was replaced and that is noted; what counts
/// as stored and the calls that were executed are the same; and a retry was
/// noted for each overflow warning.
spec fn carries(a: AgentView, b: AgentView) -> bool {
    &&& same_settings(a, b)
    &&& b.persisted_len == a.persisted_len
    &&& b.history_replaced || (!a.history_replaced && a.context.items.len()
        <= b.context.items.len() && b.context.items.take(a.context.items.len() as int)
        == a.context.items)
    &&& b.spent.cfg == a.spent.cfg
    &&& b.spent.tool_calls == a.spent.tool_calls
    &&& overflow_warnings(b.out) - overflow_warnings(a.out) == retries(b) - retries(a)
}

proof fn lemma_carries_same(a: AgentView)
    ensures
        carries(a, a),
{
    assert(a.context.items.take(a.context.items.len() as int) =~= a.context.items);
}

proof fn lemma_carries_on(a: AgentView, b: AgentView, c: AgentView)
    requires
        carries(a, b),
        carries(b, c),
    ensures
        carries(a, c),
{
    if !c.history_replaced {
        let n = a.context.items.len() as int;
        assert(c.context.items.take(b.context.items.len() as int).take(n)
            =~= c.context.items.take(n));
    }
}

/// Whether an event is not the overflow warning.
spec fn is_other(ev: AgentEventView) -> bool {
    ev != (AgentEventView::Warning { message: overflow_warning() })
}

proof fn lemma_emit_carries(a: AgentView, ev: AgentEventView)
    requires
        is_other(ev),
    ensures
        carries(a, a.emit(ev)),
{
    lemma_carries_same(a);
    assert(a.out.push(EffectView::Emit(ev)).drop_last() =~= a.out);
}

proof fn lemma_log_carries(a: AgentView, e: EffectView)
    requires
        !(e is Emit),
    ensures
        carries(a, a.log(e)),
{
    lemma_carries_same(a);
    assert(a.out.push(e).drop_last() =~= a.out);
}

proof fn lemma_record_carries(a: AgentView, m: MessageView)
    ensures
        carries(a, a.record(m)),
{
    assert(a.context.items.push(m).take(a.context.items.len() as int) =~= a.context.items);
}

proof fn lemma_fail_carries(a: AgentView, e: ErrorView)
    ensures
        carries(a, a.fail(e)),
{
    let b = AgentView { result: Err(e), ..a };
    let ev = AgentEventView::Error { message: error_text(e) };
    let done = AgentEventView::TurnCompleted { usage: crate::message::no_usage() };
    lemma_emit_carries(b, ev);
    lemma_emit_carries(b.emit(ev), done);
    lemma_carries_on(b, b.emit(ev), b.emit(ev).emit(done));
}

proof fn lemma_next_attempt_carries(a: AgentView, sig: Signal)
    ensures
        carries(a, a.next_attempt(sig)),
{
    lemma_carries_same(a);
    if sig.cancelled {
        lemma_fail_carries(a, ErrorView::Cancelled);
    } else if let Some(reason) = a.spent.stop_between_attempts(
        sig.elapsed_secs,
        a.usage.total_tokens,
    ) {
        lemma_fail_carries(a, ErrorView::BudgetExceeded(reason));
    }
}

proof fn lemma_start_compaction_carries(a: AgentView, resume: Resume)
    ensures
        carries(a, a.start_compaction(resume)),
{
    lemma_emit_carries(
        AgentView { compaction: Some(CompactionView::of(a.context)), ..a },
        AgentEventView::CompactionStarted,
    );
}

proof fn lemma_attempt_failed_carries(a: AgentView, e: ErrorView)
    ensures
        carries(a, a.attempt_failed(e)),
{
    if e is ContextWindowExceeded && !a.overflow_retried {
        let b = AgentView { overflow_retried: true, ..a };
        let ev = AgentEventView::Warning { message: overflow_warning() };
        assert(b.out.push(EffectView::Emit(ev)).drop_last() =~= b.out);
        lemma_carries_same(a);
        assert(carries(a, b.emit(ev)));
        lemma_start_compaction_carries(b.emit(ev), Resume::Retry);
        lemma_carries_on(a, b.emit(ev), b.emit(ev).start_compaction(Resume::Retry));
    } else {
        lemma_fail_carries(a, e);
    }
}

proof fn lemma_skip_calls_carries(a: AgentView, from: nat, note: Seq<char>)
    ensures
        carries(a, a.skip_calls(from, note)),
    decreases a.calls.len() - from,
{
    lemma_carries_same(a);
    if from < a.calls.len() {
        let c = a.calls[from as int];
        let m = crate::agent_loop::result_message(c.id, note, true);
        let b = a.emit(started_event(c));
        lemma_emit_carries(a, started_event(c));
        lemma_record_carries(b, m);
        lemma_emit_carries(b.record(m), ended_event(c.id, 0, note));
        lemma_carries_on(a, b, b.record(m));
        let d = a.skip_call(c, note);
        lemma_carries_on(a, b.record(m), d);
        lemma_skip_calls_carries(d, from + 1, note);
        lemma_carries_on(a, d, d.skip_calls(from + 1, note));
    }
}

proof fn lemma_look_at_call_carries(a: AgentView, sig: Signal)
    ensures
        carries(a, a.look_at_call(sig)),
{
    lemma_carries_same(a);
    if a.at >= a.calls.len() {
        lemma_next_attempt_carries(a, sig);
    } else if sig.cancelled {
        lemma_skip_calls_carries(a, a.at, crate::agent_loop::cancelled_note());
    } else {
        let c = a.call();
        let args = crate::json::json_text(c.arguments);
        let counted = AgentView { spent: a.spent.with_call(c.name, args), ..a };
        if let Some(reason) = a.spent.stop_before_call(c.name, args) {
            let note = crate::agent_loop::not_executed_note(reason);
            lemma_skip_calls_carries(counted, a.at, note);
            lemma_carries_on(a, counted, counted.skip_calls(a.at, note));
        }
    }
}

proof fn lemma_resume_carries(a: AgentView, resume: Resume, sig: Signal)
    ensures
        carries(a, a.resume(resume, sig)),
{
    lemma_carries_same(a);
    match resume {
        Resume::AfterCall => {
            lemma_look_at_call_carries(a.next_call(), sig);
        },
        Resume::Retry => {
            lemma_next_attempt_carries(a, sig);
        },
        Resume::BeforeTurn => {
            lemma_record_carries(a, MessageView::User { content: a.input });
        },
        _ => {},
    }
}

proof fn lemma_maybe_compact_carries(a: AgentView, resume: Resume, sig: Signal)
    ensures
        carries(a, a.maybe_compact(resume, sig)),
{
    lemma_start_compaction_carries(a, resume);
    lemma_resume_carries(a, resume, sig);
}

proof fn lemma_deny_carries(a: AgentView)
    ensures
        carries(a, a.deny_call()),
{
    let c = a.call();
    let text = crate::agent_loop::refusal(c.name);
    let m = crate::agent_loop::result_message(c.id, text, true);
    let e = EffectView::LogFinished {
        call_id: c.id,
        state: crate::session::ToolEventState::Failed,
        output: text,
    };
    let b = a.emit(started_event(c));
    lemma_emit_carries(a, started_event(c));
    lemma_record_carries(b, m);
    lemma_carries_on(a, b, b.record(m));
    lemma_log_carries(b.record(m), e);
    lemma_carries_on(a, b.record(m), b.record(m).log(e));
}

proof fn lemma_record_result_carries(a: AgentView, content: Seq<char>, is_error: bool)
    ensures
        carries(a, a.record_result(content, is_error)),
{
    let kept = crate::compact::truncated(content, a.context.cfg.tool_output_max_bytes as nat);
    lemma_record_carries(a, crate::agent_loop::result_message(a.call().id, kept, is_error));
}

proof fn lemma_call_failed_carries(a: AgentView, note: Seq<char>, elapsed_ms: u64)
    ensures
        carries(a, a.call_failed(note, elapsed_ms)),
{
    let e = EffectView::LogFinished {
        call_id: a.call().id,
        state: crate::session::ToolEventState::Failed,
        output: note,
    };
    let ev = ended_event(a.call().id, elapsed_ms, note);
    lemma_log_carries(a, e);
    lemma_emit_carries(a.log(e), ev);
    lemma_carries_on(a, a.log(e), a.log(e).emit(ev));
    lemma_record_result_carries(a.log(e).emit(ev), note, true);
    lemma_carries_on(a, a.log(e).emit(ev), a.log(e).emit(ev).record_result(note, true));
}

proof fn lemma_start_call_carries(a: AgentView)
    ensures
        carries(AgentView { spent: a.spent.with_executed(), ..a }, a.start_call()),
{
    let c = a.call();
    let b = AgentView { spent: a.spent.with_executed(), ..a };
    let started = b.emit(started_event(c)).log(EffectView::LogStarted(c));
    lemma_emit_carries(b, started_event(c));
    lemma_log_carries(b.emit(started_event(c)), EffectView::LogStarted(c));
    lemma_carries_on(b, b.emit(started_event(c)), started);
    let note = "tool error: "@ + error_text(ErrorView::Tool("unknown tool: "@ + c.name));
    lemma_call_failed_carries(started, note, 0);
    lemma_carries_on(b, started, started.call_failed(note, 0));
}

proof fn lemma_call_ended_carries(
    a: AgentView,
    result: Result<crate::traits::ToolOutputView, ErrorView>,
    elapsed_ms: u64,
)
    ensures
        carries(a, a.call_ended(result, elapsed_ms)),
{
    match result {
        Ok(o) => {
            let e = EffectView::LogFinished {
                call_id: a.call().id,
                state: crate::session::ToolEventState::Completed,
                output: o.content,
            };
            let ev = AgentEventView::ToolCallCompleted {
                call_id: a.call().id,
                exit_code: o.exit_code,
                timed_out: o.timed_out,
                duration_ms: o.duration_ms,
                output: o.content,
            };
            let b = a.log(e).emit(ev);
            lemma_log_carries(a, e);
            lemma_emit_carries(a.log(e), ev);
            lemma_carries_on(a, a.log(e), b);
            lemma_record_result_carries(b, o.content, false);
            lemma_carries_on(a, b, b.record_result(o.content, false));
        },
        Err(ErrorView::Cancelled) => {
            lemma_call_failed_carries(a, crate::agent_loop::cancelled_note(), elapsed_ms);
        },
        Err(e) => {
            lemma_call_failed_carries(a, "tool error: "@ + error_text(e), elapsed_ms);
        },
    }
}

proof fn lemma_result_recorded_carries(
    a: AgentView,
    is_error: bool,
    content: Seq<char>,
    sig: Signal,
)
    ensures
        carries(a, a.result_recorded(is_error, content, sig)),
{
    lemma_carries_same(a);
    if is_error {
        let name = a.call().name;
        let counted = AgentView { spent: a.spent.with_error(name, content), ..a };
        match a.spent.stop_after_error(name, content) {
            Some(reason) => {
                lemma_skip_calls_carries(
                    counted,
                    a.at + 1,
                    crate::agent_loop::not_executed_note(reason),
                );
            },
            None => {
                lemma_maybe_compact_carries(counted, Resume::AfterCall, sig);
            },
        }
    } else {
        lemma_maybe_compact_carries(
            AgentView { spent: a.spent.with_success(), ..a },
            Resume::AfterCall,
            sig,
        );
    }
}

proof fn lemma_saved_carries(a: AgentView, next: AfterSaveView, sig: Signal)
    ensures
        carries(a, a.saved(next, sig)),
{
    lemma_carries_same(a);
    match next {
        AfterSaveView::BeginTurn => {
            let b = a.emit(AgentEventView::TurnStarted);
            lemma_emit_carries(a, AgentEventView::TurnStarted);
            lemma_next_attempt_carries(b, sig);
            lemma_carries_on(a, b, b.next_attempt(sig));
        },
        AfterSaveView::Answered => {
            lemma_look_at_call_carries(a, sig);
        },
        AfterSaveView::Denied => {
            let ev = ended_event(a.call().id, 0, crate::agent_loop::refusal(a.call().name));
            let b = a.emit(ev).next_call();
            lemma_emit_carries(a, ev);
            lemma_look_at_call_carries(b, sig);
            lemma_carries_on(a, b, b.look_at_call(sig));
        },
        AfterSaveView::ResultRecorded { is_error, content } => {
            lemma_result_recorded_carries(a, is_error, content, sig);
        },
        AfterSaveView::Stop(e) => {
            lemma_fail_carries(a, e);
        },
        AfterSaveView::Compacted(resume) => {
            lemma_resume_carries(a, resume, sig);
        },
        AfterSaveView::Final => {
            lemma_emit_carries(
                AgentView { result: Ok(a.text), ..a },
                AgentEventView::TurnCompleted { usage: a.usage },
            );
        },
    }
}

proof fn lemma_accuracy_warning_is_other()
    ensures
        is_other(AgentEventView::Warning { message: crate::agent_loop::accuracy_warning() }),
{
    reveal_strlit("context window exceeded; compacting and retrying once");
    reveal_strlit(
        "Heads up: long threads and multiple compactions can reduce model accuracy. Consider starting a fresh session.",
    );
    assert(overflow_warning()[0] == 'c');
    assert(crate::agent_loop::accuracy_warning()[0] == 'H');
}

proof fn lemma_save_warnings_are_other(e: ErrorView)
    ensures
        is_other(AgentEventView::Warning { message: crate::agent_loop::recovered_warning() }),
        is_other(AgentEventView::Warning { message: crate::agent_loop::save_failed_warning(e) }),
{
    reveal_strlit("context window exceeded; compacting and retrying once");
    reveal_strlit("transcript saving recovered");
    reveal_strlit("transcript saving failed: ");
    assert(overflow_warning()[0] == 'c');
    assert(crate::agent_loop::recovered_warning()[0] == 't');
    assert(crate::agent_loop::save_failed_warning(e)[0] == 't');
}

proof fn lemma_compaction_moved_carries(
    a: AgentView,
    resume: Resume,
    moved: (CompactionView, CompactStepView),
    sig: Signal,
)
    ensures
        carries(a, a.compaction_moved(resume, moved, sig)),
{
    lemma_carries_same(a);
    let with = AgentView { compaction: Some(moved.0), ..a };
    match moved.1 {
        CompactStepView::Done => {
            let c = moved.0;
            let context = c.outcome(a.context);
            let tokens = (c.tokens_before, context.accounting.local_estimate);
            let b = AgentView {
                context,
                compaction: None,
                compacted: tokens,
                history_replaced: true,
                ..with
            };
            let ev = AgentEventView::CompactionCompleted {
                tokens_before: tokens.0,
                tokens_after: tokens.1,
            };
            let warning = AgentEventView::Warning {
                message: crate::agent_loop::accuracy_warning(),
            };
            lemma_accuracy_warning_is_other();
            lemma_emit_carries(b, ev);
            lemma_emit_carries(b.emit(ev), warning);
            lemma_carries_on(b, b.emit(ev), b.emit(ev).emit(warning));
            lemma_carries_on(a, b, b.emit(ev).emit(warning));
        },
        CompactStepView::Failed(e) => {
            let without = AgentView { compaction: None, ..with };
            lemma_attempt_failed_carries(without, e);
            lemma_fail_carries(without, e);
        },
        _ => {},
    }
}

proof fn lemma_answer_event_carries(a: AgentView, ev: ProviderEventView)
    ensures
        carries(a, a.answer_event(ev)),
{
    lemma_carries_same(a);
    match ev {
        ProviderEventView::MessageDelta { delta } => {
            lemma_emit_carries(
                AgentView { text: a.text + delta, ..a },
                AgentEventView::MessageDelta { delta },
            );
        },
        ProviderEventView::ReasoningDelta { delta } => {
            lemma_emit_carries(a, AgentEventView::ReasoningDelta { delta });
        },
        ProviderEventView::Usage { usage } => {
            if usage.total_tokens != 0 {
                let b = AgentView {
                    usage: a.count_usage(usage).usage,
                    context: a.context.reported(usage),
                    ..a
                };
                lemma_emit_carries(
                    b,
                    AgentEventView::TokenCountUpdated {
                        used: b.context.accounting.used(),
                        limit: b.context.limit() as i64,
                    },
                );
            }
        },
        ProviderEventView::ProviderError { message } => {
            lemma_attempt_failed_carries(a, ErrorView::Provider(message));
        },
        ProviderEventView::Done => {
            lemma_answer_ended_carries(a);
        },
        _ => {},
    }
}

proof fn lemma_answer_ended_carries(a: AgentView)
    ensures
        carries(a, a.answer_ended()),
{
    lemma_carries_same(a);
    lemma_record_carries(
        a,
        MessageView::Assistant { content: a.text, reasoning: None, tool_calls: a.calls },
    );
}

/// Whether the reply lets the current call run.
pub open spec fn runs_call(a: AgentView, reply: ReplyView) -> bool {
    a.at < a.calls.len() && match (a.phase, reply) {
        (PhaseView::Deciding, ReplyView::Decision(d)) => d == PermissionDecision::Allow,
        (PhaseView::Approving, ReplyView::Answer(yes)) => yes,
        _ => false,
    }
}

/// Whether the agent is told that a save was carried out.
pub open spec fn is_stored(a: AgentView, reply: ReplyView) -> bool {
    match (a.phase, reply) {
        (PhaseView::Saving(next), ReplyView::Saved(Ok(_))) => (next is Denied
            || next is ResultRecorded) ==> a.at < a.calls.len(),
        _ => false,
    }
}

/// The agent with what counts as stored brought up to date.
spec fn with_stored(a: AgentView) -> AgentView {
    if a.session_id is Some {
        AgentView { persisted_len: a.context.items.len(), history_replaced: false, ..a }
    } else {
        a
    }
}

proof fn lemma_note_saved_carries(a: AgentView, r: Result<(), ErrorView>)
    ensures
        r is Err ==> carries(a, a.note_saved(r)),
        r is Ok ==> carries(with_stored(a), a.note_saved(r)),
{
    lemma_carries_same(a);
    lemma_carries_same(with_stored(a));
    match r {
        Ok(_) => {
            let stored = AgentView {
                persisted_len: a.context.items.len(),
                history_replaced: false,
                persist_failed: false,
                ..a
            };
            lemma_save_warnings_are_other(ErrorView::Busy);
            lemma_emit_carries(
                stored,
                AgentEventView::Warning { message: crate::agent_loop::recovered_warning() },
            );
        },
        Err(e) => {
            lemma_save_warnings_are_other(e);
            lemma_emit_carries(
                AgentView { persist_failed: true, ..a },
                AgentEventView::Warning { message: crate::agent_loop::save_failed_warning(e) },
            );
        },
    }
}

/// What a step carries along: all of `carries`, from the agent in which an
/// executed call or a save that was carried out is noted.
#[verifier::spinoff_prover]
#[verifier::rlimit(60)]
proof fn lemma_step_carries(a: AgentView, reply: ReplyView, sig: Signal)
    ensures
        ({
            let b = AgentView { out: Seq::empty(), ..a };
            let from = if runs_call(a, reply) {
                AgentView { spent: b.spent.with_executed(), ..b }
            } else if is_stored(a, reply) {
                with_stored(b)
            } else {
                b
            };
            carries(from, a.step(reply, sig))
        }),
{
    let b = AgentView { out: Seq::empty(), ..a };
    lemma_carries_same(b);
    match (b.phase, reply) {
        (PhaseView::Opening, ReplyView::Failed(e)) => {
            lemma_attempt_failed_carries(b, e);
        },
        (PhaseView::Streaming, ReplyView::Event(ev)) => {
            lemma_answer_event_carries(b, ev);
        },
        (PhaseView::Streaming, ReplyView::End) => {
            lemma_answer_ended_carries(b);
        },
        (PhaseView::Streaming, ReplyView::Cancelled) => {
            lemma_fail_carries(b, ErrorView::Cancelled);
        },
        (PhaseView::Deciding, ReplyView::Decision(d)) => {
            lemma_start_call_carries(b);
            lemma_deny_carries(b);
            lemma_emit_carries(
                b,
                AgentEventView::ApprovalRequested {
                    call_id: b.call().id,
                    tool: b.call().name,
                    command: crate::json::json_text(b.call().arguments),
                },
            );
        },
        (PhaseView::Approving, ReplyView::Answer(yes)) => {
            lemma_start_call_carries(b);
            lemma_deny_carries(b);
        },
        (PhaseView::Executing, ReplyView::Executed { result, elapsed_ms }) => {
            lemma_call_ended_carries(b, result, elapsed_ms);
        },
        (PhaseView::Saving(next), ReplyView::Saved(r)) => {
            lemma_carries_same(with_stored(b));
            lemma_note_saved_carries(b, r);
            lemma_saved_carries(b.note_saved(r), next, sig);
            let from = if r is Ok {
                with_stored(b)
            } else {
                b
            };
            lemma_carries_on(from, b.note_saved(r), b.note_saved(r).saved(next, sig));
        },
        (PhaseView::AskingSummary(resume), ReplyView::Failed(e)) => {
            if let Some(c) = b.compaction {
                lemma_compaction_moved_carries(b, resume, c.request_failed(e), sig);
            }
        },
        (PhaseView::AskingSummary(resume), ReplyView::Unheard) => {
            if let Some(c) = b.compaction {
                lemma_compaction_moved_carries(b, resume, c.unheard(), sig);
            }
        },
        (PhaseView::ReadingSummary(resume), ReplyView::Event(ev)) => {
            if let Some(c) = b.compaction {
                lemma_compaction_moved_carries(b, resume, c.event(ev), sig);
            }
        },
        (PhaseView::ReadingSummary(resume), ReplyView::End) => {
            if let Some(c) = b.compaction {
                lemma_compaction_moved_carries(b, resume, c.answer_ended(), sig);
            }
        },
        _ => {},
    }
}

/// What the agent was made with never changes, whatever happens in a turn:
/// each request goes to the same model with the same tools.
pub proof fn law_settings_never_change(a: AgentView, replies: Seq<(ReplyView, Signal)>)
    ensures
        same_settings(a, run(a, replies)),
    decreases replies.len(),
{
    if replies.len() > 0 {
        law_settings_never_change(a, replies.drop_last());
        lemma_step_carries(run(a, replies.drop_last()), replies.last().0, replies.last().1);
    }
}

/// Nothing that was said is changed or dropped: a step only adds to the
/// history, unless it completes a compaction, and that is noted.
pub proof fn law_step_only_adds(a: AgentView, reply: ReplyView, sig: Signal)
    ensures
        ({
            let b = a.step(reply, sig);
            b.history_replaced || (a.context.items.len() <= b.context.items.len()
                && b.context.items.take(a.context.items.len() as int) == a.context.items)
        }),
{
    lemma_step_carries(a, reply, sig);
}

/// A request that does not fit is made again at most once per turn: the
/// warning that goes with it is reported at most once.
pub proof fn law_overflow_is_retried_once(
    a: AgentView,
    input: Seq<char>,
    sig: Signal,
    replies: Seq<(ReplyView, Signal)>,
)
    ensures
        overflow_warnings(reported(a.begin(input, sig), replies)) <= 1,
{
    lemma_overflow_warnings(a, input, sig, replies);
}

proof fn lemma_overflow_warnings(
    a: AgentView,
    input: Seq<char>,
    sig: Signal,
    replies: Seq<(ReplyView, Signal)>,
)
    ensures
        overflow_warnings(reported(a.begin(input, sig), replies)) == retries(
            run(a.begin(input, sig), replies),
        ),
    decreases replies.len(),
{
    let start = a.begin(input, sig);
    if replies.len() == 0 {
        let b = a.fresh(input);
        let ev = AgentEventView::TokenCountUpdated {
            used: a.context.accounting.used(),
            limit: a.context.limit() as i64,
        };
        lemma_emit_carries(b, ev);
        lemma_maybe_compact_carries(b.emit(ev), Resume::BeforeTurn, sig);
    } else {
        lemma_overflow_warnings(a, input, sig, replies.drop_last());
        let before = run(start, replies.drop_last());
        lemma_step_carries(before, replies.last().0, replies.last().1);
        lemma_warnings_concat(reported(start, replies.drop_last()), run(start, replies).out);
    }
}

// ---- the stored transcript ----

/// The stored transcript after a save that was carried out.
pub open spec fn stored_after(
    plan: SavePlan,
    store: Seq<MessageView>,
    items: Seq<MessageView>,
) -> Seq<MessageView> {
    match plan {
        SavePlan::Skip => store,
        SavePlan::Append { from } => store + items.skip(from as int),
        SavePlan::Replace => items,
    }
}

/// Whether the agent knows what is stored: unless the history was rewritten
/// since, the stored transcript is the part of the history that counts as
/// stored.
pub open spec fn in_step(a: AgentView, store: Seq<MessageView>) -> bool {
    a.session_id is Some ==> (a.history_replaced || (a.persisted_len <= a.context.items.len()
        && store == a.context.items.take(a.persisted_len as int)))
}

/// A save that is carried out leaves exactly the history in the store: what
/// is stored already is not stored again, and what was rewritten is
/// replaced.
pub proof fn law_save_stores_the_history(a: AgentView, store: Seq<MessageView>)
    requires
        in_step(a, store),
        a.session_id is Some,
        a.persisted_len <= usize::MAX,
    ensures
        stored_after(a.plan(), store, a.context.items) == a.context.items,
{
    let items = a.context.items;
    if !a.history_replaced {
        assert(items.take(a.persisted_len as int) + items.skip(a.persisted_len as int) =~= items);
    }
}

/// The store after the agent is told of a save: the plan was carried out
/// where the save succeeded, and nothing happened where it failed.
pub open spec fn next_store(
    a: AgentView,
    store: Seq<MessageView>,
    reply: ReplyView,
) -> Seq<MessageView> {
    if is_stored(a, reply) {
        stored_after(a.plan(), store, a.context.items)
    } else {
        store
    }
}

/// The agent never loses track of what is stored, whatever fails: a failed
/// save is made up for by a later one, and a compacted history is rewritten
/// until the rewrite succeeds.
pub proof fn law_step_keeps_track_of_the_store(
    a: AgentView,
    store: Seq<MessageView>,
    reply: ReplyView,
    sig: Signal,
)
    requires
        in_step(a, store),
        a.persisted_len <= usize::MAX,
    ensures
        in_step(a.step(reply, sig), next_store(a, store, reply)),
        a.step(reply, sig).session_id == a.session_id,
{
    let b = AgentView { out: Seq::empty(), ..a };
    lemma_step_carries(a, reply, sig);
    let z = a.step(reply, sig);
    if a.session_id is Some {
        let items = a.context.items;
        if is_stored(a, reply) {
            law_save_stores_the_history(a, store);
            assert(items.take(items.len() as int) =~= items);
        } else if !z.history_replaced {
            assert(z.context.items.take(items.len() as int).take(a.persisted_len as int)
                =~= z.context.items.take(a.persisted_len as int));
        }
    }
}

/// An agent without a session never writes to the store, whatever happens
/// in its turns: a transcript that could not be read stays as it is stored.
pub proof fn law_without_a_session_nothing_is_saved(
    a: AgentView,
    replies: Seq<(ReplyView, Signal)>,
)
    requires
        a.session_id is None,
    ensures
        run(a, replies).session_id is None,
        run(a, replies).plan() == SavePlan::Skip,
    decreases replies.len(),
{
    if replies.len() > 0 {
        law_without_a_session_nothing_is_saved(a, replies.drop_last());
        lemma_step_carries(run(a, replies.drop_last()), replies.last().0, replies.last().1);
    }
}

// ---- what a compaction leaves ----

/// The compaction that the reply completes, where it completes one.
pub open spec fn completed_compaction(a: AgentView, reply: ReplyView) -> Option<CompactionView> {
    match (a.phase, reply, a.compaction) {
        (PhaseView::ReadingSummary(_), ReplyView::Event(ev), Some(c)) => if c.event(ev).1 is Done {
            Some(c.event(ev).0)
        } else {
            None
        },
        (PhaseView::ReadingSummary(_), ReplyView::End, Some(c)) => if c.answer_ended().1 is Done {
            Some(c.answer_ended().0)
        } else {
            None
        },
        _ => None,
    }
}

/// A completed compaction counts as one rewrite of the transcript. It starts
/// the accounting anew from the estimates of what is left, reports the
/// tokens before and after, and then warns; the next save is due to rewrite.
pub proof fn law_completed_compaction_is_a_rewrite(a: AgentView, reply: ReplyView, sig: Signal)
    requires
        completed_compaction(a, reply) is Some,
    ensures
        ({
            let c = completed_compaction(a, reply)->0;
            let z = a.step(reply, sig);
            let after = z.context.accounting.used();
            &&& z.context == c.outcome(a.context)
            &&& z.context.rewrites == a.context.rewrites.wrapping_add(1)
            &&& z.context.accounting == no_tokens().with_items(z.context.items)
            &&& !z.context.accounting.has_real_usage
            &&& z.compacted == (c.tokens_before, after)
            &&& z.history_replaced
            &&& z.out == seq![
                EffectView::Emit(
                    AgentEventView::CompactionCompleted {
                        tokens_before: c.tokens_before,
                        tokens_after: after,
                    },
                ),
                EffectView::Emit(
                    AgentEventView::Warning { message: crate::agent_loop::accuracy_warning() },
                ),
            ]
        }),
{
    let c = completed_compaction(a, reply)->0;
    lemma_estimates_only(no_tokens(), c.outcome(a.context).items);
    let z = a.step(reply, sig);
    assert(z.out =~= seq![z.out[0], z.out[1]]);
}

/// Local messages change nothing but the estimate.
proof fn lemma_estimates_only(t: TokenAccounting, items: Seq<MessageView>)
    ensures
        t.with_items(items).last_response_total == t.last_response_total,
        t.with_items(items).has_real_usage == t.has_real_usage,
    decreases items.len(),
{
    if items.len() > 0 {
        lemma_estimates_only(t, items.drop_last());
    }
}

// ---- cancelling ----

/// Only the user cancels: a stream that is given up without the user's
/// signal leaves the turn as it is.
pub proof fn law_only_the_user_cancels(a: AgentView, sig: Signal)
    requires
        !sig.cancelled,
    ensures
        a.step(ReplyView::Cancelled, sig) == (AgentView { out: Seq::empty(), ..a }),
{
}

/// Cancelling stops the turn at the next save: from there on no request is
/// made, no call is looked at and no compaction begins.
pub proof fn law_cancelled_turn_starts_nothing(a: AgentView, reply: ReplyView, sig: Signal)
    requires
        sig.cancelled,
        a.phase is Saving,
        a.phase != PhaseView::Saving(AfterSaveView::Compacted(Resume::Manual)),
    ensures
        ({
            let phase = a.step(reply, sig).phase;
            phase is Saving || phase is Finished
        }),
{
}

/// Whether a request, where one is due, is due within the turn's budgets.
pub open spec fn opens_within_budget(a: AgentView, sig: Signal) -> bool {
    a.phase is Opening ==> !sig.cancelled && a.spent.stop_between_attempts(
        sig.elapsed_secs,
        a.usage.total_tokens,
    ) is None
}

proof fn lemma_resume_opens_within_budget(a: AgentView, resume: Resume, sig: Signal)
    ensures
        opens_within_budget(a.next_attempt(sig), sig),
        opens_within_budget(a.look_at_call(sig), sig),
        opens_within_budget(a.next_call().look_at_call(sig), sig),
        opens_within_budget(a.resume(resume, sig), sig),
        opens_within_budget(a.maybe_compact(resume, sig), sig),
{
}

proof fn lemma_saved_opens_within_budget(a: AgentView, next: AfterSaveView, sig: Signal)
    ensures
        opens_within_budget(a.saved(next, sig), sig),
{
    match next {
        AfterSaveView::BeginTurn => {
            lemma_resume_opens_within_budget(
                a.emit(AgentEventView::TurnStarted),
                Resume::Retry,
                sig,
            );
        },
        AfterSaveView::Answered => {
            lemma_resume_opens_within_budget(a, Resume::Retry, sig);
        },
        AfterSaveView::Denied => {
            let ev = ended_event(a.call().id, 0, crate::agent_loop::refusal(a.call().name));
            lemma_resume_opens_within_budget(a.emit(ev), Resume::Retry, sig);
        },
        AfterSaveView::ResultRecorded { is_error, content } => {
            let name = a.call().name;
            lemma_resume_opens_within_budget(
                AgentView { spent: a.spent.with_error(name, content), ..a },
                Resume::AfterCall,
                sig,
            );
            lemma_resume_opens_within_budget(
                AgentView { spent: a.spent.with_success(), ..a },
                Resume::AfterCall,
                sig,
            );
        },
        AfterSaveView::Compacted(resume) => {
            lemma_resume_opens_within_budget(a, resume, sig);
        },
        _ => {},
    }
}

proof fn lemma_others_do_not_open(
    a: AgentView,
    e: ErrorView,
    result: Result<crate::traits::ToolOutputView, ErrorView>,
    elapsed_ms: u64,
)
    ensures
        !(a.attempt_failed(e).phase is Opening),
        !(a.fail(e).phase is Opening),
        !(a.start_call().phase is Opening),
        !(a.deny_call().phase is Opening),
        !(a.call_ended(result, elapsed_ms).phase is Opening),
{
}

proof fn lemma_compaction_does_not_open(
    a: AgentView,
    resume: Resume,
    moved: (CompactionView, CompactStepView),
    sig: Signal,
)
    ensures
        !(a.compaction_moved(resume, moved, sig).phase is Opening),
{
    if let CompactStepView::Failed(e) = moved.1 {
        lemma_others_do_not_open(AgentView { compaction: None, ..a }, e, Err(e), 0);
    }
}

/// A compaction whose announcement nobody receives ends at once: the model
/// is not asked, the history stays as it was, and the turn or the command
/// that began it ends with the error.
pub proof fn law_unheard_compaction_ends(a: AgentView, resume: Resume, sig: Signal)
    ensures
        ({
            let b = a.start_compaction(resume).step(ReplyView::Unheard, sig);
            &&& b.phase is Finished
            &&& b.result == Err::<Seq<char>, ErrorView>(
                ErrorView::ChannelClosed("channel closed"@),
            )
            &&& b.context == a.context
            &&& b.compaction is None
        }),
{
}

/// A model request is only ever made while the turn is not cancelled and
/// neither its time nor its tokens are used up.
pub proof fn law_requests_keep_the_budget(a: AgentView, reply: ReplyView, sig: Signal)
    requires
        !(a.phase is Opening),
    ensures
        opens_within_budget(a.step(reply, sig), sig),
{
    let b = AgentView { out: Seq::empty(), ..a };
    let e = ErrorView::Busy;
    match (b.phase, reply) {
        (PhaseView::Streaming, ReplyView::Event(ev)) => {
            if let ProviderEventView::ProviderError { message } = ev {
                lemma_others_do_not_open(b, ErrorView::Provider(message), Err(e), 0);
            }
        },
        (PhaseView::Streaming, ReplyView::Cancelled) => {
            lemma_others_do_not_open(b, ErrorView::Cancelled, Err(e), 0);
        },
        (PhaseView::Deciding, ReplyView::Decision(d)) => {
            lemma_others_do_not_open(b, e, Err(e), 0);
        },
        (PhaseView::Approving, ReplyView::Answer(yes)) => {
            lemma_others_do_not_open(b, e, Err(e), 0);
        },
        (PhaseView::Executing, ReplyView::Executed { result, elapsed_ms }) => {
            lemma_others_do_not_open(b, e, result, elapsed_ms);
        },
        (PhaseView::Saving(next), ReplyView::Saved(r)) => {
            lemma_saved_opens_within_budget(b.note_saved(r), next, sig);
        },
        (PhaseView::AskingSummary(resume), ReplyView::Failed(e)) => {
            if let Some(c) = b.compaction {
                lemma_compaction_does_not_open(b, resume, c.request_failed(e), sig);
            }
        },
        (PhaseView::AskingSummary(resume), ReplyView::Unheard) => {
            if let Some(c) = b.compaction {
                lemma_compaction_does_not_open(b, resume, c.unheard(), sig);
            }
        },
        (PhaseView::ReadingSummary(resume), ReplyView::Event(ev)) => {
            if let Some(c) = b.compaction {
                lemma_compaction_does_not_open(b, resume, c.event(ev), sig);
            }
        },
        (PhaseView::ReadingSummary(resume), ReplyView::End) => {
            if let Some(c) = b.compaction {
                lemma_compaction_does_not_open(b, resume, c.answer_ended(), sig);
            }
        },
        _ => {},
    }
}

// ---- the budget of tool calls ----

/// Whether the calls that were executed keep the budget, also if the
/// current one runs.
pub open spec fn within_budget(a: AgentView) -> bool {
    a.spent.cfg.max_tool_calls > 0 ==> {
        &&& a.spent.tool_calls <= a.spent.cfg.max_tool_calls
        &&& (a.phase is Deciding || a.phase is Approving) ==> a.spent.tool_calls
            < a.spent.cfg.max_tool_calls
    }
}

proof fn lemma_look_at_call_asks_within_budget(a: AgentView, sig: Signal)
    ensures
        a.look_at_call(sig).phase is Deciding ==> !a.spent.calls_used_up(),
        !(a.look_at_call(sig).phase is Approving),
{
}

proof fn lemma_resume_asks_within_budget(a: AgentView, resume: Resume, sig: Signal)
    ensures
        a.resume(resume, sig).phase is Deciding ==> !a.spent.calls_used_up(),
        !(a.resume(resume, sig).phase is Approving),
        a.maybe_compact(resume, sig).phase is Deciding ==> !a.spent.calls_used_up(),
        !(a.maybe_compact(resume, sig).phase is Approving),
{
    lemma_look_at_call_asks_within_budget(a.next_call(), sig);
}

proof fn lemma_saved_asks_within_budget(a: AgentView, next: AfterSaveView, sig: Signal)
    ensures
        a.saved(next, sig).phase is Deciding ==> !a.spent.calls_used_up(),
        !(a.saved(next, sig).phase is Approving),
{
    match next {
        AfterSaveView::Answered => {
            lemma_look_at_call_asks_within_budget(a, sig);
        },
        AfterSaveView::Denied => {
            let ev = ended_event(a.call().id, 0, crate::agent_loop::refusal(a.call().name));
            lemma_look_at_call_asks_within_budget(a.emit(ev).next_call(), sig);
        },
        AfterSaveView::ResultRecorded { is_error, content } => {
            let name = a.call().name;
            lemma_resume_asks_within_budget(
                AgentView { spent: a.spent.with_error(name, content), ..a },
                Resume::AfterCall,
                sig,
            );
            lemma_resume_asks_within_budget(
                AgentView { spent: a.spent.with_success(), ..a },
                Resume::AfterCall,
                sig,
            );
        },
        AfterSaveView::Compacted(resume) => {
            lemma_resume_asks_within_budget(a, resume, sig);
        },
        _ => {},
    }
}

/// Whether the current call is asked about.
spec fn asks(a: AgentView) -> bool {
    a.phase is Deciding || a.phase is Approving
}

proof fn lemma_attempt_failed_does_not_ask(a: AgentView, e: ErrorView)
    ensures
        !asks(a.attempt_failed(e)),
        !asks(a.fail(e)),
{
}

proof fn lemma_running_does_not_ask(
    a: AgentView,
    result: Result<crate::traits::ToolOutputView, ErrorView>,
    elapsed_ms: u64,
)
    ensures
        !asks(a.start_call()),
        !asks(a.deny_call()),
        !asks(a.call_ended(result, elapsed_ms)),
{
}

proof fn lemma_compaction_does_not_ask(
    a: AgentView,
    resume: Resume,
    moved: (CompactionView, CompactStepView),
    sig: Signal,
)
    ensures
        !asks(a.compaction_moved(resume, moved, sig)),
{
    if let CompactStepView::Failed(e) = moved.1 {
        lemma_attempt_failed_does_not_ask(AgentView { compaction: None, ..a }, e);
    }
}

proof fn lemma_answer_does_not_ask(a: AgentView, ev: ProviderEventView)
    requires
        !asks(a),
    ensures
        !asks(a.answer_event(ev)),
        !asks(a.answer_ended()),
{
    if let ProviderEventView::ProviderError { message } = ev {
        lemma_attempt_failed_does_not_ask(a, ErrorView::Provider(message));
    }
}

proof fn lemma_step_asks_within_budget(a: AgentView, reply: ReplyView, sig: Signal)
    ensures
        asks(a.step(reply, sig)) ==> (asks(a) && a.step(reply, sig).spent == a.spent) || (
        a.phase is Saving && !a.spent.calls_used_up()),
{
    let b = AgentView { out: Seq::empty(), ..a };
    match (b.phase, reply) {
        (PhaseView::Opening, ReplyView::Failed(e)) => {
            lemma_attempt_failed_does_not_ask(b, e);
        },
        (PhaseView::Streaming, ReplyView::Event(ev)) => {
            lemma_answer_does_not_ask(b, ev);
        },
        (PhaseView::Deciding, ReplyView::Decision(d)) => {
            lemma_running_does_not_ask(b, Err(ErrorView::Busy), 0);
        },
        (PhaseView::Approving, ReplyView::Answer(yes)) => {
            lemma_running_does_not_ask(b, Err(ErrorView::Busy), 0);
        },
        (PhaseView::Executing, ReplyView::Executed { result, elapsed_ms }) => {
            lemma_running_does_not_ask(b, result, elapsed_ms);
        },
        (PhaseView::Saving(next), ReplyView::Saved(r)) => {
            lemma_saved_asks_within_budget(b.note_saved(r), next, sig);
        },
        (PhaseView::AskingSummary(resume), ReplyView::Failed(e)) => {
            if let Some(c) = b.compaction {
                lemma_compaction_does_not_ask(b, resume, c.request_failed(e), sig);
            }
        },
        (PhaseView::AskingSummary(resume), ReplyView::Unheard) => {
            if let Some(c) = b.compaction {
                lemma_compaction_does_not_ask(b, resume, c.unheard(), sig);
            }
        },
        (PhaseView::ReadingSummary(resume), ReplyView::Event(ev)) => {
            if let Some(c) = b.compaction {
                lemma_compaction_does_not_ask(b, resume, c.event(ev), sig);
            }
        },
        (PhaseView::ReadingSummary(resume), ReplyView::End) => {
            if let Some(c) = b.compaction {
                lemma_compaction_does_not_ask(b, resume, c.answer_ended(), sig);
            }
        },
        _ => {},
    }
}

/// The budget of tool calls is kept, step by step: no more calls are
/// executed in a turn than it allows.
pub proof fn law_step_keeps_the_call_budget(a: AgentView, reply: ReplyView, sig: Signal)
    requires
        within_budget(a),
    ensures
        within_budget(a.step(reply, sig)),
        a.step(reply, sig).spent.cfg == a.spent.cfg,
{
    lemma_step_carries(a, reply, sig);
    lemma_step_asks_within_budget(a, reply, sig);
    let z = a.step(reply, sig);
    assert(z.spent.cfg == a.spent.cfg);
    assert(z.spent.tool_calls == if runs_call(a, reply) {
        crate::budget::one_more(a.spent.tool_calls)
    } else {
        a.spent.tool_calls
    });
}

/// A turn begins with its budget of tool calls unused.
pub proof fn law_turn_begins_within_budget(a: AgentView, input: Seq<char>, sig: Signal)
    ensures
        within_budget(a.begin(input, sig)),
        a.begin(input, sig).spent.cfg == a.budget,
        a.begin(input, sig).spent.tool_calls == 0,
{
}

} // verus!

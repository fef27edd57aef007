//! What a turn is for: the user's message reaches the model, what the model
//! streams becomes its answer, what it asks for is run where that is
//! permitted, and what came of it goes back to the model.

use vstd::prelude::*;

use crate::agent_loop::{
    AfterSaveView,
    AgentView,
    Await,
    EffectView,
    PhaseView,
    ReplyView,
    Resume,
    Signal,
};
use crate::answers::{asked, goes_on, said};
use crate::compact::{replacement, truncated, CompactStepView, CompactionView};
use crate::error::{error_text, ErrorView};
use crate::event::AgentEventView;
use crate::json::json_text;
use crate::message::{MessageView, ToolCallView, Usage};
use crate::session::{PermissionDecision, ToolEventState};
use crate::text::{trimmed, utf8_len};
use crate::traits::{ProviderEventView, ToolOutputView};
use crate::turn_laws::{reported, run, same_settings};

verus! {

// ---- the user's message ----

/// What the user writes is the last message of the history when the turn
/// begins, and nothing before it changes; the turn starts with nothing used
/// up.
pub proof fn law_input_becomes_the_last_message(a: AgentView, input: Seq<char>, sig: Signal)
    requires
        sig.cancelled || !a.context.due(),
    ensures
        ({
            let b = a.begin(input, sig);
            &&& b.context.items == a.context.items.push(MessageView::User { content: input })
            &&& b.phase == PhaseView::Saving(AfterSaveView::BeginTurn)
            &&& b.usage == Usage { input_tokens: 0, output_tokens: 0, total_tokens: 0 }
            &&& b.spent.tool_calls == 0 && b.spent.call_streak == 0 && b.spent.error_streak == 0
            &&& b.spent.cfg == a.budget
            &&& !b.overflow_retried
            &&& same_settings(a, b)
            &&& b.out.len() == 1
            &&& b.out[0] matches EffectView::Emit(AgentEventView::TokenCountUpdated { used, limit })
                && used == a.context.accounting.used() && limit == a.context.limit() as i64
        }),
{
}

/// Where the context is full the history is compacted before the user's
/// message is added, and the message is added as it is once the compaction
/// is saved.
pub proof fn law_input_survives_a_compaction(a: AgentView, input: Seq<char>, sig: Signal)
    requires
        !sig.cancelled,
        a.context.due(),
    ensures
        ({
            let b = a.begin(input, sig);
            &&& b.phase == PhaseView::AskingSummary(Resume::BeforeTurn)
            &&& b.input == input
            &&& b.context == a.context
            &&& same_settings(a, b)
            &&& b.compaction is Some
        }),
        forall|c: AgentView, r: Result<(), ErrorView>, s: Signal|
            c.phase == PhaseView::Saving(AfterSaveView::Compacted(Resume::BeforeTurn))
                ==> #[trigger] c.step(ReplyView::Saved(r), s).context.items
                == c.context.items.push(MessageView::User { content: c.input }) && c.step(
                ReplyView::Saved(r),
                s,
            ).phase == PhaseView::Saving(AfterSaveView::BeginTurn),
{
}

/// Once the user's message is saved, or could not be, the turn is announced
/// and the model is asked, unless the user cancelled or a budget is used up.
pub proof fn law_turn_asks_the_model(a: AgentView, r: Result<(), ErrorView>, sig: Signal)
    requires
        a.phase == PhaseView::Saving(AfterSaveView::BeginTurn),
        !sig.cancelled,
        a.spent.cfg.max_turn_seconds == 0 || sig.elapsed_secs < a.spent.cfg.max_turn_seconds,
        a.spent.cfg.max_turn_tokens <= 0 || a.usage.total_tokens < a.spent.cfg.max_turn_tokens,
    ensures
        ({
            let b = a.step(ReplyView::Saved(r), sig);
            &&& b.phase is Opening
            &&& b.context == a.context
            &&& b.text.len() == 0 && b.calls.len() == 0 && b.at == 0
            &&& b.out.last() == EffectView::Emit(AgentEventView::TurnStarted)
            &&& same_settings(a, b)
        }),
{
}

// ---- the streamed answer ----

/// The replies that hand the events over, one by one.
pub open spec fn as_replies(events: Seq<ProviderEventView>, sig: Signal) -> Seq<
    (ReplyView, Signal),
> {
    Seq::new(events.len(), |i: int| (ReplyView::Event(events[i]), sig))
}

/// The texts among the reported events.
pub open spec fn shown(out: Seq<EffectView>) -> Seq<char>
    decreases out.len(),
{
    if out.len() == 0 {
        Seq::empty()
    } else {
        match out.last() {
            EffectView::Emit(AgentEventView::MessageDelta { delta }) => shown(out.drop_last())
                + delta,
            _ => shown(out.drop_last()),
        }
    }
}

/// The reasoning among the reported events.
pub open spec fn shown_reasoning(out: Seq<EffectView>) -> Seq<char>
    decreases out.len(),
{
    if out.len() == 0 {
        Seq::empty()
    } else {
        match out.last() {
            EffectView::Emit(AgentEventView::ReasoningDelta { delta }) => shown_reasoning(
                out.drop_last(),
            ) + delta,
            _ => shown_reasoning(out.drop_last()),
        }
    }
}

proof fn lemma_no_output()
    ensures
        shown(Seq::empty()) == Seq::<char>::empty(),
        shown_reasoning(Seq::empty()) == Seq::<char>::empty(),
{
}

proof fn lemma_shown_push(out: Seq<EffectView>, e: EffectView)
    ensures
        shown(out.push(e)) == match e {
            EffectView::Emit(AgentEventView::MessageDelta { delta }) => shown(out) + delta,
            _ => shown(out),
        },
        shown_reasoning(out.push(e)) == match e {
            EffectView::Emit(AgentEventView::ReasoningDelta { delta }) => shown_reasoning(out)
                + delta,
            _ => shown_reasoning(out),
        },
{
    assert(out.push(e).drop_last() =~= out);
}

proof fn lemma_shown_concat(a: Seq<EffectView>, b: Seq<EffectView>)
    ensures
        shown(a + b) == shown(a) + shown(b),
        shown_reasoning(a + b) == shown_reasoning(a) + shown_reasoning(b),
    decreases b.len(),
{
    if b.len() == 0 {
        assert(a + b =~= a);
        assert(shown(a) + shown(b) =~= shown(a));
        assert(shown_reasoning(a) + shown_reasoning(b) =~= shown_reasoning(a));
    } else {
        lemma_shown_concat(a, b.drop_last());
        assert((a + b).drop_last() =~= a + b.drop_last());
        lemma_shown_push(a + b.drop_last(), b.last());
        lemma_shown_push(b.drop_last(), b.last());
        assert(b.drop_last().push(b.last()) =~= b);
        assert((a + b.drop_last()).push(b.last()) =~= a + b);
        match b.last() {
            EffectView::Emit(AgentEventView::MessageDelta { delta }) => {
                assert(shown(a) + shown(b.drop_last()) + delta =~= shown(a) + (shown(
                    b.drop_last(),
                ) + delta));
            },
            EffectView::Emit(AgentEventView::ReasoningDelta { delta }) => {
                assert(shown_reasoning(a) + shown_reasoning(b.drop_last()) + delta
                    =~= shown_reasoning(a) + (shown_reasoning(b.drop_last()) + delta));
            },
            _ => {},
        }
    }
}

#[verifier::rlimit(40)]
proof fn lemma_streaming(a: AgentView, events: Seq<ProviderEventView>, sig: Signal)
    requires
        a.phase is Streaming,
        goes_on(events),
    ensures
        ({
            let b = run(a, as_replies(events, sig));
            &&& b.phase is Streaming
            &&& b.text == a.text + said(events)
            &&& b.calls == a.calls + asked(events)
            &&& b.context.items == a.context.items
            &&& b.at == a.at
            &&& b.spent == a.spent
            &&& b.compaction == a.compaction
            &&& b.overflow_retried == a.overflow_retried
            &&& b.persisted_len == a.persisted_len && b.history_replaced == a.history_replaced
            &&& same_settings(a, b)
        }),
        shown(reported(a, as_replies(events, sig))) == shown(a.out) + said(events),
        shown_reasoning(reported(a, as_replies(events, sig))) == shown_reasoning(a.out)
            + crate::answers::reasoned(events),
    decreases events.len(),
{
    let replies = as_replies(events, sig);
    if events.len() == 0 {
        assert(a.text + said(events) =~= a.text);
        assert(a.calls + asked(events) =~= a.calls);
        assert(shown(a.out) + said(events) =~= shown(a.out));
        assert(shown_reasoning(a.out) + crate::answers::reasoned(events) =~= shown_reasoning(
            a.out,
        ));
    } else {
        let head = events.drop_last();
        let ev = events.last();
        assert forall|i: int| 0 <= i < head.len() implies !(#[trigger] head[i] is Done) && !(
        head[i] is ProviderError) by {
            assert(head[i] == events[i]);
        }
        lemma_streaming(a, head, sig);
        assert(replies.drop_last() =~= as_replies(head, sig));
        assert(events[events.len() - 1] == ev);
        let b = run(a, as_replies(head, sig));
        let c = b.step(ReplyView::Event(ev), sig);
        assert(run(a, replies) == c);
        let none = Seq::<EffectView>::empty();
        lemma_no_output();
        let before = reported(a, as_replies(head, sig));
        lemma_shown_concat(before, c.out);
        match ev {
            ProviderEventView::MessageDelta { delta } => {
                lemma_shown_push(none, EffectView::Emit(AgentEventView::MessageDelta { delta }));
                assert(a.text + said(head) + delta =~= a.text + (said(head) + delta));
                assert(shown(none) + delta =~= delta);
                assert(shown(a.out) + said(head) + delta =~= shown(a.out) + (said(head) + delta));
                assert(shown_reasoning(before) + Seq::<char>::empty() =~= shown_reasoning(before));
            },
            ProviderEventView::ReasoningDelta { delta } => {
                lemma_shown_push(none, EffectView::Emit(AgentEventView::ReasoningDelta { delta }));
                assert(shown_reasoning(none) + delta =~= delta);
                let r = crate::answers::reasoned(head);
                assert(shown_reasoning(a.out) + r + delta =~= shown_reasoning(a.out) + (r
                    + delta));
                assert(shown(before) + Seq::<char>::empty() =~= shown(before));
            },
            ProviderEventView::ToolCalls { calls } => {
                assert(a.calls + asked(head) + calls =~= a.calls + (asked(head) + calls));
                assert(shown_reasoning(before) + Seq::<char>::empty() =~= shown_reasoning(before));
                assert(shown(before) + Seq::<char>::empty() =~= shown(before));
            },
            ProviderEventView::Usage { usage } => {
                if usage.total_tokens != 0 {
                    lemma_shown_push(none, c.out[0]);
                    assert(c.out =~= none.push(c.out[0]));
                }
                assert(shown_reasoning(before) + Seq::<char>::empty() =~= shown_reasoning(before));
                assert(shown(before) + Seq::<char>::empty() =~= shown(before));
            },
            _ => {
                assert(shown_reasoning(before) + Seq::<char>::empty() =~= shown_reasoning(before));
                assert(shown(before) + Seq::<char>::empty() =~= shown(before));
            },
        }
    }
}

/// What the model streams becomes its answer: whether the answer ends by an
/// event or because the stream is over, a message of the assistant is
/// recorded that holds all the text that was streamed, in order, and all
/// the calls that were asked for, in order. An answer without either is not
/// recorded. What was streamed is shown as it arrives.
pub proof fn law_streamed_answer_is_recorded(
    a: AgentView,
    events: Seq<ProviderEventView>,
    sig: Signal,
)
    requires
        a.phase is Opening,
        a.text.len() == 0,
        a.calls.len() == 0,
        a.out.len() == 0,
        goes_on(events),
    ensures
        ({
            let opened = a.step(ReplyView::Opened, sig);
            let before = run(opened, as_replies(events, sig));
            let after = before.step(ReplyView::Event(ProviderEventView::Done), sig);
            &&& before.awaited() == Await::NextEvent
            &&& after.context.items == if said(events).len() == 0 && asked(events).len() == 0 {
                a.context.items
            } else {
                a.context.items.push(
                    MessageView::Assistant {
                        content: said(events),
                        reasoning: None,
                        tool_calls: asked(events),
                    },
                )
            }
            &&& after.text == said(events)
            &&& after.calls == asked(events)
            &&& after.phase == if said(events).len() == 0 && asked(events).len() == 0 {
                PhaseView::Saving(AfterSaveView::Final)
            } else {
                PhaseView::Saving(AfterSaveView::Answered)
            }
            &&& before.step(ReplyView::End, sig) == after
            &&& shown(reported(opened, as_replies(events, sig))) == said(events)
            &&& shown_reasoning(reported(opened, as_replies(events, sig)))
                == crate::answers::reasoned(events)
            &&& same_settings(a, after)
        }),
{
    let opened = a.step(ReplyView::Opened, sig);
    lemma_streaming(opened, events, sig);
    assert(a.text + said(events) =~= said(events));
    assert(a.calls + asked(events) =~= asked(events));
    assert(shown(opened.out) + said(events) =~= said(events));
    assert(shown_reasoning(opened.out) + crate::answers::reasoned(events)
        =~= crate::answers::reasoned(events));
}

/// Usage adds up over a turn, and the context goes by what the model
/// reported last; a report without tokens counts for nothing.
pub proof fn law_usage_adds_up(a: AgentView, usage: Usage, sig: Signal)
    requires
        a.phase is Streaming,
    ensures
        ({
            let b = a.step(ReplyView::Event(ProviderEventView::Usage { usage }), sig);
            &&& usage.total_tokens == 0 ==> b.usage == a.usage && b.context == a.context
                && b.out.len() == 0
            &&& usage.total_tokens != 0 ==> {
                &&& i64::MIN <= a.usage.total_tokens + usage.total_tokens <= i64::MAX
                    ==> b.usage.total_tokens == a.usage.total_tokens + usage.total_tokens
                &&& i64::MIN <= a.usage.input_tokens + usage.input_tokens <= i64::MAX
                    ==> b.usage.input_tokens == a.usage.input_tokens + usage.input_tokens
                &&& i64::MIN <= a.usage.output_tokens + usage.output_tokens <= i64::MAX
                    ==> b.usage.output_tokens == a.usage.output_tokens + usage.output_tokens
                &&& b.context.accounting.used() == usage.total_tokens
                &&& b.context.items == a.context.items
                &&& b.out.len() == 1
                &&& b.out[0] matches EffectView::Emit(AgentEventView::TokenCountUpdated {
                    used,
                    limit,
                }) && used == usage.total_tokens && limit == a.context.limit() as i64
            }
            &&& b.phase is Streaming && b.text == a.text && b.calls == a.calls
        }),
{
}

/// A provider's error ends the attempt with that error, and the answer that
/// was under way is not recorded.
pub proof fn law_provider_error_is_the_result(a: AgentView, message: Seq<char>, sig: Signal)
    requires
        a.phase is Streaming,
    ensures
        ({
            let b = a.step(ReplyView::Event(ProviderEventView::ProviderError { message }), sig);
            &&& b.phase is Finished
            &&& b.result == Err::<Seq<char>, ErrorView>(ErrorView::Provider(message))
            &&& b.context == a.context
        }),
{
}

/// A request that fails ends the turn with its error; only one that does
/// not fit leads to a compaction, once.
pub proof fn law_failed_request_is_the_result(a: AgentView, e: ErrorView, sig: Signal)
    requires
        a.phase is Opening,
    ensures
        ({
            let b = a.step(ReplyView::Failed(e), sig);
            &&& b.context == a.context
            &&& e is ContextWindowExceeded && !a.overflow_retried ==> {
                &&& b.phase == PhaseView::AskingSummary(Resume::Retry)
                &&& b.overflow_retried
                &&& b.compaction == Some(CompactionView::of(a.context))
            }
            &&& !(e is ContextWindowExceeded) || a.overflow_retried ==> {
                &&& b.phase is Finished
                &&& b.result == Err::<Seq<char>, ErrorView>(e)
            }
        }),
{
}

// ---- calls ----

/// An answer without calls ends the turn with its text.
pub proof fn law_answer_without_calls_is_the_last(
    a: AgentView,
    r: Result<(), ErrorView>,
    sig: Signal,
)
    requires
        a.phase == PhaseView::Saving(AfterSaveView::Answered),
        a.calls.len() == 0,
    ensures
        ({
            let b = a.step(ReplyView::Saved(r), sig);
            &&& b.phase == PhaseView::Saving(AfterSaveView::Final)
            &&& b.text == a.text
            &&& b.context == a.context
        }),
{
}

/// A turn that succeeds gives the text of the last answer, and reports its
/// end with the usage of the turn.
pub proof fn law_last_answer_is_the_result(a: AgentView, r: Result<(), ErrorView>, sig: Signal)
    requires
        a.phase == PhaseView::Saving(AfterSaveView::Final),
    ensures
        ({
            let b = a.step(ReplyView::Saved(r), sig);
            &&& b.phase is Finished
            &&& b.result == Ok::<Seq<char>, ErrorView>(a.text)
            &&& b.out.last() == EffectView::Emit(AgentEventView::TurnCompleted { usage: a.usage })
            &&& b.context == a.context
        }),
{
}

/// Whether the current call is a call of a tool that the agent has.
pub open spec fn calls_a_tool(a: AgentView) -> bool {
    exists|i: int| 0 <= i < a.tools.len() && (#[trigger] a.tools[i]).name == a.call().name
}

/// Whether the reply permits the current call.
pub open spec fn permits(a: AgentView, reply: ReplyView) -> bool {
    ||| a.phase is Deciding && reply == ReplyView::Decision(PermissionDecision::Allow)
    ||| a.phase is Approving && reply == ReplyView::Answer(true)
}

/// Whether the reply refuses the current call: by the policy, by the user,
/// or because nobody can be asked.
pub open spec fn refuses(a: AgentView, reply: ReplyView) -> bool {
    ||| a.phase is Deciding && reply == ReplyView::Decision(PermissionDecision::Deny)
    ||| a.phase is Deciding && reply == ReplyView::Decision(PermissionDecision::Ask)
        && !a.approvals_enabled
    ||| a.phase is Approving && reply == ReplyView::Answer(false)
}

/// A call that is permitted runs: the very call that the policy or the user
/// was asked about. Its start is reported and, where there is a session,
/// logged before it runs; it counts as executed.
pub proof fn law_permitted_call_runs(a: AgentView, reply: ReplyView, sig: Signal)
    requires
        a.at < a.calls.len(),
        permits(a, reply),
        calls_a_tool(a),
    ensures
        ({
            let b = a.step(reply, sig);
            let c = a.calls[a.at as int];
            &&& b.phase is Executing
            &&& b.at == a.at && b.calls == a.calls && b.context == a.context
            &&& b.call() == c
            &&& b.out[0] == EffectView::Emit(
                AgentEventView::ToolCallStarted {
                    call_id: c.id,
                    name: c.name,
                    command: json_text(c.arguments),
                },
            )
            &&& a.session_id is Some ==> b.out.len() == 2 && b.out[1] == EffectView::LogStarted(c)
            &&& a.session_id is None ==> b.out.len() == 1
            &&& a.spent.tool_calls < u32::MAX ==> b.spent.tool_calls == a.spent.tool_calls + 1
        }),
{
    assert(a.knows_tool(a.call().name)) by {
        let i = choose|i: int|
            0 <= i < a.tools.len() && (#[trigger] a.tools[i]).name == a.call().name;
        assert(a.tools[i].name == a.call().name);
    }
}

/// A call of a tool that there is not is answered with an error, and
/// nothing runs.
pub proof fn law_unknown_tool_is_an_error(a: AgentView, reply: ReplyView, sig: Signal)
    requires
        a.at < a.calls.len(),
        permits(a, reply),
        !calls_a_tool(a),
    ensures
        ({
            let b = a.step(reply, sig);
            let note = "tool error: "@ + error_text(
                ErrorView::Tool("unknown tool: "@ + a.call().name),
            );
            &&& !(b.phase is Executing)
            &&& b.context.items.len() == a.context.items.len() + 1
            &&& b.context.items.drop_last() == a.context.items
            &&& b.context.items.last() matches MessageView::ToolResult {
                tool_call_id,
                content,
                is_error,
            } && tool_call_id == a.call().id && is_error && (utf8_len(note)
                <= a.context.cfg.tool_output_max_bytes ==> content == note)
        }),
{
    assert(!a.knows_tool(a.call().name)) by {
        if a.knows_tool(a.call().name) {
            let i = choose|i: int|
                0 <= i < a.tools.len() && (#[trigger] a.tools[i]).name == a.call().name;
            assert(a.tools[i].name == a.call().name);
        }
    }
    let b = a.step(reply, sig);
    assert(b.context.items.drop_last() =~= a.context.items);
}

/// Nothing runs without permission: a step leads to the execution of a call
/// only by the policy's or the user's yes to that call.
pub proof fn law_nothing_runs_without_permission(a: AgentView, reply: ReplyView, sig: Signal)
    ensures
        a.step(reply, sig).phase is Executing && !(a.phase is Executing) ==> permits(a, reply)
            && a.at < a.calls.len() && a.step(reply, sig).at == a.at && a.step(reply, sig).calls
            == a.calls,
{
    lemma_step_executes(a, reply, sig);
}

proof fn lemma_going_on_runs_nothing(a: AgentView, resume: Resume, sig: Signal)
    ensures
        !(a.next_attempt(sig).phase is Executing),
        !(a.look_at_call(sig).phase is Executing),
        !(a.resume(resume, sig).phase is Executing),
        !(a.maybe_compact(resume, sig).phase is Executing),
{
}

#[verifier::rlimit(40)]
proof fn lemma_saving_runs_nothing(a: AgentView, next: AfterSaveView, sig: Signal)
    ensures
        !(a.saved(next, sig).phase is Executing),
{
    let e = AgentEventView::TurnStarted;
    lemma_going_on_runs_nothing(a, Resume::AfterCall, sig);
    lemma_going_on_runs_nothing(a.emit(e), Resume::AfterCall, sig);
    match next {
        AfterSaveView::Denied => {
            let ended = crate::agent_loop::ended_event(
                a.call().id,
                0,
                crate::agent_loop::refusal(a.call().name),
            );
            lemma_going_on_runs_nothing(a.emit(ended).next_call(), Resume::AfterCall, sig);
        },
        AfterSaveView::ResultRecorded { is_error, content } => {
            let failed = AgentView { spent: a.spent.with_error(a.call().name, content), ..a };
            let done = AgentView { spent: a.spent.with_success(), ..a };
            lemma_going_on_runs_nothing(failed, Resume::AfterCall, sig);
            lemma_going_on_runs_nothing(done, Resume::AfterCall, sig);
        },
        AfterSaveView::Compacted(resume) => {
            lemma_going_on_runs_nothing(a, resume, sig);
        },
        _ => {},
    }
}

proof fn lemma_failing_runs_nothing(
    a: AgentView,
    e: ErrorView,
    resume: Resume,
    moved: (CompactionView, CompactStepView),
    sig: Signal,
)
    ensures
        !(a.attempt_failed(e).phase is Executing),
        !(a.compaction_moved(resume, moved, sig).phase is Executing),
{
}

proof fn lemma_ending_runs_nothing(
    a: AgentView,
    result: Result<ToolOutputView, ErrorView>,
    elapsed_ms: u64,
    ev: ProviderEventView,
)
    ensures
        !(a.call_ended(result, elapsed_ms).phase is Executing),
        !(a.deny_call().phase is Executing),
        !(a.answer_ended().phase is Executing),
        !(a.phase is Executing) ==> !(a.answer_event(ev).phase is Executing),
        a.start_call().at == a.at && a.start_call().calls == a.calls,
{
}

#[verifier::rlimit(40)]
proof fn lemma_step_executes(a: AgentView, reply: ReplyView, sig: Signal)
    ensures
        a.step(reply, sig).phase is Executing && !(a.phase is Executing) ==> permits(a, reply)
            && a.at < a.calls.len() && a.step(reply, sig).at == a.at && a.step(reply, sig).calls
            == a.calls,
{
    let b = AgentView { out: Seq::empty(), ..a };
    let e = ErrorView::Busy;
    lemma_ending_runs_nothing(b, Err(e), 0, ProviderEventView::Done);
    match (b.phase, reply) {
        (PhaseView::Opening, ReplyView::Failed(e)) => {
            lemma_failing_runs_nothing(
                b,
                e,
                Resume::Retry,
                (CompactionView::of(b.context), CompactStepView::Ask),
                sig,
            );
        },
        (PhaseView::Streaming, ReplyView::Event(ev)) => {
            lemma_ending_runs_nothing(b, Err(e), 0, ev);
        },
        (PhaseView::Saving(next), ReplyView::Saved(r)) => {
            lemma_saving_runs_nothing(b.note_saved(r), next, sig);
        },
        (PhaseView::AskingSummary(resume), ReplyView::Failed(e)) => {
            if let Some(c) = b.compaction {
                lemma_failing_runs_nothing(b, e, resume, c.request_failed(e), sig);
            }
        },
        (PhaseView::AskingSummary(resume), ReplyView::Unheard) => {
            if let Some(c) = b.compaction {
                lemma_failing_runs_nothing(b, e, resume, c.unheard(), sig);
            }
        },
        (PhaseView::ReadingSummary(resume), ReplyView::Event(ev)) => {
            if let Some(c) = b.compaction {
                lemma_failing_runs_nothing(b, e, resume, c.event(ev), sig);
            }
        },
        (PhaseView::ReadingSummary(resume), ReplyView::End) => {
            if let Some(c) = b.compaction {
                lemma_failing_runs_nothing(b, e, resume, c.answer_ended(), sig);
            }
        },
        _ => {},
    }
}

/// A call that is refused does not run: it is answered with the refusal as
/// an error, which names the tool, and the answer goes to the model.
pub proof fn law_refused_call_is_answered(a: AgentView, reply: ReplyView, sig: Signal)
    requires
        a.at < a.calls.len(),
        refuses(a, reply),
    ensures
        ({
            let b = a.step(reply, sig);
            let c = a.calls[a.at as int];
            let note = "Permission denied for tool "@ + c.name;
            &&& b.phase == PhaseView::Saving(AfterSaveView::Denied)
            &&& b.context.items == a.context.items.push(
                MessageView::ToolResult { tool_call_id: c.id, content: note, is_error: true },
            )
            &&& b.spent.tool_calls == a.spent.tool_calls
            &&& b.at == a.at && b.calls == a.calls
            &&& a.session_id is Some ==> b.out.last() == (EffectView::LogFinished {
                call_id: c.id,
                state: ToolEventState::Failed,
                output: note,
            })
            &&& forall|i: int|
                0 <= i < b.out.len() ==> !(#[trigger] b.out[i] is LogStarted)
        }),
{
}

/// Where the policy does not decide and somebody can be asked, the user is
/// asked about that very call, and nothing else happens.
pub proof fn law_user_is_asked(a: AgentView, sig: Signal)
    requires
        a.phase is Deciding,
        a.at < a.calls.len(),
        a.approvals_enabled,
    ensures
        ({
            let b = a.step(ReplyView::Decision(PermissionDecision::Ask), sig);
            let c = a.calls[a.at as int];
            &&& b.phase is Approving
            &&& b.out.len() == 1
            &&& b.out[0] == EffectView::Emit(
                AgentEventView::ApprovalRequested {
                    call_id: c.id,
                    tool: c.name,
                    command: json_text(c.arguments),
                },
            )
            &&& b.context == a.context && b.at == a.at && b.calls == a.calls && b.spent == a.spent
        }),
{
}

/// What a tool gives goes back to the model as the result of its call: the
/// whole of it where it fits, and else cut to the configured size. The log
/// and the user get all of it.
pub proof fn law_output_goes_back_to_the_model(
    a: AgentView,
    o: ToolOutputView,
    elapsed_ms: u64,
    sig: Signal,
)
    requires
        a.phase is Executing,
        a.at < a.calls.len(),
    ensures
        ({
            let b = a.step(ReplyView::Executed { result: Ok(o), elapsed_ms }, sig);
            let id = a.calls[a.at as int].id;
            let most = a.context.cfg.tool_output_max_bytes;
            let kept = if utf8_len(o.content) <= most {
                o.content
            } else {
                truncated(o.content, most as nat)
            };
            &&& b.context.items == a.context.items.push(
                MessageView::ToolResult { tool_call_id: id, content: kept, is_error: false },
            )
            &&& b.phase == PhaseView::Saving(
                AfterSaveView::ResultRecorded { is_error: false, content: kept },
            )
            &&& b.out.last() == EffectView::Emit(
                AgentEventView::ToolCallCompleted {
                    call_id: id,
                    exit_code: o.exit_code,
                    timed_out: o.timed_out,
                    duration_ms: o.duration_ms,
                    output: o.content,
                },
            )
            &&& a.session_id is Some ==> b.out.len() == 2 && b.out[0] == (EffectView::LogFinished {
                call_id: id,
                state: ToolEventState::Completed,
                output: o.content,
            })
            &&& b.at == a.at && b.calls == a.calls
        }),
{
}

/// A tool that fails is answered too: the model sees the error as the
/// result of the call, marked as an error, and the log says that it failed.
pub proof fn law_failure_goes_back_to_the_model(
    a: AgentView,
    e: ErrorView,
    elapsed_ms: u64,
    sig: Signal,
)
    requires
        a.phase is Executing,
        a.at < a.calls.len(),
    ensures
        ({
            let b = a.step(ReplyView::Executed { result: Err(e), elapsed_ms }, sig);
            let id = a.calls[a.at as int].id;
            let note = if e is Cancelled {
                "cancelled by user"@
            } else {
                "tool error: "@ + error_text(e)
            };
            let most = a.context.cfg.tool_output_max_bytes;
            let kept = if utf8_len(note) <= most {
                note
            } else {
                truncated(note, most as nat)
            };
            &&& b.context.items == a.context.items.push(
                MessageView::ToolResult { tool_call_id: id, content: kept, is_error: true },
            )
            &&& b.phase == PhaseView::Saving(
                AfterSaveView::ResultRecorded { is_error: true, content: kept },
            )
            &&& b.out.last() == EffectView::Emit(
                AgentEventView::ToolCallCompleted {
                    call_id: id,
                    exit_code: None,
                    timed_out: false,
                    duration_ms: elapsed_ms,
                    output: note,
                },
            )
            &&& a.session_id is Some ==> b.out.len() == 2 && b.out[0] == (EffectView::LogFinished {
                call_id: id,
                state: ToolEventState::Failed,
                output: note,
            })
            &&& b.at == a.at && b.calls == a.calls
        }),
{
}

/// Whether the turn may go on: the user has not cancelled and no budget of
/// the turn is used up.
pub open spec fn may_go_on(a: AgentView, sig: Signal) -> bool {
    &&& !sig.cancelled
    &&& a.spent.cfg.max_turn_seconds == 0 || sig.elapsed_secs < a.spent.cfg.max_turn_seconds
    &&& a.spent.cfg.max_turn_tokens <= 0 || a.usage.total_tokens < a.spent.cfg.max_turn_tokens
}

/// Whether the messages are those of before and then, for each call from the
/// position on, in order, a result that is an error and says why it did not
/// run.
pub open spec fn answers_the_rest(
    items: Seq<MessageView>,
    before: Seq<MessageView>,
    calls: Seq<ToolCallView>,
    from: nat,
    note: Seq<char>,
) -> bool {
    let n = before.len();
    &&& items.len() == n + calls.len() - from
    &&& items.take(n as int) == before
    &&& forall|i: int|
        from <= i < calls.len() ==> items[n + i - from] == (MessageView::ToolResult {
            tool_call_id: (#[trigger] calls[i]).id,
            content: note,
            is_error: true,
        })
}

/// Whether `b` is where the turn of `a` goes on at the call `at`: after the
/// last call the model is asked again, unless the turn must stop; a call
/// that may run is put before the policy; and where the user cancelled or
/// the call must not run, it and the calls behind it are answered with the
/// reason, which the turn then ends with.
#[verifier::opaque]
pub open spec fn goes_on_at(a: AgentView, at: nat, b: AgentView, sig: Signal) -> bool {
    if at >= a.calls.len() {
        &&& may_go_on(a, sig) ==> b.phase is Opening && b.calls.len() == 0 && b.text.len() == 0
            && b.at == 0 && b.context == a.context
        &&& sig.cancelled ==> b.phase is Finished && b.result == Err::<Seq<char>, ErrorView>(
            ErrorView::Cancelled,
        )
        &&& !sig.cancelled && !may_go_on(a, sig) ==> b.phase is Finished && (b.result matches Err(
            e,
        ) && e is BudgetExceeded)
    } else {
        let c = a.calls[at as int];
        let args = json_text(c.arguments);
        if sig.cancelled {
            &&& b.phase == PhaseView::Saving(AfterSaveView::Stop(ErrorView::Cancelled))
            &&& answers_the_rest(
                b.context.items,
                a.context.items,
                a.calls,
                at,
                "cancelled by user"@,
            )
        } else {
            match a.spent.stop_before_call(c.name, args) {
                Some(reason) => {
                    &&& b.phase == PhaseView::Saving(
                        AfterSaveView::Stop(ErrorView::BudgetExceeded(reason)),
                    )
                    &&& answers_the_rest(
                        b.context.items,
                        a.context.items,
                        a.calls,
                        at,
                        "not executed: "@ + reason,
                    )
                },
                None => {
                    &&& b.phase is Deciding
                    &&& b.at == at
                    &&& b.calls == a.calls
                    &&& b.context == a.context
                    &&& b.spent == a.spent.with_call(c.name, args)
                },
            }
        }
    }
}

proof fn lemma_goes_on(a: AgentView, sig: Signal)
    ensures
        goes_on_at(a, a.at, a.look_at_call(sig), sig),
{
    reveal(goes_on_at);
    if a.at < a.calls.len() {
        let c = a.call();
        let args = json_text(c.arguments);
        law_calls_that_do_not_run_are_answered(a, a.at, "cancelled by user"@);
        if let Some(reason) = a.spent.stop_before_call(c.name, args) {
            let counted = AgentView { spent: a.spent.with_call(c.name, args), ..a };
            law_calls_that_do_not_run_are_answered(counted, a.at, "not executed: "@ + reason);
        }
    }
}

proof fn lemma_goes_on_same(a: AgentView, c: AgentView, at: nat, b: AgentView, sig: Signal)
    requires
        goes_on_at(a, at, b, sig),
        a.calls == c.calls,
        a.context == c.context,
        a.usage == c.usage,
        a.spent == c.spent,
    ensures
        goes_on_at(c, at, b, sig),
{
    reveal(goes_on_at);
}

proof fn lemma_step_saved(
    a: AgentView,
    next: AfterSaveView,
    r: Result<(), ErrorView>,
    sig: Signal,
) -> (b: AgentView)
    requires
        a.phase == PhaseView::Saving(next),
        next is Denied || next is ResultRecorded ==> a.at < a.calls.len(),
        next != AfterSaveView::Compacted(Resume::Manual),
    ensures
        a.step(ReplyView::Saved(r), sig) == b.saved(next, sig),
        b.calls == a.calls,
        b.at == a.at,
        b.context == a.context,
        b.usage == a.usage,
        b.spent == a.spent,
        b.phase == a.phase,
        b.input == a.input,
{
    AgentView { out: Seq::empty(), ..a }.note_saved(r)
}

/// An answer with calls goes on with the first of them.
pub proof fn law_answer_leads_to_its_calls(a: AgentView, r: Result<(), ErrorView>, sig: Signal)
    requires
        a.phase == PhaseView::Saving(AfterSaveView::Answered),
        a.calls.len() > 0,
    ensures
        goes_on_at(a, a.at, a.step(ReplyView::Saved(r), sig), sig),
{
    let b = lemma_step_saved(a, AfterSaveView::Answered, r, sig);
    assert(b.saved(AfterSaveView::Answered, sig) == b.look_at_call(sig));
    lemma_goes_on(b, sig);
    lemma_goes_on_same(b, a, a.at, b.look_at_call(sig), sig);
}

/// After a call that was refused the turn goes on with the next call of the
/// answer, or with the next request, which the refusal is part of.
pub proof fn law_turn_goes_on_after_a_refusal(a: AgentView, r: Result<(), ErrorView>, sig: Signal)
    requires
        a.phase == PhaseView::Saving(AfterSaveView::Denied),
        a.at < a.calls.len(),
    ensures
        goes_on_at(a, a.at + 1, a.step(ReplyView::Saved(r), sig), sig),
{
    let b = lemma_step_saved(a, AfterSaveView::Denied, r, sig);
    let ended = crate::agent_loop::ended_event(
        a.call().id,
        0,
        crate::agent_loop::refusal(a.call().name),
    );
    let c = b.emit(ended).next_call();
    assert(b.saved(AfterSaveView::Denied, sig) == c.look_at_call(sig));
    lemma_goes_on(c, sig);
    lemma_goes_on_same(c, a, a.at + 1, c.look_at_call(sig), sig);
}

/// After a call that succeeded the turn goes on with the next call of the
/// answer, in order, and after the last one with the next request, which
/// the results are part of. Where the context is full it is compacted first.
pub proof fn law_turn_goes_on_after_a_call(
    a: AgentView,
    content: Seq<char>,
    r: Result<(), ErrorView>,
    sig: Signal,
)
    requires
        a.phase == PhaseView::Saving(AfterSaveView::ResultRecorded { is_error: false, content }),
        a.at < a.calls.len(),
    ensures
        ({
            let b = a.step(ReplyView::Saved(r), sig);
            &&& !sig.cancelled && a.context.due() ==> b.phase == PhaseView::AskingSummary(
                Resume::AfterCall,
            ) && b.compaction == Some(CompactionView::of(a.context)) && b.at == a.at && b.calls
                == a.calls
            &&& sig.cancelled || !a.context.due() ==> goes_on_at(
                AgentView { spent: a.spent.with_success(), ..a },
                a.at + 1,
                b,
                sig,
            )
        }),
{
    let next = AfterSaveView::ResultRecorded { is_error: false, content };
    let b = lemma_step_saved(a, next, r, sig);
    let done = AgentView { spent: b.spent.with_success(), ..b };
    assert(b.saved(next, sig) == done.maybe_compact(Resume::AfterCall, sig));
    let c = done.next_call();
    if sig.cancelled || !a.context.due() {
        assert(b.saved(next, sig) == c.look_at_call(sig));
        lemma_goes_on(c, sig);
        lemma_goes_on_same(
            c,
            AgentView { spent: a.spent.with_success(), ..a },
            a.at + 1,
            c.look_at_call(sig),
            sig,
        );
    } else {
        assert(b.saved(next, sig) == done.start_compaction(Resume::AfterCall));
    }
}

/// After a call that failed the turn goes on as after any other, so that the
/// model can do better, unless the same failure repeated itself too often:
/// the rest of the calls is then answered with that, and the turn ends.
#[verifier::rlimit(40)]
pub proof fn law_turn_goes_on_after_a_failure(
    a: AgentView,
    content: Seq<char>,
    r: Result<(), ErrorView>,
    sig: Signal,
)
    requires
        a.phase == PhaseView::Saving(AfterSaveView::ResultRecorded { is_error: true, content }),
        a.at < a.calls.len(),
    ensures
        ({
            let b = a.step(ReplyView::Saved(r), sig);
            let name = a.calls[a.at as int].name;
            match a.spent.stop_after_error(name, content) {
                Some(reason) => {
                    &&& b.phase == PhaseView::Saving(
                        AfterSaveView::Stop(ErrorView::BudgetExceeded(reason)),
                    )
                    &&& answers_the_rest(
                        b.context.items,
                        a.context.items,
                        a.calls,
                        a.at + 1,
                        "not executed: "@ + reason,
                    )
                },
                None => {
                    &&& !sig.cancelled && a.context.due() ==> b.phase == PhaseView::AskingSummary(
                        Resume::AfterCall,
                    ) && b.compaction == Some(CompactionView::of(a.context))
                    &&& sig.cancelled || !a.context.due() ==> goes_on_at(
                        AgentView { spent: a.spent.with_error(name, content), ..a },
                        a.at + 1,
                        b,
                        sig,
                    )
                },
            }
        }),
{
    let next = AfterSaveView::ResultRecorded { is_error: true, content };
    let b = lemma_step_saved(a, next, r, sig);
    let name = a.calls[a.at as int].name;
    let counted = AgentView { spent: b.spent.with_error(name, content), ..b };
    match a.spent.stop_after_error(name, content) {
        Some(reason) => {
            let note = "not executed: "@ + reason;
            let s = counted.skip_calls(a.at + 1, note);
            assert(b.saved(next, sig) == s.save(
                AfterSaveView::Stop(ErrorView::BudgetExceeded(reason)),
            ));
            law_calls_that_do_not_run_are_answered(counted, a.at + 1, note);
        },
        None => {
            assert(b.saved(next, sig) == counted.maybe_compact(Resume::AfterCall, sig));
            let c = counted.next_call();
            if sig.cancelled || !a.context.due() {
                assert(b.saved(next, sig) == c.look_at_call(sig));
                lemma_goes_on(c, sig);
                lemma_goes_on_same(
                    c,
                    AgentView { spent: a.spent.with_error(name, content), ..a },
                    a.at + 1,
                    c.look_at_call(sig),
                    sig,
                );
            } else {
                assert(b.saved(next, sig) == counted.start_compaction(Resume::AfterCall));
            }
        },
    }
}

/// Calls that will not run are answered all the same, in order and as errors
/// that say why.
pub proof fn law_calls_that_do_not_run_are_answered(a: AgentView, from: nat, note: Seq<char>)
    requires
        from <= a.calls.len(),
    ensures
        answers_the_rest(
            a.skip_calls(from, note).context.items,
            a.context.items,
            a.calls,
            from,
            note,
        ),
    decreases a.calls.len() - from,
{
    let n = a.context.items.len();
    let b = a.skip_calls(from, note);
    if from < a.calls.len() {
        let one = a.skip_call(a.calls[from as int], note);
        law_calls_that_do_not_run_are_answered(one, from + 1, note);
        assert(b.context.items.take(n as int) =~= b.context.items.take(n as int + 1).take(
            n as int,
        ));
        assert(one.context.items.take(n as int) =~= a.context.items);
        assert forall|i: int| from <= i < a.calls.len() implies b.context.items[n + i - from]
            == (MessageView::ToolResult {
            tool_call_id: (#[trigger] a.calls[i]).id,
            content: note,
            is_error: true,
        }) by {
            if i == from {
                assert(b.context.items.take(n as int + 1)[n as int] == b.context.items[n as int]);
            } else {
                assert(one.calls[i] == a.calls[i]);
                assert(b.context.items[(n + 1) + i - (from + 1)] == b.context.items[n + i - from]);
            }
        }
    } else {
        assert(b.context.items.take(n as int) =~= a.context.items);
    }
}

/// What ended the turn is its result, and is reported: first as an error,
/// then as the turn's end.
pub proof fn law_stop_ends_the_turn(a: AgentView, e: ErrorView, r: Result<(), ErrorView>, sig: Signal)
    requires
        a.phase == PhaseView::Saving(AfterSaveView::Stop(e)),
    ensures
        ({
            let b = a.step(ReplyView::Saved(r), sig);
            let n = b.out.len();
            &&& b.phase is Finished
            &&& b.result == Err::<Seq<char>, ErrorView>(e)
            &&& n >= 2
            &&& b.out[n - 2] == EffectView::Emit(AgentEventView::Error { message: error_text(e) })
            &&& b.out[n - 1] is Emit && b.out[n - 1]->Emit_0 is TurnCompleted
            &&& b.context == a.context
        }),
{
}

// ---- compaction ----

proof fn lemma_reading_summary(
    a: AgentView,
    resume: Resume,
    events: Seq<ProviderEventView>,
    sig: Signal,
)
    requires
        a.phase == PhaseView::ReadingSummary(resume),
        a.compaction is Some,
        goes_on(events),
    ensures
        ({
            let b = run(a, as_replies(events, sig));
            let c = a.compaction->0;
            &&& b.phase == a.phase
            &&& b.compaction == Some(CompactionView { summary: c.summary + said(events), ..c })
            &&& b.context == a.context
            &&& same_settings(a, b)
            &&& b.calls == a.calls && b.at == a.at && b.input == a.input
        }),
    decreases events.len(),
{
    let replies = as_replies(events, sig);
    let c = a.compaction->0;
    if events.len() == 0 {
        assert(c.summary + said(events) =~= c.summary);
    } else {
        let head = events.drop_last();
        assert forall|i: int| 0 <= i < head.len() implies !(#[trigger] head[i] is Done) && !(
        head[i] is ProviderError) by {
            assert(head[i] == events[i]);
        }
        lemma_reading_summary(a, resume, head, sig);
        assert(replies.drop_last() =~= as_replies(head, sig));
        assert(events[events.len() - 1] == events.last());
        if let ProviderEventView::MessageDelta { delta } = events.last() {
            assert(c.summary + said(head) + delta =~= c.summary + (said(head) + delta));
        }
    }
}

/// A compaction replaces the history by the rules, the recent user messages
/// and all that the model streamed as its summary, one delta after another;
/// the calls that are still open stay. The next save rewrites the
/// transcript.
pub proof fn law_compaction_uses_all_that_was_streamed(
    a: AgentView,
    resume: Resume,
    events: Seq<ProviderEventView>,
    sig: Signal,
)
    requires
        a.phase == PhaseView::AskingSummary(resume),
        a.compaction is Some,
        a.compaction->0.summary.len() == 0,
        goes_on(events),
        said(events).len() > 0,
    ensures
        ({
            let read = run(a.step(ReplyView::Opened, sig), as_replies(events, sig));
            let b = read.step(ReplyView::Event(ProviderEventView::Done), sig);
            &&& b.context.items == replacement(a.context.items, trimmed(said(events)))
            &&& b.phase == PhaseView::Saving(AfterSaveView::Compacted(resume))
            &&& b.history_replaced
            &&& b.compaction is None
            &&& same_settings(a, b)
            &&& read.step(ReplyView::End, sig) == b
        }),
{
    let opened = a.step(ReplyView::Opened, sig);
    lemma_reading_summary(opened, resume, events, sig);
    let c = a.compaction->0;
    assert(c.summary + said(events) =~= said(events));
}

/// The summary is asked of the history as it stands when the compaction
/// begins, and the history is not touched before the summary is there.
pub proof fn law_compaction_begins_with_the_history(a: AgentView, resume: Resume)
    ensures
        ({
            let b = a.start_compaction(resume);
            &&& b.compaction matches Some(c) && c.input.drop_last() == a.context.items && c.input.len()
                == a.context.items.len() + 1 && c.summary.len() == 0
            &&& b.context == a.context
            &&& b.phase == PhaseView::AskingSummary(resume)
            &&& b.out.last() == EffectView::Emit(AgentEventView::CompactionStarted)
        }),
{
    assert(a.start_compaction(resume).compaction->0.input.drop_last() =~= a.context.items);
}

/// After a compaction the turn takes up where it was: before the first
/// request, at the next call, or with the request that did not fit.
#[verifier::rlimit(40)]
pub proof fn law_turn_goes_on_after_a_compaction(
    a: AgentView,
    resume: Resume,
    r: Result<(), ErrorView>,
    sig: Signal,
)
    requires
        a.phase == PhaseView::Saving(AfterSaveView::Compacted(resume)),
    ensures
        ({
            let b = a.step(ReplyView::Saved(r), sig);
            &&& resume == Resume::Retry && may_go_on(a, sig) ==> b.phase is Opening && b.context
                == a.context
            &&& resume == Resume::AfterCall && a.at < a.calls.len() ==> goes_on_at(
                a,
                a.at + 1,
                b,
                sig,
            )
            &&& resume == Resume::Manual ==> b.phase is Finished && b.context == a.context && (
            r is Ok || a.session_id is None ==> b.result is Ok)
            &&& resume == Resume::Manual && a.session_id is Some ==> match r {
                Ok(_) => b.persisted_len == a.context.items.len() && !b.history_replaced,
                Err(e) => b.result == Err::<Seq<char>, ErrorView>(
                    ErrorView::Storage(error_text(e)),
                ) && b.history_replaced == a.history_replaced,
            }
        }),
{
    let b = AgentView { out: Seq::empty(), ..a }.note_saved(r);
    if resume == Resume::AfterCall && a.at < a.calls.len() {
        let c = b.next_call();
        lemma_goes_on(c, sig);
        lemma_goes_on_same(c, a, a.at + 1, a.step(ReplyView::Saved(r), sig), sig);
    }
}

/// A compaction that the user asks for begins whatever the context holds;
/// an empty history is left alone.
pub proof fn law_manual_compaction_begins(a: AgentView)
    ensures
        a.context.items.len() == 0 ==> a.begin_compaction().phase is Finished
            && a.begin_compaction().result is Ok && a.begin_compaction().context == a.context,
        a.context.items.len() > 0 ==> a.begin_compaction().phase == PhaseView::AskingSummary(
            Resume::Manual,
        ) && a.begin_compaction().compaction == Some(CompactionView::of(a.context)),
{
}

// ---- failing saves ----

/// A store that fails does not stop the turn, and the user is told once:
/// when saving begins to fail, and when it works again.
pub proof fn law_failing_store_is_reported_once(a: AgentView, r: Result<(), ErrorView>)
    requires
        a.session_id is Some,
    ensures
        ({
            let b = a.note_saved(r);
            &&& b.phase == a.phase && b.context == a.context && b.result == a.result
            &&& b.persist_failed == (r is Err)
            &&& b.out.len() == a.out.len() + if (r is Err) != a.persist_failed {
                1int
            } else {
                0int
            }
            &&& r matches Err(e) ==> !a.persist_failed ==> (b.out.last() matches EffectView::Emit(
                AgentEventView::Warning { message },
            ) && crate::text::holds(message, error_text(e)))
            &&& r is Ok && a.persist_failed ==> b.out.last() is Emit && b.out.last()->Emit_0
                is Warning
            &&& r is Ok ==> b.persisted_len == a.context.items.len() && !b.history_replaced
            &&& r is Err ==> b.persisted_len == a.persisted_len && b.history_replaced
                == a.history_replaced
        }),
{
    if let Err(e) = r {
        let t = crate::agent_loop::save_failed_warning(e);
        let k = "transcript saving failed: "@.len() as int;
        let m = error_text(e);
        assert(t.subrange(k, k + m.len()) =~= m);
        assert(crate::text::holds_at(t, m, k));
    }
}

/// What is awaited follows from where the turn stands, and nothing is
/// awaited only before a turn and after it.
pub proof fn law_awaited_follows_the_phase(a: AgentView)
    ensures
        a.awaited() == Await::Nothing <==> a.phase is Idle || a.phase is Finished,
        a.awaited() == Await::OpenStream <==> a.phase is Opening,
        a.awaited() == Await::NextEvent <==> a.phase is Streaming,
        a.awaited() == Await::Decision <==> a.phase is Deciding,
        a.awaited() == Await::Answer <==> a.phase is Approving,
        a.awaited() == Await::Execution <==> a.phase is Executing,
        a.awaited() == Await::Save <==> a.phase is Saving,
        a.awaited() == Await::OpenSummary <==> a.phase is AskingSummary,
        a.awaited() == Await::NextSummaryEvent <==> a.phase is ReadingSummary,
{
}

} // verus!

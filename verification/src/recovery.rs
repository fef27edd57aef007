//! Crash recovery for tool calls.
//!
//! A crash between "tool started" and "result persisted" leaves transcript
//! gaps. Recovery closes every gap with an honest record: completed work is
//! reused from the execution log, and anything whose real-world effect is
//! unknown is marked as such, never silently replayed. Side effects (files,
//! processes, external systems) cannot be rolled into a database
//! transaction, so "unknown" is the only safe verdict for interrupted
//! executions.

use vstd::prelude::*;

use crate::history::lemma_filter_push;
use crate::message::{copy_calls, Message, MessageView, ToolCall, ToolCallView};
use crate::seqs::{group_views, opt_view, views};
use crate::session::{ToolEvent, ToolEventState, ToolEventView};
use crate::text::{copy_of, str_eq};

verus! {

broadcast use group_views;

const UNKNOWN_MARKER: &'static str = "this call started executing before the session was interrupted; its real-world effect is UNKNOWN — verify state (files, processes, external systems) before retrying";

const NOT_STARTED_MARKER: &'static str = "this call was never started: the session ended before it ran";

/// The result recorded for a call that was started and never finished.
pub open spec fn unknown_marker() -> Seq<char> {
    "this call started executing before the session was interrupted; its real-world effect is UNKNOWN — verify state (files, processes, external systems) before retrying"@
}

/// The result recorded for a call that was never started.
pub open spec fn not_started_marker() -> Seq<char> {
    "this call was never started: the session ended before it ran"@
}

/// The calls that a message asks for.
pub open spec fn calls_in(m: MessageView) -> Seq<ToolCallView> {
    match m {
        MessageView::Assistant { tool_calls, .. } => tool_calls,
        _ => Seq::empty(),
    }
}

/// All calls that the messages ask for, in order.
pub open spec fn all_calls(items: Seq<MessageView>) -> Seq<ToolCallView>
    decreases items.len(),
{
    if items.len() == 0 {
        Seq::empty()
    } else {
        all_calls(items.drop_last()) + calls_in(items.last())
    }
}

/// Whether the message is the result for the call `id`.
pub open spec fn answers(m: MessageView, id: Seq<char>) -> bool {
    match m {
        MessageView::ToolResult { tool_call_id, .. } => tool_call_id == id,
        _ => false,
    }
}

/// Whether some message is the result for the call `id`.
pub open spec fn answered(items: Seq<MessageView>, id: Seq<char>) -> bool {
    exists|i: int| 0 <= i < items.len() && #[trigger] answers(items[i], id)
}

/// The calls without a result, in order.
pub open spec fn open_calls(items: Seq<MessageView>) -> Seq<ToolCallView> {
    all_calls(items).filter(|c: ToolCallView| !answered(items, c.id))
}

/// The latest entry of the execution log for the call `id`.
pub open spec fn last_event(events: Seq<ToolEventView>, id: Seq<char>) -> Option<ToolEventView>
    decreases events.len(),
{
    if events.len() == 0 {
        None
    } else if events.last().call_id == id {
        Some(events.last())
    } else {
        last_event(events.drop_last(), id)
    }
}

/// The result that the execution log gives for a call: the recorded output
/// where the call finished, else a marker.
pub open spec fn recovered_result(id: Seq<char>, event: Option<ToolEventView>) -> MessageView {
    match event {
        Some(e) => match e.state {
            ToolEventState::Completed => MessageView::ToolResult {
                tool_call_id: id,
                content: e.output,
                is_error: false,
            },
            ToolEventState::Failed => MessageView::ToolResult {
                tool_call_id: id,
                content: e.output,
                is_error: true,
            },
            ToolEventState::Started => MessageView::ToolResult {
                tool_call_id: id,
                content: unknown_marker(),
                is_error: true,
            },
        },
        None => MessageView::ToolResult {
            tool_call_id: id,
            content: not_started_marker(),
            is_error: true,
        },
    }
}

/// The results for the calls, in order.
pub open spec fn recovered_results(
    calls: Seq<ToolCallView>,
    events: Seq<ToolEventView>,
) -> Seq<MessageView> {
    Seq::new(calls.len(), |i: int| recovered_result(calls[i].id, last_event(events, calls[i].id)))
}

/// The messages with every gap closed.
pub open spec fn recovered(
    items: Seq<MessageView>,
    events: Seq<ToolEventView>,
) -> Seq<MessageView> {
    items + recovered_results(open_calls(items), events)
}

/// The log entries of the calls that were started and never finished.
pub open spec fn unknown_outcomes(
    calls: Seq<ToolCallView>,
    events: Seq<ToolEventView>,
) -> Seq<ToolEventView>
    decreases calls.len(),
{
    if calls.len() == 0 {
        Seq::empty()
    } else {
        let rest = unknown_outcomes(calls.drop_last(), events);
        match last_event(events, calls.last().id) {
            Some(e) => if e.state == ToolEventState::Started {
                rest.push(e)
            } else {
                rest
            },
            None => rest,
        }
    }
}

fn is_answered(items: &Vec<Message>, id: &str) -> (r: bool)
    ensures
        r == answered(views(items@), id@),
{
    let n: usize = items.len();
    for i in 0..n
        invariant
            n == items@.len(),
            forall|j: int| 0 <= j < i ==> !#[trigger] answers(views(items@)[j], id@),
    {
        if let Message::ToolResult { tool_call_id, .. } = &items[i] {
            if str_eq(tool_call_id, id) {
                assert(answers(views(items@)[i as int], id@));
                return true;
            }
        }
    }
    false
}

fn asked_calls(items: &Vec<Message>) -> (r: Vec<ToolCall>)
    ensures
        views(r@) == all_calls(views(items@)),
{
    let n: usize = items.len();
    let mut r: Vec<ToolCall> = Vec::new();
    for i in 0..n
        invariant
            n == items@.len(),
            views(r@) == all_calls(views(items@).take(i as int)),
    {
        proof {
            assert(views(items@).take(i + 1).drop_last() =~= views(items@).take(i as int));
        }
        if let Message::Assistant { tool_calls, .. } = &items[i] {
            let mut calls = copy_calls(tool_calls);
            r.append(&mut calls);
        }
        assert(views(r@) =~= all_calls(views(items@).take(i + 1)));
    }
    assert(views(items@).take(n as int) =~= views(items@));
    r
}

fn unanswered_calls(items: &Vec<Message>) -> (r: Vec<ToolCall>)
    ensures
        views(r@) == open_calls(views(items@)),
{
    let calls = asked_calls(items);
    let ghost open = |c: ToolCallView| !answered(views(items@), c.id);
    let n: usize = calls.len();
    let mut r: Vec<ToolCall> = Vec::new();
    assert(views(calls@).take(0).filter(open) =~= Seq::empty()) by {
        reveal(Seq::filter);
    }
    for i in 0..n
        invariant
            n == calls@.len(),
            open == (|c: ToolCallView| !answered(views(items@), c.id)),
            views(r@) == views(calls@).take(i as int).filter(open),
    {
        proof {
            assert(views(calls@).take(i + 1) =~= views(calls@).take(i as int).push(
                calls@[i as int]@,
            ));
            lemma_filter_push(views(calls@).take(i as int), calls@[i as int]@, open);
        }
        if !is_answered(items, &calls[i].id) {
            r.push(calls[i].clone());
        }
    }
    assert(views(calls@).take(n as int) =~= views(calls@));
    r
}

fn latest_event<'a>(events: &'a [ToolEvent], id: &str) -> (r: Option<&'a ToolEvent>)
    ensures
        opt_view(r) == last_event(views(events@), id@),
{
    let n: usize = events.len();
    let mut i: usize = n;
    assert(views(events@).take(n as int) =~= views(events@));
    while i > 0
        invariant
            n == events@.len(),
            i <= n,
            last_event(views(events@), id@) == last_event(views(events@).take(i as int), id@),
        decreases i,
    {
        i = i - 1;
        proof {
            assert(views(events@).take(i + 1).drop_last() =~= views(events@).take(i as int));
            assert(views(events@).take(i + 1).last() == events@[i as int]@);
        }
        if str_eq(&events[i].call_id, id) {
            return Some(&events[i]);
        }
    }
    None
}

/// Closes transcript gaps: every call without a recorded result gets one,
/// derived from the execution log. Returns the log entries of the calls
/// whose outcome is unknown, so that the user can be asked to verify before
/// continuing.
pub fn recover_unanswered_calls(
    messages: &mut Vec<Message>,
    events: &[ToolEvent],
) -> (unknown: Vec<ToolEvent>)
    ensures
        views(final(messages)@) == recovered(views(old(messages)@), views(events@)),
        views(unknown@) == unknown_outcomes(open_calls(views(old(messages)@)), views(events@)),
{
    let ghost before = views(messages@);
    let calls = unanswered_calls(messages);
    let n: usize = calls.len();
    let mut unknown: Vec<ToolEvent> = Vec::new();
    assert(recovered_results(views(calls@).take(0), views(events@)) =~= Seq::empty());
    for i in 0..n
        invariant
            n == calls@.len(),
            views(messages@) == before + recovered_results(
                views(calls@).take(i as int),
                views(events@),
            ),
            views(unknown@) == unknown_outcomes(views(calls@).take(i as int), views(events@)),
    {
        let call = &calls[i];
        proof {
            assert(views(calls@).take(i + 1).drop_last() =~= views(calls@).take(i as int));
        }
        let found = latest_event(events, &call.id);
        let (content, is_error): (String, bool) = match found {
            Some(e) => match e.state {
                ToolEventState::Completed => (copy_of(&e.output), false),
                ToolEventState::Failed => (copy_of(&e.output), true),
                ToolEventState::Started => {
                    unknown.push(e.clone());
                    (copy_of(UNKNOWN_MARKER), true)
                },
            },
            None => (copy_of(NOT_STARTED_MARKER), true),
        };
        messages.push(Message::ToolResult { tool_call_id: copy_of(&call.id), content, is_error });
        assert(views(messages@) =~= before + recovered_results(
            views(calls@).take(i + 1),
            views(events@),
        ));
    }
    assert(views(calls@).take(n as int) =~= views(calls@));
    unknown
}

proof fn lemma_all_calls_of_results(
    items: Seq<MessageView>,
    calls: Seq<ToolCallView>,
    events: Seq<ToolEventView>,
)
    ensures
        all_calls(items + recovered_results(calls, events)) == all_calls(items),
    decreases calls.len(),
{
    let results = recovered_results(calls, events);
    if calls.len() == 0 {
        assert(items + results =~= items);
    } else {
        lemma_all_calls_of_results(items, calls.drop_last(), events);
        assert((items + results).drop_last() =~= items + recovered_results(
            calls.drop_last(),
            events,
        ));
        assert(all_calls(items) + Seq::<ToolCallView>::empty() =~= all_calls(items));
    }
}

/// A recovered transcript has no gaps left: every call has its result.
pub proof fn law_recovery_closes_every_gap(items: Seq<MessageView>, events: Seq<ToolEventView>)
    ensures
        open_calls(recovered(items, events)).len() == 0,
{
    let calls = open_calls(items);
    let results = recovered_results(calls, events);
    let all = recovered(items, events);
    let was_open = |c: ToolCallView| !answered(items, c.id);
    let is_open = |c: ToolCallView| !answered(all, c.id);
    lemma_all_calls_of_results(items, calls, events);
    broadcast use vstd::seq_lib::group_filter_ensures;

    if open_calls(all).len() > 0 {
        let c = open_calls(all)[0];
        assert(is_open(open_calls(all)[0]));
        assert(open_calls(all).contains(c));
        all_calls(all).lemma_filter_contains_rev(is_open, c);
        if answered(items, c.id) {
            let i = choose|i: int| 0 <= i < items.len() && #[trigger] answers(items[i], c.id);
            assert(answers(all[i], c.id));
        } else {
            let k = choose|k: int| 0 <= k < all_calls(items).len() && all_calls(items)[k] == c;
            assert(was_open(all_calls(items)[k]));
            assert(calls.contains(c));
            let j = choose|j: int| 0 <= j < calls.len() && calls[j] == c;
            assert(answers(all[items.len() + j], c.id));
        }
    }
}

/// Recovery is idempotent: on a recovered transcript it changes nothing and
/// reports nothing.
pub proof fn law_recovery_is_idempotent(items: Seq<MessageView>, events: Seq<ToolEventView>)
    ensures
        recovered(recovered(items, events), events) == recovered(items, events),
        unknown_outcomes(open_calls(recovered(items, events)), events).len() == 0,
{
    law_recovery_closes_every_gap(items, events);
    let all = recovered(items, events);
    assert(recovered(all, events) =~= all);
}

/// Recovery leaves a complete transcript alone, and never changes what was
/// recorded before.
pub proof fn law_recovery_keeps_the_record(items: Seq<MessageView>, events: Seq<ToolEventView>)
    ensures
        recovered(items, events).take(items.len() as int) == items,
        open_calls(items).len() == 0 ==> recovered(items, events) == items,
{
    assert(recovered(items, events).take(items.len() as int) =~= items);
    if open_calls(items).len() == 0 {
        assert(recovered(items, events) =~= items);
    }
}

/// Whether entry `k` of the execution log is the latest one for the call
/// `id`.
pub open spec fn is_latest(events: Seq<ToolEventView>, id: Seq<char>, k: int) -> bool {
    &&& 0 <= k < events.len()
    &&& events[k].call_id == id
    &&& forall|j: int| k < j < events.len() ==> (#[trigger] events[j]).call_id != id
}

/// Whether the log has no entry for the call `id`.
pub open spec fn unlogged(events: Seq<ToolEventView>, id: Seq<char>) -> bool {
    forall|j: int| 0 <= j < events.len() ==> (#[trigger] events[j]).call_id != id
}

/// Whether the result `m` tells of the call `id` what the log knows: the
/// recorded output where its latest entry says that it completed or failed,
/// an unknown effect where it only started, and that it never ran where
/// there is no entry.
pub open spec fn tells_the_log(m: MessageView, id: Seq<char>, events: Seq<ToolEventView>) -> bool {
    &&& m matches MessageView::ToolResult { tool_call_id, .. } && tool_call_id == id
    &&& forall|k: int| #[trigger]
        is_latest(events, id, k) ==> match events[k].state {
            ToolEventState::Completed => m->ToolResult_content == events[k].output
                && !m->is_error,
            ToolEventState::Failed => m->ToolResult_content == events[k].output && m->is_error,
            ToolEventState::Started => m->ToolResult_content == unknown_marker() && m->is_error,
        }
    &&& unlogged(events, id) ==> m->ToolResult_content == not_started_marker() && m->is_error
}

proof fn lemma_last_event(events: Seq<ToolEventView>, id: Seq<char>)
    ensures
        last_event(events, id) is None <==> unlogged(events, id),
        forall|k: int| #[trigger]
            is_latest(events, id, k) ==> last_event(events, id) == Some(events[k]),
        last_event(events, id) is Some ==> exists|k: int| #[trigger] is_latest(events, id, k),
    decreases events.len(),
{
    if events.len() > 0 {
        let head = events.drop_last();
        let n = events.len() - 1;
        lemma_last_event(head, id);
        if events.last().call_id == id {
            assert(is_latest(events, id, n));
            assert(!unlogged(events, id)) by {
                assert(events[n].call_id == id);
            }
            assert forall|k: int| #[trigger] is_latest(events, id, k) implies last_event(events, id)
                == Some(events[k]) by {
                assert(events[n].call_id == id);
            }
        } else {
            assert forall|k: int| #[trigger] is_latest(events, id, k) implies last_event(events, id)
                == Some(events[k]) by {
                assert(head[k] == events[k]);
                assert forall|j: int| k < j < head.len() implies (#[trigger] head[j]).call_id
                    != id by {
                    assert(events[j].call_id != id);
                }
                assert(is_latest(head, id, k));
            }
            if last_event(head, id) is Some {
                let k = choose|k: int| #[trigger] is_latest(head, id, k);
                assert forall|j: int| k < j < events.len() implies (#[trigger] events[j]).call_id
                    != id by {
                    if j < head.len() {
                        assert(head[j].call_id != id);
                    }
                }
                assert(is_latest(events, id, k));
                assert(events[k].call_id == id);
            } else {
                assert forall|j: int| 0 <= j < events.len() implies (#[trigger] events[j]).call_id
                    != id by {
                    if j < head.len() {
                        assert(head[j].call_id != id);
                    }
                }
            }
        }
    }
}

/// Each result that recovery appends tells what the log knows of its own
/// call: as many results as there are open calls, in their order.
pub proof fn law_recovered_results_tell_the_log(
    items: Seq<MessageView>,
    events: Seq<ToolEventView>,
)
    ensures
        recovered(items, events).len() == items.len() + open_calls(items).len(),
        forall|i: int|
            0 <= i < open_calls(items).len() ==> tells_the_log(
                #[trigger] recovered(items, events)[items.len() + i],
                open_calls(items)[i].id,
                events,
            ),
{
    let all = recovered(items, events);
    assert forall|i: int| 0 <= i < open_calls(items).len() implies tells_the_log(
        #[trigger] all[items.len() + i],
        open_calls(items)[i].id,
        events,
    ) by {
        lemma_last_event(events, open_calls(items)[i].id);
    }
}

/// Whether the message asks for the call `c`.
pub open spec fn asks_for(m: MessageView, c: ToolCallView) -> bool {
    m matches MessageView::Assistant { tool_calls, .. } && tool_calls.contains(c)
}

/// Whether no message is a result for the call `id`.
pub open spec fn has_no_result(items: Seq<MessageView>, id: Seq<char>) -> bool {
    forall|i: int|
        0 <= i < items.len() ==> !(#[trigger] items[i] matches MessageView::ToolResult {
            tool_call_id,
            ..
        } && tool_call_id == id)
}

proof fn lemma_all_calls(items: Seq<MessageView>, c: ToolCallView)
    ensures
        all_calls(items).contains(c) <==> exists|j: int|
            0 <= j < items.len() && #[trigger] asks_for(items[j], c),
    decreases items.len(),
{
    if items.len() > 0 {
        let head = items.drop_last();
        lemma_all_calls(head, c);
        let calls = all_calls(head);
        let last = calls_in(items.last());
        if all_calls(items).contains(c) {
            let k = choose|k: int| 0 <= k < (calls + last).len() && (calls + last)[k] == c;
            if k < calls.len() {
                assert(calls[k] == c);
                assert(calls.contains(c));
                let j = choose|j: int| 0 <= j < head.len() && #[trigger] asks_for(head[j], c);
                assert(asks_for(items[j], c));
            } else {
                assert(last[k - calls.len()] == c);
                assert(last.contains(c));
                assert(asks_for(items[items.len() - 1], c));
            }
        }
        if exists|j: int| 0 <= j < items.len() && #[trigger] asks_for(items[j], c) {
            let j = choose|j: int| 0 <= j < items.len() && #[trigger] asks_for(items[j], c);
            if j < head.len() {
                assert(asks_for(head[j], c));
                let k = choose|k: int| 0 <= k < calls.len() && calls[k] == c;
                assert((calls + last)[k] == c);
            } else {
                let k = choose|k: int| 0 <= k < last.len() && last[k] == c;
                assert((calls + last)[calls.len() + k] == c);
            }
        }
    }
}

proof fn lemma_open_calls(items: Seq<MessageView>, c: ToolCallView)
    ensures
        open_calls(items).contains(c) <==> has_no_result(items, c.id) && exists|j: int|
            0 <= j < items.len() && #[trigger] asks_for(items[j], c),
{
    let open = |c: ToolCallView| !answered(items, c.id);
    lemma_all_calls(items, c);
    broadcast use vstd::seq_lib::group_filter_ensures;

    assert(answered(items, c.id) <==> !has_no_result(items, c.id)) by {
        if answered(items, c.id) {
            let i = choose|i: int| 0 <= i < items.len() && #[trigger] answers(items[i], c.id);
            assert(items[i] is ToolResult);
        }
        if !has_no_result(items, c.id) {
            let i = choose|i: int|
                0 <= i < items.len() && (#[trigger] items[i] matches MessageView::ToolResult {
                    tool_call_id,
                    ..
                } && tool_call_id == c.id);
            assert(answers(items[i], c.id));
        }
    }
    if open_calls(items).contains(c) {
        all_calls(items).lemma_filter_contains_rev(open, c);
        let k = choose|k: int| 0 <= k < open_calls(items).len() && open_calls(items)[k] == c;
        assert(open(open_calls(items)[k]));
    }
    if all_calls(items).contains(c) && !answered(items, c.id) {
        let k = choose|k: int| 0 <= k < all_calls(items).len() && all_calls(items)[k] == c;
        assert(open(all_calls(items)[k]));
    }
}

/// A call that was asked for and has no result gets one, and it tells what
/// the log knows of that very call.
pub proof fn law_open_call_gets_its_outcome(
    items: Seq<MessageView>,
    events: Seq<ToolEventView>,
    j: int,
    c: ToolCallView,
)
    requires
        0 <= j < items.len(),
        asks_for(items[j], c),
        has_no_result(items, c.id),
    ensures
        exists|p: int|
            items.len() <= p < recovered(items, events).len() && tells_the_log(
                #[trigger] recovered(items, events)[p],
                c.id,
                events,
            ),
{
    lemma_open_calls(items, c);
    law_recovered_results_tell_the_log(items, events);
    let i = choose|i: int| 0 <= i < open_calls(items).len() && open_calls(items)[i] == c;
    assert(tells_the_log(recovered(items, events)[items.len() + i], c.id, events));
}

/// Recovery invents nothing: each message that it appends is the result of a
/// call that was asked for and had none.
pub proof fn law_recovery_invents_nothing(
    items: Seq<MessageView>,
    events: Seq<ToolEventView>,
    p: int,
)
    requires
        items.len() <= p < recovered(items, events).len(),
    ensures
        exists|j: int, c: ToolCallView|
            0 <= j < items.len() && #[trigger] asks_for(items[j], c) && has_no_result(items, c.id)
                && tells_the_log(recovered(items, events)[p], c.id, events),
{
    let c = open_calls(items)[p - items.len()];
    assert(open_calls(items).contains(c));
    lemma_open_calls(items, c);
    law_recovered_results_tell_the_log(items, events);
    assert(recovered(items, events)[items.len() + (p - items.len())]
        == recovered(items, events)[p]);
    let j = choose|j: int| 0 <= j < items.len() && #[trigger] asks_for(items[j], c);
    assert(asks_for(items[j], c));
}

proof fn lemma_unknown_outcomes(calls: Seq<ToolCallView>, events: Seq<ToolEventView>, e: ToolEventView)
    ensures
        unknown_outcomes(calls, events).contains(e) <==> e.state == ToolEventState::Started
            && exists|i: int|
            0 <= i < calls.len() && last_event(events, (#[trigger] calls[i]).id) == Some(e),
    decreases calls.len(),
{
    if calls.len() > 0 {
        let head = calls.drop_last();
        let rest = unknown_outcomes(head, events);
        let all = unknown_outcomes(calls, events);
        let n = calls.len() - 1;
        lemma_unknown_outcomes(head, events, e);
        if all.contains(e) {
            let k = choose|k: int| 0 <= k < all.len() && all[k] == e;
            if k < rest.len() {
                assert(rest[k] == e);
                assert(rest.contains(e));
                let i = choose|i: int|
                    0 <= i < head.len() && last_event(events, (#[trigger] head[i]).id) == Some(e);
                assert(last_event(events, calls[i].id) == Some(e));
            } else {
                assert(last_event(events, calls[n].id) == Some(e));
            }
        }
        if e.state == ToolEventState::Started && exists|i: int|
            0 <= i < calls.len() && last_event(events, (#[trigger] calls[i]).id) == Some(e) {
            let i = choose|i: int|
                0 <= i < calls.len() && last_event(events, (#[trigger] calls[i]).id) == Some(e);
            if i < n {
                assert(last_event(events, head[i].id) == Some(e));
                let k = choose|k: int| 0 <= k < rest.len() && rest[k] == e;
                assert(all[k] == e);
            } else {
                assert(all == rest.push(e));
                assert(all[rest.len() as int] == e);
            }
        }
    }
}

/// The user is asked to verify exactly the open calls that started and never
/// finished: the entries reported are the latest ones of their calls.
pub proof fn law_unknown_outcomes_are_reported(
    items: Seq<MessageView>,
    events: Seq<ToolEventView>,
    j: int,
    c: ToolCallView,
    k: int,
)
    requires
        0 <= j < items.len(),
        asks_for(items[j], c),
        has_no_result(items, c.id),
        is_latest(events, c.id, k),
    ensures
        unknown_outcomes(open_calls(items), events).contains(events[k]) <==> events[k].state
            == ToolEventState::Started,
{
    let calls = open_calls(items);
    lemma_open_calls(items, c);
    lemma_last_event(events, c.id);
    lemma_unknown_outcomes(calls, events, events[k]);
    let i = choose|i: int| 0 <= i < calls.len() && calls[i] == c;
    assert(last_event(events, calls[i].id) == Some(events[k]));
}

/// A call is answered once: where no id is asked for twice, no two of the
/// results that recovery appends are for the same call.
pub proof fn law_each_call_is_recovered_once(
    items: Seq<MessageView>,
    events: Seq<ToolEventView>,
    p: int,
    q: int,
)
    requires
        forall|i: int, j: int|
            0 <= i < j < all_calls(items).len() ==> (#[trigger] all_calls(items)[i]).id != (
            #[trigger] all_calls(items)[j]).id,
        items.len() <= p < q < recovered(items, events).len(),
    ensures
        recovered(items, events)[p]->tool_call_id != recovered(items, events)[q]->tool_call_id,
{
    let open = |c: ToolCallView| !answered(items, c.id);
    lemma_filter_distinct(all_calls(items), open);
    let calls = open_calls(items);
    let i = p - items.len();
    let j = q - items.len();
    assert(calls[i].id != calls[j].id);
}

proof fn lemma_filter_distinct(calls: Seq<ToolCallView>, keep: spec_fn(ToolCallView) -> bool)
    requires
        forall|i: int, j: int|
            0 <= i < j < calls.len() ==> (#[trigger] calls[i]).id != (#[trigger] calls[j]).id,
    ensures
        forall|i: int, j: int|
            0 <= i < j < calls.filter(keep).len() ==> (#[trigger] calls.filter(keep)[i]).id != (
            #[trigger] calls.filter(keep)[j]).id,
    decreases calls.len(),
{
    if calls.len() == 0 {
        reveal(Seq::filter);
    } else {
        let head = calls.drop_last();
        let n = calls.len() - 1;
        assert forall|i: int, j: int| 0 <= i < j < head.len() implies (#[trigger] head[i]).id != (
        #[trigger] head[j]).id by {
            assert(calls[i].id != calls[j].id);
        }
        lemma_filter_distinct(head, keep);
        assert(head.push(calls.last()) =~= calls);
        lemma_filter_push(head, calls.last(), keep);
        let kept = head.filter(keep);
        let all = calls.filter(keep);
        assert forall|i: int, j: int| 0 <= i < j < all.len() implies (#[trigger] all[i]).id != (
        #[trigger] all[j]).id by {
            if j < kept.len() {
                assert(kept[i].id != kept[j].id);
            } else {
                assert(kept.contains(kept[i]));
                head.lemma_filter_contains_rev(keep, kept[i]);
                let k = choose|k: int| 0 <= k < head.len() && head[k] == kept[i];
                assert(calls[k].id != calls[n].id);
            }
        }
    }
}

} // verus!

//! The conversation transcript: ordered, append-mostly, replaceable on
//! compaction.

use vstd::prelude::*;

use crate::message::{copy_messages, copy_opt, Message, MessageView, ToolCall, ToolCallView};
use crate::seqs::{group_views, opt_view, views};
use crate::text::{copy_of, str_eq};

verus! {

broadcast use group_views;

/// The conversation transcript.
#[derive(Debug)]
pub struct History {
    items: Vec<Message>,
    /// Bumped on every rewrite, so that snapshots can detect changes.
    version: u64,
}

impl View for History {
    type V = Seq<MessageView>;

    closed spec fn view(&self) -> Seq<MessageView> {
        views(self.items@)
    }
}

/// Whether the message is a result for one of the calls in `ids`.
pub open spec fn is_result_of(m: MessageView, ids: Seq<Seq<char>>) -> bool {
    match m {
        MessageView::ToolResult { tool_call_id, .. } => ids.contains(tool_call_id),
        _ => false,
    }
}

/// The ids of the calls, in order.
pub open spec fn ids_of(calls: Seq<ToolCallView>) -> Seq<Seq<char>> {
    Seq::new(calls.len(), |i: int| calls[i].id)
}

/// The messages that are no results for the calls in `ids`.
pub open spec fn without_results(
    items: Seq<MessageView>,
    ids: Seq<Seq<char>>,
) -> Seq<MessageView> {
    items.filter(|m: MessageView| !is_result_of(m, ids))
}

/// The calls with another id than `id`.
pub open spec fn other_calls(calls: Seq<ToolCallView>, id: Seq<char>) -> Seq<ToolCallView> {
    calls.filter(|c: ToolCallView| c.id != id)
}

/// Whether nothing is left of the message once the call `id` is gone: it
/// asks for that call, for no other, and holds no text.
pub open spec fn only_asks_for(m: MessageView, id: Seq<char>) -> bool {
    match m {
        MessageView::Assistant { content, tool_calls, .. } => ids_of(tool_calls).contains(id)
            && other_calls(tool_calls, id).len() == 0 && content.len() == 0,
        _ => false,
    }
}

/// The message without the call `id`.
pub open spec fn strip_call(m: MessageView, id: Seq<char>) -> MessageView {
    match m {
        MessageView::Assistant { content, reasoning, tool_calls } => MessageView::Assistant {
            content,
            reasoning,
            tool_calls: other_calls(tool_calls, id),
        },
        _ => m,
    }
}

/// The messages without the call `id`; a message that only asked for it is
/// gone altogether.
pub open spec fn without_call(items: Seq<MessageView>, id: Seq<char>) -> Seq<MessageView>
    decreases items.len(),
{
    if items.len() == 0 {
        items
    } else {
        let rest = without_call(items.drop_last(), id);
        if only_asks_for(items.last(), id) {
            rest
        } else {
            rest.push(strip_call(items.last(), id))
        }
    }
}

/// The messages without the oldest one and without its counterpart: the
/// results for its calls where it asks for calls, the call that it answers
/// where it is a result.
pub open spec fn without_first(items: Seq<MessageView>) -> Seq<MessageView> {
    if items.len() == 0 {
        items
    } else {
        let rest = items.drop_first();
        match items[0] {
            MessageView::Assistant { tool_calls, .. } => without_results(rest, ids_of(tool_calls)),
            MessageView::ToolResult { tool_call_id, .. } => without_call(rest, tool_call_id),
            _ => rest,
        }
    }
}

/// Whether some message asks for the call `id`.
pub open spec fn asked_for(items: Seq<MessageView>, id: Seq<char>) -> bool {
    exists|i: int| 0 <= i < items.len() && #[trigger] asks_for(items[i], id)
}

/// Whether the message asks for the call `id`.
pub open spec fn asks_for(m: MessageView, id: Seq<char>) -> bool {
    match m {
        MessageView::Assistant { tool_calls, .. } => ids_of(tool_calls).contains(id),
        _ => false,
    }
}

/// Whether the message is a result for a call that no message in `items`
/// asks for.
pub open spec fn is_orphan(items: Seq<MessageView>, m: MessageView) -> bool {
    match m {
        MessageView::ToolResult { tool_call_id, .. } => !asked_for(items, tool_call_id),
        _ => false,
    }
}

/// Whether the message is an assistant message without text, reasoning and
/// calls.
pub open spec fn is_shell(m: MessageView) -> bool {
    match m {
        MessageView::Assistant { content, reasoning, tool_calls } => content.len() == 0
            && tool_calls.len() == 0 && (match reasoning {
            Some(r) => r.len() == 0,
            None => true,
        }),
        _ => false,
    }
}

/// The messages without orphan results and empty assistant messages.
pub open spec fn normalized(items: Seq<MessageView>) -> Seq<MessageView> {
    items.filter(|m: MessageView| !is_orphan(items, m)).filter(|m: MessageView| !is_shell(m))
}

/// How `filter` treats one more item at the end.
pub proof fn lemma_filter_push<A>(s: Seq<A>, x: A, p: spec_fn(A) -> bool)
    ensures
        s.push(x).filter(p) == if p(x) {
            s.filter(p).push(x)
        } else {
            s.filter(p)
        },
{
    reveal(Seq::filter);
    assert(s.push(x).drop_last() =~= s);
}

fn is_in(id: &str, ids: &Vec<String>) -> (r: bool)
    ensures
        r == views(ids@).contains(id@),
{
    let n: usize = ids.len();
    for i in 0..n
        invariant
            n == ids@.len(),
            forall|j: int| 0 <= j < i ==> views(ids@)[j] != id@,
    {
        if str_eq(&ids[i], id) {
            assert(views(ids@)[i as int] == id@);
            return true;
        }
    }
    false
}

fn call_ids(calls: &Vec<ToolCall>) -> (r: Vec<String>)
    ensures
        views(r@) == ids_of(views(calls@)),
{
    let n: usize = calls.len();
    let mut r: Vec<String> = Vec::new();
    for i in 0..n
        invariant
            n == calls@.len(),
            views(r@) == ids_of(views(calls@)).take(i as int),
    {
        r.push(copy_of(&calls[i].id));
        assert(views(r@) =~= ids_of(views(calls@)).take(i + 1));
    }
    assert(ids_of(views(calls@)).take(n as int) =~= ids_of(views(calls@)));
    r
}

fn calls_but(calls: &Vec<ToolCall>, id: &str) -> (r: Vec<ToolCall>)
    ensures
        views(r@) == other_calls(views(calls@), id@),
{
    let ghost keep = |c: ToolCallView| c.id != id@;
    let n: usize = calls.len();
    let mut r: Vec<ToolCall> = Vec::new();
    assert(views(calls@).take(0).filter(keep) =~= Seq::empty()) by {
        reveal(Seq::filter);
    }
    for i in 0..n
        invariant
            n == calls@.len(),
            keep == (|c: ToolCallView| c.id != id@),
            views(r@) == views(calls@).take(i as int).filter(keep),
    {
        proof {
            assert(views(calls@).take(i + 1) =~= views(calls@).take(i as int).push(
                calls@[i as int]@,
            ));
            lemma_filter_push(views(calls@).take(i as int), calls@[i as int]@, keep);
        }
        if !str_eq(&calls[i].id, id) {
            r.push(calls[i].clone());
        }
    }
    assert(views(calls@).take(n as int) =~= views(calls@));
    r
}

/// Removes the results for the calls in `ids`.
fn remove_tool_results(items: &Vec<Message>, ids: &Vec<String>) -> (r: Vec<Message>)
    ensures
        views(r@) == without_results(views(items@), views(ids@)),
{
    let ghost keep = |m: MessageView| !is_result_of(m, views(ids@));
    let n: usize = items.len();
    let mut r: Vec<Message> = Vec::new();
    assert(views(items@).take(0).filter(keep) =~= Seq::empty()) by {
        reveal(Seq::filter);
    }
    for i in 0..n
        invariant
            n == items@.len(),
            keep == (|m: MessageView| !is_result_of(m, views(ids@))),
            views(r@) == views(items@).take(i as int).filter(keep),
    {
        proof {
            assert(views(items@).take(i + 1) =~= views(items@).take(i as int).push(
                items@[i as int]@,
            ));
            lemma_filter_push(views(items@).take(i as int), items@[i as int]@, keep);
        }
        let gone: bool = match &items[i] {
            Message::ToolResult { tool_call_id, .. } => is_in(tool_call_id, ids),
            _ => false,
        };
        if !gone {
            r.push(items[i].clone());
        }
    }
    assert(views(items@).take(n as int) =~= views(items@));
    r
}

/// Removes the call `id`, and the messages that only asked for it.
fn remove_orphan_calls(items: &Vec<Message>, id: &str) -> (r: Vec<Message>)
    ensures
        views(r@) == without_call(views(items@), id@),
{
    let n: usize = items.len();
    let mut r: Vec<Message> = Vec::new();
    for i in 0..n
        invariant
            n == items@.len(),
            views(r@) == without_call(views(items@).take(i as int), id@),
    {
        proof {
            assert(views(items@).take(i + 1).drop_last() =~= views(items@).take(i as int));
            assert(views(items@).take(i + 1).last() == items@[i as int]@);
        }
        match &items[i] {
            Message::Assistant { content, reasoning, tool_calls } => {
                let asked: bool = is_in(id, &call_ids(tool_calls));
                let rest = calls_but(tool_calls, id);
                if !(asked && rest.len() == 0 && content.as_str().is_empty()) {
                    r.push(
                        Message::Assistant {
                            content: copy_of(content),
                            reasoning: copy_opt(reasoning),
                            tool_calls: rest,
                        },
                    );
                }
            },
            _ => {
                r.push(items[i].clone());
            },
        }
    }
    assert(views(items@).take(n as int) =~= views(items@));
    r
}

/// The ids of all calls that the messages ask for.
fn issued_ids(items: &Vec<Message>) -> (r: Vec<String>)
    ensures
        forall|id: Seq<char>| #[trigger] views(r@).contains(id) <==> asked_for(views(items@), id),
{
    let n: usize = items.len();
    let mut r: Vec<String> = Vec::new();
    for i in 0..n
        invariant
            n == items@.len(),
            forall|id: Seq<char>| #[trigger]
                views(r@).contains(id) <==> asked_for(views(items@).take(i as int), id),
    {
        let ghost before = views(r@);
        let ghost head = views(items@).take(i as int);
        let ghost more = views(items@).take(i + 1);
        assert(more =~= head.push(items@[i as int]@));
        let mut new_ids: Vec<String> = Vec::new();
        if let Message::Assistant { tool_calls, .. } = &items[i] {
            new_ids = call_ids(tool_calls);
        }
        let ghost added = views(new_ids@);
        assert forall|id: Seq<char>| added.contains(id) <==> asks_for(items@[i as int]@, id) by {}
        r.append(&mut new_ids);
        assert(views(r@) == before + added);
        assert forall|id: Seq<char>| #[trigger] views(r@).contains(id) <==> asked_for(more, id) by {
            if views(r@).contains(id) {
                let k = choose|k: int| 0 <= k < views(r@).len() && views(r@)[k] == id;
                if k < before.len() {
                    assert(before[k] == id);
                    assert(before.contains(id));
                    let j = choose|j: int| 0 <= j < head.len() && #[trigger] asks_for(head[j], id);
                    assert(asks_for(more[j], id));
                } else {
                    assert(added[k - before.len()] == id);
                    assert(added.contains(id));
                    assert(asks_for(more[i as int], id));
                }
            }
            if asked_for(more, id) {
                let j = choose|j: int| 0 <= j < more.len() && #[trigger] asks_for(more[j], id);
                if j < i {
                    assert(asks_for(head[j], id));
                    assert(before.contains(id));
                    let k = choose|k: int| 0 <= k < before.len() && before[k] == id;
                    assert(views(r@)[k] == id);
                } else {
                    assert(added.contains(id));
                    let k = choose|k: int| 0 <= k < added.len() && added[k] == id;
                    assert(views(r@)[before.len() + k] == id);
                }
            }
        }
    }
    assert(views(items@).take(n as int) =~= views(items@));
    r
}

fn drop_orphans(items: &Vec<Message>) -> (r: Vec<Message>)
    ensures
        views(r@) == views(items@).filter(|m: MessageView| !is_orphan(views(items@), m)),
{
    let ids = issued_ids(items);
    let ghost keep = |m: MessageView| !is_orphan(views(items@), m);
    let n: usize = items.len();
    let mut r: Vec<Message> = Vec::new();
    assert(views(items@).take(0).filter(keep) =~= Seq::empty()) by {
        reveal(Seq::filter);
    }
    for i in 0..n
        invariant
            n == items@.len(),
            keep == (|m: MessageView| !is_orphan(views(items@), m)),
            forall|id: Seq<char>| #[trigger]
                views(ids@).contains(id) <==> asked_for(views(items@), id),
            views(r@) == views(items@).take(i as int).filter(keep),
    {
        proof {
            assert(views(items@).take(i + 1) =~= views(items@).take(i as int).push(
                items@[i as int]@,
            ));
            lemma_filter_push(views(items@).take(i as int), items@[i as int]@, keep);
        }
        let gone: bool = match &items[i] {
            Message::ToolResult { tool_call_id, .. } => !is_in(tool_call_id, &ids),
            _ => false,
        };
        if !gone {
            r.push(items[i].clone());
        }
    }
    assert(views(items@).take(n as int) =~= views(items@));
    r
}

fn drop_shells(items: &Vec<Message>) -> (r: Vec<Message>)
    ensures
        views(r@) == views(items@).filter(|m: MessageView| !is_shell(m)),
{
    let ghost keep = |m: MessageView| !is_shell(m);
    let n: usize = items.len();
    let mut r: Vec<Message> = Vec::new();
    assert(views(items@).take(0).filter(keep) =~= Seq::empty()) by {
        reveal(Seq::filter);
    }
    for i in 0..n
        invariant
            n == items@.len(),
            keep == (|m: MessageView| !is_shell(m)),
            views(r@) == views(items@).take(i as int).filter(keep),
    {
        proof {
            assert(views(items@).take(i + 1) =~= views(items@).take(i as int).push(
                items@[i as int]@,
            ));
            lemma_filter_push(views(items@).take(i as int), items@[i as int]@, keep);
        }
        let gone: bool = match &items[i] {
            Message::Assistant { content, reasoning, tool_calls } => {
                let thought: bool = match reasoning {
                    Some(t) => !t.as_str().is_empty(),
                    None => false,
                };
                content.as_str().is_empty() && tool_calls.len() == 0 && !thought
            },
            _ => false,
        };
        if !gone {
            r.push(items[i].clone());
        }
    }
    assert(views(items@).take(n as int) =~= views(items@));
    r
}

/// Removes the oldest message together with its counterpart.
pub fn drop_first(items: &mut Vec<Message>) -> (r: Option<Message>)
    ensures
        views(final(items)@) == without_first(views(old(items)@)),
        opt_view(r) == if old(items)@.len() == 0 {
            None
        } else {
            Some(old(items)@[0]@)
        },
{
    if items.len() == 0 {
        return None;
    }
    let ghost before = views(items@);
    let removed = items.remove(0);
    assert(views(items@) =~= before.drop_first());
    match &removed {
        Message::Assistant { tool_calls, .. } => {
            let ids = call_ids(tool_calls);
            *items = remove_tool_results(items, &ids);
        },
        Message::ToolResult { tool_call_id, .. } => {
            *items = remove_orphan_calls(items, tool_call_id);
        },
        _ => {},
    }
    Some(removed)
}

impl History {
    /// The number of rewrites, as far as 64 bits hold it.
    pub closed spec fn rewrites(&self) -> u64 {
        self.version
    }

    pub fn new() -> (r: History)
        ensures
            r@ == Seq::<MessageView>::empty(),
            r.rewrites() == 0,
    {
        History { items: Vec::new(), version: 0 }
    }

    /// The messages, oldest first.
    pub fn items(&self) -> (r: &Vec<Message>)
        ensures
            views(r@) == self@,
    {
        &self.items
    }

    /// How often the transcript was rewritten.
    pub fn version(&self) -> (r: u64)
        ensures
            r == self.rewrites(),
    {
        self.version
    }

    /// Appends one message.
    pub fn push(&mut self, msg: Message)
        ensures
            final(self)@ == old(self)@.push(msg@),
            final(self).rewrites() == old(self).rewrites(),
    {
        self.items.push(msg);
    }

    /// Appends the messages.
    pub fn extend(&mut self, msgs: Vec<Message>)
        ensures
            final(self)@ == old(self)@ + views(msgs@),
            final(self).rewrites() == old(self).rewrites(),
    {
        let mut msgs = msgs;
        self.items.append(&mut msgs);
    }

    pub fn is_empty(&self) -> (r: bool)
        ensures
            r == (self@.len() == 0),
    {
        self.items.len() == 0
    }

    pub fn len(&self) -> (r: usize)
        ensures
            r == self@.len(),
    {
        self.items.len()
    }

    /// Drops the oldest message. If it asked for tool calls, their results
    /// go too, and the other way round, so that no pair is torn apart.
    pub fn remove_first(&mut self) -> (r: Option<Message>)
        ensures
            final(self)@ == without_first(old(self)@),
            opt_view(r) == if old(self)@.len() == 0 {
                None
            } else {
                Some(old(self)@[0])
            },
            final(self).rewrites() == if old(self)@.len() == 0 {
                old(self).rewrites()
            } else {
                old(self).rewrites().wrapping_add(1)
            },
    {
        if self.items.len() == 0 {
            return None;
        }
        let removed = drop_first(&mut self.items);
        self.version = self.version.wrapping_add(1);
        removed
    }

    /// Removes results whose call is gone and assistant messages without
    /// text, reasoning and calls.
    pub fn normalize(&mut self)
        ensures
            final(self)@ == normalized(old(self)@),
            final(self).rewrites() == old(self).rewrites(),
    {
        self.items = drop_orphans(&self.items);
        self.items = drop_shells(&self.items);
    }

    /// Replaces the whole transcript.
    pub fn replace(&mut self, items: Vec<Message>)
        ensures
            final(self)@ == views(items@),
            final(self).rewrites() == old(self).rewrites().wrapping_add(1),
    {
        self.items = items;
        self.version = self.version.wrapping_add(1);
    }

    /// A copy of the messages.
    pub fn snapshot(&self) -> (r: Vec<Message>)
        ensures
            views(r@) == self@,
    {
        copy_messages(&self.items)
    }
}

impl Default for History {
    fn default() -> (r: Self)
        ensures
            r@ == Seq::<MessageView>::empty(),
            r.rewrites() == 0,
    {
        History::new()
    }
}

impl Clone for History {
    fn clone(&self) -> (r: Self)
        ensures
            r@ == self@,
            r.rewrites() == self.rewrites(),
    {
        History { items: copy_messages(&self.items), version: self.version }
    }
}

/// How many of the messages ask for the call `id`.
pub open spec fn times_asked(items: Seq<MessageView>, id: Seq<char>) -> nat
    decreases items.len(),
{
    if items.len() == 0 {
        0
    } else {
        times_asked(items.drop_last(), id) + if asks_for(items.last(), id) {
            1nat
        } else {
            0nat
        }
    }
}

/// How many of the messages are results for the call `id`.
pub open spec fn times_answered(items: Seq<MessageView>, id: Seq<char>) -> nat
    decreases items.len(),
{
    if items.len() == 0 {
        0
    } else {
        times_answered(items.drop_last(), id) + if is_result_of(items.last(), seq![id]) {
            1nat
        } else {
            0nat
        }
    }
}

/// Every call that is asked for is asked for once and answered once, and
/// every result answers such a call.
pub open spec fn paired(items: Seq<MessageView>) -> bool {
    forall|id: Seq<char>| #[trigger]
        times_asked(items, id) == times_answered(items, id) && times_asked(items, id) <= 1
}

/// Every call is asked for at most once, and every result is the only one
/// for a call that is asked for. Calls may still wait for their results.
pub open spec fn half_paired(items: Seq<MessageView>) -> bool {
    forall|id: Seq<char>| #[trigger]
        times_answered(items, id) <= times_asked(items, id) && times_asked(items, id) <= 1
}

proof fn lemma_times_first(items: Seq<MessageView>, id: Seq<char>)
    requires
        items.len() > 0,
    ensures
        times_asked(items, id) == times_asked(items.drop_first(), id) + if asks_for(items[0], id) {
            1nat
        } else {
            0nat
        },
        times_answered(items, id) == times_answered(items.drop_first(), id) + if is_result_of(
            items[0],
            seq![id],
        ) {
            1nat
        } else {
            0nat
        },
    decreases items.len(),
{
    if items.len() == 1 {
        assert(items.drop_last() =~= Seq::empty());
        assert(items.drop_first() =~= Seq::empty());
    } else {
        lemma_times_first(items.drop_last(), id);
        assert(items.drop_last().drop_first() =~= items.drop_first().drop_last());
    }
}

proof fn lemma_times_without_results(
    items: Seq<MessageView>,
    ids: Seq<Seq<char>>,
    id: Seq<char>,
)
    ensures
        times_asked(without_results(items, ids), id) == times_asked(items, id),
        times_answered(without_results(items, ids), id) == if ids.contains(id) {
            0
        } else {
            times_answered(items, id)
        },
    decreases items.len(),
{
    let keep = |m: MessageView| !is_result_of(m, ids);
    if items.len() == 0 {
        reveal(Seq::filter);
    } else {
        let head = items.drop_last();
        let m = items.last();
        lemma_times_without_results(head, ids, id);
        assert(items =~= head.push(m));
        lemma_filter_push(head, m, keep);
        let short = without_results(head, ids);
        assert(short.push(m).drop_last() =~= short);
        assert(seq![id][0] == id);
        if is_result_of(m, seq![id]) {
            assert(m->tool_call_id == id);
        }
    }
}

proof fn lemma_other_calls(calls: Seq<ToolCallView>, gone: Seq<char>, id: Seq<char>)
    ensures
        ids_of(other_calls(calls, gone)).contains(id) <==> (id != gone && ids_of(calls).contains(
            id,
        )),
{
    let keep = |c: ToolCallView| c.id != gone;
    let left = other_calls(calls, gone);
    broadcast use vstd::seq_lib::group_filter_ensures;

    if ids_of(left).contains(id) {
        let k = choose|k: int| 0 <= k < ids_of(left).len() && ids_of(left)[k] == id;
        assert(keep(left[k]));
        calls.lemma_filter_contains_rev(keep, left[k]);
        let j = choose|j: int| 0 <= j < calls.len() && calls[j] == left[k];
        assert(ids_of(calls)[j] == id);
    }
    if id != gone && ids_of(calls).contains(id) {
        let j = choose|j: int| 0 <= j < ids_of(calls).len() && ids_of(calls)[j] == id;
        assert(keep(calls[j]));
        assert(left.contains(calls[j]));
        let k = choose|k: int| 0 <= k < left.len() && left[k] == calls[j];
        assert(ids_of(left)[k] == id);
    }
}

proof fn lemma_times_without_call(items: Seq<MessageView>, gone: Seq<char>, id: Seq<char>)
    ensures
        times_asked(without_call(items, gone), id) == if id == gone {
            0
        } else {
            times_asked(items, id)
        },
        times_answered(without_call(items, gone), id) == times_answered(items, id),
    decreases items.len(),
{
    if items.len() > 0 {
        let head = items.drop_last();
        let m = items.last();
        lemma_times_without_call(head, gone, id);
        let short = without_call(head, gone);
        let left = strip_call(m, gone);
        assert(short.push(left).drop_last() =~= short);
        match m {
            MessageView::Assistant { tool_calls, .. } => {
                lemma_other_calls(tool_calls, gone, id);
                if only_asks_for(m, gone) && asks_for(m, id) && id != gone {
                    let k = choose|k: int|
                        0 <= k < ids_of(other_calls(tool_calls, gone)).len() && ids_of(
                            other_calls(tool_calls, gone),
                        )[k] == id;
                    assert(false);
                }
            },
            _ => {},
        }
    }
}

proof fn lemma_times_without_first(items: Seq<MessageView>, id: Seq<char>)
    requires
        half_paired(items),
    ensures
        times_asked(without_first(items), id) <= 1,
        times_answered(without_first(items), id) <= times_asked(without_first(items), id),
        times_asked(items, id) == times_answered(items, id) ==> times_asked(
            without_first(items),
            id,
        ) == times_answered(without_first(items), id),
{
    assert(times_answered(items, id) <= times_asked(items, id) && times_asked(items, id) <= 1);
    if items.len() > 0 {
        let rest = items.drop_first();
        lemma_times_first(items, id);
        assert(seq![id][0] == id);
        match items[0] {
            MessageView::Assistant { tool_calls, .. } => {
                lemma_times_without_results(rest, ids_of(tool_calls), id);
            },
            MessageView::ToolResult { tool_call_id, .. } => {
                lemma_times_without_call(rest, tool_call_id, id);
                if tool_call_id == id {
                    assert(seq![id].contains(id));
                } else if is_result_of(items[0], seq![id]) {
                    assert(false);
                }
            },
            _ => {},
        }
    }
}

/// Dropping the oldest message tears no pair of a call and its result
/// apart: where every call had its result and every result its call, it
/// stays so.
pub proof fn law_remove_first_keeps_pairs(items: Seq<MessageView>)
    requires
        paired(items),
    ensures
        paired(without_first(items)),
{
    assert forall|id: Seq<char>| #[trigger]
        times_asked(without_first(items), id) == times_answered(without_first(items), id)
            && times_asked(without_first(items), id) <= 1 by {
        assert(half_paired(items)) by {
            assert forall|i: Seq<char>| #[trigger]
                times_answered(items, i) <= times_asked(items, i) && times_asked(items, i) <= 1 by {
                assert(times_asked(items, i) == times_answered(items, i));
            }
        }
        assert(times_asked(items, id) == times_answered(items, id));
        lemma_times_without_first(items, id);
    }
}

/// Dropping the oldest message leaves no result behind whose call is gone,
/// also while calls still wait for their results.
pub proof fn law_remove_first_leaves_no_orphan(items: Seq<MessageView>)
    requires
        half_paired(items),
    ensures
        half_paired(without_first(items)),
{
    assert forall|id: Seq<char>| #[trigger]
        times_answered(without_first(items), id) <= times_asked(without_first(items), id)
            && times_asked(without_first(items), id) <= 1 by {
        lemma_times_without_first(items, id);
    }
}

/// Normalizing leaves no result whose call is gone, and no assistant message
/// without text, reasoning and calls; what it leaves was there before.
pub proof fn law_normalize_leaves_no_orphan(items: Seq<MessageView>, m: MessageView)
    requires
        normalized(items).contains(m),
    ensures
        items.contains(m),
        !is_orphan(normalized(items), m),
        !is_shell(m),
{
    let p = |m: MessageView| !is_orphan(items, m);
    let q = |m: MessageView| !is_shell(m);
    let mid = items.filter(p);
    broadcast use vstd::seq_lib::group_filter_ensures;

    let k = choose|k: int| 0 <= k < normalized(items).len() && normalized(items)[k] == m;
    assert(q(normalized(items)[k]));
    mid.lemma_filter_contains_rev(q, m);
    let l = choose|l: int| 0 <= l < mid.len() && mid[l] == m;
    assert(p(mid[l]));
    items.lemma_filter_contains_rev(p, m);
    match m {
        MessageView::ToolResult { tool_call_id, .. } => {
            let j = choose|j: int| 0 <= j < items.len() && #[trigger] asks_for(
                items[j],
                tool_call_id,
            );
            assert(p(items[j]));
            assert(mid.contains(items[j]));
            let i = choose|i: int| 0 <= i < mid.len() && mid[i] == items[j];
            assert(q(mid[i]));
            assert(normalized(items).contains(mid[i]));
            let n = choose|n: int| 0 <= n < normalized(items).len() && normalized(items)[n]
                == mid[i];
            assert(asks_for(normalized(items)[n], tool_call_id));
        },
        _ => {},
    }
}

proof fn lemma_filter_twice<A>(s: Seq<A>, p: spec_fn(A) -> bool, q: spec_fn(A) -> bool)
    ensures
        s.filter(p).filter(q) == s.filter(|x: A| p(x) && q(x)),
    decreases s.len(),
{
    let r = |x: A| p(x) && q(x);
    if s.len() == 0 {
        reveal(Seq::filter);
        assert(s.filter(p) =~= s);
        assert(s.filter(p).filter(q) =~= s.filter(r));
    } else {
        let head = s.drop_last();
        let x = s.last();
        lemma_filter_twice(head, p, q);
        assert(head.push(x) =~= s);
        lemma_filter_push(head, x, p);
        lemma_filter_push(head, x, r);
        lemma_filter_push(head.filter(p), x, q);
    }
}

proof fn lemma_filter_same<A>(s: Seq<A>, p: spec_fn(A) -> bool, q: spec_fn(A) -> bool)
    requires
        forall|x: A| #[trigger] p(x) == q(x),
    ensures
        s.filter(p) == s.filter(q),
    decreases s.len(),
{
    reveal(Seq::filter);
    if s.len() > 0 {
        lemma_filter_same(s.drop_last(), p, q);
    } else {
        assert(s.filter(p) =~= s.filter(q));
    }
}

/// Whether the message stays when a history is normalized: it is no result
/// of a call that nobody asks for, and no answer without any content.
pub open spec fn stays(items: Seq<MessageView>, m: MessageView) -> bool {
    match m {
        MessageView::ToolResult { tool_call_id, .. } => exists|i: int, k: int|
            0 <= i < items.len() && (items[i] matches MessageView::Assistant { tool_calls, .. } && 0
                <= k < tool_calls.len() && (#[trigger] calls_of(items[i])[k]).id == tool_call_id),
        MessageView::Assistant { content, reasoning, tool_calls } => content.len() > 0
            || tool_calls.len() > 0 || (reasoning is Some && reasoning->0.len() > 0),
        _ => true,
    }
}

/// The calls that a message asks for.
pub open spec fn calls_of(m: MessageView) -> Seq<ToolCallView> {
    match m {
        MessageView::Assistant { tool_calls, .. } => tool_calls,
        _ => Seq::empty(),
    }
}

/// Normalizing drops results without a call and empty answers, and nothing
/// else: all that stays, stays as it is and in its order.
pub proof fn law_normalize_drops_nothing_else(items: Seq<MessageView>)
    ensures
        normalized(items) == items.filter(|m: MessageView| stays(items, m)),
{
    let p = |m: MessageView| !is_orphan(items, m);
    let q = |m: MessageView| !is_shell(m);
    let r = |m: MessageView| stays(items, m);
    lemma_filter_twice(items, p, q);
    let both = |m: MessageView| p(m) && q(m);
    assert forall|m: MessageView| #[trigger] both(m) == r(m) by {
        if let MessageView::ToolResult { tool_call_id, .. } = m {
            if asked_for(items, tool_call_id) {
                let i = choose|i: int| 0 <= i < items.len() && #[trigger] asks_for(
                    items[i],
                    tool_call_id,
                );
                let ids = ids_of(calls_of(items[i]));
                let k = choose|k: int| 0 <= k < ids.len() && ids[k] == tool_call_id;
                assert(calls_of(items[i])[k].id == tool_call_id);
            }
            if r(m) {
                let (i, k) = choose|i: int, k: int|
                    0 <= i < items.len() && (items[i] matches MessageView::Assistant {
                        tool_calls,
                        ..
                    } && 0 <= k < tool_calls.len() && (#[trigger] calls_of(items[i])[k]).id
                        == tool_call_id);
                let ids = ids_of(calls_of(items[i]));
                assert(ids[k] == tool_call_id);
                assert(asks_for(items[i], tool_call_id));
            }
        }
    }
    lemma_filter_same(items, both, r);
}

/// The messages of the user and the rules.
pub open spec fn spoken_by_others(items: Seq<MessageView>) -> Seq<MessageView> {
    items.filter(|m: MessageView| m is User || m is System)
}

proof fn lemma_without_results_keeps(items: Seq<MessageView>, ids: Seq<Seq<char>>)
    ensures
        spoken_by_others(without_results(items, ids)) == spoken_by_others(items),
    decreases items.len(),
{
    let keep = |m: MessageView| !is_result_of(m, ids);
    let other = |m: MessageView| m is User || m is System;
    if items.len() == 0 {
        reveal(Seq::filter);
        assert(items.filter(keep) =~= items);
    } else {
        let head = items.drop_last();
        lemma_without_results_keeps(head, ids);
        assert(head.push(items.last()) =~= items);
        lemma_filter_push(head, items.last(), keep);
        lemma_filter_push(head, items.last(), other);
        lemma_filter_push(head.filter(keep), items.last(), other);
    }
}

proof fn lemma_without_call_keeps(items: Seq<MessageView>, id: Seq<char>)
    ensures
        spoken_by_others(without_call(items, id)) == spoken_by_others(items),
    decreases items.len(),
{
    let other = |m: MessageView| m is User || m is System;
    if items.len() > 0 {
        let head = items.drop_last();
        lemma_without_call_keeps(head, id);
        assert(head.push(items.last()) =~= items);
        lemma_filter_push(head, items.last(), other);
        lemma_filter_push(without_call(head, id), strip_call(items.last(), id), other);
    }
}

/// Dropping the oldest message drops it and its counterpart alone: what the
/// user said after it and the rules after it all stay, in order, and a
/// message without a counterpart goes alone.
pub proof fn law_remove_first_drops_no_more(items: Seq<MessageView>)
    requires
        items.len() > 0,
    ensures
        spoken_by_others(without_first(items)) == spoken_by_others(items.drop_first()),
        items[0] is User || items[0] is System ==> without_first(items) == items.drop_first(),
        items[0] matches MessageView::Assistant { tool_calls, .. } ==> without_first(items)
            == items.drop_first().filter(
            |m: MessageView| !(m matches MessageView::ToolResult { tool_call_id, .. } && ids_of(
                tool_calls,
            ).contains(tool_call_id)),
        ),
        without_first(Seq::empty()) == Seq::<MessageView>::empty(),
{
    let rest = items.drop_first();
    match items[0] {
        MessageView::Assistant { tool_calls, .. } => {
            let ids = ids_of(tool_calls);
            lemma_without_results_keeps(rest, ids);
            lemma_filter_same(
                rest,
                |m: MessageView| !is_result_of(m, ids),
                |m: MessageView|
                    !(m matches MessageView::ToolResult { tool_call_id, .. } && ids_of(
                        tool_calls,
                    ).contains(tool_call_id)),
            );
        },
        MessageView::ToolResult { tool_call_id, .. } => {
            lemma_without_call_keeps(rest, tool_call_id);
        },
        _ => {},
    }
}

/// What the model said: the texts of its messages that have any, in order.
pub open spec fn said_by_the_model(items: Seq<MessageView>) -> Seq<Seq<char>>
    decreases items.len(),
{
    if items.len() == 0 {
        Seq::empty()
    } else {
        let before = said_by_the_model(items.drop_last());
        match items.last() {
            MessageView::Assistant { content, .. } => if content.len() > 0 {
                before.push(content)
            } else {
                before
            },
            _ => before,
        }
    }
}

proof fn lemma_said_push(items: Seq<MessageView>, m: MessageView)
    ensures
        said_by_the_model(items.push(m)) == match m {
            MessageView::Assistant { content, .. } => if content.len() > 0 {
                said_by_the_model(items).push(content)
            } else {
                said_by_the_model(items)
            },
            _ => said_by_the_model(items),
        },
{
    assert(items.push(m).drop_last() =~= items);
}

proof fn lemma_said_without_results(items: Seq<MessageView>, ids: Seq<Seq<char>>)
    ensures
        said_by_the_model(without_results(items, ids)) == said_by_the_model(items),
    decreases items.len(),
{
    let keep = |m: MessageView| !is_result_of(m, ids);
    if items.len() == 0 {
        reveal(Seq::filter);
        assert(items.filter(keep) =~= items);
    } else {
        let head = items.drop_last();
        lemma_said_without_results(head, ids);
        assert(head.push(items.last()) =~= items);
        lemma_filter_push(head, items.last(), keep);
        lemma_said_push(head.filter(keep), items.last());
    }
}

proof fn lemma_said_without_call(items: Seq<MessageView>, id: Seq<char>)
    ensures
        said_by_the_model(without_call(items, id)) == said_by_the_model(items),
    decreases items.len(),
{
    if items.len() > 0 {
        let head = items.drop_last();
        lemma_said_without_call(head, id);
        lemma_said_push(without_call(head, id), strip_call(items.last(), id));
    }
}

/// Dropping the oldest message takes nothing away of what the model said
/// after it, also where the call that it answers is taken out.
pub proof fn law_remove_first_keeps_what_was_said(items: Seq<MessageView>)
    requires
        items.len() > 0,
    ensures
        said_by_the_model(without_first(items)) == said_by_the_model(items.drop_first()),
{
    let rest = items.drop_first();
    match items[0] {
        MessageView::Assistant { tool_calls, .. } => {
            lemma_said_without_results(rest, ids_of(tool_calls));
        },
        MessageView::ToolResult { tool_call_id, .. } => {
            lemma_said_without_call(rest, tool_call_id);
        },
        _ => {},
    }
}

} // verus!

//! Context compaction: a long history is replaced by the rules and user
//! messages that matter and a summary written by the model.
//!
//! - The threshold is 90% of the effective (95%) window, or the configured
//!   value where that is lower.
//! - The new history holds the system messages, the recent user messages
//!   (newest first within a budget, the last one truncated) and the summary;
//!   a group of tool calls that still waits for results is kept behind it.
//! - Earlier summaries are recognized and not retained.
//! - If the summarization request itself overflows, the oldest message (with
//!   its counterpart) is dropped and the request is made again.

use vstd::prelude::*;

use crate::answers::{goes_on, said};
use crate::context::{
    approx_token_count,
    text_tokens,
    ContextManager,
    ContextView,
};
use crate::error::{Error, ErrorView};
use crate::history::{drop_first, ids_of, lemma_filter_push, without_first};
use crate::message::{Message, MessageView};
use crate::protocol::{
    is_complete,
    is_plain,
    lemma_plain_is_complete,
    lemma_waiting_concat,
    next_waiting,
    waiting,
};
use crate::recovery::calls_in;
use crate::seqs::{group_views, opt_view, views};
use crate::text::{
    begins_with,
    byte_len,
    chars_of,
    copy_of,
    decimal,
    decimal_u64,
    fitting_head,
    fitting_tail,
    head_fit,
    join2,
    join3,
    lemma_fitting_head,
    lemma_fitting_tail,
    lemma_utf8_concat,
    starts_with,
    string_of,
    tail_fit,
    trim,
    trimmed,
    utf8_len,
};
use crate::traits::{ProviderEvent, ProviderEventView};

verus! {

broadcast use group_views;

/// Budget for retained recent user messages.
pub const COMPACT_USER_MESSAGE_MAX_TOKENS: i64 = 20_000;

/// Marker at the head of a summary message; stale summaries are recognized
/// by it.
pub const SUMMARY_PREFIX: &'static str = "Another model (or an earlier context window) started the task. The following is a summary of its thinking so far. Use this summary to continue the work:";

/// Instructions sent to the model to produce the handoff summary.
pub const SUMMARIZATION_PROMPT: &'static str = "You are tasked with summarizing the conversation so far, as a handoff for another language model that will continue the task with no other context.\n\nYour summary must be a faithful, dense record. Include:\n1. The user's current task or question, and any explicit constraints or preferences.\n2. What has been done so far: commands run, files read or modified, and their key results.\n3. Decisions made and why, including rejected alternatives.\n4. Errors encountered and how they were resolved (or why they remain open).\n5. Unfinished work and concrete next steps.\n\nWrite in plain text. Be concise but complete; do not omit task-critical details (file paths, commands, error messages, numbers).";

/// How often an empty summary is asked for again.
pub const MAX_RETRIES: u32 = 3;

/// Whether the message is a summary of an earlier compaction.
pub open spec fn is_summary(m: MessageView) -> bool {
    match m {
        MessageView::User { content } => begins_with(content, SUMMARY_PREFIX@),
        _ => false,
    }
}

/// True when the message is a compaction summary.
pub fn message_is_summary(msg: &Message) -> (r: bool)
    ensures
        r == is_summary(msg@),
{
    match msg {
        Message::User { content } => starts_with(content, SUMMARY_PREFIX),
        _ => false,
    }
}

/// The note between the kept ends of a truncated text.
pub open spec fn omission_note(omitted: nat) -> Seq<char> {
    "\n\u{2026}"@ + decimal(omitted) + " bytes truncated\u{2026}\n"@
}

/// The bytes of `text` outside its first `head` and last `tail` characters.
pub open spec fn omitted_bytes(text: Seq<char>, head: nat, tail: nat) -> nat {
    (utf8_len(text) - utf8_len(text.take(head as int)) - utf8_len(
        text.skip(text.len() - tail),
    )) as nat
}

/// The text itself where it fits into `budget` bytes; else as much of its
/// head as half the budget holds and as much of its tail as the other half
/// does, with a note between them.
pub open spec fn truncated(text: Seq<char>, budget: nat) -> Seq<char> {
    if utf8_len(text) <= budget {
        text
    } else {
        let head = fitting_head(text, (budget / 2) as int);
        let tail = fitting_tail(text, budget - budget / 2);
        text.take(head as int) + omission_note(omitted_bytes(text, head, tail)) + text.skip(
            text.len() - tail,
        )
    }
}

/// What is kept of a truncated text fits into the budget, and its head and
/// tail do not overlap.
pub proof fn law_truncation_keeps_the_budget(text: Seq<char>, budget: nat)
    requires
        utf8_len(text) > budget,
    ensures
        ({
            let head = fitting_head(text, (budget / 2) as int);
            let tail = fitting_tail(text, budget - budget / 2);
            &&& head + tail <= text.len()
            &&& utf8_len(text.take(head as int)) + utf8_len(text.skip(text.len() - tail)) <= budget
        }),
{
    let head = fitting_head(text, (budget / 2) as int);
    let tail = fitting_tail(text, budget - budget / 2);
    lemma_fitting_head(text, (budget / 2) as int);
    lemma_fitting_tail(text, budget - budget / 2);
    if head + tail > text.len() {
        let n = text.len() as int;
        assert(text =~= text.take(head as int) + text.skip(head as int));
        lemma_utf8_concat(text.take(head as int), text.skip(head as int));
        assert(text.skip(n - tail) =~= text.subrange(n - tail, head as int) + text.skip(
            head as int,
        ));
        lemma_utf8_concat(text.subrange(n - tail, head as int), text.skip(head as int));
    }
}

/// Truncates `text` to `budget` bytes, keeping its head and its tail around
/// a note that tells how much is missing.
pub fn truncate_middle_bytes(text: &str, budget: usize) -> (r: String)
    ensures
        r@ == truncated(text@, budget as nat),
{
    let total: usize = byte_len(text);
    if total <= budget {
        return copy_of(text);
    }
    proof {
        law_truncation_keeps_the_budget(text@, budget as nat);
    }
    let v = chars_of(text);
    let n: usize = v.len();
    let head: usize = head_fit(&v, budget / 2);
    let tail: usize = tail_fit(&v, budget - budget / 2);
    let first = string_of(&v, 0, head);
    let last = string_of(&v, n - tail, n);
    assert(first@ =~= text@.take(head as int));
    assert(last@ =~= text@.skip(n - tail));
    let omitted: usize = total - (byte_len(&first) + byte_len(&last));
    let note = join3("\n\u{2026}", &decimal_u64(omitted as u64), " bytes truncated\u{2026}\n");
    join3(&first, &note, &last)
}

/// Whether the message is a user message and no summary.
pub open spec fn is_retainable(m: MessageView) -> bool {
    m is User && !is_summary(m)
}

/// The user messages that are retained, oldest first: as many of the newest
/// as `budget` tokens hold, and of the next one as much as the rest of the
/// budget holds.
pub open spec fn retained(items: Seq<MessageView>, budget: int) -> Seq<MessageView>
    decreases items.len(),
{
    if items.len() == 0 {
        Seq::empty()
    } else if !is_retainable(items.last()) {
        retained(items.drop_last(), budget)
    } else {
        let content = items.last()->User_content;
        let tokens = text_tokens(content);
        if tokens <= budget {
            retained(items.drop_last(), budget - tokens).push(items.last())
        } else if budget > 0 {
            seq![MessageView::User { content: truncated(content, (budget * 4) as nat) }]
        } else {
            Seq::empty()
        }
    }
}

fn reversed(v: Vec<Message>) -> (r: Vec<Message>)
    ensures
        views(r@) == views(v@).reverse(),
{
    let mut v = v;
    let ghost all = views(v@);
    let mut r: Vec<Message> = Vec::new();
    let mut left: usize = v.len();
    while left > 0
        invariant
            left == v@.len(),
            left <= all.len(),
            views(v@) == all.take(left as int),
            views(r@) == all.skip(left as int).reverse(),
        decreases left,
    {
        let ghost before = v@;
        match v.pop() {
            Some(m) => {
                left = left - 1;
                assert(before.take(left as int) =~= v@);
                assert(views(before)[left as int] == m@);
                r.push(m);
                assert(all.take(left + 1).take(left as int) =~= all.take(left as int));
                assert(views(v@) =~= all.take(left as int));
                assert(views(r@) =~= all.skip(left as int).reverse());
            },
            None => {
                return r;
            },
        }
    }
    assert(all.skip(0) =~= all);
    r
}

/// The user messages that are retained within `budget` tokens.
pub fn retained_user_messages(history: &Vec<Message>, budget: i64) -> (r: Vec<Message>)
    ensures
        views(r@) == retained(views(history@), budget as int),
{
    let n: usize = history.len();
    let ghost all = views(history@);
    let mut newest_first: Vec<Message> = Vec::new();
    let mut remaining: i64 = budget;
    let mut i: usize = n;
    assert(all.take(n as int) =~= all);
    assert(retained(all, budget as int) + views(newest_first@).reverse() =~= retained(
        all,
        budget as int,
    ));
    while i > 0
        invariant
            n == history@.len(),
            all == views(history@),
            i <= n,
            retained(all, budget as int) == retained(all.take(i as int), remaining as int) + views(
                newest_first@,
            ).reverse(),
        decreases i,
    {
        i = i - 1;
        let ghost before = views(newest_first@);
        proof {
            assert(all.take(i + 1).drop_last() =~= all.take(i as int));
            assert(all.take(i + 1).last() == history@[i as int]@);
        }
        if let Message::User { content } = &history[i] {
            if !message_is_summary(&history[i]) {
                let tokens: i64 = approx_token_count(content);
                if tokens <= remaining {
                    newest_first.push(Message::User { content: copy_of(content) });
                    remaining = remaining - tokens;
                    assert(retained(all.take(i as int), remaining as int).push(all[i as int])
                        + before.reverse() =~= retained(all.take(i as int), remaining as int)
                        + before.push(all[i as int]).reverse());
                } else {
                    if remaining > 0 {
                        let size: usize = byte_len(content);
                        assert(remaining * 4 <= size);
                        let bytes: usize = remaining as usize * 4;
                        newest_first.push(
                            Message::User { content: truncate_middle_bytes(content, bytes) },
                        );
                        assert(retained(all.take(i + 1), remaining as int) =~= seq![
                            newest_first@.last()@,
                        ]);
                        assert(retained(all, budget as int) =~= views(newest_first@).reverse());
                    } else {
                        assert(retained(all, budget as int) =~= views(newest_first@).reverse());
                    }
                    return reversed(newest_first);
                }
            }
        }
    }
    assert(retained(all, budget as int) =~= views(newest_first@).reverse());
    reversed(newest_first)
}

/// The summary message for a summary text.
pub open spec fn summary_message(summary: Seq<char>) -> MessageView {
    MessageView::User { content: SUMMARY_PREFIX@ + "\n"@ + summary }
}

/// The retained user messages and the summary.
pub open spec fn compacted(items: Seq<MessageView>, summary: Seq<char>) -> Seq<MessageView> {
    retained(items, COMPACT_USER_MESSAGE_MAX_TOKENS as int).push(summary_message(summary))
}

/// Builds the compacted history: retained user messages first, the summary
/// last.
pub fn build_compacted_history(history: &Vec<Message>, summary_text: &str) -> (r: Vec<Message>)
    ensures
        views(r@) == compacted(views(history@), summary_text@),
{
    let mut r = retained_user_messages(history, COMPACT_USER_MESSAGE_MAX_TOKENS);
    r.push(Message::User { content: join3(SUMMARY_PREFIX, "\n", summary_text) });
    r
}

/// The system messages.
pub open spec fn rules_of(items: Seq<MessageView>) -> Seq<MessageView> {
    items.filter(|m: MessageView| m is System)
}

/// Where the group of calls at the end begins: the assistant message that
/// asks for calls and is followed by results alone.
pub open spec fn group_start(items: Seq<MessageView>) -> Option<int>
    decreases items.len(),
{
    if items.len() == 0 {
        None
    } else {
        match items.last() {
            MessageView::ToolResult { .. } => group_start(items.drop_last()),
            MessageView::Assistant { tool_calls, .. } => if tool_calls.len() > 0 {
                Some(items.len() - 1)
            } else {
                None
            },
            _ => None,
        }
    }
}

/// The group of calls at the end, where it has fewer results than calls.
pub open spec fn unfinished_group(items: Seq<MessageView>) -> Seq<MessageView> {
    match group_start(items) {
        Some(k) => if items.len() - k - 1 < calls_in(items[k]).len() {
            items.skip(k)
        } else {
            Seq::empty()
        },
        None => Seq::empty(),
    }
}

/// The history that compaction leaves.
pub open spec fn replacement(items: Seq<MessageView>, summary: Seq<char>) -> Seq<MessageView> {
    rules_of(items) + compacted(items, summary) + unfinished_group(items)
}

proof fn lemma_group_start(items: Seq<MessageView>)
    ensures
        match group_start(items) {
            Some(k) => 0 <= k < items.len(),
            None => true,
        },
    decreases items.len(),
{
    if items.len() > 0 {
        lemma_group_start(items.drop_last());
    }
}

fn rules(items: &Vec<Message>) -> (r: Vec<Message>)
    ensures
        views(r@) == rules_of(views(items@)),
{
    let ghost keep = |m: MessageView| m is System;
    let n: usize = items.len();
    let mut r: Vec<Message> = Vec::new();
    assert(views(items@).take(0).filter(keep) =~= Seq::empty()) by {
        reveal(Seq::filter);
    }
    for i in 0..n
        invariant
            n == items@.len(),
            keep == (|m: MessageView| m is System),
            views(r@) == views(items@).take(i as int).filter(keep),
    {
        proof {
            assert(views(items@).take(i + 1) =~= views(items@).take(i as int).push(
                items@[i as int]@,
            ));
            lemma_filter_push(views(items@).take(i as int), items@[i as int]@, keep);
        }
        if let Message::System { .. } = &items[i] {
            r.push(items[i].clone());
        }
    }
    assert(views(items@).take(n as int) =~= views(items@));
    r
}

fn last_group(items: &Vec<Message>) -> (r: Option<usize>)
    ensures
        match r {
            Some(k) => group_start(views(items@)) == Some(k as int) && k < items@.len(),
            None => group_start(views(items@)) is None,
        },
{
    let n: usize = items.len();
    let ghost all = views(items@);
    let mut i: usize = n;
    assert(all.take(n as int) =~= all);
    while i > 0
        invariant
            n == items@.len(),
            all == views(items@),
            i <= n,
            group_start(all) == group_start(all.take(i as int)),
        decreases i,
    {
        i = i - 1;
        proof {
            assert(all.take(i + 1).drop_last() =~= all.take(i as int));
            assert(all.take(i + 1).last() == items@[i as int]@);
        }
        match &items[i] {
            Message::ToolResult { .. } => {},
            Message::Assistant { tool_calls, .. } => {
                return if tool_calls.len() > 0 {
                    Some(i)
                } else {
                    None
                };
            },
            _ => {
                return None;
            },
        }
    }
    None
}

fn open_group(items: &Vec<Message>) -> (r: Vec<Message>)
    ensures
        views(r@) == unfinished_group(views(items@)),
{
    let mut r: Vec<Message> = Vec::new();
    let n: usize = items.len();
    if let Some(k) = last_group(items) {
        let asked: usize = match &items[k] {
            Message::Assistant { tool_calls, .. } => tool_calls.len(),
            _ => 0,
        };
        if n - k - 1 < asked {
            for i in k..n
                invariant
                    n == items@.len(),
                    k < n,
                    views(r@) == views(items@).subrange(k as int, i as int),
            {
                r.push(items[i].clone());
                assert(views(r@) =~= views(items@).subrange(k as int, i + 1));
            }
            assert(views(r@) =~= views(items@).skip(k as int));
        }
    }
    r
}

/// The history that compaction leaves.
pub fn replacement_history(items: &Vec<Message>, summary: &str) -> (r: Vec<Message>)
    ensures
        views(r@) == replacement(views(items@), summary@),
{
    let mut r = rules(items);
    let mut middle = build_compacted_history(items, summary);
    let mut group = open_group(items);
    r.append(&mut middle);
    r.append(&mut group);
    r
}

/// Makes a summarization input that was too long shorter: drops its oldest
/// message with its counterpart. Fails where only the prompt is left.
pub fn shrink_for_overflow(msgs: &mut Vec<Message>) -> (r: bool)
    ensures
        r == (old(msgs)@.len() > 1),
        views(final(msgs)@) == if r {
            without_first(views(old(msgs)@))
        } else {
            views(old(msgs)@)
        },
{
    if msgs.len() > 1 {
        let _ = drop_first(msgs);
        true
    } else {
        false
    }
}

/// One compaction under way: the summarization request as it stands, and
/// what its answer has brought so far.
#[derive(Debug)]
pub struct Compaction {
    /// The messages of the request, the prompt last.
    pub input: Vec<Message>,
    pub summary: String,
    /// How often an empty summary was asked for again.
    pub retries: u32,
    pub tokens_before: i64,
    /// The first error that said that the request does not fit.
    pub refused: Option<Error>,
}

/// What a [`Compaction`] stands for.
#[verifier::ext_equal]
pub struct CompactionView {
    pub input: Seq<MessageView>,
    pub summary: Seq<char>,
    pub retries: u32,
    pub tokens_before: i64,
    pub refused: Option<ErrorView>,
}

impl View for Compaction {
    type V = CompactionView;

    open spec fn view(&self) -> CompactionView {
        CompactionView {
            input: views(self.input@),
            summary: self.summary@,
            retries: self.retries,
            tokens_before: self.tokens_before,
            refused: opt_view(self.refused),
        }
    }
}

/// What a compaction needs next.
#[derive(Debug)]
pub enum CompactStep {
    /// The answer goes on.
    More,
    /// The request has to be sent.
    Ask,
    /// The summary is there.
    Done,
    Failed(Error),
}

/// What a [`CompactStep`] stands for.
#[verifier::ext_equal]
pub enum CompactStepView {
    More,
    Ask,
    Done,
    Failed(ErrorView),
}

impl View for CompactStep {
    type V = CompactStepView;

    open spec fn view(&self) -> CompactStepView {
        match self {
            CompactStep::More => CompactStepView::More,
            CompactStep::Ask => CompactStepView::Ask,
            CompactStep::Done => CompactStepView::Done,
            CompactStep::Failed(e) => CompactStepView::Failed(e@),
        }
    }
}

impl CompactionView {
    /// A compaction of the given context.
    pub open spec fn of(cx: ContextView) -> CompactionView {
        CompactionView {
            input: cx.items.push(MessageView::User { content: SUMMARIZATION_PROMPT@ }),
            summary: Seq::empty(),
            retries: 0,
            tokens_before: cx.accounting.used(),
            refused: None,
        }
    }

    /// What follows when nobody receives the events any more: a compaction
    /// that has only just been announced ends; one that has asked the model
    /// already goes on.
    pub open spec fn unheard(self) -> (CompactionView, CompactStepView) {
        if self.retries == 0 && self.refused is None {
            (self, CompactStepView::Failed(ErrorView::ChannelClosed("channel closed"@)))
        } else {
            (self, CompactStepView::Ask)
        }
    }

    /// What follows when the request was not answered but failed: where it
    /// does not fit, it is made shorter, and the first such error counts
    /// where it cannot be; any other error ends the compaction.
    pub open spec fn request_failed(self, e: ErrorView) -> (CompactionView, CompactStepView) {
        if e is ContextWindowExceeded {
            let first = match self.refused {
                Some(r) => r,
                None => e,
            };
            let noted = CompactionView { refused: Some(first), ..self };
            if self.input.len() > 1 {
                (
                    CompactionView {
                        input: without_first(self.input),
                        summary: Seq::empty(),
                        retries: 0,
                        ..noted
                    },
                    CompactStepView::Ask,
                )
            } else {
                (noted, CompactStepView::Failed(first))
            }
        } else {
            (self, CompactStepView::Failed(e))
        }
    }

    /// What follows one event of the answer: text makes up the summary, an
    /// error ends the compaction, and everything else is ignored.
    pub open spec fn event(self, ev: ProviderEventView) -> (CompactionView, CompactStepView) {
        match ev {
            ProviderEventView::MessageDelta { delta } => (
                CompactionView { summary: self.summary + delta, ..self },
                CompactStepView::More,
            ),
            ProviderEventView::ProviderError { message } => (
                self,
                CompactStepView::Failed(
                    ErrorView::Provider("compaction summarization failed: "@ + message),
                ),
            ),
            ProviderEventView::Done => self.answer_ended(),
            _ => (self, CompactStepView::More),
        }
    }

    /// What follows the end of the answer: the summary stands, or it is
    /// empty and is asked for again, a bounded number of times.
    pub open spec fn answer_ended(self) -> (CompactionView, CompactStepView) {
        if self.summary.len() > 0 {
            (self, CompactStepView::Done)
        } else if self.retries < MAX_RETRIES {
            (
                CompactionView { retries: (self.retries + 1) as u32, ..self },
                CompactStepView::Ask,
            )
        } else {
            (
                self,
                CompactStepView::Failed(ErrorView::Provider("compaction: empty summary"@)),
            )
        }
    }

    /// The context that the compaction leaves.
    pub open spec fn outcome(self, cx: ContextView) -> ContextView {
        cx.replaced(replacement(cx.items, trimmed(self.summary)))
    }
}

impl Compaction {
    /// Starts the compaction of a context: the summarization prompt goes
    /// behind a copy of its history.
    pub fn begin(cm: &ContextManager) -> (r: Compaction)
        ensures
            r@ == CompactionView::of(cm@),
    {
        let mut input = crate::message::copy_messages(cm.items());
        input.push(Message::user(SUMMARIZATION_PROMPT));
        let r = Compaction {
            input,
            summary: String::new(),
            retries: 0,
            tokens_before: cm.token_status().0,
            refused: None,
        };
        assert(r@.summary =~= Seq::empty());
        r
    }

    /// Nobody receives the events any more, and the request is not sent yet.
    pub fn on_unheard(&mut self) -> (r: CompactStep)
        ensures
            (final(self)@, r@) == old(self)@.unheard(),
    {
        if self.retries == 0 && self.refused.is_none() {
            CompactStep::Failed(Error::ChannelClosed(copy_of("channel closed")))
        } else {
            CompactStep::Ask
        }
    }

    /// The summarization request failed.
    pub fn on_request_failed(&mut self, e: Error) -> (r: CompactStep)
        ensures
            (final(self)@, r@) == old(self)@.request_failed(e@),
    {
        if e.is_context_window_exceeded() {
            let first = match &self.refused {
                Some(r) => r.clone(),
                None => e,
            };
            self.refused = Some(first.clone());
            if shrink_for_overflow(&mut self.input) {
                self.summary = String::new();
                self.retries = 0;
                assert(self.summary@ =~= Seq::empty());
                CompactStep::Ask
            } else {
                CompactStep::Failed(first)
            }
        } else {
            CompactStep::Failed(e)
        }
    }

    /// One event of the answer arrived.
    pub fn on_event(&mut self, ev: ProviderEvent) -> (r: CompactStep)
        ensures
            (final(self)@, r@) == old(self)@.event(ev@),
    {
        match ev {
            ProviderEvent::MessageDelta { delta } => {
                self.summary = join2(&self.summary, &delta);
                CompactStep::More
            },
            ProviderEvent::ProviderError { message } => CompactStep::Failed(
                Error::Provider(join2("compaction summarization failed: ", &message)),
            ),
            ProviderEvent::Done => self.on_answer_ended(),
            _ => CompactStep::More,
        }
    }

    /// The answer ended.
    pub fn on_answer_ended(&mut self) -> (r: CompactStep)
        ensures
            (final(self)@, r@) == old(self)@.answer_ended(),
    {
        if !self.summary.as_str().is_empty() {
            CompactStep::Done
        } else if self.retries < MAX_RETRIES {
            self.retries = self.retries + 1;
            CompactStep::Ask
        } else {
            CompactStep::Failed(Error::Provider(copy_of("compaction: empty summary")))
        }
    }

    /// Replaces the history by what the compaction leaves, and returns the
    /// tokens before and after.
    pub fn complete(&self, cm: &mut ContextManager) -> (r: (i64, i64))
        ensures
            final(cm)@ == self@.outcome(old(cm)@),
            final(cm).history.rewrites() == old(cm).history.rewrites().wrapping_add(1),
            r.0 == self@.tokens_before,
            r.1 == final(cm)@.accounting.local_estimate,
    {
        let summary = trim(&self.summary);
        let items = replacement_history(cm.items(), &summary);
        cm.replace(items);
        (self.tokens_before, cm.accounting.local_estimate)
    }
}

proof fn lemma_retained_are_users(items: Seq<MessageView>, budget: int)
    ensures
        forall|i: int|
            0 <= i < retained(items, budget).len() ==> #[trigger] retained(items, budget)[i]
                is User,
    decreases items.len(),
{
    if items.len() > 0 && is_retainable(items.last()) {
        lemma_retained_are_users(
            items.drop_last(),
            budget - text_tokens(items.last()->User_content),
        );
    } else if items.len() > 0 {
        lemma_retained_are_users(items.drop_last(), budget);
    }
}

/// A text that does not begin with the summary marker still does not when
/// it is truncated.
proof fn lemma_truncated_is_no_summary(text: Seq<char>, budget: nat)
    requires
        !begins_with(text, SUMMARY_PREFIX@),
    ensures
        !begins_with(truncated(text, budget), SUMMARY_PREFIX@),
{
    let p = SUMMARY_PREFIX@;
    if utf8_len(text) > budget {
        law_truncation_keeps_the_budget(text, budget);
        let head = fitting_head(text, (budget / 2) as int) as int;
        let t = truncated(text, budget);
        if begins_with(t, p) {
            if head >= p.len() {
                assert(t.take(p.len() as int) =~= text.take(p.len() as int));
                assert(false);
            } else {
                reveal_strlit(
                    "Another model (or an earlier context window) started the task. The following is a summary of its thinking so far. Use this summary to continue the work:",
                );
                reveal_strlit("\n\u{2026}");
                assert(t[head] == '\n');
                assert(t.take(p.len() as int)[head] == p[head]);
                assert(forall|i: int| 0 <= i < p.len() ==> #[trigger] p[i] != '\n');
            }
        }
    }
}

/// Stale summaries are not carried along: no retained message is one.
pub proof fn law_retained_are_no_summaries(items: Seq<MessageView>, budget: int)
    ensures
        forall|i: int|
            0 <= i < retained(items, budget).len() ==> !is_summary(
                #[trigger] retained(items, budget)[i],
            ),
    decreases items.len(),
{
    if items.len() > 0 {
        if !is_retainable(items.last()) {
            law_retained_are_no_summaries(items.drop_last(), budget);
            assert(retained(items, budget) == retained(items.drop_last(), budget));
        } else {
            let content = items.last()->User_content;
            let tokens = text_tokens(content);
            if tokens <= budget {
                law_retained_are_no_summaries(items.drop_last(), budget - tokens);
                let older = retained(items.drop_last(), budget - tokens);
                assert forall|i: int| 0 <= i < retained(items, budget).len() implies !is_summary(
                    #[trigger] retained(items, budget)[i],
                ) by {
                    if i < older.len() {
                        assert(!is_summary(older[i]));
                    }
                }
            } else if budget > 0 {
                lemma_truncated_is_no_summary(content, (budget * 4) as nat);
                let cut = MessageView::User { content: truncated(content, (budget * 4) as nat) };
                assert(!is_summary(cut));
                assert(retained(items, budget) =~= seq![cut]);
            } else {
                assert(retained(items, budget).len() == 0);
            }
        }
    } else {
        assert(retained(items, budget).len() == 0);
    }
}

/// The tokens of the user messages.
pub open spec fn user_tokens(items: Seq<MessageView>) -> int
    decreases items.len(),
{
    if items.len() == 0 {
        0
    } else {
        user_tokens(items.drop_last()) + match items.last() {
            MessageView::User { content } => text_tokens(content),
            _ => 0,
        }
    }
}

/// The retained messages keep the budget: all of them but the oldest, which
/// alone may be truncated, fit into it.
pub proof fn law_retained_keep_the_budget(items: Seq<MessageView>, budget: int)
    requires
        budget >= 0,
    ensures
        retained(items, budget).len() > 0 ==> user_tokens(retained(items, budget).drop_first())
            <= budget,
    decreases items.len(),
{
    if items.len() > 0 {
        if !is_retainable(items.last()) {
            law_retained_keep_the_budget(items.drop_last(), budget);
        } else {
            let content = items.last()->User_content;
            let tokens = text_tokens(content);
            let kept = retained(items, budget);
            if tokens <= budget {
                law_retained_keep_the_budget(items.drop_last(), budget - tokens);
                let older = retained(items.drop_last(), budget - tokens);
                if older.len() > 0 {
                    assert(kept.drop_first() =~= older.drop_first().push(items.last()));
                    assert(kept.drop_first().drop_last() =~= older.drop_first());
                } else {
                    assert(kept.drop_first() =~= Seq::empty());
                }
            } else if budget > 0 {
                assert(kept.drop_first() =~= Seq::empty());
            }
        }
    }
}

proof fn lemma_rules_are_rules(items: Seq<MessageView>)
    ensures
        forall|i: int|
            0 <= i < rules_of(items).len() ==> #[trigger] rules_of(items)[i] is System,
{
    broadcast use vstd::seq_lib::group_filter_ensures;

    let keep = |m: MessageView| m is System;
    assert forall|i: int| 0 <= i < rules_of(items).len() implies #[trigger] rules_of(items)[i]
        is System by {
        assert(keep(items.filter(keep)[i]));
    }
}

proof fn lemma_group_holds_no_rules(items: Seq<MessageView>)
    ensures
        match group_start(items) {
            Some(k) => forall|i: int| k <= i < items.len() ==> !(#[trigger] items[i] is System)
                && !(items[i] is User),
            None => true,
        },
    decreases items.len(),
{
    if items.len() > 0 {
        lemma_group_start(items);
        if items.last() is ToolResult {
            lemma_group_holds_no_rules(items.drop_last());
            lemma_group_start(items.drop_last());
            if let Some(k) = group_start(items) {
                assert forall|i: int| k <= i < items.len() implies !(#[trigger] items[i] is System)
                    && !(items[i] is User) by {
                    if i < items.len() - 1 {
                        assert(items.drop_last()[i] == items[i]);
                    }
                }
            }
        }
    }
}

/// The rules are pinned: compaction keeps every system message, in order,
/// and puts them first.
pub proof fn law_compaction_keeps_the_rules(items: Seq<MessageView>, summary: Seq<char>)
    ensures
        rules_of(replacement(items, summary)) == rules_of(items),
        replacement(items, summary).take(rules_of(items).len() as int) == rules_of(items),
{
    let keep = |m: MessageView| m is System;
    let rules = rules_of(items);
    let middle = compacted(items, summary);
    let group = unfinished_group(items);
    lemma_rules_are_rules(items);
    lemma_retained_are_users(items, COMPACT_USER_MESSAGE_MAX_TOKENS as int);
    lemma_group_holds_no_rules(items);
    lemma_group_start(items);
    lemma_filter_all(rules, keep);
    assert forall|i: int| 0 <= i < middle.len() implies !keep(#[trigger] middle[i]) by {
        let r = retained(items, COMPACT_USER_MESSAGE_MAX_TOKENS as int);
        if i < r.len() {
            assert(r[i] is User);
        }
    }
    lemma_filter_none(middle, keep);
    assert forall|i: int| 0 <= i < group.len() implies !keep(#[trigger] group[i]) by {
        let k = group_start(items)->0;
        assert(group[i] == items[k + i]);
    }
    lemma_filter_none(group, keep);
    Seq::filter_distributes_over_add(rules + middle, group, keep);
    Seq::filter_distributes_over_add(rules, middle, keep);
    assert(rules + Seq::<MessageView>::empty() + Seq::<MessageView>::empty() =~= rules);
    assert(replacement(items, summary).take(rules.len() as int) =~= rules);
}

proof fn lemma_filter_all<A>(s: Seq<A>, p: spec_fn(A) -> bool)
    requires
        forall|i: int| 0 <= i < s.len() ==> p(#[trigger] s[i]),
    ensures
        s.filter(p) == s,
    decreases s.len(),
{
    reveal(Seq::filter);
    if s.len() > 0 {
        lemma_filter_all(s.drop_last(), p);
        assert(p(s[s.len() - 1]));
        assert(s.drop_last().push(s.last()) =~= s);
    }
}

proof fn lemma_filter_none<A>(s: Seq<A>, p: spec_fn(A) -> bool)
    requires
        forall|i: int| 0 <= i < s.len() ==> !p(#[trigger] s[i]),
    ensures
        s.filter(p) == Seq::<A>::empty(),
    decreases s.len(),
{
    reveal(Seq::filter);
    if s.len() > 0 {
        lemma_filter_none(s.drop_last(), p);
        assert(!p(s[s.len() - 1]));
    } else {
        assert(s.filter(p) =~= Seq::empty());
    }
}

/// After compaction the history holds exactly one summary, the new one,
/// behind the rules and the retained messages.
pub proof fn law_compaction_leaves_one_summary(items: Seq<MessageView>, summary: Seq<char>, i: int)
    requires
        0 <= i < replacement(items, summary).len(),
    ensures
        is_summary(replacement(items, summary)[i]) <==> i == rules_of(items).len() + retained(
            items,
            COMPACT_USER_MESSAGE_MAX_TOKENS as int,
        ).len(),
{
    let r = retained(items, COMPACT_USER_MESSAGE_MAX_TOKENS as int);
    let m = rules_of(items).len();
    lemma_rules_are_rules(items);
    law_retained_are_no_summaries(items, COMPACT_USER_MESSAGE_MAX_TOKENS as int);
    lemma_group_holds_no_rules(items);
    lemma_group_start(items);
    let all = replacement(items, summary);
    if i < m {
        assert(all[i] == rules_of(items)[i]);
    } else if i < m + r.len() {
        assert(all[i] == r[i - m]);
    } else if i == m + r.len() {
        let content = SUMMARY_PREFIX@ + "\n"@ + summary;
        assert(content.take(SUMMARY_PREFIX@.len() as int) =~= SUMMARY_PREFIX@);
    } else {
        let k = group_start(items)->0;
        assert(all[i] == items[k + (i - m - r.len() - 1)]);
    }
}

proof fn lemma_waiting_group(items: Seq<MessageView>)
    requires
        waiting(items) is Some,
    ensures
        is_complete(items) ==> unfinished_group(items).len() == 0,
        !is_complete(items) ==> {
            &&& group_start(items) matches Some(k) && {
                &&& 0 <= k < items.len()
                &&& is_complete(items.take(k))
                &&& items.len() - k - 1 == calls_in(items[k]).len() - waiting(items)->0.len()
            }
            &&& waiting(items)->0.len() > 0
        },
    decreases items.len(),
{
    if items.len() == 0 {
    } else {
        let head = items.drop_last();
        let m = items.last();
        lemma_waiting_group(head);
        lemma_group_start(head);
        assert(waiting(head) is Some);
        let before = waiting(head)->0;
        assert(waiting(items) == next_waiting(before, m));
        assert(head == items.take(items.len() - 1));
        match m {
            MessageView::ToolResult { .. } => {
                assert(!is_complete(head));
                let k = group_start(head)->0;
                assert(items.take(k) =~= head.take(k));
                assert(items[k] == head[k]);
                if is_complete(items) {
                    assert(before.len() == 1);
                } else if waiting(items)->0.len() == 0 {
                    assert(waiting(items)->0 =~= Seq::empty());
                }
            },
            MessageView::Assistant { tool_calls, .. } => {
                assert(before =~= Seq::empty());
                if tool_calls.len() == 0 {
                    assert(waiting(items)->0 =~= Seq::empty());
                } else {
                    if is_complete(items) {
                        assert(ids_of(tool_calls).len() == 0);
                    }
                }
            },
            _ => {
                assert(before =~= Seq::empty());
            },
        }
    }
}

/// Compaction keeps the order that providers demand: the same calls wait
/// for their results before and after it.
pub proof fn law_compaction_keeps_the_order(items: Seq<MessageView>, summary: Seq<char>)
    requires
        waiting(items) is Some,
    ensures
        waiting(replacement(items, summary)) == waiting(items),
{
    let lead = rules_of(items) + compacted(items, summary);
    let group = unfinished_group(items);
    lemma_rules_are_rules(items);
    lemma_retained_are_users(items, COMPACT_USER_MESSAGE_MAX_TOKENS as int);
    assert forall|i: int| 0 <= i < lead.len() implies is_plain(#[trigger] lead[i]) by {
        let m = rules_of(items).len();
        let r = retained(items, COMPACT_USER_MESSAGE_MAX_TOKENS as int);
        if i < m {
            assert(rules_of(items)[i] is System);
        } else if i < m + r.len() {
            assert(r[i - m] is User);
        }
    }
    lemma_plain_is_complete(lead);
    lemma_waiting_group(items);
    if is_complete(items) {
        assert(replacement(items, summary) =~= lead);
    } else {
        let k = group_start(items)->0;
        lemma_waiting_concat(lead, items.take(k), group);
        assert(items.take(k) + items.skip(k) =~= items);
    }
}

/// Shortening an overflowing request never removes the prompt at its end,
/// and always makes progress.
pub proof fn law_shrinking_keeps_the_prompt(input: Seq<MessageView>)
    requires
        input.len() > 1,
        input.last() is User,
    ensures
        0 < without_first(input).len() < input.len(),
        without_first(input).last() == input.last(),
{
    let rest = input.drop_first();
    assert(rest.last() == input.last());
    assert(rest =~= rest.drop_last().push(rest.last()));
    match input[0] {
        MessageView::Assistant { tool_calls, .. } => {
            let keep = |m: MessageView| !crate::history::is_result_of(m, ids_of(tool_calls));
            lemma_filter_push(rest.drop_last(), rest.last(), keep);
            rest.lemma_filter_len(keep);
        },
        MessageView::ToolResult { tool_call_id, .. } => {
            lemma_without_call_len(rest, tool_call_id);
        },
        _ => {},
    }
}

proof fn lemma_without_call_len(items: Seq<MessageView>, id: Seq<char>)
    ensures
        crate::history::without_call(items, id).len() <= items.len(),
    decreases items.len(),
{
    if items.len() > 0 {
        lemma_without_call_len(items.drop_last(), id);
    }
}

/// A compaction asks the model a bounded number of times: before each new
/// request the input gets shorter, or one of the retries is used up.
pub proof fn law_compaction_asks_a_bounded_number_of_times(
    c: CompactionView,
    e: ErrorView,
    ev: ProviderEventView,
)
    requires
        c.input.len() > 0,
        c.input.last() is User,
        c.retries <= MAX_RETRIES,
    ensures
        c.request_failed(e).1 is Ask ==> 0 < c.request_failed(e).0.input.len() < c.input.len(),
        c.event(ev).1 is Ask ==> c.event(ev).0.input == c.input && c.retries < c.event(
            ev,
        ).0.retries <= MAX_RETRIES,
        c.answer_ended().1 is Ask ==> c.answer_ended().0.input == c.input && c.retries
            < c.answer_ended().0.retries <= MAX_RETRIES,
{
    if c.input.len() > 1 {
        law_shrinking_keeps_the_prompt(c.input);
    }
}

/// What the events of an answer make of a compaction, up to the first that
/// ends the answer.
pub open spec fn reading(c: CompactionView, events: Seq<ProviderEventView>) -> (
    CompactionView,
    CompactStepView,
)
    decreases events.len(),
{
    if events.len() == 0 {
        (c, CompactStepView::More)
    } else {
        let before = reading(c, events.drop_last());
        if before.1 is More {
            before.0.event(events.last())
        } else {
            before
        }
    }
}

proof fn lemma_reading(c: CompactionView, events: Seq<ProviderEventView>)
    requires
        goes_on(events),
    ensures
        reading(c, events) == (
            CompactionView { summary: c.summary + said(events), ..c },
            CompactStepView::More,
        ),
    decreases events.len(),
{
    if events.len() == 0 {
        assert(c.summary + said(events) =~= c.summary);
    } else {
        let head = events.drop_last();
        assert forall|i: int| 0 <= i < head.len() implies !(#[trigger] head[i] is Done) && !(
        head[i] is ProviderError) by {
            assert(head[i] == events[i]);
        }
        lemma_reading(c, head);
        assert(events[events.len() - 1] == events.last());
        if let ProviderEventView::MessageDelta { delta } = events.last() {
            assert(c.summary + said(head) + delta =~= c.summary + (said(head) + delta));
        }
    }
}

/// The summary is all that was streamed: where the answer to a request ends
/// normally, whether by an event or because the stream is over, the deltas
/// of its text, one after another, make up the summary that goes into the
/// new history. An answer without text gives none.
pub proof fn law_summary_is_what_was_streamed(
    c: CompactionView,
    events: Seq<ProviderEventView>,
    cx: ContextView,
)
    requires
        c.summary.len() == 0,
        goes_on(events),
    ensures
        ({
            let whole = reading(c, events.push(ProviderEventView::Done));
            &&& whole.1 is Done <==> said(events).len() > 0
            &&& whole.1 is Done ==> {
                &&& whole.0.summary == said(events)
                &&& whole.0.outcome(cx).items == replacement(cx.items, trimmed(said(events)))
            }
            &&& reading(c, events).1 is More
            &&& reading(c, events).0.answer_ended() == whole
        }),
{
    lemma_reading(c, events);
    let all = events.push(ProviderEventView::Done);
    assert(all.drop_last() =~= events);
    assert(c.summary + said(events) =~= said(events));
}

/// An error in the middle of the answer ends the compaction, whatever was
/// streamed before, and nothing of the history is replaced.
pub proof fn law_broken_summary_fails(
    c: CompactionView,
    events: Seq<ProviderEventView>,
    message: Seq<char>,
)
    requires
        goes_on(events),
    ensures
        reading(c, events.push(ProviderEventView::ProviderError { message })).1
            == CompactStepView::Failed(
            ErrorView::Provider("compaction summarization failed: "@ + message),
        ),
{
    lemma_reading(c, events);
    let all = events.push(ProviderEventView::ProviderError { message });
    assert(all.drop_last() =~= events);
}

/// Each request starts the summary anew: whenever the model is to be asked,
/// nothing of an earlier answer is left.
pub proof fn law_each_request_starts_anew(
    cx: ContextView,
    c: CompactionView,
    e: ErrorView,
    events: Seq<ProviderEventView>,
)
    requires
        c.summary.len() == 0,
    ensures
        CompactionView::of(cx).summary.len() == 0,
        c.unheard().1 is Ask ==> c.unheard().0.summary.len() == 0,
        c.request_failed(e).1 is Ask ==> c.request_failed(e).0.summary.len() == 0,
        reading(c, events).1 is Ask ==> reading(c, events).0.summary.len() == 0,
        reading(c, events).0.answer_ended().1 is Ask ==> reading(
            c,
            events,
        ).0.answer_ended().0.summary.len() == 0,
    decreases events.len(),
{
    if events.len() > 0 {
        law_each_request_starts_anew(cx, c, e, events.drop_last());
    }
}

/// The model is asked about the whole history, message by message, and the
/// instructions come last.
pub proof fn law_summary_is_asked_of_the_whole_history(cx: ContextView)
    ensures
        CompactionView::of(cx).input.len() == cx.items.len() + 1,
        forall|i: int|
            0 <= i < cx.items.len() ==> #[trigger] CompactionView::of(cx).input[i] == cx.items[i],
        CompactionView::of(cx).input.last() == (MessageView::User {
            content: SUMMARIZATION_PROMPT@,
        }),
        CompactionView::of(cx).tokens_before == cx.accounting.used(),
{
}

/// The summary reaches the next request: right behind the rules and the
/// retained messages stands a user message that begins with the marker, and
/// what follows the marker's line is the summary, all of it.
pub proof fn law_summary_is_handed_over(items: Seq<MessageView>, summary: Seq<char>)
    ensures
        ({
            let at = rules_of(items).len() + retained(
                items,
                COMPACT_USER_MESSAGE_MAX_TOKENS as int,
            ).len();
            let n = SUMMARY_PREFIX@.len();
            &&& at < replacement(items, summary).len()
            &&& replacement(items, summary)[at as int] matches MessageView::User { content } && {
                &&& content.len() == n + 1 + summary.len()
                &&& content.take(n as int) == SUMMARY_PREFIX@
                &&& content[n as int] == '\n'
                &&& content.skip(n as int + 1) == summary
            }
        }),
{
    reveal_strlit("\n");
    let n = SUMMARY_PREFIX@.len();
    let content = SUMMARY_PREFIX@ + "\n"@ + summary;
    assert(content.take(n as int) =~= SUMMARY_PREFIX@);
    assert(content.skip(n as int + 1) =~= summary);
}

/// The user messages that compaction may retain: those that are no
/// summaries, in order.
pub open spec fn retainable(items: Seq<MessageView>) -> Seq<MessageView> {
    items.filter(|m: MessageView| m is User && !is_summary(m))
}

proof fn lemma_retainable_last(items: Seq<MessageView>)
    requires
        items.len() > 0,
    ensures
        is_retainable(items.last()) ==> retainable(items) == retainable(items.drop_last()).push(
            items.last(),
        ),
        !is_retainable(items.last()) ==> retainable(items) == retainable(items.drop_last()),
{
    reveal(Seq::filter);
}

/// The newest user messages are retained, unchanged and in order: all of
/// them where the budget holds them, and else none that the budget holds is
/// missing. Only the oldest of them may be cut, to what is left of the
/// budget.
pub proof fn law_newest_user_messages_are_retained(items: Seq<MessageView>, budget: int)
    requires
        budget >= 0,
    ensures
        ({
            let all = retainable(items);
            let kept = retained(items, budget);
            let k = all.len() - kept.len();
            &&& k >= 0
            &&& user_tokens(all) <= budget ==> kept == all
            &&& forall|i: int| 0 < i < kept.len() ==> #[trigger] kept[i] == all[k + i]
            &&& kept.len() > 0 ==> {
                let left = budget - user_tokens(all.skip(k + 1));
                ||| kept[0] == all[k] && text_tokens(all[k]->User_content) <= left && (k > 0
                    ==> text_tokens(all[k]->User_content) == left)
                ||| left > 0 && text_tokens(all[k]->User_content) > left && kept[0] == (
                MessageView::User { content: truncated(all[k]->User_content, (left * 4) as nat) })
            }
            &&& kept.len() == 0 && all.len() > 0 ==> budget == 0 && text_tokens(
                all.last()->User_content,
            ) > 0
        }),
    decreases items.len(),
{
    let all = retainable(items);
    let kept = retained(items, budget);
    let k = all.len() - kept.len();
    if items.len() == 0 {
        reveal(Seq::filter);
        assert(kept =~= all);
    } else {
        lemma_retainable_last(items);
        let head = items.drop_last();
        if !is_retainable(items.last()) {
            law_newest_user_messages_are_retained(head, budget);
        } else {
            let content = items.last()->User_content;
            let tokens = text_tokens(content);
            let rest = retainable(head);
            assert(all.drop_last() =~= rest);
            lemma_user_tokens_nonnegative(rest);
            if tokens <= budget {
                law_newest_user_messages_are_retained(head, budget - tokens);
                let older = retained(head, budget - tokens);
                assert(k == rest.len() - older.len());
                if older.len() > 0 {
                    assert(kept[0] == older[0]);
                    assert(all[k] == rest[k]);
                    assert(all.skip(k + 1) =~= rest.skip(k + 1).push(items.last()));
                    assert(all.skip(k + 1).drop_last() =~= rest.skip(k + 1));
                    assert forall|i: int| 0 < i < kept.len() implies #[trigger] kept[i] == all[k
                        + i] by {
                        if i < older.len() {
                            assert(kept[i] == older[i]);
                        }
                    }
                } else {
                    assert(kept =~= seq![items.last()]);
                    assert(all.skip(k + 1) =~= Seq::empty());
                }
            } else if budget > 0 {
                assert(kept.len() == 1);
                assert(all.skip(k + 1) =~= Seq::empty());
            }
        }
    }
}

proof fn lemma_user_tokens_nonnegative(items: Seq<MessageView>)
    ensures
        user_tokens(items) >= 0,
    decreases items.len(),
{
    if items.len() > 0 {
        lemma_user_tokens_nonnegative(items.drop_last());
    }
}

/// Calls that still wait for results are not cut off: where the history is
/// in the middle of a batch, the message that asks for it and the results
/// that are there stay at the end, as they are.
pub proof fn law_compaction_keeps_the_open_batch(items: Seq<MessageView>, summary: Seq<char>)
    requires
        waiting(items) is Some,
        !is_complete(items),
    ensures
        exists|k: int|
            #![trigger items.skip(k)]
            0 <= k < items.len() && calls_in(items[k]).len() > 0 && {
                let n = replacement(items, summary).len();
                &&& n >= items.len() - k
                &&& replacement(items, summary).skip(n - (items.len() - k)) == items.skip(k)
            },
{
    lemma_waiting_group(items);
    let k = group_start(items)->0;
    let n = replacement(items, summary).len();
    assert(unfinished_group(items) == items.skip(k));
    assert(replacement(items, summary).skip(n - (items.len() - k)) =~= items.skip(k));
}

/// A text that fits is left alone. Of one that does not, as much of the head
/// as half the budget holds and as much of the tail as the other half does
/// are kept, and the note between them says how many bytes are missing.
pub proof fn law_truncation_keeps_both_ends(text: Seq<char>, budget: nat)
    ensures
        utf8_len(text) <= budget ==> truncated(text, budget) == text,
        utf8_len(text) > budget ==> exists|h: int, t: int|
            #![trigger text.take(h), text.skip(t)]
            0 <= h <= text.len() && 0 <= t <= text.len() && {
                let missing = utf8_len(text) - utf8_len(text.take(h)) - utf8_len(text.skip(t));
                &&& truncated(text, budget) == text.take(h) + ("\n\u{2026}"@ + decimal(
                    missing as nat,
                ) + " bytes truncated\u{2026}\n"@) + text.skip(t)
                &&& utf8_len(text.take(h)) <= budget / 2
                &&& h < text.len() ==> utf8_len(text.take(h + 1)) > budget / 2
                &&& utf8_len(text.skip(t)) <= budget - budget / 2
                &&& t > 0 ==> utf8_len(text.skip(t - 1)) > budget - budget / 2
            },
{
    if utf8_len(text) > budget {
        let h = fitting_head(text, (budget / 2) as int);
        let k = fitting_tail(text, budget - budget / 2);
        lemma_fitting_head(text, (budget / 2) as int);
        lemma_fitting_tail(text, budget - budget / 2);
        let t = text.len() - k;
        let missing = utf8_len(text) - utf8_len(text.take(h as int)) - utf8_len(text.skip(t));
        assert(omitted_bytes(text, h, k) == missing as nat);
        assert(truncated(text, budget) == text.take(h as int) + ("\n\u{2026}"@ + decimal(
            missing as nat,
        ) + " bytes truncated\u{2026}\n"@) + text.skip(t));
    }
}

/// A request that does not fit is made shorter and made again as long as it
/// can be, and then the first such error counts; any other error counts at
/// once.
pub proof fn law_overflowing_request_is_made_shorter(c: CompactionView, e: ErrorView)
    ensures
        ({
            let (next, step) = c.request_failed(e);
            let first = match c.refused {
                Some(r) => r,
                None => e,
            };
            &&& e is ContextWindowExceeded && c.input.len() > 1 ==> {
                &&& step is Ask
                &&& next.input == without_first(c.input)
                &&& next.refused == Some(first)
                &&& next.retries == 0
                &&& next.tokens_before == c.tokens_before
            }
            &&& e is ContextWindowExceeded && c.input.len() <= 1 ==> step
                == CompactStepView::Failed(first)
            &&& !(e is ContextWindowExceeded) ==> step == CompactStepView::Failed(e)
        }),
{
}

/// An empty summary is asked for again, with the same request, three times
/// at most; then the compaction fails.
pub proof fn law_empty_summary_is_asked_for_again(c: CompactionView)
    requires
        c.summary.len() == 0,
    ensures
        c.retries < 3 ==> c.answer_ended().1 is Ask && c.answer_ended().0 == (CompactionView {
            retries: (c.retries + 1) as u32,
            ..c
        }),
        c.retries >= 3 ==> c.answer_ended().1 is Failed,
{
}

/// Twenty thousand tokens of user messages are retained, and the summary
/// comes last.
pub proof fn law_recent_messages_have_a_budget(items: Seq<MessageView>, summary: Seq<char>)
    ensures
        compacted(items, summary).drop_last() == retained(items, 20_000),
        compacted(items, summary).len() == retained(items, 20_000).len() + 1,
        is_summary(compacted(items, summary).last()),
{
    assert(compacted(items, summary).drop_last() =~= retained(items, 20_000));
    let content = SUMMARY_PREFIX@ + "\n"@ + summary;
    assert(content.take(SUMMARY_PREFIX@.len() as int) =~= SUMMARY_PREFIX@);
}

} // verus!

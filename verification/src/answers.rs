//! What the events of a streamed answer come to when they are taken
//! together: its text, its reasoning, its calls and its usage.

use vstd::prelude::*;

use crate::message::{ToolCallView, Usage};
use crate::traits::ProviderEventView;

verus! {

/// The text that the events stream: their deltas one after another.
pub open spec fn said(events: Seq<ProviderEventView>) -> Seq<char>
    decreases events.len(),
{
    if events.len() == 0 {
        Seq::empty()
    } else {
        match events.last() {
            ProviderEventView::MessageDelta { delta } => said(events.drop_last()) + delta,
            _ => said(events.drop_last()),
        }
    }
}

/// The reasoning that the events stream.
pub open spec fn reasoned(events: Seq<ProviderEventView>) -> Seq<char>
    decreases events.len(),
{
    if events.len() == 0 {
        Seq::empty()
    } else {
        match events.last() {
            ProviderEventView::ReasoningDelta { delta } => reasoned(events.drop_last()) + delta,
            _ => reasoned(events.drop_last()),
        }
    }
}

/// The calls that the events ask for, in order.
pub open spec fn asked(events: Seq<ProviderEventView>) -> Seq<ToolCallView>
    decreases events.len(),
{
    if events.len() == 0 {
        Seq::empty()
    } else {
        match events.last() {
            ProviderEventView::ToolCalls { calls } => asked(events.drop_last()) + calls,
            _ => asked(events.drop_last()),
        }
    }
}

/// The usages that the events report, in order.
pub open spec fn usages(events: Seq<ProviderEventView>) -> Seq<Usage>
    decreases events.len(),
{
    if events.len() == 0 {
        Seq::empty()
    } else {
        match events.last() {
            ProviderEventView::Usage { usage } => usages(events.drop_last()).push(usage),
            _ => usages(events.drop_last()),
        }
    }
}

/// The fragments of calls among the events, in order.
pub open spec fn fragments(events: Seq<ProviderEventView>) -> Seq<ProviderEventView>
    decreases events.len(),
{
    if events.len() == 0 {
        Seq::empty()
    } else {
        match events.last() {
            ProviderEventView::ToolCallFragment { .. } => fragments(events.drop_last()).push(
                events.last(),
            ),
            _ => fragments(events.drop_last()),
        }
    }
}

/// Whether the events neither end the answer nor break it off.
pub open spec fn goes_on(events: Seq<ProviderEventView>) -> bool {
    forall|i: int|
        0 <= i < events.len() ==> !(#[trigger] events[i] is Done) && !(events[i] is ProviderError)
}

/// Two pieces of an answer say, reason, ask and report what they do one
/// after the other.
pub proof fn lemma_pieces(a: Seq<ProviderEventView>, b: Seq<ProviderEventView>)
    ensures
        said(a + b) == said(a) + said(b),
        reasoned(a + b) == reasoned(a) + reasoned(b),
        asked(a + b) == asked(a) + asked(b),
        usages(a + b) == usages(a) + usages(b),
        fragments(a + b) == fragments(a) + fragments(b),
    decreases b.len(),
{
    if b.len() == 0 {
        assert(a + b =~= a);
        assert(said(a) + said(b) =~= said(a));
        assert(reasoned(a) + reasoned(b) =~= reasoned(a));
        assert(asked(a) + asked(b) =~= asked(a));
        assert(usages(a) + usages(b) =~= usages(a));
        assert(fragments(a) + fragments(b) =~= fragments(a));
    } else {
        let head = b.drop_last();
        lemma_pieces(a, head);
        assert((a + b).drop_last() =~= a + head);
        assert((a + b).last() == b.last());
        match b.last() {
            ProviderEventView::MessageDelta { delta } => {
                assert(said(a) + said(head) + delta =~= said(a) + (said(head) + delta));
            },
            ProviderEventView::ReasoningDelta { delta } => {
                assert(reasoned(a) + reasoned(head) + delta =~= reasoned(a) + (reasoned(head)
                    + delta));
            },
            ProviderEventView::ToolCalls { calls } => {
                assert(asked(a) + asked(head) + calls =~= asked(a) + (asked(head) + calls));
            },
            ProviderEventView::Usage { usage } => {
                assert((usages(a) + usages(head)).push(usage) =~= usages(a) + usages(head).push(
                    usage,
                ));
            },
            ProviderEventView::ToolCallFragment { .. } => {
                assert((fragments(a) + fragments(head)).push(b.last()) =~= fragments(a)
                    + fragments(head).push(b.last()));
            },
            _ => {},
        }
    }
}

/// One event alone.
pub proof fn lemma_one_piece(e: ProviderEventView)
    ensures
        said(seq![e]) == match e {
            ProviderEventView::MessageDelta { delta } => delta,
            _ => Seq::empty(),
        },
        reasoned(seq![e]) == match e {
            ProviderEventView::ReasoningDelta { delta } => delta,
            _ => Seq::empty(),
        },
        asked(seq![e]) == match e {
            ProviderEventView::ToolCalls { calls } => calls,
            _ => Seq::empty(),
        },
        usages(seq![e]) == match e {
            ProviderEventView::Usage { usage } => seq![usage],
            _ => Seq::empty(),
        },
        fragments(seq![e]) == match e {
            ProviderEventView::ToolCallFragment { .. } => seq![e],
            _ => Seq::empty(),
        },
{
    let none = Seq::<ProviderEventView>::empty();
    assert(seq![e].drop_last() =~= none);
    lemma_no_piece();
    match e {
        ProviderEventView::MessageDelta { delta } => {
            assert(said(none) + delta =~= delta);
        },
        ProviderEventView::ReasoningDelta { delta } => {
            assert(reasoned(none) + delta =~= delta);
        },
        ProviderEventView::ToolCalls { calls } => {
            assert(asked(none) + calls =~= calls);
        },
        ProviderEventView::Usage { usage } => {
            assert(usages(none).push(usage) =~= seq![usage]);
        },
        ProviderEventView::ToolCallFragment { .. } => {
            assert(fragments(none).push(e) =~= seq![e]);
        },
        _ => {},
    }
}

/// No event, nothing.
pub proof fn lemma_no_piece()
    ensures
        said(Seq::empty()) == Seq::<char>::empty(),
        reasoned(Seq::empty()) == Seq::<char>::empty(),
        asked(Seq::empty()) == Seq::<ToolCallView>::empty(),
        usages(Seq::empty()) == Seq::<Usage>::empty(),
        fragments(Seq::empty()) == Seq::<ProviderEventView>::empty(),
{
}

} // verus!

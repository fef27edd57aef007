//! The order that providers demand of a transcript: an assistant message
//! that asks for tool calls is followed at once by the results for exactly
//! these calls, in their order.

use vstd::prelude::*;

use crate::history::ids_of;
use crate::message::MessageView;

verus! {

/// Whether the message neither asks for calls nor answers one.
pub open spec fn is_plain(m: MessageView) -> bool {
    match m {
        MessageView::System { .. } => true,
        MessageView::User { .. } => true,
        MessageView::Assistant { tool_calls, .. } => tool_calls.len() == 0,
        MessageView::ToolResult { .. } => false,
    }
}

/// The calls that wait for their results after the message `m`, where the
/// calls in `ids` did before it; nothing where `m` is out of order.
pub open spec fn next_waiting(ids: Seq<Seq<char>>, m: MessageView) -> Option<Seq<Seq<char>>> {
    match m {
        MessageView::ToolResult { tool_call_id, .. } => if ids.len() > 0 && ids[0]
            == tool_call_id {
            Some(ids.drop_first())
        } else {
            None
        },
        MessageView::Assistant { tool_calls, .. } => if ids.len() == 0 {
            Some(ids_of(tool_calls))
        } else {
            None
        },
        _ => if ids.len() == 0 {
            Some(ids)
        } else {
            None
        },
    }
}

/// The ids of the calls that wait for their results at the end of the
/// transcript; nothing where the transcript is out of order.
pub open spec fn waiting(items: Seq<MessageView>) -> Option<Seq<Seq<char>>>
    decreases items.len(),
{
    if items.len() == 0 {
        Some(Seq::empty())
    } else {
        match waiting(items.drop_last()) {
            Some(ids) => next_waiting(ids, items.last()),
            None => None,
        }
    }
}

/// The transcript is in order and no call waits for its result: a provider
/// accepts it.
pub open spec fn is_complete(items: Seq<MessageView>) -> bool {
    waiting(items) == Some(Seq::<Seq<char>>::empty())
}

/// One more message moves the waiting calls on.
pub broadcast proof fn lemma_waiting_push(items: Seq<MessageView>, m: MessageView)
    ensures
        #[trigger] waiting(items.push(m)) == match waiting(items) {
            Some(ids) => next_waiting(ids, m),
            None => None,
        },
{
    assert(items.push(m).drop_last() =~= items);
}

/// What follows counts only on what waits.
pub proof fn lemma_waiting_concat(
    a: Seq<MessageView>,
    b: Seq<MessageView>,
    more: Seq<MessageView>,
)
    requires
        waiting(a) == waiting(b),
    ensures
        waiting(a + more) == waiting(b + more),
    decreases more.len(),
{
    if more.len() == 0 {
        assert(a + more =~= a);
        assert(b + more =~= b);
    } else {
        lemma_waiting_concat(a, b, more.drop_last());
        assert((a + more).drop_last() =~= a + more.drop_last());
        assert((b + more).drop_last() =~= b + more.drop_last());
    }
}

/// Messages that neither ask nor answer keep a transcript complete.
pub proof fn lemma_plain_is_complete(items: Seq<MessageView>)
    requires
        forall|i: int| 0 <= i < items.len() ==> is_plain(#[trigger] items[i]),
    ensures
        is_complete(items),
    decreases items.len(),
{
    if items.len() > 0 {
        lemma_plain_is_complete(items.drop_last());
        let m = items.last();
        assert(is_plain(items[items.len() - 1]));
        assert(next_waiting(Seq::empty(), m)->0 =~= Seq::empty());
    }
}

} // verus!

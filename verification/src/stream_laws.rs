//! What the responses and the messages protocol read out of a stream: each
//! frame brings what it holds, and at the end every call is reported.

use vstd::prelude::*;

use crate::anthropic;
use crate::answers::{asked, lemma_no_piece, lemma_one_piece, reasoned, said, usages};
use crate::json::{json_of_text, JsonView};
use crate::message::{ToolCallView, Usage};
use crate::openai::{comes_from, message_of, reasoning_of, Part};
use crate::provider::interrupted;
use crate::responses;
use crate::slots::{found, law_order_is_ascending, lists};
use crate::text::text_or_empty;
use crate::traits::ProviderEventView;

verus! {

proof fn lemma_some_text(t: Option<Seq<char>>)
    requires
        t is Some ==> t->0.len() > 0,
    ensures
        said(message_of(t)) == text_or_empty(t),
        reasoned(message_of(t)).len() == 0,
        message_of(t).len() <= 1,
        asked(message_of(t)).len() == 0,
        reasoned(reasoning_of(t)) == text_or_empty(t),
        said(reasoning_of(t)).len() == 0,
        reasoning_of(t).len() <= 1,
        asked(reasoning_of(t)).len() == 0,
{
    lemma_no_piece();
    match t {
        Some(s) => {
            lemma_one_piece(ProviderEventView::MessageDelta { delta: s });
            lemma_one_piece(ProviderEventView::ReasoningDelta { delta: s });
        },
        None => {},
    }
}

// ---- responses ----

proof fn lemma_response_kinds()
    ensures
        "response.output_text.delta"@.len() == 26,
        "response.reasoning_summary_text.delta"@.len() == 37,
        "response.reasoning_text.delta"@.len() == 29,
        "response.output_item.added"@.len() == 26,
        "response.function_call_arguments.delta"@.len() == 38,
        "response.function_call_arguments.done"@.len() == 37,
        "response.completed"@.len() == 18,
        "response.failed"@.len() == 15,
        "error"@.len() == 5,
        "response.output_text.delta"@[16] == 't',
        "response.output_item.added"@[16] == 'i',
        "response.reasoning_summary_text.delta"@[9] == 'r',
        "response.function_call_arguments.done"@[9] == 'f',
{
    reveal_strlit("response.output_text.delta");
    reveal_strlit("response.reasoning_summary_text.delta");
    reveal_strlit("response.reasoning_text.delta");
    reveal_strlit("response.output_item.added");
    reveal_strlit("response.function_call_arguments.delta");
    reveal_strlit("response.function_call_arguments.done");
    reveal_strlit("response.completed");
    reveal_strlit("response.failed");
    reveal_strlit("error");
}

/// What kind of frame it is: its own type, else the name of its event.
pub open spec fn kind_of(event_name: Seq<char>, v: JsonView) -> Seq<char> {
    match v.text_at("type"@) {
        Some(t) => t,
        None => event_name,
    }
}

/// Text and reasoning are passed on as they arrive, and change nothing that
/// is known of calls, usage and errors.
pub proof fn law_response_text_is_passed_on(
    st: responses::StateView,
    event_name: Seq<char>,
    v: JsonView,
)
    ensures
        ({
            let kind = kind_of(event_name, v);
            let (next, out) = st.frame(event_name, v);
            let text = text_or_empty(v.text_at("delta"@));
            &&& kind == "response.output_text.delta"@ ==> {
                &&& said(out) == text
                &&& reasoned(out).len() == 0
                &&& next == (responses::StateView { got_content: true, ..st })
            }
            &&& kind == "response.reasoning_summary_text.delta"@ || kind
                == "response.reasoning_text.delta"@ ==> {
                &&& reasoned(out) == text
                &&& said(out).len() == 0
                &&& next == st
            }
            &&& kind != "response.output_text.delta"@ ==> said(out).len() == 0
                && next.got_content == st.got_content
            &&& kind != "response.reasoning_summary_text.delta"@ && kind
                != "response.reasoning_text.delta"@ ==> reasoned(out).len() == 0
            &&& out.len() <= 1
            &&& asked(out).len() == 0
        }),
{
    lemma_response_kinds();
    lemma_no_piece();
    let t = crate::openai::filled(v, "delta"@);
    lemma_some_text(t);
    assert(text_or_empty(t) =~= text_or_empty(v.text_at("delta"@)));
}

/// A call is opened under its index with its id and its name and without
/// arguments; its arguments then grow by what arrives for that index, or
/// are given whole. No other call is touched.
#[verifier::rlimit(40)]
pub proof fn law_response_calls_come_together(
    st: responses::StateView,
    event_name: Seq<char>,
    v: JsonView,
    other: u64,
)
    ensures
        ({
            let kind = kind_of(event_name, v);
            let k = v.unsigned_at("output_index"@);
            let next = st.frame(event_name, v).0;
            &&& kind == "response.output_item.added"@ ==> match v.member("item"@) {
                Some(item) => if item.text_at("type"@) == Some("function_call"@) {
                    &&& found(next.calls, k) == Some(
                        (
                            text_or_empty(item.text_at("call_id"@)),
                            text_or_empty(item.text_at("name"@)),
                        ),
                    )
                    &&& found(next.args, k) == Some(Seq::<char>::empty())
                } else {
                    next == st
                },
                None => next == st,
            }
            &&& kind == "response.function_call_arguments.delta"@ ==> match v.text_at("delta"@) {
                Some(d) => found(next.args, k) == Some(
                    match found(st.args, k) {
                        Some(a) => a + d,
                        None => d,
                    },
                ) && next.calls == st.calls,
                None => next == st,
            }
            &&& kind == "response.function_call_arguments.done"@ ==> match v.text_at(
                "arguments"@,
            ) {
                Some(d) => if found(st.args, k) is Some {
                    found(next.args, k) == Some(d) && next.calls == st.calls
                } else {
                    next == st
                },
                None => next == st,
            }
            &&& other != k ==> found(next.calls, other) == found(st.calls, other) && found(
                next.args,
                other,
            ) == found(st.args, other)
            &&& kind != "response.output_item.added"@ ==> next.calls == st.calls
            &&& kind != "response.output_item.added"@ && kind
                != "response.function_call_arguments.delta"@ && kind
                != "response.function_call_arguments.done"@ ==> next.args == st.args
        }),
{
    lemma_response_kinds();
    let k = v.unsigned_at("output_index"@);
    if let Some(d) = v.text_at("delta"@) {
        if found(st.args, k) is None {
            assert(text_or_empty(found(st.args, k)) + d =~= d);
        }
    }
}

/// A completed response reports its usage; a failed one and an error frame
/// bring their message, and nothing else changes usage.
pub proof fn law_response_usage_and_errors_are_taken(
    st: responses::StateView,
    event_name: Seq<char>,
    v: JsonView,
)
    ensures
        ({
            let kind = kind_of(event_name, v);
            let next = st.frame(event_name, v).0;
            &&& kind == "response.completed"@ ==> match v.member2("response"@, "usage"@) {
                Some(u) => next.usage == Some(
                    Usage {
                        input_tokens: u.signed_at("input_tokens"@),
                        output_tokens: u.signed_at("output_tokens"@),
                        total_tokens: u.signed_at("total_tokens"@),
                    },
                ),
                None => next.usage == st.usage,
            }
            &&& kind != "response.completed"@ ==> next.usage == st.usage
            &&& kind == "response.completed"@ ==> match v.member2("response"@, "error"@) {
                Some(e) => if e is Null {
                    next.error == st.error
                } else {
                    next.error is Some && !next.stray && (e.text_at("message"@) is Some
                        ==> next.error == e.text_at("message"@))
                },
                None => next.error == st.error,
            }
            &&& kind == "response.failed"@ ==> next.error is Some && !next.stray && (v.member2(
                "response"@,
                "error"@,
            ) matches Some(e) ==> e.text_at("message"@) is Some ==> next.error == e.text_at(
                "message"@,
            ))
            &&& kind == "error"@ ==> next.error is Some && !next.stray && (v.text_at2(
                "error"@,
                "message"@,
            ) is Some ==> next.error == v.text_at2("error"@, "message"@)) && (v.member2(
                "error"@,
                "message"@,
            ) is None && v.text_at("message"@) is Some ==> next.error == v.text_at("message"@))
            &&& next.transport_error == st.transport_error
        }),
{
    lemma_response_kinds();
}

/// Whether the call under the key is reported: it has an id or a name.
pub open spec fn is_response_call(st: responses::StateView, k: u64) -> bool {
    st.calls[k].0.len() > 0 || st.calls[k].1.len() > 0
}

/// How many of the first `n` keys hold a call that is reported.
pub open spec fn reported_among(st: responses::StateView, keys: Seq<u64>, n: nat) -> nat
    decreases n,
{
    if n == 0 {
        0
    } else {
        reported_among(st, keys, (n - 1) as nat) + if is_response_call(st, keys[n - 1]) {
            1nat
        } else {
            0nat
        }
    }
}

/// What arrived for the call under the key.
pub open spec fn response_part(st: responses::StateView, k: u64) -> Part {
    Part { id: st.calls[k].0, name: st.calls[k].1, args: text_or_empty(found(st.args, k)) }
}

proof fn lemma_reported_among(
    st: responses::StateView,
    keys: Seq<u64>,
    more: Seq<u64>,
    n: nat,
)
    requires
        n <= keys.len() <= more.len(),
        forall|i: int| 0 <= i < keys.len() ==> #[trigger] keys[i] == more[i],
    ensures
        reported_among(st, keys, n) == reported_among(st, more, n),
    decreases n,
{
    if n > 0 {
        lemma_reported_among(st, keys, more, (n - 1) as nat);
        assert(keys[n - 1] == more[n - 1]);
    }
}

proof fn lemma_reported_grows(st: responses::StateView, keys: Seq<u64>, n: nat, m: nat)
    requires
        n < m,
    ensures
        reported_among(st, keys, n) <= reported_among(st, keys, m),
        is_response_call(st, keys[n as int]) ==> reported_among(st, keys, n) < reported_among(
            st,
            keys,
            m,
        ),
    decreases m,
{
    if n < m - 1 {
        lemma_reported_grows(st, keys, n, (m - 1) as nat);
    }
}

proof fn lemma_arguments(c: ToolCallView, p: Part)
    requires
        c.id == p.id,
        c.name == p.name,
        c.arguments == crate::provider::call_arguments(p.args, json_of_text(p.args)),
    ensures
        comes_from(c, p),
{
    broadcast use crate::json::law_added_member_is_found;

}

proof fn lemma_calls_under(st: responses::StateView, keys: Seq<u64>)
    ensures
        st.calls_under(keys).len() == reported_among(st, keys, keys.len()),
        forall|i: int|
            0 <= i < keys.len() && is_response_call(st, #[trigger] keys[i]) ==> comes_from(
                st.calls_under(keys)[reported_among(st, keys, i as nat) as int],
                response_part(st, keys[i]),
            ),
    decreases keys.len(),
{
    if keys.len() > 0 {
        let head = keys.drop_last();
        lemma_calls_under(st, head);
        lemma_reported_among(st, head, keys, head.len());
        assert forall|i: int| 0 <= i < keys.len() && is_response_call(
            st,
            #[trigger] keys[i],
        ) implies comes_from(
            st.calls_under(keys)[reported_among(st, keys, i as nat) as int],
            response_part(st, keys[i]),
        ) by {
            if i < head.len() {
                assert(head[i] == keys[i]);
                lemma_reported_among(st, head, keys, i as nat);
                lemma_reported_grows(st, head, i as nat, head.len());
                assert(st.calls_under(keys)[reported_among(st, keys, i as nat) as int]
                    == st.calls_under(head)[reported_among(st, keys, i as nat) as int]);
            } else {
                lemma_arguments(st.call_at(keys[i]), response_part(st, keys[i]));
            }
        }
    }
}

/// At the end of a response every call that has an id or a name is
/// reported, in the order of the indexes, each with its own arguments, and
/// no other; the usage is reported where there is one.
pub proof fn law_response_reports_every_call(st: responses::StateView, keys: Seq<u64>)
    requires
        lists(keys, st.calls.dom()),
    ensures
        ({
            let out = st.final_events();
            let n = reported_among(st, keys, keys.len());
            &&& asked(out).len() == n
            &&& n > 0 ==> out[0] == (ProviderEventView::ToolCalls { calls: asked(out) })
            &&& forall|i: int|
                0 <= i < keys.len() && is_response_call(st, #[trigger] keys[i]) ==> reported_among(
                    st,
                    keys,
                    i as nat,
                ) < n && comes_from(
                    asked(out)[reported_among(st, keys, i as nat) as int],
                    response_part(st, keys[i]),
                )
            &&& usages(out) == match st.usage {
                Some(u) => seq![u],
                None => Seq::empty(),
            }
            &&& said(out).len() == 0
        }),
{
    law_order_is_ascending(keys, st.calls.dom());
    lemma_calls_under(st, keys);
    lemma_no_piece();
    let calls = st.calls_under(keys);
    assert forall|i: int| 0 <= i < keys.len() && is_response_call(
        st,
        #[trigger] keys[i],
    ) implies reported_among(st, keys, i as nat) < reported_among(st, keys, keys.len()) by {
        lemma_reported_grows(st, keys, i as nat, keys.len());
    }
    let one = if calls.len() > 0 {
        seq![ProviderEventView::ToolCalls { calls }]
    } else {
        Seq::empty()
    };
    if calls.len() > 0 {
        lemma_one_piece(ProviderEventView::ToolCalls { calls });
    }
    assert(asked(one) =~= calls);
    lemma_tail(
        one,
        st.usage,
        if st.reports_error() {
            st.error
        } else {
            None
        },
        st.transport_error,
        st.final_events(),
    );
}

/// The end of a stream: the usage, an error and a broken transport, where
/// there are any, and the end.
proof fn lemma_tail(
    one: Seq<ProviderEventView>,
    usage: Option<Usage>,
    error: Option<Seq<char>>,
    transport: Option<Seq<char>>,
    out: Seq<ProviderEventView>,
)
    requires
        usages(one).len() == 0,
        said(one).len() == 0,
        ({
            let two = match usage {
                Some(usage) => one.push(ProviderEventView::Usage { usage }),
                None => one,
            };
            let three = match error {
                Some(message) => two.push(ProviderEventView::ProviderError { message }),
                None => two,
            };
            let four = match transport {
                Some(e) => three.push(interrupted(e)),
                None => three,
            };
            out == four.push(ProviderEventView::Done)
        }),
    ensures
        asked(out) == asked(one),
        usages(out) == match usage {
            Some(u) => seq![u],
            None => Seq::empty(),
        },
        said(out).len() == 0,
        one.len() > 0 ==> out[0] == one[0],
{
    let two = match usage {
        Some(usage) => one.push(ProviderEventView::Usage { usage }),
        None => one,
    };
    let three = match error {
        Some(message) => two.push(ProviderEventView::ProviderError { message }),
        None => two,
    };
    let four = match transport {
        Some(e) => three.push(interrupted(e)),
        None => three,
    };
    assert(out.drop_last() =~= four);
    assert(asked(out) == asked(four) && usages(out) == usages(four) && said(out) == said(four));
    if transport is Some {
        assert(four.drop_last() =~= three);
    }
    assert(asked(four) == asked(three) && usages(four) == usages(three) && said(four) == said(
        three,
    ));
    if error is Some {
        assert(three.drop_last() =~= two);
    }
    assert(asked(three) == asked(two) && usages(three) == usages(two) && said(three) == said(two));
    if usage is Some {
        assert(two.drop_last() =~= one);
        assert(usages(two) =~= seq![usage->0]);
    } else {
        assert(usages(two) =~= Seq::empty());
    }
    assert(asked(two) == asked(one) && said(two) == said(one));
}

/// An error of the response is reported, with its message, where no text
/// arrived; with text it is not.
pub proof fn law_response_error_is_reported(st: responses::StateView, i: int)
    requires
        0 <= i < st.final_events().len(),
        !st.stray,
        st.transport_error is None,
    ensures
        st.final_events()[i] is ProviderError ==> st.error == Some(
            st.final_events()[i]->ProviderError_message,
        ) && !st.got_content,
        st.error is Some && !st.got_content && i == st.final_events().len() - 2
            ==> st.final_events()[i] == (ProviderEventView::ProviderError {
            message: st.error->0,
        }),
{
}

// ---- messages ----

proof fn lemma_message_kinds()
    ensures
        "error"@.len() == 5,
        "message_start"@.len() == 13,
        "content_block_start"@.len() == 19,
        "content_block_delta"@.len() == 19,
        "message_delta"@.len() == 13,
        "text_delta"@.len() == 10,
        "thinking_delta"@.len() == 14,
        "input_json_delta"@.len() == 16,
        "message_start"@[8] == 's',
        "message_delta"@[8] == 'd',
        "content_block_start"@[14] == 's',
        "content_block_delta"@[14] == 'd',
{
    reveal_strlit("error");
    reveal_strlit("message_start");
    reveal_strlit("content_block_start");
    reveal_strlit("content_block_delta");
    reveal_strlit("message_delta");
    reveal_strlit("text_delta");
    reveal_strlit("thinking_delta");
    reveal_strlit("input_json_delta");
}

/// Text and thinking are passed on as they arrive and change nothing else;
/// no other frame says anything.
pub proof fn law_message_text_is_passed_on(st: anthropic::StateView, v: JsonView)
    ensures
        ({
            let is_delta = v.text_at("type"@) == Some("content_block_delta"@);
            let kind = v.text_at2("delta"@, "type"@);
            let (next, out) = st.frame(v);
            &&& is_delta && kind == Some("text_delta"@) ==> {
                &&& said(out) == text_or_empty(v.text_at2("delta"@, "text"@))
                &&& reasoned(out).len() == 0
                &&& next == st
            }
            &&& is_delta && kind == Some("thinking_delta"@) ==> {
                &&& reasoned(out) == text_or_empty(v.text_at2("delta"@, "thinking"@))
                &&& said(out).len() == 0
                &&& next == st
            }
            &&& !(is_delta && (kind == Some("text_delta"@) || kind == Some("thinking_delta"@)))
                ==> out.len() == 0
            &&& out.len() <= 1
            &&& asked(out).len() == 0
        }),
{
    lemma_message_kinds();
    lemma_no_piece();
    let t = anthropic::delta_text(v, "text"@);
    let r = anthropic::delta_text(v, "thinking"@);
    lemma_some_text(t);
    lemma_some_text(r);
    assert(text_or_empty(t) =~= text_or_empty(v.text_at2("delta"@, "text"@)));
    assert(text_or_empty(r) =~= text_or_empty(v.text_at2("delta"@, "thinking"@)));
}

/// A block that uses a tool opens the next call, with its id, its name and
/// no arguments; what arrives for that block is appended to the arguments
/// of that call and of no other.
#[verifier::rlimit(40)]
pub proof fn law_message_calls_come_together(st: anthropic::StateView, v: JsonView)
    requires
        st.well_formed(),
        st.calls.len() < usize::MAX,
    ensures
        ({
            let ty = v.text_at("type"@);
            let next = st.frame(v).0;
            let index = v.unsigned_at("index"@);
            let n = st.calls.len();
            &&& ty == Some("content_block_start"@) ==> match v.member("content_block"@) {
                Some(b) => if b.text_at("type"@) == Some("tool_use"@) {
                    &&& next.calls.len() == n + 1
                    &&& next.args.len() == n + 1
                    &&& next.calls.take(n as int) == st.calls
                    &&& next.args.take(n as int) == st.args
                    &&& next.calls[n as int].0 == text_or_empty(b.text_at("id"@))
                    &&& next.calls[n as int].1 == text_or_empty(b.text_at("name"@))
                    &&& next.args[n as int].len() == 0
                    &&& found(next.blocks, index) == Some(n as usize)
                } else {
                    next == st
                },
                None => next == st,
            }
            &&& ty == Some("content_block_delta"@) && v.text_at2("delta"@, "type"@) == Some(
                "input_json_delta"@,
            ) ==> match (v.text_at2("delta"@, "partial_json"@), found(st.blocks, index)) {
                (Some(p), Some(slot)) => {
                    &&& next.calls == st.calls
                    &&& next.args.len() == st.args.len()
                    &&& next.args[slot as int] == st.args[slot as int] + p
                    &&& forall|i: int|
                        0 <= i < st.args.len() && i != slot ==> #[trigger] next.args[i]
                            == st.args[i]
                },
                _ => next == st,
            }
            &&& ty != Some("content_block_start"@) && ty != Some("content_block_delta"@)
                ==> next.calls == st.calls && next.args == st.args && next.blocks == st.blocks
        }),
{
    lemma_message_kinds();
    let n = st.calls.len();
    let next = st.frame(v).0;
    if next.calls.len() == n + 1 {
        assert(next.calls.take(n as int) =~= st.calls);
        assert(next.args.take(n as int) =~= st.args);
    }
}

/// The usage of a message: the input that it starts with, what was written
/// to the cache and read from it counted in, and the output that it ends
/// with; an error frame brings its message.
pub proof fn law_message_usage_and_errors_are_taken(st: anthropic::StateView, v: JsonView)
    ensures
        ({
            let ty = v.text_at("type"@);
            let next = st.frame(v).0;
            &&& ty == Some("message_start"@) ==> match v.member2("message"@, "usage"@) {
                Some(u) => {
                    let sum = u.signed_at("input_tokens"@) + u.signed_at(
                        "cache_creation_input_tokens"@,
                    ) + u.signed_at("cache_read_input_tokens"@);
                    u.signed_at("input_tokens"@) >= 0 && u.signed_at(
                        "cache_creation_input_tokens"@,
                    ) >= 0 && u.signed_at("cache_read_input_tokens"@) >= 0 && sum <= i64::MAX
                        ==> next.usage_in == sum
                },
                None => next.usage_in == 0,
            }
            &&& ty == Some("message_delta"@) ==> match v.member2("usage"@, "output_tokens"@) {
                Some(JsonView::PosInt(n)) => n <= i64::MAX ==> next.usage_out == n,
                None => next.usage_out == st.usage_out,
                _ => true,
            }
            &&& ty != Some("message_start"@) ==> next.usage_in == st.usage_in
            &&& ty != Some("message_delta"@) ==> next.usage_out == st.usage_out
            &&& ty == Some("error"@) ==> next.error is Some && (v.text_at2(
                "error"@,
                "message"@,
            ) is Some ==> next.error == v.text_at2("error"@, "message"@))
            &&& ty != Some("error"@) ==> next.error == st.error
            &&& next.transport_error == st.transport_error
        }),
{
    lemma_message_kinds();
}

/// What arrived for a call.
pub open spec fn message_part(st: anthropic::StateView, i: int) -> Part {
    Part { id: st.calls[i].0, name: st.calls[i].1, args: st.args[i] }
}

/// How many of the first `n` calls have an id.
pub open spec fn with_id_among(st: anthropic::StateView, n: nat) -> nat
    decreases n,
{
    if n == 0 {
        0
    } else {
        with_id_among(st, (n - 1) as nat) + if st.calls[n - 1].0.len() > 0 {
            1nat
        } else {
            0nat
        }
    }
}

proof fn lemma_calls_up_to(st: anthropic::StateView, n: nat)
    requires
        n <= st.calls.len(),
    ensures
        st.calls_up_to(n).len() == with_id_among(st, n),
        forall|i: int|
            0 <= i < n && (#[trigger] st.calls[i]).0.len() > 0 ==> with_id_among(st, i as nat)
                < with_id_among(st, n) && comes_from(
                st.calls_up_to(n)[with_id_among(st, i as nat) as int],
                message_part(st, i),
            ),
    decreases n,
{
    if n > 0 {
        let m = (n - 1) as nat;
        lemma_calls_up_to(st, m);
        let head = st.calls_up_to(m);
        let args = st.args[n - 1];
        assert forall|i: int| 0 <= i < n && (#[trigger] st.calls[i]).0.len() > 0 implies
            with_id_among(st, i as nat) < with_id_among(st, n) && comes_from(
            st.calls_up_to(n)[with_id_among(st, i as nat) as int],
            message_part(st, i),
        ) by {
            if i < m {
                assert(st.calls_up_to(n)[with_id_among(st, i as nat) as int]
                    == head[with_id_among(st, i as nat) as int]);
            } else {
                lemma_arguments(
                    ToolCallView {
                        id: st.calls[i].0,
                        name: st.calls[i].1,
                        arguments: crate::provider::call_arguments(args, json_of_text(args)),
                    },
                    message_part(st, i),
                );
            }
        }
    }
}

/// At the end of a message every call that has an id is reported, in order,
/// each with its own arguments, and no other; the usage is reported where
/// tokens were counted, and its total is the sum.
pub proof fn law_message_reports_every_call(st: anthropic::StateView)
    ensures
        ({
            let out = st.final_events();
            let n = with_id_among(st, st.calls.len());
            &&& asked(out).len() == n
            &&& n > 0 ==> out[0] == (ProviderEventView::ToolCalls { calls: asked(out) })
            &&& forall|i: int|
                0 <= i < st.calls.len() && (#[trigger] st.calls[i]).0.len() > 0 ==> with_id_among(
                    st,
                    i as nat,
                ) < n && comes_from(
                    asked(out)[with_id_among(st, i as nat) as int],
                    message_part(st, i),
                )
            &&& said(out).len() == 0
            &&& st.usage_in <= 0 && st.usage_out <= 0 ==> usages(out).len() == 0
            &&& st.usage_in > 0 || st.usage_out > 0 ==> {
                &&& usages(out).len() == 1
                &&& usages(out)[0].input_tokens == st.usage_in
                &&& usages(out)[0].output_tokens == st.usage_out
                &&& i64::MIN <= st.usage_in + st.usage_out <= i64::MAX
                    ==> usages(out)[0].total_tokens == st.usage_in + st.usage_out
            }
        }),
{
    lemma_calls_up_to(st, st.calls.len());
    lemma_no_piece();
    let calls = st.calls_up_to(st.calls.len());
    let one = if calls.len() > 0 {
        seq![ProviderEventView::ToolCalls { calls }]
    } else {
        Seq::empty()
    };
    if calls.len() > 0 {
        lemma_one_piece(ProviderEventView::ToolCalls { calls });
    }
    assert(asked(one) =~= calls);
    lemma_tail(one, st.usage(), st.error, st.transport_error, st.final_events());
}

/// An error of the stream is reported, with its message, right before the
/// end.
pub proof fn law_message_error_is_reported(st: anthropic::StateView)
    requires
        st.transport_error is None,
    ensures
        st.error is Some ==> st.final_events()[st.final_events().len() - 2] == (
        ProviderEventView::ProviderError { message: st.error->0 }),
        st.error is None ==> forall|i: int|
            0 <= i < st.final_events().len() ==> !(#[trigger] st.final_events()[i]
                is ProviderError),
{
}

/// An error without a type is noted, with its message, where none was noted
/// before: it counts as one that a gateway added.
pub proof fn law_untyped_error_is_noted(
    st: responses::StateView,
    event_name: Seq<char>,
    v: JsonView,
)
    requires
        v.text_at("type"@) is None,
        v.member("error"@) matches Some(e) && !(e is Null),
        st.error is None,
        !is_response_kind(event_name),
    ensures
        ({
            let next = st.frame(event_name, v).0;
            &&& next.error is Some
            &&& next.stray
            &&& v.text_at2("error"@, "message"@) is Some ==> next.error == v.text_at2(
                "error"@,
                "message"@,
            )
            &&& next.calls == st.calls && next.args == st.args && next.usage == st.usage
        }),
{
}

/// Whether frames of this kind mean something.
pub open spec fn is_response_kind(kind: Seq<char>) -> bool {
    ||| kind == "response.output_text.delta"@
    ||| kind == "response.reasoning_summary_text.delta"@
    ||| kind == "response.reasoning_text.delta"@
    ||| kind == "response.output_item.added"@
    ||| kind == "response.function_call_arguments.delta"@
    ||| kind == "response.function_call_arguments.done"@
    ||| kind == "response.completed"@
    ||| kind == "response.failed"@
    ||| kind == "error"@
}

} // verus!

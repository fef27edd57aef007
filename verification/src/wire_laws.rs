//! What the three wire protocols carry: every message, every call and every
//! tool of a request is found in its body, in its place.
//!
//! The laws speak of a body by what is read out of it: the members of its
//! objects, the items of its arrays and the texts of its strings.

use vstd::prelude::*;

use crate::anthropic;
use crate::json::{json_text, law_added_member_is_found, JsonView};
use crate::message::{MessageView, ToolCallView};
use crate::openai;
use crate::provider::result_text;
use crate::responses;
use crate::traits::ModelRequestView;

verus! {

/// The names of members differ: in length, or in one of their letters.
proof fn lemma_names()
    ensures
        "role"@.len() == 4,
        "content"@.len() == 7,
        "tool_calls"@.len() == 10,
        "tool_call_id"@.len() == 12,
        "type"@.len() == 4,
        "function"@.len() == 8,
        "name"@.len() == 4,
        "arguments"@.len() == 9,
        "id"@.len() == 2,
        "description"@.len() == 11,
        "parameters"@.len() == 10,
        "model"@.len() == 5,
        "messages"@.len() == 8,
        "stream"@.len() == 6,
        "stream_options"@.len() == 14,
        "max_tokens"@.len() == 10,
        "temperature"@.len() == 11,
        "tools"@.len() == 5,
        "include_usage"@.len() == 13,
        "text"@.len() == 4,
        "call_id"@.len() == 7,
        "output"@.len() == 6,
        "input"@.len() == 5,
        "max_output_tokens"@.len() == 17,
        "system"@.len() == 6,
        "input_schema"@.len() == 12,
        "tool_use_id"@.len() == 11,
        "role"@[0] == 'r',
        "role"@[1] == 'o',
        "type"@[0] == 't',
        "type"@[1] == 'y',
        "name"@[0] == 'n',
        "name"@[1] == 'a',
        "text"@[0] == 't',
        "text"@[1] == 'e',
        "content"@[1] == 'o',
        "call_id"@[1] == 'a',
        "tool_calls"@[0] == 't',
        "parameters"@[0] == 'p',
        "max_tokens"@[0] == 'm',
        "tool_call_id"@[0] == 't',
        "input_schema"@[0] == 'i',
        "function"@[0] == 'f',
        "messages"@[0] == 'm',
        "description"@[0] == 'd',
        "description"@[1] == 'e',
        "temperature"@[0] == 't',
        "temperature"@[1] == 'e',
        "tool_use_id"@[0] == 't',
        "tool_use_id"@[1] == 'o',
        "model"@[0] == 'm',
        "tools"@[0] == 't',
        "input"@[0] == 'i',
        "stream"@[1] == 't',
        "output"@[1] == 'u',
        "system"@[1] == 'y',
{
    reveal_strlit("role");
    reveal_strlit("content");
    reveal_strlit("tool_calls");
    reveal_strlit("tool_call_id");
    reveal_strlit("type");
    reveal_strlit("function");
    reveal_strlit("name");
    reveal_strlit("arguments");
    reveal_strlit("id");
    reveal_strlit("description");
    reveal_strlit("parameters");
    reveal_strlit("model");
    reveal_strlit("messages");
    reveal_strlit("stream");
    reveal_strlit("stream_options");
    reveal_strlit("max_tokens");
    reveal_strlit("temperature");
    reveal_strlit("tools");
    reveal_strlit("include_usage");
    reveal_strlit("text");
    reveal_strlit("call_id");
    reveal_strlit("output");
    reveal_strlit("input");
    reveal_strlit("max_output_tokens");
    reveal_strlit("system");
    reveal_strlit("input_schema");
    reveal_strlit("tool_use_id");
}

/// The items of the array in the member `key`; none where there is no such
/// array.
pub open spec fn items_at(j: JsonView, key: Seq<char>) -> Seq<JsonView> {
    match j.member(key) {
        Some(v) => match v.items() {
            Some(items) => items,
            None => Seq::empty(),
        },
        None => Seq::empty(),
    }
}

// ---- chat/completions ----

/// Whether the item is the call, as chat/completions carries it.
pub open spec fn is_chat_call(j: JsonView, c: ToolCallView) -> bool {
    &&& j.text_at("id"@) == Some(c.id)
    &&& j.text_at("type"@) == Some("function"@)
    &&& j.text_at2("function"@, "name"@) == Some(c.name)
    &&& j.text_at2("function"@, "arguments"@) == Some(json_text(c.arguments))
}

/// Whether the item is the message, as chat/completions carries it.
pub open spec fn is_chat_message(j: JsonView, m: MessageView) -> bool {
    match m {
        MessageView::System { content } => j.text_at("role"@) == Some("system"@) && j.text_at(
            "content"@,
        ) == Some(content),
        MessageView::User { content } => j.text_at("role"@) == Some("user"@) && j.text_at(
            "content"@,
        ) == Some(content),
        MessageView::Assistant { content, tool_calls, .. } => {
            let calls = items_at(j, "tool_calls"@);
            &&& j.text_at("role"@) == Some("assistant"@)
            &&& j.text_at("content"@) == Some(content)
            &&& calls.len() == tool_calls.len()
            &&& forall|k: int|
                0 <= k < calls.len() ==> is_chat_call(#[trigger] calls[k], tool_calls[k])
            &&& tool_calls.len() == 0 ==> j.member("tool_calls"@) is None
        },
        MessageView::ToolResult { tool_call_id, content, is_error } => {
            &&& j.text_at("role"@) == Some("tool"@)
            &&& j.text_at("tool_call_id"@) == Some(tool_call_id)
            &&& j.text_at("content"@) == Some(
                if is_error {
                    "[error] "@ + content
                } else {
                    content
                },
            )
        },
    }
}

/// Every message is in the array that chat/completions takes, one item per
/// message, in order, with its role, its text, its calls and its result.
pub proof fn law_chat_carries_every_message(msgs: Seq<MessageView>)
    ensures
        openai::wire_messages(msgs).len() == msgs.len(),
        forall|i: int|
            0 <= i < msgs.len() ==> is_chat_message(
                #[trigger] openai::wire_messages(msgs)[i],
                msgs[i],
            ),
{
    broadcast use law_added_member_is_found;

    lemma_names();
    assert forall|i: int| 0 <= i < msgs.len() implies is_chat_message(
        #[trigger] openai::wire_messages(msgs)[i],
        msgs[i],
    ) by {
        let j = openai::wire_messages(msgs)[i];
        match msgs[i] {
            MessageView::Assistant { content, tool_calls, .. } => {
                let calls = items_at(j, "tool_calls"@);
                assert(j.text_at("role"@) == Some("assistant"@));
                assert(j.text_at("content"@) == Some(content));
                assert(calls =~= openai::wire_calls(tool_calls));
                assert forall|k: int| 0 <= k < calls.len() implies is_chat_call(
                    #[trigger] calls[k],
                    tool_calls[k],
                ) by {
                    assert(calls[k] == openai::wire_call(tool_calls[k]));
                }
            },
            _ => {},
        }
    }
}

/// A chat/completions request holds the model, every message, every tool
/// with its name, description and parameters, the token limit and the
/// temperature where one is set; it asks for a stream and for its usage.
pub proof fn law_chat_request_is_complete(req: ModelRequestView)
    ensures
        ({
            let body = openai::body_of(req);
            let tools = items_at(body, "tools"@);
            &&& body.text_at("model"@) == Some(req.model)
            &&& body.member("stream"@) == Some(JsonView::Bool(true))
            &&& body.member2("stream_options"@, "include_usage"@) == Some(JsonView::Bool(true))
            &&& body.member("max_tokens"@) == Some(JsonView::PosInt(req.max_tokens as u64))
            &&& body.member("temperature"@) == req.temperature
            &&& items_at(body, "messages"@) == openai::wire_messages(req.messages)
            &&& tools.len() == req.tools.len()
            &&& req.tools.len() == 0 ==> body.member("tools"@) is None
            &&& forall|i: int|
                0 <= i < tools.len() ==> {
                    &&& (#[trigger] tools[i]).text_at("type"@) == Some("function"@)
                    &&& tools[i].text_at2("function"@, "name"@) == Some(req.tools[i].name)
                    &&& tools[i].text_at2("function"@, "description"@) == Some(
                        req.tools[i].description,
                    )
                    &&& tools[i].member2("function"@, "parameters"@) == Some(
                        req.tools[i].parameters,
                    )
                }
        }),
{
    broadcast use law_added_member_is_found;

    lemma_names();
    let body = openai::body_of(req);
    let tools = items_at(body, "tools"@);
    assert(tools =~= openai::wire_tools(req.tools));
    assert forall|i: int| 0 <= i < tools.len() implies {
        &&& (#[trigger] tools[i]).text_at("type"@) == Some("function"@)
        &&& tools[i].text_at2("function"@, "name"@) == Some(req.tools[i].name)
        &&& tools[i].text_at2("function"@, "description"@) == Some(req.tools[i].description)
        &&& tools[i].member2("function"@, "parameters"@) == Some(req.tools[i].parameters)
    } by {
        assert(tools[i] == openai::wire_tool(req.tools[i]));
    }
}

// ---- responses ----

/// Whether the item is a text of the role: one block of the kind.
pub open spec fn is_text_item(
    j: JsonView,
    role: Seq<char>,
    kind: Seq<char>,
    text: Seq<char>,
) -> bool {
    let blocks = items_at(j, "content"@);
    &&& j.text_at("role"@) == Some(role)
    &&& blocks.len() == 1
    &&& blocks[0].text_at("type"@) == Some(kind)
    &&& blocks[0].text_at("text"@) == Some(text)
}

/// Whether the item is the call, as the responses protocol carries it.
pub open spec fn is_call_item(j: JsonView, c: ToolCallView) -> bool {
    &&& j.text_at("type"@) == Some("function_call"@)
    &&& j.text_at("call_id"@) == Some(c.id)
    &&& j.text_at("name"@) == Some(c.name)
    &&& j.text_at("arguments"@) == Some(json_text(c.arguments))
    &&& j.text_at("role"@) is None
}

/// How many items the message takes in the input: one each, and for an
/// answer of the model one for its text, where it has any, and one for each
/// of its calls.
pub open spec fn width(m: MessageView) -> nat {
    match m {
        MessageView::Assistant { content, tool_calls, .. } => (if content.len() > 0 {
            1nat
        } else {
            0nat
        }) + tool_calls.len(),
        _ => 1,
    }
}

/// How many items the first `n` messages take.
pub open spec fn place(msgs: Seq<MessageView>, n: nat) -> nat
    decreases n,
{
    if n == 0 {
        0
    } else {
        place(msgs, (n - 1) as nat) + width(msgs[n - 1])
    }
}

/// Whether the items from `p` on begin with the message, as the responses
/// protocol carries it.
pub open spec fn is_response_input(js: Seq<JsonView>, p: int, m: MessageView) -> bool {
    match m {
        MessageView::System { content } => is_text_item(
            js[p],
            "developer"@,
            "input_text"@,
            content,
        ),
        MessageView::User { content } => is_text_item(js[p], "user"@, "input_text"@, content),
        MessageView::Assistant { content, tool_calls, .. } => {
            let q = if content.len() > 0 {
                p + 1
            } else {
                p
            };
            &&& content.len() > 0 ==> is_text_item(
                js[p],
                "assistant"@,
                "output_text"@,
                content,
            )
            &&& forall|k: int|
                0 <= k < tool_calls.len() ==> is_call_item(js[q + k], #[trigger] tool_calls[k])
        },
        MessageView::ToolResult { tool_call_id, content, is_error } => {
            &&& js[p].text_at("type"@) == Some("function_call_output"@)
            &&& js[p].text_at("call_id"@) == Some(tool_call_id)
            &&& js[p].text_at("output"@) == Some(
                if is_error {
                    "[error] "@ + content
                } else {
                    content
                },
            )
            &&& js[p].text_at("role"@) is None
        },
    }
}

proof fn lemma_place(msgs: Seq<MessageView>, more: Seq<MessageView>, n: nat)
    requires
        n <= msgs.len() <= more.len(),
        forall|i: int| 0 <= i < msgs.len() ==> #[trigger] msgs[i] == more[i],
    ensures
        place(msgs, n) == place(more, n),
    decreases n,
{
    if n > 0 {
        lemma_place(msgs, more, (n - 1) as nat);
        assert(msgs[n - 1] == more[n - 1]);
    }
}

proof fn lemma_place_grows(msgs: Seq<MessageView>, n: nat, m: nat)
    requires
        n < m,
    ensures
        place(msgs, n) + width(msgs[n as int]) <= place(msgs, m),
    decreases m,
{
    if n < m - 1 {
        lemma_place_grows(msgs, n, (m - 1) as nat);
    }
}

proof fn lemma_message_items(m: MessageView)
    ensures
        responses::message_items(m).len() == width(m),
        is_response_input(responses::message_items(m), 0, m),
{
    broadcast use law_added_member_is_found;

    lemma_names();
    let js = responses::message_items(m);
    match m {
        MessageView::Assistant { content, tool_calls, .. } => {
            let q: int = if content.len() > 0 {
                1
            } else {
                0
            };
            assert forall|k: int| 0 <= k < tool_calls.len() implies is_call_item(
                js[q + k],
                #[trigger] tool_calls[k],
            ) by {
                assert(js[q + k] == responses::call_item(tool_calls[k]));
            }
        },
        _ => {},
    }
}

proof fn lemma_input_moved(a: Seq<JsonView>, b: Seq<JsonView>, p: int, q: int, m: MessageView)
    requires
        is_response_input(a, p, m),
        forall|k: int| 0 <= k < width(m) ==> #[trigger] a[p + k] == b[q + k],
    ensures
        is_response_input(b, q, m),
{
    match m {
        MessageView::Assistant { content, tool_calls, .. } => {
            let s: int = if content.len() > 0 {
                1
            } else {
                0
            };
            if content.len() > 0 {
                assert(a[p + 0] == b[q + 0]);
            }
            assert forall|k: int| 0 <= k < tool_calls.len() implies is_call_item(
                b[q + s + k],
                #[trigger] tool_calls[k],
            ) by {
                assert(is_call_item(a[p + s + k], tool_calls[k]));
                assert(a[p + (s + k)] == b[q + (s + k)]);
            }
        },
        _ => {
            assert(a[p + 0] == b[q + 0]);
        },
    }
}

/// No message is lost on the way to the responses endpoint: each is found in
/// the input at its place, which is right behind those before it, with its
/// role, its text, its calls and its result; and the input holds nothing
/// else.
#[verifier::rlimit(40)]
pub proof fn law_responses_carries_every_message(msgs: Seq<MessageView>)
    ensures
        responses::wire_input(msgs).len() == place(msgs, msgs.len()),
        forall|i: int|
            0 <= i < msgs.len() ==> is_response_input(
                responses::wire_input(msgs),
                place(msgs, i as nat) as int,
                #[trigger] msgs[i],
            ),
    decreases msgs.len(),
{
    if msgs.len() > 0 {
        let head = msgs.drop_last();
        let before = responses::wire_input(head);
        let all = responses::wire_input(msgs);
        law_responses_carries_every_message(head);
        lemma_place(head, msgs, head.len());
        assert forall|i: int| 0 <= i < msgs.len() implies is_response_input(
            all,
            place(msgs, i as nat) as int,
            #[trigger] msgs[i],
        ) by {
            let p = place(msgs, i as nat) as int;
            if i < head.len() {
                assert(head[i] == msgs[i]);
                lemma_place(head, msgs, i as nat);
                lemma_place_grows(head, i as nat, head.len());
                lemma_input_moved(before, all, p, p, msgs[i]);
            } else {
                let last = responses::message_items(msgs[i]);
                lemma_message_items(msgs[i]);
                assert forall|k: int| 0 <= k < width(msgs[i]) implies #[trigger] last[0 + k]
                    == all[p + k] by {}
                lemma_input_moved(last, all, 0, p, msgs[i]);
            }
        }
        lemma_message_items(msgs.last());
    }
}

/// Whether the item speaks in the role of the user.
pub open spec fn is_users(j: JsonView) -> bool {
    j.text_at("role"@) == Some("user"@)
}

/// How many of the items speak in the role of the user.
pub open spec fn users_among(js: Seq<JsonView>) -> nat
    decreases js.len(),
{
    if js.len() == 0 {
        0
    } else {
        users_among(js.drop_last()) + if is_users(js.last()) {
            1nat
        } else {
            0nat
        }
    }
}

/// How many of the messages are the user's.
pub open spec fn user_messages(msgs: Seq<MessageView>) -> nat
    decreases msgs.len(),
{
    if msgs.len() == 0 {
        0
    } else {
        user_messages(msgs.drop_last()) + if msgs.last() is User {
            1nat
        } else {
            0nat
        }
    }
}

proof fn lemma_users_concat(a: Seq<JsonView>, b: Seq<JsonView>)
    ensures
        users_among(a + b) == users_among(a) + users_among(b),
    decreases b.len(),
{
    if b.len() == 0 {
        assert(a + b =~= a);
    } else {
        lemma_users_concat(a, b.drop_last());
        assert((a + b).drop_last() =~= a + b.drop_last());
    }
}

proof fn lemma_no_users(js: Seq<JsonView>)
    requires
        forall|i: int| 0 <= i < js.len() ==> !is_users(#[trigger] js[i]),
    ensures
        users_among(js) == 0,
    decreases js.len(),
{
    if js.len() > 0 {
        assert(!is_users(js[js.len() - 1]));
        assert forall|i: int| 0 <= i < js.drop_last().len() implies !is_users(
            #[trigger] js.drop_last()[i],
        ) by {
            assert(!is_users(js[i]));
        }
        lemma_no_users(js.drop_last());
    }
}

/// The input speaks in the user's role as often as the user has spoken.
pub proof fn law_responses_carries_each_user_message_once(msgs: Seq<MessageView>)
    ensures
        users_among(responses::wire_input(msgs)) == user_messages(msgs),
    decreases msgs.len(),
{
    if msgs.len() > 0 {
        law_responses_carries_each_user_message_once(msgs.drop_last());
        let m = msgs.last();
        let js = responses::message_items(m);
        lemma_users_concat(responses::wire_input(msgs.drop_last()), js);
        lemma_message_items(m);
        assert("user"@ != "assistant"@ && "user"@ != "developer"@) by {
            reveal_strlit("user");
            reveal_strlit("assistant");
            reveal_strlit("developer");
            assert("user"@.len() == 4 && "assistant"@.len() == 9 && "developer"@.len() == 9);
        }
        if m is User {
            assert(js.drop_last() =~= Seq::empty());
            assert(users_among(js.drop_last()) == 0);
            assert(is_users(js[0]));
        } else {
            assert forall|i: int| 0 <= i < js.len() implies !is_users(#[trigger] js[i]) by {
                if let MessageView::Assistant { content, tool_calls, .. } = m {
                    let q: int = if content.len() > 0 {
                        1
                    } else {
                        0
                    };
                    if i >= q {
                        assert(is_call_item(js[q + (i - q)], tool_calls[i - q]));
                    }
                }
            }
            lemma_no_users(js);
        }
    }
}

/// A request to the responses endpoint holds the model, the whole input,
/// every tool with its name, description and parameters, the token limit
/// and the temperature where one is set; it asks for a stream.
pub proof fn law_responses_request_is_complete(req: ModelRequestView)
    ensures
        ({
            let body = responses::body_of(req);
            let tools = items_at(body, "tools"@);
            &&& body.text_at("model"@) == Some(req.model)
            &&& body.member("stream"@) == Some(JsonView::Bool(true))
            &&& body.member("max_output_tokens"@) == Some(JsonView::PosInt(req.max_tokens as u64))
            &&& body.member("temperature"@) == req.temperature
            &&& items_at(body, "input"@) == responses::wire_input(req.messages)
            &&& tools.len() == req.tools.len()
            &&& req.tools.len() == 0 ==> body.member("tools"@) is None
            &&& forall|i: int|
                0 <= i < tools.len() ==> {
                    &&& (#[trigger] tools[i]).text_at("type"@) == Some("function"@)
                    &&& tools[i].text_at("name"@) == Some(req.tools[i].name)
                    &&& tools[i].text_at("description"@) == Some(req.tools[i].description)
                    &&& tools[i].member("parameters"@) == Some(req.tools[i].parameters)
                }
        }),
{
    broadcast use law_added_member_is_found;

    lemma_names();
    let body = responses::body_of(req);
    let tools = items_at(body, "tools"@);
    assert(tools =~= responses::wire_tools(req.tools));
    assert forall|i: int| 0 <= i < tools.len() implies {
        &&& (#[trigger] tools[i]).text_at("type"@) == Some("function"@)
        &&& tools[i].text_at("name"@) == Some(req.tools[i].name)
        &&& tools[i].text_at("description"@) == Some(req.tools[i].description)
        &&& tools[i].member("parameters"@) == Some(req.tools[i].parameters)
    } by {
        assert(tools[i] == responses::wire_tool(req.tools[i]));
    }
}

// ---- messages ----

/// How many blocks the message takes: none for a rule, which goes into the
/// system text, and for an answer of the model at least one.
pub open spec fn blocks_of(m: MessageView) -> nat {
    match m {
        MessageView::System { .. } => 0,
        MessageView::Assistant { content, tool_calls, .. } => if content.len() > 0 {
            1 + tool_calls.len()
        } else if tool_calls.len() == 0 {
            1
        } else {
            tool_calls.len()
        },
        _ => 1,
    }
}

/// How many blocks the first `n` messages take.
pub open spec fn block_place(msgs: Seq<MessageView>, n: nat) -> nat
    decreases n,
{
    if n == 0 {
        0
    } else {
        block_place(msgs, (n - 1) as nat) + blocks_of(msgs[n - 1])
    }
}

/// The blocks of all the messages on the wire, in order, each with the role
/// that it is spoken in.
pub open spec fn spoken(js: Seq<JsonView>) -> Seq<(Option<Seq<char>>, JsonView)>
    decreases js.len(),
{
    if js.len() == 0 {
        Seq::empty()
    } else {
        let blocks = items_at(js.last(), "content"@);
        spoken(js.drop_last()) + Seq::new(
            blocks.len(),
            |i: int| (js.last().text_at("role"@), blocks[i]),
        )
    }
}

/// Whether the block is a text.
pub open spec fn is_text_block(j: JsonView, text: Seq<char>) -> bool {
    j.text_at("type"@) == Some("text"@) && j.text_at("text"@) == Some(text)
}

/// Whether the block is the call.
pub open spec fn is_call_block(j: JsonView, c: ToolCallView) -> bool {
    &&& j.text_at("type"@) == Some("tool_use"@)
    &&& j.text_at("id"@) == Some(c.id)
    &&& j.text_at("name"@) == Some(c.name)
    &&& j.member("input"@) == Some(c.arguments)
}

/// Whether the block is the call, spoken by the model.
pub open spec fn is_called(b: (Option<Seq<char>>, JsonView), c: ToolCallView) -> bool {
    b.0 == Some("assistant"@) && is_call_block(b.1, c)
}

/// Whether the blocks from `p` on begin with the message.
pub open spec fn is_spoken(bs: Seq<(Option<Seq<char>>, JsonView)>, p: int, m: MessageView) -> bool {
    match m {
        MessageView::System { .. } => true,
        MessageView::User { content } => bs[p].0 == Some("user"@) && is_text_block(
            bs[p].1,
            content,
        ),
        MessageView::Assistant { content, tool_calls, .. } => {
            let q = if content.len() > 0 {
                p + 1
            } else {
                p
            };
            &&& content.len() > 0 || tool_calls.len() == 0 ==> bs[p].0 == Some("assistant"@)
                && is_text_block(bs[p].1, content)
            &&& forall|k: int|
                0 <= k < tool_calls.len() ==> is_called(bs[q + k], #[trigger] tool_calls[k])
        },
        MessageView::ToolResult { tool_call_id, content, is_error } => {
            &&& bs[p].0 == Some("user"@)
            &&& bs[p].1.text_at("type"@) == Some("tool_result"@)
            &&& bs[p].1.text_at("tool_use_id"@) == Some(tool_call_id)
            &&& bs[p].1.text_at("content"@) == Some(
                if is_error {
                    "[error] "@ + content
                } else {
                    content
                },
            )
        },
    }
}

/// The blocks that a message adds, with their role.
spec fn added(m: MessageView) -> Seq<(Option<Seq<char>>, JsonView)> {
    match m {
        MessageView::System { .. } => Seq::empty(),
        MessageView::User { content } => seq![(Some("user"@), anthropic::text_block(content))],
        MessageView::Assistant { content, tool_calls, .. } => {
            let bs = anthropic::assistant_blocks(content, tool_calls);
            Seq::new(bs.len(), |i: int| (Some("assistant"@), bs[i]))
        },
        MessageView::ToolResult { tool_call_id, content, is_error } => seq![
            (
                Some("user"@),
                anthropic::result_block(tool_call_id, result_text(content, is_error)),
            ),
        ],
    }
}

proof fn lemma_turn_json(t: anthropic::WireTurn)
    ensures
        items_at(anthropic::turn_json(t), "content"@) == t.blocks,
        anthropic::turn_json(t).text_at("role"@) == Some(t.role),
{
    broadcast use law_added_member_is_found;

    lemma_names();
}

proof fn lemma_spoken_last(js: Seq<JsonView>, t: anthropic::WireTurn)
    requires
        js.len() > 0,
        js.last() == anthropic::turn_json(t),
    ensures
        spoken(js) == spoken(js.drop_last()) + Seq::new(
            t.blocks.len(),
            |i: int| (Some(t.role), t.blocks[i]),
        ),
{
    lemma_turn_json(t);
    assert(spoken(js) =~= spoken(js.drop_last()) + Seq::new(
        t.blocks.len(),
        |i: int| (Some(t.role), t.blocks[i]),
    ));
}

/// Turns of results are the user's.
spec fn results_are_users(turns: Seq<anthropic::WireTurn>) -> bool {
    forall|i: int| 0 <= i < turns.len() && (#[trigger] turns[i]).results ==> turns[i].role
        == "user"@
}

#[verifier::rlimit(40)]
proof fn lemma_spoken_step(so_far: (Seq<char>, Seq<anthropic::WireTurn>), m: MessageView)
    requires
        results_are_users(so_far.1),
    ensures
        results_are_users(anthropic::wire_push(so_far, m).1),
        spoken(anthropic::turns_json(anthropic::wire_push(so_far, m).1)) == spoken(
            anthropic::turns_json(so_far.1),
        ) + added(m),
{
    let turns = so_far.1;
    let next = anthropic::wire_push(so_far, m).1;
    let before = anthropic::turns_json(turns);
    let after = anthropic::turns_json(next);
    match m {
        MessageView::System { .. } => {
            assert(spoken(before) + added(m) =~= spoken(before));
        },
        MessageView::ToolResult { tool_call_id, content, is_error } => {
            let block = anthropic::result_block(tool_call_id, result_text(content, is_error));
            if turns.len() > 0 && turns.last().results {
                assert(turns[turns.len() - 1].role == "user"@);
                assert(after.drop_last() =~= before.drop_last());
                lemma_spoken_last(before, turns.last());
                lemma_spoken_last(after, next.last());
                assert(spoken(after) =~= spoken(before) + added(m));
            } else {
                assert(after.drop_last() =~= before);
                lemma_spoken_last(after, next.last());
                assert(spoken(after) =~= spoken(before) + added(m));
            }
        },
        _ => {
            assert(after.drop_last() =~= before);
            lemma_spoken_last(after, next.last());
            assert(spoken(after) =~= spoken(before) + added(m));
        },
    }
}

proof fn lemma_added(m: MessageView)
    ensures
        added(m).len() == blocks_of(m),
        is_spoken(added(m), 0, m),
{
    broadcast use law_added_member_is_found;

    lemma_names();
    if let MessageView::Assistant { content, tool_calls, .. } = m {
        let q: int = if content.len() > 0 {
            1
        } else {
            0
        };
        let bs = anthropic::assistant_blocks(content, tool_calls);
        if content.len() == 0 && tool_calls.len() == 0 {
            assert(content =~= Seq::empty());
        }
        assert forall|k: int| 0 <= k < tool_calls.len() implies is_called(
            added(m)[q + k],
            #[trigger] tool_calls[k],
        ) by {
            assert(bs[q + k] == anthropic::call_block(tool_calls[k]));
        }
    }
}

proof fn lemma_block_place(msgs: Seq<MessageView>, more: Seq<MessageView>, n: nat)
    requires
        n <= msgs.len() <= more.len(),
        forall|i: int| 0 <= i < msgs.len() ==> #[trigger] msgs[i] == more[i],
    ensures
        block_place(msgs, n) == block_place(more, n),
    decreases n,
{
    if n > 0 {
        lemma_block_place(msgs, more, (n - 1) as nat);
        assert(msgs[n - 1] == more[n - 1]);
    }
}

proof fn lemma_block_place_grows(msgs: Seq<MessageView>, n: nat, m: nat)
    requires
        n < m,
    ensures
        block_place(msgs, n) + blocks_of(msgs[n as int]) <= block_place(msgs, m),
    decreases m,
{
    if n < m - 1 {
        lemma_block_place_grows(msgs, n, (m - 1) as nat);
    }
}

proof fn lemma_spoken_moved(
    a: Seq<(Option<Seq<char>>, JsonView)>,
    b: Seq<(Option<Seq<char>>, JsonView)>,
    p: int,
    q: int,
    m: MessageView,
)
    requires
        is_spoken(a, p, m),
        forall|k: int| 0 <= k < blocks_of(m) ==> #[trigger] a[p + k] == b[q + k],
    ensures
        is_spoken(b, q, m),
{
    match m {
        MessageView::System { .. } => {},
        MessageView::Assistant { content, tool_calls, .. } => {
            let s: int = if content.len() > 0 {
                1
            } else {
                0
            };
            if content.len() > 0 || tool_calls.len() == 0 {
                assert(a[p + 0] == b[q + 0]);
            }
            let r = if content.len() > 0 {
                q + 1
            } else {
                q
            };
            assert forall|k: int| 0 <= k < tool_calls.len() implies is_called(
                b[r + k],
                #[trigger] tool_calls[k],
            ) by {
                assert(is_called(a[p + s + k], tool_calls[k]));
                assert(a[p + (s + k)] == b[q + (s + k)]);
            }
        },
        _ => {
            assert(a[p + 0] == b[q + 0]);
        },
    }
}

#[verifier::rlimit(40)]
proof fn lemma_messages_carries(msgs: Seq<MessageView>)
    ensures
        results_are_users(anthropic::wire(msgs).1),
        spoken(anthropic::turns_json(anthropic::wire(msgs).1)).len() == block_place(
            msgs,
            msgs.len(),
        ),
        forall|i: int|
            0 <= i < msgs.len() ==> is_spoken(
                spoken(anthropic::turns_json(anthropic::wire(msgs).1)),
                block_place(msgs, i as nat) as int,
                #[trigger] msgs[i],
            ),
    decreases msgs.len(),
{
    let all = spoken(anthropic::turns_json(anthropic::wire(msgs).1));
    if msgs.len() == 0 {
        assert(anthropic::turns_json(anthropic::wire(msgs).1) =~= Seq::empty());
    } else {
        let head = msgs.drop_last();
        let before = spoken(anthropic::turns_json(anthropic::wire(head).1));
        lemma_messages_carries(head);
        lemma_spoken_step(anthropic::wire(head), msgs.last());
        lemma_added(msgs.last());
        lemma_block_place(head, msgs, head.len());
        assert forall|i: int| 0 <= i < msgs.len() implies is_spoken(
            all,
            block_place(msgs, i as nat) as int,
            #[trigger] msgs[i],
        ) by {
            let p = block_place(msgs, i as nat) as int;
            if i < head.len() {
                assert(head[i] == msgs[i]);
                lemma_block_place(head, msgs, i as nat);
                lemma_block_place_grows(head, i as nat, head.len());
                lemma_spoken_moved(before, all, p, p, msgs[i]);
            } else {
                let last = added(msgs[i]);
                assert forall|k: int| 0 <= k < blocks_of(msgs[i]) implies #[trigger] last[0 + k]
                    == all[p + k] by {}
                lemma_spoken_moved(last, all, 0, p, msgs[i]);
            }
        }
    }
}

/// No message is lost on the way to the messages endpoint: the blocks of
/// each are found at their place, spoken in the right role, and there are
/// no others.
pub proof fn law_messages_carries_every_message(msgs: Seq<MessageView>)
    ensures
        ({
            let bs = spoken(anthropic::turns_json(anthropic::wire(msgs).1));
            &&& bs.len() == block_place(msgs, msgs.len())
            &&& forall|i: int|
                0 <= i < msgs.len() ==> is_spoken(
                    bs,
                    block_place(msgs, i as nat) as int,
                    #[trigger] msgs[i],
                )
        }),
{
    lemma_messages_carries(msgs);
}

/// A message of the user and an answer of the model are messages of their
/// own on the wire; only results share one.
pub proof fn law_messages_keeps_messages_apart(msgs: Seq<MessageView>, m: MessageView)
    ensures
        ({
            let before = anthropic::turns_json(anthropic::wire(msgs).1);
            let after = anthropic::turns_json(anthropic::wire(msgs.push(m)).1);
            &&& m is System ==> after == before
            &&& m is User || m is Assistant ==> after.len() == before.len() + 1 && after.take(
                before.len() as int,
            ) == before
            &&& m is ToolResult ==> before.len() <= after.len() <= before.len() + 1
        }),
{
    assert(msgs.push(m).drop_last() =~= msgs);
    let before = anthropic::turns_json(anthropic::wire(msgs).1);
    let after = anthropic::turns_json(anthropic::wire(msgs.push(m)).1);
    if m is User || m is Assistant {
        assert(after.take(before.len() as int) =~= before);
    }
}

/// The rules go into the system text, all of them and in order: each is
/// found in it as it is, behind a blank line where another stands before
/// it, and later messages leave it as it is.
pub proof fn law_rules_make_up_the_system_text(msgs: Seq<MessageView>, i: int)
    requires
        0 <= i < msgs.len(),
    ensures
        ({
            let upto = anthropic::wire(msgs.take(i)).0;
            let with = anthropic::wire(msgs.take(i + 1)).0;
            let all = anthropic::wire(msgs).0;
            &&& with.len() <= all.len()
            &&& all.take(with.len() as int) == with
            &&& msgs[i] matches MessageView::System { content } ==> with == if upto.len() == 0 {
                content
            } else {
                upto + "\n\n"@ + content
            }
            &&& !(msgs[i] is System) ==> with == upto
        }),
    decreases msgs.len(),
{
    assert(msgs.take(i + 1).drop_last() =~= msgs.take(i));
    let with = anthropic::wire(msgs.take(i + 1)).0;
    if i + 1 == msgs.len() {
        assert(msgs.take(i + 1) =~= msgs);
        assert(with.take(with.len() as int) =~= with);
    } else {
        let head = msgs.drop_last();
        law_rules_make_up_the_system_text(head, i);
        assert(head.take(i + 1) =~= msgs.take(i + 1));
        let before = anthropic::wire(head).0;
        let all = anthropic::wire(msgs).0;
        assert(all.take(with.len() as int) =~= before.take(with.len() as int));
    }
}

/// A request to the messages endpoint holds the model, every message, the
/// system text where there are rules, every tool with its name, description
/// and schema, the token limit and the temperature where one is set; it
/// asks for a stream.
pub proof fn law_messages_request_is_complete(req: ModelRequestView)
    ensures
        ({
            let body = anthropic::body_of(req);
            let tools = items_at(body, "tools"@);
            let (system, turns) = anthropic::wire(req.messages);
            &&& body.text_at("model"@) == Some(req.model)
            &&& body.member("stream"@) == Some(JsonView::Bool(true))
            &&& body.member("max_tokens"@) == Some(JsonView::PosInt(req.max_tokens as u64))
            &&& body.member("temperature"@) == req.temperature
            &&& items_at(body, "messages"@) == anthropic::turns_json(turns)
            &&& system.len() > 0 ==> body.text_at("system"@) == Some(system)
            &&& system.len() == 0 ==> body.member("system"@) is None
            &&& tools.len() == req.tools.len()
            &&& req.tools.len() == 0 ==> body.member("tools"@) is None
            &&& forall|i: int|
                0 <= i < tools.len() ==> {
                    &&& (#[trigger] tools[i]).text_at("name"@) == Some(req.tools[i].name)
                    &&& tools[i].text_at("description"@) == Some(req.tools[i].description)
                    &&& tools[i].member("input_schema"@) == Some(req.tools[i].parameters)
                }
        }),
{
    broadcast use law_added_member_is_found;

    lemma_names();
    let body = anthropic::body_of(req);
    let tools = items_at(body, "tools"@);
    assert(tools =~= anthropic::wire_tools(req.tools));
    assert forall|i: int| 0 <= i < tools.len() implies {
        &&& (#[trigger] tools[i]).text_at("name"@) == Some(req.tools[i].name)
        &&& tools[i].text_at("description"@) == Some(req.tools[i].description)
        &&& tools[i].member("input_schema"@) == Some(req.tools[i].parameters)
    } by {
        assert(tools[i] == anthropic::wire_tool(req.tools[i]));
    }
}

/// A call is measured by a JSON object that holds its id, its name and its
/// arguments.
pub proof fn law_call_is_measured_whole(c: ToolCallView)
    ensures
        crate::message::call_json(c).text_at("id"@) == Some(c.id),
        crate::message::call_json(c).text_at("name"@) == Some(c.name),
        crate::message::call_json(c).member("arguments"@) == Some(c.arguments),
{
    broadcast use law_added_member_is_found;

    lemma_names();
}

} // verus!

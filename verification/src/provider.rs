//! What the protocol adapters share: how the adapter is chosen, how HTTP
//! errors are mapped, and how the arguments of a streamed call are read.

use vstd::prelude::*;

use crate::error::{Error, ErrorView};
use crate::json::{group_json, json_of_text, json_text, no_members, Json, JsonView};
use crate::seqs::{group_views, opt_view};
use crate::text::{
    byte_len,
    chars_of,
    contains,
    copy_of,
    decimal,
    decimal_u64,
    ends_with,
    finishes_with,
    fitting_head,
    head_fit,
    holds,
    join2,
    join3,
    str_eq,
    string_of,
    trim,
    trimmed,
    utf8_len,
};
use crate::traits::{ProviderEvent, ProviderEventView};

verus! {

broadcast use {group_views, group_json};

/// The wire protocol of a provider.
#[derive(Debug, Clone, Copy, PartialEq, Eq, Structural)]
pub enum Protocol {
    /// `/v1/chat/completions`.
    OpenAi,
    /// `/v1/responses`.
    Responses,
    /// `/v1/messages`.
    Anthropic,
}

/// The protocol of a name in the configuration.
pub open spec fn protocol_named(name: Seq<char>) -> Option<Protocol> {
    if name == "openai"@ {
        Some(Protocol::OpenAi)
    } else if name == "responses"@ {
        Some(Protocol::Responses)
    } else if name == "anthropic"@ {
        Some(Protocol::Anthropic)
    } else {
        None
    }
}

/// The protocol selected by the configuration.
pub fn from_config(protocol: &str) -> (r: Result<Protocol, Error>)
    ensures
        match r {
            Ok(p) => protocol_named(protocol@) == Some(p),
            Err(e) => protocol_named(protocol@) is None && e@ == ErrorView::Config(
                "unknown provider protocol: "@ + protocol@
                    + " (supported: openai, responses, anthropic)"@,
            ),
        },
{
    if str_eq(protocol, "openai") {
        Ok(Protocol::OpenAi)
    } else if str_eq(protocol, "responses") {
        Ok(Protocol::Responses)
    } else if str_eq(protocol, "anthropic") {
        Ok(Protocol::Anthropic)
    } else {
        Err(
            Error::Config(
                join3(
                    "unknown provider protocol: ",
                    protocol,
                    " (supported: openai, responses, anthropic)",
                ),
            ),
        )
    }
}

/// The address of an endpoint below a base address, which may or may not
/// end in the API version.
pub open spec fn endpoint_of(base_url: Seq<char>, path: Seq<char>) -> Seq<char> {
    if finishes_with(base_url, "/v1"@) {
        base_url + path
    } else {
        base_url + "/v1"@ + path
    }
}

/// The address of an endpoint below a base address.
pub fn endpoint_below(base_url: &str, path: &str) -> (r: String)
    ensures
        r@ == endpoint_of(base_url@, path@),
{
    if ends_with(base_url, "/v1") {
        join2(base_url, path)
    } else {
        join3(base_url, "/v1", path)
    }
}

/// The lowercase form of a text, as `str::to_lowercase` gives it.
pub uninterp spec fn unicode_lower(s: Seq<char>) -> Seq<char>;

/// `str::to_lowercase`: the lowercase form is a function of the text.
#[verifier::external_body]
fn to_lowercase(s: &str) -> (r: String)
    ensures
        r@ == unicode_lower(s@),
{
    s.to_lowercase()
}

/// Whether an error body, in lowercase, says that the conversation does not
/// fit the context window.
pub open spec fn says_overflow(lower: Seq<char>) -> bool {
    holds(lower, "context length"@) || holds(lower, "context_length"@) || holds(
        lower,
        "maximum context"@,
    ) || holds(lower, "too many tokens"@) || holds(lower, "reduce the length"@) || holds(
        lower,
        "prompt is too long"@,
    ) || (holds(lower, "context"@) && holds(lower, "window"@))
}

/// Whether an error body, in lowercase, says that the conversation does not
/// fit the context window.
pub fn mentions_overflow(lower: &str) -> (r: bool)
    ensures
        r == says_overflow(lower@),
{
    contains(lower, "context length") || contains(lower, "context_length") || contains(
        lower,
        "maximum context",
    ) || contains(lower, "too many tokens") || contains(lower, "reduce the length") || contains(
        lower,
        "prompt is too long",
    ) || (contains(lower, "context") && contains(lower, "window"))
}

/// The first of the given members that is there.
pub open spec fn first_of(a: Option<JsonView>, b: Option<JsonView>) -> Option<JsonView> {
    match a {
        Some(v) => Some(v),
        None => b,
    }
}

/// The message in an error body: `error.message`, else `message`, else
/// `msg_detail`, else `error`, where the first of these that is there is a
/// text; else the whole body, written compactly.
pub open spec fn json_error_message(v: JsonView) -> Seq<char> {
    let found = first_of(
        v.member2("error"@, "message"@),
        first_of(
            v.member("message"@),
            first_of(v.member("msg_detail"@), v.member("error"@)),
        ),
    );
    match found {
        Some(f) => match f.text() {
            Some(t) => t,
            None => json_text(v),
        },
        None => json_text(v),
    }
}

/// The message in an error body that is JSON.
pub fn describe_error(v: &Json) -> (r: String)
    ensures
        r@ == json_error_message(v@),
{
    let found = match v.get2("error", "message") {
        Some(f) => Some(f),
        None => match v.get("message") {
            Some(f) => Some(f),
            None => match v.get("msg_detail") {
                Some(f) => Some(f),
                None => v.get("error"),
            },
        },
    };
    match found {
        Some(f) => match f.as_str() {
            Some(t) => copy_of(t),
            None => v.to_text(),
        },
        None => v.to_text(),
    }
}

/// An error body cut for display: as much of it as 400 bytes hold, and an
/// ellipsis.
pub open spec fn cut_body(body: Seq<char>) -> Seq<char> {
    if utf8_len(body) <= 400 {
        body
    } else {
        body.take(fitting_head(body, 400) as int) + "…"@
    }
}

/// Truncates an error body for display, never in the middle of a character.
pub fn truncate_body(body: &str) -> (r: String)
    ensures
        r@ == cut_body(body@),
{
    if byte_len(body) <= 400 {
        return copy_of(body);
    }
    let v = chars_of(body);
    let k: usize = head_fit(&v, 400);
    let head = string_of(&v, 0, k);
    assert(head@ =~= body@.take(k as int));
    join2(&head, "…")
}

/// The message in an error body that was read as `parsed`: by its members
/// where it is JSON, else the body itself, cut.
pub open spec fn error_message(body: Seq<char>, parsed: Option<JsonView>) -> Seq<char> {
    match parsed {
        Some(v) => json_error_message(v),
        None => cut_body(body),
    }
}

/// Pulls a readable message out of an error body.
pub fn extract_error_message(body: &str) -> (r: String)
    ensures
        r@ == error_message(body@, json_of_text(body@)),
{
    match Json::parse(body) {
        Some(v) => describe_error(&v),
        None => truncate_body(body),
    }
}

/// The error for a response that is not a success: overflow markers become
/// [`Error::ContextWindowExceeded`], so that the agent can compact and try
/// again.
pub fn map_http_error(status: u16, body: &str) -> (r: Error)
    ensures
        r@ == if says_overflow(unicode_lower(body@)) {
            ErrorView::ContextWindowExceeded { used: 0, limit: 0 }
        } else {
            ErrorView::Provider(
                "API error (HTTP "@ + decimal(status as nat) + "): "@ + error_message(
                    body@,
                    json_of_text(body@),
                ),
            )
        },
{
    let lower = to_lowercase(body);
    if mentions_overflow(&lower) {
        return Error::ContextWindowExceeded { used: 0, limit: 0 };
    }
    let head = join3("API error (HTTP ", &decimal_u64(status as u64), "): ");
    Error::Provider(join2(&head, &extract_error_message(body)))
}

/// The arguments of a call whose streamed text is `args`, read as `parsed`:
/// an empty object where there is no text, the value where it is JSON, else
/// the raw text in an object.
pub open spec fn call_arguments(args: Seq<char>, parsed: Option<JsonView>) -> JsonView {
    if trimmed(args).len() == 0 {
        no_members()
    } else {
        match parsed {
            Some(v) => v,
            None => no_members().plus("_raw"@, JsonView::Str(args)),
        }
    }
}

/// The arguments of a call, given its streamed text and what reading that
/// text as JSON gave.
pub fn arguments_from(args: &str, parsed: Option<Json>) -> (r: Json)
    ensures
        r@ == call_arguments(args@, opt_view(parsed)),
{
    if trim(args).as_str().is_empty() {
        Json::object()
    } else {
        match parsed {
            Some(v) => v,
            None => Json::object().with("_raw", Json::string(args)),
        }
    }
}

/// The arguments of a call, given its streamed text.
pub fn read_arguments(args: &str) -> (r: Json)
    ensures
        r@ == call_arguments(args@, json_of_text(args@)),
{
    arguments_from(args, Json::parse(args))
}

/// The event for a broken transport.
pub open spec fn interrupted(err: Seq<char>) -> ProviderEventView {
    ProviderEventView::ProviderError { message: "stream interrupted: "@ + err }
}

/// The event for a broken transport.
pub fn interruption(err: &str) -> (r: ProviderEvent)
    ensures
        r@ == interrupted(err@),
{
    ProviderEvent::ProviderError { message: join2("stream interrupted: ", err) }
}

/// The text that a provider sees for a tool result.
pub open spec fn result_text(content: Seq<char>, is_error: bool) -> Seq<char> {
    if is_error {
        "[error] "@ + content
    } else {
        content
    }
}

/// The text that a provider sees for a tool result.
pub fn tool_result_text(content: &str, is_error: bool) -> (r: String)
    ensures
        r@ == result_text(content@, is_error),
{
    if is_error {
        join2("[error] ", content)
    } else {
        copy_of(content)
    }
}

/// Whether a frame carries nothing: it is empty or the end marker.
pub open spec fn is_blank(payload: Seq<char>) -> bool {
    payload.len() == 0 || payload == "[DONE]"@
}

/// The value in a frame; nothing where the frame is blank or not JSON.
pub open spec fn frame_value(data: Seq<char>) -> Option<JsonView> {
    if is_blank(trimmed(data)) {
        None
    } else {
        json_of_text(trimmed(data))
    }
}

/// The value in a frame.
pub fn read_frame(data: &str) -> (r: Option<Json>)
    ensures
        opt_view(r) == frame_value(data@),
{
    let payload = trim(data);
    if payload.as_str().is_empty() || str_eq(&payload, "[DONE]") {
        None
    } else {
        Json::parse(&payload)
    }
}

/// The names of the configuration select the protocols that they say, and no
/// other text selects one.
pub proof fn law_protocols_go_by_their_names(name: Seq<char>)
    ensures
        name == "openai"@ <==> protocol_named(name) == Some(Protocol::OpenAi),
        name == "responses"@ <==> protocol_named(name) == Some(Protocol::Responses),
        name == "anthropic"@ <==> protocol_named(name) == Some(Protocol::Anthropic),
{
    reveal_strlit("openai");
    reveal_strlit("responses");
    reveal_strlit("anthropic");
    assert("openai"@.len() == 6 && "responses"@.len() == 9 && "anthropic"@.len() == 9);
    assert("responses"@[0] == 'r' && "anthropic"@[0] == 'a');
}

/// An endpoint is the base address, the API version once, and the path:
/// whether or not the base address already ends in the version.
pub proof fn law_endpoint_holds_the_version_once(base: Seq<char>, path: Seq<char>)
    ensures
        endpoint_of(base + "/v1"@, path) == base + "/v1"@ + path,
        !finishes_with(base, "/v1"@) ==> endpoint_of(base, path) == base + "/v1"@ + path,
        finishes_with(base, "/v1"@) ==> endpoint_of(base, path) == base + path,
{
    let b = base + "/v1"@;
    assert(b.skip(b.len() - "/v1"@.len()) =~= "/v1"@);
}

/// An error that says that the conversation does not fit is told from all
/// others by what its text mentions.
pub proof fn law_overflow_is_recognized(before: Seq<char>, after: Seq<char>, lower: Seq<char>)
    ensures
        says_overflow(before + "context length"@ + after),
        says_overflow(before + "context_length"@ + after),
        says_overflow(before + "maximum context"@ + after),
        says_overflow(before + "too many tokens"@ + after),
        says_overflow(before + "reduce the length"@ + after),
        says_overflow(before + "prompt is too long"@ + after),
        holds(lower, "context"@) && holds(lower, "window"@) ==> says_overflow(lower),
        says_overflow(lower) ==> holds(lower, "context length"@) || holds(
            lower,
            "context_length"@,
        ) || holds(lower, "maximum context"@) || holds(lower, "too many tokens"@) || holds(
            lower,
            "reduce the length"@,
        ) || holds(lower, "prompt is too long"@) || (holds(lower, "context"@) && holds(
            lower,
            "window"@,
        )),
{
    lemma_holds_between(before, "context length"@, after);
    lemma_holds_between(before, "context_length"@, after);
    lemma_holds_between(before, "maximum context"@, after);
    lemma_holds_between(before, "too many tokens"@, after);
    lemma_holds_between(before, "reduce the length"@, after);
    lemma_holds_between(before, "prompt is too long"@, after);
}

proof fn lemma_holds_between(before: Seq<char>, p: Seq<char>, after: Seq<char>)
    ensures
        holds(before + p + after, p),
{
    let s = before + p + after;
    let k = before.len() as int;
    assert(s.subrange(k, k + p.len()) =~= p);
    assert(crate::text::holds_at(s, p, k));
}

/// The user sees the most precise message that an error body holds: the one
/// of its error, else its own, else its detail, else the error itself; and
/// the whole body where none of these is a text.
pub proof fn law_error_message_is_the_most_precise(v: JsonView)
    ensures
        v.text_at2("error"@, "message"@) matches Some(t) ==> json_error_message(v) == t,
        v.member2("error"@, "message"@) is None && v.text_at("message"@) is Some
            ==> json_error_message(v) == v.text_at("message"@)->0,
        v.member2("error"@, "message"@) is None && v.member("message"@) is None && v.text_at(
            "msg_detail"@,
        ) is Some ==> json_error_message(v) == v.text_at("msg_detail"@)->0,
        v.member2("error"@, "message"@) is None && v.member("message"@) is None && v.member(
            "msg_detail"@,
        ) is None && v.text_at("error"@) is Some ==> json_error_message(v) == v.text_at(
            "error"@,
        )->0,
        v.member2("error"@, "message"@) is None && v.member("message"@) is None && v.member(
            "msg_detail"@,
        ) is None && v.text_at("error"@) is None ==> json_error_message(v) == json_text(v),
{
}

/// A body that is shown is cut at 400 bytes, never inside a character, and
/// what is shown of it is its beginning.
pub proof fn law_shown_body_is_its_beginning(body: Seq<char>)
    ensures
        utf8_len(body) <= 400 ==> cut_body(body) == body,
        utf8_len(body) > 400 ==> exists|k: int|
            #![trigger body.take(k)]
            0 <= k < body.len() && cut_body(body) == body.take(k) + "…"@ && utf8_len(body.take(k))
                <= 400 && utf8_len(body.take(k + 1)) > 400,
{
    if utf8_len(body) > 400 {
        let k = fitting_head(body, 400) as int;
        crate::text::lemma_fitting_head(body, 400);
        if k == body.len() {
            assert(body.take(k) =~= body);
        }
        assert(cut_body(body) == body.take(k) + "…"@);
    }
}

/// The arguments of a call are the value of its text; nothing but white
/// space stands for no arguments, and a text that is not JSON is kept.
pub proof fn law_arguments_are_kept(args: Seq<char>, v: JsonView)
    ensures
        trimmed(args).len() > 0 ==> call_arguments(args, Some(v)) == v,
        trimmed(args).len() > 0 ==> call_arguments(args, None).text_at("_raw"@) == Some(args),
        trimmed(args).len() == 0 ==> call_arguments(args, Some(v)) == no_members()
            && call_arguments(args, None) == no_members(),
{
    broadcast use crate::json::law_added_member_is_found;

}

/// A frame holds the value of its text; white space around it does not
/// count, and a blank frame and the end marker hold nothing.
pub proof fn law_frame_holds_its_value(data: Seq<char>)
    ensures
        trimmed(data).len() == 0 ==> frame_value(data) is None,
        trimmed(data) == "[DONE]"@ ==> frame_value(data) is None,
        trimmed(data).len() > 0 && trimmed(data) != "[DONE]"@ ==> frame_value(data)
            == json_of_text(trimmed(data)),
{
}

/// The message of an error body is read out of its value where it is JSON,
/// and is the body itself, cut, where it is not.
pub proof fn law_unreadable_body_is_shown(body: Seq<char>, v: JsonView)
    ensures
        error_message(body, Some(v)) == json_error_message(v),
        error_message(body, None) == cut_body(body),
{
}

/// The model is told which results are errors: those carry a mark in front,
/// and every result is passed on whole.
pub proof fn law_failed_results_are_marked(content: Seq<char>)
    ensures
        result_text(content, false) == content,
        result_text(content, true) == "[error] "@ + content,
{
}

} // verus!

//! The three wire protocols: request bodies, and streams read frame by
//! frame.

use eventsource_stream::Eventsource;
use forge::anthropic;
use forge::error::Error;
use forge::json::Json;
use forge::message::{Message, ToolCall, Usage};
use forge::openai::{self, apply_fragment, parse_chunk, FragmentState, OpenAiProvider};
use forge::provider::{
    describe_error, endpoint_below, extract_error_message, from_config, map_http_error,
    read_arguments, read_frame, truncate_body, Protocol,
};
use forge::responses;
use forge::traits::{ModelRequest, ProviderEvent, ToolSpec};
use futures::StreamExt;

/// The frames of an event stream, as name and data.
fn frames(body: &'static str) -> Vec<(String, String)> {
    let bytes = futures::stream::iter(vec![Ok::<&[u8], std::io::Error>(body.as_bytes())]);
    futures::executor::block_on(
        bytes.eventsource().map(|e| e.unwrap()).map(|e| (e.event, e.data)).collect(),
    )
}

fn openai_stream(body: &'static str, broken: Option<&str>) -> Vec<ProviderEvent> {
    let mut st = FragmentState::default();
    let mut out = Vec::new();
    for (_, data) in frames(body) {
        out.extend(st.on_frame(&data));
    }
    if let Some(e) = broken {
        st.on_transport_error(e);
    }
    out.extend(st.finalize());
    out
}

fn responses_stream(body: &'static str, broken: Option<&str>) -> Vec<ProviderEvent> {
    let mut st = responses::StreamState::new();
    let mut out = Vec::new();
    for (name, data) in frames(body) {
        out.extend(responses::handle_frame(&name, &data, &mut st));
    }
    if let Some(e) = broken {
        st.on_transport_error(e);
    }
    out.extend(st.finalize());
    out
}

fn anthropic_stream(body: &'static str, broken: Option<&str>) -> Vec<ProviderEvent> {
    let mut st = anthropic::StreamState::new();
    let mut out = Vec::new();
    for (_, data) in frames(body) {
        out.extend(anthropic::handle_frame(&data, &mut st));
    }
    if let Some(e) = broken {
        st.on_transport_error(e);
    }
    out.extend(st.finalize());
    out
}

struct Seen {
    text: String,
    reasoning: String,
    calls: Vec<ToolCall>,
    usage: Option<Usage>,
    error: Option<String>,
    done: bool,
}

fn seen(events: Vec<ProviderEvent>) -> Seen {
    let mut s = Seen {
        text: String::new(),
        reasoning: String::new(),
        calls: vec![],
        usage: None,
        error: None,
        done: false,
    };
    for ev in events {
        assert!(!s.done, "nothing may follow the end");
        match ev {
            ProviderEvent::MessageDelta { delta } => s.text.push_str(&delta),
            ProviderEvent::ReasoningDelta { delta } => s.reasoning.push_str(&delta),
            ProviderEvent::ToolCalls { calls } => s.calls = calls,
            ProviderEvent::Usage { usage } => s.usage = Some(usage),
            ProviderEvent::ProviderError { message } => s.error = Some(message),
            ProviderEvent::Done => s.done = true,
            ProviderEvent::ToolCallFragment { .. } => {}
        }
    }
    s
}

// ---- chat completions ----

#[test]
fn streams_deltas_and_usage() {
    let s = seen(openai_stream(
        "data: {\"choices\":[{\"delta\":{\"reasoning_content\":\"think\"}}]}\n\n\
         data: {\"choices\":[{\"delta\":{\"content\":\"He\"}}]}\n\n\
         data: {\"choices\":[{\"delta\":{\"content\":\"llo\"}}]}\n\n\
         data: {\"choices\":[],\"usage\":{\"prompt_tokens\":10,\"completion_tokens\":3,\"total_tokens\":13}}\n\n\
         data: [DONE]\n\n",
        None,
    ));
    assert_eq!(s.reasoning, "think");
    assert_eq!(s.text, "Hello");
    assert_eq!(s.usage.map(|u| u.total_tokens), Some(13));
    assert!(s.done);
}

#[test]
fn tool_call_fragments_reassemble() {
    let s = seen(openai_stream(
        "data: {\"choices\":[{\"delta\":{\"tool_calls\":[{\"index\":0,\"id\":\"c1\",\"function\":{\"name\":\"shell\",\"arguments\":\"{\\\"co\"}}]}}]}\n\n\
         data: {\"choices\":[{\"delta\":{\"tool_calls\":[{\"index\":0,\"function\":{\"arguments\":\"mmand\\\":\\\"ls\\\"}\"}}]}}]}\n\n\
         data: [DONE]\n\n",
        None,
    ));
    assert_eq!(s.calls.len(), 1);
    assert_eq!(s.calls[0].id, "c1");
    assert_eq!(s.calls[0].name, "shell");
    assert_eq!(s.calls[0].arguments.str_at("command"), Some("ls"));
}

#[test]
fn http_overflow_maps_to_context_error() {
    let body = "{\"error\":{\"message\":\"This model's maximum context length is 4096 tokens\"}}";
    let err = map_http_error(400, body);
    assert!(err.is_context_window_exceeded(), "got: {err:?}");
}

#[test]
fn transport_interruption_surfaces_as_provider_error() {
    let s = seen(openai_stream(
        "data: {\"choices\":[{\"delta\":{\"content\":\"partial ans\"}}]}\n\n",
        Some("connection reset"),
    ));
    assert!(s.done, "stream must still terminate");
    let msg = s.error.expect("transport break must surface as ProviderError");
    assert!(msg.contains("stream interrupted"), "got: {msg}");
    assert_eq!(s.text, "partial ans");
}

#[test]
fn truncate_body_never_splits_utf8() {
    // 100 CJK chars = 300 bytes; add more so len > 400 and the 400th
    // byte lands mid-character.
    let body = "汉".repeat(200);
    let out = truncate_body(&body);
    assert!(out.chars().count() < 200);
    assert!(out.ends_with('…'));
    // Sanity: identical behavior for ASCII (400 bytes + the 3-byte ellipsis).
    assert_eq!(truncate_body(&"a".repeat(500)).len(), 403);
    assert_eq!(truncate_body("short"), "short");
}

#[test]
fn error_null_frame_is_ignored() {
    let mut acc = Vec::new();
    parse_chunk(r#"{"error":null,"choices":[]}"#, &mut acc);
    assert!(
        !acc.iter().any(|e| matches!(e, ProviderEvent::ProviderError { .. })),
        "error:null must not abort the turn, got {acc:?}"
    );
}

#[test]
fn usage_without_total_is_dropped() {
    let mut acc = Vec::new();
    parse_chunk(r#"{"usage":{"prompt_tokens":10}}"#, &mut acc);
    assert!(
        !acc.iter().any(|e| matches!(e, ProviderEvent::Usage { .. })),
        "usage missing total_tokens must not zero the accounting, got {acc:?}"
    );
}

#[test]
fn tool_call_fragment_index_is_bounded() {
    // The index comes from the server; a bogus huge value must not
    // allocate an unbounded fragment vec.
    let mut st = FragmentState::default();
    assert!(!apply_fragment(&mut st, 100_000_000, "c1", "shell", "{}"));
    assert!(st.fragments.is_empty());
    // A sane index still assembles.
    assert!(apply_fragment(&mut st, 0, "c1", "shell", r#"{"co"#));
    assert!(apply_fragment(&mut st, 0, "", "", r#"mmand":"ls"}"#));
    assert_eq!(st.fragments[0].name, "shell");
}

#[test]
fn finalize_drops_placeholder_calls() {
    // A fragment stream starting at index 1 leaves a placeholder at 0;
    // finalize must not surface the empty call.
    let mut st = FragmentState::default();
    assert!(apply_fragment(&mut st, 1, "c1", "shell", "{}"));
    let calls = seen(st.finalize()).calls;
    assert_eq!(calls.len(), 1);
    assert_eq!(calls[0].id, "c1");
}

#[test]
fn openai_error_frame_surfaces() {
    let mut acc = Vec::new();
    parse_chunk(r#"{"error":{"message":"nope"}}"#, &mut acc);
    assert_eq!(acc, vec![ProviderEvent::ProviderError { message: "nope".into() }]);
}

// ---- responses ----

#[test]
fn responses_text_and_usage() {
    let s = seen(responses_stream(
        "event: response.output_text.delta\n\
         data: {\"type\":\"response.output_text.delta\",\"delta\":\"He\"}\n\n\
         event: response.output_text.delta\n\
         data: {\"type\":\"response.output_text.delta\",\"delta\":\"llo\"}\n\n\
         event: response.completed\n\
         data: {\"type\":\"response.completed\",\"response\":{\"usage\":{\"input_tokens\":10,\"output_tokens\":3,\"total_tokens\":13}}}\n\n\
         data: {\"error\":{\"message\":\"upstream returned empty content\",\"type\":\"server_error\"}}\n\n\
         data: [DONE]\n\n",
        None,
    ));
    // Trailing gateway error after content must NOT surface.
    assert_eq!(s.error, None);
    assert_eq!(s.text, "Hello");
    assert_eq!(s.usage.map(|u| u.total_tokens), Some(13));
    assert!(s.done);
}

#[test]
fn responses_tool_call_reassembly() {
    let s = seen(responses_stream(
        "event: response.output_item.added\n\
         data: {\"type\":\"response.output_item.added\",\"output_index\":0,\"item\":{\"type\":\"function_call\",\"call_id\":\"call_x\",\"name\":\"shell\"}}\n\n\
         event: response.function_call_arguments.delta\n\
         data: {\"type\":\"response.function_call_arguments.delta\",\"output_index\":0,\"delta\":\"{\\\"co\"}\n\n\
         event: response.function_call_arguments.delta\n\
         data: {\"type\":\"response.function_call_arguments.delta\",\"output_index\":0,\"delta\":\"mmand\\\":\\\"ls\\\"}\"}\n\n\
         event: response.function_call_arguments.done\n\
         data: {\"type\":\"response.function_call_arguments.done\",\"output_index\":0,\"arguments\":\"{\\\"command\\\":\\\"ls\\\"}\"}\n\n\
         event: response.completed\n\
         data: {\"type\":\"response.completed\",\"response\":{\"usage\":{\"input_tokens\":20,\"output_tokens\":5,\"total_tokens\":25}}}\n\n\
         data: [DONE]\n\n",
        None,
    ));
    assert_eq!(s.calls.len(), 1);
    assert_eq!(s.calls[0].id, "call_x");
    assert_eq!(s.calls[0].name, "shell");
    assert_eq!(s.calls[0].arguments.str_at("command"), Some("ls"));
}

#[test]
fn responses_error_without_content_surfaces() {
    let s = seen(responses_stream(
        "data: {\"error\":{\"message\":\"upstream returned empty content\"}}\n\n",
        None,
    ));
    assert_eq!(s.error.as_deref(), Some("upstream returned empty content"));
    let s = seen(responses_stream("", Some("reset")));
    assert!(s.error.unwrap().contains("stream interrupted"));
    assert!(s.done);
}

#[test]
fn responses_calls_come_in_the_order_of_their_index() {
    let s = seen(responses_stream(
        "data: {\"type\":\"response.output_item.added\",\"output_index\":7,\"item\":{\"type\":\"function_call\",\"call_id\":\"late\",\"name\":\"shell\"}}\n\n\
         data: {\"type\":\"response.output_item.added\",\"output_index\":2,\"item\":{\"type\":\"function_call\",\"call_id\":\"early\",\"name\":\"shell\"}}\n\n",
        None,
    ));
    let ids: Vec<&str> = s.calls.iter().map(|c| c.id.as_str()).collect();
    assert_eq!(ids, vec!["early", "late"]);
}

#[test]
fn responses_failure_is_not_lost_to_a_stray_error() {
    let s = seen(responses_stream(
        "data: {\"type\":\"response.completed\",\"response\":{\"usage\":{\"input_tokens\":1,\"output_tokens\":1,\"total_tokens\":2}}}\n\n\
         data: {\"type\":\"response.failed\",\"response\":{\"error\":{\"message\":\"boom\"}}}\n\n\
         data: {\"error\":{\"message\":\"upstream\"}}\n\n",
        None,
    ));
    assert_eq!(s.error.as_deref(), Some("boom"));
}

// ---- messages ----

#[test]
fn anthropic_text_thinking_and_tools() {
    let s = seen(anthropic_stream(
        "event: message_start\n\
         data: {\"type\":\"message_start\",\"message\":{\"usage\":{\"input_tokens\":11}}}\n\n\
         event: content_block_start\n\
         data: {\"type\":\"content_block_start\",\"index\":0,\"content_block\":{\"type\":\"thinking\"}}\n\n\
         event: content_block_delta\n\
         data: {\"type\":\"content_block_delta\",\"index\":0,\"delta\":{\"type\":\"thinking_delta\",\"thinking\":\"hmm\"}}\n\n\
         event: content_block_delta\n\
         data: {\"type\":\"content_block_delta\",\"index\":1,\"delta\":{\"type\":\"text_delta\",\"text\":\"Hi\"}}\n\n\
         event: content_block_start\n\
         data: {\"type\":\"content_block_start\",\"index\":2,\"content_block\":{\"type\":\"tool_use\",\"id\":\"toolu_1\",\"name\":\"shell\"}}\n\n\
         event: content_block_delta\n\
         data: {\"type\":\"content_block_delta\",\"index\":2,\"delta\":{\"type\":\"input_json_delta\",\"partial_json\":\"{\\\"command\\\":\\\"dir\\\"}\"}}\n\n\
         event: message_delta\n\
         data: {\"type\":\"message_delta\",\"usage\":{\"output_tokens\":9}}\n\n\
         data: [DONE]\n\n",
        None,
    ));
    assert_eq!(s.text, "Hi");
    assert_eq!(s.reasoning, "hmm");
    assert_eq!(s.calls.len(), 1);
    assert_eq!(s.calls[0].id, "toolu_1");
    assert_eq!(s.calls[0].arguments.str_at("command"), Some("dir"));
    assert_eq!(s.usage.map(|u| u.total_tokens), Some(20)); // 11 + 9
}

#[test]
fn anthropic_error_frame_surfaces() {
    let s = seen(anthropic_stream(
        "event: error\n\
         data: {\"type\":\"error\",\"error\":{\"type\":\"overloaded_error\",\"message\":\"Overloaded\"}}\n\n",
        None,
    ));
    assert_eq!(s.error.as_deref(), Some("Overloaded"));
}

#[test]
fn anthropic_counts_cached_tokens() {
    let s = seen(anthropic_stream(
        "data: {\"type\":\"message_start\",\"message\":{\"usage\":{\"input_tokens\":1,\"cache_read_input_tokens\":10,\"cache_creation_input_tokens\":100}}}\n\n\
         data: {\"type\":\"message_delta\",\"usage\":{\"output_tokens\":1000}}\n\n",
        None,
    ));
    assert_eq!(
        s.usage,
        Some(Usage { input_tokens: 111, output_tokens: 1000, total_tokens: 1111 })
    );
}

#[test]
fn anthropic_transport_break_surfaces() {
    let s = seen(anthropic_stream("", Some("reset")));
    assert!(s.error.unwrap().contains("stream interrupted"));
    assert!(s.done);
}

// ---- requests ----

fn conversation() -> Vec<Message> {
    let call = |id: &str| ToolCall {
        id: id.into(),
        name: "shell".into(),
        arguments: Json::object().with("command", Json::string("ls")),
    };
    vec![
        Message::system("rules"),
        Message::user("go"),
        Message::Assistant {
            content: String::new(),
            reasoning: None,
            tool_calls: vec![call("a"), call("b")],
        },
        Message::ToolResult { tool_call_id: "a".into(), content: "1".into(), is_error: false },
        Message::ToolResult { tool_call_id: "b".into(), content: "2".into(), is_error: true },
    ]
}

fn request() -> ModelRequest {
    ModelRequest {
        messages: conversation(),
        tools: vec![ToolSpec {
            name: "shell".into(),
            description: "runs".into(),
            parameters: Json::object(),
        }],
        model: "m".into(),
        temperature: Some(Json::Float("0.5".into())),
        max_tokens: 64,
        stream_reasoning: false,
    }
}

fn value(j: &Json) -> serde_json::Value {
    serde_json::from_str(&j.to_text()).unwrap()
}

#[test]
fn openai_request_body() {
    let v = value(&openai::request_body(&request()));
    assert_eq!(v["model"], "m");
    assert_eq!(v["temperature"], 0.5);
    assert_eq!(v["stream"], true);
    assert_eq!(v["messages"][0]["role"], "system");
    assert_eq!(v["messages"][1]["content"], "go");
    assert_eq!(v["messages"][2]["tool_calls"][1]["id"], "b");
    assert_eq!(
        v["messages"][2]["tool_calls"][0]["function"]["arguments"],
        "{\"command\":\"ls\"}"
    );
    assert_eq!(v["messages"][3]["role"], "tool");
    assert_eq!(v["messages"][4]["tool_call_id"], "b");
    assert_eq!(v["tools"][0]["function"]["name"], "shell");
}

#[test]
fn responses_request_body() {
    let v = value(&responses::request_body(&request()));
    assert_eq!(v["model"], "m");
    assert_eq!(v["stream"], true);
    let input = v["input"].as_array().unwrap();
    assert!(input.iter().any(|i| i["type"] == "function_call" && i["call_id"] == "a"));
    assert!(input.iter().any(|i| i["type"] == "function_call_output" && i["call_id"] == "b"));
    assert_eq!(v["tools"][0]["name"], "shell");
}

#[test]
fn anthropic_merges_parallel_results() {
    let v = value(&anthropic::request_body(&request()));
    assert_eq!(v["system"], "rules");
    let msgs = v["messages"].as_array().unwrap();
    assert_eq!(msgs.len(), 3, "user, assistant, one message of results: {v}");
    assert_eq!(msgs[1]["content"][0]["type"], "tool_use");
    assert_eq!(msgs[2]["role"], "user");
    let results = msgs[2]["content"].as_array().unwrap();
    assert_eq!(results.len(), 2);
    assert_eq!(results[0]["tool_use_id"], "a");
    assert_eq!(results[1]["content"], "[error] 2");
}

// ---- what the protocols share ----

#[test]
fn protocols_by_name() {
    assert_eq!(from_config("openai"), Ok(Protocol::OpenAi));
    assert_eq!(from_config("responses"), Ok(Protocol::Responses));
    assert_eq!(from_config("anthropic"), Ok(Protocol::Anthropic));
    assert!(matches!(from_config("smtp"), Err(Error::Config(m)) if m.contains("smtp")));
}

#[test]
fn endpoints() {
    let p = OpenAiProvider::new("https://api.example.com/");
    assert_eq!(p.base_url(), "https://api.example.com");
    assert_eq!(p.endpoint(), "https://api.example.com/v1/chat/completions");
    assert_eq!(
        endpoint_below("https://h/v1", "/chat/completions"),
        "https://h/v1/chat/completions"
    );
    assert_eq!(
        anthropic::AnthropicProvider::new("https://h").endpoint(),
        "https://h/v1/messages"
    );
    assert_eq!(
        responses::ResponsesProvider::new("https://h/v1/").endpoint(),
        "https://h/v1/responses"
    );
}

#[test]
fn http_errors() {
    let e = map_http_error(500, r#"{"error":{"message":"boom"}}"#);
    assert!(!e.is_context_window_exceeded());
    assert!(e.message().contains("500") && e.message().contains("boom"), "{}", e.message());
    assert_eq!(extract_error_message(r#"{"error":{"message":"boom"}}"#), "boom");
    assert_eq!(extract_error_message("plain"), "plain");
    // The overflow is recognized whatever the case of its letters.
    assert!(map_http_error(400, "MAXIMUM CONTEXT LENGTH").is_context_window_exceeded());
}

#[test]
fn described_errors() {
    assert_eq!(describe_error(&Json::parse(r#"{"message":"m"}"#).unwrap()), "m");
    assert_eq!(describe_error(&Json::parse(r#"{"error":"e"}"#).unwrap()), "e");
    assert_eq!(describe_error(&Json::parse(r#"{"msg_detail":"d"}"#).unwrap()), "d");
    assert_eq!(describe_error(&Json::string("text")), "\"text\"");
}

#[test]
fn arguments_that_are_no_json_are_kept() {
    assert_eq!(read_arguments(r#"{"a":1}"#), Json::object().with("a", Json::PosInt(1)));
    assert_eq!(read_arguments(""), Json::object());
    let kept = read_arguments("not json");
    assert!(kept.to_text().contains("not json"), "{}", kept.to_text());
}

#[test]
fn frames_that_carry_nothing() {
    assert_eq!(read_frame("[DONE]"), None);
    assert_eq!(read_frame("{broken"), None);
    assert_eq!(read_frame("  {} "), Some(Json::object()));
}

#[test]
fn json_text_and_values() {
    let text = r#"{"b":[null,true,1,-2,"é\n"],"a":{"x":0.25}}"#;
    let j = Json::parse(text).unwrap();
    assert_eq!(j.get2("a", "x"), Some(&Json::Float("0.25".into())));
    assert_eq!(j.get("b").unwrap().as_array().unwrap().len(), 5);
    assert_eq!(value(&j), serde_json::from_str::<serde_json::Value>(text).unwrap());
    assert_eq!(Json::parse("{"), None);
    assert_eq!(Json::parse("18446744073709551615"), Some(Json::PosInt(u64::MAX)));
    assert_eq!(Json::parse("-9223372036854775808"), Some(Json::NegInt(i64::MIN)));
}

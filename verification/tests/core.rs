//! History, compaction, token accounting, recovery, permissions, approvals,
//! budgets and the registry.

use std::sync::Arc;

use forge::approval::{is_approved, ApprovalGate};
use forge::budget::TurnBudget;
use forge::compact::{
    build_compacted_history, message_is_summary, replacement_history, retained_user_messages,
    shrink_for_overflow, truncate_middle_bytes, CompactStep, Compaction,
    COMPACT_USER_MESSAGE_MAX_TOKENS, SUMMARIZATION_PROMPT, SUMMARY_PREFIX,
};
use forge::config::{BudgetConfig, Config, ContextConfig, PermissionConfig};
use forge::context::{approx_token_count, approx_tokens_for_message, ContextManager, TokenAccounting};
use forge::error::Error;
use forge::history::History;
use forge::json::Json;
use forge::message::{Message, ToolCall, Usage};
use forge::permissions::{Rule, RulePolicy};
use forge::recovery::recover_unanswered_calls;
use forge::registry::{Named, Registry};
use forge::runtime::{crash_events, Runtime};
use forge::session::{
    AllowAll, PermissionDecision, PermissionPolicy, ToolEvent, ToolEventState,
};
use forge::event::AgentEvent;
use forge::traits::{ProviderEvent, ToolSpec};

fn call(id: &str) -> ToolCall {
    ToolCall {
        id: id.into(),
        name: "shell".into(),
        arguments: Json::object().with("command", Json::string("ls")),
    }
}

fn asking(ids: &[&str]) -> Message {
    Message::Assistant {
        content: String::new(),
        reasoning: None,
        tool_calls: ids.iter().map(|i| call(i)).collect(),
    }
}

fn answer(text: &str) -> Message {
    Message::Assistant { content: text.into(), reasoning: None, tool_calls: vec![] }
}

fn result(id: &str, content: &str) -> Message {
    Message::ToolResult { tool_call_id: id.into(), content: content.into(), is_error: false }
}

fn user_text(m: &Message) -> &str {
    match m {
        Message::User { content } => content.as_str(),
        _ => "",
    }
}

// ---- compaction ----

#[test]
fn truncate_middle_keeps_head_and_tail() {
    let s = "a".repeat(1000) + "MIDDLE" + &"b".repeat(1000);
    let t = truncate_middle_bytes(&s, 200);
    // Marker text adds some bytes beyond the budget; keep it bounded.
    assert!(t.len() < 260, "truncated len = {}", t.len());
    assert!(t.starts_with("aaaa"));
    assert!(t.ends_with("bbbb"));
    assert!(t.contains("truncated"));
}

#[test]
fn short_text_is_not_truncated() {
    assert_eq!(truncate_middle_bytes("short", 5), "short");
    assert_eq!(truncate_middle_bytes("", 0), "");
}

#[test]
fn truncation_never_splits_a_character() {
    let s = "汉".repeat(100);
    let t = truncate_middle_bytes(&s, 50);
    assert!(t.contains("truncated"));
    assert!(t.starts_with('汉') && t.ends_with('汉'));
}

#[test]
fn retained_skips_summaries_and_respects_budget() {
    let history = vec![
        Message::user("old-1"),
        Message::user("old-2"),
        Message::user(&format!("{SUMMARY_PREFIX}\nearlier summary")),
        Message::user(&"x".repeat(100_000)),
        Message::user("recent-1"),
        Message::user("recent-2"),
    ];
    let kept = retained_user_messages(&history, 100_000);
    let texts: Vec<&str> = kept
        .iter()
        .map(|m| match m {
            Message::User { content } => content.as_str(),
            _ => "",
        })
        .collect();
    assert!(!texts.iter().any(|t| t.contains("earlier summary")));
    assert_eq!(texts.last().copied(), Some("recent-2"));
}

#[test]
fn compacted_history_shape() {
    let history = vec![
        Message::system("sys"),
        Message::user("q1"),
        Message::Assistant { content: "a1".into(), reasoning: None, tool_calls: vec![] },
        Message::user("q2"),
    ];
    let out = build_compacted_history(&history, "the summary");
    assert_eq!(out.len(), 3); // q1, q2, summary — system+assistant dropped
    assert!(matches!(out[0], Message::User { .. }));
    match out.last().unwrap() {
        Message::User { content } => {
            assert!(content.starts_with(SUMMARY_PREFIX));
            assert!(content.ends_with("the summary"));
        }
        _ => panic!("summary must be a user message"),
    }
}

#[test]
fn budget_overflow_truncates_last() {
    let big = "y".repeat(200_000); // ~50k tokens > budget
    let history = vec![Message::user(&big)];
    let kept = retained_user_messages(&history, COMPACT_USER_MESSAGE_MAX_TOKENS);
    assert_eq!(kept.len(), 1);
    if let Message::User { content } = &kept[0] {
        assert!(content.contains("truncated"));
        assert!(content.len() < big.len());
    } else {
        panic!();
    }
}

#[test]
fn replacement_pins_rules_and_the_unfinished_group() {
    let items = vec![
        Message::system("rules"),
        Message::user("q"),
        asking(&["a"]),
        result("a", "out-a"),
        asking(&["b", "c"]),
        result("b", "out-b"),
    ];
    let out = replacement_history(&items, "sum");
    assert_eq!(out[0], Message::system("rules"));
    assert_eq!(user_text(&out[1]), "q");
    assert!(message_is_summary(&out[2]));
    assert_eq!(out[3], asking(&["b", "c"]));
    assert_eq!(out[4], result("b", "out-b"));
    assert_eq!(out.len(), 5);
}

#[test]
fn only_prefixed_user_messages_are_summaries() {
    assert!(message_is_summary(&Message::user(&format!("{SUMMARY_PREFIX}\nx"))));
    assert!(!message_is_summary(&Message::user("x")));
    assert!(!message_is_summary(&Message::system(SUMMARY_PREFIX)));
}

#[test]
fn shrinking_drops_a_call_with_its_results() {
    let mut msgs = vec![
        asking(&["a", "b"]),
        result("a", "1"),
        result("b", "2"),
        Message::user("q"),
        Message::user(SUMMARIZATION_PROMPT),
    ];
    assert!(shrink_for_overflow(&mut msgs));
    assert_eq!(msgs, vec![Message::user("q"), Message::user(SUMMARIZATION_PROMPT)]);
}

#[test]
fn compaction_asks_again_and_then_completes() {
    let mut cm = ContextManager::new(ContextConfig::default());
    cm.push(Message::system("rules"));
    cm.push(Message::user("do it"));
    cm.push(answer("working"));
    let mut c = Compaction::begin(&cm);
    assert_eq!(c.input.len(), 4);
    assert_eq!(user_text(&c.input[3]), SUMMARIZATION_PROMPT);
    // A request that does not fit is made smaller and asked again.
    assert!(matches!(
        c.on_request_failed(Error::ContextWindowExceeded { used: 2, limit: 1 }),
        CompactStep::Ask
    ));
    assert!(c.input.len() < 4);
    assert!(matches!(
        c.on_event(ProviderEvent::MessageDelta { delta: "what was done".into() }),
        CompactStep::More
    ));
    assert!(matches!(c.on_event(ProviderEvent::Done), CompactStep::Done));
    let version = cm.history.version();
    let (_, after) = c.complete(&mut cm);
    assert_eq!(cm.history.version(), version + 1);
    assert!(!cm.accounting.has_real_usage());
    assert_eq!(cm.items()[0], Message::system("rules"));
    assert!(message_is_summary(cm.items().last().unwrap()));
    assert_eq!(after, cm.token_status().0);
}

#[test]
fn compaction_fails_on_other_errors() {
    let mut cm = ContextManager::new(ContextConfig::default());
    cm.push(Message::user("do it"));
    let mut c = Compaction::begin(&cm);
    match c.on_request_failed(Error::Provider("boom".into())) {
        CompactStep::Failed(e) => assert_eq!(e, Error::Provider("boom".into())),
        other => panic!("expected a failure, got {other:?}"),
    }
}

// ---- token accounting ----

fn cfg(window: i64, limit: Option<i64>) -> ContextConfig {
    ContextConfig {
        context_window: window,
        auto_compact_token_limit: limit,
        tool_output_max_bytes: 1 << 20,
        shell_path: None,
        shell_timeout_secs: 120,
    }
}

#[test]
fn threshold_derivation() {
    // effective = 200000*0.95 = 190000; default = *0.90 = 171000
    assert_eq!(TokenAccounting::auto_compact_limit(&cfg(200_000, None)), 171_000);
    // explicit lower limit wins
    assert_eq!(TokenAccounting::auto_compact_limit(&cfg(200_000, Some(50_000))), 50_000);
    // explicit limit above default is clamped
    assert_eq!(TokenAccounting::auto_compact_limit(&cfg(200_000, Some(190_000))), 171_000);
}

#[test]
fn hard_limit_is_the_effective_window() {
    assert_eq!(TokenAccounting::hard_limit(&cfg(200_000, None)), 190_000);
    assert_eq!(TokenAccounting::hard_limit(&cfg(0, None)), 0);
}

#[test]
fn accounting_accumulates() {
    let mut t = TokenAccounting::default();
    t.record_local_item(&Message::user(&"x".repeat(400)));
    assert_eq!(t.current_estimate(), 110); // 400/4 ceil + 10%
    t.record_response_usage(Usage { input_tokens: 1000, output_tokens: 100, total_tokens: 1100 });
    assert_eq!(t.current_estimate(), 1100);
    t.record_local_item(&Message::user(&"y".repeat(400)));
    assert_eq!(t.current_estimate(), 1210);
}

#[test]
fn overflow_makes_compaction_due_and_usage_clears_it() {
    let c = cfg(200_000, None);
    let mut t = TokenAccounting::default();
    assert!(!t.should_compact(&c));
    t.mark_overflow();
    assert!(t.should_compact(&c));
    assert_eq!(t.current_estimate(), 0);
    assert!(!t.has_real_usage());
    t.record_response_usage(Usage { input_tokens: 1, output_tokens: 1, total_tokens: 2 });
    assert!(t.has_real_usage());
    assert!(!t.should_compact(&c));
}

#[test]
fn estimates_round_up() {
    assert_eq!(approx_token_count(""), 0);
    assert_eq!(approx_token_count("a"), 1);
    assert_eq!(approx_token_count("abcd"), 1);
    assert_eq!(approx_token_count("abcde"), 2);
    assert_eq!(approx_tokens_for_message(&Message::user(&"x".repeat(400))), 110);
}

#[test]
fn context_tracks_what_is_pushed_and_replaced() {
    let mut cm = ContextManager::new(cfg(100, None));
    cm.push(Message::user(&"x".repeat(400)));
    assert_eq!(cm.token_status(), (110, 85));
    assert!(cm.should_compact());
    cm.replace(vec![Message::user("x")]);
    assert_eq!(cm.token_status().0, approx_tokens_for_message(&Message::user("x")));
    assert!(!cm.should_compact());
    cm.push(result("ghost", "x"));
    cm.normalize();
    assert_eq!(cm.items().len(), 1);
    assert_eq!(cm.config().context_window, 100);
}

#[test]
fn message_bytes_are_exact() {
    assert_eq!(Message::user("汉a").content_bytes(), 4);
    assert_eq!(result("id", "abc").content_bytes(), 5);
    let m = Message::Assistant {
        content: "hi".into(),
        reasoning: Some("hmm".into()),
        tool_calls: vec![call("a")],
    };
    let json = r#"{"id":"a","name":"shell","arguments":{"command":"ls"}}"#;
    assert_eq!(m.checked_content_bytes(), Some(2 + 3 + json.len()));
}

// ---- history ----

#[test]
fn remove_first_drops_paired_result() {
    let mut h = History::new();
    h.push(Message::user("q"));
    h.push(Message::Assistant {
        content: String::new(),
        reasoning: None,
        tool_calls: vec![call("a"), call("b")],
    });
    h.push(Message::ToolResult {
        tool_call_id: "a".into(),
        content: "out-a".into(),
        is_error: false,
    });
    h.push(Message::ToolResult {
        tool_call_id: "b".into(),
        content: "out-b".into(),
        is_error: false,
    });
    h.remove_first(); // drops user
    h.remove_first(); // drops assistant + both paired results
    assert!(h.is_empty(), "expected empty, got {:?}", h.items());
}

#[test]
fn remove_first_of_a_result_drops_its_call() {
    let mut h = History::new();
    h.extend(vec![result("a", "1"), asking(&["a", "b"]), result("b", "2")]);
    assert_eq!(h.remove_first(), Some(result("a", "1")));
    assert_eq!(h.items(), &vec![asking(&["b"]), result("b", "2")]);
}

#[test]
fn remove_first_of_nothing() {
    let mut h = History::new();
    assert_eq!(h.remove_first(), None);
}

#[test]
fn normalize_drops_orphan_result() {
    let mut h = History::new();
    h.push(Message::user("q"));
    h.push(Message::ToolResult {
        tool_call_id: "ghost".into(),
        content: "x".into(),
        is_error: false,
    });
    h.normalize();
    assert_eq!(h.len(), 1);
}

#[test]
fn normalize_drops_empty_assistant() {
    let mut h = History::new();
    h.push(Message::user("q"));
    h.push(Message::Assistant {
        content: String::new(),
        reasoning: Some("hm".into()),
        tool_calls: vec![],
    });
    h.normalize();
    assert_eq!(h.len(), 2, "reasoning-only assistant should survive");
    h.push(Message::Assistant { content: String::new(), reasoning: None, tool_calls: vec![] });
    h.normalize();
    assert_eq!(h.len(), 2);
}

#[test]
fn snapshot_and_replace() {
    let mut h = History::new();
    h.push(Message::user("q"));
    assert_eq!(h.snapshot(), vec![Message::user("q")]);
    let v = h.version();
    h.replace(vec![Message::user("r"), Message::user("s")]);
    assert_eq!(h.len(), 2);
    assert!(h.version() != v);
}

// ---- recovery ----

fn event(id: &str, state: ToolEventState, output: &str) -> ToolEvent {
    ToolEvent {
        call_id: id.into(),
        tool: "shell".into(),
        arguments: Json::object(),
        state,
        output: output.into(),
    }
}

#[test]
fn completed_work_is_reused_not_repeated() {
    let mut msgs = vec![
        Message::user("q"),
        Message::Assistant {
            content: String::new(),
            reasoning: None,
            tool_calls: vec![call("c1")],
        },
    ];
    let events = vec![event("c1", ToolEventState::Completed, "file.txt")];
    let unknown = recover_unanswered_calls(&mut msgs, &events);
    assert!(unknown.is_empty());
    match &msgs[2] {
        Message::ToolResult { tool_call_id, content, is_error } => {
            assert_eq!(tool_call_id, "c1");
            assert_eq!(content, "file.txt");
            assert!(!is_error);
        }
        other => panic!("expected reused result, got {other:?}"),
    }
}

#[test]
fn failed_record_is_reused_as_error() {
    let mut msgs = vec![Message::Assistant {
        content: String::new(),
        reasoning: None,
        tool_calls: vec![call("c1")],
    }];
    let events = vec![event("c1", ToolEventState::Failed, "tool error: boom")];
    let unknown = recover_unanswered_calls(&mut msgs, &events);
    assert!(unknown.is_empty());
    assert!(matches!(
        &msgs[1],
        Message::ToolResult { content, is_error: true, .. } if content.contains("boom")
    ));
}

#[test]
fn interrupted_execution_is_marked_unknown() {
    // Started but never finished: the side effect may or may not have
    // happened. The record must say so — and be reported back.
    let mut msgs = vec![Message::Assistant {
        content: String::new(),
        reasoning: None,
        tool_calls: vec![call("c1")],
    }];
    let events = vec![event("c1", ToolEventState::Started, "")];
    let unknown = recover_unanswered_calls(&mut msgs, &events);
    assert_eq!(unknown.len(), 1);
    assert!(matches!(
        &msgs[1],
        Message::ToolResult { content, is_error: true, .. } if content.contains("UNKNOWN")
    ));
}

#[test]
fn never_started_call_is_marked_not_started() {
    let mut msgs = vec![Message::Assistant {
        content: String::new(),
        reasoning: None,
        tool_calls: vec![call("c1")],
    }];
    let unknown = recover_unanswered_calls(&mut msgs, &[]);
    assert!(unknown.is_empty());
    assert!(matches!(
        &msgs[1],
        Message::ToolResult { content, is_error: true, .. } if content.contains("never started")
    ));
}

#[test]
fn recovery_is_idempotent() {
    let mut msgs = vec![
        Message::user("q"),
        Message::Assistant {
            content: String::new(),
            reasoning: None,
            tool_calls: vec![call("c1")],
        },
    ];
    let events = vec![event("c1", ToolEventState::Started, "")];
    let n1 = recover_unanswered_calls(&mut msgs, &events).len();
    let n2 = recover_unanswered_calls(&mut msgs, &events).len();
    assert_eq!(n1, 1);
    assert_eq!(n2, 0, "second pass must find no gaps");
    assert_eq!(msgs.len(), 3);
}

#[test]
fn answered_calls_are_left_alone() {
    let mut msgs = vec![
        Message::user("q"),
        Message::Assistant {
            content: String::new(),
            reasoning: None,
            tool_calls: vec![call("c1")],
        },
        Message::ToolResult {
            tool_call_id: "c1".into(),
            content: "out".into(),
            is_error: false,
        },
    ];
    let before = msgs.clone();
    let unknown = recover_unanswered_calls(&mut msgs, &[]);
    assert!(unknown.is_empty());
    assert_eq!(msgs, before, "complete transcript must not change");
}

// ---- permissions ----

fn policy(toml_str: &str) -> RulePolicy {
    let table: toml::Table = toml_str.parse().unwrap();
    let default = table.get("default").and_then(|v| v.as_str()).map(str::to_string);
    let tools = match table.get("tools").and_then(|v| v.as_table()) {
        Some(t) => t
            .iter()
            .map(|(k, v)| (k.clone(), v.as_str().unwrap_or("").to_string()))
            .collect(),
        None => vec![],
    };
    RulePolicy::from_config(&PermissionConfig { default, tools })
}

#[test]
fn shell_defaults_to_ask_unknown_to_deny() {
    let p = policy("");
    assert_eq!(p.resolve("shell"), Rule::Ask);
    assert_eq!(p.resolve("mystery"), Rule::Deny);
}

#[test]
fn config_rules_and_default_apply() {
    let p = policy(
        r#"
default = "allow"
[tools]
shell = "deny"
"#,
    );
    assert_eq!(p.resolve("shell"), Rule::Deny);
    assert_eq!(p.resolve("other"), Rule::Allow);
}

#[test]
fn session_rules_override_config() {
    let mut p = policy(
        r#"[tools]
shell = "ask""#,
    );
    assert_eq!(p.resolve("shell"), Rule::Ask);
    p.set_session_rule("shell", Rule::Allow);
    assert_eq!(p.resolve("shell"), Rule::Allow);
    p.set_session_rule("shell", Rule::Deny);
    assert_eq!(p.resolve("shell"), Rule::Deny);
}

#[test]
fn approve_maps_rules() {
    let p = policy(
        r#"[tools]
echo = "allow"
ghost = "deny""#,
    );
    assert_eq!(p.approve("echo", &Json::object()), PermissionDecision::Allow);
    assert_eq!(p.approve("ghost", &Json::object()), PermissionDecision::Deny);
    assert_eq!(p.approve("shell", &Json::object()), PermissionDecision::Ask);
}

#[test]
fn allow_all_allows() {
    assert_eq!(AllowAll.approve("anything", &Json::Null), PermissionDecision::Allow);
}

#[test]
fn rules_are_read_without_case_and_blanks() {
    assert_eq!(Rule::parse("  Allow\n"), Some(Rule::Allow));
    assert_eq!(Rule::parse("ASK"), Some(Rule::Ask));
    assert_eq!(Rule::parse("deny"), Some(Rule::Deny));
    assert_eq!(Rule::parse("perhaps"), None);
}

// ---- approvals ----

#[test]
fn request_resolves_with_response() {
    let mut gate: ApprovalGate<std::sync::mpsc::Sender<bool>> = ApprovalGate::new();
    let (tx, rx) = std::sync::mpsc::channel();
    assert!(gate.request("c1", tx).is_none());
    assert_eq!(gate.pending_count(), 1);
    let answer = gate.respond("c1");
    assert!(answer.is_some_and(|tx| tx.send(true).is_ok()));
    assert!(is_approved(rx.recv().ok()));
    assert_eq!(gate.pending_count(), 0);
}

#[test]
fn respond_without_request_is_false() {
    let mut gate: ApprovalGate<bool> = ApprovalGate::new();
    assert!(gate.respond("ghost").is_none());
}

#[test]
fn dropped_responder_counts_as_denial() {
    let mut gate: ApprovalGate<std::sync::mpsc::Sender<bool>> = ApprovalGate::new();
    let (tx, rx) = std::sync::mpsc::channel();
    gate.request("c1", tx);
    // Remove the sender without answering (simulates frontend exit).
    drop(gate.respond("c1"));
    assert!(!is_approved(rx.recv().ok()));
}

#[test]
fn second_request_replaces_the_first() {
    let mut gate: ApprovalGate<u32> = ApprovalGate::new();
    assert_eq!(gate.request("c1", 1), None);
    assert_eq!(gate.request("c1", 2), Some(1));
    assert_eq!(gate.pending_count(), 1);
    assert_eq!(gate.respond("c1"), Some(2));
}

// ---- runtime ----

#[test]
fn submit_rejects_concurrent_turns_then_recovers() {
    let mut rt: Runtime<&str> = Runtime::new();
    let h1 = rt.submit("first").unwrap();
    assert_eq!(h1, 1);
    assert!(rt.is_busy());
    let err = match rt.submit("second") {
        Err(e) => e,
        Ok(_) => panic!("concurrent submit must be rejected"),
    };
    assert!(matches!(err, Error::Busy), "got {err:?}");

    rt.finish();
    assert!(!rt.is_busy());
    let h3 = rt.submit("third").unwrap();
    assert_eq!(h3, 2);
}

#[test]
fn cancel_hands_out_the_running_turn_once() {
    let mut rt: Runtime<&str> = Runtime::new();
    assert_eq!(rt.cancel(), None);
    rt.submit("turn").unwrap();
    assert_eq!(rt.cancel(), Some("turn"));
    assert_eq!(rt.cancel(), None);
    assert!(rt.is_busy());
}

#[test]
fn crashed_turn_still_ends() {
    let events = crash_events("panic");
    assert_eq!(
        events,
        vec![
            AgentEvent::Error { message: "agent task crashed: panic".into() },
            AgentEvent::TurnCompleted { usage: Usage::default() },
        ]
    );
}

// ---- budget ----

fn limits() -> BudgetConfig {
    BudgetConfig { max_turn_seconds: 10, max_turn_tokens: 100, max_tool_calls: 2, loop_threshold: 3 }
}

#[test]
fn time_and_tokens_stop_between_attempts() {
    let b = TurnBudget::new(limits());
    assert!(b.between_attempts_reason(0, 0).is_none());
    assert_eq!(
        b.between_attempts_reason(10, 0).as_deref(),
        Some("turn time budget reached (10s); send a new message to continue")
    );
    assert_eq!(
        b.between_attempts_reason(9, 100).as_deref(),
        Some("turn token budget reached (~100 tokens); send a new message to continue")
    );
}

#[test]
fn calls_are_limited() {
    let mut b = TurnBudget::new(limits());
    assert!(b.before_call_reason("echo", "1").is_none());
    b.note_executed();
    assert!(b.before_call_reason("echo", "2").is_none());
    b.note_executed();
    assert_eq!(
        b.before_call_reason("echo", "3").as_deref(),
        Some("tool call budget reached (2 calls this turn); send a new message to continue")
    );
}

#[test]
fn identical_calls_are_a_loop() {
    let mut b = TurnBudget::new(BudgetConfig { max_tool_calls: 0, ..limits() });
    for _ in 0..3 {
        assert!(b.before_call_reason("echo", "{}").is_none());
    }
    assert_eq!(
        b.before_call_reason("echo", "{}").as_deref(),
        Some("tool loop detected: echo ran with identical arguments 3 times; turn stopped")
    );
    assert!(b.before_call_reason("echo", "[]").is_none());
}

#[test]
fn identical_failures_are_a_loop() {
    let mut b = TurnBudget::new(limits());
    assert!(b.note_error("echo", "boom").is_none());
    b.note_success();
    for _ in 0..3 {
        assert!(b.note_error("echo", "boom").is_none());
    }
    assert_eq!(
        b.note_error("echo", "boom").as_deref(),
        Some("tool loop detected: echo failed with the same error 3 times; turn stopped")
    );
}

#[test]
fn no_limits_never_stop() {
    let mut b = TurnBudget::new(BudgetConfig::default());
    assert!(b.between_attempts_reason(u64::MAX, i64::MAX).is_none());
    for _ in 0..100 {
        assert!(b.before_call_reason("echo", "{}").is_none());
        b.note_executed();
        assert!(b.note_error("echo", "boom").is_none());
    }
}

// ---- registry ----

struct Dummy(String);

impl Named for Dummy {
    fn name(&self) -> &str {
        &self.0
    }
}

#[test]
fn register_get_dedupe() {
    let mut r: Registry<Dummy> = Registry::new();
    r.register(Arc::new(Dummy("b".into())));
    r.register(Arc::new(Dummy("a".into())));
    r.register(Arc::new(Dummy("a".into())));
    assert_eq!(r.names(), vec!["a".to_string(), "b".to_string()]);
    assert!(r.get("a").is_some());
    assert!(r.get("c").is_none());
}

#[test]
fn registered_item_replaces_its_namesake() {
    let spec = |d: &str| ToolSpec {
        name: "t".into(),
        description: d.into(),
        parameters: Json::object(),
    };
    let mut r: Registry<ToolSpec> = Registry::default();
    r.register(Arc::new(spec("old")));
    r.register(Arc::new(spec("new")));
    assert_eq!(r.all().len(), 1);
    assert_eq!(r.get("t").unwrap().description, "new");
    // The item is shared, not copied.
    assert!(Arc::ptr_eq(&r.get("t").unwrap(), &r.all()[0]));
}

// ---- configuration ----

#[test]
fn api_key_sources() {
    let mut c = Config::default();
    assert_eq!(c.api_key_variable(), "FORGE_API_KEY");
    assert_eq!(
        c.resolve_api_key(None),
        Err(Error::Config(
            "API key not set: fill provider.api_key in config.toml or set env FORGE_API_KEY".into()
        ))
    );
    assert_eq!(c.resolve_api_key(Some(" env ")), Ok("env".to_string()));
    assert!(c.resolve_api_key(Some("  ")).is_err());
    c.provider.api_key = " inline ".into();
    assert_eq!(c.resolve_api_key(Some("env")), Ok("inline".to_string()));
    c.provider.api_key_env = "OTHER".into();
    assert_eq!(c.api_key_variable(), "OTHER");
}

#[test]
fn defaults() {
    let c = Config::default();
    assert_eq!(c.context.context_window, 128_000);
    assert_eq!(c.context.tool_output_max_bytes, 1_048_576);
    assert_eq!(c.context.shell_timeout_secs, 120);
    assert_eq!(forge::config::default_max_tokens(), 8192);
    assert_eq!(forge::config::default_protocol(), "openai");
    assert!(forge::config::is_zero(&0) && !forge::config::is_zero(&1));
}

#[test]
fn error_messages() {
    let cases = vec![
        (Error::Provider("x".into()), "provider error: x"),
        (Error::Tool("x".into()), "tool error: x"),
        (Error::Storage("x".into()), "storage error: x"),
        (Error::Config("x".into()), "config error: x"),
        (
            Error::ContextWindowExceeded { used: 5, limit: -3 },
            "context window exceeded (used ~5, limit -3)",
        ),
        (Error::ChannelClosed("x".into()), "channel closed: x"),
        (Error::Cancelled, "cancelled by user"),
        (Error::BudgetExceeded("x".into()), "budget exceeded: x"),
        (Error::Busy, "a turn is already running"),
        (Error::Other("x".into()), "x"),
    ];
    for (e, text) in cases {
        assert_eq!(e.message(), text);
        assert_eq!(
            e.is_context_window_exceeded(),
            matches!(e, Error::ContextWindowExceeded { .. })
        );
    }
}

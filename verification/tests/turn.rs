//! Whole turns of the agent against a scripted model: request, stream, tool
//! call, result, final answer; history bookkeeping, storage and events.

use forge::agent_loop::{Agent, Await, Effect, Reply, SavePlan, Signal};
use forge::compact::{SUMMARIZATION_PROMPT, SUMMARY_PREFIX};
use forge::config::{BudgetConfig, Config, ContextConfig};
use forge::error::Error;
use forge::event::AgentEvent;
use forge::json::Json;
use forge::message::{Message, ToolCall, Usage};
use forge::session::{PermissionDecision, ToolEventState};
use forge::startup::{build_agent, check_prompt, closing_line, print_of, Print, SYSTEM_PROMPT};
use forge::traits::{ProviderEvent, ToolOutput, ToolSpec};

type Script = Vec<Result<Vec<ProviderEvent>, Error>>;

/// Everything outside the agent: the scripted model, the policy, the one
/// tool, the store, and a record of what was observed.
struct World {
    script: Script,
    requests: Vec<Vec<Message>>,
    decision: PermissionDecision,
    approve: bool,
    store: Vec<Message>,
    store_fails: bool,
    events: Vec<AgentEvent>,
    log: Vec<(String, Option<ToolEventState>)>,
    /// Cancelled once this many tool executions were asked for.
    cancel_at_execution: Option<usize>,
    executions: usize,
    cancelled: bool,
}

impl World {
    fn new(script: Script) -> World {
        World {
            script,
            requests: vec![],
            decision: PermissionDecision::Allow,
            approve: true,
            store: vec![],
            store_fails: false,
            events: vec![],
            log: vec![],
            cancel_at_execution: None,
            executions: 0,
            cancelled: false,
        }
    }

    fn observe(&mut self, effects: Vec<Effect>) {
        for e in effects {
            match e {
                Effect::Emit(ev) => self.events.push(ev),
                Effect::LogStarted(c) => self.log.push((c.id, None)),
                Effect::LogFinished { call_id, state, .. } => {
                    self.log.push((call_id, Some(state)))
                }
            }
        }
    }

    fn sig(&self) -> Signal {
        Signal { cancelled: self.cancelled, elapsed_secs: 0 }
    }

    fn run(&mut self, agent: &mut Agent, input: &str) -> Result<String, Error> {
        let sig = self.sig();
        let effects = agent.run_turn(input, sig);
        self.observe(effects);
        self.finish(agent);
        std::mem::replace(&mut agent.result, Ok(String::new()))
    }

    fn finish(&mut self, agent: &mut Agent) {
        let mut stream = Vec::new().into_iter();
        loop {
            let reply = match agent.awaiting() {
                Await::Nothing => return,
                Await::OpenStream | Await::OpenSummary => {
                    let req = if agent.awaiting() == Await::OpenStream {
                        agent.request()
                    } else {
                        agent.summary_request().unwrap()
                    };
                    self.requests.push(req.messages);
                    let n = self.requests.len() - 1;
                    if n < self.script.len() {
                        match std::mem::replace(&mut self.script[n], Ok(vec![])) {
                            Ok(events) => {
                                stream = events.into_iter();
                                Reply::Opened
                            }
                            Err(e) => Reply::Failed(e),
                        }
                    } else {
                        stream = vec![ProviderEvent::Done].into_iter();
                        Reply::Opened
                    }
                }
                Await::NextEvent | Await::NextSummaryEvent => match stream.next() {
                    Some(ev) => Reply::Event(ev),
                    None => Reply::End,
                },
                Await::Decision => Reply::Decision(self.decision),
                Await::Answer => Reply::Answer(self.approve),
                Await::Execution => {
                    self.executions += 1;
                    if self.cancel_at_execution == Some(self.executions) {
                        self.cancelled = true;
                        Reply::Executed { result: Err(Error::Cancelled), elapsed_ms: 7 }
                    } else {
                        let call = agent.current_call().unwrap();
                        let text = call.arguments.str_at("text").unwrap_or("?");
                        Reply::Executed {
                            result: Ok(ToolOutput {
                                content: format!("echo: {text}"),
                                exit_code: Some(0),
                                timed_out: false,
                                duration_ms: 1,
                            }),
                            elapsed_ms: 1,
                        }
                    }
                }
                Await::Save => {
                    if self.store_fails {
                        Reply::Saved(Err(Error::Storage("disk full".into())))
                    } else {
                        match agent.save_plan() {
                            SavePlan::Skip => {}
                            SavePlan::Append { from } => {
                                for m in &agent.context.items()[from..] {
                                    self.store.push(m.clone());
                                }
                            }
                            SavePlan::Replace => {
                                self.store = agent.context.items().clone();
                            }
                        }
                        Reply::Saved(Ok(()))
                    }
                }
            };
            let sig = self.sig();
            let effects = agent.step(reply, sig);
            self.observe(effects);
        }
    }

    fn count(&self, f: fn(&AgentEvent) -> bool) -> usize {
        self.events.iter().filter(|e| f(e)).count()
    }
}

fn echo() -> ToolSpec {
    ToolSpec { name: "echo".into(), description: "echo".into(), parameters: Json::object() }
}

fn agent_with(budget: BudgetConfig, context: ContextConfig, session: Option<u128>) -> Agent {
    Agent::new(
        context,
        vec![echo()],
        "k".into(),
        "test-model".into(),
        None,
        1024,
        budget,
        session,
    )
}

fn test_agent(session: Option<u128>) -> Agent {
    agent_with(BudgetConfig::default(), ContextConfig::default(), session)
}

fn call(id: &str, text: &str) -> ToolCall {
    ToolCall {
        id: id.into(),
        name: "echo".into(),
        arguments: Json::object().with("text", Json::string(text)),
    }
}

fn text(delta: &str) -> ProviderEvent {
    ProviderEvent::MessageDelta { delta: delta.into() }
}

fn calls(calls: Vec<ToolCall>) -> ProviderEvent {
    ProviderEvent::ToolCalls { calls }
}

fn usage(input_tokens: i64, output_tokens: i64, total_tokens: i64) -> ProviderEvent {
    ProviderEvent::Usage { usage: Usage { input_tokens, output_tokens, total_tokens } }
}

/// A default two-request script: tool call, then final answer.
fn two_turn_script() -> Script {
    vec![
        Ok(vec![
            text("Let me check. "),
            calls(vec![call("call_1", "hi")]),
            usage(50, 10, 60),
            ProviderEvent::Done,
        ]),
        Ok(vec![text("All "), text("done!"), usage(90, 5, 95), ProviderEvent::Done]),
    ]
}

fn roles(msgs: &Vec<Message>) -> Vec<&'static str> {
    msgs.iter()
        .map(|m| match m {
            Message::User { .. } => "user",
            Message::Assistant { .. } => "assistant",
            Message::ToolResult { .. } => "tool",
            Message::System { .. } => "system",
        })
        .collect()
}

#[test]
fn agent_loop_full_cycle() {
    let mut w = World::new(two_turn_script());
    let mut agent = test_agent(Some(1));
    let final_text = w.run(&mut agent, "do the thing").unwrap();

    assert_eq!(final_text, "All done!");

    // The second request must contain: user msg, assistant with tool_call,
    // and the tool result fed back.
    let reqs = &w.requests;
    assert_eq!(reqs.len(), 2);
    assert_eq!(reqs[1].len(), 3, "second request: {:?}", reqs[1]);
    assert!(matches!(&reqs[1][0], Message::User { content } if content == "do the thing"));
    match &reqs[1][1] {
        Message::Assistant { content, tool_calls, .. } => {
            assert_eq!(content, "Let me check. ");
            assert_eq!(tool_calls.len(), 1);
            assert_eq!(tool_calls[0].id, "call_1");
        }
        other => panic!("expected assistant with tool call, got {other:?}"),
    }
    match &reqs[1][2] {
        Message::ToolResult { tool_call_id, content, is_error } => {
            assert_eq!(tool_call_id, "call_1");
            assert_eq!(content, "echo: hi");
            assert!(!*is_error);
        }
        other => panic!("expected tool result, got {other:?}"),
    }

    // The stored transcript contains the full arc, each message once.
    let persisted = &w.store;
    assert_eq!(
        roles(persisted),
        vec!["user", "assistant", "tool", "assistant"],
        "persisted: {:?}",
        persisted
    );
    if let Message::ToolResult { content, tool_call_id, .. } = &persisted[2] {
        assert_eq!(tool_call_id, "call_1");
        assert_eq!(content, "echo: hi");
    } else {
        panic!("expected tool result");
    }
    assert_eq!(persisted, agent.context.items());

    // Events: streamed deltas and tool lifecycle fired in order; usage is
    // CUMULATIVE for the turn (60 + 95), matching the event contract.
    assert_eq!(w.count(|e| matches!(e, AgentEvent::ToolCallStarted { .. })), 1);
    assert_eq!(w.count(|e| matches!(e, AgentEvent::ToolCallCompleted { .. })), 1);
    match w.events.last() {
        Some(AgentEvent::TurnCompleted { usage }) => {
            assert_eq!(usage.total_tokens, 60 + 95, "usage must accumulate");
        }
        other => panic!("TurnCompleted event, got {other:?}"),
    }
    assert_eq!(
        w.log,
        vec![("call_1".to_string(), None), ("call_1".into(), Some(ToolEventState::Completed))]
    );
}

#[test]
fn permission_denial_emits_paired_events() {
    let mut w = World::new(two_turn_script());
    w.decision = PermissionDecision::Deny;
    let mut agent = test_agent(Some(1));
    w.run(&mut agent, "try the tool").unwrap();

    // Every Started must be paired with a Completed.
    let mut started = Vec::new();
    let mut completed = Vec::new();
    for ev in &w.events {
        match ev {
            AgentEvent::ToolCallStarted { call_id, .. } => started.push(call_id.clone()),
            AgentEvent::ToolCallCompleted { call_id, output, .. } => {
                assert!(output.contains("Permission denied"));
                completed.push(call_id.clone());
            }
            _ => {}
        }
    }
    assert_eq!(started, completed, "events must pair up");
    assert_eq!(started, vec!["call_1".to_string()]);

    // The refusal lands in history as an error tool result.
    assert!(w.store.iter().any(|m| matches!(m, Message::ToolResult { is_error: true, .. })));
}

#[test]
fn empty_response_is_not_persisted() {
    // Turn 0: tool call; turn 1: stream ends with no text and no calls.
    let mut w = World::new(vec![
        Ok(vec![calls(vec![call("call_1", "hi")]), ProviderEvent::Done]),
        Ok(vec![ProviderEvent::Done]),
    ]);
    let mut agent = test_agent(Some(1));
    let final_text = w.run(&mut agent, "go").unwrap();
    assert_eq!(final_text, "");

    assert_eq!(
        roles(&w.store),
        vec!["user", "assistant", "tool"],
        "no empty assistant shell after an empty stream: {:?}",
        w.store
    );
}

#[test]
fn provider_failure_still_emits_terminal_events() {
    let mut w = World::new(vec![Err(Error::Provider("connection refused".into()))]);
    let mut agent = test_agent(None);
    let result = w.run(&mut agent, "hi");
    assert!(result.is_err());

    let events = &w.events;
    assert!(
        events.iter().any(|e| matches!(e, AgentEvent::Error { .. })),
        "Err path must emit an Error event, got {events:?}"
    );
    assert!(
        matches!(events.last(), Some(AgentEvent::TurnCompleted { .. })),
        "the last event must be TurnCompleted, got {:?}",
        events.last()
    );
}

#[test]
fn context_overflow_compacts_and_retries_once() {
    let mut w = World::new(vec![
        Err(Error::ContextWindowExceeded { used: 999, limit: 100 }),
        // Compaction summarization request.
        Ok(vec![text("summary of the task so far"), ProviderEvent::Done]),
        // Retried request after compaction.
        Ok(vec![text("recovered"), ProviderEvent::Done]),
    ]);
    let mut agent = test_agent(Some(1));
    agent.context.push(Message::system("stay terse; never force-push"));

    let final_text = w.run(&mut agent, "long task").unwrap();
    assert_eq!(final_text, "recovered");
    assert_eq!(w.requests.len(), 3, "overflow + summarize + retry");

    // The retried request (index 2) must still carry the system rules.
    let reqs = &w.requests;
    assert!(
        matches!(&reqs[2][0], Message::System { content } if content.contains("never force-push")),
        "system rules lost after compaction: {:?}",
        reqs[2].first()
    );
    assert!(
        matches!(reqs[1].last(), Some(Message::User { content }) if content == SUMMARIZATION_PROMPT)
    );
    assert_eq!(
        w.count(|e| matches!(e, AgentEvent::CompactionCompleted { .. })),
        1,
        "compaction must run during the retry"
    );
    // The compacted history replaced what was stored.
    assert_eq!(&w.store, agent.context.items());
}

#[test]
fn second_overflow_ends_the_turn() {
    let overflow = || Err(Error::ContextWindowExceeded { used: 9, limit: 1 });
    let mut w = World::new(vec![
        overflow(),
        Ok(vec![text("summary"), ProviderEvent::Done]),
        overflow(),
    ]);
    let mut agent = test_agent(None);
    let r = w.run(&mut agent, "long task");
    assert_eq!(r, Err(Error::ContextWindowExceeded { used: 9, limit: 1 }));
    assert_eq!(w.requests.len(), 3);
}

#[test]
fn cancel_terminates_run_with_terminal_events() {
    let mut w = World::new(vec![]);
    let mut agent = test_agent(None);
    let effects = agent.run_turn("long", w.sig());
    w.observe(effects);
    // The message is saved, the stream is opened, and then given up.
    let sig = w.sig();
    let effects = agent.step(Reply::Saved(Ok(())), sig);
    w.observe(effects);
    let effects = agent.step(Reply::Opened, sig);
    w.observe(effects);
    w.cancelled = true;
    let sig = w.sig();
    let effects = agent.step(Reply::Cancelled, sig);
    w.observe(effects);

    let n = w.events.len();
    let tail = &w.events[n - 2..];
    assert!(matches!(tail.last(), Some(AgentEvent::TurnCompleted { .. })));
    assert!(
        tail.iter()
            .any(|e| matches!(e, AgentEvent::Error { message } if message.contains("cancel"))),
        "cancellation must surface as Error: {tail:?}"
    );
    assert_eq!(agent.awaiting(), Await::Nothing);
    assert_eq!(agent.result, Err(Error::Cancelled));
}

#[test]
fn cancelled_batch_gets_a_result_for_every_call() {
    let mut w = World::new(vec![Ok(vec![
        calls(vec![call("a", "1"), call("b", "2"), call("c", "3")]),
        ProviderEvent::Done,
    ])]);
    w.cancel_at_execution = Some(2);
    let mut agent = test_agent(Some(1));
    assert_eq!(w.run(&mut agent, "go"), Err(Error::Cancelled));
    let results: Vec<(&str, &str, bool)> = w
        .store
        .iter()
        .filter_map(|m| match m {
            Message::ToolResult { tool_call_id, content, is_error } => {
                Some((tool_call_id.as_str(), content.as_str(), *is_error))
            }
            _ => None,
        })
        .collect();
    assert_eq!(
        results,
        vec![
            ("a", "echo: 1", false),
            ("b", "cancelled by user", true),
            ("c", "cancelled by user", true),
        ]
    );
    assert_eq!(w.count(|e| matches!(e, AgentEvent::ToolCallStarted { .. })), 3);
    assert_eq!(w.count(|e| matches!(e, AgentEvent::ToolCallCompleted { .. })), 3);
}

#[test]
fn used_up_budget_skips_the_rest_of_the_batch() {
    let mut w = World::new(vec![Ok(vec![
        calls(vec![call("a", "1"), call("b", "2")]),
        ProviderEvent::Done,
    ])]);
    let budget = BudgetConfig { max_tool_calls: 1, ..BudgetConfig::default() };
    let mut agent = agent_with(budget, ContextConfig::default(), None);
    let r = w.run(&mut agent, "go");
    assert!(matches!(r, Err(Error::BudgetExceeded(_))), "got {r:?}");
    assert_eq!(w.executions, 1);
    match agent.context.items().last() {
        Some(Message::ToolResult { tool_call_id, content, is_error: true }) => {
            assert_eq!(tool_call_id, "b");
            assert!(content.starts_with("not executed: tool call budget reached (1 calls"));
        }
        other => panic!("expected a skipped result, got {other:?}"),
    }
}

#[test]
fn unknown_tool_is_a_failed_call() {
    let mut c = call("a", "1");
    c.name = "nope".into();
    let mut w = World::new(vec![
        Ok(vec![calls(vec![c]), ProviderEvent::Done]),
        Ok(vec![text("ok"), ProviderEvent::Done]),
    ]);
    let mut agent = test_agent(None);
    assert_eq!(w.run(&mut agent, "go"), Ok("ok".to_string()));
    assert!(w.requests[1].iter().any(|m| matches!(
        m,
        Message::ToolResult { content, is_error: true, .. } if content.contains("unknown tool: nope")
    )));
    assert_eq!(w.executions, 0);
}

#[test]
fn approval_is_asked_for_and_answered() {
    for (approve, executed) in [(true, 1), (false, 0)] {
        let mut w = World::new(two_turn_script());
        w.decision = PermissionDecision::Ask;
        w.approve = approve;
        let mut agent = test_agent(None);
        agent.approvals_enabled = true;
        w.run(&mut agent, "go").unwrap();
        assert_eq!(w.executions, executed);
        assert_eq!(w.count(|e| matches!(e, AgentEvent::ApprovalRequested { .. })), 1);
    }
}

#[test]
fn asking_without_a_user_is_a_denial() {
    let mut w = World::new(two_turn_script());
    w.decision = PermissionDecision::Ask;
    let mut agent = test_agent(None);
    w.run(&mut agent, "go").unwrap();
    assert_eq!(w.executions, 0);
    assert_eq!(w.count(|e| matches!(e, AgentEvent::ApprovalRequested { .. })), 0);
}

#[test]
fn failing_store_warns_once_and_catches_up() {
    let mut w = World::new(two_turn_script());
    w.store_fails = true;
    let mut agent = test_agent(Some(1));
    w.run(&mut agent, "go").unwrap();
    assert!(w.store.is_empty());
    assert_eq!(w.count(|e| matches!(e, AgentEvent::Warning { .. })), 1);
    w.store_fails = false;
    w.run(&mut agent, "again").unwrap();
    assert_eq!(&w.store, agent.context.items());
    assert_eq!(w.count(|e| matches!(e, AgentEvent::Warning { .. })), 2);
}

#[test]
fn zero_usage_is_no_usage() {
    let mut w = World::new(vec![Ok(vec![text("a"), usage(0, 0, 0), ProviderEvent::Done])]);
    let mut agent = test_agent(None);
    w.run(&mut agent, "go").unwrap();
    assert!(!agent.context.accounting.has_real_usage());
    assert_eq!(w.count(|e| matches!(e, AgentEvent::TokenCountUpdated { .. })), 1);
}

#[test]
fn tool_output_is_truncated_in_history() {
    let cfg = ContextConfig { tool_output_max_bytes: 20, ..ContextConfig::default() };
    let mut w = World::new(vec![
        Ok(vec![calls(vec![call("a", &"x".repeat(500))]), ProviderEvent::Done]),
        Ok(vec![text("ok"), ProviderEvent::Done]),
    ]);
    let mut agent = agent_with(BudgetConfig::default(), cfg, None);
    w.run(&mut agent, "go").unwrap();
    assert!(w.requests[1].iter().any(|m| matches!(
        m,
        Message::ToolResult { content, .. } if content.contains("truncated") && content.len() < 200
    )));
}

#[test]
fn manual_compaction_rewrites_the_store() {
    let mut w = World::new(vec![Ok(vec![text("in short"), ProviderEvent::Done])]);
    let mut agent = test_agent(Some(1));
    agent.context.push(Message::user("one"));
    w.store = vec![Message::user("stale")];
    let effects = agent.compact_manual();
    w.observe(effects);
    w.finish(&mut agent);
    assert!(agent.result.is_ok());
    assert_eq!(&w.store, agent.context.items());
    assert!(matches!(
        w.store.last(),
        Some(Message::User { content }) if content.starts_with(SUMMARY_PREFIX)
    ));
    // A compaction outside a turn has no turn to complete.
    assert_eq!(w.count(|e| matches!(e, AgentEvent::TurnCompleted { .. })), 0);
}

#[test]
fn failed_rewrite_stays_due() {
    let mut w = World::new(vec![Ok(vec![text("in short"), ProviderEvent::Done])]);
    w.store_fails = true;
    let mut agent = test_agent(Some(1));
    agent.context.push(Message::user("one"));
    let effects = agent.compact_manual();
    w.observe(effects);
    w.finish(&mut agent);
    assert!(matches!(agent.result, Err(Error::Storage(_))));
    assert_eq!(agent.save_plan(), SavePlan::Replace);
}

#[test]
fn nothing_to_compact() {
    let mut agent = test_agent(None);
    assert!(agent.compact_manual().is_empty());
    assert_eq!(agent.awaiting(), Await::Nothing);
    assert_eq!(agent.compacted, (0, 0));
}

#[test]
fn unheard_compaction_ends() {
    let sig = Signal { cancelled: false, elapsed_secs: 0 };
    let mut agent = test_agent(None);
    agent.context.push(Message::user("one"));
    let effects = agent.compact_manual();
    assert!(matches!(effects.as_slice(), [Effect::Emit(AgentEvent::CompactionStarted)]));
    assert!(agent.step(Reply::Unheard, sig).is_empty());
    assert_eq!(agent.awaiting(), Await::Nothing);
    assert_eq!(agent.result, Err(Error::ChannelClosed("channel closed".into())));
    assert_eq!(agent.context.items(), &vec![Message::user("one")]);
}

#[test]
fn unheard_compaction_that_has_asked_goes_on() {
    let sig = Signal { cancelled: false, elapsed_secs: 0 };
    let mut agent = test_agent(None);
    agent.context.push(Message::user("one"));
    agent.compact_manual();
    agent.step(Reply::Opened, sig);
    agent.step(Reply::End, sig);
    assert_eq!(agent.awaiting(), Await::OpenSummary);
    agent.step(Reply::Unheard, sig);
    assert_eq!(agent.awaiting(), Await::OpenSummary);
}

#[test]
fn unawaited_replies_change_nothing() {
    let mut agent = test_agent(None);
    let sig = Signal { cancelled: false, elapsed_secs: 0 };
    assert!(agent.step(Reply::Opened, sig).is_empty());
    assert!(agent.step(Reply::Answer(true), sig).is_empty());
    assert_eq!(agent.awaiting(), Await::Nothing);
}

// ---- how a conversation starts ----

#[test]
fn corrupt_history_disables_persistence() {
    let cfg = Config::default();
    let api_key = cfg.resolve_api_key(None).unwrap_or_default();
    let (agent, warning) = build_agent(
        &cfg,
        &api_key,
        vec![],
        Some((77, Err(Error::Storage("corrupt payload".into())))),
    );
    assert!(warning.is_some(), "load failure must surface a warning");
    assert_eq!(
        agent.session_id, None,
        "persistence must be disabled so the stored transcript is never overwritten"
    );
    assert!(warning.unwrap().contains("storage error: corrupt payload"));
    assert_eq!(agent.save_plan(), SavePlan::Skip);
}

#[test]
fn stored_transcript_is_taken_over() {
    let cfg = Config::default();
    let stored = vec![
        Message::system("old rules"),
        Message::user("q"),
        Message::Assistant { content: String::new(), reasoning: None, tool_calls: vec![] },
        Message::Assistant { content: "a".into(), reasoning: None, tool_calls: vec![] },
    ];
    let (agent, warning) = build_agent(&cfg, "k", vec![echo()], Some((5, Ok(stored))));
    assert!(warning.is_none());
    assert_eq!(agent.session_id, Some(5));
    assert_eq!(agent.api_key, "k");
    assert_eq!(
        agent.context.items(),
        &vec![
            Message::system(SYSTEM_PROMPT),
            Message::user("q"),
            Message::Assistant { content: "a".into(), reasoning: None, tool_calls: vec![] },
        ]
    );
    assert_eq!(agent.save_plan(), SavePlan::Replace);
}

#[test]
fn headless_mode() {
    let args = |a: &[&str]| a.iter().map(|s| s.to_string()).collect::<Vec<String>>();
    assert_eq!(check_prompt(&args(&["forge", "check", "a", "b c"])), Some("a b c".to_string()));
    assert_eq!(check_prompt(&args(&["forge", "check"])), None);
    assert_eq!(check_prompt(&args(&["forge", "run", "a"])), None);
    let done = |output: &str| AgentEvent::ToolCallCompleted {
        call_id: "c".into(),
        exit_code: None,
        timed_out: false,
        duration_ms: 0,
        output: output.into(),
    };
    assert_eq!(print_of(&done("a\nb\r\n")), Print::OutLine("[tool done] b".into()));
    assert_eq!(print_of(&done("a\nb")), Print::OutLine("[tool done] b".into()));
    assert_eq!(print_of(&done("a\n\n")), Print::OutLine("[tool done] ".into()));
    assert_eq!(print_of(&done("")), Print::OutLine("[tool done] ".into()));
    assert_eq!(
        print_of(&AgentEvent::TokenCountUpdated { used: 1, limit: 2 }),
        Print::ErrLine("[tokens ~1/2]".into())
    );
    assert_eq!(
        print_of(&AgentEvent::Error { message: "x".into() }),
        Print::ErrLine("\n[error] x".into())
    );
    assert_eq!(print_of(&AgentEvent::TurnStarted), Print::Nothing);
    assert_eq!(closing_line("hi"), "=== final answer: hi ===");
    assert_eq!(
        closing_line(&"汉".repeat(300)),
        format!("=== final answer: {} ===", "汉".repeat(200))
    );
}

#[test]
fn used_up_time_makes_no_request() {
    let budget = BudgetConfig { max_turn_seconds: 5, ..BudgetConfig::default() };
    let mut agent = agent_with(budget, ContextConfig::default(), None);
    agent.run_turn("go", Signal { cancelled: false, elapsed_secs: 0 });
    agent.step(Reply::Saved(Ok(())), Signal { cancelled: false, elapsed_secs: 5 });
    assert_eq!(agent.awaiting(), Await::Nothing);
    assert!(matches!(&agent.result, Err(Error::BudgetExceeded(m)) if m.contains("5s")));
}

#[test]
fn given_up_stream_without_a_signal_is_no_cancellation() {
    let mut agent = test_agent(None);
    let sig = Signal { cancelled: false, elapsed_secs: 0 };
    agent.run_turn("go", sig);
    agent.step(Reply::Saved(Ok(())), sig);
    agent.step(Reply::Opened, sig);
    assert!(agent.step(Reply::Cancelled, sig).is_empty());
    assert_eq!(agent.awaiting(), Await::NextEvent);
}

#[test]
fn cancelled_turn_makes_no_request() {
    let mut w = World::new(two_turn_script());
    w.cancelled = true;
    let mut agent = test_agent(Some(1));
    assert_eq!(w.run(&mut agent, "go"), Err(Error::Cancelled));
    assert!(w.requests.is_empty());
}

//! The user interface's state and what it shows.

use forge::error::Error;
use forge::event::AgentEvent;
use forge::json::Json;
use forge::message::{Message, ToolCall, Usage};
use forge::session::{
    latest_session_for_project, message_role, ordinal_after, parse_ts, row_to_summary,
    session_text, sqlite_url, Candidate, ProjectMarker, SessionSummary, Timestamp,
};
use forge::tui_app::{Answer, App, CommandAction, Line};
use forge::ui::{
    cursor, input_width, on_key, prompt, scroll_offset, status_look, transcript, wrap_width, Key,
    Look,
};
use unicode_width::UnicodeWidthStr;

// ---- commands ----

#[test]
fn exit_command_is_recognized() {
    let mut app = App::new();
    app.input = "/exit".into();
    assert!(matches!(app.on_submit(), CommandAction::Exit));
    app.input = "/quit".into();
    assert!(matches!(app.on_submit(), CommandAction::Exit));
}

#[test]
fn commands_and_text() {
    let mut app = App::new();
    for (input, action) in [
        ("", CommandAction::Nothing),
        ("  \n", CommandAction::Nothing),
        ("/new", CommandAction::NewSession),
        ("/resume now", CommandAction::Resume),
        (" /compact ", CommandAction::Compact),
        ("/help", CommandAction::Nothing),
        ("/newest", CommandAction::Nothing),
        ("  do it ", CommandAction::Send("do it".into())),
    ] {
        app.input = input.into();
        assert_eq!(app.on_submit(), action, "{input}");
        assert!(app.input.is_empty());
    }
    assert_eq!(
        app.lines,
        vec![
            Line::System("commands: /new /resume /compact /exit".into()),
            Line::Warn("unknown command: /newest".into()),
            Line::User("do it".into()),
        ]
    );
}

#[test]
fn exit_works_while_busy_and_cancels() {
    let mut app = App::new();
    app.busy = true;
    assert_eq!(app.dispatch(CommandAction::Compact), CommandAction::Nothing);
    assert!(!app.should_quit);
    assert_eq!(app.dispatch(CommandAction::Exit), CommandAction::Nothing);
    assert!(app.should_quit);
    assert!(app.take_cancel_request());
    app.busy = false;
    assert_eq!(app.dispatch(CommandAction::Compact), CommandAction::Compact);
}

#[test]
fn clear_transient_drops_streaming_state() {
    let mut app = App::new();
    app.lines.push(Line::System("x".into()));
    app.streaming_assistant.push_str("partial");
    app.streaming_reasoning.push_str("thought");
    app.open_tools.insert("c1".into(), ("cmd".into(), "out".into()));
    app.clear_transient();
    assert!(app.lines.is_empty());
    assert!(app.streaming_assistant.is_empty());
    assert!(app.streaming_reasoning.is_empty());
    assert!(app.open_tools.is_empty());
    assert_eq!(app.scroll_from_bottom, 0);
}

#[test]
fn leaving_a_session() {
    let mut app = App::new();
    app.on_session_created(Ok(9), "t".into());
    assert_eq!((app.session_id, app.session_title.as_str()), (Some(9), "t"));
    app.leave_session();
    assert_eq!((app.session_id, app.session_title.as_str()), (None, "(new session)"));
    app.on_session_created(Err(Error::Storage("x".into())), "t".into());
    assert_eq!(app.session_id, None);
    app.on_nothing_to_resume(None);
    app.on_nothing_to_resume(Some(Error::Storage("x".into())));
    app.on_compacted(Ok((10, 2)));
    app.on_compacted(Err(Error::Busy));
    assert_eq!(
        app.lines,
        vec![
            Line::Error("session create failed: storage error: x".into()),
            Line::System("no saved sessions for this project".into()),
            Line::Error("cannot list sessions: storage error: x".into()),
            Line::System("manual compaction: ~10 → ~2 tokens".into()),
            Line::Error("a turn is already running".into()),
        ]
    );
}

#[test]
fn titles() {
    let app = App::new();
    assert_eq!(app.maybe_title("fix it", "01-02 03:04"), "fix it");
    assert_eq!(app.maybe_title("", "01-02 03:04"), "session 01-02 03:04");
    assert_eq!(app.maybe_title(&"汉".repeat(50), ""), "汉".repeat(40));
}

// ---- events ----

fn started(id: &str) -> AgentEvent {
    AgentEvent::ToolCallStarted { call_id: id.into(), name: "shell".into(), command: "ls".into() }
}

fn completed(id: &str, output: &str) -> AgentEvent {
    AgentEvent::ToolCallCompleted {
        call_id: id.into(),
        exit_code: Some(0),
        timed_out: false,
        duration_ms: 1,
        output: output.into(),
    }
}

#[test]
fn turn_is_shown_as_it_runs() {
    let mut app = App::new();
    app.on_agent_event(AgentEvent::TurnStarted);
    assert!(app.busy);
    assert_eq!(app.status, "thinking…");
    app.on_agent_event(AgentEvent::ReasoningDelta { delta: "hm".into() });
    app.on_agent_event(AgentEvent::MessageDelta { delta: "Let ".into() });
    app.on_agent_event(AgentEvent::MessageDelta { delta: "me".into() });
    app.on_agent_event(started("a"));
    app.on_agent_event(AgentEvent::ToolCallOutputDelta { call_id: "a".into(), chunk: "x".into() });
    app.on_agent_event(AgentEvent::ToolCallOutputDelta { call_id: "b".into(), chunk: "y".into() });
    app.on_agent_event(completed("a", "  "));
    app.on_agent_event(started("b"));
    app.on_agent_event(completed("b", "full"));
    app.on_agent_event(completed("ghost", "z"));
    app.on_agent_event(AgentEvent::TokenCountUpdated { used: -1, limit: 5 });
    assert_eq!(app.status, "tokens ~-1/5");
    app.on_agent_event(AgentEvent::MessageDelta { delta: "done".into() });
    app.on_agent_event(AgentEvent::TurnCompleted { usage: Usage::default() });
    assert!(!app.busy);
    assert_eq!(app.status, "ready");
    let tool = |output: &str| Line::Tool {
        command: "ls".into(),
        output: output.into(),
        done: true,
    };
    assert_eq!(
        app.lines,
        vec![
            Line::Reasoning("hm".into()),
            Line::Assistant("Let me".into()),
            tool("x"),
            tool("full"),
            Line::Assistant("done".into()),
        ]
    );
}

#[test]
fn error_status_stays_visible() {
    let mut app = App::new();
    app.on_agent_event(AgentEvent::TurnStarted);
    app.on_agent_event(AgentEvent::Warning { message: "w".into() });
    app.on_agent_event(AgentEvent::CompactionStarted);
    app.on_agent_event(AgentEvent::CompactionCompleted { tokens_before: 9, tokens_after: 3 });
    app.on_agent_event(AgentEvent::Error { message: "boom".into() });
    assert!(!app.busy);
    app.on_agent_event(AgentEvent::TurnCompleted { usage: Usage::default() });
    assert_eq!(app.status, "error");
    assert_eq!(status_look(&app), Look::Red);
    assert_eq!(
        app.lines,
        vec![
            Line::Warn("w".into()),
            Line::System("compacting context…".into()),
            Line::System("compaction done: ~9 → ~3 tokens".into()),
            Line::Error("boom".into()),
        ]
    );
}

fn asked(app: &mut App) {
    app.on_agent_event(AgentEvent::ApprovalRequested {
        call_id: "c1".into(),
        tool: "shell".into(),
        command: "rm".into(),
    });
}

#[test]
fn approval_is_answered_by_key() {
    for (key, answer) in [('y', Answer::Once), ('a', Answer::Session), ('n', Answer::Deny)] {
        let mut app = App::new();
        assert_eq!(app.answer_approval(key), None);
        asked(&mut app);
        assert_eq!(app.status, "approve shell? y/n/a");
        assert_eq!(app.answer_approval('x'), None);
        assert_eq!(app.answer_approval(key), Some(("c1".into(), "shell".into(), answer)));
        assert_eq!(app.take_pending_approval(), None);
    }
}

#[test]
fn started_call_settles_its_approval() {
    let mut app = App::new();
    asked(&mut app);
    app.on_agent_event(started("c1"));
    assert_eq!(app.pending_approval, None);
    assert_eq!(app.status, "running…");
}

// ---- sessions ----

fn summary(id: u128, title: &str) -> SessionSummary {
    let t = Timestamp { secs: 0, nanos: 0 };
    SessionSummary { id, title: title.into(), created_at: t, updated_at: t }
}

#[test]
fn stored_session_is_shown() {
    let msgs = vec![
        Message::system("rules"),
        Message::user("q"),
        Message::Assistant {
            content: "a".into(),
            reasoning: Some("r".into()),
            tool_calls: vec![ToolCall { id: "c".into(), name: "t".into(), arguments: Json::Null }],
        },
        Message::ToolResult { tool_call_id: "c".into(), content: "o".into(), is_error: false },
        Message::ToolResult { tool_call_id: "d".into(), content: "e".into(), is_error: true },
    ];
    let mut app = App::new();
    app.load_session(&summary(1, " my title "), Ok(msgs));
    assert_eq!(
        app.lines,
        vec![
            Line::User("q".into()),
            Line::Reasoning("r".into()),
            Line::Assistant("a".into()),
            Line::Tool { command: "(tool result)".into(), output: "o".into(), done: true },
            Line::Error("e".into()),
        ]
    );
    assert_eq!(app.session_title, "my title");
    assert_eq!(app.status, "resumed");
    app.load_session(&summary(0x0102, "  "), Ok(vec![]));
    assert_eq!(app.session_title, "session 00000000-0000-0000-0000-000000000102");
    app.load_session(&summary(2, "x"), Err(Error::Storage("bad".into())));
    assert_eq!(app.lines.last(), Some(&Line::Error("load failed: storage error: bad".into())));
    assert_eq!(app.session_id, Some(0x0102));
}

fn candidate(id: u128, title: &str, root: Option<&str>) -> Candidate {
    Candidate {
        summary: summary(id, title),
        marker: match root {
            Some(r) => ProjectMarker::Value(Json::string(r)),
            None => ProjectMarker::Missing,
        },
    }
}

#[test]
fn sessions_are_scoped_to_project_root() {
    // Newest first, as they are listed.
    let mut sessions = vec![
        candidate(3, "legacy", None),
        candidate(2, "proj b", Some("D:/projB")),
        candidate(1, "proj a", Some("D:/projA")),
    ];
    // Explicit marker wins even though the legacy session is newer.
    assert_eq!(latest_session_for_project(&sessions, "D:/projA", None), Some(2));
    assert_eq!(latest_session_for_project(&sessions, "d:/PROJa", None), Some(2));
    // No marker on any match → legacy fallback keeps old data reachable.
    assert_eq!(latest_session_for_project(&sessions, "D:/projC", None), Some(0));
    // Title narrowing (forge check).
    sessions.insert(0, candidate(4, "check", Some("D:/projA")));
    assert_eq!(latest_session_for_project(&sessions, "D:/projA", Some("check")), Some(0));
    assert_eq!(latest_session_for_project(&sessions, "D:/projB", Some("check")), None);
    // A marker that cannot be read is no marker and no match.
    sessions[3].marker = ProjectMarker::Unreadable;
    assert_eq!(latest_session_for_project(&sessions, "D:/projA", Some("proj a")), None);
}

#[test]
fn stored_rows_are_read() {
    let id = uuid::Uuid::from_u128(0x1234_5678);
    let s = row_to_summary(
        &id.to_string(),
        "t",
        "1970-01-01T00:00:01.5+00:00",
        "1970-01-01T01:00:00+01:00",
    );
    assert_eq!(s.id, 0x1234_5678);
    assert_eq!(s.created_at, Timestamp { secs: 1, nanos: 500_000_000 });
    assert_eq!(s.updated_at, Timestamp { secs: 0, nanos: 0 });
    let bad = row_to_summary("nonsense", "t", "yesterday", "");
    assert_eq!(bad.id, 0);
    assert_eq!(bad.created_at, Timestamp { secs: 0, nanos: 0 });
    assert_eq!(parse_ts("2000-01-01T00:00:00Z").secs, 946_684_800);
}

#[test]
fn session_ids_are_written_and_read_back() {
    let id = 0x0011_2233_4455_6677_8899_aabb_ccdd_eeff;
    assert_eq!(session_text(id), "00112233-4455-6677-8899-aabbccddeeff");
    assert_eq!(row_to_summary(&session_text(id), "", "", "").id, id);
}

#[test]
fn storage_details() {
    assert_eq!(sqlite_url(r"C:\a\b.db"), "sqlite://C:/a/b.db");
    assert_eq!(ordinal_after(-1, 0), 0);
    assert_eq!(ordinal_after(4, 2), 7);
    assert_eq!(message_role(&Message::user("")), "user");
    assert_eq!(message_role(&Message::system("")), "system");
}

// ---- what is shown ----

#[test]
fn wrap_ascii_respects_width() {
    let out = wrap_width("aaaa bbbb cccc dddd", 10);
    assert!(out.iter().all(|l| UnicodeWidthStr::width(l.as_str()) <= 10));
    assert_eq!(out.join(" "), "aaaa bbbb cccc dddd");
}

#[test]
fn wrap_cjk_counts_columns_not_bytes() {
    // 20 CJK chars = 40 columns; a 12-column line must hard-break them.
    let text = "汉".repeat(20);
    let out = wrap_width(&text, 12);
    assert!(out.len() >= 3, "expected hard breaks, got {} lines", out.len());
    assert!(out.iter().all(|l| UnicodeWidthStr::width(l.as_str()) <= 12));
    assert_eq!(out.concat(), text);
}

#[test]
fn wrap_long_unbroken_ascii_hard_breaks() {
    let out = wrap_width(&"x".repeat(25), 10);
    assert_eq!(out.len(), 3);
    assert_eq!(out.concat(), "x".repeat(25));
}

#[test]
fn wrap_edges() {
    assert_eq!(wrap_width("", 10), vec![""]);
    assert_eq!(wrap_width("a\n\nb", 10), vec!["a", "", "b"]);
    assert_eq!(wrap_width("aaaaa bb", 0), vec!["aaaa", "a bb"]);
    assert_eq!(wrap_width("ab 汉字 c", 7), vec!["ab 汉字", "c"]);
}

#[test]
fn scroll_offset_pins_bottom_at_zero() {
    // 100 rows, 10 visible: 0 = exactly at the bottom.
    assert_eq!(scroll_offset(100, 10, 0), 90);
    // Scrolling up 3 moves exactly 3 rows from the bottom.
    assert_eq!(scroll_offset(100, 10, 3), 87);
    // Far beyond the top clamps at 0 (top of content).
    assert_eq!(scroll_offset(100, 10, 500), 0);
    // Content shorter than the viewport stays at the top.
    assert_eq!(scroll_offset(5, 10, 0), 0);
}

#[test]
fn transcript_rows_and_scroll() {
    let mut app = App::new();
    app.push_line(Line::User("a\nb".into()));
    app.push_line(Line::Tool {
        command: "ls".into(),
        output: (0..30).map(|i| i.to_string()).collect::<Vec<_>>().join("\n"),
        done: true,
    });
    app.push_line(Line::Error("bad".into()));
    app.streaming_reasoning.push_str("r");
    app.streaming_assistant.push_str("s");
    app.open_tools.insert("c".into(), ("run".into(), "x".repeat(300)));
    let screen = transcript(&app, 302, 12);
    let rows: Vec<(&str, Look)> = screen.rows.iter().map(|r| (r.text.as_str(), r.look)).collect();
    assert_eq!(rows[0], ("", Look::Plain));
    assert_eq!(rows[1], ("❯ a", Look::GreenBold));
    // Blanks at the start of a row are dropped by the wrap.
    assert_eq!(rows[2], ("b", Look::Green));
    assert_eq!(rows[3], ("", Look::Plain));
    assert_eq!(rows[4], ("⚙ ls", Look::AccentBold));
    assert_eq!(rows[5], ("0", Look::Gray));
    assert_eq!(rows[28], ("23", Look::Gray));
    assert_eq!(rows[29], ("… 6 more lines", Look::Dim));
    assert_eq!(rows[30], ("", Look::Plain));
    assert_eq!(rows[31], ("✗ bad", Look::Red));
    assert_eq!(rows[32], ("· r", Look::DimItalic));
    assert_eq!(rows[33], ("", Look::Plain));
    assert_eq!(rows[34], ("s", Look::White));
    assert_eq!(rows[35], ("⚙ run", Look::AccentBold));
    assert_eq!(rows[36], ("x".repeat(240).as_str(), Look::Accent));
    assert_eq!(rows.len(), 37);
    assert_eq!(screen.scroll, 27);
    app.scroll_from_bottom = 30;
    assert_eq!(transcript(&app, 302, 12).scroll, 0);
}

#[test]
fn cursor_follows_the_input() {
    let mut app = App::new();
    app.input = "汉a".into();
    assert_eq!(input_width(&app.input), 3);
    assert_eq!(cursor(&app, 2, 5, 40), Some((2 + 1 + 3 + 3, 6)));
    assert_eq!(cursor(&app, 2, 5, 8), None);
    assert_eq!(cursor(&app, 0, 0, 0), None);
    assert_eq!(prompt(true), (" ● ".to_string(), Look::Yellow));
    assert_eq!(prompt(false), (" ❯ ".to_string(), Look::Green));
    assert_eq!(status_look(&app), Look::Green);
    app.busy = true;
    assert_eq!(status_look(&app), Look::Yellow);
}

#[test]
fn keys() {
    let mut app = App::new();
    assert!(!on_key(&mut app, Key::Backspace));
    assert!(!on_key(&mut app, Key::Char('c', false)));
    assert!(!on_key(&mut app, Key::Char('汉', false)));
    assert_eq!(app.input, "c汉");
    on_key(&mut app, Key::Backspace);
    assert_eq!(app.input, "c");
    assert!(on_key(&mut app, Key::Enter));
    on_key(&mut app, Key::Up);
    on_key(&mut app, Key::Up);
    on_key(&mut app, Key::Down);
    assert_eq!(app.scroll_from_bottom, 3);
    on_key(&mut app, Key::Down);
    on_key(&mut app, Key::Down);
    assert_eq!(app.scroll_from_bottom, 0);
    app.scroll_from_bottom = u16::MAX - 1;
    on_key(&mut app, Key::Up);
    assert_eq!(app.scroll_from_bottom, u16::MAX);
    on_key(&mut app, Key::Esc);
    assert!(!app.take_cancel_request());
    app.busy = true;
    on_key(&mut app, Key::Esc);
    assert!(!app.should_quit);
    assert!(app.take_cancel_request());
    assert!(!app.take_cancel_request());
    on_key(&mut app, Key::Char('c', true));
    assert!(app.should_quit);
    on_key(&mut app, Key::Other);
}

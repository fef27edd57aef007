//! The shell tool: limits, capture and merging of output.

use forge::shell::{
    decode_lossy, finish, is_sensitive_variable, merge_output, Capture, LiveBudget, ShellArgs,
    ShellTool,
};

fn args(timeout_ms: Option<u64>) -> ShellArgs {
    ShellArgs { command: "ls".into(), workdir: None, timeout_ms }
}

fn captured(bytes: &[u8]) -> Capture {
    let mut c = Capture::new();
    c.push(bytes);
    c
}

#[test]
fn timeouts_are_milliseconds() {
    assert_eq!(ShellTool::with_defaults().timeout_ms(&args(None)), 120_000);
    assert_eq!(ShellTool::new(None, 1).timeout_ms(&args(None)), 1_000);
    assert_eq!(ShellTool::new(None, 1).timeout_ms(&args(Some(1500))), 1500);
    assert_eq!(ShellTool::new(None, 1).timeout_ms(&args(Some(u64::MAX))), 600_000);
    assert_eq!(ShellTool::new(None, u64::MAX).timeout_ms(&args(None)), 600_000);
}

#[test]
fn tool_description() {
    let t = ShellTool::with_defaults();
    assert_eq!(t.name(), "shell");
    let schema = t.parameters_schema();
    assert_eq!(schema.str_at("type"), Some("object"));
    assert!(schema.get2("properties", "command").is_some());
    assert!(!t.description().is_empty());
}

#[test]
fn places_of_the_shell() {
    let t = ShellTool::new(Some("C:/bash.exe".into()), 1);
    let places = t.resolve_bash(Some("C:/x \r\nC:/y\r\n"));
    assert_eq!(places[0], "C:/bash.exe");
    assert_eq!(places[1], "C:/x");
    assert_eq!(places.len(), 5);
    assert_eq!(places[2..], ShellTool::with_defaults().resolve_bash(None)[..]);
}

#[test]
fn secrets_are_not_handed_on() {
    for name in ["OPENAI_API_KEY", "my_api_key_2", "GITHUB_TOKEN", "FORGE_HOME", "forge_x"] {
        assert!(is_sensitive_variable(name), "{name}");
    }
    for name in ["PATH", "HOME", "TOKENS", "UNFORGED"] {
        assert!(!is_sensitive_variable(name), "{name}");
    }
}

#[test]
fn capture_keeps_head_and_tail() {
    let half = 512 * 1024;
    let mut c = Capture::new();
    assert!(c.is_empty());
    c.push(&vec![b'a'; half]);
    c.push(&vec![b'b'; half]);
    assert_eq!(c.kept_len(), 2 * half);
    c.push(&vec![b'c'; 10]);
    assert_eq!(c.kept_len(), 2 * half);
    let t = c.text();
    assert!(t.starts_with("aaaa"));
    assert!(t.ends_with("cccccccccc"));
    assert!(t.contains("10"), "the gap is noted");
}

#[test]
fn broken_utf8_is_replaced() {
    assert_eq!(decode_lossy(b"a\xffb"), "a\u{fffd}b");
    assert_eq!(captured("汉".as_bytes()).text(), "汉");
}

#[test]
fn live_output_has_a_budget() {
    let mut b = LiveBudget::new();
    assert_eq!(b.take(200 * 1024), 200 * 1024);
    assert_eq!(b.take(200 * 1024), 56 * 1024);
    assert_eq!(b.take(1), 0);
}

#[test]
fn output_of_a_command() {
    let ok = finish(&captured(b"hello\n"), &Capture::new(), Some(0), None, 12);
    assert!(ok.content.contains("hello"), "got: {}", ok.content);
    assert_eq!((ok.exit_code, ok.timed_out, ok.duration_ms), (Some(0), false, 12));
    let failed = finish(&Capture::new(), &captured(b"oops\n"), Some(3), None, 1);
    assert!(failed.content.contains("oops"), "got: {}", failed.content);
    assert!(failed.content.contains('3'), "got: {}", failed.content);
    let late = finish(&captured(b"so far"), &Capture::new(), None, Some(1500), 1501);
    assert!(late.timed_out);
    assert!(late.content.contains("so far") && late.content.contains("1500"));
}

#[test]
fn merged_output_is_exact() {
    assert_eq!(merge_output(None, true, "", "out", Some(0)), "stdout:\nout\nexit code: 0");
    assert_eq!(
        merge_output(Some(5), false, "err", "out", None),
        "command timed out after 5 ms\nstderr:\nerr\nstdout:\nout\nexit code: signal"
    );
}

#[test]
fn utf8_output_is_kept_as_it_is() {
    let mut c = Capture::new();
    c.push("grün 汉字 🦀\n".as_bytes());
    assert_eq!(c.text(), "grün 汉字 🦀\n");
    let out = finish(&c, &captured("später".as_bytes()), Some(0), None, 1);
    assert_eq!(
        out.content,
        "stderr:\nspäter\nstdout:\ngrün 汉字 🦀\n\nexit code: 0"
    );
}

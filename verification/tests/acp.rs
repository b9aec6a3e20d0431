use unirun::acp::{
    join_blocks, parse_request, present_texts, prompt_text, spec_from_prompt, split_chars,
    stop_reason, text_block, text_blocks, update_texts, AcpAction, AcpServer, Reply, ERR_INVALID_PARAMS, ERR_METHOD_NOT_FOUND,
    ERR_SESSION, ERR_UNKNOWN_SESSION, PROTOCOL_VERSION,
};
use unirun::exec::{StreamChunk, StreamKind};
use unirun::spec::{ExecKind, ExecResult, Shell};

#[test]
fn prompt_text_joins_blocks() {
    let params = r#"{
        "prompt": [
            { "type": "text", "text": "echo a" },
            { "type": "text", "text": "echo b" }
        ]
    }"#;
    assert_eq!(prompt_text(params), "echo a\necho b");
}

#[test]
fn prompt_text_skips_non_text_blocks() {
    let params = r#"{
        "prompt": [
            { "type": "image", "data": "x" },
            { "type": "text", "text": "ls -la" }
        ]
    }"#;
    assert_eq!(prompt_text(params), "ls -la");
}

#[test]
fn only_blocks_of_type_text_count() {
    let params = r#"{
        "prompt": [
            { "type": "resource", "text": "x" },
            { "type": "text", "text": "echo a" },
            { "text": "y" },
            { "type": "text" },
            { "type": "text", "text": "echo b" }
        ]
    }"#;
    assert_eq!(text_blocks(params), vec!["echo a", "echo b"]);
    assert_eq!(prompt_text(params), "echo a\necho b");
    assert_eq!(text_block(Some("text".into()), Some("t".into())).as_deref(), Some("t"));
    assert_eq!(text_block(Some("resource".into()), Some("t".into())), None);
    assert_eq!(text_block(None, Some("t".into())), None);
    assert_eq!(present_texts(&vec![None, Some("x".into()), None]), vec!["x"]);
}

#[test]
fn only_a_single_block_is_a_structured_spec() {
    let params = r#"{"prompt":[{"type":"text","text":"{\"command\":"},{"type":"text","text":"\"ls\"}"}]}"#;
    let text = prompt_text(params);
    assert_eq!(text, "{\"command\":\n\"ls\"}");
    let blocks = text_blocks(params).len();
    assert_eq!(blocks, 2);
    let spec = spec_from_prompt(&text, "/tmp", blocks, None);
    assert_eq!(spec.command, "{\"command\":\n\"ls\"}");
    assert_eq!(spec.kind, ExecKind::Run);
    assert_eq!(spec_from_prompt(&text, "/tmp", 1, None).command, "ls");
}

#[test]
fn plain_prompt_is_run_command() {
    let spec = spec_from_prompt("echo hi", "/tmp", 1, None);
    assert_eq!(spec.command, "echo hi");
    assert_eq!(spec.kind, ExecKind::Run);
    assert_eq!(spec.workdir.as_deref(), Some("/tmp"));
}

#[test]
fn json_prompt_is_structured_spec() {
    let spec = spec_from_prompt(
        r#"{"command": "ls", "shell": "bash", "timeout": 5, "env": {"A": "1"}}"#,
        "/",
        1,
        Some(5000),
    );
    assert_eq!(spec.command, "ls");
    assert_eq!(spec.shell, Some(Shell::Bash));
    assert_eq!(spec.timeout_ms, 5000);
    assert_eq!(spec.env, vec![("A".to_string(), "1".to_string())]);
}

#[test]
fn split_chars_respects_max() {
    let pieces = split_chars("abcdef", 2);
    assert_eq!(pieces, vec!["ab", "cd", "ef"]);
    let one = split_chars("hi", 10);
    assert_eq!(one, vec!["hi"]);
    let s = "中文输出内容".to_string();
    let rejoined: String = split_chars(&s, 3).concat();
    assert_eq!(rejoined, s);
}

#[test]
fn odd_splits() {
    assert_eq!(split_chars("", 5), vec![""]);
    assert_eq!(split_chars("", 0), vec![""]);
    assert_eq!(split_chars("ab", 0), vec!["a", "b"]);
    assert_eq!(split_chars("abcde", 2), vec!["ab", "cd", "e"]);
}

#[test]
fn script_prompt_and_other_json() {
    let spec = spec_from_prompt(r#" {"script": "a\nb", "workdir": "/w", "env": {"N": 1}} "#, "/c", 1, None);
    assert_eq!(spec.kind, ExecKind::Script);
    assert_eq!(spec.command, "a\nb");
    assert_eq!(spec.workdir.as_deref(), Some("/w"));
    assert_eq!(spec.env, vec![("N".to_string(), String::new())]);
    assert_eq!(spec.timeout_ms, 0);
    let spec = spec_from_prompt("[1, 2]\n", "/c", 1, Some(9));
    assert_eq!(spec.command, "[1, 2]");
    assert_eq!(spec.timeout_ms, 0);
    let spec = spec_from_prompt(r#"{"command": "x", "shell": "fish"}"#, "/c", 1, None);
    assert_eq!(spec.shell, None);
    assert_eq!(join_blocks(&vec![None, Some("x".into()), None, Some("".into())]), "x\n");
}

fn message(id: Option<u32>, method: &str, params: &str) -> String {
    match id {
        Some(i) => format!(r#"{{"jsonrpc":"2.0","id":{},"method":"{}","params":{}}}"#, i, method, params),
        None => format!(r#"{{"jsonrpc":"2.0","method":"{}","params":{}}}"#, method, params),
    }
}

fn error_code(a: AcpAction) -> i64 {
    match a {
        AcpAction::Answer { reply: Reply::Error { code, .. }, .. } => code,
        _ => panic!("no error"),
    }
}

fn with_session(s: &mut AcpServer) {
    let line = message(Some(1), "session/new", r#"{"cwd":"/tmp","mcpServers":[]}"#);
    match s.handle_line(&line, "sid") {
        AcpAction::Answer { id, reply: Reply::SessionCreated(sid) } => {
            assert_eq!(id, "1");
            assert_eq!(sid, "sid");
        }
        _ => panic!("no session"),
    }
}

const PROMPT: &str = r#"{"sessionId":"sid","prompt":[{"type":"text","text":"sleep 30"}]}"#;

#[test]
fn acp_initialize_negotiates_baseline() {
    let mut s = AcpServer::new();
    let line = message(Some(7), "initialize", r#"{"protocolVersion":1,"clientCapabilities":{}}"#);
    match s.handle_line(&line, "x") {
        AcpAction::Answer { id, reply: Reply::Capabilities } => assert_eq!(id, "7"),
        _ => panic!("no answer"),
    }
    assert_eq!(PROTOCOL_VERSION, 1);
}

#[test]
fn acp_prompt_streams_output_and_ends_turn() {
    let mut s = AcpServer::new();
    with_session(&mut s);
    let line = message(Some(2), "session/prompt", r#"{"sessionId":"sid","prompt":[{"type":"text","text":"echo acp-ok"}]}"#);
    match s.handle_line(&line, "x") {
        AcpAction::Start { session_id, cwd, prompt, blocks, request } => {
            assert_eq!((session_id.as_str(), cwd.as_str()), ("sid", "/tmp"));
            assert_eq!(prompt, "echo acp-ok");
            assert_eq!(blocks, 1);
            assert_eq!(request.as_deref(), Some("2"));
        }
        _ => panic!("not started"),
    }
    let r = ExecResult::success("acp-ok\n".into(), String::new(), "bash");
    assert_eq!(stop_reason(&r), "end_turn");
    let out = update_texts(&StreamChunk { stream: StreamKind::Stdout, text: "acp-ok\n".into() });
    assert_eq!(out, vec!["acp-ok\n"]);
}

#[test]
fn acp_json_prompt_is_structured_spec() {
    let params = r#"{"sessionId":"sid","prompt":[{"type":"text","text":"{\"command\": \"echo structured-ok\", \"timeout\": 30}"}]}"#;
    let text = prompt_text(params);
    let spec = spec_from_prompt(&text, "/tmp", text_blocks(params).len(), Some(30_000));
    assert_eq!(spec.command, "echo structured-ok");
    assert_eq!(spec.timeout_ms, 30_000);
}

#[test]
fn acp_cancel_aborts_prompt() {
    let mut s = AcpServer::new();
    with_session(&mut s);
    assert!(matches!(s.handle_line(&message(Some(2), "session/prompt", PROMPT), "x"), AcpAction::Start { .. }));
    assert!(!s.is_aborted("sid"));
    let cancel = message(None, "session/cancel", r#"{"sessionId":"sid"}"#);
    assert!(matches!(s.handle_line(&cancel, "x"), AcpAction::Ignore));
    assert!(s.is_aborted("sid"));
    let mut r = ExecResult::success(String::new(), String::new(), "bash");
    r.aborted = true;
    assert_eq!(stop_reason(&r), "cancelled");
    s.prompt_done("sid");
    assert!(matches!(s.handle_line(&message(Some(3), "session/prompt", PROMPT), "x"), AcpAction::Start { .. }));
    assert!(!s.is_aborted("sid"));
}

#[test]
fn acp_busy_session_rejects_second_prompt() {
    let mut s = AcpServer::new();
    with_session(&mut s);
    assert!(matches!(s.handle_line(&message(Some(2), "session/prompt", PROMPT), "x"), AcpAction::Start { .. }));
    assert_eq!(error_code(s.handle_line(&message(Some(3), "session/prompt", PROMPT), "x")), -32000);
    assert_eq!(ERR_SESSION, -32000);
}

#[test]
fn acp_unknown_session_and_method_error() {
    let mut s = AcpServer::new();
    let params = r#"{"sessionId":"does-not-exist","prompt":[{"type":"text","text":"echo x"}]}"#;
    assert_eq!(error_code(s.handle_line(&message(Some(1), "session/prompt", params), "x")), -32001);
    assert_eq!(error_code(s.handle_line(&message(Some(2), "bogus/method", "{}"), "x")), -32601);
    assert_eq!((ERR_UNKNOWN_SESSION, ERR_METHOD_NOT_FOUND), (-32001, -32601));
}

#[test]
fn acp_multi_block_prompt_joins_lines() {
    let params = r#"{"sessionId":"s","prompt":[{"type":"text","text":"echo line-one"},{"type":"text","text":"echo line-two"}]}"#;
    let text = prompt_text(params);
    assert!(
        text.contains("line-one") && text.contains("line-two"),
        "{}",
        text
    );
}

#[test]
fn refusals() {
    let mut s = AcpServer::new();
    assert_eq!(error_code(s.handle_line(&message(Some(1), "session/new", "{}"), "x")), ERR_INVALID_PARAMS);
    with_session(&mut s);
    let empty = r#"{"sessionId":"sid","prompt":[{"type":"text","text":"  "}]}"#;
    assert_eq!(error_code(s.handle_line(&message(Some(2), "session/prompt", empty), "x")), ERR_INVALID_PARAMS);
    assert!(matches!(s.handle_line(&message(Some(3), "session/prompt", PROMPT), "x"), AcpAction::Start { .. }));
    match s.handle_line(&message(Some(4), "session/update", "{}"), "x") {
        AcpAction::Answer { reply: Reply::Error { message, .. }, .. } => {
            assert_eq!(message, "method not found: session/update")
        }
        _ => panic!("no error"),
    }
}

#[test]
fn notifications_and_noise_are_not_answered() {
    let mut s = AcpServer::new();
    for line in ["", "   ", "not json", r#"{"method":"initialize"}"#, r#"{"method":"nope"}"#, "[]"] {
        assert!(matches!(s.handle_line(line, "x"), AcpAction::Ignore), "{}", line);
    }
    assert!(parse_request("{").is_none());
    assert!(matches!(s.handle_line(r#"{"id":null,"method":"ping"}"#, "x"), AcpAction::Answer { .. }));
    assert!(!s.knows("sid"));
}

#[test]
fn stderr_updates_are_marked_and_cut() {
    let text = "x".repeat(8_193);
    let out = update_texts(&StreamChunk { stream: StreamKind::Stderr, text });
    assert_eq!(out.len(), 2);
    assert_eq!(out[1], "[stderr] x");
    assert!(out[0].starts_with("[stderr] x"));
}

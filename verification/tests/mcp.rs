use unirun::exec::{finish_run, Captured, Ending};
use unirun::mcp::{
    call_tool_json, is_error, parse_message, route_line, McpAction, McpReply, ToolCall,
};
use unirun::probe::probe;
use unirun::recipe::{Conventions, ErrorMapEntry, Recipe, Timeouts};
use unirun::spec::{ExecKind, ExecResult, Shell};
use unirun::textmap::TextMap;

fn request(method: &str, params: &str) -> String {
    format!(r#"{{"jsonrpc":"2.0","id":1,"method":"{}","params":{}}}"#, method, params)
}

fn reply(line: &str) -> McpReply {
    match route_line(line) {
        McpAction::Answer { id, reply } => {
            assert_eq!(id, "1");
            reply
        }
        _ => panic!("no answer"),
    }
}

fn call(params: &str) -> ToolCall {
    match route_line(&request("tools/call", params)) {
        McpAction::Call { request, tool, arguments } => {
            assert_eq!(request.as_deref(), Some("1"));
            call_tool_json(&tool, &arguments, None, &None)
        }
        _ => panic!("no call"),
    }
}

fn refusal(c: ToolCall) -> String {
    match c {
        ToolCall::Refuse(m) => m,
        _ => panic!("not refused"),
    }
}

fn finished(code: Option<i32>, timed_out: bool, stdout: &str, stderr: &str) -> ExecResult {
    let ending = Ending { exit_code: code, signal: None, timed_out, aborted: false };
    let kept = |s: &str| Captured { bytes: s.as_bytes().to_vec(), truncated: false };
    finish_run("bash", ending, &kept(stdout), &kept(stderr), 1, &TextMap::new())
}

#[test]
fn mcp_initialize_and_list_tools() {
    assert!(matches!(reply(&request("initialize", "{}")), McpReply::Capabilities));
    assert!(matches!(reply(&request("tools/list", "{}")), McpReply::Tools));
    for tool in ["exec.run", "exec.script", "exec.probe"] {
        let c = call_tool_json(tool, "{}", None, &None);
        assert!(!matches!(c, ToolCall::Refuse(ref m) if m.starts_with("unknown tool")), "{}", tool);
    }
}

#[test]
fn mcp_exec_run_ok() {
    match call(r#"{"name":"exec.run","arguments":{"command":"echo hello-mcp"}}"#) {
        ToolCall::Run(spec) => {
            assert_eq!(spec.command, "echo hello-mcp");
            assert_eq!(spec.kind, ExecKind::Run);
        }
        _ => panic!("not run"),
    }
    let r = finished(Some(0), false, "hello-mcp\n", "");
    assert!(!is_error(&r));
    assert_eq!(r.exit_code, Some(0));
    assert_eq!(r.stdout, "hello-mcp\n");
}

#[test]
fn mcp_exec_run_unicode() {
    match call(r#"{"name":"exec.run","arguments":{"command":"echo '中文MCP'"}}"#) {
        ToolCall::Run(spec) => assert_eq!(spec.command, "echo '中文MCP'"),
        _ => panic!("not run"),
    }
    let r = finished(Some(0), false, "中文MCP\n", "");
    assert_eq!(r.stdout, "中文MCP\n");
    assert_eq!(r.encoding, "utf-8");
}

#[test]
fn mcp_exec_run_error_flag_and_class() {
    match call(r#"{"name":"exec.run","arguments":{"command":"definitely_not_a_real_cmd_mcp_xyz"}}"#) {
        ToolCall::Run(spec) => assert_eq!(spec.command, "definitely_not_a_real_cmd_mcp_xyz"),
        _ => panic!("not run"),
    }
    let r = finished(Some(127), false, "", "bash: definitely_not_a_real_cmd_mcp_xyz: command not found\n");
    assert!(is_error(&r));
    assert_eq!(r.error_class.as_deref(), Some("COMMAND_NOT_FOUND"));
}

#[test]
fn mcp_exec_run_timeout() {
    match call_tool_json("exec.run", r#"{"command":"sleep 5","timeout":1}"#, Some(1000), &None) {
        ToolCall::Run(spec) => assert_eq!(spec.timeout_ms, 1000),
        _ => panic!("not run"),
    }
    let r = finished(None, true, "", "");
    assert!(is_error(&r));
    assert_eq!(r.error_class.as_deref(), Some("TIMEOUT"));
    assert!(r.timed_out);
}

#[test]
fn mcp_exec_script() {
    match call(r#"{"name":"exec.script","arguments":{"script":"echo one\necho two"}}"#) {
        ToolCall::Run(spec) => {
            assert_eq!(spec.command, "echo one\necho two");
            assert_eq!(spec.kind, ExecKind::Script);
        }
        _ => panic!("not run"),
    }
    let r = finished(Some(0), false, "one\ntwo\n", "");
    assert_eq!(r.stdout, "one\ntwo\n");
}

#[test]
fn mcp_probe() {
    assert!(matches!(call(r#"{"name":"exec.probe","arguments":{}}"#), ToolCall::Probe));
    let dirs = vec!["/bin".to_string()];
    let files = vec!["/bin/sh".to_string()];
    let caps = probe("linux", "x86_64", &dirs, "/w", &files, false, "", &None);
    assert!(!caps.platform.is_empty());
    assert_eq!(caps.shells.len(), 6);
    assert_eq!(caps.shells[1].path.as_deref(), Some("/bin/sh"));
}

#[test]
fn mcp_unknown_method_errors() {
    match reply(&request("bogus/method", "{}")) {
        McpReply::Error { code, message } => {
            assert_eq!(code, -32601);
            assert_eq!(message, "method not found: bogus/method");
        }
        _ => panic!("no error"),
    }
    match reply(r#"{"id":1}"#) {
        McpReply::Error { message, .. } => assert_eq!(message, "method not found: ?"),
        _ => panic!("no error"),
    }
}

#[test]
fn cli_mcp_stdin_streams_one_line_per_request() {
    assert!(matches!(reply(r#"{"jsonrpc":"2.0","id":1,"method":"ping","params":{}}"#), McpReply::Done));
}

#[test]
fn missing_arguments_and_unknown_tools_are_refused() {
    assert_eq!(refusal(call(r#"{"name":"exec.run"}"#)), "exec.run: missing required argument `command`");
    assert_eq!(
        refusal(call(r#"{"name":"exec.script","arguments":{"script":""}}"#)),
        "exec.script: missing required argument `script`"
    );
    assert_eq!(refusal(call(r#"{"name":"session.kill","arguments":{}}"#)), "session.kill: missing required argument `id`");
    assert_eq!(refusal(call(r#"{"name":"session.start","arguments":{}}"#)), "session.start: missing required argument `command`");
    assert_eq!(refusal(call(r#"{"name":"zzz"}"#)), "unknown tool `zzz`");
    assert_eq!(refusal(call("{}")), "unknown tool ``");
}

#[test]
fn session_tools() {
    match call(r#"{"name":"session.start","arguments":{"command":"pnpm  build","env":{"A":"1"}}}"#) {
        ToolCall::Start { spec, label } => {
            assert_eq!(label, "pnpm build");
            assert_eq!(spec.env, vec![("A".to_string(), "1".to_string())]);
        }
        _ => panic!("not started"),
    }
    assert!(matches!(call(r#"{"name":"session.status","arguments":{"id":"a"}}"#), ToolCall::Status(id) if id == "a"));
    assert!(matches!(call(r#"{"name":"session.kill","arguments":{"id":"a"}}"#), ToolCall::Kill(id) if id == "a"));
    assert!(matches!(call(r#"{"name":"session.list"}"#), ToolCall::List));
    assert!(matches!(
        call(r#"{"name":"session.output","arguments":{"id":"a","tail":12}}"#),
        ToolCall::Output { tail: 12, .. }
    ));
    assert!(matches!(
        call(r#"{"name":"session.output","arguments":{"id":"a"}}"#),
        ToolCall::Output { tail: 65_536, .. }
    ));
    assert!(matches!(
        call_tool_json("session.wait", r#"{"id":"a"}"#, Some(250), &None),
        ToolCall::Wait { timeout_ms: 250, .. }
    ));
    assert!(matches!(
        call(r#"{"name":"session.wait","arguments":{"id":"a"}}"#),
        ToolCall::Wait { timeout_ms: 120_000, .. }
    ));
}

#[test]
fn options_and_recipe_are_applied() {
    let mut recipe = Recipe::default();
    recipe.conventions = Some(Conventions { line_ending: None, encoding: None, max_output_bytes: Some(128) });
    recipe.error_maps.insert("boom*".into(), ErrorMapEntry { class: "BOOM".into(), hint: None });
    let args = r#"{"command":"c","shell":"ZSH","workdir":"/w","env":{"B":"2","A":"1"}}"#;
    match call_tool_json("exec.run", args, None, &Some(recipe)) {
        ToolCall::Run(spec) => {
            assert_eq!(spec.shell, Some(Shell::Zsh));
            assert_eq!(spec.workdir.as_deref(), Some("/w"));
            assert_eq!(spec.env.len(), 2);
            assert_eq!(spec.max_output_bytes, 128);
            assert_eq!(spec.timeout_ms, 0);
            assert_eq!(spec.error_maps.get("boom*").unwrap().class, "BOOM");
        }
        _ => panic!("not run"),
    }
}

#[test]
fn the_recipe_gives_the_deadline_where_the_call_names_none() {
    let recipe = || {
        let mut r = Recipe::default();
        r.timeouts = Some(Timeouts { default_ms: Some(30_000), build_ms: None });
        r.conventions = Some(Conventions { line_ending: None, encoding: None, max_output_bytes: Some(65_536) });
        r.error_maps.insert("boom*".into(), ErrorMapEntry { class: "BOOM".into(), hint: None });
        Some(r)
    };
    match call_tool_json("exec.run", r#"{"command":"c"}"#, None, &recipe()) {
        ToolCall::Run(spec) => {
            assert_eq!(spec.timeout_ms, 30_000);
            assert_eq!(spec.max_output_bytes, 65_536);
            assert_eq!(spec.error_maps.get("boom*").unwrap().class, "BOOM");
        }
        _ => panic!("not run"),
    }
    match call_tool_json("exec.script", r#"{"script":"c","timeout":5}"#, Some(5_000), &recipe()) {
        ToolCall::Run(spec) => assert_eq!(spec.timeout_ms, 5_000),
        _ => panic!("not run"),
    }
}

#[test]
fn noise_and_notifications() {
    for line in ["", "{", r#"{"method":"ping"}"#, r#"{"id":1,"method":"notifications/initialized"}"#,
        r#"{"id":1,"method":"notifications/cancelled"}"#, r#"{"method":"bogus"}"#] {
        assert!(matches!(route_line(line), McpAction::Ignore), "{}", line);
    }
    assert!(matches!(route_line(r#"{"method":"tools/call"}"#), McpAction::Call { request: None, .. }));
    assert!(parse_message("  ").is_none());
    assert_eq!(parse_message(r#"{"id":"x"}"#).unwrap().id.as_deref(), Some("\"x\""));
}

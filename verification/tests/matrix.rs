//! Whole runs, with what the shell does given by hand.

use unirun::exec::{
    finish_run, launch, next_step, spawn_failure, taskkill_args, Act, Captured, Ending, Look,
    Phase, Poll, Step, StreamDecoder, Supervisor, TailBuffer, POLL_MS,
};
use unirun::spec::{ExecKind, ExecResult, ExecSpec, Shell};
use unirun::textmap::TextMap;

/// A run whose process exits with `code` after writing both streams.
fn run_spec(spec: &ExecSpec, code: i32, stdout: &[u8], stderr: &[u8]) -> ExecResult {
    let l = launch(spec, true);
    let mut s = Supervisor::new(l.timeout_ms, l.grace_ms, POLL_MS, false);
    let mut out = TailBuffer::new(l.max_output);
    let mut err = TailBuffer::new(l.max_output);
    for chunk in stdout.chunks(100) {
        out.push(chunk);
        let act = s.observe(&Look { poll: Poll::Running, abort: false, elapsed_ms: 0 });
        assert_eq!(act, Act::Sleep(POLL_MS));
    }
    err.push(stderr);
    let look = Look { poll: Poll::Exited { code: Some(code), signal: None }, abort: false, elapsed_ms: 1 };
    assert_eq!(s.observe(&look), Act::Nothing);
    finish_run(&l.shell, s.ending().unwrap(), &out.finish(), &err.finish(), 1, &spec.error_maps)
}

fn run_cmd(cmd: &str, code: i32, stdout: &str, stderr: &str) -> ExecResult {
    let spec = ExecSpec { command: cmd.to_string(), ..Default::default() };
    run_spec(&spec, code, stdout.as_bytes(), stderr.as_bytes())
}

#[test]
fn t_d_rc_propagation_explicit_exit() {
    let r = run_cmd("exit 42", 42, "", "");
    assert_eq!(r.exit_code, Some(42));
    assert_eq!(r.error_class.as_deref(), None);
}

#[test]
fn t_e_nested_exit_code() {
    let r = run_cmd("sh -c 'exit 7'", 7, "", "");
    assert_eq!(r.exit_code, Some(7));
}

#[test]
fn t_g_h_multiline_script() {
    let r = run_cmd("echo line1\necho line2\necho line3", 0, "line1\nline2\nline3\n", "");
    assert_eq!(r.exit_code, Some(0));
    assert_eq!(r.stdout, "line1\nline2\nline3\n");
}

#[test]
fn t_unicode_chinese_utf8() {
    let r = run_cmd("echo '中文OK'", 0, "中文OK\n", "");
    assert_eq!(r.exit_code, Some(0));
    assert_eq!(r.stdout, "中文OK\n");
    assert_eq!(r.encoding, "utf-8");
}

#[test]
fn t_stdout_stderr_split() {
    let r = run_cmd("echo out; echo err >&2", 0, "out\n", "err\n");
    assert_eq!(r.stdout, "out\n");
    assert_eq!(r.stderr, "err\n");
}

#[test]
fn t_timeout_kills_and_classifies() {
    let spec = ExecSpec { command: "sleep 5".into(), timeout_ms: 1000, ..Default::default() };
    let l = launch(&spec, true);
    let mut s = Supervisor::new(l.timeout_ms, l.grace_ms, POLL_MS, false);
    let running = |ms: u64| Look { poll: Poll::Running, abort: false, elapsed_ms: ms };
    assert_eq!(s.observe(&running(999)), Act::Sleep(5));
    assert_eq!(s.observe(&running(1000)), Act::AskToEnd);
    assert_eq!(s.observe(&running(1010)), Act::Sleep(10));
    let gone = Look { poll: Poll::Exited { code: None, signal: Some(15) }, abort: false, elapsed_ms: 1020 };
    assert_eq!(s.observe(&gone), Act::Reap);
    let r = finish_run(&l.shell, s.ending().unwrap(), &Captured::nothing(), &Captured::nothing(), 1020, &spec.error_maps);
    assert!(r.timed_out, "expected timeout, got {:?}", r);
    assert!(r.duration_ms < 3_000, "took {}ms", r.duration_ms);
    assert_eq!(r.error_class.as_deref(), Some("TIMEOUT"));
    assert_eq!(r.exit_code, None);
}

#[test]
fn t_timeout_kills_whole_tree() {
    let mut s = Supervisor::new(1000, 2000, POLL_MS, false);
    let running = |ms: u64| Look { poll: Poll::Running, abort: false, elapsed_ms: ms };
    assert_eq!(s.observe(&running(1003)), Act::AskToEnd);
    assert_eq!(s.observe(&running(3002)), Act::Sleep(10));
    assert_eq!(s.observe(&running(3003)), Act::EndAndReap);
    assert!(s.ending().unwrap().timed_out);
    assert_eq!(s.observe(&running(9999)), Act::Nothing);
}

#[test]
fn t_output_tail_truncated_not_deadlocked() {
    let spec = ExecSpec {
        command: "seq 1 200000".into(),
        timeout_ms: 15_000,
        max_output_bytes: 4096,
        ..Default::default()
    };
    let mut all = String::new();
    for i in 1..=200_000 {
        all.push_str(&format!("{}\n", i));
    }
    let r = run_spec(&spec, 0, all.as_bytes(), b"");
    assert_eq!(r.exit_code, Some(0));
    assert!(r.truncated, "expected truncation");
    assert!(r.stdout.len() <= 4096 + 64, "stdout len {}", r.stdout.len());
    assert!(
        r.stdout.trim_end().ends_with("200000"),
        "tail not kept: ...{}",
        &r.stdout[r.stdout.len().saturating_sub(40)..]
    );
}

#[test]
fn t_command_not_found_classified() {
    let r = run_cmd("definitely_not_a_real_cmd_xyz_123", 127, "", "bash: definitely_not_a_real_cmd_xyz_123: command not found\n");
    assert_eq!(r.exit_code, Some(127));
    assert_eq!(r.error_class.as_deref(), Some("COMMAND_NOT_FOUND"));
    assert!(r.hint.as_deref().unwrap_or("").contains("probe"));
}

#[test]
fn t_invalid_utf8_lossy_labeled() {
    let spec = ExecSpec { command: "printf '\\377\\376'".into(), ..Default::default() };
    let r = run_spec(&spec, 0, &[0xFF, 0xFE], b"");
    assert!(
        r.encoding == "utf-8-lossy" || r.encoding == "utf-16le",
        "got {}",
        r.encoding
    );
    assert_eq!(r.exit_code, Some(0));
}

#[test]
fn t_syntax_error_classified() {
    let r = run_cmd("if then fi", 2, "", "bash: -c: line 1: syntax error near unexpected token `then'\n");
    assert_eq!(r.error_class.as_deref(), Some("SYNTAX"));
    assert_ne!(r.exit_code, Some(0));
}

#[test]
fn t_explicit_shell_override() {
    let spec = ExecSpec { command: "echo $0".into(), shell: Some(Shell::Sh), ..Default::default() };
    let r = run_spec(&spec, 0, b"sh\n", b"");
    assert_eq!(r.exit_code, Some(0));
    assert_eq!(r.shell_used, "sh");
    assert!(r.stdout.trim().ends_with("sh"), "got: {}", r.stdout);
}

#[test]
fn t_env_override_applied() {
    let spec = ExecSpec {
        command: "echo \"$UNIRUN_TEST_VAR\"".into(),
        env: vec![("UNIRUN_TEST_VAR".into(), "hello-unirun".into())],
        ..Default::default()
    };
    let l = launch(&spec, true);
    assert_eq!(l.env, vec![("UNIRUN_TEST_VAR".to_string(), "hello-unirun".to_string())]);
    let r = run_spec(&spec, 0, b"hello-unirun\n", b"");
    assert_eq!(r.stdout.trim(), "hello-unirun");
}

#[test]
fn t_missing_shell_binary_reports_gracefully() {
    let spec = ExecSpec {
        command: "echo hi".into(),
        shell: Some(Shell::Zsh),
        timeout_ms: 5_000,
        ..Default::default()
    };
    let l = launch(&spec, true);
    assert_eq!(l.argv[0], "zsh");
    let r = spawn_failure(&l.shell, "No such file or directory (os error 2)", 4);
    assert_eq!(r.error_class.as_deref(), Some("COMMAND_NOT_FOUND"));
    assert_eq!(r.exit_code, None);
    assert_eq!(r.stderr, "unirun: spawn failed: No such file or directory (os error 2)");
    assert_eq!(r.hint.as_deref(), Some("could not spawn `zsh`: No such file or directory (os error 2)"));
    assert_eq!(r.duration_ms, 4);
}

#[test]
fn toolchain_direct_argv_via_library() {
    let spec = ExecSpec {
        command: String::new(),
        kind: ExecKind::Script,
        workdir: Some("/tmp/p".into()),
        direct: Some(vec!["python3".into(), "/tmp/p/hello.py".into()]),
        ..Default::default()
    };
    let l = launch(&spec, false);
    assert_eq!(l.argv, vec!["python3", "/tmp/p/hello.py"]);
    assert_eq!(l.workdir.as_deref(), Some("/tmp/p"));
    let r = run_spec(&spec, 0, b"toolchain-ok\n", b"");
    assert_eq!(r.exit_code, Some(0), "stderr: {}", r.stderr);
    assert_eq!(r.stdout.trim(), "toolchain-ok");
    assert_eq!(r.shell_used, "python3");
}

#[test]
fn argv_of_every_shell() {
    let argv = |s: Shell| launch(&ExecSpec { command: "a > 'b'".into(), shell: Some(s), ..Default::default() }, true).argv;
    assert_eq!(argv(Shell::Bash), vec!["bash", "-c", "a > 'b'"]);
    assert_eq!(argv(Shell::Sh), vec!["sh", "-c", "a > 'b'"]);
    assert_eq!(argv(Shell::Zsh), vec!["zsh", "-c", "a > 'b'"]);
    assert_eq!(argv(Shell::Pwsh), vec!["pwsh", "-NoProfile", "-Command", "a > 'b'"]);
    assert_eq!(argv(Shell::Powershell), vec!["powershell", "-NoProfile", "-Command", "a > 'b'"]);
    assert_eq!(argv(Shell::Cmd), vec!["cmd", "/C", "a > 'b'"]);
    let plain = ExecSpec { command: "x".into(), ..Default::default() };
    assert_eq!(launch(&plain, true).shell, "bash");
    assert_eq!(launch(&plain, false).shell, "sh");
}

#[test]
fn limits_have_defaults() {
    let l = launch(&ExecSpec::default(), true);
    assert_eq!((l.timeout_ms, l.grace_ms, l.max_output), (120_000, 2_000, 256 * 1024));
    let spec = ExecSpec { timeout_ms: 1, grace_ms: 2, max_output_bytes: 3, ..Default::default() };
    let l = launch(&spec, true);
    assert_eq!((l.timeout_ms, l.grace_ms, l.max_output), (1, 2, 3));
}

#[test]
fn abort_comes_before_the_deadline() {
    let step = next_step(Poll::Running, true, 9_999, 10, 5);
    assert_eq!(step, Step::Terminate(Ending { exit_code: None, signal: None, timed_out: false, aborted: true }));
    let mut s = Supervisor::new(10, 10, 5, true);
    let look = Look { poll: Poll::Running, abort: true, elapsed_ms: 99 };
    assert_eq!(s.observe(&look), Act::EndAndReap);
    assert!(s.ending().unwrap().aborted);
    let mut s = Supervisor::new(10, 10, 5, false);
    assert_eq!(s.observe(&Look { poll: Poll::Lost, abort: false, elapsed_ms: 0 }), Act::Reap);
    assert_eq!(s.ending().unwrap().exit_code, None);
    assert!(matches!(s.phase, Phase::Ended(_)));
}

#[test]
fn signals_are_reported() {
    let ending = Ending { exit_code: None, signal: Some(9), timed_out: false, aborted: false };
    let maps = TextMap::new();
    let r = finish_run("bash", ending, &Captured::nothing(), &Captured::nothing(), 0, &maps);
    assert_eq!(r.signal, Some(9));
    assert_eq!(r.exit_code, None);
    assert_eq!(r.error_class, None);
}

#[test]
fn a_finished_run_is_classified_by_its_stderr_alone() {
    let mut maps = TextMap::new();
    maps.insert("Boom: *".to_string(), unirun::recipe::ErrorMapEntry { class: "BOOM".into(), hint: Some("duck".into()) });
    let run = |code: i32, stderr: &str| {
        let ending = Ending { exit_code: Some(code), signal: None, timed_out: false, aborted: false };
        let err = Captured { bytes: stderr.as_bytes().to_vec(), truncated: false };
        finish_run("bash", ending, &Captured::nothing(), &err, 3, &maps)
    };
    let r = run(1, "x\nBOOM:\n  y");
    assert_eq!((r.error_class.as_deref(), r.hint.as_deref()), (Some("BOOM"), Some("duck")));
    assert_eq!(run(1, "permission denied").error_class.as_deref(), Some("PERMISSION"));
    for blank in ["", " \n", "\u{3000}\u{2003}"] {
        let r = run(42, blank);
        assert_eq!((r.error_class, r.hint), (None, None));
        assert_eq!((r.exit_code, r.stderr.as_str()), (Some(42), blank));
    }
}

#[test]
fn tail_is_kept_across_pieces() {
    let mut b = TailBuffer::new(4);
    b.push(b"ab");
    b.push(b"");
    b.push(b"cdefg");
    let c = b.finish();
    assert_eq!(c.bytes, b"defg");
    assert!(c.truncated);
    let mut b = TailBuffer::new(4);
    b.push(b"abcd");
    let c = b.finish();
    assert_eq!(c.bytes, b"abcd");
    assert!(!c.truncated);
    let mut b = TailBuffer::new(0);
    b.push(b"x");
    let c = b.finish();
    assert!(c.bytes.is_empty() && c.truncated);
}

#[test]
fn streamed_characters_stay_whole() {
    let text = "a中文😀é!";
    for size in 1..=text.len() {
        let mut d = StreamDecoder::new();
        let mut out = String::new();
        for chunk in text.as_bytes().chunks(size) {
            out.push_str(&d.push(chunk));
        }
        out.push_str(&d.finish());
        assert_eq!(out, text, "pieces of {}", size);
    }
    let mut d = StreamDecoder::new();
    assert_eq!(d.push(&[b'x', 0xE4, 0xB8]), "x");
    assert_eq!(d.finish(), "\u{FFFD}");
}

#[test]
fn taskkill_ends_the_tree() {
    assert_eq!(taskkill_args(1234), vec!["/PID", "1234", "/T", "/F"]);
}

#[test]
fn t_i_pipes_and_metachars() {
    let cmd = "printf 'x\\n' | tr 'x' 'y'; echo end";
    let spec = ExecSpec { command: cmd.into(), ..Default::default() };
    assert_eq!(launch(&spec, true).argv, vec!["bash", "-c", cmd]);
    let r = run_cmd(cmd, 0, "y\nend\n", "");
    assert_eq!(r.exit_code, Some(0));
    assert_eq!(r.stdout, "y\nend\n");
}

#[test]
fn t_f_quoted_metachars_safe() {
    let cmd = "echo 'a > b' && echo done";
    let spec = ExecSpec { command: cmd.into(), ..Default::default() };
    assert_eq!(launch(&spec, false).argv, vec!["sh", "-c", cmd]);
    let r = run_cmd(cmd, 0, "a > b\ndone\n", "");
    assert_eq!(r.exit_code, Some(0));
    assert!(r.stdout.contains("a > b"));
    assert!(r.stdout.contains("done"));
}

#[test]
fn t_j_implicit_rc_is_last_command() {
    let ok = run_cmd("echo hi", 0, "hi\n", "");
    assert_eq!(ok.exit_code, Some(0));
    let fail = run_cmd("false", 1, "", "");
    assert_eq!(fail.exit_code, Some(1));
    let after_fail = run_cmd("false; echo survived", 0, "survived\n", "");
    assert_eq!(after_fail.exit_code, Some(0));
    assert!(after_fail.stdout.contains("survived"));
}

#[test]
fn t_permission_denied_classified() {
    let r = run_cmd("/tmp/noperm.sh", 126, "", "bash: line 1: /tmp/noperm.sh: Permission denied\n");
    assert_eq!(r.exit_code, Some(126), "stderr: {}", r.stderr);
    assert_eq!(r.error_class.as_deref(), Some("PERMISSION"));
}

#[test]
fn a_stop_is_carried_through() {
    let running = |ms| Look { poll: Poll::Running, abort: false, elapsed_ms: ms };
    let mut s = Supervisor::new(100, 50, POLL_MS, false);
    assert_eq!(s.observe(&running(99)), Act::Sleep(POLL_MS));
    assert_eq!(s.observe(&running(100)), Act::AskToEnd);
    assert_eq!(s.ending(), None);
    let ended = Look { poll: Poll::Exited { code: Some(0), signal: None }, abort: false, elapsed_ms: 120 };
    assert_eq!(s.observe(&ended), Act::Reap);
    let end = s.ending().unwrap();
    assert!(end.timed_out && !end.aborted);
    assert_eq!(end.exit_code, None);
    assert_eq!(s.observe(&running(500)), Act::Nothing);
    assert_eq!(s.ending(), Some(end));
}

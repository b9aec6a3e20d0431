use unirun::exec::{Captured, Ending, Phase};
use unirun::payload::base64_utf16le;
use unirun::spec::Shell;
use unirun::transport::{
    filter_banner, finish_ssh, keep_lines, nonce, scp_argv, split_lines, ssh_argv, ssh_run,
    ssh_spawn_failure, supervise_ssh, upload_failure, SshTarget, B64_THRESHOLD, EXIT_CONTRACT,
    GOLDEN_PREFIX,
};

fn target() -> SshTarget {
    SshTarget {
        host: "h.example".into(),
        shell: Shell::Bash,
        timeout_ms: 0,
        connect_timeout: 15,
        user: None,
        port: None,
        identity_file: None,
    }
}

fn exited(code: i32) -> Ending {
    Ending { exit_code: Some(code), signal: None, timed_out: false, aborted: false }
}

fn captured(bytes: &[u8]) -> Captured {
    Captured { bytes: bytes.to_vec(), truncated: false }
}

#[test]
fn argv_defaults_include_batch_and_accept_new() {
    let a = ssh_argv(&target(), "bash -s");
    assert!(a.contains(&"-o".to_string()));
    assert!(a.contains(&"BatchMode=yes".to_string()));
    assert!(a.contains(&"StrictHostKeyChecking=accept-new".to_string()));
    assert!(a.contains(&"ControlMaster=no".to_string()));
    assert!(a.contains(&"ControlPath=none".to_string()));
    assert!(a.contains(&"ConnectTimeout=15".to_string()));
    assert!(a.contains(&"h.example".to_string()));
    assert!(a.contains(&"bash -s".to_string()));
}

#[test]
fn argv_user_port_identity() {
    let mut t = target();
    t.user = Some("root".into());
    t.port = Some(2222);
    t.identity_file = Some("/tmp/key".into());
    let a = ssh_argv(&t, "bash -s");
    assert!(a.contains(&"root@h.example".to_string()));
    let p = a.iter().position(|v| v == "-p").unwrap();
    assert_eq!(a[p + 1], "2222");
    let i = a.iter().position(|v| v == "-i").unwrap();
    assert_eq!(a[i + 1], "/tmp/key");
    assert!(
        !a.contains(&"h.example".to_string()),
        "bare host must not appear when user set"
    );
}

#[test]
fn argv_empty_user_falls_back_to_bare_host() {
    let mut t = target();
    t.user = Some(String::new());
    let a = ssh_argv(&t, "bash -s");
    assert!(a.contains(&"h.example".to_string()));
    assert!(!a.contains(&"@h.example".to_string()));
}

#[test]
fn unix_shells_dispatch_to_unix_path() {
    for s in [Shell::Bash, Shell::Sh, Shell::Zsh] {
        let mut t = target();
        t.shell = s;
        t.host = "127.0.0.1".into();
        t.connect_timeout = 1;
        let plan = ssh_run(&t, "echo hi", "0");
        assert_eq!(plan.stdin.as_deref(), Some("echo hi"));
        assert_eq!(plan.remote_cmd, format!("{} -s", s.as_str()));
        assert!(plan.upload.is_none() && plan.cleanup.is_none());
        let refused = b"ssh: connect to host 127.0.0.1 port 22: Connection refused\r\n";
        let r = finish_ssh(&t, exited(255), &captured(b""), &captured(refused), 3);
        assert_ne!(
            r.error_class.as_deref(),
            Some("COMMAND_NOT_FOUND"),
            "shell {} must not be rejected",
            s.as_str()
        );
        assert!(
            !r.hint
                .as_deref()
                .unwrap_or("")
                .contains("not a Windows remote shell"),
            "hint must not mention Windows for unix shell {}",
            s.as_str()
        );
    }
}

#[test]
fn scp_arguments() {
    let mut t = target();
    t.user = Some("me".into());
    t.port = Some(22);
    let a = scp_argv(&t, "/tmp/x.up", r"C:\Windows\Temp\unirun-1.ps1");
    let p = a.iter().position(|v| v == "-P").unwrap();
    assert_eq!(a[p + 1], "22");
    assert_eq!(a[a.len() - 2], "/tmp/x.up");
    assert_eq!(a[a.len() - 1], r"me@h.example:C:\Windows\Temp\unirun-1.ps1");
}

#[test]
fn powershell_payload_goes_on_the_command_line() {
    let mut t = target();
    t.shell = Shell::Powershell;
    let plan = ssh_run(&t, "Write-Output '远程OK'\nexit 42\n\n", "n");
    let payload = format!("{}Write-Output '远程OK'\nexit 42{}", GOLDEN_PREFIX, EXIT_CONTRACT);
    let expected = format!(
        "powershell.exe -NoProfile -NonInteractive -EncodedCommand {}",
        base64_utf16le(&payload)
    );
    assert_eq!(plan.remote_cmd, expected);
    assert!(plan.upload.is_none());
    assert!(plan.stdin.is_none());
}

#[test]
fn base64_agrees_with_known_values() {
    assert_eq!(base64_utf16le(""), "");
    assert_eq!(base64_utf16le("a"), "YQA=");
    assert_eq!(base64_utf16le("ab"), "YQBiAA==");
    assert_eq!(base64_utf16le("abc"), "YQBiAGMA");
    assert_eq!(base64_utf16le("中"), "LU4=");
}

#[test]
fn large_payload_is_uploaded() {
    let mut t = target();
    t.shell = Shell::Pwsh;
    let script = "x".repeat(40_000);
    let plan = ssh_run(&t, &script, "ab12");
    let up = plan.upload.unwrap();
    assert_eq!(up.remote_path, r"C:\Windows\Temp\unirun-ab12.ps1");
    assert_eq!(&up.bytes[..3], &[0xEF, 0xBB, 0xBF]);
    let text = String::from_utf8(up.bytes[3..].to_vec()).unwrap();
    assert_eq!(text, format!("{}{}{}", GOLDEN_PREFIX, script, EXIT_CONTRACT));
    assert_eq!(
        plan.remote_cmd,
        r"pwsh.exe -NoProfile -NonInteractive -ExecutionPolicy Bypass -File C:\Windows\Temp\unirun-ab12.ps1"
    );
    assert_eq!(plan.cleanup.as_deref(), Some(r"del /q C:\Windows\Temp\unirun-ab12.ps1"));
}

#[test]
fn payload_threshold_is_exact() {
    let mut t = target();
    t.shell = Shell::Pwsh;
    let frame = GOLDEN_PREFIX.len() + EXIT_CONTRACT.len();
    let fits = 22_500 - frame;
    let at = ssh_run(&t, &"y".repeat(fits), "n");
    assert!(at.upload.is_none());
    let encoded = at.remote_cmd.rsplit(' ').next().unwrap();
    assert_eq!(encoded.len(), B64_THRESHOLD);
    assert!(ssh_run(&t, &"y".repeat(fits + 1), "n").upload.is_some());
}

#[test]
fn cmd_scripts_are_batch_files() {
    let mut t = target();
    t.shell = Shell::Cmd;
    let plan = ssh_run(&t, "echo hello\r\nexit /b 3", "9");
    let up = plan.upload.unwrap();
    assert_eq!(up.bytes, b"echo hello\r\nexit /b 3");
    assert_eq!(plan.remote_cmd, "cmd.exe /C \"C:\\Windows\\Temp\\unirun-9.bat\"");
    assert_eq!(plan.cleanup.as_deref(), Some("del /q C:\\Windows\\Temp\\unirun-9.bat"));
}

#[test]
fn banner_is_filtered() {
    let stderr = b"** WARNING: connection is not using a Post-Quantum key exchange\r\nreal error\r\nsee https://openssh.com/pq.html\nStore Now, attack\n\ntail";
    assert_eq!(filter_banner(stderr), b"real error\n\ntail\n");
    assert_eq!(filter_banner(b""), b"");
    assert_eq!(split_lines("a\r\nb\n\nc\r"), vec!["a", "b", "", "c\r"]);
    for s in ["", "\n", "a", "a\n", "a\r\n\r\nb", "\r", "x\n\n"] {
        let expected: Vec<&str> = s.lines().collect();
        assert_eq!(split_lines(s), expected, "{:?}", s);
    }
    let kept = keep_lines(&vec!["A".into(), "B".into()], &vec!["decrypt".into(), "b".into()]);
    assert_eq!(kept, "B\n");
}

#[test]
fn remote_result_is_normalized() {
    let mut t = target();
    t.shell = Shell::Powershell;
    let out = Captured { bytes: b"\xEF\xBB\xBFone\r\ntwo\r\n".to_vec(), truncated: true };
    let r = finish_ssh(&t, exited(7), &out, &captured(b""), 12);
    assert_eq!(r.exit_code, Some(7));
    assert_eq!(r.stdout, "one\ntwo\n");
    assert_eq!(r.encoding, "utf-8");
    assert!(r.truncated);
    assert_eq!(r.duration_ms, 12);
    assert_eq!(r.shell_used, "powershell");
    assert_eq!(r.error_class, None);
}

#[test]
fn failures_of_the_transport() {
    let r = ssh_spawn_failure("not found");
    assert_eq!(r.stderr, "ssh spawn failed: not found");
    assert_eq!(r.error_class.as_deref(), Some("COMMAND_NOT_FOUND"));
    assert_eq!(r.shell_used, "ssh");
    let mut t = target();
    t.shell = Shell::Cmd;
    let r = upload_failure(&ssh_run(&t, "x", "1"), "scp exited non-zero");
    assert_eq!(r.stderr, "upload failed: scp exited non-zero");
    assert_eq!(r.hint.as_deref(), Some("scp to the remote host failed; check host/credentials"));
    assert_eq!(r.shell_used, "cmd");
}

#[test]
fn remote_limits_and_defaults() {
    let s = supervise_ssh(&target(), false);
    assert_eq!(s.timeout_ms, 120_000);
    assert_eq!(s.grace_ms, 2_000);
    assert_eq!(s.poll_ms, 10);
    assert_eq!(s.phase, Phase::Watching);
    let d = SshTarget::default();
    assert_eq!(d.host, "win-los");
    assert_eq!(d.shell, Shell::Powershell);
    assert_eq!(d.timeout_ms, 120_000);
    assert_eq!(d.connect_timeout, 15);
    assert!(d.user.is_none() && d.port.is_none() && d.identity_file.is_none());
}

#[test]
fn nonces_are_hexadecimal() {
    assert_eq!(nonce(255, 16), "ff10");
    assert_eq!(nonce(0, 999_999_999), "03b9ac9ff");
}

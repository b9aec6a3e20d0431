use unirun::spec::{ExecKind, ExecResult, ExecSpec, Shell};

#[test]
fn shells_have_names() {
    for s in [Shell::Bash, Shell::Sh, Shell::Zsh, Shell::Cmd, Shell::Powershell, Shell::Pwsh] {
        assert_eq!(Shell::from_name(s.as_str()), Some(s));
        assert_eq!(Shell::from_name(&s.as_str().to_uppercase()), Some(s));
    }
    assert_eq!(Shell::from_name("cmd.exe"), Some(Shell::Cmd));
    assert_eq!(Shell::from_name("PowerShell.exe"), Some(Shell::Powershell));
    assert_eq!(Shell::from_name("pwsh.exe"), Some(Shell::Pwsh));
    assert_eq!(Shell::from_name("fish"), None);
}

#[test]
fn shells_follow_from_extensions() {
    assert_eq!(Shell::from_path("dir/build.SH", false), Some(Shell::Bash));
    assert_eq!(Shell::from_path("x.zsh", false), Some(Shell::Zsh));
    assert_eq!(Shell::from_path("x.ps1", false), Some(Shell::Pwsh));
    assert_eq!(Shell::from_path("x.bat", false), Some(Shell::Cmd));
    assert_eq!(Shell::from_path("x.cmd", false), Some(Shell::Cmd));
    assert_eq!(Shell::from_path("x.py", false), None);
    assert_eq!(Shell::from_path("sh", false), None);
    assert_eq!(Shell::from_path(".sh", false), None);
    assert_eq!(Shell::from_path(r"C:\a.d\run.bat", true), Some(Shell::Cmd));
}

#[test]
fn defaults() {
    let s = ExecSpec::default();
    assert_eq!(s.command, "");
    assert_eq!(s.kind, ExecKind::Run);
    assert_eq!(s.effective_timeout_ms(), 120_000);
    assert_eq!(s.effective_grace_ms(), 2_000);
    assert_eq!(s.effective_max_output(), 262_144);
    assert!(s.error_maps.is_empty());
    let r = ExecResult::success("o".into(), "e".into(), "sh");
    assert_eq!(r.exit_code, Some(0));
    assert_eq!((r.stdout.as_str(), r.stderr.as_str()), ("o", "e"));
    assert_eq!(r.encoding, "utf-8");
    assert_eq!(r.shell_used, "sh");
    assert!(!r.truncated && !r.timed_out && !r.aborted);
}

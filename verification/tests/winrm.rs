use unirun::winrm::{
    finish_pipeline, join_lines, ps_error_text, ps_value_text, take_exit_code, winrm_failure,
    winrm_script, RemoteError, RemoteValue, WinrmAuth, WinrmStage, WinrmTarget,
};

#[test]
fn auth_parsing() {
    assert_eq!(WinrmAuth::from_name("basic"), Some(WinrmAuth::Basic));
    assert_eq!(WinrmAuth::from_name("NTLM"), Some(WinrmAuth::Ntlm));
    assert_eq!(WinrmAuth::from_name("kerberos"), Some(WinrmAuth::Kerberos));
    assert_eq!(WinrmAuth::from_name("bogus"), None);
}

#[test]
fn value_text_renders_strings_and_scalars() {
    assert_eq!(ps_value_text(&RemoteValue::Text("中文".into())), "中文");
    assert_eq!(ps_value_text(&RemoteValue::Signed(42)), "42");
    assert_eq!(ps_value_text(&RemoteValue::Bool(true)), "true");
}

#[test]
fn join_lines_appends_newline() {
    assert_eq!(join_lines(vec![]), "");
    assert_eq!(join_lines(vec!["a".into(), "b".into()]), "a\nb\n");
}

#[test]
fn other_values_and_errors() {
    assert_eq!(ps_value_text(&RemoteValue::Null), "");
    assert_eq!(ps_value_text(&RemoteValue::Bool(false)), "false");
    assert_eq!(ps_value_text(&RemoteValue::Unsigned(u64::MAX)), u64::MAX.to_string());
    assert_eq!(ps_value_text(&RemoteValue::Signed(-7)), "-7");
    assert_eq!(ps_value_text(&RemoteValue::Rendered("1.5".into())), "1.5");
    let record = |m: Option<&str>, i: Option<&str>| RemoteError::Record {
        message: m.map(String::from),
        id: i.map(String::from),
        rendered: "R".into(),
    };
    assert_eq!(ps_error_text(&record(Some("msg"), Some("id"))), "msg");
    assert_eq!(ps_error_text(&record(None, Some("id"))), "id");
    assert_eq!(ps_error_text(&record(None, None)), "R");
    assert_eq!(ps_error_text(&RemoteError::Value(RemoteValue::Signed(3))), "3");
}

#[test]
fn script_reports_its_exit_code() {
    assert_eq!(
        winrm_script("Get-Process\n\n"),
        "Get-Process\nWrite-Output '__UNIRUN_EXIT__'$LASTEXITCODE"
    );
}

#[test]
fn exit_code_is_taken_off_the_output() {
    let mut lines = vec!["a".to_string(), "__UNIRUN_EXIT__ 42 ".to_string()];
    assert_eq!(take_exit_code(&mut lines), Some(42));
    assert_eq!(lines, vec!["a"]);
    let mut lines = vec!["__UNIRUN_EXIT__".to_string()];
    assert_eq!(take_exit_code(&mut lines), None);
    assert!(lines.is_empty());
    let mut lines = vec!["__UNIRUN_EXIT__1".to_string(), "later".to_string()];
    assert_eq!(take_exit_code(&mut lines), None);
    assert_eq!(lines.len(), 2);
}

#[test]
fn pipeline_result() {
    let out = vec![RemoteValue::Text("远程OK".into()), RemoteValue::Text("__UNIRUN_EXIT__-1".into())];
    let r = finish_pipeline(&out, &vec![], false, 8);
    assert_eq!(r.exit_code, Some(-1));
    assert_eq!(r.stdout, "远程OK\n");
    assert_eq!(r.shell_used, "winrm-powershell");
    assert_eq!(r.duration_ms, 8);
    let errors = vec![RemoteError::Value(RemoteValue::Text(
        "nope : The term 'nope' is not recognized as the name of a cmdlet".into(),
    ))];
    let r = finish_pipeline(&vec![], &errors, true, 0);
    assert_eq!(r.exit_code, Some(1));
    assert_eq!(r.error_class.as_deref(), Some("COMMAND_NOT_FOUND"));
    assert_eq!(r.shell_used, "powershell");
    assert_eq!(finish_pipeline(&vec![], &vec![], true, 0).exit_code, Some(0));
}

#[test]
fn failure_names_the_target() {
    let mut t = WinrmTarget::default();
    t.host = "srv".into();
    let r = winrm_failure(WinrmStage::Client, "bad config", &t, 5);
    assert_eq!(r.stderr, "winrm client init failed: bad config");
    assert_eq!(r.exit_code, None);
    assert!(r.hint.unwrap().starts_with("WinRM connection to srv:5985 failed"));
    let r = winrm_failure(WinrmStage::Pipeline, "timeout", &t, 5);
    assert_eq!(r.stderr, "winrm/psrp error: timeout");
}

#[test]
fn operation_timeout_is_whole_seconds() {
    let mut t = WinrmTarget::default();
    assert_eq!(t.operation_timeout_secs(), 120);
    t.timeout_ms = 999;
    assert_eq!(t.operation_timeout_secs(), 1);
    t.timeout_ms = 2_999;
    assert_eq!(t.operation_timeout_secs(), 2);
}

#[test]
fn winrm_unicode_and_exact_exit_code() {
    let out = vec![RemoteValue::Text("远程OK".into()), RemoteValue::Text("__UNIRUN_EXIT__42".into())];
    let r = finish_pipeline(&out, &vec![], false, 5);
    assert_eq!(r.exit_code, Some(42), "stderr: {}", r.stderr);
    assert!(r.stdout.contains("远程OK"), "stdout: {}", r.stdout);
    assert!(!r.stdout.contains("CLIXML"), "CLIXML pollution: {}", r.stdout);
}

#[test]
fn winrm_native_failure_classified() {
    let e = RemoteError::Record {
        message: Some("The term 'definitely_not_a_real_cmdlet_winrm' is not recognized as the name of a cmdlet, function, script file, or operable program.".into()),
        id: Some("CommandNotFoundException".into()),
        rendered: String::new(),
    };
    let r = finish_pipeline(&vec![RemoteValue::Text("__UNIRUN_EXIT__".into())], &vec![e], false, 5);
    assert_eq!(r.exit_code, Some(1), "stderr: {}", r.stderr);
    assert_eq!(r.error_class.as_deref(), Some("COMMAND_NOT_FOUND"), "stderr: {}", r.stderr);
}

use unirun::cli::{
    bg_request, build_spec, exit_code, parse_flags, parse_winrm_flags, recipe_request, run_request,
    script_request, select, ssh_request, state_exit_code, terminal_text, through_toolchain,
    timeout_fits, toolchain_argv, truncate_label, winrm_request, BgRequest, CliOpts, Command,
    RecipeRequest,
};
use unirun::recipe::{Conventions, Recipe, Timeouts, Toolchain};
use unirun::session::initial_state;
use unirun::spec::{ExecKind, ExecResult, Shell};
use unirun::winrm::WinrmAuth;

fn texts(v: &[&str]) -> Vec<String> {
    v.iter().map(|s| s.to_string()).collect()
}

fn parsed(v: &[&str]) -> (CliOpts, Vec<String>) {
    let mut o = CliOpts::default();
    match parse_flags(&texts(v), &mut o) {
        Ok(p) => (o, p),
        Err(e) => panic!("{}", e),
    }
}

fn flag_error(v: &[&str]) -> String {
    match parse_flags(&texts(v), &mut CliOpts::default()) {
        Ok(_) => panic!("accepted"),
        Err(e) => e,
    }
}

#[test]
fn subcommands() {
    assert!(matches!(select(&texts(&["run", "x"])), Command::Run));
    assert!(matches!(select(&texts(&["script"])), Command::Script));
    assert!(matches!(select(&texts(&["probe"])), Command::Probe));
    assert!(matches!(select(&texts(&["ssh"])), Command::Ssh));
    assert!(matches!(select(&texts(&["winrm"])), Command::Winrm));
    assert!(matches!(select(&texts(&["recipe"])), Command::Recipe));
    assert!(matches!(select(&texts(&["bg"])), Command::Bg));
    assert!(matches!(select(&texts(&["mcp"])), Command::Mcp));
    assert!(matches!(select(&texts(&["acp"])), Command::Acp));
    assert!(matches!(select(&texts(&["__bg-runner", "/d"])), Command::Runner(Some(d)) if d == "/d"));
    assert!(matches!(select(&texts(&["__bg-runner"])), Command::Runner(None)));
    assert!(matches!(select(&texts(&["run", "--help"])), Command::Help));
    assert!(matches!(select(&texts(&["-V", "run"])), Command::Version));
    assert!(matches!(select(&texts(&["-V", "-h"])), Command::Help));
    assert!(matches!(select(&vec![]), Command::Nothing));
    assert!(matches!(select(&texts(&["zap"])), Command::Unknown(s) if s == "zap"));
}

#[test]
fn flags_with_values() {
    let (o, p) = parsed(&[
        "echo", "--timeout", "30", "--shell", "ZSH", "hi", "--workdir", "/w", "--env", "A=1=2", "--env", "B=",
        "--toolchain", "python", "--user", "me", "--port", "2222", "--identity-file", "/k", "--label", "L", "--tail",
        "10", "--json", "--other",
    ]);
    assert_eq!(p, vec!["echo", "hi", "--other"]);
    assert_eq!(o.timeout_sec, Some(30));
    assert_eq!(o.shell, Some(Shell::Zsh));
    assert_eq!(o.workdir.as_deref(), Some("/w"));
    assert_eq!(o.env, vec![("A".to_string(), "1=2".to_string()), ("B".to_string(), String::new())]);
    assert_eq!(o.toolchain.as_deref(), Some("python"));
    assert_eq!(o.user.as_deref(), Some("me"));
    assert_eq!(o.port, Some(2222));
    assert_eq!(o.identity.as_deref(), Some("/k"));
    assert_eq!(o.label.as_deref(), Some("L"));
    assert_eq!(o.tail_bytes, Some(10));
    assert!(o.json && !o.pretty);
    let (o, _) = parsed(&["--pretty"]);
    assert!(o.json && o.pretty);
    let (o, p) = parsed(&["--workdir", "--json"]);
    assert_eq!(o.workdir.as_deref(), Some("--json"));
    assert!(!o.json && p.is_empty());
}

#[test]
fn flags_that_are_wrong() {
    assert_eq!(flag_error(&["--timeout"]), "--timeout needs a value");
    assert_eq!(flag_error(&["--timeout", "x"]), "invalid --timeout (integer seconds)");
    assert_eq!(flag_error(&["--timeout", "-1"]), "invalid --timeout (integer seconds)");
    assert_eq!(flag_error(&["--shell"]), "--shell needs a value");
    assert_eq!(flag_error(&["--shell", "fish"]), "unknown shell `fish`");
    assert_eq!(flag_error(&["--workdir"]), "--workdir needs a value");
    assert_eq!(flag_error(&["--env"]), "--env needs K=V");
    assert_eq!(flag_error(&["--env", "A"]), "--env must be K=V");
    assert_eq!(flag_error(&["--toolchain"]), "--toolchain needs a value");
    assert_eq!(flag_error(&["--user"]), "--user needs a value");
    assert_eq!(flag_error(&["--port"]), "--port needs a value");
    assert_eq!(flag_error(&["--port", "65536"]), "invalid --port (integer)");
    assert_eq!(flag_error(&["--identity"]), "--identity needs a path");
    assert_eq!(flag_error(&["--label"]), "--label needs a value");
    assert_eq!(flag_error(&["--tail"]), "--tail needs a value");
    assert_eq!(flag_error(&["--tail", "1k"]), "invalid --tail (byte count)");
}

fn project() -> Recipe {
    let mut r = Recipe::default();
    r.timeouts = Some(Timeouts { default_ms: Some(30_000), build_ms: None });
    r.conventions = Some(Conventions { line_ending: None, encoding: None, max_output_bytes: Some(128) });
    r.toolchains.insert(
        "python".into(),
        Toolchain { runner: Some("uv".into()), fallbacks: texts(&["python3"]), args: texts(&["run"]) },
    );
    r
}

#[test]
fn cli_recipe_max_output_applied() {
    let (o, p) = parsed(&["seq 1 20000", "--workdir", "/p", "--json"]);
    let spec = run_request(&o, &p, &Some(project())).unwrap_or_else(|e| panic!("{}", e));
    assert_eq!(spec.max_output_bytes, 128);
    assert_eq!(spec.timeout_ms, 30_000);
    assert_eq!(spec.command, "seq 1 20000");
}

#[test]
fn flags_come_before_the_recipe() {
    let (o, p) = parsed(&["a", "b", "--timeout", "7"]);
    let spec = run_request(&o, &p, &Some(project())).unwrap_or_else(|e| panic!("{}", e));
    assert_eq!(spec.timeout_ms, 7_000);
    assert_eq!(spec.command, "a b");
    let spec = build_spec("x".into(), ExecKind::Run, &o, &None);
    assert_eq!(spec.max_output_bytes, 0);
    match run_request(&CliOpts::default(), &vec![], &None) {
        Err(e) => assert_eq!(e, "unirun run: missing command"),
        Ok(_) => panic!("accepted"),
    }
    assert!(timeout_fits(Some(u64::MAX / 1000)));
    assert!(!timeout_fits(Some(u64::MAX / 1000 + 1)));
}

#[test]
fn cli_toolchain_runner_executes_script() {
    let argv = toolchain_argv(&project(), "python", "main.py", &texts(&["uv", "python3"])).unwrap();
    assert_eq!(argv, vec!["uv", "run", "main.py"]);
    let spec = script_request(&CliOpts::default(), "main.py", "print(1)".into(), false, &None);
    assert_eq!(spec.kind, ExecKind::Script);
    assert_eq!(spec.shell, None);
    let spec = through_toolchain(spec, argv);
    assert_eq!(spec.command, "");
    assert_eq!(spec.direct.as_ref().unwrap()[0], "uv");
}

#[test]
fn cli_toolchain_missing_runner_fails_cleanly() {
    let e = toolchain_argv(&project(), "nope", "x.py", &texts(&["uv"])).unwrap_err();
    assert_eq!(e, "toolchain `nope` not resolvable on this host");
    let e = toolchain_argv(&project(), "python", "x.py", &vec![]).unwrap_err();
    assert!(e.contains("not resolvable"));
}

#[test]
fn scripts_take_their_shell_from_the_extension() {
    let o = CliOpts::default();
    assert_eq!(script_request(&o, "a.ps1", "x".into(), false, &None).shell, Some(Shell::Pwsh));
    let (o, _) = parsed(&["--shell", "sh"]);
    assert_eq!(script_request(&o, "a.ps1", "x".into(), false, &None).shell, Some(Shell::Sh));
}

#[test]
fn ssh_arguments_make_a_target() {
    let (o, p) = parsed(&["host", "echo", "hi", "--user", "u", "--port", "22", "--timeout", "9", "--shell", "bash"]);
    let (t, script) = ssh_request(&o, &p).unwrap_or_else(|e| panic!("{}", e));
    assert_eq!(t.host, "host");
    assert_eq!(script, "echo hi");
    assert_eq!(t.shell, Shell::Bash);
    assert_eq!(t.timeout_ms, 9_000);
    assert_eq!(t.user.as_deref(), Some("u"));
    assert_eq!(t.port, Some(22));
    let (o, p) = parsed(&["host", "x"]);
    let (t, _) = ssh_request(&o, &p).unwrap_or_else(|e| panic!("{}", e));
    assert_eq!(t.shell, Shell::Powershell);
    assert_eq!(t.timeout_ms, 120_000);
    let (o, p) = parsed(&["host"]);
    assert!(ssh_request(&o, &p).err().unwrap().starts_with("unirun ssh: usage:"));
    for flags in [["--workdir", "/x"], ["--env", "A=1"]] {
        let (o, p) = parsed(&["host", "x", flags[0], flags[1]]);
        assert!(ssh_request(&o, &p).err().unwrap().contains("not supported for remote execution"));
    }
}

#[test]
fn winrm_arguments_make_a_target() {
    let args = texts(&["srv", "Get-Process", "--user", "admin", "--password", "x", "--domain", "D", "--auth", "Basic", "--timeout", "5"]);
    let (o, p) = parse_winrm_flags(&args).unwrap_or_else(|e| panic!("{}", e));
    let (t, script) = winrm_request(&o, &p).unwrap();
    assert_eq!((t.host.as_str(), script.as_str()), ("srv", "Get-Process"));
    assert_eq!((t.username.as_str(), t.password.as_str(), t.domain.as_str()), ("admin", "x", "D"));
    assert_eq!(t.auth, WinrmAuth::Basic);
    assert_eq!(t.timeout_ms, 5_000);
    assert_eq!(t.port, 5985);
    let (o, p) = parse_winrm_flags(&texts(&["h", "s", "--tls", "--insecure", "--pretty"])).unwrap_or_else(|e| panic!("{}", e));
    assert!(o.json && o.pretty);
    let (t, _) = winrm_request(&o, &p).unwrap();
    assert_eq!(t.port, 5986);
    assert!(t.use_tls && t.accept_invalid_certs);
    let (o, p) = parse_winrm_flags(&texts(&["h", "s", "--tls", "--port", "443"])).unwrap_or_else(|e| panic!("{}", e));
    assert_eq!(winrm_request(&o, &p).unwrap().0.port, 443);
    let (o, p) = parse_winrm_flags(&texts(&["h"])).unwrap_or_else(|e| panic!("{}", e));
    assert!(winrm_request(&o, &p).is_none());
}

#[test]
fn winrm_flags_that_are_wrong() {
    let cases = [
        (vec!["--user"], "--user needs a value"),
        (vec!["--password"], "--password needs a value"),
        (vec!["--domain"], "--domain needs a value"),
        (vec!["--port", "x"], "--port needs an integer"),
        (vec!["--port"], "--port needs an integer"),
        (vec!["--auth", "digest"], "--auth must be basic | ntlm | kerberos"),
        (vec!["--timeout", "1.5"], "--timeout needs integer seconds"),
    ];
    for (args, expected) in cases {
        match parse_winrm_flags(&texts(&args)) {
            Err(e) => assert_eq!(e, expected),
            Ok(_) => panic!("accepted"),
        }
    }
}

#[test]
fn cli_bg_missing_id_usage_error() {
    for sub in ["status", "output", "kill", "wait"] {
        match bg_request(sub, &CliOpts::default(), &vec![]) {
            BgRequest::Usage(m) => assert_eq!(m, format!("unirun bg {}: missing session id", sub)),
            _ => panic!("accepted"),
        }
    }
    assert!(matches!(bg_request("start", &CliOpts::default(), &vec![]), BgRequest::Usage(m) if m == "unirun bg start: missing command"));
    assert!(matches!(bg_request("zap", &CliOpts::default(), &vec![]), BgRequest::Unknown));
}

#[test]
fn background_requests() {
    let (o, p) = parsed(&["pnpm", "build", "--label", "web", "--env", "A=1", "--timeout", "3"]);
    match bg_request("start", &o, &p) {
        BgRequest::Start { spec, label } => {
            assert_eq!(spec.command, "pnpm build");
            assert_eq!(label, "web");
            assert_eq!(spec.timeout_ms, 3_000);
            assert_eq!(spec.env.len(), 1);
        }
        _ => panic!("not started"),
    }
    let (o, p) = parsed(&["ab", "--tail", "5", "--timeout", "2"]);
    assert!(matches!(bg_request("status", &o, &p), BgRequest::Status(id) if id == "ab"));
    assert!(matches!(bg_request("output", &o, &p), BgRequest::Output { tail: 5, .. }));
    assert!(matches!(bg_request("kill", &o, &p), BgRequest::Kill(_)));
    assert!(matches!(bg_request("wait", &o, &p), BgRequest::Wait { timeout_ms: 2_000, .. }));
    assert!(matches!(bg_request("list", &o, &p), BgRequest::List));
    let (o, p) = parsed(&["ab"]);
    assert!(matches!(bg_request("output", &o, &p), BgRequest::Output { tail: 65_536, .. }));
    assert!(matches!(bg_request("wait", &o, &p), BgRequest::Wait { timeout_ms: 120_000, .. }));
}

#[test]
fn labels_are_cut() {
    assert_eq!(truncate_label("  a \n b "), "a b");
    let long = "词".repeat(61);
    let label = truncate_label(&long);
    assert_eq!(label.chars().count(), 61);
    assert!(label.ends_with('…'));
    assert_eq!(truncate_label(&"y".repeat(60)), "y".repeat(60));
}

#[test]
fn recipe_requests() {
    let req = |v: &[&str]| recipe_request(&texts(v));
    assert!(matches!(req(&[]), RecipeRequest::Nothing));
    assert!(matches!(req(&["list"]), RecipeRequest::List));
    assert!(matches!(req(&["show", "--raw", "py"]), RecipeRequest::Show { name, raw: true } if name == "py"));
    assert!(matches!(req(&["show", "py"]), RecipeRequest::Show { raw: false, .. }));
    assert!(matches!(req(&["show", "--raw"]), RecipeRequest::Usage(m) if m == "unirun recipe show: missing recipe name"));
    assert!(matches!(req(&["add", "n", "f.toml"]), RecipeRequest::Add { name, file } if name == "n" && file == "f.toml"));
    assert!(matches!(req(&["add", "n"]), RecipeRequest::Usage(_)));
    assert!(matches!(req(&["rm", "n"]), RecipeRequest::Remove(n) if n == "n"));
    assert!(matches!(req(&["remove"]), RecipeRequest::Usage(m) if m == "unirun recipe rm: missing recipe name"));
    assert!(matches!(req(&["path"]), RecipeRequest::Path));
    assert!(matches!(req(&["check"]), RecipeRequest::Check));
    assert!(matches!(
        req(&["effective", "--json", "--workdir", "/d"]),
        RecipeRequest::Effective { json: true, workdir: Some(d) } if d == "/d"
    ));
    assert!(matches!(req(&["effective", "--workdir"]), RecipeRequest::Effective { json: false, workdir: None }));
    assert!(matches!(req(&["zap"]), RecipeRequest::Unknown(s) if s == "zap"));
}

#[test]
fn exit_codes() {
    let mut r = ExecResult::success(String::new(), String::new(), "sh");
    for (rc, code) in [(0, 0), (42, 42), (255, 255), (256, 255), (-1, 255), (-2147483648, 0), (-1073741510, 58)] {
        r.exit_code = Some(rc);
        assert_eq!(exit_code(&r, false), code, "{}", rc);
        assert_eq!(exit_code(&r, false), rc.min(255) as u8);
        assert_eq!(exit_code(&r, true), 0);
    }
    r.exit_code = None;
    assert_eq!(exit_code(&r, false), 1);
    r.aborted = true;
    assert_eq!(exit_code(&r, false), 130);
    r.timed_out = true;
    assert_eq!(exit_code(&r, false), 124);
}

#[test]
fn session_exit_codes() {
    let mut st = initial_state("i", "l", 1);
    for (status, code) in [("running", 1), ("completed", 7), ("timed_out", 124), ("aborted", 130), ("killed", 130),
        ("failed", 1), ("interrupted", 1)] {
        st.status = status.into();
        st.exit_code = Some(7);
        assert_eq!(state_exit_code(&st, false), code, "{}", status);
        assert_eq!(state_exit_code(&st, true), 0);
    }
    st.status = "completed".into();
    st.exit_code = None;
    assert_eq!(state_exit_code(&st, false), 1);
}

#[test]
fn terminal_output_ends_with_a_line_feed() {
    assert_eq!(terminal_text(""), "");
    assert_eq!(terminal_text("x"), "x\n");
    assert_eq!(terminal_text("x\n"), "x\n");
}

#[test]
fn flags_in_a_row() {
    let mut o = CliOpts::default();
    let first = parse_flags(&texts(&["a", "--timeout", "1", "--env", "A=1", "--json"]), &mut o).unwrap();
    let then = parse_flags(&texts(&["b", "--timeout", "2", "--env", "B=2", "c"]), &mut o).unwrap();
    let (whole, p) = parsed(&["a", "--timeout", "1", "--env", "A=1", "--json", "b", "--timeout", "2", "--env", "B=2", "c"]);
    assert_eq!([first, then].concat(), p);
    assert_eq!(p, vec!["a", "b", "c"]);
    assert_eq!((o.timeout_sec, o.json), (Some(2), true));
    assert_eq!((whole.timeout_sec, whole.json), (Some(2), true));
    assert_eq!(o.env, whole.env);
    assert_eq!(o.env.len(), 2);
    assert!(parse_flags(&texts(&["--timeout", "3", "--port", "x", "--json"]), &mut o).is_err());
    assert_eq!(o.timeout_sec, Some(3));
}

use unirun::recipe::ErrorMapEntry;
use unirun::spec::ExecResult;
use unirun::taxonomy::{classify, classify_evidence, classify_with};
use unirun::textmap::TextMap;

fn base() -> ExecResult {
    ExecResult::success(String::new(), String::new(), "bash")
}

#[test]
fn success_is_none() {
    assert_eq!(classify(&base()), (None, None));
}

#[test]
fn timeout_class() {
    let mut r = base();
    r.timed_out = true;
    let (class, _) = classify(&r);
    assert_eq!(class.as_deref(), Some("TIMEOUT"));
}

#[test]
fn exit_127_command_not_found() {
    let mut r = base();
    r.exit_code = Some(127);
    let (class, hint) = classify(&r);
    assert_eq!(class.as_deref(), Some("COMMAND_NOT_FOUND"));
    assert!(hint.unwrap().contains("probe"));
}

#[test]
fn exit_126_permission() {
    let mut r = base();
    r.exit_code = Some(126);
    r.stderr = "bash: ./x.sh: Permission denied".into();
    let (class, _) = classify(&r);
    assert_eq!(class.as_deref(), Some("PERMISSION"));
}

#[test]
fn stderr_pattern_dependency() {
    let mut r = base();
    r.exit_code = Some(1);
    r.stderr = "ModuleNotFoundError: No module named 'requests'".into();
    let (class, hint) = classify(&r);
    assert_eq!(class.as_deref(), Some("DEPENDENCY_MISSING"));
    assert!(hint.unwrap().contains("uv sync"));
}

#[test]
fn explicit_nonzero_exit_is_unclassified() {
    let mut r = base();
    r.exit_code = Some(42);
    assert_eq!(classify(&r), (None, None));
}

#[test]
fn unknown_failure_only_with_stderr_evidence() {
    let mut r = base();
    r.exit_code = Some(3);
    r.stderr = "something odd happened\n".into();
    let (class, _) = classify(&r);
    assert_eq!(class.as_deref(), Some("UNKNOWN_FAILURE"));
}

#[test]
fn abort_has_its_own_class_behind_the_deadline() {
    let mut r = base();
    r.aborted = true;
    r.stderr = "permission denied".into();
    assert_eq!(classify(&r).0.as_deref(), Some("ABORTED"));
    r.timed_out = true;
    assert_eq!(classify(&r).0.as_deref(), Some("TIMEOUT"));
}

#[test]
fn exit_126_hint_depends_on_stderr() {
    let mut r = base();
    r.exit_code = Some(126);
    let plain = classify(&r).1.unwrap();
    r.stderr = "PERMISSION DENIED".into();
    let denied = classify(&r).1.unwrap();
    assert!(plain.contains("wrong format"));
    assert!(denied.contains("execute permission"));
}

#[test]
fn classes_of_the_library_and_the_rest() {
    let cases = [
        ("x: Permission denied", "PERMISSION"),
        ("cat: nope: No such file or directory", "NOT_FOUND"),
        ("bash: -c: line 1: syntax error near unexpected token `fi'", "SYNTAX"),
        ("Connection\n refused", "NETWORK"),
        ("Error: module   not found: x", "DEPENDENCY_MISSING"),
        ("error: could not compile `x`", "COMPILE_ERROR"),
    ];
    for (stderr, expected) in cases {
        let mut r = base();
        r.exit_code = Some(1);
        r.stderr = stderr.into();
        assert_eq!(classify(&r).0.as_deref(), Some(expected), "{}", stderr);
    }
}

#[test]
fn blank_stderr_is_no_evidence() {
    let mut r = base();
    r.exit_code = Some(9);
    r.stderr = " \n\t".into();
    assert_eq!(classify(&r), (None, None));
    r.stderr = "\u{3000}\u{2003} \u{a0}".into();
    assert_eq!(classify(&r), (None, None));
    let mut maps = TextMap::new();
    for key in ["*", "  ", "\u{3000}", "ÄÖ*"] {
        maps.insert(key.to_string(), ErrorMapEntry { class: "PROJECT".into(), hint: None });
    }
    assert_eq!(classify_with(&r, &maps), (None, None));
    r.exit_code = Some(0);
    r.stderr = "just a warning".into();
    assert_eq!(classify(&r), (None, None));
}

#[test]
fn project_patterns_come_before_the_library() {
    let mut maps = TextMap::new();
    maps.insert(
        "permission denied*".to_string(),
        ErrorMapEntry { class: "PROJECT".into(), hint: Some("ask".into()) },
    );
    let mut r = base();
    r.exit_code = Some(1);
    r.stderr = "Permission Denied: x".into();
    assert_eq!(classify_with(&r, &maps), (Some("PROJECT".into()), Some("ask".into())));
    r.exit_code = Some(127);
    assert_eq!(classify_with(&r, &maps).0.as_deref(), Some("COMMAND_NOT_FOUND"));
    r.exit_code = Some(5);
    assert_eq!(
        classify_evidence(&r, "", "", Some(("C".into(), "H".into()))),
        (Some("C".into()), Some("H".into()))
    );
}

#[test]
fn success_is_none_whatever_stderr_holds() {
    let mut maps = TextMap::new();
    maps.insert("warn*".to_string(), ErrorMapEntry { class: "W".into(), hint: None });
    for stderr in ["permission denied", "x: command not found", "module not found", "warning", "odd"] {
        let mut r = base();
        r.stderr = stderr.into();
        assert_eq!(classify(&r), (None, None), "{}", stderr);
        assert_eq!(classify_with(&r, &maps), (None, None), "{}", stderr);
    }
}

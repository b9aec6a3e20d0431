use unirun::error_maps::{builtin, first_found, flatten, match_builtin, match_recipe};
use unirun::recipe::ErrorMapEntry;
use unirun::textmap::TextMap;

#[test]
fn flatten_collapses_wrapped_console_lines() {
    let wrapped = "The term 'nope' is not recognized as the name of a\ncmdlet, function...";
    let flat = flatten(wrapped);
    assert!(flat.contains("is not recognized as the name of a cmdlet"));
    assert!(!flat.contains('\n'));
}

#[test]
fn builtin_matches_common_ecosystems() {
    let cases: &[(&str, &str)] = &[
        ("ModuleNotFoundError: No module named 'requests'", "DEPENDENCY_MISSING"),
        ("ERROR: No matching distribution found for foo", "DEPENDENCY_MISSING"),
        ("Error: Cannot find module 'lodash'", "DEPENDENCY_MISSING"),
        ("error[E0432]: unresolved import `serde`", "DEPENDENCY_MISSING"),
        ("error[E0308]: mismatched types", "COMPILE_ERROR"),
        ("no required module provides package github.com/x/y", "DEPENDENCY_MISSING"),
        ("fatal: unable to access 'https://github.com/x/y.git/'", "NETWORK"),
        ("curl: (6) Could not resolve host: example.com", "NETWORK"),
        ("bash: foo: command not found", "COMMAND_NOT_FOUND"),
        ("fatal: not a git repository (or any of the parent directories)", "NOT_FOUND"),
        ("denied: requested access to the resource is denied", "PERMISSION"),
    ];
    for (stderr, expected) in cases {
        let (class, hint) = match_builtin(&flatten(stderr)).expect(stderr);
        assert_eq!(class, *expected, "stderr: {}", stderr);
        assert!(!hint.is_empty());
    }
}

#[test]
fn builtin_is_conservative_on_unknown_text() {
    let flat = flatten("some novel error nobody has seen before");
    assert!(match_builtin(&flat).is_none());
}

#[test]
fn recipe_patterns_win_over_builtin() {
    let mut maps = TextMap::new();
    maps.insert(
        "ModuleNotFoundError: *".to_string(),
        ErrorMapEntry {
            class: "DEPENDENCY_MISSING".into(),
            hint: Some("run `uv sync` first".into()),
        },
    );
    let flat = flatten("ModuleNotFoundError: No module named 'x'");
    let (class, hint) = match_recipe(&flat, &maps).unwrap();
    assert_eq!(class, "DEPENDENCY_MISSING");
    assert_eq!(hint, "run `uv sync` first");
}

#[test]
fn recipe_wildcards_are_substrings() {
    let mut maps = TextMap::new();
    maps.insert(
        "*npm ERR!*".to_string(),
        ErrorMapEntry {
            class: "DEPENDENCY_MISSING".into(),
            hint: None,
        },
    );
    let flat = flatten("npm ERR! code ENOENT");
    assert!(match_recipe(&flat, &maps).is_some());
}

#[test]
fn every_builtin_pattern_matches_itself_or_an_earlier_one() {
    let table = builtin();
    assert_eq!(table.len(), 39);
    for p in &table {
        assert_eq!(flatten(p.pattern), p.pattern);
        let first = table.iter().find(|q| p.pattern.contains(q.pattern)).unwrap();
        assert_eq!(match_builtin(p.pattern), Some((first.class, first.hint)));
    }
}

#[test]
fn wrapping_never_changes_the_flat_text() {
    assert_eq!(flatten("Permission\r\n   denied"), "permission denied");
    assert_eq!(flatten("Permission denied"), flatten(" permission\tDENIED\n"));
    assert_eq!(flatten("ÜBER\u{3000}x"), "über x");
}

#[test]
fn first_pattern_in_key_order_wins_and_empty_ones_never_match() {
    let mut maps = TextMap::new();
    for (k, c) in [("zeta", "Z"), ("***", "STARS"), ("  ", "BLANK"), ("* Beta *", "B"), ("beta g", "BG")] {
        maps.insert(k.to_string(), ErrorMapEntry { class: c.into(), hint: None });
    }
    assert_eq!(match_recipe("alpha beta gamma zeta", &maps), Some(("B".to_string(), String::new())));
    assert_eq!(match_recipe("only zeta", &maps), Some(("Z".to_string(), String::new())));
    assert_eq!(match_recipe("nothing here", &maps), None);
    assert_eq!(first_found("a b c", &vec!["".into(), "c".into(), "a".into()]), Some(1));
    assert_eq!(first_found("a b c", &vec!["".into()]), None);
}

#[test]
fn flattening_twice_is_flattening_once() {
    for t in ["", "  A \t b\r\n\r\nC ", "already flat", "\u{3000}Wide\u{2003}X", "ÄÖ  Ü"] {
        let flat = flatten(t);
        assert_eq!(flatten(&flat), flat, "{:?}", t);
    }
    assert_eq!(flatten("  A \t b\r\n\r\nC "), "a b c");
    assert_eq!(flatten("\u{3000}Wide\u{2003}X"), "wide x");
    assert_eq!(flatten("\u{3000}\u{2003}"), "");
}

use unirun::number::{format_hex, format_i64, format_u64, parse_i32, parse_unsigned};
use unirun::path::{ancestor_paths, file_extension, is_inside, join_path, last_component, parent_path};
use unirun::text::{
    ascii_lowercase, contains, is_whitespace, join_texts, same_text, split_words, starts_with,
    trimmed, trimmed_end,
};
use unirun::textmap::{precedes, TextMap};

#[test]
fn white_space_is_that_of_unicode() {
    for c in '\0'..=char::MAX {
        assert_eq!(is_whitespace(c), c.is_whitespace(), "{:?}", c);
    }
}

#[test]
fn words_and_trimming_agree_with_the_standard_library() {
    let samples = ["", "   ", " a  b\t\nc ", "one", "\u{3000}全角\u{2003}x", "tail \r\n"];
    for s in samples {
        let expected: Vec<&str> = s.split_whitespace().collect();
        assert_eq!(split_words(s), expected);
        assert_eq!(trimmed(s), s.trim());
        assert_eq!(trimmed_end(s), s.trim_end());
    }
}

#[test]
fn searching_agrees_with_the_standard_library() {
    let samples = [("abcabd", "abd"), ("", ""), ("x", ""), ("", "x"), ("中文输出", "文输"), ("aaa", "aaaa")];
    for (h, n) in samples {
        assert_eq!(contains(h, n), h.contains(n));
        assert_eq!(starts_with(h, n), h.starts_with(n));
        assert_eq!(same_text(h, n), h == n);
    }
    assert_eq!(ascii_lowercase("ÄBC-Zz"), "Äbc-zz");
    assert_eq!(join_texts(&vec!["a".into(), "".into(), "b".into()], ", "), "a, , b");
}

#[test]
fn decimal_text() {
    for n in [0u64, 7, 10, 99, 100, 1_000_000, u64::MAX] {
        assert_eq!(format_u64(n), n.to_string());
        assert_eq!(parse_unsigned(&n.to_string(), u64::MAX), Some(n));
        assert_eq!(format_hex(n), format!("{:x}", n));
    }
    for n in [0i64, -1, 42, -1000, i64::MAX, i64::MIN] {
        assert_eq!(format_i64(n), n.to_string());
    }
}

#[test]
fn numbers_are_read_as_the_standard_library_does() {
    for s in ["", "+", "-", "5", "+5", "-5", "007", "65535", "65536", "1e3", " 1", "18446744073709551615",
        "18446744073709551616", "99999999999999999999999"] {
        assert_eq!(parse_unsigned(s, u64::MAX), s.parse::<u64>().ok(), "{:?}", s);
        assert_eq!(parse_unsigned(s, 65_535), s.parse::<u16>().ok().map(|n| n as u64), "{:?}", s);
    }
    for s in ["", "+", "-", "0", "-0", "+7", "-7", "2147483647", "2147483648", "-2147483648", "-2147483649", "--1"] {
        assert_eq!(parse_i32(s), s.parse::<i32>().ok(), "{:?}", s);
    }
}

#[test]
fn paths_agree_with_the_standard_library() {
    let samples = ["", "/", "//", ".", "..", "a", "a/", "a/b.sh", "/a/b/", "./a", "a/.", "a/..", "/a/./b", "x.tar.gz",
        ".hidden", "dir.d/file", "a//b", "trailing."];
    for s in samples {
        let p = std::path::Path::new(s);
        assert_eq!(last_component(s, false).as_deref(), p.file_name().map(|n| n.to_str().unwrap()), "{:?}", s);
        assert_eq!(file_extension(s, false).as_deref(), p.extension().map(|n| n.to_str().unwrap()), "{:?}", s);
        assert_eq!(parent_path(s, false).as_deref(), p.parent().map(|n| n.to_str().unwrap()), "{:?}", s);
        let up: Vec<&str> = p.ancestors().map(|a| a.to_str().unwrap()).collect();
        assert_eq!(ancestor_paths(s, false), up, "{:?}", s);
    }
    for (base, name) in [("", "x"), ("/", "x"), ("a", "b/c"), ("a/", "b"), ("a", "/b"), ("a", "")] {
        let joined = std::path::Path::new(base).join(name);
        assert_eq!(join_path(base, name, false), joined.to_str().unwrap());
    }
    for (p, d) in [("/a/b/c", "/a/b"), ("/ab", "/a"), ("a/b", "/a"), ("/a/./b", "/a//b"), ("/a", "/a/b")] {
        assert_eq!(is_inside(p, d, false), std::path::Path::new(p).starts_with(d), "{} {}", p, d);
    }
}

#[test]
fn windows_paths() {
    assert_eq!(join_path(r"C:\Users\x", "y", true), r"C:\Users\x\y");
    assert_eq!(join_path("C:", "y", true), "C:y");
    assert_eq!(join_path(r"C:\a", r"D:\b", true), r"D:\b");
    assert_eq!(parent_path(r"C:\a", true).as_deref(), Some(r"C:\"));
    assert_eq!(parent_path(r"C:\", true), None);
    assert_eq!(last_component(r"C:\a\b.ps1", true).as_deref(), Some("b.ps1"));
}

#[test]
fn windows_prefixes_are_no_names() {
    assert_eq!(last_component("C:", true), None);
    assert_eq!(last_component("C:a", true).as_deref(), Some("a"));
    assert_eq!(file_extension("C:a.ps1", true).as_deref(), Some("ps1"));
    assert_eq!(parent_path("C:a", true).as_deref(), Some("C:"));
    assert_eq!(parent_path("C:", true), None);
    assert_eq!(ancestor_paths(r"C:.\a", true), vec![r"C:.\a", "C:."]);
    assert_eq!(last_component(r"\\server\share", true), None);
    assert_eq!(parent_path(r"\\server\share\", true), None);
    assert_eq!(
        ancestor_paths(r"\\server\share\a\b", true),
        vec![r"\\server\share\a\b", r"\\server\share\a", r"\\server\share\"]
    );
    assert_eq!(last_component(r"\\.\COM42", true), None);
    assert_eq!(last_component(r"\\.\pipe\x", true).as_deref(), Some("x"));
    assert_eq!(last_component(r"\\?\C:\a", true).as_deref(), Some("a"));
    assert_eq!(last_component(r"\\?\C:\a/b", true).as_deref(), Some("a/b"));
    assert_eq!(parent_path(r"\\?\C:\a", true).as_deref(), Some(r"\\?\C:\"));
    assert_eq!(parent_path(r"\\?\UNC\server\share\a", true).as_deref(), Some(r"\\?\UNC\server\share\"));
    assert_eq!(last_component(r"\\?\pictures\kittens", true).as_deref(), Some("kittens"));
    assert_eq!(last_component(r"\\?\pictures", true), None);
    assert_eq!(last_component(r"\\server", true).as_deref(), Some("server"));
}

#[test]
fn windows_directories_hold_by_component() {
    assert!(is_inside(r"c:\a\b", r"C:\a", true));
    assert!(is_inside(r"C:/a/./b", r"c:\a", true));
    assert!(!is_inside(r"C:\a", r"C:a", true));
    assert!(!is_inside(r"C:\a", r"D:\", true));
    assert!(!is_inside(r"C:\a", r"\a", true));
    assert!(!is_inside(r"C:\A\b", r"C:\a", true));
    assert!(is_inside(r"//server/share/x", r"\\server\share", true));
    assert!(!is_inside(r"\\server\share\x", r"\\server", true));
    assert!(is_inside(r"\\?\c:\x", r"\\?\C:", true));
    assert!(!is_inside(r"\\?\C:\x", r"C:\", true));
    assert!(is_inside(r"\\?\UNC/server\share\x", r"\\?\UNC\server\share", true));
    assert!(is_inside(r"C:.\a", "C:a", true));
}

#[test]
fn windows_joins() {
    assert_eq!(join_path(r"C:\a", r"\b", true), r"C:\b");
    assert_eq!(join_path(r"C:\a", "D:b", true), "D:b");
    assert_eq!(join_path(r"C:\a", "C:b", true), "C:b");
    assert_eq!(join_path(r"\\server\share\a", r"\b", true), r"\\server\share\b");
    assert_eq!(join_path(r"\\server\share", "b", true), r"\\server\share\b");
    assert_eq!(join_path(r"C:\a", r"\\server\share", true), r"\\server\share");
    assert_eq!(join_path("a", r"\b", true), r"\b");
    assert_eq!(join_path("a/", "b", true), "a/b");
    assert_eq!(join_path(r"\\?\C:\a\b", r"..\.\c/d", true), r"\\?\C:\a\c\d");
    assert_eq!(join_path(r"\\?\C:\a", r"\d", true), r"\\?\C:\d");
    assert_eq!(join_path(r"\\?\C:\a", "", true), r"\\?\C:\a\");
    assert_eq!(join_path(r"\\?\C:\", r"..\..", true), r"\\?\C:\");
    assert_eq!(join_path(r"\\?\pics", "x", true), r"\\?\pics\x");
}

#[test]
fn text_map_keeps_its_keys_in_order() {
    let mut m: TextMap<u32> = TextMap::new();
    assert!(m.is_empty());
    for (i, k) in ["m", "a", "z", "b", "a"].iter().enumerate() {
        m.insert(k.to_string(), i as u32);
    }
    let keys: Vec<&str> = (0..m.len()).map(|i| m.key_at(i)).collect();
    assert_eq!(keys, vec!["a", "b", "m", "z"]);
    assert_eq!(m.get("a"), Some(&4));
    assert_eq!(m.get("c"), None);
    assert_eq!(*m.value_at(3), 2);
    for (a, b) in [("a", "b"), ("a", "ab"), ("b", "a"), ("中", "文"), ("", "x")] {
        assert_eq!(precedes(a, b), a < b);
    }
}

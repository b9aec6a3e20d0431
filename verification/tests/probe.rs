use unirun::probe::{
    executable_candidates, is_gnu_coreutils, is_wsl_bash_shim, names_gnu, platform_name, probe,
    which, which_candidates,
};

fn texts(v: &[&str]) -> Vec<String> {
    v.iter().map(|s| s.to_string()).collect()
}

#[test]
fn probe_shape() {
    let dirs = texts(&["/usr/bin", "/bin"]);
    let files = texts(&["/bin/sh", "/usr/bin/bash", "/usr/bin/git", "/usr/bin/timeout"]);
    let version = Some(b"timeout (GNU coreutils) 9.1\n".to_vec());
    let caps = probe("linux", "x86_64", &dirs, "/w", &files, false, "", &version);
    assert!(caps.platform == "macos" || caps.platform == "linux" || caps.platform == "windows");
    assert!(!caps.shells.is_empty());
    let has_native = caps
        .shells
        .iter()
        .any(|s| (s.name == "bash" || s.name == "sh") && s.path.is_some());
    assert!(has_native, "no native shell found: {:?}", caps.shells);
    let names: Vec<&str> = caps.shells.iter().map(|s| s.name.as_str()).collect();
    assert_eq!(names, vec!["bash", "sh", "zsh", "pwsh", "powershell", "cmd"]);
    let tools: Vec<&str> = caps.tools.iter().map(|t| t.name.as_str()).collect();
    assert_eq!(tools, vec!["python3", "node", "git", "curl", "uname", "sed", "awk", "find", "rsync", "tar"]);
    assert_eq!(caps.tools[2].path.as_deref(), Some("/usr/bin/git"));
    assert_eq!(caps.tools[0].path, None);
    assert_eq!(caps.coreutils.timeout.as_deref(), Some("/usr/bin/timeout"));
    assert!(caps.coreutils.gnu_timeout_available);
}

#[test]
fn which_finds_self_in_path() {
    let dirs = texts(&["/usr/local/bin", "/usr/bin", "/bin"]);
    let candidates = which_candidates("sh", &dirs, "/w", false);
    assert_eq!(candidates, vec!["/usr/local/bin/sh", "/usr/bin/sh", "/bin/sh"]);
    assert!(which("sh", &dirs, "/w", &texts(&["/bin/sh"]), false, "").is_some());
}

#[test]
fn wsl_bash_shim_is_excluded() {
    let sys = r"C:\Windows";
    let shim = r"C:\Windows\System32\bash.exe";
    assert!(is_wsl_bash_shim(shim, true, sys), "{:?}", shim);
    let git_bash = r"C:\Program Files\Git\bin\bash.exe";
    assert!(!is_wsl_bash_shim(git_bash, true, sys));
    assert!(!is_wsl_bash_shim(shim, false, sys));
    assert!(!is_wsl_bash_shim(r"C:\Windows\System32\cmd.exe", true, sys));
    assert!(!is_wsl_bash_shim(r"C:\Windows\System32x\bash.exe", true, sys));
}

#[test]
fn real_bash_is_found_behind_the_shim() {
    let dirs = texts(&[r"C:\Windows\System32", r"C:\Git\bin"]);
    let files = texts(&[r"C:\Windows\System32\bash.exe", r"C:\Git\bin\bash.exe"]);
    assert_eq!(which("bash", &dirs, r"C:\w", &files, true, r"C:\Windows").as_deref(), Some(r"C:\Git\bin\bash.exe"));
    assert_eq!(which("bash", &dirs, r"C:\w", &files[..1].to_vec(), true, r"C:\Windows"), None);
}

#[test]
fn names_with_separators_are_paths() {
    let dirs = texts(&["/bin"]);
    assert_eq!(which("./x", &dirs, "/w", &texts(&["/w/./x"]), false, "").as_deref(), Some("/w/./x"));
    assert_eq!(which("./x", &dirs, "/w", &texts(&["./x"]), false, ""), None);
    assert_eq!(which("./x", &dirs, "/w", &texts(&["/bin/./x"]), false, ""), None);
    assert_eq!(which("/a/x", &dirs, "/w", &texts(&["/a/x"]), false, "").as_deref(), Some("/a/x"));
    assert_eq!(which(r"a\b", &dirs, "/w", &texts(&[r"/w/a\b"]), false, "").as_deref(), Some(r"/w/a\b"));
    assert_eq!(which_candidates("a/b", &dirs, "/w", false), vec!["/w/a/b"]);
    assert_eq!(which(r"a\b", &dirs, r"C:\w", &texts(&[r"C:\w\a\b"]), true, "").as_deref(), Some(r"C:\w\a\b"));
    assert_eq!(which(r"\b", &dirs, r"C:\w", &texts(&[r"C:\b"]), true, "").as_deref(), Some(r"C:\b"));
}

#[test]
fn relative_directories_lie_in_the_working_directory() {
    let dirs = texts(&["tools", ""]);
    assert_eq!(which_candidates("x", &dirs, "/w", false), vec!["/w/tools/x", "/w/x"]);
    assert_eq!(which("x", &dirs, "/w", &texts(&["/w/x"]), false, "").as_deref(), Some("/w/x"));
}

#[test]
fn the_shim_is_known_under_any_case_of_the_drive() {
    let sys = r"c:\Windows";
    assert!(is_wsl_bash_shim(r"C:\Windows\System32\bash.exe", true, sys));
    assert!(is_wsl_bash_shim(r"c:/Windows/System32/BASH.EXE", true, r"C:\Windows"));
    assert!(!is_wsl_bash_shim(r"D:\Windows\System32\bash.exe", true, sys));
}

#[test]
fn executables_on_windows_have_extensions() {
    assert_eq!(executable_candidates("git", false), vec!["git"]);
    assert_eq!(executable_candidates("git", true), vec!["git", "git.exe", "git.cmd", "git.bat", "git.ps1"]);
    assert_eq!(executable_candidates("git.exe", true), vec!["git.exe"]);
}

#[test]
fn gnu_timeout() {
    assert!(names_gnu("timeout (GNU coreutils)"));
    assert!(names_gnu("uutils coreutils"));
    assert!(!names_gnu("BusyBox"));
    assert!(!is_gnu_coreutils(&None));
    assert!(is_gnu_coreutils(&Some(b"\xFFcoreutils".to_vec())));
    assert!(is_gnu_coreutils(&Some("timeout (GNU) é".as_bytes().to_vec())));
    assert!(!is_gnu_coreutils(&Some("gnu é".as_bytes().to_vec())));
    let caps = probe("macos", "arm64", &texts(&["/b"]), "/w", &texts(&["/b/timeout"]), false, "", &Some(b"BSD".to_vec()));
    assert!(!caps.coreutils.gnu_timeout_available);
    let caps = probe("macos", "arm64", &texts(&["/b"]), "/w", &texts(&["/b/gtimeout"]), false, "", &None);
    assert!(caps.coreutils.gnu_timeout_available);
    assert_eq!(platform_name("freebsd"), "freebsd");
}

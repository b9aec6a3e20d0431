//! Core data structures: execution spec in, normalized result out.

use vstd::prelude::*;

use crate::path::{
    extension, file_extension, is_rooted_plainly, is_single_name,
    joined, law_extension_is_behind_the_dot, law_joined_lies_inside,
};
use crate::recipe::{EntryView, ErrorMapEntry};
use crate::text::{ascii_lowercase, lower_ascii, opt_text, same_text};
use crate::textmap::{deep, TextMap};

verus! {

broadcast use vstd::seq::group_seq_axioms;

// ---------------------------------------------------------------------------
// Shells
// ---------------------------------------------------------------------------

/// Supported shells. A run defaults to the best POSIX shell found (`bash`,
/// then `sh`); a script takes the one its file extension suggests.
#[derive(Debug, Clone, Copy, PartialEq, Eq, Structural)]
pub enum Shell {
    Bash,
    Sh,
    Zsh,
    Cmd,
    Powershell,
    Pwsh,
}

/// The name of a shell.
pub open spec fn shell_name(s: Shell) -> Seq<char> {
    match s {
        Shell::Bash => "bash"@,
        Shell::Sh => "sh"@,
        Shell::Zsh => "zsh"@,
        Shell::Cmd => "cmd"@,
        Shell::Powershell => "powershell"@,
        Shell::Pwsh => "pwsh"@,
    }
}

/// The shell that a lower-case name stands for.
pub open spec fn shell_named(name: Seq<char>) -> Option<Shell> {
    if name == "bash"@ {
        Some(Shell::Bash)
    } else if name == "sh"@ {
        Some(Shell::Sh)
    } else if name == "zsh"@ {
        Some(Shell::Zsh)
    } else if name == "cmd"@ || name == "cmd.exe"@ {
        Some(Shell::Cmd)
    } else if name == "powershell"@ || name == "powershell.exe"@ {
        Some(Shell::Powershell)
    } else if name == "pwsh"@ || name == "pwsh.exe"@ {
        Some(Shell::Pwsh)
    } else {
        None
    }
}

/// The shell that a script's file extension stands for.
pub open spec fn shell_of_path(path: Seq<char>, windows: bool) -> Option<Shell> {
    match extension(path, windows) {
        Some(ext) => shell_for_extension(lower_ascii(ext)),
        None => None,
    }
}

/// The shell that runs scripts with a lower-case file extension.
pub open spec fn shell_for_extension(ext: Seq<char>) -> Option<Shell> {
    if ext == "sh"@ {
        Some(Shell::Bash)
    } else if ext == "zsh"@ {
        Some(Shell::Zsh)
    } else if ext == "ps1"@ {
        Some(Shell::Pwsh)
    } else if ext == "bat"@ || ext == "cmd"@ {
        Some(Shell::Cmd)
    } else {
        None
    }
}

impl Shell {
    /// The name of the shell.
    pub fn as_str(&self) -> (r: &'static str)
        ensures
            r@ == shell_name(*self),
    {
        match self {
            Shell::Bash => "bash",
            Shell::Sh => "sh",
            Shell::Zsh => "zsh",
            Shell::Cmd => "cmd",
            Shell::Powershell => "powershell",
            Shell::Pwsh => "pwsh",
        }
    }

    /// The shell that a name stands for, in either letter case.
    pub fn from_name(name: &str) -> (r: Option<Shell>)
        ensures
            r == shell_named(lower_ascii(name@)),
    {
        let lower = ascii_lowercase(name);
        let n = lower.as_str();
        if same_text(n, "bash") {
            Some(Shell::Bash)
        } else if same_text(n, "sh") {
            Some(Shell::Sh)
        } else if same_text(n, "zsh") {
            Some(Shell::Zsh)
        } else if same_text(n, "cmd") || same_text(n, "cmd.exe") {
            Some(Shell::Cmd)
        } else if same_text(n, "powershell") || same_text(n, "powershell.exe") {
            Some(Shell::Powershell)
        } else if same_text(n, "pwsh") || same_text(n, "pwsh.exe") {
            Some(Shell::Pwsh)
        } else {
            None
        }
    }

    /// Best-effort guess from a script's file extension.
    pub fn from_path(path: &str, windows: bool) -> (r: Option<Shell>)
        ensures
            r == match extension(path@, windows) {
                Some(ext) => shell_for_extension(lower_ascii(ext)),
                None => None,
            },
            r == shell_of_path(path@, windows),
    {
        match file_extension(path, windows) {
            None => None,
            Some(ext) => {
                let lower = ascii_lowercase(ext.as_str());
                let e = lower.as_str();
                if same_text(e, "sh") {
                    Some(Shell::Bash)
                } else if same_text(e, "zsh") {
                    Some(Shell::Zsh)
                } else if same_text(e, "ps1") {
                    Some(Shell::Pwsh)
                } else if same_text(e, "bat") || same_text(e, "cmd") {
                    Some(Shell::Cmd)
                } else {
                    None
                }
            },
        }
    }
}

/// A shell is found again under its own name.
pub proof fn law_shell_name_roundtrip(s: Shell)
    ensures
        shell_named(lower_ascii(shell_name(s))) == Some(s),
{
    reveal_strlit("bash");
    reveal_strlit("sh");
    reveal_strlit("zsh");
    reveal_strlit("cmd");
    reveal_strlit("cmd.exe");
    reveal_strlit("powershell");
    reveal_strlit("powershell.exe");
    reveal_strlit("pwsh");
    assert(lower_ascii(shell_name(s)) =~= shell_name(s));
    assert("bash"@[0] == 'b' && "sh"@[0] == 's' && "zsh"@[0] == 'z' && "cmd"@[0] == 'c');
    assert("powershell"@[0] == 'p' && "pwsh"@[0] == 'p' && "powershell.exe"@[0] == 'p');
    assert("cmd.exe"@[0] == 'c');
    assert("powershell"@.len() != "pwsh"@.len() && "powershell.exe"@.len() != "pwsh"@.len());
}

/// A name stands for a shell exactly if it is the shell's own, or, for a shell
/// of Windows, its own with `.exe` behind it.
pub proof fn law_shell_names(name: Seq<char>, s: Shell)
    ensures
        shell_named(name) == Some(s) <==> name == shell_name(s) || ((s == Shell::Cmd || s
            == Shell::Powershell || s == Shell::Pwsh) && name == shell_name(s) + ".exe"@),
{
    reveal_strlit("bash");
    reveal_strlit("sh");
    reveal_strlit("zsh");
    reveal_strlit("cmd");
    reveal_strlit("cmd.exe");
    reveal_strlit("powershell");
    reveal_strlit("powershell.exe");
    reveal_strlit("pwsh");
    reveal_strlit("pwsh.exe");
    reveal_strlit(".exe");
    assert("cmd"@ + ".exe"@ =~= "cmd.exe"@);
    assert("powershell"@ + ".exe"@ =~= "powershell.exe"@);
    assert("pwsh"@ + ".exe"@ =~= "pwsh.exe"@);
    assert("bash"@[0] == 'b' && "sh"@[0] == 's' && "zsh"@[0] == 'z' && "cmd"@[0] == 'c');
    assert("powershell"@[0] == 'p' && "pwsh"@[0] == 'p' && "powershell.exe"@[0] == 'p');
    assert("cmd.exe"@[0] == 'c' && "pwsh.exe"@[0] == 'p');
}

/// Each extension that scripts are known by leads to one shell, and no other
/// extension to any.
pub proof fn law_extensions_have_shells(ext: Seq<char>)
    ensures
        shell_for_extension(ext) == Some(Shell::Bash) <==> ext == "sh"@,
        shell_for_extension(ext) == Some(Shell::Zsh) <==> ext == "zsh"@,
        shell_for_extension(ext) == Some(Shell::Pwsh) <==> ext == "ps1"@,
        shell_for_extension(ext) == Some(Shell::Cmd) <==> ext == "bat"@ || ext == "cmd"@,
        shell_for_extension(ext) is None <==> ext != "sh"@ && ext != "zsh"@ && ext != "ps1"@ && ext
            != "bat"@ && ext != "cmd"@,
{
    reveal_strlit("sh");
    reveal_strlit("zsh");
    reveal_strlit("ps1");
    reveal_strlit("bat");
    reveal_strlit("cmd");
    assert("sh"@.len() == 2 && "zsh"@[0] == 'z' && "ps1"@[0] == 'p');
    assert("bat"@[0] == 'b' && "cmd"@[0] == 'c');
}

/// A script is run by the shell that the letters behind its last dot stand for, in
/// upper or lower case and in whatever directory it lies.
pub proof fn law_script_is_known_by_its_extension(
    dir: Seq<char>,
    stem: Seq<char>,
    ext: Seq<char>,
    windows: bool,
)
    requires
        is_rooted_plainly(dir, windows),
        stem.len() > 0,
        ext.len() > 0,
        is_single_name(stem + seq!['.'] + ext),
        forall|i: int| 0 <= i < ext.len() ==> #[trigger] ext[i] != '.',
    ensures
        ({
            let file = joined(dir, stem + seq!['.'] + ext, windows);
            let shell = shell_of_path(file, windows);
            &&& lower_ascii(ext) == "sh"@ ==> shell == Some(Shell::Bash)
            &&& lower_ascii(ext) == "zsh"@ ==> shell == Some(Shell::Zsh)
            &&& lower_ascii(ext) == "ps1"@ ==> shell == Some(Shell::Pwsh)
            &&& lower_ascii(ext) == "bat"@ || lower_ascii(ext) == "cmd"@ ==> shell == Some(
                Shell::Cmd,
            )
            &&& shell == shell_of_path(stem + seq!['.'] + ext, windows)
        }),
{
    let name = stem + seq!['.'] + ext;
    law_extension_is_behind_the_dot(stem, ext, windows);
    law_joined_lies_inside(dir, name, windows);
    law_extensions_have_shells(lower_ascii(ext));
}

// ---------------------------------------------------------------------------
// What to run
// ---------------------------------------------------------------------------

/// What kind of execution the caller wants.
#[derive(Debug, Clone, Copy, PartialEq, Eq, Structural)]
pub enum ExecKind {
    /// A single command line run through a shell (`bash -c …`).
    Run,
    /// A multi-line script, shell inferred from extension unless overridden.
    Script,
}

/// Deadline of a run that states none.
pub const DEFAULT_TIMEOUT_MS: u64 = 120_000;

/// Grace between the two termination signals of a run that states none.
pub const DEFAULT_GRACE_MS: u64 = 2_000;

/// Output cap of a run that states none.
pub const DEFAULT_MAX_OUTPUT_BYTES: usize = 262_144;

/// Everything needed to run one command or script.
pub struct ExecSpec {
    /// Command line or script body.
    pub command: String,
    pub kind: ExecKind,
    /// Explicit shell; `None` is auto-detected.
    pub shell: Option<Shell>,
    /// Working directory; `None` is that of the process.
    pub workdir: Option<String>,
    /// Environment overrides applied on top of the ambient environment.
    pub env: Vec<(String, String)>,
    /// Deadline in ms; `0` stands for `DEFAULT_TIMEOUT_MS`.
    pub timeout_ms: u64,
    /// Grace between the termination signals in ms; `0` stands for
    /// `DEFAULT_GRACE_MS`.
    pub grace_ms: u64,
    /// Output cap per stream in bytes; `0` stands for
    /// `DEFAULT_MAX_OUTPUT_BYTES`.
    pub max_output_bytes: usize,
    /// Exact argv to execute without a shell. Where it is set, `shell` and
    /// `command` are not looked at.
    pub direct: Option<Vec<String>>,
    /// Error patterns of the project, consulted before the built-in ones.
    pub error_maps: TextMap<ErrorMapEntry>,
}

/// The views of a list of pairs of texts.
pub open spec fn pair_texts(v: Seq<(String, String)>) -> Seq<(Seq<char>, Seq<char>)> {
    v.map_values(|e: (String, String)| (e.0@, e.1@))
}

/// A copy of a list of pairs of texts.
pub fn copy_pairs(v: &Vec<(String, String)>) -> (r: Vec<(String, String)>)
    ensures
        pair_texts(r@) == pair_texts(v@),
{
    let mut out: Vec<(String, String)> = Vec::new();
    let mut i: usize = 0;
    while i < v.len()
        invariant
            i <= v.len(),
            pair_texts(out@) == pair_texts(v@.take(i as int)),
        decreases v.len() - i,
    {
        out.push((v[i].0.clone(), v[i].1.clone()));
        proof {
            let e = v@[i as int];
            assert(pair_texts(v@.take(i + 1)) =~= pair_texts(v@.take(i as int)).push((e.0@, e.1@)));
        }
        i += 1;
    }
    proof {
        assert(v@.take(v@.len() as int) =~= v@);
    }
    out
}

/// The value that a field of `0` stands for.
pub open spec fn or_default(value: int, default: int) -> int {
    if value == 0 {
        default
    } else {
        value
    }
}

/// Only zero stands for the default; every other value stands for itself.
pub proof fn law_given_value_stands(value: int, default: int)
    ensures
        value != 0 ==> or_default(value, default) == value,
        or_default(0, default) == default,
{
}

impl Default for ExecSpec {
    fn default() -> (r: Self)
        ensures
            r.command@ == Seq::<char>::empty(),
            r.kind == ExecKind::Run,
            r.shell is None,
            r.workdir is None,
            r.env@.len() == 0,
            r.timeout_ms == 0,
            r.grace_ms == 0,
            r.max_output_bytes == 0,
            r.direct is None,
            deep(r.error_maps@) == Map::<Seq<char>, EntryView>::empty(),
    {
        let error_maps: TextMap<ErrorMapEntry> = TextMap::new();
        proof {
            assert(deep(error_maps@) =~= Map::<Seq<char>, EntryView>::empty());
        }
        ExecSpec {
            command: String::new(),
            kind: ExecKind::Run,
            shell: None,
            workdir: None,
            env: Vec::new(),
            timeout_ms: 0,
            grace_ms: 0,
            max_output_bytes: 0,
            direct: None,
            error_maps,
        }
    }
}

impl ExecSpec {
    /// The deadline in force.
    pub fn effective_timeout_ms(&self) -> (r: u64)
        ensures
            r == or_default(self.timeout_ms as int, DEFAULT_TIMEOUT_MS as int),
            self.timeout_ms > 0 ==> r == self.timeout_ms,
            self.timeout_ms == 0 ==> r == 120_000,
    {
        if self.timeout_ms == 0 {
            DEFAULT_TIMEOUT_MS
        } else {
            self.timeout_ms
        }
    }

    /// The grace in force.
    pub fn effective_grace_ms(&self) -> (r: u64)
        ensures
            r == or_default(self.grace_ms as int, DEFAULT_GRACE_MS as int),
            self.grace_ms > 0 ==> r == self.grace_ms,
            self.grace_ms == 0 ==> r == 2_000,
    {
        if self.grace_ms == 0 {
            DEFAULT_GRACE_MS
        } else {
            self.grace_ms
        }
    }

    /// The output cap in force.
    pub fn effective_max_output(&self) -> (r: usize)
        ensures
            r == or_default(self.max_output_bytes as int, DEFAULT_MAX_OUTPUT_BYTES as int),
            self.max_output_bytes > 0 ==> r == self.max_output_bytes,
            self.max_output_bytes == 0 ==> r == 262_144,
    {
        if self.max_output_bytes == 0 {
            DEFAULT_MAX_OUTPUT_BYTES
        } else {
            self.max_output_bytes
        }
    }
}

// ---------------------------------------------------------------------------
// What came of it
// ---------------------------------------------------------------------------

/// The normalized result, with the same shape on every platform.
#[derive(Debug)]
pub struct ExecResult {
    /// Exit code; `None` when a signal ended the process, or the deadline.
    pub exit_code: Option<i32>,
    /// The signal that ended the process, where one did.
    pub signal: Option<i32>,
    /// Captured stdout, decoded; on truncation its tail.
    pub stdout: String,
    /// Captured stderr, decoded; on truncation its tail.
    pub stderr: String,
    /// The deadline elapsed and the process tree was terminated.
    pub timed_out: bool,
    /// The caller aborted the run.
    pub aborted: bool,
    /// Wall-clock duration of the run.
    pub duration_ms: u64,
    /// Stable error class; `None` on success, and without evidence of an error.
    pub error_class: Option<String>,
    /// What to do about the error.
    pub hint: Option<String>,
    /// What the output was decoded from.
    pub encoding: String,
    /// A stream exceeded the cap and only its tail was kept.
    pub truncated: bool,
    /// The shell that was used.
    pub shell_used: String,
}

/// The view of a result.
#[verifier::ext_equal]
pub struct ResultView {
    pub exit_code: Option<i32>,
    pub signal: Option<i32>,
    pub stdout: Seq<char>,
    pub stderr: Seq<char>,
    pub timed_out: bool,
    pub aborted: bool,
    pub duration_ms: u64,
    pub error_class: Option<Seq<char>>,
    pub hint: Option<Seq<char>>,
    pub encoding: Seq<char>,
    pub truncated: bool,
    pub shell_used: Seq<char>,
}

impl View for ExecResult {
    type V = ResultView;

    open spec fn view(&self) -> ResultView {
        ResultView {
            exit_code: self.exit_code,
            signal: self.signal,
            stdout: self.stdout@,
            stderr: self.stderr@,
            timed_out: self.timed_out,
            aborted: self.aborted,
            duration_ms: self.duration_ms,
            error_class: opt_text(self.error_class),
            hint: opt_text(self.hint),
            encoding: self.encoding@,
            truncated: self.truncated,
            shell_used: self.shell_used@,
        }
    }
}

/// The view of a successful result.
pub open spec fn successful(
    stdout: Seq<char>,
    stderr: Seq<char>,
    shell_used: Seq<char>,
) -> ResultView {
    ResultView {
        exit_code: Some(0),
        signal: None,
        stdout,
        stderr,
        timed_out: false,
        aborted: false,
        duration_ms: 0,
        error_class: None,
        hint: None,
        encoding: "utf-8"@,
        truncated: false,
        shell_used,
    }
}

/// A run that did its work exits with zero and has no class; it was neither stopped
/// nor cut short, and what it wrote stands under its stream's name.
pub proof fn law_success_is_plain(stdout: Seq<char>, stderr: Seq<char>, shell_used: Seq<char>)
    ensures
        ({
            let r = successful(stdout, stderr, shell_used);
            &&& r.exit_code == Some(0i32)
            &&& r.stdout == stdout && r.stderr == stderr && r.shell_used == shell_used
            &&& r.error_class is None && r.hint is None && r.signal is None
            &&& !r.timed_out && !r.aborted && !r.truncated
            &&& r.duration_ms == 0 && r.encoding == "utf-8"@
        }),
{
}

impl ExecResult {
    /// A successful result with the given output.
    pub fn success(stdout: String, stderr: String, shell_used: &str) -> (r: Self)
        ensures
            r@ == successful(stdout@, stderr@, shell_used@),
    {
        ExecResult {
            exit_code: Some(0),
            signal: None,
            stdout,
            stderr,
            timed_out: false,
            aborted: false,
            duration_ms: 0,
            error_class: None,
            hint: None,
            encoding: "utf-8".to_string(),
            truncated: false,
            shell_used: shell_used.to_string(),
        }
    }
}

} // verus!

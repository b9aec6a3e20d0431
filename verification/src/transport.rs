//! SSH transport.
//!
//! A script travels as a payload, never as a hand-quoted command string: to a
//! Unix shell over stdin, to PowerShell as base64 of its UTF-16LE text or, where
//! that is too long for a command line, as an uploaded file, to `cmd.exe` as an
//! uploaded batch file. PowerShell payloads carry a prefix that makes output
//! clean UTF-8 and a suffix that hands the exit code on.

use vstd::prelude::*;
use vstd::utf8::{decode_utf8, valid_utf8};

use crate::encoding::{
    crlf_to_lf, decode, decoded, from_utf8_lossy, law_decode_utf8, law_decode_utf8_mark,
    law_utf16_bytes_roundtrip, normalize_line_endings, unit_bytes, utf16_text, utf16_units,
    utf16le_bytes, utf8_lossy,
};
use crate::exec::{with_class, Captured, Ending, Supervisor};
use crate::number::{decimal, format_hex, format_u64, hexadecimal};
use crate::payload::{
    base64_bytes, base64_text, base64_utf16le, law_base64_len, law_base64_roundtrip,
};
use crate::spec::{or_default, shell_name, ExecResult, ResultView, Shell};
use crate::taxonomy::{ascii_class, class_with, classify, silent_exit};
use crate::text::{
    all_ascii, chars_of, contains, copy_text, has_text, is_empty_text,
    law_text_is_found_where_it_stands, lower_ascii, opt_text, text_of, texts, to_lowercase,
    trim_end, trimmed_end, unicode_lower,
};

verus! {

broadcast use vstd::seq::group_seq_axioms;

/// What a PowerShell payload starts with: no progress records, UTF-8 in both
/// directions.
pub const GOLDEN_PREFIX: &'static str = "$ProgressPreference='SilentlyContinue'\n[Console]::OutputEncoding=[Text.Encoding]::UTF8\n$OutputEncoding=[Text.Encoding]::UTF8\n";

/// What a PowerShell payload ends with: the exit code of the last native
/// command is the payload's own.
pub const EXIT_CONTRACT: &'static str = "\nexit $LASTEXITCODE\n";

/// The longest base64 payload that goes on a command line.
pub const B64_THRESHOLD: usize = 60_000;

/// How much of each stream is kept.
pub const MAX_OUTPUT: usize = 262_144;

/// Deadline of a target that states none.
pub const DEFAULT_REMOTE_TIMEOUT_MS: u64 = 120_000;

/// Grace between the two termination signals, in ms.
pub const REMOTE_GRACE_MS: u64 = 2_000;

/// How long the transport sleeps between two looks at `ssh`, in ms.
pub const REMOTE_POLL_MS: u64 = 10;

/// Remote host and shell.
#[derive(Debug)]
pub struct SshTarget {
    pub host: String,
    /// Remote shell: a Unix one, PowerShell of either kind, or `cmd`.
    pub shell: Shell,
    /// Deadline in ms; `0` stands for `DEFAULT_REMOTE_TIMEOUT_MS`.
    pub timeout_ms: u64,
    pub connect_timeout: u64,
    /// SSH user; `None` or empty leaves it to the SSH configuration.
    pub user: Option<String>,
    /// SSH port; `None` leaves it to the SSH configuration.
    pub port: Option<u16>,
    /// Identity file.
    pub identity_file: Option<String>,
}

/// The view of a target.
#[verifier::ext_equal]
pub struct TargetView {
    pub host: Seq<char>,
    pub shell: Shell,
    pub timeout_ms: u64,
    pub connect_timeout: u64,
    pub user: Option<Seq<char>>,
    pub port: Option<u16>,
    pub identity_file: Option<Seq<char>>,
}

impl View for SshTarget {
    type V = TargetView;

    open spec fn view(&self) -> TargetView {
        TargetView {
            host: self.host@,
            shell: self.shell,
            timeout_ms: self.timeout_ms,
            connect_timeout: self.connect_timeout,
            user: opt_text(self.user),
            port: self.port,
            identity_file: opt_text(self.identity_file),
        }
    }
}

/// The target that stands where nothing else is said.
pub open spec fn default_target() -> TargetView {
    TargetView {
        host: "win-los"@,
        shell: Shell::Powershell,
        timeout_ms: 120_000,
        connect_timeout: 15,
        user: None,
        port: None,
        identity_file: None,
    }
}

impl Default for SshTarget {
    fn default() -> (r: Self)
        ensures
            r@ == default_target(),
    {
        SshTarget {
            host: "win-los".to_string(),
            shell: Shell::Powershell,
            timeout_ms: 120_000,
            connect_timeout: 15,
            user: None,
            port: None,
            identity_file: None,
        }
    }
}

// ---------------------------------------------------------------------------
// Command lines
// ---------------------------------------------------------------------------

/// `user@host`, or the bare host where no user is given.
pub open spec fn login(t: TargetView) -> Seq<char> {
    match t.user {
        Some(u) => if u.len() > 0 {
            u + "@"@ + t.host
        } else {
            t.host
        },
        None => t.host,
    }
}

/// An option with its value, where there is one.
pub open spec fn flagged(flag: Seq<char>, value: Option<Seq<char>>) -> Seq<Seq<char>> {
    match value {
        Some(v) => seq![flag, v],
        None => seq![],
    }
}

/// The port as text.
pub open spec fn port_text(port: Option<u16>) -> Option<Seq<char>> {
    match port {
        Some(p) => Some(decimal(p as nat)),
        None => None,
    }
}

/// The arguments of `ssh`.
pub open spec fn ssh_words(t: TargetView, remote_cmd: Seq<char>) -> Seq<Seq<char>> {
    seq![
        "-o"@,
        "BatchMode=yes"@,
        "-o"@,
        "ConnectTimeout="@ + decimal(t.connect_timeout as nat),
        "-o"@,
        "ServerAliveInterval=30"@,
        "-o"@,
        "StrictHostKeyChecking=accept-new"@,
        "-o"@,
        "ControlMaster=no"@,
        "-o"@,
        "ControlPath=none"@,
    ] + flagged("-p"@, port_text(t.port)) + flagged("-i"@, t.identity_file) + seq![
        login(t),
        remote_cmd,
    ]
}

/// The arguments of `scp`. Its port option is in upper case.
pub open spec fn scp_words(t: TargetView, local: Seq<char>, remote_path: Seq<char>) -> Seq<
    Seq<char>,
> {
    seq![
        "-o"@,
        "BatchMode=yes"@,
        "-o"@,
        "ConnectTimeout="@ + decimal(t.connect_timeout as nat),
        "-o"@,
        "StrictHostKeyChecking=accept-new"@,
        "-o"@,
        "ControlMaster=no"@,
        "-o"@,
        "ControlPath=none"@,
    ] + flagged("-P"@, port_text(t.port)) + flagged("-i"@, t.identity_file) + seq![
        local,
        login(t) + ":"@ + remote_path,
    ]
}

fn login_text(target: &SshTarget) -> (r: String)
    ensures
        r@ == login(target@),
{
    match &target.user {
        Some(u) => {
            if is_empty_text(u.as_str()) {
                target.host.clone()
            } else {
                let mut s = u.clone();
                s.append("@");
                s.append(target.host.as_str());
                s
            }
        },
        None => target.host.clone(),
    }
}

fn connect_timeout_option(target: &SshTarget) -> (r: String)
    ensures
        r@ == "ConnectTimeout="@ + decimal(target.connect_timeout as nat),
{
    let mut s = "ConnectTimeout=".to_string();
    s.append(format_u64(target.connect_timeout).as_str());
    s
}

fn push_flag(args: &mut Vec<String>, flag: &str, value: Option<String>)
    ensures
        texts(final(args)@) == texts(old(args)@) + flagged(flag@, opt_text(value)),
{
    let ghost before = texts(args@);
    match value {
        Some(v) => {
            let ghost value = v@;
            args.push(flag.to_string());
            args.push(v);
            proof {
                assert(texts(args@) =~= before + seq![flag@, value]);
            }
        },
        None => {
            proof {
                assert(texts(args@) =~= before + Seq::<Seq<char>>::empty());
            }
        },
    }
}

fn port_option(target: &SshTarget) -> (r: Option<String>)
    ensures
        opt_text(r) == port_text(target.port),
{
    match target.port {
        Some(p) => Some(format_u64(p as u64)),
        None => None,
    }
}

/// Build the arguments of `ssh` for a target and a remote command.
///
/// Connection sharing is switched off: a shared connection lives in a detached
/// process, so ending this process tree would not end the remote command.
pub fn ssh_argv(target: &SshTarget, remote_cmd: &str) -> (r: Vec<String>)
    ensures
        texts(r@) == ssh_words(target@, remote_cmd@),
{
    let mut args = vec![
        "-o".to_string(),
        "BatchMode=yes".to_string(),
        "-o".to_string(),
        connect_timeout_option(target),
        "-o".to_string(),
        "ServerAliveInterval=30".to_string(),
        "-o".to_string(),
        "StrictHostKeyChecking=accept-new".to_string(),
        "-o".to_string(),
        "ControlMaster=no".to_string(),
        "-o".to_string(),
        "ControlPath=none".to_string(),
    ];
    let ghost head = texts(args@);
    proof {
        assert(head =~= seq![
            "-o"@,
            "BatchMode=yes"@,
            "-o"@,
            "ConnectTimeout="@ + decimal(target.connect_timeout as nat),
            "-o"@,
            "ServerAliveInterval=30"@,
            "-o"@,
            "StrictHostKeyChecking=accept-new"@,
            "-o"@,
            "ControlMaster=no"@,
            "-o"@,
            "ControlPath=none"@,
        ]);
    }
    push_flag(&mut args, "-p", port_option(target));
    push_flag(&mut args, "-i", copy_text(&target.identity_file));
    let ghost before = texts(args@);
    args.push(login_text(target));
    args.push(remote_cmd.to_string());
    proof {
        assert(texts(args@) =~= before + seq![login(target@), remote_cmd@]);
    }
    args
}

/// Build the arguments of `scp` that upload a local file.
pub fn scp_argv(target: &SshTarget, local: &str, remote_path: &str) -> (r: Vec<String>)
    ensures
        texts(r@) == scp_words(target@, local@, remote_path@),
{
    let mut args = vec![
        "-o".to_string(),
        "BatchMode=yes".to_string(),
        "-o".to_string(),
        connect_timeout_option(target),
        "-o".to_string(),
        "StrictHostKeyChecking=accept-new".to_string(),
        "-o".to_string(),
        "ControlMaster=no".to_string(),
        "-o".to_string(),
        "ControlPath=none".to_string(),
    ];
    let ghost head = texts(args@);
    proof {
        assert(head =~= seq![
            "-o"@,
            "BatchMode=yes"@,
            "-o"@,
            "ConnectTimeout="@ + decimal(target.connect_timeout as nat),
            "-o"@,
            "StrictHostKeyChecking=accept-new"@,
            "-o"@,
            "ControlMaster=no"@,
            "-o"@,
            "ControlPath=none"@,
        ]);
    }
    push_flag(&mut args, "-P", port_option(target));
    push_flag(&mut args, "-i", copy_text(&target.identity_file));
    let mut dest = login_text(target);
    dest.append(":");
    dest.append(remote_path);
    let ghost before = texts(args@);
    args.push(local.to_string());
    args.push(dest);
    proof {
        assert(texts(args@) =~= before + seq![local@, login(target@) + ":"@ + remote_path@]);
    }
    args
}

// ---------------------------------------------------------------------------
// What to do for a script
// ---------------------------------------------------------------------------

/// A file that has to lie on the remote host before the script can run.
pub struct Upload {
    pub remote_path: String,
    pub bytes: Vec<u8>,
}

/// What running a script on a target takes.
pub struct SshPlan {
    /// Uploaded first, where there is one.
    pub upload: Option<Upload>,
    /// What the result names as its shell where the upload fails.
    pub upload_shell: String,
    /// The remote command that runs the script.
    pub remote_cmd: String,
    /// What goes to the remote command's stdin; stdin is closed without it.
    pub stdin: Option<String>,
    /// The remote command that removes the upload, run last.
    pub cleanup: Option<String>,
}

/// The view of a plan.
#[verifier::ext_equal]
pub struct PlanView {
    pub upload: Option<(Seq<char>, Seq<u8>)>,
    pub upload_shell: Seq<char>,
    pub remote_cmd: Seq<char>,
    pub stdin: Option<Seq<char>>,
    pub cleanup: Option<Seq<char>>,
}

impl View for SshPlan {
    type V = PlanView;

    open spec fn view(&self) -> PlanView {
        PlanView {
            upload: match self.upload {
                Some(u) => Some((u.remote_path@, u.bytes@)),
                None => None,
            },
            upload_shell: self.upload_shell@,
            remote_cmd: self.remote_cmd@,
            stdin: opt_text(self.stdin),
            cleanup: opt_text(self.cleanup),
        }
    }
}

/// The text that PowerShell is given to run.
pub open spec fn powershell_payload(script: Seq<char>) -> Seq<char> {
    GOLDEN_PREFIX@ + trim_end(script) + EXIT_CONTRACT@
}

/// A payload as it stands on a command line.
pub open spec fn encoded_payload(payload: Seq<char>) -> Seq<char> {
    base64_text(unit_bytes(utf16_units(payload), true))
}

/// Where an uploaded script lies.
pub open spec fn remote_script(nonce: Seq<char>, ext: Seq<char>) -> Seq<char> {
    "C:\\Windows\\Temp\\unirun-"@ + nonce + ext
}

/// The PowerShell binary of a shell.
pub open spec fn powershell_exe(shell: Shell) -> Seq<char> {
    if shell == Shell::Pwsh {
        "pwsh.exe"@
    } else {
        "powershell.exe"@
    }
}

/// What running a script through PowerShell takes.
pub open spec fn powershell_plan(shell: Shell, script: Seq<char>, nonce: Seq<char>) -> PlanView {
    let exe = powershell_exe(shell);
    let payload = powershell_payload(script);
    let encoded = encoded_payload(payload);
    if encoded.len() <= B64_THRESHOLD {
        PlanView {
            upload: None,
            upload_shell: exe,
            remote_cmd: exe + " -NoProfile -NonInteractive -EncodedCommand "@ + encoded,
            stdin: None,
            cleanup: None,
        }
    } else {
        let path = remote_script(nonce, ".ps1"@);
        PlanView {
            upload: Some((path, seq![0xEFu8, 0xBBu8, 0xBFu8] + vstd::utf8::encode_utf8(payload))),
            upload_shell: exe,
            remote_cmd: exe + " -NoProfile -NonInteractive -ExecutionPolicy Bypass -File "@ + path,
            stdin: None,
            cleanup: Some("del /q "@ + path),
        }
    }
}

/// What running a script through `cmd.exe` takes: a batch file always.
pub open spec fn cmd_plan(script: Seq<char>, nonce: Seq<char>) -> PlanView {
    let path = remote_script(nonce, ".bat"@);
    PlanView {
        upload: Some((path, vstd::utf8::encode_utf8(script))),
        upload_shell: "cmd"@,
        remote_cmd: "cmd.exe /C \""@ + path + "\""@,
        stdin: None,
        cleanup: Some("del /q "@ + path),
    }
}

/// What running a script through a Unix shell takes: the script over stdin.
pub open spec fn unix_plan(shell: Shell, script: Seq<char>) -> PlanView {
    PlanView {
        upload: None,
        upload_shell: shell_name(shell),
        remote_cmd: shell_name(shell) + " -s"@,
        stdin: Some(script),
        cleanup: None,
    }
}

/// What running a script on a target takes.
pub open spec fn plan_of(shell: Shell, script: Seq<char>, nonce: Seq<char>) -> PlanView {
    match shell {
        Shell::Powershell | Shell::Pwsh => powershell_plan(shell, script, nonce),
        Shell::Cmd => cmd_plan(script, nonce),
        Shell::Bash | Shell::Sh | Shell::Zsh => unix_plan(shell, script),
    }
}

fn joined_text(a: &str, b: &str, c: &str) -> (r: String)
    ensures
        r@ == a@ + b@ + c@,
{
    let mut s = a.to_string();
    s.append(b);
    s.append(c);
    s
}

/// The path without its quotes is handed to the command that removes it.
fn cleanup_command(path: &str) -> (r: String)
    ensures
        r@ == "del /q "@ + path@,
{
    let mut s = "del /q ".to_string();
    s.append(path);
    s
}

fn ssh_powershell(shell: Shell, script: &str, nonce: &str) -> (r: SshPlan)
    ensures
        r@ == powershell_plan(shell, script@, nonce@),
{
    let exe = match shell {
        Shell::Pwsh => "pwsh.exe",
        _ => "powershell.exe",
    };
    let body = trimmed_end(script);
    let payload = joined_text(GOLDEN_PREFIX, body.as_str(), EXIT_CONTRACT);
    let units = utf16le_bytes(payload.as_str());
    proof {
        law_base64_len(units@);
    }
    // 45,000 bytes are exactly the threshold in base64.
    if units.len() <= 45_000 {
        let encoded = base64_utf16le(payload.as_str());
        SshPlan {
            upload: None,
            upload_shell: exe.to_string(),
            remote_cmd: joined_text(
                exe,
                " -NoProfile -NonInteractive -EncodedCommand ",
                encoded.as_str(),
            ),
            stdin: None,
            cleanup: None,
        }
    } else {
        let path = joined_text("C:\\Windows\\Temp\\unirun-", nonce, ".ps1");
        let mut bytes: Vec<u8> = vec![0xEF, 0xBB, 0xBF];
        bytes.extend_from_slice(payload.as_str().as_bytes());
        proof {
            assert(bytes@ =~= seq![0xEFu8, 0xBBu8, 0xBFu8] + vstd::utf8::encode_utf8(payload@));
        }
        let remote_cmd = joined_text(
            exe,
            " -NoProfile -NonInteractive -ExecutionPolicy Bypass -File ",
            path.as_str(),
        );
        let cleanup = cleanup_command(path.as_str());
        SshPlan {
            upload: Some(Upload { remote_path: path, bytes }),
            upload_shell: exe.to_string(),
            remote_cmd,
            stdin: None,
            cleanup: Some(cleanup),
        }
    }
}

fn ssh_cmd_file(script: &str, nonce: &str) -> (r: SshPlan)
    ensures
        r@ == cmd_plan(script@, nonce@),
{
    let path = joined_text("C:\\Windows\\Temp\\unirun-", nonce, ".bat");
    let mut bytes: Vec<u8> = Vec::new();
    bytes.extend_from_slice(script.as_bytes());
    proof {
        assert(bytes@ =~= vstd::utf8::encode_utf8(script@));
    }
    let remote_cmd = joined_text("cmd.exe /C \"", path.as_str(), "\"");
    let cleanup = cleanup_command(path.as_str());
    SshPlan {
        upload: Some(Upload { remote_path: path, bytes }),
        upload_shell: "cmd".to_string(),
        remote_cmd,
        stdin: None,
        cleanup: Some(cleanup),
    }
}

fn ssh_unix(shell: Shell, script: &str) -> (r: SshPlan)
    ensures
        r@ == unix_plan(shell, script@),
{
    let mut remote_cmd = shell.as_str().to_string();
    remote_cmd.append(" -s");
    SshPlan {
        upload: None,
        upload_shell: shell.as_str().to_string(),
        remote_cmd,
        stdin: Some(script.to_string()),
        cleanup: None,
    }
}

/// What keeps the uploads of different runs apart: the process id and the
/// nanoseconds of the current second, in hexadecimal.
pub fn nonce(pid: u32, nanos: u32) -> (r: String)
    ensures
        r@ == hexadecimal(pid as nat) + hexadecimal(nanos as nat),
{
    let mut s = format_hex(pid as u64);
    s.append(format_hex(nanos as u64).as_str());
    s
}

/// Decide what running a script on a target takes. `nonce` keeps the uploads
/// of different runs apart.
pub fn ssh_run(target: &SshTarget, script: &str, nonce: &str) -> (r: SshPlan)
    ensures
        r@ == plan_of(target.shell, script@, nonce@),
{
    match target.shell {
        Shell::Powershell | Shell::Pwsh => ssh_powershell(target.shell, script, nonce),
        Shell::Cmd => ssh_cmd_file(script, nonce),
        Shell::Bash | Shell::Sh | Shell::Zsh => ssh_unix(target.shell, script),
    }
}

/// The supervision of the `ssh` process of a target.
pub open spec fn ssh_supervisor(t: TargetView, at_once: bool) -> Supervisor {
    Supervisor {
        timeout_ms: or_default(t.timeout_ms as int, DEFAULT_REMOTE_TIMEOUT_MS as int) as u64,
        grace_ms: REMOTE_GRACE_MS,
        poll_ms: REMOTE_POLL_MS,
        at_once,
        phase: crate::exec::Phase::Watching,
    }
}

/// Whatever deadline a target names is the deadline of its run; only zero is left
/// to the default.
pub proof fn law_remote_deadline_is_in_force(t: TargetView, at_once: bool)
    ensures
        t.timeout_ms > 0 ==> ssh_supervisor(t, at_once).timeout_ms == t.timeout_ms,
        t.timeout_ms == 0 ==> ssh_supervisor(t, at_once).timeout_ms == 120_000,
        ssh_supervisor(t, at_once).grace_ms == 2_000,
        ssh_supervisor(t, at_once).at_once == at_once,
        ssh_supervisor(t, at_once).phase is Watching,
{
}

/// The supervision of the `ssh` process of a target.
pub fn supervise_ssh(target: &SshTarget, at_once: bool) -> (r: Supervisor)
    ensures
        r == (Supervisor {
            timeout_ms: or_default(
                target.timeout_ms as int,
                DEFAULT_REMOTE_TIMEOUT_MS as int,
            ) as u64,
            grace_ms: REMOTE_GRACE_MS,
            poll_ms: REMOTE_POLL_MS,
            at_once,
            phase: crate::exec::Phase::Watching,
        }),
        r == ssh_supervisor(target@, at_once),
        target.timeout_ms > 0 ==> r.timeout_ms == target.timeout_ms,
        target.timeout_ms == 0 ==> r.timeout_ms == 120_000,
{
    let timeout: u64 = if target.timeout_ms == 0 {
        DEFAULT_REMOTE_TIMEOUT_MS
    } else {
        target.timeout_ms
    };
    Supervisor::new(timeout, REMOTE_GRACE_MS, REMOTE_POLL_MS, at_once)
}

// ---------------------------------------------------------------------------
// The banner
// ---------------------------------------------------------------------------

/// How many characters stand before the first line feed.
pub open spec fn line_len(s: Seq<char>) -> nat
    decreases s.len(),
{
    if s.len() == 0 || s[0] == '\n' {
        0
    } else {
        1 + line_len(s.drop_first())
    }
}

/// A line without the carriage return that belongs to its line ending.
pub open spec fn without_cr(s: Seq<char>) -> Seq<char> {
    if s.len() > 0 && s.last() == '\r' {
        s.drop_last()
    } else {
        s
    }
}

/// The lines of a text. A line ends with a line feed, with or without a
/// carriage return before it; the last line may end with nothing.
pub open spec fn lines(s: Seq<char>) -> Seq<Seq<char>>
    decreases s.len(),
{
    let n = line_len(s) as int;
    if s.len() == 0 {
        seq![]
    } else if n < s.len() {
        seq![without_cr(s.take(n))] + lines(s.skip(n + 1))
    } else {
        seq![s]
    }
}

proof fn lemma_line_len_is(s: Seq<char>, n: int)
    requires
        0 <= n <= s.len(),
        forall|i: int| 0 <= i < n ==> #[trigger] s[i] != '\n',
        n < s.len() ==> s[n] == '\n',
    ensures
        line_len(s) == n,
    decreases s.len(),
{
    if n > 0 {
        assert(s[0] != '\n');
        let rest = s.drop_first();
        assert forall|i: int| 0 <= i < n - 1 implies #[trigger] rest[i] != '\n' by {
            assert(rest[i] == s[i + 1]);
        }
        lemma_line_len_is(rest, n - 1);
    }
}

/// The lines of a text.
pub fn split_lines(s: &str) -> (r: Vec<String>)
    ensures
        texts(r@) == lines(s@),
{
    let v = chars_of(s);
    let mut out: Vec<String> = Vec::new();
    let mut i: usize = 0;
    proof {
        assert(v@.skip(0) =~= v@);
        assert(texts(out@) + lines(v@) =~= lines(v@));
    }
    while i < v.len()
        invariant
            i <= v.len(),
            texts(out@) + lines(v@.skip(i as int)) == lines(s@),
        decreases v.len() - i,
    {
        let mut to: usize = i;
        while to < v.len() && v[to] != '\n'
            invariant
                i <= to <= v.len(),
                forall|j: int| i <= j < to ==> #[trigger] v@[j] != '\n',
            decreases v.len() - to,
        {
            to += 1;
        }
        let ghost rest = v@.skip(i as int);
        let ghost before = texts(out@);
        proof {
            assert forall|j: int| 0 <= j < to - i implies #[trigger] rest[j] != '\n' by {
                assert(rest[j] == v@[i + j]);
            }
            lemma_line_len_is(rest, to - i);
            assert(rest.take(to - i) =~= v@.subrange(i as int, to as int));
        }
        if to == v.len() {
            let line = text_of(&v, i, to);
            proof {
                assert(rest =~= line@);
                assert(lines(rest) =~= seq![line@]);
                assert(texts(out@.push(line)) =~= before + seq![line@]);
                assert(v@.skip(to as int) =~= Seq::<char>::empty());
                assert(texts(out@.push(line)) + lines(v@.skip(to as int)) =~= texts(
                    out@.push(line),
                ));
            }
            out.push(line);
            i = to;
        } else {
            let end: usize = if to > i && v[to - 1] == '\r' {
                to - 1
            } else {
                to
            };
            let line = text_of(&v, i, end);
            proof {
                let whole = rest.take(to - i);
                assert(without_cr(whole) =~= line@);
                assert(rest.skip(to - i + 1) =~= v@.skip(to + 1));
                assert(texts(out@.push(line)) =~= before.push(line@));
                assert(before + (seq![line@] + lines(v@.skip(to + 1))) =~= before.push(line@)
                    + lines(v@.skip(to + 1)));
            }
            out.push(line);
            i = to + 1;
        }
    }
    proof {
        assert(v@.skip(i as int) =~= Seq::<char>::empty());
        assert(texts(out@) + Seq::<Seq<char>>::empty() =~= texts(out@));
    }
    out
}

/// Whether a line, in lower case, belongs to the banner that OpenSSH for
/// Windows writes about post-quantum key exchange.
pub open spec fn is_banner(lower: Seq<char>) -> bool {
    has_text(lower, "post-quantum"@) || has_text(lower, "pq.html"@) || has_text(
        lower,
        "store now"@,
    ) || has_text(lower, "decrypt"@)
}

/// The lines that are no banner, each ended with a line feed. `lower` holds
/// the lines in lower case.
pub open spec fn kept_lines(all: Seq<Seq<char>>, lower: Seq<Seq<char>>) -> Seq<char>
    decreases all.len(),
{
    if all.len() == 0 || lower.len() == 0 {
        seq![]
    } else {
        let before = kept_lines(all.drop_last(), lower.drop_last());
        if is_banner(lower.last()) {
            before
        } else {
            before + all.last() + "\n"@
        }
    }
}

/// Keep the lines that are no banner, each ended with a line feed.
pub fn keep_lines(all: &Vec<String>, lower: &Vec<String>) -> (r: String)
    requires
        all.len() == lower.len(),
    ensures
        r@ == kept_lines(texts(all@), texts(lower@)),
{
    let mut out = String::new();
    let mut i: usize = 0;
    while i < all.len()
        invariant
            all.len() == lower.len(),
            i <= all.len(),
            out@ == kept_lines(texts(all@).take(i as int), texts(lower@).take(i as int)),
        decreases all.len() - i,
    {
        let l = lower[i].as_str();
        proof {
            let a = texts(all@).take(i + 1);
            let b = texts(lower@).take(i + 1);
            assert(a.drop_last() =~= texts(all@).take(i as int));
            assert(b.drop_last() =~= texts(lower@).take(i as int));
            assert(a.last() == all@[i as int]@);
            assert(b.last() == l@);
        }
        if !(contains(l, "post-quantum") || contains(l, "pq.html") || contains(l, "store now")
            || contains(l, "decrypt")) {
            out.append(all[i].as_str());
            out.append("\n");
        }
        i += 1;
    }
    proof {
        assert(texts(all@).take(all@.len() as int) =~= texts(all@));
        assert(texts(lower@).take(lower@.len() as int) =~= texts(lower@));
    }
    out
}

/// What is left of a text once the banner is gone.
pub open spec fn without_banner(text: Seq<char>) -> Seq<char> {
    kept_lines(lines(text), lines(text).map_values(|l: Seq<char>| unicode_lower(l)))
}

/// What is left of an ASCII text once the banner is gone.
pub open spec fn ascii_without_banner(text: Seq<char>) -> Seq<char> {
    kept_lines(lines(text), lines(text).map_values(|l: Seq<char>| lower_ascii(l)))
}

/// Bytes that encode an ASCII text.
pub open spec fn ascii_bytes(data: Seq<u8>) -> bool {
    valid_utf8(data) && all_ascii(decode_utf8(data))
}

proof fn lemma_lines_are_ascii(s: Seq<char>)
    requires
        all_ascii(s),
    ensures
        forall|i: int| 0 <= i < lines(s).len() ==> all_ascii(#[trigger] lines(s)[i]),
    decreases s.len(),
{
    let n = line_len(s) as int;
    if s.len() > 0 && n < s.len() {
        let rest = s.skip(n + 1);
        assert(all_ascii(rest));
        lemma_lines_are_ascii(rest);
        assert(all_ascii(without_cr(s.take(n))));
        assert forall|i: int| 0 <= i < lines(s).len() implies all_ascii(#[trigger] lines(s)[i]) by {
            if i > 0 {
                assert(lines(s)[i] == lines(rest)[i - 1]);
            }
        }
    }
}

proof fn lemma_kept_is_ascii(all: Seq<Seq<char>>, lower: Seq<Seq<char>>)
    requires
        forall|i: int| 0 <= i < all.len() ==> all_ascii(#[trigger] all[i]),
    ensures
        all_ascii(kept_lines(all, lower)),
    decreases all.len(),
{
    reveal_strlit("\n");
    if all.len() > 0 && lower.len() > 0 {
        let front = all.drop_last();
        assert forall|i: int| 0 <= i < front.len() implies all_ascii(#[trigger] front[i]) by {
            assert(front[i] == all[i]);
        }
        lemma_kept_is_ascii(front, lower.drop_last());
        assert(all_ascii(all[all.len() - 1]));
    }
}

proof fn lemma_unix_text_is_ascii(s: Seq<char>)
    requires
        all_ascii(s),
    ensures
        all_ascii(crlf_to_lf(s)),
    decreases s.len(),
{
    if s.len() >= 2 && s[0] == '\r' && s[1] == '\n' {
        assert(all_ascii(s.skip(2)));
        lemma_unix_text_is_ascii(s.skip(2));
    } else if s.len() > 0 {
        assert((s[0] as u32) < 128);
        assert(all_ascii(s.drop_first()));
        lemma_unix_text_is_ascii(s.drop_first());
    }
}

/// Strip the banner from stderr.
pub fn filter_banner(data: &[u8]) -> (r: Vec<u8>)
    ensures
        r@ == vstd::utf8::encode_utf8(without_banner(utf8_lossy(data@))),
        ascii_bytes(data@) ==> r@ == vstd::utf8::encode_utf8(
            ascii_without_banner(decode_utf8(data@)),
        ),
{
    let text = from_utf8_lossy(data);
    let all = split_lines(text.as_str());
    let ghost whole = texts(all@);
    let ghost f = |l: Seq<char>| unicode_lower(l);
    let ghost g = |l: Seq<char>| lower_ascii(l);
    let ghost clean = ascii_bytes(data@);
    proof {
        if clean {
            lemma_lines_are_ascii(text@);
        }
    }
    let mut lower: Vec<String> = Vec::new();
    let mut i: usize = 0;
    while i < all.len()
        invariant
            i <= all.len(),
            lower.len() == i,
            whole == texts(all@),
            f == (|l: Seq<char>| unicode_lower(l)),
            g == (|l: Seq<char>| lower_ascii(l)),
            clean ==> forall|j: int| 0 <= j < whole.len() ==> all_ascii(#[trigger] whole[j]),
            texts(lower@) == whole.take(i as int).map_values(f),
            clean ==> texts(lower@) == whole.take(i as int).map_values(g),
        decreases all.len() - i,
    {
        let l = to_lowercase(all[i].as_str());
        proof {
            assert(whole[i as int] == all@[i as int]@);
            assert(texts(lower@.push(l)) =~= texts(lower@).push(l@));
            assert(whole.take(i + 1).map_values(f) =~= whole.take(i as int).map_values(f).push(l@));
            if clean {
                assert(all_ascii(whole[i as int]));
                assert(whole.take(i + 1).map_values(g) =~= whole.take(i as int).map_values(g).push(
                    l@,
                ));
            }
        }
        lower.push(l);
        i += 1;
    }
    proof {
        assert(whole.take(whole.len() as int) =~= whole);
    }
    let kept = keep_lines(&all, &lower);
    let mut out: Vec<u8> = Vec::new();
    out.extend_from_slice(kept.as_str().as_bytes());
    proof {
        assert(out@ =~= vstd::utf8::encode_utf8(kept@));
    }
    out
}

// ---------------------------------------------------------------------------
// The result
// ---------------------------------------------------------------------------

/// The result of a remote run before it is classified.
pub open spec fn remote_result(
    shell: Shell,
    ending: Ending,
    stdout: Seq<u8>,
    stderr: Seq<u8>,
    truncated: bool,
    duration_ms: u64,
) -> ResultView {
    ResultView {
        exit_code: ending.exit_code,
        signal: None,
        stdout: crlf_to_lf(decoded(stdout).0),
        stderr: crlf_to_lf(decoded(stderr).0),
        timed_out: ending.timed_out,
        aborted: false,
        duration_ms,
        error_class: None,
        hint: None,
        encoding: decoded(stdout).1,
        truncated,
        shell_used: shell_name(shell),
    }
}

/// The result of a remote run before it is classified, where stderr is an ASCII
/// text, the banner still in it.
pub open spec fn ascii_result(
    shell: Shell,
    ending: Ending,
    stdout: Seq<u8>,
    stderr: Seq<char>,
    truncated: bool,
    duration_ms: u64,
) -> ResultView {
    ResultView {
        stderr: crlf_to_lf(ascii_without_banner(stderr)),
        ..remote_result(shell, ending, stdout, seq![], truncated, duration_ms)
    }
}

/// The normalized result of a remote run whose stderr is already rid of the
/// banner.
pub fn finish_filtered(
    target: &SshTarget,
    ending: Ending,
    stdout: &Captured,
    stderr: &Vec<u8>,
    truncated: bool,
    duration_ms: u64,
) -> (r: ExecResult)
    ensures
        ({
            let plain = remote_result(
                target.shell,
                ending,
                stdout.bytes@,
                stderr@,
                truncated,
                duration_ms,
            );
            &&& r@ == with_class(plain, class_with(plain, Map::empty()))
            &&& all_ascii(plain.stderr) ==> r@ == with_class(plain, ascii_class(plain))
            &&& silent_exit(plain) ==> r@ == plain
        }),
{
    let out = decode(stdout.bytes.as_slice());
    let err = decode(stderr.as_slice());
    let mut result = ExecResult {
        exit_code: ending.exit_code,
        signal: None,
        stdout: normalize_line_endings(out.text.as_str()),
        stderr: normalize_line_endings(err.text.as_str()),
        timed_out: ending.timed_out,
        aborted: false,
        duration_ms,
        error_class: None,
        hint: None,
        encoding: out.encoding.to_string(),
        truncated,
        shell_used: target.shell.as_str().to_string(),
    };
    let classes = classify(&result);
    result.error_class = classes.0;
    result.hint = classes.1;
    result
}

/// The result of a remote run whose stderr is ASCII.
pub open spec fn ssh_report(
    shell: Shell,
    ending: Ending,
    stdout: Captured,
    stderr: Captured,
    duration_ms: u64,
) -> ResultView {
    let plain = ascii_result(
        shell,
        ending,
        stdout.bytes@,
        decode_utf8(stderr.bytes@),
        stdout.truncated || stderr.truncated,
        duration_ms,
    );
    with_class(plain, ascii_class(plain))
}

/// A remote run is reported as it was: what it wrote comes back under its stream's
/// name, without the banner's lines and with nothing else missing, the exit code and
/// the timeout are its own, output is missing where either stream was cut, and it is
/// classified by that result like a run on this host.
pub proof fn law_remote_run_is_reported_as_it_was(
    shell: Shell,
    ending: Ending,
    stdout: Captured,
    stderr: Captured,
    duration_ms: u64,
    out: Seq<char>,
    l: Seq<Seq<char>>,
)
    requires
        stdout.bytes@ == vstd::utf8::encode_utf8(out),
        out.len() > 0 ==> out[0] != '\u{FEFF}',
        stderr.bytes@ == vstd::utf8::encode_utf8(unlines(l)),
        forall|i: int, j: int|
            0 <= i < l.len() && 0 <= j < l[i].len() ==> #[trigger] l[i][j] != '\n',
        forall|i: int|
            0 <= i < l.len() ==> (#[trigger] l[i]).len() == 0 || l[i][l[i].len() - 1] != '\r',
    ensures
        ({
            let r = ssh_report(shell, ending, stdout, stderr, duration_ms);
            &&& r.stdout == crlf_to_lf(out)
            &&& (forall|i: int| 0 <= i < l.len() ==> !is_banner(lower_ascii(#[trigger] l[i])))
                ==> r.stderr == crlf_to_lf(unlines(l))
            &&& (forall|i: int| 0 <= i < l.len() ==> is_banner(lower_ascii(#[trigger] l[i])))
                ==> r.stderr.len() == 0
            &&& r.exit_code == ending.exit_code
            &&& r.timed_out == ending.timed_out
            &&& r.truncated <==> stdout.truncated || stderr.truncated
            &&& r.duration_ms == duration_ms
            &&& r.shell_used == shell_name(shell)
            &&& !r.aborted
            &&& (r.error_class, r.hint) == ascii_class(
                ResultView { error_class: None, hint: None, ..r },
            )
        }),
{
    law_decode_utf8(out);
    vstd::utf8::encode_utf8_decode_utf8(unlines(l));
    if forall|i: int| 0 <= i < l.len() ==> !is_banner(lower_ascii(#[trigger] l[i])) {
        law_clean_stderr_is_kept(l);
    }
    if forall|i: int| 0 <= i < l.len() ==> is_banner(lower_ascii(#[trigger] l[i])) {
        law_lines_roundtrip(l);
        let lower = l.map_values(|x: Seq<char>| lower_ascii(x));
        assert forall|i: int| 0 <= i < lower.len() implies is_banner(#[trigger] lower[i]) by {
            assert(is_banner(lower_ascii(l[i])));
        }
        lemma_none_kept(l, lower);
        let kept = ascii_without_banner(unlines(l));
        assert(kept =~= Seq::<char>::empty());
        assert(crlf_to_lf(kept) =~= Seq::<char>::empty());
    }
    let r = ssh_report(shell, ending, stdout, stderr, duration_ms);
    let plain = ascii_result(
        shell,
        ending,
        stdout.bytes@,
        decode_utf8(stderr.bytes@),
        stdout.truncated || stderr.truncated,
        duration_ms,
    );
    assert(ResultView { error_class: None, hint: None, ..r } == plain);
}

proof fn lemma_none_kept(a: Seq<Seq<char>>, lower: Seq<Seq<char>>)
    requires
        a.len() == lower.len(),
        forall|i: int| 0 <= i < lower.len() ==> is_banner(#[trigger] lower[i]),
    ensures
        kept_lines(a, lower).len() == 0,
    decreases a.len(),
{
    if a.len() > 0 {
        let front = lower.drop_last();
        assert forall|i: int| 0 <= i < front.len() implies is_banner(#[trigger] front[i]) by {
            assert(front[i] == lower[i]);
        }
        lemma_none_kept(a.drop_last(), front);
        assert(is_banner(lower[lower.len() - 1]));
    }
}

/// A line of the banner is known by what it speaks of, wherever in the line; a line
/// without a `q`, a `w` and a `y` is none.
pub proof fn law_banner_is_known_by_its_words(a: Seq<char>, b: Seq<char>)
    ensures
        is_banner(a + "post-quantum"@ + b),
        is_banner(a + "pq.html"@ + b),
        is_banner(a + "store now"@ + b),
        is_banner(a + "decrypt"@ + b),
        !a.contains('q') && !a.contains('w') && !a.contains('y') ==> !is_banner(a),
{
    reveal_strlit("post-quantum");
    reveal_strlit("pq.html");
    reveal_strlit("store now");
    reveal_strlit("decrypt");
    assert("post-quantum"@[5] == 'q' && "pq.html"@[1] == 'q');
    assert("store now"@[8] == 'w' && "decrypt"@[4] == 'y');
    law_text_is_found_where_it_stands(a, "post-quantum"@, b, 5);
    law_text_is_found_where_it_stands(a, "pq.html"@, b, 1);
    law_text_is_found_where_it_stands(a, "store now"@, b, 8);
    law_text_is_found_where_it_stands(a, "decrypt"@, b, 4);
}

/// The normalized result of a remote run: banner stripped, line endings those
/// of Unix, truncated where either stream was.
pub fn finish_ssh(
    target: &SshTarget,
    ending: Ending,
    stdout: &Captured,
    stderr: &Captured,
    duration_ms: u64,
) -> (r: ExecResult)
    ensures
        ({
            let plain = remote_result(
                target.shell,
                ending,
                stdout.bytes@,
                vstd::utf8::encode_utf8(without_banner(utf8_lossy(stderr.bytes@))),
                stdout.truncated || stderr.truncated,
                duration_ms,
            );
            &&& r@ == with_class(plain, class_with(plain, Map::empty()))
            &&& silent_exit(plain) ==> r@ == plain
        }),
        ascii_bytes(stderr.bytes@) ==> ({
            let plain = ascii_result(
                target.shell,
                ending,
                stdout.bytes@,
                decode_utf8(stderr.bytes@),
                stdout.truncated || stderr.truncated,
                duration_ms,
            );
            r@ == with_class(plain, ascii_class(plain))
        }),
        ascii_bytes(stderr.bytes@) ==> r@ == ssh_report(
            target.shell,
            ending,
            *stdout,
            *stderr,
            duration_ms,
        ),
{
    let filtered = filter_banner(stderr.bytes.as_slice());
    proof {
        if ascii_bytes(stderr.bytes@) {
            let text = decode_utf8(stderr.bytes@);
            let kept = ascii_without_banner(text);
            lemma_lines_are_ascii(text);
            lemma_kept_is_ascii(lines(text), lines(text).map_values(|l: Seq<char>| lower_ascii(l)));
            if kept.len() > 0 {
                assert((kept[0] as u32) < 128);
            }
            law_decode_utf8(kept);
            lemma_unix_text_is_ascii(kept);
        }
    }
    finish_filtered(
        target,
        ending,
        stdout,
        &filtered,
        stdout.truncated || stderr.truncated,
        duration_ms,
    )
}

/// The result of a transport that could not do its part.
pub open spec fn transport_failed(
    stderr: Seq<char>,
    hint: Seq<char>,
    shell: Seq<char>,
) -> ResultView {
    ResultView {
        error_class: Some("COMMAND_NOT_FOUND"@),
        hint: Some(hint),
        ..crate::spec::successful(seq![], stderr, shell)
    }
}

/// The result of an `ssh` that could not be started.
pub fn ssh_spawn_failure(error: &str) -> (r: ExecResult)
    ensures
        r@ == transport_failed(
            "ssh spawn failed: "@ + error@,
            "ssh binary not available on this host"@,
            "ssh"@,
        ),
{
    let mut stderr = "ssh spawn failed: ".to_string();
    stderr.append(error);
    let mut r = ExecResult::success(String::new(), stderr, "ssh");
    r.error_class = Some("COMMAND_NOT_FOUND".to_string());
    r.hint = Some("ssh binary not available on this host".to_string());
    r
}

/// The result of a script that could not be uploaded.
pub fn upload_failure(plan: &SshPlan, error: &str) -> (r: ExecResult)
    ensures
        r@ == transport_failed(
            "upload failed: "@ + error@,
            "scp to the remote host failed; check host/credentials"@,
            plan@.upload_shell,
        ),
{
    let mut stderr = "upload failed: ".to_string();
    stderr.append(error);
    let mut r = ExecResult::success(String::new(), stderr, plan.upload_shell.as_str());
    r.error_class = Some("COMMAND_NOT_FOUND".to_string());
    r.hint = Some("scp to the remote host failed; check host/credentials".to_string());
    r
}

// ---------------------------------------------------------------------------
// Laws
// ---------------------------------------------------------------------------

/// A Unix shell gets the script over stdin, character for character; the
/// command line does not depend on it.
pub proof fn law_unix_script_is_verbatim(
    shell: Shell,
    script: Seq<char>,
    other: Seq<char>,
    nonce: Seq<char>,
)
    requires
        shell == Shell::Bash || shell == Shell::Sh || shell == Shell::Zsh,
    ensures
        plan_of(shell, script, nonce).stdin == Some(script),
        plan_of(shell, script, nonce).remote_cmd == plan_of(shell, other, nonce).remote_cmd,
        plan_of(shell, script, nonce).upload is None,
{
}

/// What PowerShell decodes from its command line is the payload.
pub proof fn law_payload_is_decoded(payload: Seq<char>)
    ensures
        utf16_text(base64_bytes(encoded_payload(payload)), true) == payload,
{
    law_base64_roundtrip(unit_bytes(utf16_units(payload), true));
    law_utf16_bytes_roundtrip(payload, true);
}

/// A payload starts with the UTF-8 setup and ends with the exit-code
/// contract, whatever the script.
pub proof fn law_payload_is_framed(script: Seq<char>)
    ensures
        GOLDEN_PREFIX@.is_prefix_of(powershell_payload(script)),
        EXIT_CONTRACT@.is_suffix_of(powershell_payload(script)),
{
    let p = powershell_payload(script);
    assert(p.subrange(0, GOLDEN_PREFIX@.len() as int) =~= GOLDEN_PREFIX@);
    assert(p.subrange(p.len() - EXIT_CONTRACT@.len(), p.len() as int) =~= EXIT_CONTRACT@);
}

/// What PowerShell reads from an uploaded script is the payload: the UTF-8 mark
/// in front tells it the encoding.
pub proof fn law_upload_is_decoded(shell: Shell, script: Seq<char>, nonce: Seq<char>)
    requires
        shell == Shell::Powershell || shell == Shell::Pwsh,
    ensures
        plan_of(shell, script, nonce).upload matches Some(u) ==> decoded(u.1) == (
            powershell_payload(script),
            "utf-8"@,
        ),
{
    law_decode_utf8_mark(powershell_payload(script));
}

/// The remote exit code is the result's, whatever the remote wrote.
pub proof fn law_remote_code_propagates(
    shell: Shell,
    ending: Ending,
    stdout: Seq<u8>,
    stderr: Seq<u8>,
    truncated: bool,
    duration_ms: u64,
)
    ensures
        ({
            let plain = remote_result(shell, ending, stdout, stderr, truncated, duration_ms);
            with_class(plain, class_with(plain, Map::empty())).exit_code == ending.exit_code
        }),
{
}

/// An upload is always removed again, and nothing is removed that was not
/// uploaded.
pub proof fn law_upload_is_removed(shell: Shell, script: Seq<char>, nonce: Seq<char>)
    ensures
        ({
            let p = plan_of(shell, script, nonce);
            match p.upload {
                Some(u) => p.cleanup == Some("del /q "@ + u.0),
                None => p.cleanup is None,
            }
        }),
{
}

/// A target of which nothing is said runs PowerShell for two minutes at most, has
/// fifteen seconds to answer, and is reached as the current user, through the usual
/// port and with the usual key.
pub proof fn law_target_of_which_nothing_is_said()
    ensures
        default_target().shell == Shell::Powershell,
        default_target().timeout_ms == 120_000,
        default_target().connect_timeout == 15,
        default_target().user is None,
        default_target().port is None,
        default_target().identity_file is None,
        login(default_target()) == default_target().host,
{
}

/// A target is reached as it says: as its user where it names one, through its
/// port and with its key where it names them, and through nothing else.
pub proof fn law_target_is_reached_as_it_says(t: TargetView, remote_cmd: Seq<char>)
    ensures
        ({
            let w = ssh_words(t, remote_cmd);
            let port = if t.port is Some {
                2int
            } else {
                0int
            };
            let key = if t.identity_file is Some {
                2int
            } else {
                0int
            };
            &&& w.len() == 14 + port + key
            &&& w[3] == "ConnectTimeout="@ + decimal(t.connect_timeout as nat)
            &&& t.port matches Some(p) ==> w[12] == "-p"@ && w[13] == decimal(p as nat)
            &&& t.identity_file matches Some(f) ==> w[12 + port] == "-i"@ && w[13 + port] == f
            &&& w[12 + port + key] == login(t)
            &&& w[13 + port + key] == remote_cmd
        }),
        t.user is None ==> login(t) == t.host,
        t.user matches Some(u) ==> {
            &&& u.len() == 0 ==> login(t) == t.host
            &&& u.len() > 0 ==> login(t) == u + "@"@ + t.host
        },
{
}

/// A file is copied to the host that the script will run on, under the path that
/// it is looked for, through the same port and with the same key.
pub proof fn law_upload_goes_where_the_script_runs(
    t: TargetView,
    local: Seq<char>,
    remote_path: Seq<char>,
)
    ensures
        ({
            let w = scp_words(t, local, remote_path);
            &&& w.last() == login(t) + ":"@ + remote_path
            &&& w[w.len() - 2] == local
            &&& t.port matches Some(p) ==> w[10] == "-P"@ && w[11] == decimal(p as nat)
            &&& t.identity_file matches Some(f) ==> {
                let at = if t.port is Some {
                    12int
                } else {
                    10int
                };
                w[at] == "-i"@ && w[at + 1] == f
            }
            &&& t.port is None && t.identity_file is None ==> w.len() == 12
        }),
{
}

/// PowerShell gets the script, without the white space at its end, between the
/// UTF-8 setup and the exit-code contract: on its command line where that is short
/// enough, else as a file that is uploaded first.
pub proof fn law_powershell_runs_the_payload(shell: Shell, script: Seq<char>, nonce: Seq<char>)
    requires
        shell == Shell::Powershell || shell == Shell::Pwsh,
    ensures
        ({
            let p = plan_of(shell, script, nonce);
            let exe = if shell == Shell::Pwsh {
                "pwsh.exe"@
            } else {
                "powershell.exe"@
            };
            let payload = GOLDEN_PREFIX@ + trim_end(script) + EXIT_CONTRACT@;
            let encoded = encoded_payload(payload);
            &&& p.stdin is None
            &&& p.upload is None <==> encoded.len() <= 60_000
            &&& p.upload is None ==> p.remote_cmd == exe
                + " -NoProfile -NonInteractive -EncodedCommand "@ + encoded
            &&& p.upload matches Some(u) ==> {
                &&& p.remote_cmd == exe
                    + " -NoProfile -NonInteractive -ExecutionPolicy Bypass -File "@ + u.0
                &&& decoded(u.1).0 == payload
                &&& u.0 == "C:\\Windows\\Temp\\unirun-"@ + nonce + ".ps1"@
                &&& p.cleanup == Some("del /q "@ + u.0)
            }
            &&& p.upload is None ==> p.cleanup is None
            &&& p.upload_shell == exe
        }),
{
    law_decode_utf8_mark(powershell_payload(script));
}

/// `cmd` gets the script as a batch file, character for character, and runs the
/// file that was uploaded.
pub proof fn law_cmd_runs_the_uploaded_file(script: Seq<char>, nonce: Seq<char>)
    ensures
        ({
            let p = plan_of(Shell::Cmd, script, nonce);
            &&& p.upload matches Some(u)
            &&& decode_utf8(u.1) == script
            &&& p.remote_cmd == "cmd.exe /C \""@ + u.0 + "\""@
            &&& u.0 == "C:\\Windows\\Temp\\unirun-"@ + nonce + ".bat"@
            &&& p.stdin is None
            &&& p.cleanup == Some("del /q "@ + u.0)
            &&& p.upload_shell == "cmd"@
        }),
{
    vstd::utf8::encode_utf8_decode_utf8(script);
}

/// A Unix shell is the one that the target names, and reads the script from its
/// input.
pub proof fn law_unix_shell_reads_its_input(shell: Shell, script: Seq<char>, nonce: Seq<char>)
    requires
        shell == Shell::Bash || shell == Shell::Sh || shell == Shell::Zsh,
    ensures
        plan_of(shell, script, nonce).remote_cmd == shell_name(shell) + " -s"@,
        plan_of(shell, script, nonce).stdin == Some(script),
        plan_of(shell, script, nonce).upload is None,
        plan_of(shell, script, nonce).cleanup is None,
{
}

/// A result says what the remote run did: what was written as UTF-8 comes back
/// under its stream's name with the line endings of Unix, and how the run ended,
/// how long it took and what ran it are as they were.
pub proof fn law_remote_result_says_what_the_run_did(
    shell: Shell,
    ending: Ending,
    out: Seq<char>,
    err: Seq<char>,
    truncated: bool,
    duration_ms: u64,
)
    requires
        out.len() > 0 ==> out[0] != '\u{FEFF}',
        err.len() > 0 ==> err[0] != '\u{FEFF}',
    ensures
        ({
            let r = remote_result(
                shell,
                ending,
                vstd::utf8::encode_utf8(out),
                vstd::utf8::encode_utf8(err),
                truncated,
                duration_ms,
            );
            &&& r.stdout == crlf_to_lf(out)
            &&& r.stderr == crlf_to_lf(err)
            &&& r.encoding == "utf-8"@
            &&& r.exit_code == ending.exit_code
            &&& r.timed_out == ending.timed_out
            &&& r.truncated == truncated
            &&& r.duration_ms == duration_ms
            &&& r.shell_used == shell_name(shell)
            &&& !r.aborted && r.signal is None
        }),
{
    law_decode_utf8(out);
    law_decode_utf8(err);
}

/// The lines of a text, each ended with a line feed.
pub open spec fn unlines(l: Seq<Seq<char>>) -> Seq<char>
    decreases l.len(),
{
    if l.len() == 0 {
        seq![]
    } else {
        l[0] + seq!['\n'] + unlines(l.drop_first())
    }
}

/// Text that was put together from lines is taken apart into them.
pub proof fn law_lines_roundtrip(l: Seq<Seq<char>>)
    requires
        forall|i: int, j: int|
            0 <= i < l.len() && 0 <= j < l[i].len() ==> #[trigger] l[i][j] != '\n',
        forall|i: int|
            0 <= i < l.len() ==> (#[trigger] l[i]).len() == 0 || l[i][l[i].len() - 1] != '\r',
    ensures
        lines(unlines(l)) == l,
    decreases l.len(),
{
    if l.len() > 0 {
        let first = l[0];
        let rest = l.drop_first();
        let s = unlines(l);
        assert forall|i: int, j: int|
            0 <= i < rest.len() && 0 <= j < rest[i].len() implies #[trigger] rest[i][j] != '\n' by {
            assert(l[i + 1][j] != '\n');
        }
        assert forall|i: int| 0 <= i < rest.len() implies (#[trigger] rest[i]).len() == 0
            || rest[i][rest[i].len() - 1] != '\r' by {
            assert(rest[i] == l[i + 1]);
        }
        law_lines_roundtrip(rest);
        let n = first.len() as int;
        assert forall|i: int| 0 <= i < n implies #[trigger] s[i] != '\n' by {
            assert(s[i] == l[0][i]);
        }
        assert(s[n] == '\n');
        lemma_line_len_is(s, n);
        assert(s.take(n) =~= first);
        assert(without_cr(first) == first);
        assert(s.skip(n + 1) =~= unlines(rest));
        assert(lines(s) =~= l);
    } else {
        assert(lines(unlines(l)) =~= l);
    }
}

/// A line ends with a line feed or with CR LF, neither of which belongs to it; what
/// follows the last line ending is a line too.
pub proof fn law_line_endings_end_lines(line: Seq<char>, rest: Seq<char>)
    requires
        forall|i: int| 0 <= i < line.len() ==> #[trigger] line[i] != '\n',
        line.len() > 0 ==> line.last() != '\r',
    ensures
        lines(line + seq!['\n'] + rest) == seq![line] + lines(rest),
        lines(line + seq!['\r', '\n'] + rest) == seq![line] + lines(rest),
        line.len() > 0 ==> lines(line) == seq![line],
        lines(Seq::<char>::empty()).len() == 0,
{
    let n = line.len() as int;
    let a = line + seq!['\n'] + rest;
    assert(forall|i: int| 0 <= i < n ==> #[trigger] a[i] == line[i]);
    assert(a[n] == '\n');
    lemma_line_len_is(a, n);
    assert(a.take(n) =~= line);
    assert(a.skip(n + 1) =~= rest);
    let b = line + seq!['\r', '\n'] + rest;
    assert(forall|i: int| 0 <= i < n ==> #[trigger] b[i] == line[i]);
    assert(b[n] == '\r' && b[n + 1] == '\n');
    lemma_line_len_is(b, n + 1);
    assert(b.take(n + 1).drop_last() =~= line);
    assert(b.skip(n + 2) =~= rest);
    lemma_line_len_is(line, n);
}

/// The banner's lines, and no others, are taken out of stderr: of two runs of
/// lines each is filtered on its own, a line of the banner leaves nothing, and any
/// other line stays as it is.
pub proof fn law_only_the_banner_is_taken_out(
    a: Seq<Seq<char>>,
    a_lower: Seq<Seq<char>>,
    b: Seq<Seq<char>>,
    b_lower: Seq<Seq<char>>,
)
    requires
        a.len() == a_lower.len(),
        b.len() == b_lower.len(),
    ensures
        kept_lines(a + b, a_lower + b_lower) == kept_lines(a, a_lower) + kept_lines(b, b_lower),
        a.len() == 1 && is_banner(a_lower[0]) ==> kept_lines(a, a_lower).len() == 0,
        a.len() == 1 && !is_banner(a_lower[0]) ==> kept_lines(a, a_lower) == a[0] + seq!['\n'],
        (forall|i: int| 0 <= i < a_lower.len() ==> !is_banner(#[trigger] a_lower[i]))
            ==> kept_lines(a, a_lower) == unlines(a),
    decreases b.len(), a.len(),
{
    reveal_strlit("\n");
    assert("\n"@ =~= seq!['\n']);
    let all = a + b;
    let lower = a_lower + b_lower;
    if b.len() == 0 {
        assert(all =~= a);
        assert(lower =~= a_lower);
        assert(kept_lines(all, lower) =~= kept_lines(a, a_lower) + kept_lines(b, b_lower));
    } else {
        law_only_the_banner_is_taken_out(a, a_lower, b.drop_last(), b_lower.drop_last());
        assert(all.drop_last() =~= a + b.drop_last());
        assert(lower.drop_last() =~= a_lower + b_lower.drop_last());
        assert(all.last() == b.last() && lower.last() == b_lower.last());
        assert(kept_lines(all, lower) =~= kept_lines(a, a_lower) + kept_lines(b, b_lower));
    }
    if a.len() == 1 {
        assert(a.drop_last() =~= Seq::<Seq<char>>::empty());
        assert(kept_lines(a.drop_last(), a_lower.drop_last()) =~= Seq::<char>::empty());
        assert(a.last() == a[0] && a_lower.last() == a_lower[0]);
        if !is_banner(a_lower[0]) {
            assert(kept_lines(a, a_lower) =~= a[0] + seq!['\n']);
        }
    }
    if forall|i: int| 0 <= i < a_lower.len() ==> !is_banner(#[trigger] a_lower[i]) {
        lemma_all_kept(a, a_lower);
    }
}

proof fn lemma_all_kept(a: Seq<Seq<char>>, lower: Seq<Seq<char>>)
    requires
        a.len() == lower.len(),
        forall|i: int| 0 <= i < lower.len() ==> !is_banner(#[trigger] lower[i]),
    ensures
        kept_lines(a, lower) == unlines(a),
    decreases a.len(),
{
    reveal_strlit("\n");
    assert("\n"@ =~= seq!['\n']);
    if a.len() > 0 {
        let front = lower.drop_last();
        assert forall|i: int| 0 <= i < front.len() implies !is_banner(#[trigger] front[i]) by {
            assert(front[i] == lower[i]);
        }
        lemma_all_kept(a.drop_last(), front);
        assert(!is_banner(lower[lower.len() - 1]));
        lemma_unlines_push(a.drop_last(), a.last());
        assert(a.drop_last().push(a.last()) =~= a);
        assert(kept_lines(a, lower) =~= unlines(a));
    }
}

proof fn lemma_unlines_push(l: Seq<Seq<char>>, x: Seq<char>)
    ensures
        unlines(l.push(x)) == unlines(l) + x + seq!['\n'],
    decreases l.len(),
{
    let all = l.push(x);
    if l.len() == 0 {
        assert(all.drop_first() =~= Seq::<Seq<char>>::empty());
        assert(unlines(all.drop_first()) =~= Seq::<char>::empty());
        assert(unlines(all) =~= unlines(l) + x + seq!['\n']);
    } else {
        lemma_unlines_push(l.drop_first(), x);
        assert(all.drop_first() =~= l.drop_first().push(x));
        assert(all[0] == l[0]);
        assert(unlines(all) =~= unlines(l) + x + seq!['\n']);
    }
}

/// Stderr without a banner comes back as it was.
pub proof fn law_clean_stderr_is_kept(l: Seq<Seq<char>>)
    requires
        forall|i: int, j: int|
            0 <= i < l.len() && 0 <= j < l[i].len() ==> #[trigger] l[i][j] != '\n',
        forall|i: int|
            0 <= i < l.len() ==> (#[trigger] l[i]).len() == 0 || l[i][l[i].len() - 1] != '\r',
        forall|i: int| 0 <= i < l.len() ==> !is_banner(lower_ascii(#[trigger] l[i])),
    ensures
        ascii_without_banner(unlines(l)) == unlines(l),
{
    law_lines_roundtrip(l);
    let lower = l.map_values(|x: Seq<char>| lower_ascii(x));
    assert forall|i: int| 0 <= i < lower.len() implies !is_banner(#[trigger] lower[i]) by {
        assert(!is_banner(lower_ascii(l[i])));
    }
    lemma_all_kept(l, lower);
}

/// A transport that could not do its part is reported as a command that is missing,
/// with what went wrong and what to do about it.
pub proof fn law_failed_transport_is_reported(
    stderr: Seq<char>,
    hint: Seq<char>,
    shell: Seq<char>,
)
    ensures
        ({
            let r = transport_failed(stderr, hint, shell);
            &&& r.error_class == Some("COMMAND_NOT_FOUND"@)
            &&& r.hint == Some(hint)
            &&& r.stderr == stderr
            &&& r.stdout.len() == 0
            &&& r.shell_used == shell
            &&& !r.timed_out && !r.aborted
        }),
{
}

/// Both programs run without asking, give up connecting when they should, trust a
/// host the first time and share no connection, each said as an option of its own.
pub proof fn law_connection_options(
    t: TargetView,
    remote_cmd: Seq<char>,
    local: Seq<char>,
    remote_path: Seq<char>,
)
    ensures
        ({
            let s = ssh_words(t, remote_cmd);
            let c = scp_words(t, local, remote_path);
            &&& s[0] == "-o"@ && s[2] == "-o"@ && s[4] == "-o"@
            &&& s[6] == "-o"@ && s[8] == "-o"@ && s[10] == "-o"@
            &&& s[1] == "BatchMode=yes"@ && s[5] == "ServerAliveInterval=30"@
            &&& s[7] == "StrictHostKeyChecking=accept-new"@
            &&& s[9] == "ControlMaster=no"@ && s[11] == "ControlPath=none"@
            &&& c[0] == "-o"@ && c[2] == "-o"@ && c[4] == "-o"@ && c[6] == "-o"@ && c[8] == "-o"@
            &&& c[1] == s[1] && c[3] == s[3] && c[5] == s[7] && c[7] == s[9] && c[9] == s[11]
        }),
{
}

/// The remote command is one argument of `ssh`, the last, and connection
/// sharing is off for every target.
pub proof fn law_ssh_arguments(t: TargetView, remote_cmd: Seq<char>)
    ensures
        ssh_words(t, remote_cmd).last() == remote_cmd,
        ssh_words(t, remote_cmd).contains("ControlMaster=no"@),
        ssh_words(t, remote_cmd).contains("ControlPath=none"@),
        ssh_words(t, remote_cmd).contains("BatchMode=yes"@),
        ssh_words(t, remote_cmd).contains(login(t)),
{
    let w = ssh_words(t, remote_cmd);
    assert(w[9] == "ControlMaster=no"@);
    assert(w[11] == "ControlPath=none"@);
    assert(w[1] == "BatchMode=yes"@);
    assert(w[w.len() - 2] == login(t));
}

} // verus!

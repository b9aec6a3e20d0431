//! Background sessions: detached runs with a durable record that callers can
//! poll and inspect.
//!
//! A session has a directory with its spec, its state and a log for each
//! stream. The runner appends decoded output to the logs and writes a terminal
//! state at the end. A state that still says `running` while the runner is gone
//! is reported as `interrupted`.

use vstd::prelude::*;
use vstd::utf8::{decode_utf8, encode_scalar, encode_utf8, valid_utf8};

use crate::encoding::{from_utf8_lossy, utf8_lossy};
use crate::exec::{continues, StreamKind};
use crate::number::{format_hex, hexadecimal, law_hexadecimal_is_distinct};
use crate::path::{
    components, file_name, is_rooted_plainly, is_single_name, join_path, joined,
    law_joined_lies_inside, lies_in,
};
use crate::recipe::EntryView;
use crate::spec::{
    copy_pairs, or_default, pair_texts, shell_name, shell_named, ExecKind, ExecResult, ExecSpec,
    ResultView, Shell, DEFAULT_TIMEOUT_MS,
};
use crate::text::{
    chars_of, copy_text, lower_ascii, opt_text, same_text, text_of,
};
use crate::textmap::deep;

verus! {

broadcast use vstd::seq::group_seq_axioms;

/// Hard cap on each log file, in bytes.
pub const LOG_CAP: u64 = 1_048_576;

/// How long a kill waits for the runner to write a terminal state, in ms.
pub const KILL_WAIT_MS: u64 = 3_000;

/// How long a kill sleeps between two looks at the state, in ms.
pub const KILL_SLEEP_MS: u64 = 50;

/// How long a wait sleeps between two looks at the state, in ms.
pub const WAIT_SLEEP_MS: u64 = 100;

/// The record of a session.
#[derive(Debug)]
pub struct SessionState {
    pub id: String,
    pub label: String,
    /// running | completed | aborted | timed_out | failed | killed | interrupted
    pub status: String,
    /// The process that supervises the command.
    pub pid: Option<u32>,
    pub started_at: u64,
    pub finished_at: Option<u64>,
    pub exit_code: Option<i32>,
    pub error_class: Option<String>,
    pub hint: Option<String>,
    pub truncated: bool,
    pub truncated_log: bool,
    pub duration_ms: u64,
    pub encoding: String,
    pub shell_used: String,
}

/// The view of a session's record.
#[verifier::ext_equal]
pub struct SessionView {
    pub id: Seq<char>,
    pub label: Seq<char>,
    pub status: Seq<char>,
    pub pid: Option<u32>,
    pub started_at: u64,
    pub finished_at: Option<u64>,
    pub exit_code: Option<i32>,
    pub error_class: Option<Seq<char>>,
    pub hint: Option<Seq<char>>,
    pub truncated: bool,
    pub truncated_log: bool,
    pub duration_ms: u64,
    pub encoding: Seq<char>,
    pub shell_used: Seq<char>,
}

impl View for SessionState {
    type V = SessionView;

    open spec fn view(&self) -> SessionView {
        SessionView {
            id: self.id@,
            label: self.label@,
            status: self.status@,
            pid: self.pid,
            started_at: self.started_at,
            finished_at: self.finished_at,
            exit_code: self.exit_code,
            error_class: opt_text(self.error_class),
            hint: opt_text(self.hint),
            truncated: self.truncated,
            truncated_log: self.truncated_log,
            duration_ms: self.duration_ms,
            encoding: self.encoding@,
            shell_used: self.shell_used@,
        }
    }
}

/// The record of what a session runs.
#[derive(Debug)]
pub struct SessionSpec {
    pub command: String,
    pub shell: Option<String>,
    pub workdir: Option<String>,
    pub env: Vec<(String, String)>,
    pub timeout_ms: u64,
}

/// The view of the record of what a session runs.
#[verifier::ext_equal]
pub struct SessionSpecView {
    pub command: Seq<char>,
    pub shell: Option<Seq<char>>,
    pub workdir: Option<Seq<char>>,
    pub env: Seq<(Seq<char>, Seq<char>)>,
    pub timeout_ms: u64,
}

impl View for SessionSpec {
    type V = SessionSpecView;

    open spec fn view(&self) -> SessionSpecView {
        SessionSpecView {
            command: self.command@,
            shell: opt_text(self.shell),
            workdir: opt_text(self.workdir),
            env: pair_texts(self.env@),
            timeout_ms: self.timeout_ms,
        }
    }
}

/// A session with this status is over.
pub open spec fn terminal(status: Seq<char>) -> bool {
    status != "running"@
}

impl SessionState {
    /// Whether the session is over.
    pub fn is_terminal(&self) -> (r: bool)
        ensures
            r == terminal(self.status@),
    {
        !same_text(self.status.as_str(), "running")
    }
}

// ---------------------------------------------------------------------------
// Places and names
// ---------------------------------------------------------------------------

/// Where all sessions lie.
pub open spec fn sessions_path(home: Seq<char>, windows: bool) -> Seq<char> {
    joined(home, "sessions"@, windows)
}

/// Where all sessions lie.
pub fn sessions_dir(home: &str, windows: bool) -> (r: String)
    ensures
        r@ == sessions_path(home@, windows),
{
    join_path(home, "sessions", windows)
}

/// Where one session lies.
pub fn session_dir(home: &str, id: &str, windows: bool) -> (r: String)
    ensures
        r@ == joined(sessions_path(home@, windows), id@, windows),
{
    join_path(sessions_dir(home, windows).as_str(), id, windows)
}

/// The name that process, time and a counter give.
pub open spec fn id_text(pid: nat, time: nat, counter: nat) -> Seq<char> {
    hexadecimal(pid) + hexadecimal(time) + hexadecimal(counter)
}

/// A name from the process id, the time in nanoseconds and a counter.
pub fn new_id(pid: u32, time: u64, counter: u64) -> (r: String)
    ensures
        r@ == id_text(pid as nat, time as nat, counter as nat),
{
    let mut s = format_hex(pid as u64);
    s.append(format_hex(time).as_str());
    s.append(format_hex(counter).as_str());
    s
}

/// Names that one process takes at one time differ as their counters do.
pub proof fn law_ids_are_distinct(pid: nat, time: nat, a: nat, b: nat)
    requires
        a != b,
    ensures
        id_text(pid, time, a) != id_text(pid, time, b),
{
    law_hexadecimal_is_distinct(a, b);
    let head = hexadecimal(pid) + hexadecimal(time);
    if id_text(pid, time, a) == id_text(pid, time, b) {
        assert(hexadecimal(a) =~= id_text(pid, time, a).skip(head.len() as int));
        assert(hexadecimal(b) =~= id_text(pid, time, b).skip(head.len() as int));
    }
}

// ---------------------------------------------------------------------------
// Starting
// ---------------------------------------------------------------------------

/// What a session's record says of a spec.
pub open spec fn recorded(spec: ExecSpec) -> SessionSpecView {
    SessionSpecView {
        command: spec.command@,
        shell: match spec.shell {
            Some(s) => Some(shell_name(s)),
            None => None,
        },
        workdir: opt_text(spec.workdir),
        env: pair_texts(spec.env@),
        timeout_ms: or_default(spec.timeout_ms as int, DEFAULT_TIMEOUT_MS as int) as u64,
    }
}

/// The record of a spec that is about to run.
pub fn session_spec(spec: &ExecSpec) -> (r: SessionSpec)
    ensures
        r@ == recorded(*spec),
{
    SessionSpec {
        command: spec.command.clone(),
        shell: match spec.shell {
            Some(s) => Some(s.as_str().to_string()),
            None => None,
        },
        workdir: copy_text(&spec.workdir),
        env: copy_pairs(&spec.env),
        timeout_ms: spec.effective_timeout_ms(),
    }
}

/// The record of a session that was just started.
pub open spec fn running_view(id: Seq<char>, label: Seq<char>, now: u64) -> SessionView {
    SessionView {
        id,
        label,
        status: "running"@,
        pid: None,
        started_at: now,
        finished_at: None,
        exit_code: None,
        error_class: None,
        hint: None,
        truncated: false,
        truncated_log: false,
        duration_ms: 0,
        encoding: seq![],
        shell_used: seq![],
    }
}

/// The record of a session that was just started.
pub fn initial_state(id: &str, label: &str, now: u64) -> (r: SessionState)
    ensures
        r@ == running_view(id@, label@, now),
{
    SessionState {
        id: id.to_string(),
        label: label.to_string(),
        status: "running".to_string(),
        pid: None,
        started_at: now,
        finished_at: None,
        exit_code: None,
        error_class: None,
        hint: None,
        truncated: false,
        truncated_log: false,
        duration_ms: 0,
        encoding: String::new(),
        shell_used: String::new(),
    }
}

/// What a start reports: the session runs, under the runner's process id,
/// however short the command is.
pub open spec fn started_view(id: Seq<char>, label: Seq<char>, now: u64, pid: u32) -> SessionView {
    SessionView { pid: Some(pid), ..running_view(id, label, now) }
}

/// What a start reports.
pub fn started_state(id: &str, label: &str, now: u64, pid: u32) -> (r: SessionState)
    ensures
        r@ == started_view(id@, label@, now, pid),
{
    let mut st = initial_state(id, label, now);
    st.pid = Some(pid);
    st
}

/// The record to write once the runner has been started. `loaded` is what is on
/// disk by then: a runner that has already finished has written its own record,
/// which stays; a record of a running session takes the runner's process id.
pub open spec fn started_record_view(
    loaded: Option<SessionView>,
    id: Seq<char>,
    label: Seq<char>,
    now: u64,
    pid: u32,
) -> SessionView {
    match loaded {
        Some(s) => if terminal(s.status) {
            s
        } else {
            SessionView { pid: Some(pid), ..s }
        },
        None => started_view(id, label, now, pid),
    }
}

/// The record to write once the runner has been started.
pub fn started_record(
    loaded: Option<SessionState>,
    id: &str,
    label: &str,
    now: u64,
    pid: u32,
) -> (r: SessionState)
    ensures
        r@ == started_record_view(
            match loaded {
                Some(s) => Some(s@),
                None => None,
            },
            id@,
            label@,
            now,
            pid,
        ),
{
    match loaded {
        Some(s) => {
            let mut st = s;
            if !st.is_terminal() {
                st.pid = Some(pid);
            }
            st
        },
        None => started_state(id, label, now, pid),
    }
}

/// A start reports a running session, and never undoes the record of a runner
/// that has already finished.
pub proof fn law_start_reports_running(
    loaded: SessionView,
    id: Seq<char>,
    label: Seq<char>,
    now: u64,
    pid: u32,
)
    ensures
        !terminal(started_view(id, label, now, pid).status),
        started_view(id, label, now, pid).pid == Some(pid),
        started_view(id, label, now, pid).finished_at is None,
        started_view(id, label, now, pid).exit_code is None,
        started_view(id, label, now, pid).id == id,
        started_view(id, label, now, pid).label == label,
        started_view(id, label, now, pid).started_at == now,
        started_view(id, label, now, pid).error_class is None,
        !started_view(id, label, now, pid).truncated_log,
        !started_view(id, label, now, pid).truncated,
        started_view(id, label, now, pid).duration_ms == 0,
        started_view(id, label, now, pid).hint is None,
        started_view(id, label, now, pid).encoding.len() == 0,
        started_view(id, label, now, pid).shell_used.len() == 0,
        running_view(id, label, now).pid is None,
        !terminal(loaded.status) ==> started_record_view(Some(loaded), id, label, now, pid).pid
            == Some(pid) && started_record_view(Some(loaded), id, label, now, pid).status
            == loaded.status,
        !terminal(loaded.status) ==> {
            let after = started_record_view(Some(loaded), id, label, now, pid);
            &&& after.id == loaded.id && after.label == loaded.label
            &&& after.started_at == loaded.started_at && after.finished_at == loaded.finished_at
            &&& after.exit_code == loaded.exit_code && after.error_class == loaded.error_class
            &&& after.hint == loaded.hint && after.truncated_log == loaded.truncated_log
        },
        started_record_view(None, id, label, now, pid) == started_view(id, label, now, pid),
        terminal(loaded.status) ==> started_record_view(Some(loaded), id, label, now, pid)
            == loaded,
{
}

// ---------------------------------------------------------------------------
// Running
// ---------------------------------------------------------------------------

/// `spec` is what the runner executes for a record.
pub open spec fn executes(spec: ExecSpec, rec: SessionSpecView) -> bool {
    &&& spec.command@ == rec.command
    &&& spec.kind == ExecKind::Run
    &&& spec.shell == match rec.shell {
        Some(s) => shell_named(lower_ascii(s)),
        None => None,
    }
    &&& opt_text(spec.workdir) == rec.workdir
    &&& pair_texts(spec.env@) == rec.env
    &&& spec.timeout_ms == rec.timeout_ms
    &&& spec.grace_ms == 0
    &&& spec.max_output_bytes == 0
    &&& spec.direct is None
    &&& deep(spec.error_maps@) == Map::<Seq<char>, EntryView>::empty()
}

/// What the runner executes for a record.
pub fn runner_spec(rec: &SessionSpec) -> (r: ExecSpec)
    ensures
        executes(r, rec@),
{
    let mut spec = ExecSpec::default();
    spec.command = rec.command.clone();
    spec.shell = match &rec.shell {
        Some(s) => Shell::from_name(s.as_str()),
        None => None,
    };
    spec.workdir = copy_text(&rec.workdir);
    spec.env = copy_pairs(&rec.env);
    spec.timeout_ms = rec.timeout_ms;
    spec
}

/// What is recorded of a spec is what the runner executes: command, shell,
/// directory, environment and deadline survive.
pub proof fn law_runner_runs_the_spec(spec: ExecSpec, ran: ExecSpec)
    requires
        executes(ran, recorded(spec)),
    ensures
        ran.command@ == spec.command@,
        ran.shell == spec.shell,
        opt_text(ran.workdir) == opt_text(spec.workdir),
        pair_texts(ran.env@) == pair_texts(spec.env@),
        or_default(ran.timeout_ms as int, DEFAULT_TIMEOUT_MS as int) == or_default(
            spec.timeout_ms as int,
            DEFAULT_TIMEOUT_MS as int,
        ),
        spec.timeout_ms > 0 ==> ran.timeout_ms == spec.timeout_ms,
        spec.timeout_ms == 0 ==> ran.timeout_ms == 120_000,
        ran.kind == ExecKind::Run,
        ran.direct is None,
        ran.grace_ms == 0,
        ran.max_output_bytes == 0,
        deep(ran.error_maps@) == Map::<Seq<char>, EntryView>::empty(),
{
    if let Some(s) = spec.shell {
        crate::spec::law_shell_name_roundtrip(s);
    }
}

/// The status of a finished run.
pub open spec fn status_text(r: ResultView) -> Seq<char> {
    if r.timed_out {
        "timed_out"@
    } else if r.aborted {
        "aborted"@
    } else if r.exit_code != Some(0i32) && r.error_class is Some {
        "failed"@
    } else {
        "completed"@
    }
}

/// The status of a finished run.
pub fn status_of(r: &ExecResult) -> (s: String)
    ensures
        s@ == status_text(r@),
{
    if r.timed_out {
        "timed_out".to_string()
    } else if r.aborted {
        "aborted".to_string()
    } else if r.exit_code == Some(0) {
        "completed".to_string()
    } else if r.error_class.is_some() {
        "failed".to_string()
    } else {
        "completed".to_string()
    }
}

/// The record of a finished run: label and start time are those of the earlier
/// record, where it can be read.
pub open spec fn finished_view(
    id: Seq<char>,
    r: ResultView,
    pid: u32,
    now: u64,
    truncated_log: bool,
    prev: Option<SessionView>,
) -> SessionView {
    SessionView {
        id,
        label: match prev {
            Some(p) => p.label,
            None => seq![],
        },
        status: status_text(r),
        pid: Some(pid),
        started_at: match prev {
            Some(p) => p.started_at,
            None => if now >= r.duration_ms {
                (now - r.duration_ms) as u64
            } else {
                0
            },
        },
        finished_at: Some(now),
        exit_code: r.exit_code,
        error_class: r.error_class,
        hint: r.hint,
        truncated: r.truncated,
        truncated_log,
        duration_ms: r.duration_ms,
        encoding: r.encoding,
        shell_used: r.shell_used,
    }
}

/// The record of a finished run.
pub fn finished_state(
    id: &str,
    result: &ExecResult,
    pid: u32,
    now: u64,
    truncated_log: bool,
    prev: &Option<SessionState>,
) -> (r: SessionState)
    ensures
        r@ == finished_view(
            id@,
            result@,
            pid,
            now,
            truncated_log,
            match prev {
                Some(p) => Some(p@),
                None => None,
            },
        ),
{
    let (label, started_at) = match prev {
        Some(p) => (p.label.clone(), p.started_at),
        None => (
            String::new(),
            if now >= result.duration_ms {
                now - result.duration_ms
            } else {
                0
            },
        ),
    };
    SessionState {
        id: id.to_string(),
        label,
        status: status_of(result),
        pid: Some(pid),
        started_at,
        finished_at: Some(now),
        exit_code: result.exit_code,
        error_class: copy_text(&result.error_class),
        hint: copy_text(&result.hint),
        truncated: result.truncated,
        truncated_log,
        duration_ms: result.duration_ms,
        encoding: result.encoding.clone(),
        shell_used: result.shell_used.clone(),
    }
}

/// A run that came to its own end without an error class is recorded as
/// completed, whatever its exit code; `failed` is recorded only where there is a
/// class and no success, and a stop is recorded as what it was.
pub proof fn law_status_says_how_the_run_ended(r: ResultView)
    ensures
        !r.timed_out && !r.aborted && r.error_class is None ==> status_text(r) == "completed"@,
        !r.timed_out && !r.aborted && r.exit_code == Some(0i32) ==> status_text(r) == "completed"@,
        !r.timed_out && !r.aborted && r.exit_code != Some(0i32) && r.error_class is Some
            ==> status_text(r) == "failed"@,
        status_text(r) == "failed"@ ==> r.error_class is Some && !r.timed_out && !r.aborted,
        status_text(r) == "completed"@ ==> !r.timed_out && !r.aborted,
        status_text(r) == "timed_out"@ <==> r.timed_out,
        status_text(r) == "aborted"@ <==> r.aborted && !r.timed_out,
{
    lemma_statuses_differ();
}

proof fn lemma_statuses_differ()
    ensures
        "failed"@ != "completed"@,
        "failed"@ != "timed_out"@,
        "failed"@ != "aborted"@,
        "completed"@ != "timed_out"@,
        "completed"@ != "aborted"@,
        "timed_out"@ != "aborted"@,
{
    reveal_strlit("timed_out");
    reveal_strlit("aborted");
    reveal_strlit("failed");
    reveal_strlit("completed");
    assert("timed_out"@[0] == 't' && "aborted"@[0] == 'a');
    assert("failed"@[0] == 'f' && "completed"@[0] == 'c');
}

/// The record of a finished run says of the run what its result says, and of the
/// session what its earlier record said.
pub proof fn law_record_says_what_the_result_says(
    id: Seq<char>,
    r: ResultView,
    pid: u32,
    now: u64,
    truncated_log: bool,
    prev: Option<SessionView>,
)
    ensures
        ({
            let st = finished_view(id, r, pid, now, truncated_log, prev);
            &&& st.id == id
            &&& st.pid == Some(pid)
            &&& st.finished_at == Some(now)
            &&& st.exit_code == r.exit_code
            &&& st.error_class == r.error_class
            &&& st.hint == r.hint
            &&& st.truncated == r.truncated
            &&& st.truncated_log == truncated_log
            &&& st.duration_ms == r.duration_ms
            &&& st.encoding == r.encoding
            &&& st.shell_used == r.shell_used
            &&& prev matches Some(p) ==> st.label == p.label && st.started_at == p.started_at
            &&& prev is None && now >= r.duration_ms ==> st.started_at + r.duration_ms == now
            &&& prev is None && now < r.duration_ms ==> st.started_at == 0
            &&& prev is None ==> st.label.len() == 0
            &&& r.exit_code == Some(0i32) && !r.timed_out && !r.aborted ==> st.status
                == "completed"@
            &&& r.timed_out ==> st.status == "timed_out"@
        }),
{
}

/// A finished run leaves a terminal record.
pub proof fn law_finished_is_terminal(
    id: Seq<char>,
    r: ResultView,
    pid: u32,
    now: u64,
    truncated_log: bool,
    prev: Option<SessionView>,
)
    ensures
        terminal(finished_view(id, r, pid, now, truncated_log, prev).status),
{
    reveal_strlit("running");
    reveal_strlit("timed_out");
    reveal_strlit("aborted");
    reveal_strlit("failed");
    reveal_strlit("completed");
    assert("running"@[0] == 'r');
    assert("timed_out"@[0] == 't' && "aborted"@[0] == 'a');
    assert("failed"@[0] == 'f' && "completed"@[0] == 'c');
}

// ---------------------------------------------------------------------------
// Logs
// ---------------------------------------------------------------------------

/// The length of a text in UTF-8.
pub open spec fn byte_len(s: Seq<char>) -> nat {
    encode_utf8(s).len()
}

/// The length of a character in UTF-8.
pub open spec fn char_len(c: char) -> nat {
    encode_scalar(c as u32).len()
}

/// How many characters of `s` fit into `room` bytes.
pub open spec fn fitting(s: Seq<char>, room: int) -> nat
    decreases s.len(),
{
    if s.len() == 0 || char_len(s[0]) > room {
        0
    } else {
        1 + fitting(s.drop_first(), room - char_len(s[0]))
    }
}

/// The part of `s` that fits into `room` bytes.
pub open spec fn fitting_part(s: Seq<char>, room: int) -> Seq<char> {
    s.take(fitting(s, room) as int)
}

/// What was written to a log, and whether something did not fit into it.
#[verifier::ext_equal]
pub struct LogView {
    pub written: Seq<char>,
    pub full: bool,
}

/// A log after one more piece of output: as much of it as fits is written, and
/// once something did not fit, nothing more is.
pub open spec fn logged(log: LogView, text: Seq<char>) -> LogView {
    if log.full {
        log
    } else {
        let part = fitting_part(text, LOG_CAP - byte_len(log.written));
        LogView { written: log.written + part, full: part.len() < text.len() }
    }
}

proof fn lemma_fitting(s: Seq<char>, room: int)
    requires
        room >= 0,
    ensures
        fitting(s, room) <= s.len(),
        byte_len(fitting_part(s, room)) <= room,
        fitting(s, room) < s.len() ==> byte_len(s.take(fitting(s, room) as int + 1)) > room,
    decreases s.len(),
{
    if s.len() == 0 || char_len(s[0]) > room {
        assert(s.take(0) =~= Seq::<char>::empty());
        if s.len() > 0 {
            assert(s.take(1) =~= seq![s[0]]);
            lemma_byte_len_one(s[0]);
        }
    } else {
        let rest = s.drop_first();
        let left = room - char_len(s[0]);
        lemma_fitting(rest, left);
        let n = fitting(s, room) as int;
        assert(s.take(n).drop_first() =~= rest.take(n - 1));
        assert(s.take(n)[0] == s[0]);
        if n < s.len() {
            assert(s.take(n + 1).drop_first() =~= rest.take(n));
            assert(s.take(n + 1)[0] == s[0]);
        }
    }
}

proof fn lemma_byte_len_one(c: char)
    ensures
        byte_len(seq![c]) == char_len(c),
{
    let one = seq![c];
    let none = one.drop_first();
    assert(none.len() == 0);
    assert(encode_utf8(none).len() == 0);
    assert(encode_utf8(one) == encode_scalar(one[0] as u32) + encode_utf8(none));
}

proof fn lemma_byte_len_concat(a: Seq<char>, b: Seq<char>)
    ensures
        byte_len(a + b) == byte_len(a) + byte_len(b),
    decreases a.len(),
{
    if a.len() == 0 {
        assert(a + b =~= b);
    } else {
        lemma_byte_len_concat(a.drop_first(), b);
        assert((a + b).drop_first() =~= a.drop_first() + b);
    }
}

/// The length of a character in UTF-8.
fn char_size(c: char) -> (r: u64)
    ensures
        r == char_len(c),
        1 <= r <= 4,
{
    let u = c as u32;
    if u < 0x80 {
        1
    } else if u < 0x800 {
        2
    } else if u < 0x10000 {
        3
    } else {
        4
    }
}

/// The log of one stream. Beyond the cap nothing is appended.
pub struct StreamLog {
    bytes: u64,
    full: bool,
    written: Ghost<Seq<char>>,
}

impl View for StreamLog {
    type V = LogView;

    closed spec fn view(&self) -> LogView {
        LogView { written: self.written@, full: self.full }
    }
}

impl StreamLog {
    #[verifier::type_invariant]
    spec fn inv(&self) -> bool {
        &&& self.bytes == byte_len(self.written@)
        &&& self.bytes <= LOG_CAP
    }

    /// An empty log.
    pub fn new() -> (r: StreamLog)
        ensures
            r@ == (LogView { written: seq![], full: false }),
    {
        StreamLog { bytes: 0, full: false, written: Ghost(Seq::empty()) }
    }

    /// Whether something did not fit into the log, which then takes no more.
    pub fn is_full(&self) -> (r: bool)
        ensures
            r == self@.full,
    {
        self.full
    }

    /// Take in a piece of output, and say what to append to the file.
    pub fn push(&mut self, text: &str) -> (r: String)
        ensures
            final(self)@ == logged(old(self)@, text@),
            final(self)@.written == old(self)@.written + r@,
    {
        proof {
            use_type_invariant(&*self);
        }
        let ghost before = self.written@;
        if self.full {
            let r = String::new();
            proof {
                assert(before + r@ =~= before);
            }
            return r;
        }
        let v = chars_of(text);
        let room: u64 = LOG_CAP - self.bytes;
        let mut used: u64 = 0;
        let mut i: usize = 0;
        proof {
            assert(v@.skip(0) =~= v@);
            assert(encode_utf8(v@.take(0)) =~= Seq::<u8>::empty());
        }
        while i < v.len() && char_size(v[i]) <= room - used
            invariant
                i <= v.len(),
                used <= room,
                room <= LOG_CAP,
                fitting(v@, room as int) == i + fitting(v@.skip(i as int), room - used),
                used == byte_len(v@.take(i as int)),
            decreases v.len() - i,
        {
            let c = v[i];
            proof {
                let rest = v@.skip(i as int);
                assert(rest[0] == c);
                assert(rest.drop_first() =~= v@.skip(i + 1));
                let one = seq![c];
                assert(v@.take(i + 1) =~= v@.take(i as int) + one);
                lemma_byte_len_concat(v@.take(i as int), one);
                lemma_byte_len_one(c);
            }
            used = used + char_size(c);
            i += 1;
        }
        let part = text_of(&v, 0, i);
        proof {
            assert(fitting(v@.skip(i as int), room - used) == 0) by {
                if i < v@.len() {
                    assert(v@.skip(i as int)[0] == v@[i as int]);
                }
            }
            assert(part@ =~= fitting_part(text@, room as int));
            assert(part@ =~= v@.take(i as int));
            lemma_byte_len_concat(before, part@);
        }
        let bytes: u64 = self.bytes + used;
        let full = i < v.len();
        *self = StreamLog { bytes, full, written: Ghost(before + part@) };
        part
    }
}

/// The logs of a session.
pub struct LogSink {
    pub stdout: StreamLog,
    pub stderr: StreamLog,
}

impl LogSink {
    /// Two empty logs.
    pub fn new() -> (r: LogSink)
        ensures
            r.stdout@ == (LogView { written: seq![], full: false }),
            r.stderr@ == (LogView { written: seq![], full: false }),
    {
        LogSink { stdout: StreamLog::new(), stderr: StreamLog::new() }
    }

    /// Take in a piece of output, and say what to append to its stream's file.
    pub fn push(&mut self, stream: StreamKind, text: &str) -> (r: String)
        ensures
            stream == StreamKind::Stdout ==> final(self).stdout@ == logged(
                old(self).stdout@,
                text@,
            ) && final(self).stderr@ == old(self).stderr@ && final(self).stdout@.written == old(
                self,
            ).stdout@.written + r@,
            stream == StreamKind::Stderr ==> final(self).stderr@ == logged(
                old(self).stderr@,
                text@,
            ) && final(self).stdout@ == old(self).stdout@ && final(self).stderr@.written == old(
                self,
            ).stderr@.written + r@,
    {
        match stream {
            StreamKind::Stdout => self.stdout.push(text),
            StreamKind::Stderr => self.stderr.push(text),
        }
    }

    /// Whether some output was left out of a log.
    pub fn truncated(&self) -> (r: bool)
        ensures
            r == (self.stdout@.full || self.stderr@.full),
    {
        self.stdout.is_full() || self.stderr.is_full()
    }
}

/// A log after many pieces of output.
pub open spec fn logged_all(log: LogView, pieces: Seq<Seq<char>>) -> LogView
    decreases pieces.len(),
{
    if pieces.len() == 0 {
        log
    } else {
        logged(logged_all(log, pieces.drop_last()), pieces.last())
    }
}

/// The pieces in order, as one text.
pub open spec fn concatenated(pieces: Seq<Seq<char>>) -> Seq<char>
    decreases pieces.len(),
{
    if pieces.len() == 0 {
        seq![]
    } else {
        concatenated(pieces.drop_last()) + pieces.last()
    }
}

/// A log never grows beyond its cap, is always the beginning of the output, and
/// is called full exactly if some of the output is missing; then not one character
/// more would have fitted.
pub proof fn law_log_is_capped(pieces: Seq<Seq<char>>)
    ensures
        ({
            let log = logged_all(LogView { written: seq![], full: false }, pieces);
            &&& byte_len(log.written) <= 1_048_576
            &&& log.written.is_prefix_of(concatenated(pieces))
            &&& log.full <==> log.written != concatenated(pieces)
            &&& log.full ==> log.written.len() < concatenated(pieces).len()
            &&& log.full ==> byte_len(concatenated(pieces).take(log.written.len() as int + 1))
                > 1_048_576
        }),
    decreases pieces.len(),
{
    let empty = LogView { written: seq![], full: false };
    if pieces.len() == 0 {
        assert(encode_utf8(Seq::<char>::empty()).len() == 0);
        assert(empty.written =~= concatenated(pieces));
        assert(empty.written =~= concatenated(pieces).subrange(0, 0));
    } else {
        let front = pieces.drop_last();
        law_log_is_capped(front);
        let before = logged_all(empty, front);
        let text = pieces.last();
        let all = concatenated(front);
        let after = logged(before, text);
        if before.full {
            assert((all + text).subrange(0, before.written.len() as int) =~= all.subrange(
                0,
                before.written.len() as int,
            ));
            assert((all + text).take(before.written.len() as int + 1) =~= all.take(
                before.written.len() as int + 1,
            ));
        } else {
            let room = LOG_CAP - byte_len(before.written);
            lemma_fitting(text, room);
            let part = fitting_part(text, room);
            lemma_byte_len_concat(before.written, part);
            assert(after.written =~= (all + text).subrange(0, after.written.len() as int));
            if part.len() == text.len() {
                assert(part =~= text);
            } else {
                let n = part.len() as int;
                assert((all + text).take(after.written.len() as int + 1) =~= before.written
                    + text.take(n + 1));
                lemma_byte_len_concat(before.written, text.take(n + 1));
            }
        }
    }
}

/// Where a tail of at most `n` bytes starts: after a continuation byte it
/// starts later.
pub open spec fn tail_start(bytes: Seq<u8>, from: int) -> int
    decreases bytes.len() - from,
{
    if 0 <= from < bytes.len() && continues(bytes[from]) {
        tail_start(bytes, from + 1)
    } else {
        from
    }
}

/// The last `n` bytes, without the end of a character that starts before them.
pub open spec fn tail_bytes(bytes: Seq<u8>, n: int) -> Seq<u8> {
    if bytes.len() <= n {
        bytes
    } else {
        bytes.skip(tail_start(bytes, bytes.len() - n))
    }
}

proof fn lemma_tail_start(bytes: Seq<u8>, from: int)
    requires
        0 <= from <= bytes.len(),
    ensures
        from <= tail_start(bytes, from) <= bytes.len(),
        tail_start(bytes, from) < bytes.len() ==> !continues(bytes[tail_start(bytes, from)]),
    decreases bytes.len() - from,
{
    if from < bytes.len() && continues(bytes[from]) {
        lemma_tail_start(bytes, from + 1);
    }
}

/// Within three bytes of any place in valid UTF-8 a character starts, or the text
/// ends.
proof fn lemma_boundary_is_near(bytes: Seq<u8>, from: int) -> (k: int)
    requires
        valid_utf8(bytes),
        0 <= from <= bytes.len(),
    ensures
        from <= k <= from + 3,
        k <= bytes.len(),
        k < bytes.len() ==> !continues(bytes[k]),
    decreases bytes.len(),
{
    if from == bytes.len() {
        from
    } else {
        let w = vstd::utf8::length_of_first_scalar(bytes);
        reveal_with_fuel(valid_utf8, 2);
        let rest = vstd::utf8::pop_first_scalar(bytes);
        assert(rest =~= bytes.skip(w));
        assert(vstd::utf8::valid_first_scalar(bytes));
        if from == 0 {
            assert(!continues(bytes[0]));
            0
        } else if from < w {
            if w < bytes.len() {
                assert(vstd::utf8::valid_first_scalar(rest));
                assert(!continues(rest[0]));
                assert(bytes[w] == rest[0]);
            }
            w
        } else {
            let k = lemma_boundary_is_near(rest, from - w);
            if k < rest.len() {
                assert(bytes[k + w] == rest[k]);
            }
            k + w
        }
    }
}

proof fn lemma_tail_start_is_near(bytes: Seq<u8>, from: int, k: int)
    requires
        0 <= from <= k <= bytes.len(),
        k < bytes.len() ==> !continues(bytes[k]),
    ensures
        tail_start(bytes, from) <= k,
    decreases k - from,
{
    if from < k && continues(bytes[from]) {
        lemma_tail_start_is_near(bytes, from + 1, k);
    }
}

/// As much of a log is shown as was asked for: all of it where it is no longer
/// than that, else no more than three bytes less, which a character that was cut
/// would take.
pub proof fn law_tail_is_as_long_as_asked(bytes: Seq<u8>, n: int)
    requires
        n >= 0,
        valid_utf8(bytes),
    ensures
        bytes.len() <= n ==> tail_bytes(bytes, n) == bytes,
        bytes.len() > n ==> tail_bytes(bytes, n).len() >= n - 3,
{
    if bytes.len() > n {
        let from = bytes.len() - n;
        let k = lemma_boundary_is_near(bytes, from);
        lemma_tail_start_is_near(bytes, from, k);
        lemma_tail_start(bytes, from);
    }
}

/// The tail of a log is whole characters: it is never longer than asked for,
/// and it decodes to the end of the log's text.
pub proof fn law_tail_is_whole(bytes: Seq<u8>, n: int)
    requires
        n >= 0,
        valid_utf8(bytes),
    ensures
        tail_bytes(bytes, n).len() <= n,
        valid_utf8(tail_bytes(bytes, n)),
        decode_utf8(tail_bytes(bytes, n)).is_suffix_of(decode_utf8(bytes)),
{
    if bytes.len() > n {
        let from = bytes.len() - n;
        lemma_tail_start(bytes, from);
        let k = tail_start(bytes, from);
        assert(vstd::utf8::is_char_boundary(bytes, k)) by {
            if k < bytes.len() {
                vstd::utf8::is_char_boundary_iff_not_is_continuation_byte(bytes, k);
            } else {
                vstd::utf8::is_char_boundary_start_end_of_seq(bytes);
            }
        }
        vstd::utf8::valid_utf8_split(bytes, k);
        vstd::utf8::decode_utf8_split(bytes, k);
        assert(bytes.skip(k) =~= bytes.subrange(k, bytes.len() as int));
        let whole = decode_utf8(bytes);
        let end = decode_utf8(bytes.skip(k));
        assert(end =~= whole.subrange(whole.len() - end.len(), whole.len() as int));
    } else {
        let whole = decode_utf8(bytes);
        assert(whole =~= whole.subrange(0, whole.len() as int));
    }
}

/// What is shown of a log file, `n` bytes at most.
pub open spec fn shown_tail(file: Option<Vec<u8>>, n: int) -> Seq<char> {
    match file {
        Some(bytes) => if valid_utf8(bytes@) {
            decode_utf8(tail_bytes(bytes@, n))
        } else {
            utf8_lossy(tail_bytes(bytes@, n))
        },
        None => seq![],
    }
}

/// What was written to a log is read back: all of it where it is no longer than
/// was asked for, else as much of its end.
pub proof fn law_log_is_read_back(file: Vec<u8>, written: Seq<char>, n: int)
    requires
        n >= 0,
        file@ == encode_utf8(written),
    ensures
        byte_len(written) <= n ==> shown_tail(Some(file), n) == written,
        byte_len(written) > n ==> shown_tail(Some(file), n).is_suffix_of(written) && byte_len(
            shown_tail(Some(file), n),
        ) >= n - 3,
        byte_len(shown_tail(Some(file), n)) <= n,
        shown_tail(None, n).len() == 0,
{
    vstd::utf8::encode_utf8_decode_utf8(written);
    vstd::utf8::encode_utf8_valid_utf8(written);
    law_tail_is_whole(file@, n);
    law_tail_is_as_long_as_asked(file@, n);
    vstd::utf8::decode_utf8_encode_utf8(tail_bytes(file@, n));
}

/// The end of a log file, `n` bytes at most, starting with a whole character.
/// A file that could not be read has none.
pub fn read_tail(file: &Option<Vec<u8>>, n: usize) -> (r: String)
    ensures
        match file {
            Some(bytes) => r@ == utf8_lossy(tail_bytes(bytes@, n as int)) && (valid_utf8(bytes@)
                ==> r@ == decode_utf8(tail_bytes(bytes@, n as int))),
            None => r@.len() == 0,
        },
        r@ == shown_tail(*file, n as int),
{
    let bytes = match file {
        Some(b) => b,
        None => {
            return String::new();
        },
    };
    proof {
        if valid_utf8(bytes@) {
            law_tail_is_whole(bytes@, n as int);
        }
    }
    if bytes.len() <= n {
        return from_utf8_lossy(bytes.as_slice());
    }
    let mut start: usize = bytes.len() - n;
    while start < bytes.len() && 0x80 <= bytes[start] && bytes[start] < 0xC0
        invariant
            start <= bytes.len(),
            n < bytes.len(),
            tail_start(bytes@, bytes@.len() - n) == tail_start(bytes@, start as int),
        decreases bytes.len() - start,
    {
        start += 1;
    }
    let tail = vstd::slice::slice_subrange(bytes.as_slice(), start, bytes.len());
    proof {
        assert(tail@ =~= tail_bytes(bytes@, n as int));
    }
    from_utf8_lossy(tail)
}

/// The ends of both logs of a session, and whether some output is missing from
/// a log.
pub fn output(
    st: &SessionState,
    stdout: &Option<Vec<u8>>,
    stderr: &Option<Vec<u8>>,
    tail: usize,
) -> (r: (String, String, bool))
    ensures
        r.0@ == match stdout {
            Some(b) => utf8_lossy(tail_bytes(b@, tail as int)),
            None => seq![],
        },
        r.1@ == match stderr {
            Some(b) => utf8_lossy(tail_bytes(b@, tail as int)),
            None => seq![],
        },
        stdout matches Some(b) ==> valid_utf8(b@) ==> r.0@ == decode_utf8(
            tail_bytes(b@, tail as int),
        ),
        stderr matches Some(b) ==> valid_utf8(b@) ==> r.1@ == decode_utf8(
            tail_bytes(b@, tail as int),
        ),
        r.2 == st.truncated_log,
        r.0@ == shown_tail(*stdout, tail as int),
        r.1@ == shown_tail(*stderr, tail as int),
{
    let so = read_tail(stdout, tail);
    let se = read_tail(stderr, tail);
    proof {
        if stdout is None {
            assert(so@ =~= Seq::<char>::empty());
        }
        if stderr is None {
            assert(se@ =~= Seq::<char>::empty());
        }
    }
    (so, se, st.truncated_log)
}

// ---------------------------------------------------------------------------
// Looking, killing, waiting
// ---------------------------------------------------------------------------

/// A record as it is reported: one that says the session runs while its runner
/// is gone says that it was interrupted.
pub open spec fn refreshed(st: SessionView, alive: bool, now: u64) -> SessionView {
    if !terminal(st.status) && st.pid is Some && !alive {
        SessionView { status: "interrupted"@, finished_at: Some(now), ..st }
    } else {
        st
    }
}

/// The current state of a session, and whether its record has to be written
/// anew. `alive` says whether the process in the record lives.
pub fn status(st: SessionState, alive: bool, now: u64) -> (r: (SessionState, bool))
    ensures
        r.0@ == refreshed(st@, alive, now),
        r.1 == (!terminal(st.status@) && st.pid is Some && !alive),
{
    let mut st = st;
    if !st.is_terminal() && st.pid.is_some() && !alive {
        st.status = "interrupted".to_string();
        st.finished_at = Some(now);
        (st, true)
    } else {
        (st, false)
    }
}

/// What a kill does about a session.
#[derive(Debug, Clone, Copy, PartialEq, Eq, Structural)]
pub enum KillPlan {
    /// The session is over: its state is the answer.
    Over,
    /// There is no process to end.
    NoPid,
    /// End this process.
    End(u32),
}

/// Every session has a directory of its own name, all of them side by side in the
/// home directory.
pub proof fn law_sessions_lie_side_by_side(home: Seq<char>, id: Seq<char>, windows: bool)
    requires
        is_rooted_plainly(home, windows),
        is_single_name(id),
    ensures
        ({
            let dir = joined(sessions_path(home, windows), id, windows);
            &&& components(dir, windows) == components(home, windows).push("sessions"@).push(id)
            &&& file_name(dir, windows) == Some(id)
            &&& lies_in(dir, sessions_path(home, windows), windows)
        }),
{
    reveal_strlit("sessions");
    assert("sessions"@.len() == 8);
    law_joined_lies_inside(home, "sessions"@, windows);
    law_joined_lies_inside(sessions_path(home, windows), id, windows);
}

/// What a kill does about a session.
pub open spec fn planned_kill(st: SessionView) -> KillPlan {
    if terminal(st.status) {
        KillPlan::Over
    } else {
        match st.pid {
            Some(pid) => KillPlan::End(pid),
            None => KillPlan::NoPid,
        }
    }
}

/// A kill ends the process of a session that is running, and no other.
pub proof fn law_kill_ends_what_runs(st: SessionView)
    ensures
        planned_kill(st) matches KillPlan::End(pid) ==> st.status == "running"@ && st.pid == Some(
            pid,
        ),
        st.status == "running"@ && st.pid is Some ==> planned_kill(st) is End,
        st.status == "running"@ && st.pid is None ==> planned_kill(st) is NoPid,
        st.status != "running"@ ==> planned_kill(st) is Over,
{
}

/// Decide what a kill does about a session.
pub fn kill_plan(st: &SessionState) -> (r: KillPlan)
    ensures
        r == planned_kill(st@),
        r == (if terminal(st.status@) {
            KillPlan::Over
        } else {
            match st.pid {
                Some(pid) => KillPlan::End(pid),
                None => KillPlan::NoPid,
            }
        }),
{
    if st.is_terminal() {
        KillPlan::Over
    } else {
        match st.pid {
            Some(pid) => KillPlan::End(pid),
            None => KillPlan::NoPid,
        }
    }
}

/// What to do while waiting for a session's state.
#[derive(Debug, Clone, Copy, PartialEq, Eq, Structural)]
pub enum WaitStep {
    /// The state at hand is the answer.
    Answer,
    /// The time is over.
    GiveUp,
    /// Look again after so many milliseconds.
    Sleep(u64),
}

/// What to do while a kill waits for the runner to record how it ended.
pub open spec fn kill_wait(over: bool, elapsed_ms: u64) -> WaitStep {
    if over {
        WaitStep::Answer
    } else if elapsed_ms >= KILL_WAIT_MS {
        WaitStep::GiveUp
    } else {
        WaitStep::Sleep(KILL_SLEEP_MS)
    }
}

/// What to do while waiting for a session to end.
pub open spec fn end_wait(st: SessionView, elapsed_ms: u64, timeout_ms: u64) -> WaitStep {
    if terminal(st.status) || elapsed_ms >= timeout_ms {
        WaitStep::Answer
    } else {
        WaitStep::Sleep(WAIT_SLEEP_MS)
    }
}

/// A session that is over is answered at once. One that is running is waited for
/// as long as the caller said, and after a kill for three seconds, with a pause
/// between two looks.
pub proof fn law_waiting_has_an_end(st: SessionView, elapsed_ms: u64, timeout_ms: u64)
    ensures
        st.status != "running"@ ==> end_wait(st, elapsed_ms, timeout_ms) is Answer,
        elapsed_ms >= timeout_ms ==> end_wait(st, elapsed_ms, timeout_ms) is Answer,
        st.status == "running"@ && elapsed_ms < timeout_ms ==> (end_wait(
            st,
            elapsed_ms,
            timeout_ms,
        ) matches WaitStep::Sleep(ms) && ms > 0),
        kill_wait(true, elapsed_ms) is Answer,
        elapsed_ms >= 3_000 ==> kill_wait(false, elapsed_ms) is GiveUp,
        elapsed_ms < 3_000 ==> (kill_wait(false, elapsed_ms) matches WaitStep::Sleep(ms) && ms > 0),
{
}

/// Decide what to do while a kill waits for the runner to record how it ended.
/// `over` says whether the record on disk is readable and terminal.
pub fn kill_step(over: bool, elapsed_ms: u64) -> (r: WaitStep)
    ensures
        r == kill_wait(over, elapsed_ms),
        r == (if over {
            WaitStep::Answer
        } else if elapsed_ms >= KILL_WAIT_MS {
            WaitStep::GiveUp
        } else {
            WaitStep::Sleep(KILL_SLEEP_MS)
        }),
{
    if over {
        WaitStep::Answer
    } else if elapsed_ms >= KILL_WAIT_MS {
        WaitStep::GiveUp
    } else {
        WaitStep::Sleep(KILL_SLEEP_MS)
    }
}

/// The record of a session that was killed.
pub open spec fn killed_view(st: SessionView, now: u64) -> SessionView {
    SessionView { status: "killed"@, finished_at: Some(now), ..st }
}

/// A killed session is over, at the time of the kill, and otherwise as it was.
pub proof fn law_killed_session_is_recorded(st: SessionView, now: u64)
    ensures
        ({
            let after = killed_view(st, now);
            &&& after.status == "killed"@
            &&& after.finished_at == Some(now)
            &&& after.id == st.id && after.label == st.label && after.pid == st.pid
            &&& after.started_at == st.started_at && after.exit_code == st.exit_code
            &&& after.error_class == st.error_class && after.truncated_log == st.truncated_log
        }),
{
}

/// The record of a session whose runner did not record in time how it ended.
pub fn killed_state(st: SessionState, now: u64) -> (r: SessionState)
    ensures
        r@ == killed_view(st@, now),
        r@ == (SessionView { status: "killed"@, finished_at: Some(now), ..st@ }),
{
    let mut st = st;
    st.status = "killed".to_string();
    st.finished_at = Some(now);
    st
}

/// Decide what to do while waiting for a session to end: a terminal state is
/// the answer, and so is any state once the time is over.
pub fn wait_step(st: &SessionState, elapsed_ms: u64, timeout_ms: u64) -> (r: WaitStep)
    ensures
        r == end_wait(st@, elapsed_ms, timeout_ms),
        r == (if terminal(st.status@) || elapsed_ms >= timeout_ms {
            WaitStep::Answer
        } else {
            WaitStep::Sleep(WAIT_SLEEP_MS)
        }),
{
    if st.is_terminal() || elapsed_ms >= timeout_ms {
        WaitStep::Answer
    } else {
        WaitStep::Sleep(WAIT_SLEEP_MS)
    }
}

/// A kill always leaves a terminal state: that of the runner, or one that says
/// so.
pub proof fn law_killed_is_terminal(st: SessionView, now: u64)
    ensures
        terminal((SessionView { status: "killed"@, finished_at: Some(now), ..st }).status),
        terminal((SessionView { status: "interrupted"@, finished_at: Some(now), ..st }).status),
{
    reveal_strlit("running");
    reveal_strlit("killed");
    reveal_strlit("interrupted");
    assert("running"@[0] == 'r' && "killed"@[0] == 'k' && "interrupted"@[0] == 'i');
}

/// A session that says it runs is reported as it is while its runner lives, and
/// as interrupted once the runner is gone; nothing else of its record changes.
pub proof fn law_lost_runner_is_an_interruption(st: SessionView, alive: bool, now: u64)
    requires
        st.status == "running"@,
    ensures
        alive ==> refreshed(st, alive, now) == st,
        st.pid is None ==> refreshed(st, alive, now) == st,
        !alive && st.pid is Some ==> {
            let after = refreshed(st, alive, now);
            &&& after.status == "interrupted"@
            &&& after.finished_at == Some(now)
            &&& after.id == st.id && after.label == st.label && after.pid == st.pid
            &&& after.started_at == st.started_at && after.exit_code == st.exit_code
            &&& after.error_class == st.error_class && after.truncated_log == st.truncated_log
        },
{
}

/// A session is over exactly if its status is not `running`.
pub proof fn law_only_running_sessions_go_on(status: Seq<char>)
    ensures
        terminal(status) <==> status != "running"@,
{
}

/// A terminal state is never reported as anything else.
pub proof fn law_terminal_state_stays(st: SessionView, alive: bool, now: u64)
    requires
        terminal(st.status),
    ensures
        refreshed(st, alive, now) == st,
{
}

/// What is said of a session that cannot be found.
pub fn missing_session(id: &str, error: &str) -> (r: String)
    ensures
        r@ == "no such session `"@ + id@ + "`: "@ + error@,
{
    let mut s = "no such session `".to_string();
    s.append(id);
    s.append("`: ");
    s.append(error);
    s
}

/// What is said of a session whose record cannot be read.
pub fn corrupt_session(id: &str, error: &str) -> (r: String)
    ensures
        r@ == "session `"@ + id@ + "` state corrupt: "@ + error@,
{
    let mut s = "session `".to_string();
    s.append(id);
    s.append("` state corrupt: ");
    s.append(error);
    s
}

// ---------------------------------------------------------------------------
// Listing
// ---------------------------------------------------------------------------

/// How many sessions at the front started after `t`.
pub open spec fn later(l: Seq<SessionState>, t: u64) -> nat
    decreases l.len(),
{
    if l.len() > 0 && l[0].started_at > t {
        1 + later(l.drop_first(), t)
    } else {
        0
    }
}

/// Sessions ordered by their start, the newest first; those that started
/// together stay in their order.
pub open spec fn newest_first(s: Seq<SessionState>) -> Seq<SessionState>
    decreases s.len(),
{
    if s.len() == 0 {
        s
    } else {
        let rest = newest_first(s.drop_first());
        rest.insert(later(rest, s[0].started_at) as int, s[0])
    }
}

/// The sessions in an order, newest first.
pub open spec fn is_newest_first(l: Seq<SessionState>) -> bool {
    forall|i: int, j: int|
        0 <= i < j < l.len() ==> (#[trigger] l[i]).started_at >= (#[trigger] l[j]).started_at
}

proof fn lemma_later(l: Seq<SessionState>, t: u64)
    ensures
        later(l, t) <= l.len(),
        forall|i: int| 0 <= i < later(l, t) ==> (#[trigger] l[i]).started_at > t,
        later(l, t) < l.len() ==> l[later(l, t) as int].started_at <= t,
    decreases l.len(),
{
    if l.len() > 0 && l[0].started_at > t {
        let rest = l.drop_first();
        lemma_later(rest, t);
        assert forall|i: int| 0 <= i < later(l, t) implies (#[trigger] l[i]).started_at > t by {
            if i > 0 {
                assert(l[i] == rest[i - 1]);
            }
        }
        if later(l, t) < l.len() {
            assert(l[later(l, t) as int] == rest[later(rest, t) as int]);
        }
    }
}

proof fn lemma_newest_first_len(s: Seq<SessionState>)
    ensures
        newest_first(s).len() == s.len(),
    decreases s.len(),
{
    if s.len() > 0 {
        lemma_newest_first_len(s.drop_first());
        lemma_later(newest_first(s.drop_first()), s[0].started_at);
    }
}

/// A list of sessions is ordered by start, the newest first.
pub proof fn law_list_is_ordered(s: Seq<SessionState>)
    ensures
        is_newest_first(newest_first(s)),
    decreases s.len(),
{
    if s.len() > 0 {
        let rest = newest_first(s.drop_first());
        law_list_is_ordered(s.drop_first());
        let x = s[0];
        let k = later(rest, x.started_at) as int;
        lemma_later(rest, x.started_at);
        let r = rest.insert(k, x);
        assert forall|i: int, j: int| 0 <= i < j < r.len() implies (#[trigger] r[i]).started_at >= (
        #[trigger] r[j]).started_at by {
            let pi = if i < k {
                i
            } else {
                i - 1
            };
            let pj = if j < k {
                j
            } else {
                j - 1
            };
            if i != k {
                assert(r[i] == rest[pi]);
            }
            if j != k {
                assert(r[j] == rest[pj]);
            }
            if i == k && k < rest.len() {
                assert(rest[k].started_at <= x.started_at);
                if pj > k {
                    assert(rest[k].started_at >= rest[pj].started_at);
                }
            }
        }
    }
}

/// A list of sessions holds every session, once, and those that started
/// together stay in their order.
pub proof fn law_list_is_stable(s: Seq<SessionState>, t: u64)
    ensures
        newest_first(s).filter(|x: SessionState| x.started_at == t) == s.filter(
            |x: SessionState| x.started_at == t,
        ),
    decreases s.len(),
{
    let p = |x: SessionState| x.started_at == t;
    if s.len() > 0 {
        let rest = newest_first(s.drop_first());
        law_list_is_stable(s.drop_first(), t);
        let x = s[0];
        let k = later(rest, x.started_at) as int;
        lemma_later(rest, x.started_at);
        let a = rest.take(k);
        let b = rest.skip(k);
        assert(rest =~= a + b);
        assert(rest.insert(k, x) =~= a + (seq![x] + b));
        assert(s =~= seq![x] + s.drop_first());
        Seq::filter_distributes_over_add(a, b, p);
        Seq::filter_distributes_over_add(a, seq![x] + b, p);
        Seq::filter_distributes_over_add(seq![x], b, p);
        Seq::filter_distributes_over_add(seq![x], s.drop_first(), p);
        assert(rest.filter(p) == s.drop_first().filter(p));
        if x.started_at == t {
            // What stands before the new entry started later.
            a.lemma_filter_len(p);
            assert(a.filter(p) =~= Seq::<SessionState>::empty()) by {
                if a.filter(p).len() > 0 {
                    lemma_filter_member(a, p);
                }
            }
            assert(newest_first(s).filter(p) =~= seq![x].filter(p) + b.filter(p));
        } else {
            assert(seq![x].filter(p) =~= Seq::<SessionState>::empty()) by {
                if seq![x].filter(p).len() > 0 {
                    lemma_filter_member(seq![x], p);
                }
            }
            assert(newest_first(s).filter(p) =~= a.filter(p) + b.filter(p));
            assert(s.filter(p) =~= s.drop_first().filter(p));
        }
    }
}

/// What a filter keeps satisfies it, and was there.
proof fn lemma_filter_member(l: Seq<SessionState>, p: spec_fn(SessionState) -> bool)
    requires
        l.filter(p).len() > 0,
    ensures
        exists|i: int| 0 <= i < l.len() && p(#[trigger] l[i]),
    decreases l.len(),
{
    reveal(Seq::filter);
    if l.len() > 0 {
        if p(l.last()) {
            assert(p(l[l.len() - 1]));
        } else {
            lemma_filter_member(l.drop_last(), p);
            let i = choose|i: int| 0 <= i < l.drop_last().len() && p(#[trigger] l.drop_last()[i]);
            assert(l[i] == l.drop_last()[i]);
        }
    }
}

/// Order sessions by their start, the newest first.
pub fn list(found: Vec<SessionState>) -> (r: Vec<SessionState>)
    ensures
        r@ == newest_first(found@),
{
    let mut left = found;
    let ghost all = left@;
    let mut out: Vec<SessionState> = Vec::new();
    proof {
        assert(all.skip(all.len() as int) =~= Seq::<SessionState>::empty());
        assert(all.take(all.len() as int) =~= all);
    }
    while left.len() > 0
        invariant
            left@.len() <= all.len(),
            left@ == all.take(left@.len() as int),
            out@ == newest_first(all.skip(left@.len() as int)),
        decreases left.len(),
    {
        let ghost n = left@.len() as int;
        let x = left.pop().unwrap();
        let mut k: usize = 0;
        proof {
            assert(out@.skip(0) =~= out@);
        }
        while k < out.len() && out[k].started_at > x.started_at
            invariant
                k <= out.len(),
                later(out@, x.started_at) == k + later(out@.skip(k as int), x.started_at),
            decreases out.len() - k,
        {
            proof {
                assert(out@.skip(k as int)[0] == out@[k as int]);
                assert(out@.skip(k as int).drop_first() =~= out@.skip(k + 1));
            }
            k += 1;
        }
        proof {
            let s = all.skip(n - 1);
            assert(s[0] == x);
            assert(s.drop_first() =~= all.skip(n));
            if k < out@.len() {
                assert(out@.skip(k as int)[0] == out@[k as int]);
            }
            assert(later(out@, x.started_at) == k);
            assert(left@ =~= all.take(n - 1));
        }
        out.insert(k, x);
    }
    proof {
        assert(all.skip(0) =~= all);
    }
    out
}

} // verus!

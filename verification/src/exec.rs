//! Execution engine: what is launched, when it is stopped, what is kept of its
//! output, and the normalized result.
//!
//! Starting a process, reading its pipes and signalling it are left to the
//! caller, who asks here what to do next and reports what happened.

use vstd::prelude::*;
use vstd::utf8::{decode_utf8, valid_utf8};

use crate::encoding::{decode, decoded, from_utf8_lossy, law_decode_utf8, utf8_lossy};
use crate::error_maps::ascii_keys;
use crate::number::{decimal, format_u64};
use crate::recipe::{EntryView, ErrorMapEntry};
use crate::spec::{
    copy_pairs, or_default, pair_texts, shell_name, ExecResult, ExecSpec, ResultView, Shell,
    DEFAULT_GRACE_MS, DEFAULT_MAX_OUTPUT_BYTES, DEFAULT_TIMEOUT_MS,
};
use crate::taxonomy::{ascii_class_with, class_with, classify_with, silent_exit};
use crate::text::{all_ascii, copy_text, copy_texts, opt_text, texts};
use crate::textmap::{deep, TextMap};

verus! {

broadcast use vstd::seq::group_seq_axioms;

// ---------------------------------------------------------------------------
// Launching
// ---------------------------------------------------------------------------

/// The shell of a run that names none.
pub open spec fn posix_shell(bash_on_path: bool) -> Shell {
    if bash_on_path {
        Shell::Bash
    } else {
        Shell::Sh
    }
}

/// The shell that runs a spec.
pub open spec fn resolved_shell(spec: ExecSpec, bash_on_path: bool) -> Shell {
    match spec.shell {
        Some(s) => s,
        None => posix_shell(bash_on_path),
    }
}

/// The argv that hands a command to a shell.
pub open spec fn shell_words(shell: Shell, command: Seq<char>) -> Seq<Seq<char>> {
    match shell {
        Shell::Bash | Shell::Sh | Shell::Zsh => seq![shell_name(shell), "-c"@, command],
        Shell::Pwsh | Shell::Powershell => seq![
            shell_name(shell),
            "-NoProfile"@,
            "-Command"@,
            command,
        ],
        Shell::Cmd => seq![shell_name(shell), "/C"@, command],
    }
}

/// The default POSIX shell: `bash` where it is on PATH, else `sh`.
pub fn default_posix_shell(bash_on_path: bool) -> (r: Shell)
    ensures
        r == posix_shell(bash_on_path),
{
    if bash_on_path {
        Shell::Bash
    } else {
        Shell::Sh
    }
}

/// Resolve which shell to use: an explicit one wins.
pub fn resolve_shell(spec: &ExecSpec, bash_on_path: bool) -> (r: Shell)
    ensures
        r == resolved_shell(*spec, bash_on_path),
{
    match spec.shell {
        Some(s) => s,
        None => default_posix_shell(bash_on_path),
    }
}

/// Build the exact argv handed to the system, without string interpolation.
pub fn shell_argv(shell: Shell, spec: &ExecSpec) -> (r: Vec<String>)
    ensures
        texts(r@) == shell_words(shell, spec.command@),
{
    let r = match shell {
        Shell::Bash | Shell::Sh | Shell::Zsh => vec![
            shell.as_str().to_string(),
            "-c".to_string(),
            spec.command.clone(),
        ],
        Shell::Pwsh | Shell::Powershell => vec![
            shell.as_str().to_string(),
            "-NoProfile".to_string(),
            "-Command".to_string(),
            spec.command.clone(),
        ],
        Shell::Cmd => vec![
            shell.as_str().to_string(),
            "/C".to_string(),
            spec.command.clone(),
        ],
    };
    proof {
        assert(texts(r@) =~= shell_words(shell, spec.command@));
    }
    r
}

/// The script reaches the shell as one argument, the last one, character for
/// character: no outer quoting layer can corrupt it.
pub proof fn law_script_is_one_argument(shell: Shell, command: Seq<char>)
    ensures
        shell_words(shell, command).last() == command,
        shell_words(shell, command)[0] == shell_name(shell),
        forall|other: Seq<char>| #[trigger]
            shell_words(shell, other).drop_last() == shell_words(shell, command).drop_last(),
{
    assert forall|other: Seq<char>| #[trigger]
        shell_words(shell, other).drop_last() == shell_words(shell, command).drop_last() by {
        assert(shell_words(shell, other).drop_last() =~= shell_words(shell, command).drop_last());
    }
}

/// A process to start, and the limits it runs under.
pub struct Launch {
    /// What `shell_used` reports.
    pub shell: String,
    /// Program and arguments.
    pub argv: Vec<String>,
    pub workdir: Option<String>,
    pub env: Vec<(String, String)>,
    pub timeout_ms: u64,
    pub grace_ms: u64,
    pub max_output: usize,
}

/// The argv of a spec.
pub open spec fn argv_of(spec: ExecSpec, bash_on_path: bool) -> Seq<Seq<char>> {
    match spec.direct {
        Some(a) => texts(a@),
        None => shell_words(resolved_shell(spec, bash_on_path), spec.command@),
    }
}

/// `r` is what is launched for a spec.
pub open spec fn launched(r: Launch, spec: ExecSpec, bash_on_path: bool) -> bool {
    &&& texts(r.argv@) == argv_of(spec, bash_on_path)
    &&& r.argv@.len() > 0
    &&& r.shell@ == argv_of(spec, bash_on_path)[0]
    &&& opt_text(r.workdir) == opt_text(spec.workdir)
    &&& pair_texts(r.env@) == pair_texts(spec.env@)
    &&& r.timeout_ms == or_default(spec.timeout_ms as int, DEFAULT_TIMEOUT_MS as int)
    &&& r.grace_ms == or_default(spec.grace_ms as int, DEFAULT_GRACE_MS as int)
    &&& r.max_output == or_default(spec.max_output_bytes as int, DEFAULT_MAX_OUTPUT_BYTES as int)
}

/// Decide what to launch for a spec. A direct argv bypasses the shell.
pub fn launch(spec: &ExecSpec, bash_on_path: bool) -> (r: Launch)
    requires
        spec.direct is Some ==> spec.direct->0@.len() > 0,
    ensures
        launched(r, *spec, bash_on_path),
        texts(r.argv@) == argv_of(*spec, bash_on_path),
        r.argv@.len() > 0,
        r.shell@ == argv_of(*spec, bash_on_path)[0],
        r.timeout_ms == or_default(spec.timeout_ms as int, DEFAULT_TIMEOUT_MS as int),
        r.grace_ms == or_default(spec.grace_ms as int, DEFAULT_GRACE_MS as int),
        r.max_output == or_default(
            spec.max_output_bytes as int,
            DEFAULT_MAX_OUTPUT_BYTES as int,
        ),
        opt_text(r.workdir) == opt_text(spec.workdir),
        pair_texts(r.env@) == pair_texts(spec.env@),
        spec.timeout_ms > 0 ==> r.timeout_ms == spec.timeout_ms,
        spec.timeout_ms == 0 ==> r.timeout_ms == 120_000,
        spec.grace_ms > 0 ==> r.grace_ms == spec.grace_ms,
        spec.grace_ms == 0 ==> r.grace_ms == 2_000,
        spec.max_output_bytes > 0 ==> r.max_output == spec.max_output_bytes,
        spec.max_output_bytes == 0 ==> r.max_output == 262_144,
        spec.direct matches Some(argv) ==> texts(r.argv@) == texts(argv@) && r.shell@ == argv@[0]@,
        spec.direct is None ==> texts(r.argv@).last() == spec.command@,
        spec.direct is None ==> (spec.shell matches Some(s) ==> r.shell@ == shell_name(s)),
{
    let argv = match &spec.direct {
        Some(a) => copy_texts(a),
        None => shell_argv(resolve_shell(spec, bash_on_path), spec),
    };
    proof {
        assert(texts(argv@).len() == argv@.len());
        assert(texts(argv@)[0] == argv@[0]@);
        if let Some(a) = &spec.direct {
            assert(texts(a@)[0] == a@[0]@);
        }
    }
    let shell = argv[0].clone();
    Launch {
        shell,
        argv,
        workdir: copy_text(&spec.workdir),
        env: copy_pairs(&spec.env),
        timeout_ms: spec.effective_timeout_ms(),
        grace_ms: spec.effective_grace_ms(),
        max_output: spec.effective_max_output(),
    }
}

/// Whatever limit a spec names is the limit that its process runs under, however
/// large or small; only a limit of zero is left to the default.
pub proof fn law_named_limits_are_in_force(r: Launch, spec: ExecSpec, bash_on_path: bool)
    requires
        launched(r, spec, bash_on_path),
    ensures
        spec.timeout_ms > 0 ==> r.timeout_ms == spec.timeout_ms,
        spec.timeout_ms == 0 ==> r.timeout_ms == 120_000,
        spec.grace_ms > 0 ==> r.grace_ms == spec.grace_ms,
        spec.grace_ms == 0 ==> r.grace_ms == 2_000,
        spec.max_output_bytes > 0 ==> r.max_output == spec.max_output_bytes,
        spec.max_output_bytes == 0 ==> r.max_output == 262_144,
{
}

/// What a spec says is what is launched: a direct argv word for word, else the
/// command as the one argument of the shell that the spec names, or of `bash`
/// where there is one and of `sh` where there is none; in the spec's directory,
/// under its environment.
pub proof fn law_launch_follows_the_spec(r: Launch, spec: ExecSpec, bash_on_path: bool)
    requires
        launched(r, spec, bash_on_path),
    ensures
        opt_text(r.workdir) == opt_text(spec.workdir),
        pair_texts(r.env@) == pair_texts(spec.env@),
        r.shell@ == texts(r.argv@)[0],
        spec.direct matches Some(argv) ==> texts(r.argv@) == texts(argv@),
        spec.direct is None ==> {
            let shell = match spec.shell {
                Some(s) => s,
                None => if bash_on_path {
                    Shell::Bash
                } else {
                    Shell::Sh
                },
            };
            &&& texts(r.argv@)[0] == shell_name(shell)
            &&& texts(r.argv@).last() == spec.command@
        },
{
}

/// The words between the shell's name and the command are those that make the
/// shell take the command from its arguments.
pub proof fn law_shell_takes_a_command(shell: Shell, command: Seq<char>)
    ensures
        shell == Shell::Bash || shell == Shell::Sh || shell == Shell::Zsh ==> shell_words(
            shell,
            command,
        ) == seq![shell_name(shell), "-c"@, command],
        shell == Shell::Cmd ==> shell_words(shell, command) == seq!["cmd"@, "/C"@, command],
        shell == Shell::Powershell || shell == Shell::Pwsh ==> shell_words(shell, command)
            == seq![shell_name(shell), "-NoProfile"@, "-Command"@, command],
{
}

// ---------------------------------------------------------------------------
// Deadline and abort
// ---------------------------------------------------------------------------

/// What looking at the process showed.
#[derive(Debug, Clone, Copy, PartialEq, Eq, Structural)]
pub enum Poll {
    /// It has ended.
    Exited { code: Option<i32>, signal: Option<i32> },
    /// It has not ended yet.
    Running,
    /// It could not be looked at.
    Lost,
}

/// How a run ended.
#[derive(Debug, Clone, Copy, PartialEq, Eq, Structural)]
pub struct Ending {
    pub exit_code: Option<i32>,
    pub signal: Option<i32>,
    pub timed_out: bool,
    pub aborted: bool,
}

/// What to do next about a process.
#[derive(Debug, Clone, Copy, PartialEq, Eq, Structural)]
pub enum Step {
    /// Nothing is left to do.
    Done(Ending),
    /// Wait for the process, then nothing is left to do.
    Reap(Ending),
    /// Terminate the whole process tree, then wait for the process.
    Terminate(Ending),
    /// Look again after so many milliseconds.
    Sleep(u64),
}

/// How long a run sleeps between two looks at its process, in ms.
pub const POLL_MS: u64 = 5;

/// The ending of a run that was stopped, or lost.
pub open spec fn stopped(timed_out: bool, aborted: bool) -> Ending {
    Ending { exit_code: None, signal: None, timed_out, aborted }
}

/// What follows from a look at the process.
pub open spec fn step_after(
    poll: Poll,
    abort: bool,
    elapsed_ms: u64,
    timeout_ms: u64,
    poll_ms: u64,
) -> Step {
    match poll {
        Poll::Exited { code, signal } => Step::Done(
            Ending { exit_code: code, signal, timed_out: false, aborted: false },
        ),
        Poll::Lost => Step::Reap(stopped(false, false)),
        Poll::Running => if abort {
            Step::Terminate(stopped(false, true))
        } else if elapsed_ms >= timeout_ms {
            Step::Terminate(stopped(true, false))
        } else {
            Step::Sleep(poll_ms)
        },
    }
}

/// Decide what to do after a look at the process: a process that has ended is
/// done with, an abort comes before the deadline, and before the deadline the
/// process is left alone.
pub fn next_step(poll: Poll, abort: bool, elapsed_ms: u64, timeout_ms: u64, poll_ms: u64) -> (r:
    Step)
    ensures
        r == step_after(poll, abort, elapsed_ms, timeout_ms, poll_ms),
{
    match poll {
        Poll::Exited { code, signal } => Step::Done(
            Ending { exit_code: code, signal, timed_out: false, aborted: false },
        ),
        Poll::Lost => Step::Reap(
            Ending { exit_code: None, signal: None, timed_out: false, aborted: false },
        ),
        Poll::Running => {
            if abort {
                Step::Terminate(
                    Ending { exit_code: None, signal: None, timed_out: false, aborted: true },
                )
            } else if elapsed_ms >= timeout_ms {
                Step::Terminate(
                    Ending { exit_code: None, signal: None, timed_out: true, aborted: false },
                )
            } else {
                Step::Sleep(poll_ms)
            }
        },
    }
}

/// One look at the process: what it showed, whether an abort was asked for,
/// and the time since the start.
#[derive(Debug, Clone, Copy, PartialEq, Eq, Structural)]
pub struct Look {
    pub poll: Poll,
    pub abort: bool,
    pub elapsed_ms: u64,
}

/// How long termination sleeps between two looks at the process, in ms.
pub const KILL_POLL_MS: u64 = 10;

/// Where the supervision of a process stands.
#[derive(Debug, Clone, Copy, PartialEq, Eq, Structural)]
pub enum Phase {
    /// The process runs, and nothing was asked of it.
    Watching,
    /// The process tree was asked to end, so long after the start.
    Terminating { since_ms: u64, ending: Ending },
    /// It is known how the run ended.
    Ended(Ending),
}

/// What the caller is to do for a supervised process.
#[derive(Debug, Clone, Copy, PartialEq, Eq, Structural)]
pub enum Act {
    /// Look again after so many milliseconds.
    Sleep(u64),
    /// Ask the whole process tree to end, then look again.
    AskToEnd,
    /// End the whole process tree, and wait for the process.
    EndAndReap,
    /// Wait for the process.
    Reap,
    /// Nothing.
    Nothing,
}

/// Watches one process: until it ends by itself, its deadline elapses or the
/// caller aborts it.
#[derive(Debug, Clone, Copy, PartialEq, Eq, Structural)]
pub struct Supervisor {
    pub timeout_ms: u64,
    pub grace_ms: u64,
    pub poll_ms: u64,
    /// The system ends a process tree at once, without asking it first.
    pub at_once: bool,
    pub phase: Phase,
}

/// What a look at the process makes of its supervision, and what is to be
/// done.
pub open spec fn supervised(s: Supervisor, look: Look) -> (Supervisor, Act) {
    match s.phase {
        Phase::Watching => match step_after(
            look.poll,
            look.abort,
            look.elapsed_ms,
            s.timeout_ms,
            s.poll_ms,
        ) {
            Step::Sleep(ms) => (s, Act::Sleep(ms)),
            Step::Done(e) => (Supervisor { phase: Phase::Ended(e), ..s }, Act::Nothing),
            Step::Reap(e) => (Supervisor { phase: Phase::Ended(e), ..s }, Act::Reap),
            Step::Terminate(e) => if s.at_once {
                (Supervisor { phase: Phase::Ended(e), ..s }, Act::EndAndReap)
            } else {
                (
                    Supervisor {
                        phase: Phase::Terminating { since_ms: look.elapsed_ms, ending: e },
                        ..s
                    },
                    Act::AskToEnd,
                )
            },
        },
        Phase::Terminating { since_ms, ending } => if look.poll is Exited {
            (Supervisor { phase: Phase::Ended(ending), ..s }, Act::Reap)
        } else if look.elapsed_ms - since_ms >= s.grace_ms {
            (Supervisor { phase: Phase::Ended(ending), ..s }, Act::EndAndReap)
        } else {
            (s, Act::Sleep(KILL_POLL_MS))
        },
        Phase::Ended(_) => (s, Act::Nothing),
    }
}

impl Supervisor {
    /// The supervision of a process that was just started.
    pub fn new(timeout_ms: u64, grace_ms: u64, poll_ms: u64, at_once: bool) -> (r: Supervisor)
        ensures
            r == (Supervisor { timeout_ms, grace_ms, poll_ms, at_once, phase: Phase::Watching }),
    {
        Supervisor { timeout_ms, grace_ms, poll_ms, at_once, phase: Phase::Watching }
    }

    /// Take in a look at the process, and decide what to do.
    pub fn observe(&mut self, look: &Look) -> (act: Act)
        ensures
            (*final(self), act) == supervised(*old(self), *look),
    {
        match self.phase {
            Phase::Watching => {
                match next_step(
                    look.poll,
                    look.abort,
                    look.elapsed_ms,
                    self.timeout_ms,
                    self.poll_ms,
                ) {
                    Step::Sleep(ms) => Act::Sleep(ms),
                    Step::Done(e) => {
                        self.phase = Phase::Ended(e);
                        Act::Nothing
                    },
                    Step::Reap(e) => {
                        self.phase = Phase::Ended(e);
                        Act::Reap
                    },
                    Step::Terminate(e) => {
                        if self.at_once {
                            self.phase = Phase::Ended(e);
                            Act::EndAndReap
                        } else {
                            self.phase = Phase::Terminating {
                                since_ms: look.elapsed_ms,
                                ending: e,
                            };
                            Act::AskToEnd
                        }
                    },
                }
            },
            Phase::Terminating { since_ms, ending } => {
                let exited = match look.poll {
                    Poll::Exited { code: _, signal: _ } => true,
                    _ => false,
                };
                if exited {
                    self.phase = Phase::Ended(ending);
                    Act::Reap
                } else if look.elapsed_ms >= since_ms && look.elapsed_ms - since_ms
                    >= self.grace_ms {
                    self.phase = Phase::Ended(ending);
                    Act::EndAndReap
                } else {
                    Act::Sleep(KILL_POLL_MS)
                }
            },
            Phase::Ended(_) => Act::Nothing,
        }
    }

    /// How the run ended, once that is known.
    pub fn ending(&self) -> (r: Option<Ending>)
        ensures
            r == match self.phase {
                Phase::Ended(e) => Some(e),
                _ => None,
            },
    {
        match self.phase {
            Phase::Ended(e) => Some(e),
            _ => None,
        }
    }
}

/// Supervision after a sequence of looks.
pub open spec fn supervised_all(s: Supervisor, looks: Seq<Look>) -> Supervisor
    decreases looks.len(),
{
    if looks.len() == 0 {
        s
    } else {
        supervised(supervised_all(s, looks.drop_last()), looks.last()).0
    }
}

/// Once it is known how a run ended, no later look changes it.
pub proof fn law_ending_is_final(s: Supervisor, looks: Seq<Look>)
    requires
        s.phase is Ended,
    ensures
        supervised_all(s, looks) == s,
    decreases looks.len(),
{
    if looks.len() > 0 {
        law_ending_is_final(s, looks.drop_last());
    }
}

/// The deadline is enforced: a run that nobody aborts is left alone by every
/// look before its deadline, and the first look at or past it that still finds
/// it running stops it, as timed out.
pub proof fn law_deadline(s: Supervisor, looks: Seq<Look>, last: Look)
    requires
        s.phase is Watching,
        forall|i: int| 0 <= i < looks.len() ==> (#[trigger] looks[i]).poll is Running
            && !looks[i].abort && looks[i].elapsed_ms < s.timeout_ms,
        last.poll is Running,
        !last.abort,
        last.elapsed_ms >= s.timeout_ms,
    ensures
        supervised_all(s, looks) == s,
        s.at_once ==> supervised(s, last).1 is EndAndReap && supervised(s, last).0.phase
            == Phase::Ended(stopped(true, false)),
        !s.at_once ==> supervised(s, last).1 is AskToEnd && supervised(s, last).0.phase
            == (Phase::Terminating { since_ms: last.elapsed_ms, ending: stopped(true, false) }),
    decreases looks.len(),
{
    if looks.len() > 0 {
        let front = looks.drop_last();
        assert(forall|i: int| 0 <= i < front.len() ==> #[trigger] front[i] == looks[i]);
        assert(looks[looks.len() - 1] == looks.last());
        law_deadline(s, front, last);
    }
}

/// An abort stops a running process whatever its deadline says.
pub proof fn law_abort_comes_first(s: Supervisor, look: Look)
    requires
        s.phase is Watching,
        look.poll is Running,
        look.abort,
    ensures
        s.at_once ==> supervised(s, look).1 is EndAndReap && supervised(s, look).0.phase
            == Phase::Ended(stopped(false, true)),
        !s.at_once ==> supervised(s, look).1 is AskToEnd && supervised(s, look).0.phase
            == (Phase::Terminating { since_ms: look.elapsed_ms, ending: stopped(false, true) }),
{
}

/// A run before its deadline that nobody aborts is never stopped.
pub proof fn law_no_early_termination(s: Supervisor, look: Look)
    requires
        s.phase is Watching,
        look.elapsed_ms < s.timeout_ms,
        !look.abort,
    ensures
        !(supervised(s, look).1 is AskToEnd),
        !(supervised(s, look).1 is EndAndReap),
{
}

/// What comes of a look depends on nothing but what it showed: a process that
/// has ended is reported as it ended, one that cannot be looked at is waited for,
/// and one that may still run is looked at again after the interval that was set.
pub proof fn law_looks_are_taken_as_they_are(s: Supervisor, look: Look)
    requires
        s.phase is Watching,
    ensures
        look.poll matches Poll::Exited { code, signal } ==> {
            &&& supervised(s, look).1 is Nothing
            &&& supervised(s, look).0.phase matches Phase::Ended(e)
            &&& e.exit_code == code && e.signal == signal && !e.timed_out && !e.aborted
        },
        look.poll is Lost ==> {
            &&& supervised(s, look).1 is Reap
            &&& supervised(s, look).0.phase matches Phase::Ended(e)
            &&& e.exit_code is None && e.signal is None && !e.timed_out && !e.aborted
        },
        look.poll is Running && !look.abort && look.elapsed_ms < s.timeout_ms ==> supervised(
            s,
            look,
        ) == (s, Act::Sleep(s.poll_ms)),
        supervised(s, look).0.timeout_ms == s.timeout_ms,
        supervised(s, look).0.grace_ms == s.grace_ms,
        supervised(s, look).0.poll_ms == s.poll_ms,
        supervised(s, look).0.at_once == s.at_once,
{
}

/// A process that was asked to end and still has grace is left to end.
pub proof fn law_grace_is_given(s: Supervisor, look: Look, since_ms: u64, ending: Ending)
    requires
        s.phase == (Phase::Terminating { since_ms, ending }),
        !(look.poll is Exited),
        look.elapsed_ms - since_ms < s.grace_ms,
    ensures
        supervised(s, look).0 == s,
        supervised(s, look).1 is Sleep,
{
}

/// A stop is carried through: once asked to end, the process is reaped as soon
/// as it is seen to have ended, or forced to end and reaped when its grace is
/// over, and the run ends the way it was stopped.
pub proof fn law_stop_is_carried_through(
    s: Supervisor,
    look: Look,
    since_ms: u64,
    ending: Ending,
)
    requires
        s.phase == (Phase::Terminating { since_ms, ending }),
        look.poll is Exited || look.elapsed_ms - since_ms >= s.grace_ms,
    ensures
        supervised(s, look).0.phase == Phase::Ended(ending),
        look.poll is Exited ==> supervised(s, look).1 is Reap,
        !(look.poll is Exited) ==> supervised(s, look).1 is EndAndReap,
{
}

/// A process tree that can be asked to end is forced to only after it was
/// asked and had its grace.
pub proof fn law_force_needs_grace(s: Supervisor, look: Look)
    requires
        !s.at_once,
        supervised(s, look).1 is EndAndReap,
    ensures
        s.phase matches Phase::Terminating { since_ms, .. } && look.elapsed_ms - since_ms
            >= s.grace_ms,
{
}

/// A run is reported as timed out only where some look at or past its deadline
/// found it running, and as aborted only where some look found it running and
/// the abort asked for.
pub proof fn law_stops_have_a_cause(s: Supervisor, looks: Seq<Look>)
    requires
        s.phase is Watching,
    ensures
        ({
            let after = supervised_all(s, looks).phase;
            let timed_out = match after {
                Phase::Watching => false,
                Phase::Terminating { since_ms: _, ending } => ending.timed_out,
                Phase::Ended(e) => e.timed_out,
            };
            let aborted = match after {
                Phase::Watching => false,
                Phase::Terminating { since_ms: _, ending } => ending.aborted,
                Phase::Ended(e) => e.aborted,
            };
            &&& timed_out ==> exists|i: int|
                0 <= i < looks.len() && (#[trigger] looks[i]).poll is Running
                    && looks[i].elapsed_ms >= s.timeout_ms
            &&& aborted ==> exists|i: int|
                0 <= i < looks.len() && (#[trigger] looks[i]).poll is Running && looks[i].abort
            &&& !(timed_out && aborted)
        }),
    decreases looks.len(),
{
    if looks.len() > 0 {
        let front = looks.drop_last();
        law_stops_have_a_cause(s, front);
        lemma_limits_stay(s, front);
        assert(looks[looks.len() - 1] == looks.last());
        assert(forall|i: int| 0 <= i < front.len() ==> #[trigger] front[i] == looks[i]);
    }
}

proof fn lemma_limits_stay(s: Supervisor, looks: Seq<Look>)
    ensures
        supervised_all(s, looks).timeout_ms == s.timeout_ms,
        supervised_all(s, looks).grace_ms == s.grace_ms,
        supervised_all(s, looks).at_once == s.at_once,
    decreases looks.len(),
{
    if looks.len() > 0 {
        lemma_limits_stay(s, looks.drop_last());
    }
}

/// The arguments with which Windows' `taskkill` ends a whole process tree.
pub open spec fn taskkill_words(pid: u32) -> Seq<Seq<char>> {
    seq!["/PID"@, decimal(pid as nat), "/T"@, "/F"@]
}

/// The process that is ended is the one that is named, with all that it started,
/// and by force.
pub proof fn law_whole_tree_is_ended(pid: u32)
    ensures
        taskkill_words(pid)[0] == "/PID"@,
        crate::number::parsed_unsigned(taskkill_words(pid)[1], u32::MAX as int) == Some(pid as int),
        taskkill_words(pid).skip(2) == seq!["/T"@, "/F"@],
{
    crate::number::law_unsigned_roundtrip(pid as nat, u32::MAX as int);
    assert(taskkill_words(pid).skip(2) =~= seq!["/T"@, "/F"@]);
}

/// The arguments with which Windows' `taskkill` ends a whole process tree.
pub fn taskkill_args(pid: u32) -> (r: Vec<String>)
    ensures
        texts(r@) == taskkill_words(pid),
        texts(r@) == seq!["/PID"@, decimal(pid as nat), "/T"@, "/F"@],
{
    let r = vec![
        "/PID".to_string(),
        format_u64(pid as u64),
        "/T".to_string(),
        "/F".to_string(),
    ];
    proof {
        assert(texts(r@) =~= seq!["/PID"@, decimal(pid as nat), "/T"@, "/F"@]);
    }
    r
}

// ---------------------------------------------------------------------------
// Capped output
// ---------------------------------------------------------------------------

/// The last `max` bytes, or all of them where there are fewer.
pub open spec fn tail_of(bytes: Seq<u8>, max: nat) -> Seq<u8> {
    if bytes.len() <= max {
        bytes
    } else {
        bytes.skip(bytes.len() - max)
    }
}

/// What was kept of a stream.
pub struct Captured {
    pub bytes: Vec<u8>,
    /// More came than was kept.
    pub truncated: bool,
}

impl Captured {
    /// What is kept of a stream that could not be read.
    pub fn nothing() -> (r: Captured)
        ensures
            r.bytes@ == Seq::<u8>::empty(),
            !r.truncated,
    {
        Captured { bytes: Vec::new(), truncated: false }
    }
}

/// A stream that is read to its end while only its tail is kept. Errors and
/// results cluster at the end of output.
pub struct TailBuffer {
    tail: Vec<u8>,
    max: usize,
    truncated: bool,
    seen: Ghost<Seq<u8>>,
}

impl TailBuffer {
    /// Everything that was read so far.
    pub closed spec fn seen(&self) -> Seq<u8> {
        self.seen@
    }

    /// How much is kept.
    pub closed spec fn max(&self) -> nat {
        self.max as nat
    }

    #[verifier::type_invariant]
    spec fn inv(&self) -> bool {
        &&& self.tail@ == tail_of(self.seen@, self.max as nat)
        &&& self.truncated == (self.seen@.len() > self.max)
    }

    /// A buffer that keeps the last `max` bytes.
    pub fn new(max: usize) -> (r: TailBuffer)
        ensures
            r.seen() == Seq::<u8>::empty(),
            r.max() == max,
    {
        TailBuffer { tail: Vec::new(), max, truncated: false, seen: Ghost(Seq::empty()) }
    }

    /// Take in what one read returned.
    pub fn push(&mut self, chunk: &[u8])
        ensures
            final(self).seen() == old(self).seen() + chunk@,
            final(self).max() == old(self).max(),
    {
        proof {
            use_type_invariant(&*self);
        }
        let ghost before = self.seen@;
        let max: usize = self.max;
        let mut whole = TailBuffer::new(max);
        std::mem::swap(&mut whole, self);
        let mut truncated = whole.truncated;
        let mut tail = whole.tail;
        tail.extend_from_slice(chunk);
        proof {
            assert(tail@ =~= tail_of(before, max as nat) + chunk@);
        }
        if tail.len() > max {
            truncated = true;
            let excess: usize = tail.len() - max;
            tail = tail.split_off(excess);
        }
        proof {
            assert(tail@ =~= tail_of(before + chunk@, max as nat));
        }
        *self = TailBuffer { tail, max, truncated, seen: Ghost(before + chunk@) };
    }

    /// What was kept, once the stream has ended.
    pub fn finish(self) -> (r: Captured)
        ensures
            r.bytes@ == tail_of(self.seen(), self.max()),
            r.truncated == (self.seen().len() > self.max()),
    {
        proof {
            use_type_invariant(&self);
        }
        Captured { bytes: self.tail, truncated: self.truncated }
    }
}

/// What is kept never exceeds the cap, is the end of what came, and is as much of
/// it as the cap allows.
pub proof fn law_tail_is_capped(bytes: Seq<u8>, max: nat)
    ensures
        tail_of(bytes, max).len() <= max,
        tail_of(bytes, max).is_suffix_of(bytes),
        tail_of(bytes, max) == bytes <==> bytes.len() <= max,
        bytes.len() > max ==> tail_of(bytes, max).len() == max,
{
    assert(tail_of(bytes, max) =~= bytes.skip(bytes.len() - tail_of(bytes, max).len()));
}

/// Keeping the tail piece by piece keeps the tail of the whole.
pub proof fn law_tail_of_pieces(first: Seq<u8>, second: Seq<u8>, max: nat)
    ensures
        tail_of(tail_of(first, max) + second, max) == tail_of(first + second, max),
{
    assert(tail_of(tail_of(first, max) + second, max) =~= tail_of(first + second, max));
}

// ---------------------------------------------------------------------------
// Streamed output
// ---------------------------------------------------------------------------

/// Which stream a piece of output came from.
#[derive(Debug, Clone, Copy, PartialEq, Eq, Structural)]
pub enum StreamKind {
    Stdout,
    Stderr,
}

/// A piece of decoded output.
#[derive(Debug)]
pub struct StreamChunk {
    pub stream: StreamKind,
    pub text: String,
}

/// Whether a byte continues a UTF-8 sequence.
pub open spec fn continues(b: u8) -> bool {
    0x80 <= b < 0xC0
}

/// How many bytes at the end of `b` start a character whose rest has not come
/// yet.
pub open spec fn pending_len(b: Seq<u8>) -> int {
    let n = b.len();
    if n >= 1 && b[n - 1] >= 0xC0 {
        1
    } else if n >= 2 && continues(b[n - 1]) && b[n - 2] >= 0xE0 {
        2
    } else if n >= 3 && continues(b[n - 1]) && continues(b[n - 2]) && b[n - 3] >= 0xF0 {
        3
    } else {
        0
    }
}

/// Bytes in, text out: a character that is cut by the end of a read comes out
/// whole with the next one.
pub struct StreamDecoder {
    pending: Vec<u8>,
}

impl StreamDecoder {
    /// The bytes that wait for the rest of their character.
    pub closed spec fn pending(&self) -> Seq<u8> {
        self.pending@
    }

    /// A decoder at the start of a stream.
    pub fn new() -> (r: StreamDecoder)
        ensures
            r.pending() == Seq::<u8>::empty(),
    {
        StreamDecoder { pending: Vec::new() }
    }

    /// Take in what one read returned, and give out the text that is complete.
    pub fn push(&mut self, chunk: &[u8]) -> (r: String)
        ensures
            ({
                let all = old(self).pending() + chunk@;
                let cut = all.len() - pending_len(all);
                &&& r@ == utf8_lossy(all.take(cut))
                &&& valid_utf8(all.take(cut)) ==> r@ == decode_utf8(all.take(cut))
                &&& final(self).pending() == all.skip(cut)
            }),
    {
        let mut all: Vec<u8> = Vec::new();
        std::mem::swap(&mut all, &mut self.pending);
        all.extend_from_slice(chunk);
        let n: usize = all.len();
        let waiting: usize = if n >= 1 && all[n - 1] >= 0xC0 {
            1
        } else if n >= 2 && is_continuation(all[n - 1]) && all[n - 2] >= 0xE0 {
            2
        } else if n >= 3 && is_continuation(all[n - 1]) && is_continuation(all[n - 2]) && all[n - 3]
            >= 0xF0 {
            3
        } else {
            0
        };
        proof {
            assert(all@ =~= old(self).pending() + chunk@);
        }
        let rest = all.split_off(n - waiting);
        self.pending = rest;
        from_utf8_lossy(all.as_slice())
    }

    /// The text of what still waits once the stream has ended.
    pub fn finish(self) -> (r: String)
        ensures
            r@ == utf8_lossy(self.pending()),
            valid_utf8(self.pending()) ==> r@ == decode_utf8(self.pending()),
    {
        from_utf8_lossy(self.pending.as_slice())
    }
}

/// Wherever a read cuts valid UTF-8, what is given out ends with a whole
/// character: it and the rest decode to the text of the whole.
pub proof fn law_stream_is_cut_at_characters(b: Seq<u8>, n: int)
    requires
        valid_utf8(b),
        0 <= n <= b.len(),
    ensures
        ({
            let cut = n - pending_len(b.take(n));
            &&& 0 <= cut <= n
            &&& n - cut <= 3
            &&& valid_utf8(b.take(cut))
            &&& valid_utf8(b.skip(cut))
            &&& decode_utf8(b) == decode_utf8(b.take(cut)) + decode_utf8(b.skip(cut))
        }),
{
    lemma_cut_is_boundary(b, n);
    let cut = n - pending_len(b.take(n));
    vstd::utf8::valid_utf8_split(b, cut);
    vstd::utf8::decode_utf8_split(b, cut);
    assert(b.take(cut) =~= b.subrange(0, cut));
    assert(b.skip(cut) =~= b.subrange(cut, b.len() as int));
}

proof fn lemma_cut_is_boundary(b: Seq<u8>, n: int)
    requires
        valid_utf8(b),
        0 <= n <= b.len(),
    ensures
        0 <= pending_len(b.take(n)) <= n,
        vstd::utf8::is_char_boundary(b, n - pending_len(b.take(n))),
    decreases b.len(),
{
    if n > 0 {
        let w = vstd::utf8::length_of_first_scalar(b);
        let p = b.take(n);
        if n < w {
            assert(p[0] == b[0]);
            assert(n >= 2 ==> p[1] == b[1]);
            assert(n >= 3 ==> p[2] == b[2]);
            assert(pending_len(p) == n);
        } else {
            let rest = vstd::utf8::pop_first_scalar(b);
            let m = n - w;
            let q = rest.take(m);
            assert(rest =~= b.skip(w));
            lemma_cut_is_boundary(rest, m);
            assert(forall|i: int| 0 <= i < m ==> #[trigger] q[i] == p[i + w]);
            assert(forall|i: int| 0 <= i < w ==> #[trigger] p[i] == b[i]);
            assert(m >= 1 ==> q[m - 1] == p[n - 1]);
            assert(m >= 2 ==> q[m - 2] == p[n - 2]);
            assert(m >= 3 ==> q[m - 3] == p[n - 3]);
            if m >= 1 {
                // The rest starts with a character of its own.
                reveal_with_fuel(valid_utf8, 2);
                assert(rest.len() == b.len() - w);
                assert(vstd::utf8::valid_first_scalar(rest));
                assert(!continues(rest[0]));
                assert(q[0] == rest[0]);
            }
            assert(pending_len(p) == pending_len(q));
        }
    }
}

/// Nothing that is complete is held back: of valid UTF-8 that has come in whole
/// all is given out at once.
pub proof fn law_complete_text_is_given_out(b: Seq<u8>)
    requires
        valid_utf8(b),
    ensures
        pending_len(b) == 0,
    decreases b.len(),
{
    if b.len() > 0 {
        let w = vstd::utf8::length_of_first_scalar(b);
        let rest = vstd::utf8::pop_first_scalar(b);
        assert(rest =~= b.skip(w));
        reveal_with_fuel(valid_utf8, 2);
        law_complete_text_is_given_out(rest);
        let n = b.len();
        let m = rest.len();
        assert(m >= 1 ==> rest[m - 1] == b[n - 1]);
        assert(m >= 2 ==> rest[m - 2] == b[n - 2]);
        assert(m >= 3 ==> rest[m - 3] == b[n - 3]);
        if m >= 1 {
            assert(vstd::utf8::valid_first_scalar(rest));
            assert(!continues(rest[0]));
        }
    }
}

/// The bytes behind each piece of text that a decoder gives out: one for each
/// read, and one at the end.
pub open spec fn streamed(pending: Seq<u8>, reads: Seq<Seq<u8>>) -> Seq<Seq<u8>>
    decreases reads.len(),
{
    if reads.len() == 0 {
        seq![pending]
    } else {
        let all = pending + reads.first();
        let cut = all.len() - pending_len(all);
        seq![all.take(cut)] + streamed(all.skip(cut), reads.drop_first())
    }
}

/// However valid UTF-8 is cut into reads, every piece of text that is given out
/// is whole, and together the pieces are the text.
pub proof fn law_stream_is_whole(pending: Seq<u8>, reads: Seq<Seq<u8>>)
    requires
        valid_utf8(pending + reads.flatten()),
    ensures
        forall|i: int|
            0 <= i < streamed(pending, reads).len() ==> valid_utf8(
                #[trigger] streamed(pending, reads)[i],
            ),
        streamed(pending, reads).map_values(|b: Seq<u8>| decode_utf8(b)).flatten() == decode_utf8(
            pending + reads.flatten(),
        ),
    decreases reads.len(),
{
    let f = |b: Seq<u8>| decode_utf8(b);
    let whole = pending + reads.flatten();
    let pieces = streamed(pending, reads);
    if reads.len() == 0 {
        assert(whole =~= pending);
        assert(pieces.map_values(f) =~= seq![decode_utf8(pending)]);
        seq![decode_utf8(pending)].lemma_flatten_one_element();
    } else {
        let all = pending + reads.first();
        let rest = reads.drop_first();
        let cut = all.len() - pending_len(all);
        assert(whole =~= all + rest.flatten());
        assert(whole.take(all.len() as int) =~= all);
        law_stream_is_cut_at_characters(whole, all.len() as int);
        assert(whole.take(cut) =~= all.take(cut));
        assert(whole.skip(cut) =~= all.skip(cut) + rest.flatten());
        law_stream_is_whole(all.skip(cut), rest);
        let later = streamed(all.skip(cut), rest);
        let texts = pieces.map_values(f);
        assert(forall|i: int| 1 <= i < pieces.len() ==> #[trigger] pieces[i] == later[i - 1]);
        assert(texts.first() == decode_utf8(all.take(cut)));
        assert(texts.drop_first() =~= later.map_values(f));
    }
}

/// Whether a byte continues a UTF-8 sequence.
fn is_continuation(b: u8) -> (r: bool)
    ensures
        r == continues(b),
{
    0x80 <= b && b < 0xC0
}

// ---------------------------------------------------------------------------
// The result
// ---------------------------------------------------------------------------

/// A result with class and hint in place.
pub open spec fn with_class(
    r: ResultView,
    class: (Option<Seq<char>>, Option<Seq<char>>),
) -> ResultView {
    ResultView { error_class: class.0, hint: class.1, ..r }
}

/// The result of a run before it is classified.
pub open spec fn captured_result(
    shell: Seq<char>,
    ending: Ending,
    stdout: Seq<u8>,
    stderr: Seq<u8>,
    truncated: bool,
    duration_ms: u64,
) -> ResultView {
    ResultView {
        exit_code: ending.exit_code,
        signal: ending.signal,
        stdout: decoded(stdout).0,
        stderr: decoded(stderr).0,
        timed_out: ending.timed_out,
        aborted: ending.aborted,
        duration_ms,
        error_class: None,
        hint: None,
        encoding: decoded(stdout).1,
        truncated,
        shell_used: shell,
    }
}

/// The result of a run: what was captured, under the class that its stderr gives
/// it.
pub open spec fn run_result(
    shell: Seq<char>,
    ending: Ending,
    stdout: Captured,
    stderr: Captured,
    duration_ms: u64,
    maps: Map<Seq<char>, EntryView>,
) -> ResultView {
    let plain = captured_result(
        shell,
        ending,
        stdout.bytes@,
        stderr.bytes@,
        stdout.truncated || stderr.truncated,
        duration_ms,
    );
    with_class(plain, class_with(plain, maps))
}

/// The normalized result of a process that was started: output decoded, the
/// encoding that of stdout, truncated where either stream was, classified
/// under the project's patterns.
pub fn finish_run(
    shell: &str,
    ending: Ending,
    stdout: &Captured,
    stderr: &Captured,
    duration_ms: u64,
    error_maps: &TextMap<ErrorMapEntry>,
) -> (r: ExecResult)
    ensures
        ({
            let plain = captured_result(
                shell@,
                ending,
                stdout.bytes@,
                stderr.bytes@,
                stdout.truncated || stderr.truncated,
                duration_ms,
            );
            &&& r@ == with_class(plain, class_with(plain, deep(error_maps@)))
            &&& all_ascii(plain.stderr) && ascii_keys(deep(error_maps@)) ==> r@ == with_class(
                plain,
                ascii_class_with(plain, deep(error_maps@)),
            )
            &&& silent_exit(plain) ==> r@ == plain
        }),
        r@ == run_result(shell@, ending, *stdout, *stderr, duration_ms, deep(error_maps@)),
        r.exit_code == ending.exit_code,
        r.signal == ending.signal,
        r.timed_out == ending.timed_out,
        r.aborted == ending.aborted,
        r.truncated == (stdout.truncated || stderr.truncated),
        r.duration_ms == duration_ms,
        r.shell_used@ == shell@,
{
    let out = decode(stdout.bytes.as_slice());
    let err = decode(stderr.bytes.as_slice());
    let mut result = ExecResult {
        exit_code: ending.exit_code,
        signal: ending.signal,
        stdout: out.text,
        stderr: err.text,
        timed_out: ending.timed_out,
        aborted: ending.aborted,
        duration_ms,
        error_class: None,
        hint: None,
        encoding: out.encoding.to_string(),
        truncated: stdout.truncated || stderr.truncated,
        shell_used: shell.to_string(),
    };
    let classes = classify_with(&result, error_maps);
    result.error_class = classes.0;
    result.hint = classes.1;
    result
}

/// The result of a process that could not be started.
pub open spec fn spawn_failed(shell: Seq<char>, error: Seq<char>, duration_ms: u64) -> ResultView {
    ResultView {
        exit_code: None,
        signal: None,
        stdout: seq![],
        stderr: "unirun: spawn failed: "@ + error,
        timed_out: false,
        aborted: false,
        duration_ms,
        error_class: Some("COMMAND_NOT_FOUND"@),
        hint: Some("could not spawn `"@ + shell + "`: "@ + error),
        encoding: "utf-8"@,
        truncated: false,
        shell_used: shell,
    }
}

/// The normalized result of a process that could not be started.
pub fn spawn_failure(shell: &str, error: &str, duration_ms: u64) -> (r: ExecResult)
    ensures
        r@ == spawn_failed(shell@, error@, duration_ms),
{
    let mut stderr = "unirun: spawn failed: ".to_string();
    stderr.append(error);
    let mut hint = "could not spawn `".to_string();
    hint.append(shell);
    hint.append("`: ");
    hint.append(error);
    let mut r = ExecResult::success(String::new(), stderr, shell);
    r.exit_code = None;
    r.error_class = Some("COMMAND_NOT_FOUND".to_string());
    r.hint = Some(hint);
    r.duration_ms = duration_ms;
    r
}

/// A process that ends by itself is reported with its own exit code, as
/// neither timed out nor aborted, whatever it wrote.
pub proof fn law_exit_code_propagates(
    s: Supervisor,
    look: Look,
    shell: Seq<char>,
    stdout: Seq<u8>,
    stderr: Seq<u8>,
    truncated: bool,
    duration_ms: u64,
    maps: Map<Seq<char>, EntryView>,
)
    requires
        s.phase is Watching,
        look.poll is Exited,
    ensures
        supervised(s, look).0.phase matches Phase::Ended(ending) && {
            let plain = captured_result(shell, ending, stdout, stderr, truncated, duration_ms);
            let r = with_class(plain, class_with(plain, maps));
            &&& r.exit_code == look.poll->code
            &&& r.signal == look.poll->signal
            &&& !r.timed_out
            &&& !r.aborted
        },
{
}

/// A result says what the run did: what a process wrote as UTF-8 to either stream
/// comes back under that stream's name, character for character, and how it ended,
/// how long it took, what ran it and whether a stream was cut are as they were.
pub proof fn law_result_says_what_the_run_did(
    shell: Seq<char>,
    ending: Ending,
    stdout: Captured,
    stderr: Captured,
    out: Seq<char>,
    err: Seq<char>,
    duration_ms: u64,
    maps: Map<Seq<char>, EntryView>,
)
    requires
        stdout.bytes@ == vstd::utf8::encode_utf8(out),
        stderr.bytes@ == vstd::utf8::encode_utf8(err),
        out.len() > 0 ==> out[0] != '\u{FEFF}',
        err.len() > 0 ==> err[0] != '\u{FEFF}',
    ensures
        ({
            let r = run_result(shell, ending, stdout, stderr, duration_ms, maps);
            &&& r.stdout == out
            &&& r.stderr == err
            &&& r.encoding == "utf-8"@
            &&& r.exit_code == ending.exit_code
            &&& r.signal == ending.signal
            &&& r.timed_out == ending.timed_out
            &&& r.aborted == ending.aborted
            &&& r.truncated <==> stdout.truncated || stderr.truncated
            &&& r.duration_ms == duration_ms
            &&& r.shell_used == shell
            &&& (r.error_class, r.hint) == class_with(
                ResultView { error_class: None, hint: None, ..r },
                maps,
            )
        }),
{
    law_decode_utf8(out);
    law_decode_utf8(err);
}

/// A process that could not be started is reported as a command that is missing,
/// without an exit code or output, and with the reason.
pub proof fn law_failed_start_is_reported(shell: Seq<char>, error: Seq<char>, duration_ms: u64)
    ensures
        ({
            let r = spawn_failed(shell, error, duration_ms);
            &&& r.exit_code is None
            &&& r.signal is None
            &&& r.stdout.len() == 0
            &&& error.is_suffix_of(r.stderr)
            &&& r.error_class == Some("COMMAND_NOT_FOUND"@)
            &&& r.hint matches Some(h) && error.is_suffix_of(h)
            &&& r.encoding == "utf-8"@
            &&& !r.timed_out && !r.aborted && !r.truncated
            &&& r.duration_ms == duration_ms
            &&& r.shell_used == shell
        }),
{
    let r = spawn_failed(shell, error, duration_ms);
    let n = r.stderr.len();
    assert(r.stderr.subrange(n - error.len(), n as int) =~= error);
    let h = r.hint->0;
    assert(h.subrange(h.len() - error.len(), h.len() as int) =~= error);
}

/// A run that was stopped is reported as such, whatever it wrote: at its
/// deadline as timed out, by its caller as aborted.
pub proof fn law_stop_is_classified(
    shell: Seq<char>,
    stdout: Seq<u8>,
    stderr: Seq<u8>,
    truncated: bool,
    duration_ms: u64,
    maps: Map<Seq<char>, EntryView>,
)
    ensures
        ({
            let late = captured_result(
                shell,
                stopped(true, false),
                stdout,
                stderr,
                truncated,
                duration_ms,
            );
            let ended = captured_result(
                shell,
                stopped(false, true),
                stdout,
                stderr,
                truncated,
                duration_ms,
            );
            &&& late.timed_out
            &&& with_class(late, class_with(late, maps)).error_class == Some("TIMEOUT"@)
            &&& ended.aborted
            &&& with_class(ended, class_with(ended, maps)).error_class == Some("ABORTED"@)
        }),
{
}

} // verus!

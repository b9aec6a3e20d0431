//! WinRM transport: PowerShell on remote Windows hosts over the PowerShell
//! Remoting Protocol.
//!
//! The protocol does not hand on exit codes, so the script reports its own: a
//! last line of output that starts with a marker.

use vstd::prelude::*;

use crate::exec::with_class;
use crate::number::{
    decimal, format_i64, format_u64, is_digit, law_signed_roundtrip, law_unsigned_roundtrip,
    parse_i32, parsed_signed, parsed_unsigned, signed_decimal,
};
use crate::spec::{successful, ExecResult, ResultView};
use crate::taxonomy::{ascii_class, class_with, classify, silent_exit};
use crate::text::{
    all_ascii, ascii_lowercase, chars_of, has_text, is_empty_text, is_space, join, join_texts,
    law_text_is_found_where_it_stands, lower_ascii, occurs_at, same_text, starts_with, text_of,
    texts, trim, trim_end, trim_start, trimmed, trimmed_end,
};

verus! {

broadcast use vstd::seq::group_seq_axioms;

/// What the last line of output starts with.
pub const EXIT_SENTINEL: &'static str = "__UNIRUN_EXIT__";

/// How to authenticate.
#[derive(Debug, Clone, Copy, PartialEq, Eq, Structural)]
pub enum WinrmAuth {
    Basic,
    Ntlm,
    Kerberos,
}

/// The method that a lower-case name stands for.
pub open spec fn auth_named(name: Seq<char>) -> Option<WinrmAuth> {
    if name == "basic"@ {
        Some(WinrmAuth::Basic)
    } else if name == "ntlm"@ || name == "negotiate"@ {
        Some(WinrmAuth::Ntlm)
    } else if name == "kerberos"@ {
        Some(WinrmAuth::Kerberos)
    } else {
        None
    }
}

impl WinrmAuth {
    /// The method that a name stands for, in either letter case.
    pub fn from_name(name: &str) -> (r: Option<WinrmAuth>)
        ensures
            r == auth_named(lower_ascii(name@)),
    {
        let lower = ascii_lowercase(name);
        let n = lower.as_str();
        if same_text(n, "basic") {
            Some(WinrmAuth::Basic)
        } else if same_text(n, "ntlm") || same_text(n, "negotiate") {
            Some(WinrmAuth::Ntlm)
        } else if same_text(n, "kerberos") {
            Some(WinrmAuth::Kerberos)
        } else {
            None
        }
    }
}

/// Port of a listener without TLS.
pub const HTTP_PORT: u16 = 5985;

/// Port of a listener with TLS.
pub const HTTPS_PORT: u16 = 5986;

/// Remote WinRM target.
#[derive(Debug)]
pub struct WinrmTarget {
    pub host: String,
    /// Listener port.
    pub port: u16,
    pub use_tls: bool,
    /// Skip verification of the certificate chain.
    pub accept_invalid_certs: bool,
    pub username: String,
    pub password: String,
    /// NetBIOS domain; empty is detected.
    pub domain: String,
    pub auth: WinrmAuth,
    pub timeout_ms: u64,
}

impl Default for WinrmTarget {
    fn default() -> (r: Self)
        ensures
            r.host@.len() == 0,
            r.port == HTTP_PORT,
            !r.use_tls,
            !r.accept_invalid_certs,
            r.username@.len() == 0,
            r.password@.len() == 0,
            r.domain@.len() == 0,
            r.auth == WinrmAuth::Ntlm,
            r.timeout_ms == 120_000,
    {
        WinrmTarget {
            host: String::new(),
            port: HTTP_PORT,
            use_tls: false,
            accept_invalid_certs: false,
            username: String::new(),
            password: String::new(),
            domain: String::new(),
            auth: WinrmAuth::Ntlm,
            timeout_ms: 120_000,
        }
    }
}

/// A deadline in whole seconds.
pub open spec fn whole_seconds(ms: u64) -> int {
    if ms < 1000 {
        1
    } else {
        ms as int / 1000
    }
}

/// A deadline in whole seconds is one second at least, and of a longer one less
/// than a second is lost.
pub proof fn law_deadline_is_in_whole_seconds(ms: u64)
    ensures
        whole_seconds(ms) >= 1,
        ms >= 1000 ==> whole_seconds(ms) * 1000 <= ms < whole_seconds(ms) * 1000 + 1000,
        ms < 1000 ==> whole_seconds(ms) == 1,
{
}

impl WinrmTarget {
    /// The deadline of one operation in whole seconds, one at least.
    pub fn operation_timeout_secs(&self) -> (r: u64)
        ensures
            r == if self.timeout_ms < 1000 {
                1
            } else {
                self.timeout_ms as int / 1000
            },
            r == whole_seconds(self.timeout_ms),
    {
        let secs: u64 = self.timeout_ms / 1000;
        if secs < 1 {
            1
        } else {
            secs
        }
    }
}

// ---------------------------------------------------------------------------
// The script
// ---------------------------------------------------------------------------

/// The script with the line that reports its exit code.
pub open spec fn reporting_script(script: Seq<char>) -> Seq<char> {
    trim_end(script) + "\nWrite-Output '"@ + EXIT_SENTINEL@ + "'$LASTEXITCODE"@
}

/// The script with the line that reports its exit code.
pub fn winrm_script(script: &str) -> (r: String)
    ensures
        r@ == reporting_script(script@),
{
    let mut s = trimmed_end(script);
    s.append("\nWrite-Output '");
    s.append(EXIT_SENTINEL);
    s.append("'$LASTEXITCODE");
    s
}

// ---------------------------------------------------------------------------
// What comes back
// ---------------------------------------------------------------------------

/// One value of the output stream.
#[derive(Debug)]
pub enum RemoteValue {
    Null,
    Text(String),
    Bool(bool),
    Signed(i64),
    Unsigned(u64),
    /// Any other value, as the protocol library writes it.
    Rendered(String),
}

/// One value of the error stream.
#[derive(Debug)]
pub enum RemoteError {
    /// An error record: the message of its exception, its identifier, and the
    /// record as the protocol library writes it.
    Record { message: Option<String>, id: Option<String>, rendered: String },
    /// Any other value.
    Value(RemoteValue),
}

/// The text of an output value.
pub open spec fn value_text(v: RemoteValue) -> Seq<char> {
    match v {
        RemoteValue::Null => seq![],
        RemoteValue::Text(s) => s@,
        RemoteValue::Bool(b) => if b {
            "true"@
        } else {
            "false"@
        },
        RemoteValue::Signed(n) => signed_decimal(n as int),
        RemoteValue::Unsigned(n) => decimal(n as nat),
        RemoteValue::Rendered(s) => s@,
    }
}

/// The text of an error value.
pub open spec fn error_text(e: RemoteError) -> Seq<char> {
    match e {
        RemoteError::Record { message, id, rendered } => match message {
            Some(m) => m@,
            None => match id {
                Some(i) => i@,
                None => rendered@,
            },
        },
        RemoteError::Value(v) => value_text(v),
    }
}

/// Render one output value as text: strings as they are, scalars in their
/// natural form.
pub fn ps_value_text(v: &RemoteValue) -> (r: String)
    ensures
        r@ == value_text(*v),
{
    match v {
        RemoteValue::Null => String::new(),
        RemoteValue::Text(s) => s.clone(),
        RemoteValue::Bool(b) => {
            if *b {
                "true".to_string()
            } else {
                "false".to_string()
            }
        },
        RemoteValue::Signed(n) => format_i64(*n),
        RemoteValue::Unsigned(n) => format_u64(*n),
        RemoteValue::Rendered(s) => s.clone(),
    }
}

/// Render one error value as text: the message of the exception where there is
/// one.
pub fn ps_error_text(e: &RemoteError) -> (r: String)
    ensures
        r@ == error_text(*e),
{
    match e {
        RemoteError::Record { message, id, rendered } => {
            match message {
                Some(m) => m.clone(),
                None => match id {
                    Some(i) => i.clone(),
                    None => rendered.clone(),
                },
            }
        },
        RemoteError::Value(v) => ps_value_text(v),
    }
}

/// Lines as one text that ends with a line feed, unless there is nothing to
/// end.
pub open spec fn lines_text(lines: Seq<Seq<char>>) -> Seq<char> {
    let joined = join(lines, "\n"@);
    if joined.len() > 0 {
        joined.push('\n')
    } else {
        joined
    }
}

/// Join lines into one text that ends with a line feed, unless there is
/// nothing to end.
pub fn join_lines(lines: Vec<String>) -> (r: String)
    ensures
        r@ == lines_text(texts(lines@)),
{
    let mut out = join_texts(&lines, "\n");
    if !is_empty_text(out.as_str()) {
        out.push('\n');
    }
    out
}

/// Whether a last line reports the exit code.
pub open spec fn reports_exit(lines: Seq<Seq<char>>) -> bool {
    lines.len() > 0 && occurs_at(lines.last(), EXIT_SENTINEL@, 0)
}

/// The lines without the one that reports the exit code.
pub open spec fn own_lines(lines: Seq<Seq<char>>) -> Seq<Seq<char>> {
    if reports_exit(lines) {
        lines.drop_last()
    } else {
        lines
    }
}

/// The exit code that the last line reports, where it does and the code can be
/// read.
pub open spec fn reported_code(lines: Seq<Seq<char>>) -> Option<int> {
    if reports_exit(lines) {
        parsed_signed(trim(lines.last().skip(EXIT_SENTINEL@.len() as int)), i32::MAX as int)
    } else {
        None
    }
}

/// Take the line that reports the exit code off the output.
pub fn take_exit_code(lines: &mut Vec<String>) -> (r: Option<i32>)
    ensures
        texts(final(lines)@) == own_lines(texts(old(lines)@)),
        match r {
            Some(code) => reported_code(texts(old(lines)@)) == Some(code as int),
            None => reported_code(texts(old(lines)@)) is None,
        },
{
    let n: usize = lines.len();
    if n == 0 {
        return None;
    }
    let ghost all = texts(lines@);
    proof {
        assert(all.last() == lines@[n - 1]@);
    }
    if !starts_with(lines[n - 1].as_str(), EXIT_SENTINEL) {
        return None;
    }
    let v = chars_of(lines[n - 1].as_str());
    let k: usize = chars_of(EXIT_SENTINEL).len();
    let rest = text_of(&v, k, v.len());
    proof {
        assert(rest@ =~= all.last().skip(k as int));
    }
    let code = parse_i32(trimmed(rest.as_str()).as_str());
    let _ = lines.pop();
    proof {
        assert(texts(lines@) =~= all.drop_last());
    }
    code
}

/// The exit code of a remote run: the reported one, else whether there were
/// errors.
pub open spec fn remote_code(lines: Seq<Seq<char>>, any_errors: bool) -> i32 {
    match reported_code(lines) {
        Some(code) => code as i32,
        None => if any_errors {
            1
        } else {
            0
        },
    }
}

/// The views of the output.
pub open spec fn value_texts(v: Seq<RemoteValue>) -> Seq<Seq<char>> {
    v.map_values(|x: RemoteValue| value_text(x))
}

/// The views of the errors.
pub open spec fn error_texts(v: Seq<RemoteError>) -> Seq<Seq<char>> {
    v.map_values(|x: RemoteError| error_text(x))
}

/// The result of a remote run before it is classified.
pub open spec fn pipeline_result(
    output: Seq<Seq<char>>,
    errors: Seq<Seq<char>>,
    windows: bool,
    duration_ms: u64,
) -> ResultView {
    ResultView {
        exit_code: Some(remote_code(output, errors.len() > 0)),
        duration_ms,
        ..successful(
            lines_text(own_lines(output)),
            lines_text(errors),
            if windows {
                "powershell"@
            } else {
                "winrm-powershell"@
            },
        )
    }
}

/// The normalized result of a pipeline that ran: exit code from the last line
/// of output, stderr from the error stream.
pub fn finish_pipeline(
    output: &Vec<RemoteValue>,
    errors: &Vec<RemoteError>,
    windows: bool,
    duration_ms: u64,
) -> (r: ExecResult)
    ensures
        ({
            let plain = pipeline_result(
                value_texts(output@),
                error_texts(errors@),
                windows,
                duration_ms,
            );
            &&& r@ == with_class(plain, class_with(plain, Map::empty()))
            &&& all_ascii(plain.stderr) ==> r@ == with_class(plain, ascii_class(plain))
            &&& silent_exit(plain) ==> r@ == plain
        }),
{
    let mut out_lines: Vec<String> = Vec::new();
    let mut i: usize = 0;
    while i < output.len()
        invariant
            i <= output.len(),
            texts(out_lines@) == value_texts(output@.take(i as int)),
        decreases output.len() - i,
    {
        let line = ps_value_text(&output[i]);
        proof {
            assert(texts(out_lines@.push(line)) =~= texts(out_lines@).push(line@));
            assert(value_texts(output@.take(i + 1)) =~= value_texts(output@.take(i as int)).push(
                line@,
            ));
        }
        out_lines.push(line);
        i += 1;
    }
    let mut err_lines: Vec<String> = Vec::new();
    let mut j: usize = 0;
    while j < errors.len()
        invariant
            j <= errors.len(),
            texts(err_lines@) == error_texts(errors@.take(j as int)),
        decreases errors.len() - j,
    {
        let line = ps_error_text(&errors[j]);
        proof {
            assert(texts(err_lines@.push(line)) =~= texts(err_lines@).push(line@));
            assert(error_texts(errors@.take(j + 1)) =~= error_texts(errors@.take(j as int)).push(
                line@,
            ));
        }
        err_lines.push(line);
        j += 1;
    }
    proof {
        assert(output@.take(output@.len() as int) =~= output@);
        assert(errors@.take(errors@.len() as int) =~= errors@);
    }
    let code: i32 = match take_exit_code(&mut out_lines) {
        Some(c) => c,
        None => {
            if errors.len() == 0 {
                0
            } else {
                1
            }
        },
    };
    let shell = if windows {
        "powershell"
    } else {
        "winrm-powershell"
    };
    let mut r = ExecResult::success(join_lines(out_lines), join_lines(err_lines), shell);
    r.exit_code = Some(code);
    r.duration_ms = duration_ms;
    let classes = classify(&r);
    r.error_class = classes.0;
    r.hint = classes.1;
    r
}

/// Where a remote run failed before there was a result.
#[derive(Debug, Clone, Copy, PartialEq, Eq, Structural)]
pub enum WinrmStage {
    /// The client could not be set up.
    Client,
    /// The pipeline could not be run.
    Pipeline,
}

/// What a failure is introduced with.
pub open spec fn stage_text(stage: WinrmStage) -> Seq<char> {
    match stage {
        WinrmStage::Client => "winrm client init failed: "@,
        WinrmStage::Pipeline => "winrm/psrp error: "@,
    }
}

/// The result of a remote run that failed before there was a result.
pub open spec fn failed_run(
    stage: WinrmStage,
    error: Seq<char>,
    host: Seq<char>,
    port: u16,
    duration_ms: u64,
) -> ResultView {
    ResultView {
        exit_code: None,
        error_class: Some("COMMAND_NOT_FOUND"@),
        hint: Some(
            "WinRM connection to "@ + host + ":"@ + decimal(port as nat)
                + " failed; check host, port, auth, and that WinRM is enabled"@,
        ),
        duration_ms,
        ..successful(seq![], stage_text(stage) + error, "winrm"@)
    }
}

/// A remote run that came to nothing has no exit code and no output; it says what
/// went wrong, and which host could not be reached.
pub proof fn law_failed_connection_is_reported(
    stage: WinrmStage,
    error: Seq<char>,
    host: Seq<char>,
    port: u16,
    duration_ms: u64,
)
    ensures
        ({
            let r = failed_run(stage, error, host, port, duration_ms);
            &&& r.exit_code is None
            &&& r.stdout.len() == 0
            &&& error.is_suffix_of(r.stderr)
            &&& r.error_class == Some("COMMAND_NOT_FOUND"@)
            &&& r.hint matches Some(h) && has_text(h, host + ":"@ + decimal(port as nat))
            &&& !r.timed_out && !r.aborted && !r.truncated
            &&& r.duration_ms == duration_ms
            &&& r.shell_used == "winrm"@
        }),
{
    let r = failed_run(stage, error, host, port, duration_ms);
    let front = stage_text(stage);
    assert(r.stderr.subrange(front.len() as int, r.stderr.len() as int) =~= error);
    let at = host + ":"@ + decimal(port as nat);
    let before = "WinRM connection to "@;
    let after = " failed; check host, port, auth, and that WinRM is enabled"@;
    law_text_is_found_where_it_stands(before, at, after, 0);
    assert(r.hint->0 =~= before + at + after);
}

/// The normalized result of a remote run that failed before there was a
/// result.
pub fn winrm_failure(
    stage: WinrmStage,
    error: &str,
    target: &WinrmTarget,
    duration_ms: u64,
) -> (r: ExecResult)
    ensures
        r@ == failed_run(stage, error@, target.host@, target.port, duration_ms),
        r@ == (ResultView {
            exit_code: None,
            error_class: Some("COMMAND_NOT_FOUND"@),
            hint: Some(
                "WinRM connection to "@ + target.host@ + ":"@ + decimal(target.port as nat)
                    + " failed; check host, port, auth, and that WinRM is enabled"@,
            ),
            duration_ms,
            ..successful(seq![], stage_text(stage) + error@, "winrm"@)
        }),
{
    let mut message = match stage {
        WinrmStage::Client => "winrm client init failed: ".to_string(),
        WinrmStage::Pipeline => "winrm/psrp error: ".to_string(),
    };
    message.append(error);
    let mut hint = "WinRM connection to ".to_string();
    hint.append(target.host.as_str());
    hint.append(":");
    hint.append(format_u64(target.port as u64).as_str());
    hint.append(" failed; check host, port, auth, and that WinRM is enabled");
    let mut r = ExecResult::success(String::new(), message, "winrm");
    r.exit_code = None;
    r.error_class = Some("COMMAND_NOT_FOUND".to_string());
    r.hint = Some(hint);
    r.duration_ms = duration_ms;
    r
}

// ---------------------------------------------------------------------------
// Laws
// ---------------------------------------------------------------------------

proof fn lemma_trim_digits(s: Seq<char>)
    requires
        s.len() > 0,
        !is_space(s[0]),
        !is_space(s.last()),
    ensures
        trim(s) == s,
{
    assert(trim_start(s) == s);
    assert(trim_end(s) == s);
}

/// The exit code that a script reports is the exit code of its run, and its
/// own output is left as it was.
pub proof fn law_reported_code_is_taken(own: Seq<Seq<char>>, code: i32, any_errors: bool)
    ensures
        ({
            let lines = own.push(EXIT_SENTINEL@ + signed_decimal(code as int));
            remote_code(lines, any_errors) == code && own_lines(lines) == own
        }),
{
    let digits = signed_decimal(code as int);
    let last = EXIT_SENTINEL@ + digits;
    let lines = own.push(last);
    let k = EXIT_SENTINEL@.len() as int;
    assert(last.subrange(0, k) =~= EXIT_SENTINEL@);
    assert(last.skip(k) =~= digits);
    assert(lines.drop_last() =~= own);
    law_signed_roundtrip(code as int, i32::MAX as int);
    lemma_signed_has_no_space(code as int);
    lemma_trim_digits(digits);
}

/// Where the script did not come to report a code, the run failed exactly if there
/// were errors, and all of its output is its own.
pub proof fn law_unreported_code_follows_errors(lines: Seq<Seq<char>>, any_errors: bool)
    requires
        lines.len() == 0 || !EXIT_SENTINEL@.is_prefix_of(lines.last()),
    ensures
        remote_code(lines, any_errors) == if any_errors {
            1i32
        } else {
            0i32
        },
        own_lines(lines) == lines,
{
    if lines.len() > 0 {
        let last = lines.last();
        let k = EXIT_SENTINEL@.len() as int;
        if occurs_at(last, EXIT_SENTINEL@, 0) {
            assert(last.subrange(0, k) =~= EXIT_SENTINEL@);
        }
    }
}

/// A remote run is reported as it was: its output without the line that reports
/// the code, its errors as stderr, the reported code, and neither a timeout nor an
/// abort.
pub proof fn law_pipeline_says_what_the_run_did(
    own: Seq<Seq<char>>,
    code: i32,
    errors: Seq<Seq<char>>,
    windows: bool,
    duration_ms: u64,
)
    ensures
        ({
            let output = own.push(EXIT_SENTINEL@ + signed_decimal(code as int));
            let r = pipeline_result(output, errors, windows, duration_ms);
            &&& r.exit_code == Some(code)
            &&& r.stdout == lines_text(own)
            &&& r.stderr == lines_text(errors)
            &&& !r.timed_out && !r.aborted && !r.truncated
            &&& r.duration_ms == duration_ms
            &&& r.signal is None && r.encoding == "utf-8"@
            &&& windows ==> r.shell_used == "powershell"@
            &&& !windows ==> r.shell_used == "winrm-powershell"@
        }),
{
    law_reported_code_is_taken(own, code, errors.len() > 0);
}

/// Lines come back with a line feed between them and one at their end.
pub proof fn law_lines_are_ended(lines: Seq<Seq<char>>)
    ensures
        join(lines, "\n"@).len() > 0 ==> lines_text(lines) == join(lines, "\n"@).push('\n'),
        join(lines, "\n"@).len() == 0 ==> lines_text(lines).len() == 0,
        lines.len() == 1 && lines[0].len() > 0 ==> lines_text(lines) == lines[0].push('\n'),
{
}

/// The script that is sent is the script, with one line behind it that reports the
/// exit code under the marker that is looked for.
pub proof fn law_script_reports_its_code(script: Seq<char>)
    ensures
        trim_end(script).is_prefix_of(reporting_script(script)),
        reporting_script(script).skip(trim_end(script).len() as int) == "\nWrite-Output '"@
            + EXIT_SENTINEL@ + "'$LASTEXITCODE"@,
{
    let r = reporting_script(script);
    let n = trim_end(script).len() as int;
    assert(r.subrange(0, n) =~= trim_end(script));
    assert(r.skip(n) =~= "\nWrite-Output '"@ + EXIT_SENTINEL@ + "'$LASTEXITCODE"@);
}

/// Each method of authentication is known by its names and by no other.
pub proof fn law_authentication_has_its_names(name: Seq<char>)
    ensures
        auth_named(name) == Some(WinrmAuth::Basic) <==> name == "basic"@,
        auth_named(name) == Some(WinrmAuth::Ntlm) <==> name == "ntlm"@ || name == "negotiate"@,
        auth_named(name) == Some(WinrmAuth::Kerberos) <==> name == "kerberos"@,
{
    reveal_strlit("basic");
    reveal_strlit("ntlm");
    reveal_strlit("negotiate");
    reveal_strlit("kerberos");
    assert("basic"@[0] == 'b' && "ntlm"@[0] == 'n' && "negotiate"@[0] == 'n');
    assert("kerberos"@[0] == 'k');
}

/// A value is shown as itself: a text as it stands, a number in decimal, a truth
/// value as its word, and nothing as nothing.
pub proof fn law_values_are_shown_as_themselves(s: String, n: i64, m: u64, b: bool)
    ensures
        value_text(RemoteValue::Text(s)) == s@,
        value_text(RemoteValue::Rendered(s)) == s@,
        value_text(RemoteValue::Null).len() == 0,
        value_text(RemoteValue::Bool(true)) == "true"@,
        value_text(RemoteValue::Bool(false)) == "false"@,
        parsed_signed(value_text(RemoteValue::Signed(n)), i64::MAX as int) == Some(n as int),
        parsed_unsigned(value_text(RemoteValue::Unsigned(m)), u64::MAX as int) == Some(m as int),
        error_text(RemoteError::Value(RemoteValue::Text(s))) == s@,
{
    law_signed_roundtrip(n as int, i64::MAX as int);
    law_unsigned_roundtrip(m as nat, u64::MAX as int);
}

/// What an error says is its message, where it has none its identifier, and where
/// it has neither the record itself.
pub proof fn law_errors_speak_for_themselves(
    message: Option<String>,
    id: Option<String>,
    rendered: String,
)
    ensures
        ({
            let t = error_text(RemoteError::Record { message, id, rendered });
            &&& message matches Some(m) ==> t == m@
            &&& message is None ==> (id matches Some(i) ==> t == i@)
            &&& message is None && id is None ==> t == rendered@
        }),
{
}

proof fn lemma_signed_has_no_space(i: int)
    ensures
        signed_decimal(i).len() > 0,
        !is_space(signed_decimal(i)[0]),
        !is_space(signed_decimal(i).last()),
{
    let n = if i < 0 {
        (-i) as nat
    } else {
        i as nat
    };
    crate::number::lemma_decimal(n);
    assert(is_digit(decimal(n)[0]));
    assert(is_digit(decimal(n)[decimal(n).len() - 1]));
}

} // verus!

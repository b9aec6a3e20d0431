use unirun::exec::StreamKind;
use unirun::recipe::{registry_dir, unirun_home};
use unirun::session::{
    corrupt_session, finished_state, initial_state, kill_plan, kill_step, killed_state, list,
    missing_session, new_id, output, read_tail, runner_spec, session_dir, session_spec,
    sessions_dir, started_record, started_state, status, status_of, wait_step, KillPlan, LogSink, SessionState,
    StreamLog, WaitStep, LOG_CAP,
};
use unirun::spec::{ExecResult, ExecSpec, Shell};

fn state(id: &str, started_at: u64) -> SessionState {
    initial_state(id, "label", started_at)
}

#[test]
fn read_tail_keeps_char_boundary() {
    let t = read_tail(&Some("abcdef中文".as_bytes().to_vec()), 4);
    assert!(t.ends_with("文"), "tail: {:?}", t);
    assert!(!t.contains('\u{FFFD}'));
}

#[test]
fn status_of_maps_exec_result() {
    let mut r = ExecResult::success(String::new(), String::new(), "bash");
    assert_eq!(status_of(&r), "completed");
    r.exit_code = Some(3);
    r.error_class = Some("NOT_FOUND".into());
    assert_eq!(status_of(&r), "failed");
    r.timed_out = true;
    assert_eq!(status_of(&r), "timed_out");
    r.timed_out = false;
    r.aborted = true;
    assert_eq!(status_of(&r), "aborted");
}

#[test]
fn sessions_dir_uses_unirun_home() {
    let home = "/tmp/unirun-sess-dir-1".to_string();
    assert_eq!(sessions_dir(&unirun_home(&Some(home.clone()), "/root", false), false), format!("{}/sessions", home));
    assert_eq!(sessions_dir(&unirun_home(&None, "/root", false), false), "/root/.unirun/sessions");
    assert_eq!(session_dir("/h", "ab", false), "/h/sessions/ab");
    assert_eq!(registry_dir("/h", false), "/h/recipes");
}

#[test]
fn library_timeout_marks_session_timed_out() {
    let spec = ExecSpec { command: "sleep 60".into(), timeout_ms: 500, ..Default::default() };
    let rec = session_spec(&spec);
    assert_eq!(runner_spec(&rec).timeout_ms, 500);
    let mut r = ExecResult::success(String::new(), String::new(), "bash");
    r.exit_code = None;
    r.timed_out = true;
    let done = finished_state("id", &r, 7, 1_000, false, &Some(state("id", 400)));
    assert_eq!(done.status, "timed_out", "state: {:?}", done);
}

#[test]
fn library_start_wait_output_roundtrip() {
    let spec = ExecSpec { command: "printf 'one\\n'; printf 'two' ; echo warn >&2".into(), ..Default::default() };
    let st = started_state("1a", "lib-test", 5, 77);
    assert_eq!(st.status, "running");
    assert_eq!(st.pid, Some(77));
    assert_eq!(st.started_at, 5);
    let mut logs = LogSink::new();
    let mut so = String::new();
    let mut se = String::new();
    so.push_str(&logs.push(StreamKind::Stdout, "one\n"));
    se.push_str(&logs.push(StreamKind::Stderr, "warn\n"));
    so.push_str(&logs.push(StreamKind::Stdout, "two"));
    let mut r = ExecResult::success("one\ntwo".into(), "warn\n".into(), "bash");
    r.duration_ms = 12;
    let done = finished_state("1a", &r, 77, 100, logs.truncated(), &Some(st));
    assert_eq!(done.status, "completed", "state: {:?}", done);
    assert_eq!(done.exit_code, Some(0), "state: {:?}", done);
    assert!(done.duration_ms > 0);
    assert_eq!(done.label, "lib-test");
    assert_eq!(runner_spec(&session_spec(&spec)).command, spec.command);
    let (so, se, truncated) = output(&done, &Some(so.into_bytes()), &Some(se.into_bytes()), 4096);
    assert!(so.contains("one") && so.contains("two"), "stdout: {:?}", so);
    assert!(se.to_lowercase().contains("warn"), "stderr: {:?}", se);
    assert!(!truncated);
}

#[test]
fn record_keeps_what_runs() {
    let spec = ExecSpec {
        command: "make".into(),
        shell: Some(Shell::Pwsh),
        workdir: Some("/w".into()),
        env: vec![("K".into(), "V".into())],
        ..Default::default()
    };
    let rec = session_spec(&spec);
    assert_eq!(rec.shell.as_deref(), Some("pwsh"));
    assert_eq!(rec.timeout_ms, 120_000);
    let ran = runner_spec(&rec);
    assert_eq!(ran.shell, Some(Shell::Pwsh));
    assert_eq!(ran.workdir.as_deref(), Some("/w"));
    assert_eq!(ran.env, vec![("K".to_string(), "V".to_string())]);
    assert_eq!(ran.timeout_ms, 120_000);
}

#[test]
fn finished_record_without_an_earlier_one() {
    let mut r = ExecResult::success(String::new(), String::new(), "sh");
    r.duration_ms = 30;
    let st = finished_state("x", &r, 1, 100, true, &None);
    assert_eq!(st.started_at, 70);
    assert_eq!(st.finished_at, Some(100));
    assert_eq!(st.label, "");
    assert!(st.truncated_log);
    assert_eq!(finished_state("x", &r, 1, 10, false, &None).started_at, 0);
}

#[test]
fn a_start_reports_a_running_session() {
    let st = started_state("i", "l", 9, 3);
    assert_eq!((st.status.as_str(), st.label.as_str(), st.pid), ("running", "l", Some(3)));
    assert_eq!((st.started_at, st.finished_at, st.exit_code), (9, None, None));
    assert_eq!(started_record(None, "i", "l", 9, 3).started_at, 9);
    let rec = started_record(Some(state("i", 7)), "i", "l", 9, 3);
    assert_eq!((rec.status.as_str(), rec.pid, rec.started_at), ("running", Some(3), 7));
    let r = ExecResult::success(String::new(), String::new(), "sh");
    let done = finished_state("i", &r, 8, 20, false, &Some(state("i", 7)));
    let rec = started_record(Some(done), "i", "l", 9, 3);
    assert_eq!((rec.status.as_str(), rec.pid, rec.finished_at), ("completed", Some(8), Some(20)));
}

#[test]
fn dead_runner_means_interrupted() {
    let mut st = state("a", 1);
    st.pid = Some(5);
    let (st, changed) = status(st, true, 50);
    assert!(!changed);
    assert_eq!(st.status, "running");
    let (st, changed) = status(st, false, 50);
    assert!(changed);
    assert_eq!(st.status, "interrupted");
    assert_eq!(st.finished_at, Some(50));
    let (st, changed) = status(st, false, 60);
    assert!(!changed);
    assert_eq!(st.finished_at, Some(50));
    let (st, changed) = status(state("b", 1), false, 60);
    assert!(!changed && st.status == "running");
}

#[test]
fn library_kill_terminates_long_run() {
    let mut st = state("k", 1);
    assert_eq!(kill_plan(&st), KillPlan::NoPid);
    st.pid = Some(9);
    assert_eq!(kill_plan(&st), KillPlan::End(9));
    assert_eq!(kill_step(false, 0), WaitStep::Sleep(50));
    assert_eq!(kill_step(false, 3_000), WaitStep::GiveUp);
    assert_eq!(kill_step(true, 0), WaitStep::Answer);
    let killed = killed_state(st, 77);
    assert!(killed.is_terminal(), "state: {:?}", killed);
    assert_eq!(killed.status, "killed");
    assert_eq!(kill_plan(&killed), KillPlan::Over);
}

#[test]
fn waiting_ends_with_the_session_or_the_time() {
    let st = state("w", 1);
    assert_eq!(wait_step(&st, 99, 100), WaitStep::Sleep(100));
    assert_eq!(wait_step(&st, 100, 100), WaitStep::Answer);
    assert_eq!(wait_step(&killed_state(st, 2), 0, 100), WaitStep::Answer);
}

#[test]
fn list_is_newest_first_and_stable() {
    let found = vec![state("a", 5), state("b", 9), state("c", 5), state("d", 7), state("e", 9)];
    let ids: Vec<String> = list(found).into_iter().map(|s| s.id).collect();
    assert_eq!(ids, vec!["b", "e", "d", "a", "c"]);
    assert!(list(vec![]).is_empty());
}

#[test]
fn log_stops_at_its_cap() {
    let mut log = StreamLog::new();
    let almost = "x".repeat(LOG_CAP as usize - 1);
    assert_eq!(log.push(&almost).len(), almost.len());
    assert!(!log.is_full());
    assert_eq!(log.push("中"), "");
    assert!(log.is_full());
    assert_eq!(log.push("y"), "");
    let mut log = StreamLog::new();
    assert_eq!(log.push(&"é".repeat(600_000)).len(), LOG_CAP as usize);
    assert!(log.is_full());
    let mut log = StreamLog::new();
    assert_eq!(log.push(&"w".repeat(LOG_CAP as usize)).len(), LOG_CAP as usize);
    assert!(!log.is_full());
    assert_eq!(log.push(""), "");
    assert!(!log.is_full());
    assert_eq!(log.push("w"), "");
    assert!(log.is_full());
    let mut sink = LogSink::new();
    sink.push(StreamKind::Stdout, &"w".repeat(LOG_CAP as usize));
    assert!(!sink.truncated());
    let mut sink = LogSink::new();
    sink.push(StreamKind::Stderr, &"z".repeat(LOG_CAP as usize + 5));
    assert!(sink.truncated());
    assert_eq!(sink.push(StreamKind::Stdout, "still open"), "still open");
}

#[test]
fn tails() {
    assert_eq!(read_tail(&None, 10), "");
    assert_eq!(read_tail(&Some(b"abc".to_vec()), 10), "abc");
    assert_eq!(read_tail(&Some(b"abcdef".to_vec()), 2), "ef");
    assert_eq!(read_tail(&Some("中".as_bytes().to_vec()), 2), "");
    assert_eq!(read_tail(&Some(b"x\xFFy".to_vec()), 9), "x\u{FFFD}y");
}

#[test]
fn names_and_messages() {
    assert_eq!(new_id(0xab, 0x10, 0), "ab100");
    assert_ne!(new_id(1, 2, 3), new_id(1, 2, 4));
    assert_eq!(missing_session("q", "gone"), "no such session `q`: gone");
    assert_eq!(corrupt_session("q", "eof"), "session `q` state corrupt: eof");
}

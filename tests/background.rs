use session_engine::background::{plan_background_cmd, ProcessState, RaceOutcome, DEFAULT_TIMEOUT_MS};
use session_engine::session::PollOutcome;

#[test]
fn fast_command_completes_without_registering() {
    let mut st: ProcessState<u32> = ProcessState::new();
    let r = st
        .settle_race("fast".to_string(), RaceOutcome::Exited(Some(3)), b"out\n", b"err")
        .unwrap();
    assert_eq!(r.status, "completed");
    assert_eq!(r.pid, Some("fast".to_string()));
    assert_eq!(r.stdout, "out\n");
    assert_eq!(r.stderr, "err");
    assert_eq!(r.exit_code, Some(3));
    assert_eq!(st.processes.len(), 0);
}

#[test]
fn slow_command_runs_then_completes_on_check() {
    let mut st: ProcessState<u32> = ProcessState::new();
    let r = st
        .settle_race("slow".to_string(), RaceOutcome::TimedOut(77), b"partial", b"")
        .unwrap();
    assert_eq!(r.status, "running");
    assert_eq!(r.exit_code, None);
    assert_eq!(r.stdout, "partial");
    assert!(st.awaiting_exit(&"slow".to_string()));

    let r = st
        .check_background_cmd("slow".to_string(), PollOutcome::Running, b"partial more", b"")
        .unwrap();
    assert_eq!(r.status, "running");
    assert_eq!(r.stdout, "partial more");

    let r = st
        .check_background_cmd("slow".to_string(), PollOutcome::Exited(Some(0)), b"partial more done", b"w")
        .unwrap();
    assert_eq!(r.status, "completed");
    assert_eq!(r.exit_code, Some(0));
    assert_eq!(r.stdout, "partial more done");
    assert_eq!(r.stderr, "w");

    // Once finished, the recorded code is reported and the poll is not read.
    let r = st
        .check_background_cmd("slow".to_string(), PollOutcome::Failed("x".to_string()), b"all", b"")
        .unwrap();
    assert_eq!(r.status, "completed");
    assert_eq!(r.exit_code, Some(0));
    assert!(!st.awaiting_exit(&"slow".to_string()));
}

#[test]
fn kill_unknown_and_twice_succeeds() {
    let mut st: ProcessState<u32> = ProcessState::new();
    assert_eq!(st.kill_background_cmd(&"nope".to_string()), None);
    st.settle_race("k".to_string(), RaceOutcome::TimedOut(5), b"", b"").unwrap();
    assert_eq!(st.kill_background_cmd(&"k".to_string()), Some(5));
    assert_eq!(st.kill_background_cmd(&"k".to_string()), None);
    assert_eq!(st.processes.len(), 0);
}

#[test]
fn check_errors() {
    let mut st: ProcessState<u32> = ProcessState::new();
    let e = st.check_background_cmd("none".to_string(), PollOutcome::Running, b"", b"").err();
    assert_eq!(e, Some("Process not found".to_string()));
    st.settle_race("q".to_string(), RaceOutcome::TimedOut(1), b"", b"").unwrap();
    let e = st
        .check_background_cmd("q".to_string(), PollOutcome::Failed("boom".to_string()), b"", b"")
        .err();
    assert_eq!(e, Some("Error checking process: boom".to_string()));
}

#[test]
fn wait_failure_and_id_reuse_are_errors() {
    let mut st: ProcessState<u32> = ProcessState::new();
    let e = st
        .settle_race("w".to_string(), RaceOutcome::WaitFailed("gone".to_string()), b"", b"")
        .err();
    assert_eq!(e, Some("Process error: gone".to_string()));
    st.settle_race("d".to_string(), RaceOutcome::TimedOut(1), b"", b"").unwrap();
    let e = st.settle_race("d".to_string(), RaceOutcome::TimedOut(2), b"", b"").err();
    assert_eq!(e, Some("Process id already in use: d".to_string()));
    assert_eq!(st.kill_background_cmd(&"d".to_string()), Some(1));
}

#[test]
fn invalid_utf8_output_is_replaced() {
    let mut st: ProcessState<u32> = ProcessState::new();
    let r = st
        .settle_race("u".to_string(), RaceOutcome::Exited(None), &[b'a', 0xff, b'b'], &[0xc3, 0xa9])
        .unwrap();
    assert_eq!(r.stdout, "a\u{FFFD}b");
    assert_eq!(r.stderr, "\u{e9}");
    assert_eq!(r.exit_code, None);
}

#[test]
fn plan_uses_shell_default_timeout_and_fresh_id() {
    let p = plan_background_cmd("echo hi".to_string(), "".to_string(), None, false);
    assert_eq!(p.program, "sh");
    assert_eq!(p.args, vec!["-c".to_string(), "echo hi".to_string()]);
    assert_eq!(p.cwd, None);
    assert_eq!(p.timeout_ms, DEFAULT_TIMEOUT_MS);
    assert_eq!(p.timeout_ms, 5000);
    assert_eq!(p.pid.len(), 36);
    let q = plan_background_cmd("dir".to_string(), "C:\\w".to_string(), Some(50), true);
    assert_eq!(q.program, "cmd");
    assert_eq!(q.args, vec!["/C".to_string(), "dir".to_string()]);
    assert_eq!(q.cwd, Some("C:\\w".to_string()));
    assert_eq!(q.timeout_ms, 50);
    assert_ne!(p.pid, q.pid);
}

use ir::child::{after_child_setup, after_exec_failure, ChildAction};
use ir::err::Error;
use ir::fdio::write_str;
use ir::frame::ByteOrder;
use ir::selector::{ReaderState, Selecter};
use ir::spec::{prepare, Launch};
use ir::supervisor::{Cleanup, INCOMPLETE_FRAME, FdResult, SelectOutcome, Step, Supervisor, Usage, WaitOutcome, WaitStep};

const ERR_FD: i32 = 10;

fn usage() -> Usage {
    Usage { user_usec: 1, system_usec: 2, max_rss: 3 }
}

fn launch(argv: &[&str], keys: &[&str]) -> Launch {
    let argv = argv.iter().map(|a| a.as_bytes().to_vec()).collect();
    let keys = keys.iter().map(|k| k.to_string()).collect();
    match prepare(argv, &keys) {
        Ok(l) => l,
        Err(e) => panic!("unexpected {:?}", e),
    }
}

#[test]
fn trivial_success() {
    let mut s = Supervisor::new(ERR_FD, ByteOrder::Little);
    s.record_fork(100, launch(&["/bin/true"], &[]));
    assert!(s.any_live());
    s.close_channel();
    assert!(!s.any_readers());
    assert!(s.reap(100, 0, usage(), vec![]));
    assert!(!s.any_live());
    assert_eq!(s.result.procs.len(), 1);
    assert_eq!(s.result.procs[0].pid, 100);
    assert_eq!(s.result.procs[0].status, 0);
    assert!(s.result.errors.is_empty());
    assert_eq!(s.exit_code(), 0);
}

#[test]
fn exec_failure_reaches_errors() {
    let order = ByteOrder::Little;
    let mut s = Supervisor::new(ERR_FD, order);
    s.record_fork(200, launch(&["/nonexistent/xyz"], &[]));
    let msg = "exec: /nonexistent/xyz: No such file or directory";
    s.on_read(ERR_FD, &write_str(msg, order));
    assert!(s.reap(200, 71 << 8, usage(), vec![]));
    assert_eq!(s.result.procs.len(), 1);
    assert_ne!(s.result.procs[0].status, 0);
    assert_eq!(s.result.errors, vec![msg.to_string()]);
    assert_eq!(s.exit_code(), 1);
}

#[test]
fn capture_output() {
    let mut s = Supervisor::new(ERR_FD, ByteOrder::Little);
    s.record_fork(300, launch(&["/bin/echo", "hello"], &["1"]));
    s.insert_reader(20, ReaderState::Capture { buf: Vec::new() });
    s.on_read(20, b"hel");
    s.on_read(20, b"lo\n");
    let out = match s.remove_reader(20) {
        ReaderState::Capture { buf } => buf,
        ReaderState::Errors { .. } => panic!("wrong state"),
    };
    assert_eq!(out, b"hello\n".to_vec());
    assert!(s.reap(300, 0, usage(), vec![Cleanup::Done(FdResult::Output(out))]));
    let rec = &s.result.procs[0];
    assert_eq!(rec.fds.len(), 1);
    assert_eq!(rec.fds[0].0, 1);
    assert!(matches!(&rec.fds[0].1, FdResult::Output(b) if b == b"hello\n"));
    assert_eq!(s.exit_code(), 0);
}

#[test]
fn two_children_any_reap_order() {
    let mut s = Supervisor::new(ERR_FD, ByteOrder::Little);
    s.record_fork(401, launch(&["/bin/sleep", "0"], &[]));
    s.record_fork(402, launch(&["/bin/sleep", "0"], &[]));
    assert!(s.reap(402, 0, usage(), vec![]));
    assert!(s.any_live());
    assert!(s.reap(401, 0, usage(), vec![]));
    assert!(!s.any_live());
    let pids: Vec<i32> = s.result.procs.iter().map(|p| p.pid).collect();
    assert_eq!(pids, vec![402, 401]);
    assert!(s.result.procs.iter().all(|p| p.status == 0));
    assert_eq!(s.exit_code(), 0);
}

#[test]
fn child_setup_failure_frame() {
    let order = ByteOrder::Big;
    let mut s = Supervisor::new(ERR_FD, order);
    s.record_fork(500, launch(&["/bin/true"], &["1"]));
    let frame = write_str("failed to set up fd 1: Permission denied", order);
    // The frame arrives in two pieces.
    s.on_read(ERR_FD, &frame[..5]);
    s.on_read(ERR_FD, &frame[5..]);
    assert!(s.reap(500, 71 << 8, usage(), vec![Cleanup::Nothing]));
    assert_eq!(s.result.errors, vec!["failed to set up fd 1: Permission denied".to_string()]);
    assert!(s.result.procs[0].fds.is_empty());
    assert_eq!(s.exit_code(), 1);
}

#[test]
fn interrupted_select_changes_nothing() {
    let s = Supervisor::new(ERR_FD, ByteOrder::Little);
    assert!(s.after_select(SelectOutcome::Interrupted) == Step::Again);
    assert!(s.after_select(SelectOutcome::Ready) == Step::Again);
    assert!(s.after_select(SelectOutcome::Failed(9)) == Step::Fatal(Error::Os(9)));
    assert!(s.any_readers());
}

#[test]
fn unknown_pid_leaves_table_alone() {
    let mut s = Supervisor::new(ERR_FD, ByteOrder::Little);
    s.record_fork(600, launch(&["/bin/true"], &[]));
    assert!(!s.reap(999, 0, usage(), vec![]));
    assert!(s.any_live());
    assert!(s.result.procs.is_empty());
    assert!(s.reap(600, 0, usage(), vec![]));
    assert!(!s.any_live());
}

#[test]
fn teardown_failure_gives_sentinel() {
    let mut s = Supervisor::new(ERR_FD, ByteOrder::Little);
    s.record_fork(700, launch(&["/bin/true"], &["1", "2", "3"]));
    let outs = vec![
        Cleanup::Failed("failed to clean up fd 1: Bad file descriptor".to_string()),
        Cleanup::Nothing,
        Cleanup::Done(FdResult::Output(b"x".to_vec())),
    ];
    assert!(s.reap(700, 0, usage(), outs));
    let rec = &s.result.procs[0];
    assert_eq!(rec.fds.len(), 2);
    assert_eq!(rec.fds[0].0, 1);
    assert!(matches!(rec.fds[0].1, FdResult::Unavailable));
    assert_eq!(rec.fds[1].0, 3);
    assert_eq!(s.result.errors, vec!["failed to clean up fd 1: Bad file descriptor".to_string()]);
    assert_eq!(s.exit_code(), 1);
}

#[test]
fn fewer_results_than_managers() {
    let mut s = Supervisor::new(ERR_FD, ByteOrder::Little);
    s.record_fork(800, launch(&["/bin/true"], &["0", "1"]));
    let outs = vec![
        Cleanup::Done(FdResult::Output(vec![])),
        Cleanup::Done(FdResult::Output(vec![])),
        Cleanup::Done(FdResult::Output(vec![])),
    ];
    assert!(s.reap(800, 0, usage(), outs));
    assert_eq!(s.result.procs[0].fds.len(), 2);
}

#[test]
fn unfinished_frame_at_eof_is_an_error() {
    let order = ByteOrder::Little;
    let mut s = Supervisor::new(ERR_FD, order);
    let frame = write_str("abc", order);
    s.on_read(ERR_FD, &frame[..9]);
    assert_eq!(s.exit_code(), 1);
    s.close_channel();
    assert_eq!(s.result.errors, vec![INCOMPLETE_FRAME.to_string()]);
    assert_eq!(s.exit_code(), 1);
}

#[test]
fn supervisor_error_fails_run() {
    let mut s = Supervisor::new(ERR_FD, ByteOrder::Little);
    s.record_error("failed to set up fd 1: Too many open files".to_string());
    assert_eq!(s.exit_code(), 1);
}

#[test]
fn frames_before_eof_are_kept() {
    let order = ByteOrder::Little;
    let mut s = Supervisor::new(ERR_FD, order);
    let mut bytes = write_str("one", order);
    bytes.extend(write_str("two", order));
    s.on_read(ERR_FD, &bytes);
    s.close_channel();
    assert_eq!(s.result.errors, vec!["one".to_string(), "two".to_string()]);
}

#[test]
fn selector_registry() {
    let mut sel = Selecter::new();
    assert!(!sel.any());
    sel.insert_reader(3, ReaderState::Capture { buf: vec![] });
    sel.insert_reader(1, ReaderState::Capture { buf: vec![] });
    assert_eq!(sel.fds(), vec![1, 3]);
    let _ = sel.remove_reader(1);
    assert!(sel.any());
    assert!(sel.contains(3));
    sel.handle_read(3, b"ab", ByteOrder::Little);
    sel.handle_read(4, b"zz", ByteOrder::Little);
    match sel.remove_reader(3) {
        ReaderState::Capture { buf } => assert_eq!(buf, b"ab".to_vec()),
        ReaderState::Errors { .. } => panic!("wrong state"),
    }
    assert!(!sel.any());
}

#[test]
fn child_setup_failure_prevents_exec() {
    let order = ByteOrder::Little;
    let fails = vec!["failed to set up fd 1: Permission denied".to_string()];
    let (frames, action) = after_child_setup(&fails, order);
    assert!(action == ChildAction::Exit);
    assert_eq!(frames, vec![write_str(&fails[0], order)]);
    let (frames, action) = after_child_setup(&vec![], order);
    assert!(action == ChildAction::Exec);
    assert!(frames.is_empty());
}

#[test]
fn wait_outcomes() {
    let mut s = Supervisor::new(ERR_FD, ByteOrder::Little);
    assert!(s.after_wait(WaitOutcome::Reaped(5, 0)) == WaitStep::Reap(5, 0));
    assert!(s.after_wait(WaitOutcome::NothingYet) == WaitStep::Done);
    assert!(s.after_wait(WaitOutcome::Interrupted) == WaitStep::Again);
    assert!(s.after_wait(WaitOutcome::NoChildren) == WaitStep::Done);
    assert!(s.after_wait(WaitOutcome::Failed(Error::Os(22))) == WaitStep::Fatal(Error::Os(22)));
    s.record_fork(900, launch(&["/bin/true"], &[]));
    assert!(s.after_wait(WaitOutcome::NoChildren) == WaitStep::Fatal(Error::Fatal));
}

#[test]
fn exec_failure_frames() {
    let order = ByteOrder::Little;
    let msg = "exec: /nonexistent/xyz: No such file or directory";
    let fails = vec!["failed to clean up fd 1: Bad file descriptor".to_string()];
    let frames = after_exec_failure(msg, &fails, order);
    assert_eq!(frames, vec![write_str(msg, order), write_str(&fails[0], order)]);
    assert_eq!(after_exec_failure(msg, &vec![], order), vec![write_str(msg, order)]);
}

#[test]
fn reap_keeps_partial_frame_and_readers() {
    let order = ByteOrder::Little;
    let mut s = Supervisor::new(ERR_FD, order);
    s.record_fork(1000, launch(&["/bin/true"], &["1"]));
    s.insert_reader(30, ReaderState::Capture { buf: Vec::new() });
    s.on_read(30, b"out");
    let mut bytes = write_str("whole", order);
    let next = write_str("later", order);
    bytes.extend_from_slice(&next[..4]);
    s.on_read(ERR_FD, &bytes);
    assert!(s.reap(1000, 0, usage(), vec![Cleanup::Nothing]));
    assert_eq!(s.result.errors, vec!["whole".to_string()]);
    s.on_read(ERR_FD, &next[4..]);
    s.close_channel();
    assert_eq!(s.result.errors, vec!["whole".to_string(), "later".to_string()]);
    match s.remove_reader(30) {
        ReaderState::Capture { buf } => assert_eq!(buf, b"out".to_vec()),
        ReaderState::Errors { .. } => panic!("wrong state"),
    }
}

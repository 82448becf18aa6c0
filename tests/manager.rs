use process_guard::ipc::{ProcessCommand, ProcessStatus};
use process_guard::manager::{
    ProcessManager, RegisterError, RegisterOutcome, Reply, BACKPRESSURE_THRESHOLD, MAX_CONCURRENT,
};

fn cmd(s: &str) -> String {
    s.to_string()
}

#[test]
fn capacity_two_scenario() {
    let mut m = ProcessManager::with_capacity(2);
    assert_eq!(m.register(101, cmd("npm"), 0), Ok(RegisterOutcome::Admitted));
    assert_eq!(m.register(102, cmd("npm"), 0), Ok(RegisterOutcome::Admitted));
    assert_eq!(m.register(103, cmd("npm"), 0), Ok(RegisterOutcome::Queued));
    assert_eq!(m.queue_depth(), 1);
    assert!(!m.is_active(103));
    assert!(m.unregister(101, 5));
    assert!(m.is_active(102));
    assert!(m.is_active(103));
    assert!(!m.is_active(101));
    assert_eq!(m.active_count(), 2);
    assert_eq!(m.queue_depth(), 0);
    assert_eq!(m.available_units(), 0);
}

#[test]
fn active_count_never_exceeds_capacity() {
    let mut m = ProcessManager::with_capacity(3);
    for pid in 1..=10 {
        let _ = m.register(pid, cmd("job"), 0);
        assert!(m.active_count() <= 3);
        if pid % 4 == 0 {
            m.unregister(pid - 2, 1);
            assert!(m.active_count() <= 3);
        }
    }
    assert_eq!(m.active_count(), 3);
    assert_eq!(m.active_count() + m.available_units(), 3);
}

#[test]
fn register_then_unregister_frees_one_unit() {
    let mut m = ProcessManager::with_capacity(5);
    assert_eq!(m.register(7, cmd("cargo"), 0), Ok(RegisterOutcome::Admitted));
    assert_eq!(m.available_units(), 4);
    assert!(m.unregister(7, 1));
    assert_eq!(m.available_units(), 5);
    assert!(!m.unregister(7, 2));
    assert_eq!(m.available_units(), 5);
    assert_eq!(m.active_count(), 0);
}

#[test]
fn unregister_unknown_is_noop() {
    let mut m = ProcessManager::with_capacity(1);
    assert!(!m.unregister(42, 0));
    assert_eq!(m.available_units(), 1);
}

#[test]
fn default_capacity() {
    let m = ProcessManager::new();
    assert_eq!(m.available_units(), MAX_CONCURRENT);
    assert_eq!(MAX_CONCURRENT, 200);
    assert_eq!(m.active_count(), 0);
}

#[test]
fn register_rejects_duplicate_pids() {
    let mut m = ProcessManager::with_capacity(1);
    assert_eq!(m.register(9, cmd("x"), 0), Ok(RegisterOutcome::Admitted));
    assert_eq!(m.register(9, cmd("x"), 0), Err(RegisterError::AlreadyRegistered));
    assert_eq!(m.register(10, cmd("y"), 0), Ok(RegisterOutcome::Queued));
    assert_eq!(m.register(10, cmd("y"), 0), Err(RegisterError::AlreadyRegistered));
    assert_eq!(m.active_count(), 1);
    assert_eq!(m.queue_depth(), 1);
}

#[test]
fn register_accepts_any_pid_value() {
    let mut m = ProcessManager::with_capacity(3);
    assert_eq!(m.register(0, cmd("x"), 0), Ok(RegisterOutcome::Admitted));
    assert_eq!(m.register(-5, cmd("x"), 0), Ok(RegisterOutcome::Admitted));
    assert_eq!(m.register(i32::MIN, cmd("x"), 0), Ok(RegisterOutcome::Admitted));
    assert_eq!(m.register(-5, cmd("x"), 0), Err(RegisterError::AlreadyRegistered));
    assert!(m.unregister(-5, 1));
    assert!(!m.unregister(-5, 2));
    assert_eq!(m.available_units(), 1);
}

#[test]
fn monitor_never_probes_non_positive_pid() {
    let mut m = ProcessManager::with_capacity(1);
    m.register(-3, cmd("odd"), 0).unwrap();
    for pid in 1000..(1000 + BACKPRESSURE_THRESHOLD as i32 + 1) {
        m.register(pid, cmd("wait"), 0).unwrap();
    }
    let pass = m.check_hanging_processes(5);
    assert_eq!(pass.probes, vec![None]);
    assert!(pass.report.removed.is_empty());
    assert!(m.is_active(-3));
}

#[test]
fn waiters_are_admitted_oldest_first() {
    let mut m = ProcessManager::with_capacity(1);
    assert_eq!(m.register(1, cmd("a"), 0), Ok(RegisterOutcome::Admitted));
    assert_eq!(m.register(2, cmd("b"), 0), Ok(RegisterOutcome::Queued));
    assert_eq!(m.register(3, cmd("c"), 0), Ok(RegisterOutcome::Queued));
    assert!(m.unregister(1, 1));
    assert!(m.is_active(2));
    assert!(!m.is_active(3));
    assert!(m.unregister(2, 2));
    assert!(m.is_active(3));
    assert!(m.unregister(3, 3));
    assert_eq!(m.available_units(), 1);
}

#[test]
fn reconcile_removes_dead_and_frees_one_unit() {
    let mut m = ProcessManager::with_capacity(3);
    m.register(11, cmd("a"), 0).unwrap();
    m.register(12, cmd("b"), 0).unwrap();
    let report = m.reconcile(&vec![true, false], 1000);
    assert_eq!(report.removed, vec![12]);
    assert!(report.hung.is_empty());
    assert_eq!(m.available_units(), 2);
    assert!(m.is_active(11));
    assert!(!m.is_active(12));
}

#[test]
fn reconcile_reports_old_live_entries_as_hung() {
    let mut m = ProcessManager::with_capacity(3);
    m.register(21, cmd("old"), 0).unwrap();
    m.register(22, cmd("young"), 100_000).unwrap();
    let report = m.reconcile(&vec![true, true], 120_001);
    assert_eq!(report.hung, vec![21]);
    assert!(report.removed.is_empty());
    assert_eq!(m.active_count(), 2);
}

#[test]
fn reconcile_leaves_young_live_entries_alone() {
    let mut m = ProcessManager::with_capacity(2);
    m.register(31, cmd("a"), 500).unwrap();
    let report = m.reconcile(&vec![true], 120_500);
    assert!(report.hung.is_empty());
    assert!(report.removed.is_empty());
    assert!(m.is_active(31));
}

#[test]
fn reconcile_hands_freed_unit_to_waiter() {
    let mut m = ProcessManager::with_capacity(1);
    m.register(41, cmd("a"), 0).unwrap();
    assert_eq!(m.register(42, cmd("b"), 0), Ok(RegisterOutcome::Queued));
    let report = m.reconcile(&vec![false], 10);
    assert_eq!(report.removed, vec![41]);
    assert!(m.is_active(42));
    assert_eq!(m.queue_depth(), 0);
    assert_eq!(m.available_units(), 0);
}

#[test]
fn monitor_idle_below_backpressure() {
    let mut m = ProcessManager::with_capacity(1);
    m.register(i32::MAX, cmd("gone"), 0).unwrap();
    let pass = m.check_hanging_processes(1_000_000);
    assert!(pass.probes.is_empty());
    let report = pass.report;
    assert!(report.removed.is_empty());
    assert!(report.hung.is_empty());
    assert!(m.is_active(i32::MAX));
}

#[test]
fn monitor_reaps_dead_process_under_backpressure() {
    let mut m = ProcessManager::with_capacity(1);
    m.register(i32::MAX, cmd("gone"), 0).unwrap();
    for pid in 1000..(1000 + BACKPRESSURE_THRESHOLD as i32 + 1) {
        assert_eq!(m.register(pid, cmd("wait"), 0), Ok(RegisterOutcome::Queued));
    }
    assert_eq!(m.queue_depth(), BACKPRESSURE_THRESHOLD + 1);
    let pass = m.check_hanging_processes(5);
    assert_eq!(pass.probes.len(), 1);
    assert_eq!(pass.probes[0].unwrap().pid, i32::MAX);
    assert_eq!(pass.probes[0].unwrap().sig, None);
    assert_eq!(pass.report.removed, vec![i32::MAX]);
    assert!(m.is_active(1000));
    assert_eq!(m.queue_depth(), BACKPRESSURE_THRESHOLD);
    assert_eq!(m.active_count(), 1);
}

#[test]
fn snapshot_reports_counts_and_throttle() {
    let mut m = ProcessManager::with_capacity(0);
    assert_eq!(
        m.snapshot(),
        ProcessStatus { active_count: 0, queue_depth: 0, should_throttle: false }
    );
    for pid in 1..=(BACKPRESSURE_THRESHOLD as i32 + 1) {
        m.register(pid, cmd("w"), 0).unwrap();
    }
    let s = m.snapshot();
    assert_eq!(s.queue_depth, BACKPRESSURE_THRESHOLD + 1);
    assert!(s.should_throttle);
}

#[test]
fn apply_dispatches_commands() {
    let mut m = ProcessManager::with_capacity(1);
    let r = m.apply(
        ProcessCommand::Register { pid: 1234, command: cmd("npm"), args: vec![cmd("test")] },
        0,
    );
    assert!(matches!(r, Reply::Registered(Ok(RegisterOutcome::Admitted))));
    let r = m.apply(ProcessCommand::QueryStatus, 1);
    assert!(matches!(
        r,
        Reply::Status(ProcessStatus { active_count: 1, queue_depth: 0, should_throttle: false })
    ));
    let r = m.apply(ProcessCommand::Unregister { pid: 1234 }, 2);
    assert!(matches!(r, Reply::Unregistered(true)));
    let r = m.apply(ProcessCommand::Unregister { pid: 1234 }, 3);
    assert!(matches!(r, Reply::Unregistered(false)));
}

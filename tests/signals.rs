use process_guard::signals::{
    after_graceful, begin_escalation, conclude, finish_escalation, is_alive, process_exists, EscalationStart, EscalationStep, SignalSent,
    SignalOutcome, TermSignal, GRACE_PERIOD_MS,
};

#[test]
fn escalation_ignoring_graceful_gets_forceful() {
    assert_eq!(after_graceful(SignalOutcome::Delivered), EscalationStep::AwaitGrace(2000));
    assert_eq!(GRACE_PERIOD_MS, 2000);
    assert!(conclude(SignalOutcome::Delivered, Some(SignalOutcome::Delivered)));
}

#[test]
fn escalation_failures() {
    assert_eq!(after_graceful(SignalOutcome::Failed), EscalationStep::Finished(false));
    assert_eq!(after_graceful(SignalOutcome::NoSuchProcess), EscalationStep::Finished(false));
    assert!(!conclude(SignalOutcome::Delivered, Some(SignalOutcome::Failed)));
    assert!(conclude(SignalOutcome::NoSuchProcess, None));
}

#[test]
fn ambiguous_probe_counts_as_alive() {
    assert!(is_alive(SignalOutcome::Failed));
    assert!(is_alive(SignalOutcome::Delivered));
    assert!(!is_alive(SignalOutcome::NoSuchProcess));
}

#[test]
fn probe_of_missing_process() {
    let (alive, probe) = process_exists(i32::MAX);
    assert!(!alive);
    let probe = probe.unwrap();
    assert_eq!(probe.pid, i32::MAX);
    assert_eq!(probe.sig, None);
    assert_eq!(probe.outcome, SignalOutcome::NoSuchProcess);
    assert_eq!(process_exists(0), (true, None));
    assert!(process_exists(1).0);
}

#[test]
fn escalation_against_missing_process_fails() {
    let start = begin_escalation(i32::MAX);
    assert_eq!(start.step, EscalationStep::Finished(false));
    let sent = start.graceful.unwrap();
    assert_eq!(sent.pid, i32::MAX);
    assert_eq!(sent.sig, Some(TermSignal::Graceful));
    assert_eq!(sent.outcome, SignalOutcome::NoSuchProcess);
    let start = begin_escalation(-1);
    assert_eq!(start.step, EscalationStep::Finished(false));
    assert_eq!(start.graceful, None);
}

#[test]
fn finishing_against_missing_process_sends_no_forceful_signal() {
    let start = EscalationStart {
        step: EscalationStep::AwaitGrace(GRACE_PERIOD_MS),
        graceful: Some(SignalSent {
            pid: i32::MAX,
            sig: Some(TermSignal::Graceful),
            outcome: SignalOutcome::Delivered,
        }),
    };
    let report = finish_escalation(&start);
    assert_eq!(report.probe.pid, i32::MAX);
    assert_eq!(report.probe.sig, None);
    assert_eq!(report.forceful, None);
    assert!(report.success);
}

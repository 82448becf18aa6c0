use vstd::prelude::*;
use nix::errno::Errno;
use nix::sys::signal::Signal;
use nix::unistd::Pid;

verus! {

/// Delay between the graceful and the forceful signal, in milliseconds.
pub const GRACE_PERIOD_MS: u64 = 2000;

/// The two termination signals the escalation sends.
#[derive(Debug, Clone, Copy, PartialEq, Eq, Structural)]
pub enum TermSignal {
    /// SIGTERM.
    Graceful,
    /// SIGKILL.
    Forceful,
}

/// What the OS answered to a signal send or a liveness probe.
#[derive(Debug, Clone, Copy, PartialEq, Eq, Structural)]
pub enum SignalOutcome {
    Delivered,
    /// ESRCH: no process has that id.
    NoSuchProcess,
    /// Any other error, such as a permission refusal.
    Failed,
}

/// One call of `kill`: the pid and signal handed over, and the answer.
/// `sig` is `None` for the null signal, which delivers nothing.
#[derive(Debug, Clone, Copy, PartialEq, Eq, Structural)]
pub struct SignalSent {
    pub pid: i32,
    pub sig: Option<TermSignal>,
    pub outcome: SignalOutcome,
}

/// Relies on `nix::sys::signal::kill`: with `Some` it sends the signal to the
/// process `pid`, with `None` it only checks that a signal could be sent.
/// A non-positive pid would address a process group, hence the `requires`.
#[verifier::external_body]
fn kill(pid: i32, sig: Option<TermSignal>) -> (r: SignalSent)
    requires
        pid > 0,
    ensures
        r.pid == pid,
        r.sig == sig,
{
    let signal = match sig {
        Some(TermSignal::Graceful) => Some(Signal::SIGTERM),
        Some(TermSignal::Forceful) => Some(Signal::SIGKILL),
        None => None,
    };
    let outcome = match nix::sys::signal::kill(Pid::from_raw(pid), signal) {
        Ok(()) => SignalOutcome::Delivered,
        Err(Errno::ESRCH) => SignalOutcome::NoSuchProcess,
        Err(_) => SignalOutcome::Failed,
    };
    SignalSent { pid, sig, outcome }
}

pub open spec fn alive_spec(o: SignalOutcome) -> bool {
    o != SignalOutcome::NoSuchProcess
}

/// Reads a probe's answer fail-safe: only "no such process" means dead.
pub fn is_alive(probe: SignalOutcome) -> (r: bool)
    ensures
        r == alive_spec(probe),
{
    match probe {
        SignalOutcome::NoSuchProcess => false,
        _ => true,
    }
}

/// A liveness probe of `pid`: the null signal, which leaves the process as it is.
pub fn probe(pid: i32) -> (r: SignalSent)
    requires
        pid > 0,
    ensures
        r.pid == pid,
        r.sig is None,
{
    kill(pid, None)
}

/// Probes whether `pid` names a live process, and returns the probe made. An
/// ambiguous answer counts as alive so that no unit is ever reclaimed in
/// doubt; a non-positive pid is not probed and counts as alive too.
pub fn process_exists(pid: i32) -> (r: (bool, Option<SignalSent>))
    ensures
        pid <= 0 ==> r.0 && r.1 is None,
        pid > 0 ==> {
            &&& r.1 is Some
            &&& r.1.unwrap().pid == pid
            &&& r.1.unwrap().sig is None
            &&& r.0 == alive_spec(r.1.unwrap().outcome)
        },
{
    if pid <= 0 {
        return (true, None);
    }
    let p = probe(pid);
    (is_alive(p.outcome), Some(p))
}

/// Next step of an escalation once the graceful signal has been sent.
#[derive(Debug, Clone, Copy, PartialEq, Eq, Structural)]
pub enum EscalationStep {
    /// Wait this many milliseconds, then call `finish_escalation`.
    AwaitGrace(u64),
    /// The escalation is over, with this result.
    Finished(bool),
}

pub open spec fn after_graceful_spec(o: SignalOutcome) -> EscalationStep {
    if o == SignalOutcome::Delivered {
        EscalationStep::AwaitGrace(GRACE_PERIOD_MS)
    } else {
        EscalationStep::Finished(false)
    }
}

/// Decides what follows the graceful signal: the grace period if it was
/// delivered, failure otherwise.
pub fn after_graceful(o: SignalOutcome) -> (r: EscalationStep)
    ensures
        r == after_graceful_spec(o),
{
    match o {
        SignalOutcome::Delivered => EscalationStep::AwaitGrace(GRACE_PERIOD_MS),
        _ => EscalationStep::Finished(false),
    }
}

pub open spec fn conclude_spec(probe: SignalOutcome, forceful: Option<SignalOutcome>) -> bool {
    match forceful {
        Some(o) => alive_spec(probe) && o == SignalOutcome::Delivered,
        None => !alive_spec(probe),
    }
}

/// Result of an escalation after the grace period: success when the process
/// was gone, or when it was alive and the forceful signal was delivered.
/// Its final state is not checked again.
pub fn conclude(probe: SignalOutcome, forceful: Option<SignalOutcome>) -> (r: bool)
    ensures
        r == conclude_spec(probe, forceful),
{
    match forceful {
        Some(o) => is_alive(probe) && o == SignalOutcome::Delivered,
        None => !is_alive(probe),
    }
}

/// The first half of an escalation: the step that follows and the send made.
#[derive(Debug, Clone, Copy, PartialEq, Eq, Structural)]
pub struct EscalationStart {
    pub step: EscalationStep,
    /// The graceful signal sent, if `pid` was a process id.
    pub graceful: Option<SignalSent>,
}

/// Starts escalating against `pid` by sending it the graceful signal.
pub fn begin_escalation(pid: i32) -> (r: EscalationStart)
    ensures
        pid <= 0 ==> r.graceful is None && r.step == EscalationStep::Finished(false),
        pid > 0 ==> {
            &&& r.graceful is Some
            &&& r.graceful.unwrap().pid == pid
            &&& r.graceful.unwrap().sig == Some(TermSignal::Graceful)
            &&& r.step == after_graceful_spec(r.graceful.unwrap().outcome)
        },
{
    if pid <= 0 {
        return EscalationStart { step: EscalationStep::Finished(false), graceful: None };
    }
    let sent = kill(pid, Some(TermSignal::Graceful));
    EscalationStart { step: after_graceful(sent.outcome), graceful: Some(sent) }
}

/// What the second half of an escalation observed and did.
#[derive(Debug, Clone, Copy, PartialEq, Eq, Structural)]
pub struct EscalationReport {
    /// The liveness probe after the grace period.
    pub probe: SignalSent,
    /// The forceful signal, if one was sent.
    pub forceful: Option<SignalSent>,
    pub success: bool,
}

/// Ends an escalation after the grace period. `start` must be a start whose
/// graceful signal was delivered: only then is the target probed with the
/// null signal and sent the forceful signal if it still appears alive.
pub fn finish_escalation(start: &EscalationStart) -> (r: EscalationReport)
    requires
        start.graceful is Some,
        start.graceful.unwrap().pid > 0,
        start.graceful.unwrap().sig == Some(TermSignal::Graceful),
        start.graceful.unwrap().outcome == SignalOutcome::Delivered,
        start.step == EscalationStep::AwaitGrace(GRACE_PERIOD_MS),
    ensures
        r.probe.pid == start.graceful.unwrap().pid,
        r.probe.sig is None,
        r.forceful is Some <==> alive_spec(r.probe.outcome),
        r.forceful is Some ==> r.forceful.unwrap().pid == start.graceful.unwrap().pid
            && r.forceful.unwrap().sig == Some(TermSignal::Forceful),
        r.success == conclude_spec(
            r.probe.outcome,
            match r.forceful {
                Some(f) => Some(f.outcome),
                None => None,
            },
        ),
{
    let pid = start.graceful.unwrap().pid;
    let p = probe(pid);
    let forceful = if is_alive(p.outcome) {
        Some(kill(pid, Some(TermSignal::Forceful)))
    } else {
        None
    };
    let forceful_outcome = match forceful {
        Some(f) => Some(f.outcome),
        None => None,
    };
    EscalationReport { probe: p, forceful, success: conclude(p.outcome, forceful_outcome) }
}

} // verus!

use vstd::prelude::*;
use crate::ipc::{ProcessCommand, ProcessStatus};
use crate::signals::{alive_spec, process_exists, SignalSent};

verus! {

/// Default number of processes that may be admitted at once.
pub const MAX_CONCURRENT: usize = 200;

/// Queue depth above which clients should throttle and the monitor scans.
pub const BACKPRESSURE_THRESHOLD: usize = 1000;

/// Age in milliseconds past which a live process is reported as hung.
pub const HANG_THRESHOLD_MS: u64 = 120000;

/// One admitted process. `started_ms` is a reading of a monotonic clock.
#[derive(Debug)]
pub struct ProcessRecord {
    pub pid: i32,
    pub command: String,
    pub started_ms: u64,
}

/// A registration that waits for a free unit.
#[derive(Debug)]
pub struct PendingRegistration {
    pub pid: i32,
    pub command: String,
}

/// How a registration was taken.
#[derive(Debug, Clone, Copy, PartialEq, Eq, Structural)]
pub enum RegisterOutcome {
    /// A unit was free: the process is admitted now.
    Admitted,
    /// No unit was free: the registration waits, first come first served.
    Queued,
}

/// Why a registration was refused. The state is left as it was.
#[derive(Debug, Clone, Copy, PartialEq, Eq, Structural)]
pub enum RegisterError {
    /// The pid is already admitted or waiting.
    AlreadyRegistered,
}

/// What the consumer answers to one command.
#[derive(Debug)]
pub enum Reply {
    Registered(Result<RegisterOutcome, RegisterError>),
    /// Whether a record was removed.
    Unregistered(bool),
    Status(ProcessStatus),
}

/// The admission controller: a pool of `capacity` units, one held by each
/// admitted process, and a queue of registrations waiting for a unit.
///
/// A unit is returned only by `unregister` or by the monitor finding the
/// process dead, never by a timeout; it then goes straight to the oldest
/// waiting registration, if there is one.
pub struct ProcessManager {
    capacity: usize,
    available: usize,
    records: Vec<ProcessRecord>,
    waiting: Vec<PendingRegistration>,
}

pub open spec fn record_of(p: PendingRegistration, now: u64) -> ProcessRecord {
    ProcessRecord { pid: p.pid, command: p.command, started_ms: now }
}

/// The records that admitting `w`, in order, at time `now` creates.
pub open spec fn admit_all(w: Seq<PendingRegistration>, now: u64) -> Seq<ProcessRecord> {
    w.map_values(|p: PendingRegistration| record_of(p, now))
}

pub open spec fn min_nat(a: nat, b: nat) -> nat {
    if a <= b { a } else { b }
}

pub open spec fn has_pid(s: Seq<ProcessRecord>, pid: i32) -> bool {
    exists|i: int| 0 <= i < s.len() && s[i].pid == pid
}

pub open spec fn waits_pid(w: Seq<PendingRegistration>, pid: i32) -> bool {
    exists|i: int| 0 <= i < w.len() && w[i].pid == pid
}

/// The position of `pid` among the records (unique in a well-formed manager).
pub open spec fn index_of_pid(s: Seq<ProcessRecord>, pid: i32) -> int {
    choose|i: int| 0 <= i < s.len() && s[i].pid == pid
}


/// The records whose process is still alive, in order (`alive` is read at the
/// same positions).
pub open spec fn kept(s: Seq<ProcessRecord>, alive: Seq<bool>) -> Seq<ProcessRecord>
    decreases s.len(),
{
    if s.len() == 0 {
        Seq::empty()
    } else if alive[s.len() - 1] {
        kept(s.drop_last(), alive).push(s.last())
    } else {
        kept(s.drop_last(), alive)
    }
}

/// The pids of the records whose process is gone, in order.
pub open spec fn dead_pids(s: Seq<ProcessRecord>, alive: Seq<bool>) -> Seq<i32>
    decreases s.len(),
{
    if s.len() == 0 {
        Seq::empty()
    } else if !alive[s.len() - 1] {
        dead_pids(s.drop_last(), alive).push(s.last().pid)
    } else {
        dead_pids(s.drop_last(), alive)
    }
}

/// A record older than the hang threshold at `now`.
pub open spec fn is_hung(r: ProcessRecord, now: u64) -> bool {
    now as int - r.started_ms as int > HANG_THRESHOLD_MS as int
}

/// The pids of the live records that are older than the hang threshold.
pub open spec fn hung_pids(s: Seq<ProcessRecord>, alive: Seq<bool>, now: u64) -> Seq<i32>
    decreases s.len(),
{
    if s.len() == 0 {
        Seq::empty()
    } else if alive[s.len() - 1] && is_hung(s.last(), now) {
        hung_pids(s.drop_last(), alive, now).push(s.last().pid)
    } else {
        hung_pids(s.drop_last(), alive, now)
    }
}

/// The liveness each probe reports, position by position; a record that was
/// not probed counts as alive.
pub open spec fn probe_alive(p: Seq<Option<SignalSent>>) -> Seq<bool> {
    p.map_values(
        |x: Option<SignalSent>|
            match x {
                Some(sent) => alive_spec(sent.outcome),
                None => true,
            },
    )
}

/// One tick of the hang monitor: the probes it made and what it found.
#[derive(Debug)]
pub struct MonitorPass {
    /// One null-signal probe per admitted process, in the records' order;
    /// `None` for a non-positive pid, which is never probed.
    pub probes: Vec<Option<SignalSent>>,
    pub report: ScanReport,
}

/// What one pass of the hang monitor found.
#[derive(Debug)]
pub struct ScanReport {
    /// Pids of the processes found gone; their records were removed.
    pub removed: Vec<i32>,
    /// Pids of live processes older than the hang threshold; left in place.
    pub hung: Vec<i32>,
}

proof fn lemma_remove_distinct(s: Seq<i32>, i: int)
    requires
        s.no_duplicates(),
        0 <= i < s.len(),
    ensures
        s.remove(i).no_duplicates(),
{
    let t = s.remove(i);
    assert forall|a: int, b: int| 0 <= a < t.len() && 0 <= b < t.len() && a != b implies t[a]
        != t[b] by {
        let a2 = if a < i { a } else { a + 1 };
        let b2 = if b < i { b } else { b + 1 };
        assert(t[a] == s[a2]);
        assert(t[b] == s[b2]);
    }
}

proof fn lemma_kept_members(s: Seq<ProcessRecord>, alive: Seq<bool>)
    requires
        alive.len() >= s.len(),
    ensures
        kept(s, alive).len() <= s.len(),
        forall|x: ProcessRecord| kept(s, alive).contains(x) ==> s.contains(x),
    decreases s.len(),
{
    if s.len() > 0 {
        lemma_kept_members(s.drop_last(), alive);
        assert forall|x: ProcessRecord| kept(s, alive).contains(x) implies s.contains(x) by {
            if kept(s.drop_last(), alive).contains(x) {
                assert(s.drop_last().contains(x));
                let j = choose|j: int| 0 <= j < s.drop_last().len() && s.drop_last()[j] == x;
                assert(s[j] == x);
            } else {
                assert(s[s.len() - 1] == x);
            }
        }
    }
}

impl ProcessManager {
    /// The admitted processes, oldest admission first.
    pub closed spec fn active(&self) -> Seq<ProcessRecord> {
        self.records@
    }

    /// The waiting registrations, oldest first.
    pub closed spec fn waiters(&self) -> Seq<PendingRegistration> {
        self.waiting@
    }

    pub closed spec fn capacity(&self) -> nat {
        self.capacity as nat
    }

    /// The units in the pool that no process holds.
    pub closed spec fn available(&self) -> nat {
        self.available as nat
    }

    pub closed spec fn all_pids(&self) -> Seq<i32> {
        self.records@.map_values(|r: ProcessRecord| r.pid) + self.waiting@.map_values(
            |p: PendingRegistration| p.pid,
        )
    }

    /// Each unit is either free or held by exactly one record; nobody waits
    /// while a unit is free; each pid appears once.
    pub closed spec fn wf(&self) -> bool {
        &&& self.available + self.records@.len() == self.capacity
        &&& self.waiting@.len() > 0 ==> self.available == 0
        &&& self.all_pids().no_duplicates()
    }

    /// `new` is what releasing `freed` units gives from the given parts: the
    /// oldest waiters are admitted at `now`, the rest of the units go back to
    /// the pool.
    pub open spec fn released(
        new: &Self,
        records: Seq<ProcessRecord>,
        waiting: Seq<PendingRegistration>,
        available: nat,
        capacity: nat,
        freed: nat,
        now: u64,
    ) -> bool {
        let k = min_nat(freed, waiting.len());
        &&& new.active() == records + admit_all(waiting.take(k as int), now)
        &&& new.waiters() == waiting.skip(k as int)
        &&& new.available() == available + freed - k
        &&& new.capacity() == capacity
    }

    /// A manager with `capacity` units, all free.
    pub fn with_capacity(capacity: usize) -> (r: Self)
        ensures
            r.wf(),
            r.capacity() == capacity,
            r.available() == capacity,
            r.active().len() == 0,
            r.waiters().len() == 0,
    {
        let r = ProcessManager { capacity, available: capacity, records: Vec::new(), waiting: Vec::new() };
        assert(r.all_pids() =~= Seq::<i32>::empty());
        r
    }

    /// A manager with the default capacity.
    pub fn new() -> (r: Self)
        ensures
            r.wf(),
            r.capacity() == MAX_CONCURRENT,
            r.available() == MAX_CONCURRENT,
            r.active().len() == 0,
            r.waiters().len() == 0,
    {
        Self::with_capacity(MAX_CONCURRENT)
    }

    /// Number of admitted processes.
    pub fn active_count(&self) -> (r: usize)
        ensures
            r == self.active().len(),
    {
        self.records.len()
    }

    /// Number of registrations waiting for a unit.
    pub fn queue_depth(&self) -> (r: usize)
        ensures
            r == self.waiters().len(),
    {
        self.waiting.len()
    }

    /// Number of free units.
    pub fn available_units(&self) -> (r: usize)
        ensures
            r == self.available(),
    {
        self.available
    }

    /// The status that clients read to decide whether to throttle.
    pub fn snapshot(&self) -> (r: ProcessStatus)
        ensures
            r.active_count == self.active().len(),
            r.queue_depth == self.waiters().len(),
            r.should_throttle == (self.waiters().len() > BACKPRESSURE_THRESHOLD),
    {
        ProcessStatus {
            active_count: self.records.len(),
            queue_depth: self.waiting.len(),
            should_throttle: self.waiting.len() > BACKPRESSURE_THRESHOLD,
        }
    }

    /// Where `pid` stands among the admitted processes.
    fn find_active(&self, pid: i32) -> (r: Option<usize>)
        ensures
            match r {
                Some(i) => i < self.records@.len() && self.records@[i as int].pid == pid,
                None => !has_pid(self.records@, pid),
            },
    {
        let mut i: usize = 0;
        while i < self.records.len()
            invariant
                i <= self.records@.len(),
                forall|j: int| 0 <= j < i ==> self.records@[j].pid != pid,
            decreases self.records@.len() - i,
        {
            if self.records[i].pid == pid {
                return Some(i);
            }
            i += 1;
        }
        None
    }

    /// Whether `pid` waits for a unit.
    fn is_waiting(&self, pid: i32) -> (r: bool)
        ensures
            r == waits_pid(self.waiting@, pid),
    {
        let mut i: usize = 0;
        while i < self.waiting.len()
            invariant
                i <= self.waiting@.len(),
                forall|j: int| 0 <= j < i ==> self.waiting@[j].pid != pid,
            decreases self.waiting@.len() - i,
        {
            if self.waiting[i].pid == pid {
                return true;
            }
            i += 1;
        }
        false
    }

    proof fn lemma_all_pids_index(&self)
        ensures
            self.all_pids().len() == self.records@.len() + self.waiting@.len(),
            forall|i: int|
                0 <= i < self.records@.len() ==> #[trigger] self.all_pids()[i]
                    == self.records@[i].pid,
            forall|i: int|
                0 <= i < self.waiting@.len() ==> #[trigger] self.all_pids()[self.records@.len()
                    + i] == self.waiting@[i].pid,
    {
    }

    /// Hands `freed` units out: to the oldest waiters first, then to the pool.
    fn hand_out(&mut self, freed: usize, now: u64)
        requires
            old(self).available + freed + old(self).records@.len() == old(self).capacity,
            old(self).waiting@.len() > 0 ==> old(self).available == 0,
            old(self).all_pids().no_duplicates(),
        ensures
            final(self).wf(),
            Self::released(
                final(self),
                old(self).records@,
                old(self).waiting@,
                old(self).available as nat,
                old(self).capacity as nat,
                freed as nat,
                now,
            ),
    {
        let ghost r0 = self.records@;
        let ghost w0 = self.waiting@;
        let ghost a0 = self.available as nat;
        let ghost p0 = self.all_pids();
        let mut j: usize = 0;
        assert(r0 + admit_all(w0.take(0), now) =~= r0);
        assert(w0.skip(0) =~= w0);
        while j < freed
            invariant
                j <= freed,
                self.capacity == old(self).capacity,
                a0 + freed + r0.len() == self.capacity,
                w0.len() > 0 ==> a0 == 0,
                self.records@ == r0 + admit_all(w0.take(min_nat(j as nat, w0.len()) as int), now),
                self.waiting@ == w0.skip(min_nat(j as nat, w0.len()) as int),
                self.available == a0 + j - min_nat(j as nat, w0.len()),
                self.all_pids() == p0,
            decreases freed - j,
        {
            let ghost k = min_nat(j as nat, w0.len()) as int;
            if self.waiting.len() > 0 {
                let ghost before = self.all_pids();
                let p = self.waiting.remove(0);
                self.records.push(ProcessRecord { pid: p.pid, command: p.command, started_ms: now });
                proof {
                    assert(k < w0.len());
                    assert(p == w0[k]);
                    assert(admit_all(w0.take(k + 1), now) =~= admit_all(w0.take(k), now).push(
                        record_of(w0[k], now),
                    ));
                    assert(self.records@ =~= r0 + admit_all(w0.take(k + 1), now));
                    assert(self.waiting@ =~= w0.skip(k + 1));
                    assert(self.all_pids() =~= before);
                }
            } else {
                self.available = self.available + 1;
            }
            j += 1;
        }
    }

    /// The state after `unregister(pid)` from `old`, which answered `r`.
    pub open spec fn unregistered(old: &Self, new: &Self, pid: i32, now: u64, r: bool) -> bool {
        &&& r == has_pid(old.active(), pid)
        &&& !r ==> *new == *old
        &&& r ==> Self::released(
            new,
            old.active().remove(index_of_pid(old.active(), pid)),
            old.waiters(),
            old.available(),
            old.capacity(),
            1,
            now,
        )
    }

    /// Removes the record of `pid`, if there is one, and releases its unit,
    /// which goes to the oldest waiter if any (admitted at `now`). Without a
    /// record nothing changes: a unit is never released twice for one pid.
    pub fn unregister(&mut self, pid: i32, now: u64) -> (r: bool)
        requires
            old(self).wf(),
        ensures
            final(self).wf(),
            Self::unregistered(old(self), final(self), pid, now, r),
    {
        match self.find_active(pid) {
            None => false,
            Some(i) => {
                let ghost before = self.all_pids();
                proof {
                    self.lemma_all_pids_index();
                    assert(has_pid(self.records@, pid));
                    let j = index_of_pid(self.records@, pid);
                    assert(before[i as int] == before[j]);
                }
                let _gone = self.records.remove(i);
                proof {
                    lemma_remove_distinct(before, i as int);
                    assert(self.all_pids() =~= before.remove(i as int));
                }
                self.hand_out(1, now);
                true
            }
        }
    }

    /// The state and report of a monitor pass over `old` that saw the
    /// processes as `alive` says, position by position.
    pub open spec fn scanned(
        old: &Self,
        new: &Self,
        report: &ScanReport,
        alive: Seq<bool>,
        now: u64,
    ) -> bool {
        &&& report.removed@ == dead_pids(old.active(), alive)
        &&& report.hung@ == hung_pids(old.active(), alive, now)
        &&& Self::released(
            new,
            kept(old.active(), alive),
            old.waiters(),
            old.available(),
            old.capacity(),
            report.removed@.len(),
            now,
        )
    }

    /// Removes the records whose process is gone (`alive[i]` is false for the
    /// `i`-th record), releasing one unit per removal, and lists the live
    /// records older than the hang threshold, which stay.
    pub fn reconcile(&mut self, alive: &Vec<bool>, now: u64) -> (r: ScanReport)
        requires
            old(self).wf(),
            alive@.len() == old(self).active().len(),
        ensures
            final(self).wf(),
            Self::scanned(old(self), final(self), &r, alive@, now),
    {
        let ghost r0 = self.records@;
        let ghost n = r0.len();
        let mut removed: Vec<i32> = Vec::new();
        let mut hung: Vec<i32> = Vec::new();
        let mut i: usize = 0;
        let mut j: usize = 0;
        assert(r0.take(0) =~= Seq::<ProcessRecord>::empty());
        assert(r0.skip(0) =~= r0);
        while j < alive.len()
            invariant
                alive@.len() == n,
                n == r0.len(),
                r0 == old(self).records@,
                j <= n,
                self.capacity == old(self).capacity,
                self.waiting@ == old(self).waiting@,
                self.available == old(self).available,
                self.available + self.records@.len() + removed@.len() == self.capacity,
                self.waiting@.len() > 0 ==> self.available == 0,
                self.all_pids().no_duplicates(),
                i == kept(r0.take(j as int), alive@).len(),
                self.records@ == kept(r0.take(j as int), alive@) + r0.skip(j as int),
                removed@ == dead_pids(r0.take(j as int), alive@),
                hung@ == hung_pids(r0.take(j as int), alive@, now),
            decreases n - j,
        {
            proof {
                assert(r0.take(j + 1).drop_last() =~= r0.take(j as int));
                assert(r0.take(j + 1).last() == r0[j as int]);
                lemma_kept_members(r0.take(j as int), alive@);
                assert(self.records@[i as int] == r0[j as int]);
            }
            if alive[j] {
                let rec = &self.records[i];
                if now > rec.started_ms && now - rec.started_ms > HANG_THRESHOLD_MS {
                    hung.push(rec.pid);
                }
                i += 1;
                proof {
                    assert(self.records@ =~= kept(r0.take(j + 1), alive@) + r0.skip(j + 1));
                }
            } else {
                let ghost before = self.all_pids();
                proof {
                    self.lemma_all_pids_index();
                }
                let gone = self.records.remove(i);
                removed.push(gone.pid);
                proof {
                    lemma_remove_distinct(before, i as int);
                    assert(self.all_pids() =~= before.remove(i as int));
                    assert(self.records@ =~= kept(r0.take(j + 1), alive@) + r0.skip(j + 1));
                }
            }
            j += 1;
        }
        proof {
            assert(r0.take(n as int) =~= r0);
            assert(self.records@ =~= kept(r0, alive@));
        }
        self.hand_out(removed.len(), now);
        ScanReport { removed, hung }
    }

    /// `p` is the liveness probe that `process_exists(pid)` makes: the null
    /// signal to `pid`, or none for a non-positive pid.
    pub open spec fn probed(p: Option<SignalSent>, pid: i32) -> bool {
        &&& pid <= 0 ==> p is None
        &&& pid > 0 ==> p is Some && p.unwrap().pid == pid && p.unwrap().sig is None
    }

    /// One tick of the hang monitor. It acts only under backpressure (more
    /// than `BACKPRESSURE_THRESHOLD` waiting registrations): then it probes
    /// every admitted process once, with the null signal, and reconciles with
    /// what it saw. A probe that fails for any reason but "no such process"
    /// counts as alive.
    pub fn check_hanging_processes(&mut self, now: u64) -> (r: MonitorPass)
        requires
            old(self).wf(),
        ensures
            final(self).wf(),
            old(self).waiters().len() <= BACKPRESSURE_THRESHOLD ==> {
                &&& *final(self) == *old(self)
                &&& r.probes@.len() == 0
                &&& r.report.removed@.len() == 0
                &&& r.report.hung@.len() == 0
            },
            old(self).waiters().len() > BACKPRESSURE_THRESHOLD ==> {
                &&& r.probes@.len() == old(self).active().len()
                &&& forall|i: int|
                    0 <= i < r.probes@.len() ==> #[trigger] Self::probed(
                        r.probes@[i],
                        old(self).active()[i].pid,
                    )
                &&& Self::scanned(old(self), final(self), &r.report, probe_alive(r.probes@), now)
            },
    {
        if self.waiting.len() <= BACKPRESSURE_THRESHOLD {
            return MonitorPass {
                probes: Vec::new(),
                report: ScanReport { removed: Vec::new(), hung: Vec::new() },
            };
        }
        let mut alive: Vec<bool> = Vec::new();
        let mut probes: Vec<Option<SignalSent>> = Vec::new();
        proof {
            assert(alive@ =~= probe_alive(probes@));
        }
        let mut i: usize = 0;
        while i < self.records.len()
            invariant
                i <= self.records@.len(),
                self.wf(),
                probes@.len() == i,
                forall|k: int|
                    0 <= k < i ==> #[trigger] Self::probed(probes@[k], self.records@[k].pid),
                alive@ == probe_alive(probes@),
            decreases self.records@.len() - i,
        {
            let (live, p) = process_exists(self.records[i].pid);
            alive.push(live);
            probes.push(p);
            proof {
                assert(alive@ =~= probe_alive(probes@));
            }
            i += 1;
        }
        let report = self.reconcile(&alive, now);
        MonitorPass { probes, report }
    }

    /// Whether `pid` is admitted.
    pub fn is_active(&self, pid: i32) -> (r: bool)
        ensures
            r == has_pid(self.active(), pid),
    {
        self.find_active(pid).is_some()
    }

    /// The consumer of the control queue: carries out one command at `now`.
    pub fn apply(&mut self, cmd: ProcessCommand, now: u64) -> (r: Reply)
        requires
            old(self).wf(),
        ensures
            final(self).wf(),
            match cmd {
                ProcessCommand::Register { pid, command, args: _ } => match r {
                    Reply::Registered(res) => Self::registered(old(self), final(self), pid, command, now, res),
                    _ => false,
                },
                ProcessCommand::Unregister { pid } => match r {
                    Reply::Unregistered(b) => Self::unregistered(old(self), final(self), pid, now, b),
                    _ => false,
                },
                ProcessCommand::QueryStatus => {
                    &&& *final(self) == *old(self)
                    &&& r == Reply::Status(ProcessStatus {
                        active_count: old(self).active().len() as usize,
                        queue_depth: old(self).waiters().len() as usize,
                        should_throttle: old(self).waiters().len() > BACKPRESSURE_THRESHOLD,
                    })
                },
            },
    {
        match cmd {
            ProcessCommand::Register { pid, command, args: _ } => Reply::Registered(self.register(pid, command, now)),
            ProcessCommand::Unregister { pid } => Reply::Unregistered(self.unregister(pid, now)),
            ProcessCommand::QueryStatus => Reply::Status(self.snapshot()),
        }
    }

    /// The state after `register(pid, command)` at `now` from `old`, which answered `r`.
    pub open spec fn registered(
        old: &Self,
        new: &Self,
        pid: i32,
        command: String,
        now: u64,
        r: Result<RegisterOutcome, RegisterError>,
    ) -> bool {
        &&& new.capacity() == old.capacity()
        &&& (has_pid(old.active(), pid) || waits_pid(old.waiters(), pid)) ==> r == Err::<
            RegisterOutcome,
            RegisterError,
        >(RegisterError::AlreadyRegistered)
        &&& !has_pid(old.active(), pid) && !waits_pid(old.waiters(), pid) ==> r is Ok
        &&& r is Ok ==> (r == Ok::<RegisterOutcome, RegisterError>(RegisterOutcome::Admitted)
            <==> old.available() > 0)
        &&& r is Ok ==> (r == Ok::<RegisterOutcome, RegisterError>(RegisterOutcome::Queued)
            <==> old.available() == 0)
        &&& r is Err ==> *new == *old
        &&& r == Ok::<RegisterOutcome, RegisterError>(RegisterOutcome::Admitted) ==> {
            &&& old.available() > 0
            &&& new.active() == old.active().push(ProcessRecord { pid, command, started_ms: now })
            &&& new.waiters() == old.waiters()
            &&& new.available() + 1 == old.available()
        }
        &&& r == Ok::<RegisterOutcome, RegisterError>(RegisterOutcome::Queued) ==> {
            &&& old.available() == 0
            &&& new.active() == old.active()
            &&& new.waiters() == old.waiters().push(PendingRegistration { pid, command })
            &&& new.available() == old.available()
        }
    }

    /// Asks for a unit for `pid`. With a free unit the process is admitted at
    /// `now`; without one the registration waits at the back of the queue.
    /// A pid already admitted or waiting is refused.
    pub fn register(&mut self, pid: i32, command: String, now: u64) -> (r: Result<
        RegisterOutcome,
        RegisterError,
    >)
        requires
            old(self).wf(),
        ensures
            final(self).wf(),
            Self::registered(old(self), final(self), pid, command, now, r),
    {
        if self.find_active(pid).is_some() || self.is_waiting(pid) {
            return Err(RegisterError::AlreadyRegistered);
        }
        let ghost before = self.all_pids();
        proof {
            self.lemma_all_pids_index();
        }
        if self.available > 0 {
            self.available = self.available - 1;
            self.records.push(ProcessRecord { pid, command, started_ms: now });
            proof {
                assert(self.waiting@.len() == 0);
                assert(self.all_pids() =~= before.push(pid));
                self.lemma_all_pids_index();
            }
            Ok(RegisterOutcome::Admitted)
        } else {
            self.waiting.push(PendingRegistration { pid, command });
            proof {
                assert(self.all_pids() =~= before.push(pid));
                self.lemma_all_pids_index();
            }
            Ok(RegisterOutcome::Queued)
        }
    }
}



proof fn lemma_all_alive(s: Seq<ProcessRecord>, alive: Seq<bool>)
    requires
        alive.len() >= s.len(),
        forall|j: int| 0 <= j < s.len() ==> alive[j],
    ensures
        kept(s, alive) == s,
        dead_pids(s, alive) == Seq::<i32>::empty(),
    decreases s.len(),
{
    if s.len() > 0 {
        lemma_all_alive(s.drop_last(), alive);
        assert(s.drop_last().push(s.last()) =~= s);
    }
}

proof fn lemma_one_dead(s: Seq<ProcessRecord>, alive: Seq<bool>, i: int)
    requires
        alive.len() >= s.len(),
        0 <= i < s.len(),
        !alive[i],
        forall|j: int| 0 <= j < s.len() && j != i ==> alive[j],
    ensures
        kept(s, alive) == s.remove(i),
        dead_pids(s, alive) == seq![s[i].pid],
    decreases s.len(),
{
    if i == s.len() - 1 {
        lemma_all_alive(s.drop_last(), alive);
        assert(s.drop_last() =~= s.remove(i));
        assert(Seq::<i32>::empty().push(s[i].pid) =~= seq![s[i].pid]);
    } else {
        lemma_one_dead(s.drop_last(), alive, i);
        assert(s.drop_last().remove(i).push(s.last()) =~= s.remove(i));
    }
}

proof fn lemma_scan_members(s: Seq<ProcessRecord>, alive: Seq<bool>, now: u64)
    requires
        alive.len() >= s.len(),
    ensures
        forall|x: i32|
            dead_pids(s, alive).contains(x) ==> exists|j: int|
                0 <= j < s.len() && !alive[j] && s[j].pid == x,
        forall|x: i32|
            hung_pids(s, alive, now).contains(x) ==> exists|j: int|
                0 <= j < s.len() && alive[j] && is_hung(s[j], now) && s[j].pid == x,
        forall|j: int| 0 <= j < s.len() && alive[j] ==> kept(s, alive).contains(s[j]),
        forall|j: int| 0 <= j < s.len() && !alive[j] ==> dead_pids(s, alive).contains(s[j].pid),
        forall|x: ProcessRecord|
            kept(s, alive).contains(x) ==> exists|j: int| 0 <= j < s.len() && alive[j] && s[j] == x,
        kept(s, alive).len() + dead_pids(s, alive).len() == s.len(),
    decreases s.len(),
{
    if s.len() > 0 {
        let t = s.drop_last();
        let n = s.len() - 1;
        lemma_scan_members(t, alive, now);
        assert forall|x: i32| dead_pids(s, alive).contains(x) implies exists|j: int|
            0 <= j < s.len() && !alive[j] && s[j].pid == x by {
            if dead_pids(t, alive).contains(x) {
                let j = choose|j: int| 0 <= j < t.len() && !alive[j] && t[j].pid == x;
                assert(s[j] == t[j]);
            } else {
                assert(dead_pids(s, alive).last() == x);
                assert(!alive[n] && s[n].pid == x);
            }
        }
        assert forall|x: i32| hung_pids(s, alive, now).contains(x) implies exists|j: int|
            0 <= j < s.len() && alive[j] && is_hung(s[j], now) && s[j].pid == x by {
            if hung_pids(t, alive, now).contains(x) {
                let j = choose|j: int|
                    0 <= j < t.len() && alive[j] && is_hung(t[j], now) && t[j].pid == x;
                assert(s[j] == t[j]);
            } else {
                assert(hung_pids(s, alive, now).last() == x);
                assert(alive[n] && is_hung(s[n], now) && s[n].pid == x);
            }
        }
        assert forall|j: int| 0 <= j < s.len() && alive[j] implies kept(s, alive).contains(
            s[j],
        ) by {
            if j < n {
                assert(t[j] == s[j]);
                assert(kept(t, alive).contains(s[j]));
                let k = choose|k: int| 0 <= k < kept(t, alive).len() && kept(t, alive)[k] == s[j];
                assert(kept(s, alive)[k] == s[j]);
            } else {
                assert(kept(s, alive).last() == s[j]);
            }
        }
        assert forall|j: int| 0 <= j < s.len() && !alive[j] implies dead_pids(s, alive).contains(
            s[j].pid,
        ) by {
            if j < n {
                assert(t[j] == s[j]);
                assert(dead_pids(t, alive).contains(s[j].pid));
                let k = choose|k: int|
                    0 <= k < dead_pids(t, alive).len() && dead_pids(t, alive)[k] == s[j].pid;
                assert(dead_pids(s, alive)[k] == s[j].pid);
            } else {
                assert(dead_pids(s, alive).last() == s[j].pid);
            }
        }
        assert forall|x: ProcessRecord| kept(s, alive).contains(x) implies exists|j: int|
            0 <= j < s.len() && alive[j] && s[j] == x by {
            if kept(t, alive).contains(x) {
                let j = choose|j: int| 0 <= j < t.len() && alive[j] && t[j] == x;
                assert(s[j] == t[j]);
            } else {
                assert(kept(s, alive).last() == x);
                assert(alive[n] && s[n] == x);
            }
        }
    }
}

/// However registrations, unregistrations and monitor passes follow one
/// another, the manager stays well formed (each of them ensures it), and a
/// well-formed manager never admits more processes than it has units.
pub proof fn lemma_active_within_capacity(s: &ProcessManager)
    requires
        s.wf(),
    ensures
        s.active().len() <= s.capacity(),
{
}

/// Registering a new pid that gets a unit, then unregistering it, hands that
/// one unit back and restores the records; unregistering it a second time
/// changes nothing and releases nothing.
pub proof fn lemma_register_unregister(
    s0: &ProcessManager,
    s1: &ProcessManager,
    s2: &ProcessManager,
    s3: &ProcessManager,
    pid: i32,
    command: String,
    t1: u64,
    t2: u64,
    t3: u64,
    first: bool,
    second: bool,
)
    requires
        s0.wf(),
        s1.wf(),
        ProcessManager::registered(
            s0,
            s1,
            pid,
            command,
            t1,
            Ok::<RegisterOutcome, RegisterError>(RegisterOutcome::Admitted),
        ),
        ProcessManager::unregistered(s1, s2, pid, t2, first),
        ProcessManager::unregistered(s2, s3, pid, t3, second),
    ensures
        first,
        s2.available() == s1.available() + 1,
        s2.available() == s0.available(),
        s2.active() == s0.active(),
        s2.waiters() == s0.waiters(),
        !second,
        *s3 == *s2,
{
    let n = s0.active().len() as int;
    let rec = ProcessRecord { pid, command, started_ms: t1 };
    assert(s1.active()[n] == rec);
    assert(has_pid(s1.active(), pid));
    s1.lemma_all_pids_index();
    let j = index_of_pid(s1.active(), pid);
    assert(s1.all_pids()[j] == s1.all_pids()[n]);
    assert(j == n);
    assert(s1.active().remove(n) =~= s0.active());
    assert(s0.waiters().len() == 0);
    assert(s0.waiters().take(0) =~= Seq::<PendingRegistration>::empty());
    assert(admit_all(Seq::<PendingRegistration>::empty(), t2) =~= Seq::<ProcessRecord>::empty());
    assert(s2.active() =~= s0.active());
    assert(s0.waiters().skip(0) =~= s0.waiters());
    if has_pid(s2.active(), pid) {
        let k = choose|k: int| 0 <= k < s2.active().len() && s2.active()[k].pid == pid;
        assert(s0.active()[k].pid == pid);
        assert(has_pid(s0.active(), pid));
    }
}

/// A monitor pass that finds exactly one admitted process gone removes that
/// record and no other, and releases exactly one unit (to the oldest waiter,
/// if any).
pub proof fn lemma_reap_exactly_one(
    s: &ProcessManager,
    new: &ProcessManager,
    report: &ScanReport,
    alive: Seq<bool>,
    now: u64,
    i: int,
)
    requires
        s.wf(),
        alive.len() == s.active().len(),
        0 <= i < alive.len(),
        !alive[i],
        forall|j: int| 0 <= j < alive.len() && j != i ==> alive[j],
        ProcessManager::scanned(s, new, report, alive, now),
    ensures
        report.removed@ == seq![s.active()[i].pid],
        ProcessManager::released(
            new,
            s.active().remove(i),
            s.waiters(),
            s.available(),
            s.capacity(),
            1,
            now,
        ),
{
    lemma_one_dead(s.active(), alive, i);
}

/// A monitor pass neither removes nor reports as hung a live process that is
/// not older than the hang threshold.
pub proof fn lemma_young_live_untouched(
    s: &ProcessManager,
    alive: Seq<bool>,
    now: u64,
    i: int,
)
    requires
        s.wf(),
        alive.len() == s.active().len(),
        0 <= i < alive.len(),
        alive[i],
        !is_hung(s.active()[i], now),
    ensures
        kept(s.active(), alive).contains(s.active()[i]),
        !dead_pids(s.active(), alive).contains(s.active()[i].pid),
        !hung_pids(s.active(), alive, now).contains(s.active()[i].pid),
{
    let a = s.active();
    let pid = a[i].pid;
    lemma_scan_members(a, alive, now);
    s.lemma_all_pids_index();
    if dead_pids(a, alive).contains(pid) {
        let j = choose|j: int| 0 <= j < a.len() && !alive[j] && a[j].pid == pid;
        assert(s.all_pids()[j] == s.all_pids()[i]);
    }
    if hung_pids(a, alive, now).contains(pid) {
        let j = choose|j: int| 0 <= j < a.len() && alive[j] && is_hung(a[j], now) && a[j].pid == pid;
        assert(s.all_pids()[j] == s.all_pids()[i]);
    }
}

/// A monitor pass removes every record whose process it saw gone, keeps no
/// record of that pid, and removes exactly as many records as it lists, so
/// that one unit is released per removed record.
pub proof fn lemma_reap_all_dead(s: &ProcessManager, alive: Seq<bool>, now: u64, i: int)
    requires
        s.wf(),
        alive.len() == s.active().len(),
        0 <= i < alive.len(),
        !alive[i],
    ensures
        dead_pids(s.active(), alive).contains(s.active()[i].pid),
        forall|k: int|
            0 <= k < kept(s.active(), alive).len() ==> #[trigger] kept(s.active(), alive)[k].pid
                != s.active()[i].pid,
        kept(s.active(), alive).len() + dead_pids(s.active(), alive).len() == s.active().len(),
{
    let a = s.active();
    lemma_scan_members(a, alive, now);
    s.lemma_all_pids_index();
    assert forall|k: int| 0 <= k < kept(a, alive).len() implies #[trigger] kept(a, alive)[k].pid
        != a[i].pid by {
        let x = kept(a, alive)[k];
        assert(kept(a, alive).contains(x));
        let j = choose|j: int| 0 <= j < a.len() && alive[j] && a[j] == x;
        if x.pid == a[i].pid {
            assert(s.all_pids()[j] == s.all_pids()[i]);
        }
    }
}

/// A monitor pass never reports as hung a record that is not older than the
/// hang threshold, whatever the probes said.
pub proof fn lemma_young_never_hung(s: &ProcessManager, alive: Seq<bool>, now: u64, i: int)
    requires
        s.wf(),
        alive.len() == s.active().len(),
        0 <= i < alive.len(),
        !is_hung(s.active()[i], now),
    ensures
        !hung_pids(s.active(), alive, now).contains(s.active()[i].pid),
{
    let a = s.active();
    lemma_scan_members(a, alive, now);
    s.lemma_all_pids_index();
    if hung_pids(a, alive, now).contains(a[i].pid) {
        let j = choose|j: int| 0 <= j < a.len() && alive[j] && is_hung(a[j], now) && a[j].pid == a[i].pid;
        assert(s.all_pids()[j] == s.all_pids()[i]);
    }
}

/// What a well-formed manager guarantees: every unit is either free or held by
/// one admitted process, nobody waits while a unit is free, and each pid is
/// admitted or waiting at most once.
pub proof fn lemma_wf_facts(s: &ProcessManager)
    requires
        s.wf(),
    ensures
        s.active().len() + s.available() == s.capacity(),
        s.waiters().len() > 0 ==> s.available() == 0,
        forall|i: int, j: int|
            0 <= i < s.active().len() && 0 <= j < s.active().len() && i != j ==> s.active()[i].pid
                != s.active()[j].pid,
        forall|i: int, j: int|
            0 <= i < s.waiters().len() && 0 <= j < s.waiters().len() && i != j
                ==> s.waiters()[i].pid != s.waiters()[j].pid,
        forall|i: int, j: int|
            0 <= i < s.active().len() && 0 <= j < s.waiters().len() ==> s.active()[i].pid
                != s.waiters()[j].pid,
{
    s.lemma_all_pids_index();
    let n = s.active().len() as int;
    assert forall|i: int, j: int|
        0 <= i < s.active().len() && 0 <= j < s.active().len() && i != j implies s.active()[i].pid
        != s.active()[j].pid by {
        assert(s.all_pids()[i] == s.active()[i].pid);
        assert(s.all_pids()[j] == s.active()[j].pid);
    }
    assert forall|i: int, j: int|
        0 <= i < s.waiters().len() && 0 <= j < s.waiters().len() && i != j implies s.waiters()[i].pid
        != s.waiters()[j].pid by {
        assert(s.all_pids()[n + i] == s.waiters()[i].pid);
        assert(s.all_pids()[n + j] == s.waiters()[j].pid);
    }
    assert forall|i: int, j: int|
        0 <= i < s.active().len() && 0 <= j < s.waiters().len() implies s.active()[i].pid
        != s.waiters()[j].pid by {
        assert(s.all_pids()[i] == s.active()[i].pid);
        assert(s.all_pids()[n + j] == s.waiters()[j].pid);
    }
}

/// After `unregister(pid)` the pid is no longer admitted, so a second
/// `unregister(pid)` releases nothing.
pub proof fn lemma_unregistered_gone(
    s: &ProcessManager,
    new: &ProcessManager,
    pid: i32,
    now: u64,
    r: bool,
)
    requires
        s.wf(),
        ProcessManager::unregistered(s, new, pid, now, r),
    ensures
        !has_pid(new.active(), pid),
{
    lemma_wf_facts(s);
    if r {
        let a = s.active();
        let w = s.waiters();
        let idx = index_of_pid(a, pid);
        assert(0 <= idx < a.len() && a[idx].pid == pid);
        let rest = a.remove(idx);
        let k = min_nat(1, w.len());
        assert(new.active() == rest + admit_all(w.take(k as int), now));
        if has_pid(new.active(), pid) {
            let m = choose|m: int| 0 <= m < new.active().len() && new.active()[m].pid == pid;
            if m < rest.len() {
                let m2 = if m < idx { m } else { m + 1 };
                assert(new.active()[m] == a[m2]);
            } else {
                assert(new.active()[m] == record_of(w[m - rest.len()], now));
            }
        }
    }
}

/// After a monitor pass that saw the `i`-th process gone, that pid is listed
/// as removed and is no longer admitted, even if waiters were admitted in
/// its place.
pub proof fn lemma_reaped_gone(
    s: &ProcessManager,
    new: &ProcessManager,
    report: &ScanReport,
    alive: Seq<bool>,
    now: u64,
    i: int,
)
    requires
        s.wf(),
        alive.len() == s.active().len(),
        0 <= i < alive.len(),
        !alive[i],
        ProcessManager::scanned(s, new, report, alive, now),
    ensures
        report.removed@.contains(s.active()[i].pid),
        !has_pid(new.active(), s.active()[i].pid),
{
    let a = s.active();
    let w = s.waiters();
    let pid = a[i].pid;
    lemma_wf_facts(s);
    lemma_reap_all_dead(s, alive, now, i);
    let kp = kept(a, alive);
    let k = min_nat(report.removed@.len(), w.len());
    assert(new.active() == kp + admit_all(w.take(k as int), now));
    if has_pid(new.active(), pid) {
        let m = choose|m: int| 0 <= m < new.active().len() && new.active()[m].pid == pid;
        if m < kp.len() {
            assert(new.active()[m] == kp[m]);
        } else {
            assert(new.active()[m] == record_of(w[m - kp.len()], now));
        }
    }
}

} // verus!

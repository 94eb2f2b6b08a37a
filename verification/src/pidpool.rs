//! The deadline table: one record per spawned child, and the reaper's sweep
//! that removes every overdue record and signals the children that are still
//! alive. The signalling itself is best-effort; which records a sweep
//! selects is exact.
use vstd::prelude::*;

verus! {

/// How often the reaper sweeps, in milliseconds.
pub const GC_INTERVAL_MS: u64 = 10000;

/// One spawned child: its process id, when it started and how long it may
/// run, both in milliseconds.
#[derive(Clone, Copy, PartialEq, Eq, Structural)]
pub struct DeadlineRecord {
    /// The child's process id.
    pub pid: u32,
    /// When the child was spawned.
    pub started_at: u64,
    /// The wall-clock budget it was given.
    pub wall_limit: u64,
}

/// Whether a record's deadline has passed at `now`.
pub open spec fn is_due(rec: DeadlineRecord, now: u64) -> bool {
    now as int > rec.started_at + rec.wall_limit
}

/// The records of `rs` from position `i` on that are not yet due, in order.
pub open spec fn live_from(rs: Seq<DeadlineRecord>, i: int, now: u64) -> Seq<DeadlineRecord>
    decreases rs.len() - i,
{
    if i < 0 || i >= rs.len() {
        Seq::empty()
    } else if is_due(rs[i], now) {
        live_from(rs, i + 1, now)
    } else {
        seq![rs[i]] + live_from(rs, i + 1, now)
    }
}

/// The process ids of the records of `rs` from position `i` on that are due,
/// in order.
pub open spec fn due_from(rs: Seq<DeadlineRecord>, i: int, now: u64) -> Seq<u32>
    decreases rs.len() - i,
{
    if i < 0 || i >= rs.len() {
        Seq::empty()
    } else if is_due(rs[i], now) {
        seq![rs[i].pid] + due_from(rs, i + 1, now)
    } else {
        due_from(rs, i + 1, now)
    }
}

/// Each collected process id belongs to a record that was due.
proof fn lemma_due_witness(rs: Seq<DeadlineRecord>, i: int, now: u64, j: int)
    requires
        0 <= i,
        0 <= j < due_from(rs, i, now).len(),
    ensures
        exists|m: int|
            #![trigger rs[m]]
            i <= m < rs.len() && is_due(rs[m], now) && due_from(rs, i, now)[j] == rs[m].pid,
    decreases rs.len() - i,
{
    if i < rs.len() {
        if is_due(rs[i], now) {
            if j == 0 {
                assert(due_from(rs, i, now)[0] == rs[i].pid);
                assert(i <= i < rs.len() && is_due(rs[i], now) && due_from(rs, i, now)[j]
                    == rs[i].pid);
            } else {
                lemma_due_witness(rs, i + 1, now, j - 1);
                let m = choose|m: int|
                    #![trigger rs[m]]
                    i + 1 <= m < rs.len() && is_due(rs[m], now) && due_from(rs, i + 1, now)[j - 1]
                        == rs[m].pid;
                assert(due_from(rs, i, now)[j] == due_from(rs, i + 1, now)[j - 1]);
                assert(i <= m < rs.len() && is_due(rs[m], now) && due_from(rs, i, now)[j]
                    == rs[m].pid);
            }
        } else {
            lemma_due_witness(rs, i + 1, now, j);
            let m = choose|m: int|
                #![trigger rs[m]]
                i + 1 <= m < rs.len() && is_due(rs[m], now) && due_from(rs, i + 1, now)[j]
                    == rs[m].pid;
            assert(i <= m < rs.len() && is_due(rs[m], now) && due_from(rs, i, now)[j]
                == rs[m].pid);
        }
    }
}

/// A sweep selects exactly the due records: nothing kept is due, every
/// record that is not due is kept, and every due record's process id is
/// picked up for signalling.
#[verifier::rlimit(60)]
pub proof fn lemma_sweep_selects(rs: Seq<DeadlineRecord>, i: int, now: u64)
    requires
        0 <= i,
    ensures
        forall|j: int|
            0 <= j < live_from(rs, i, now).len() ==> !is_due(
                #[trigger] live_from(rs, i, now)[j],
                now,
            ),
        forall|m: int|
            i <= m < rs.len() && !is_due(#[trigger] rs[m], now) ==> live_from(
                rs,
                i,
                now,
            ).contains(rs[m]),
        forall|m: int|
            i <= m < rs.len() && is_due(#[trigger] rs[m], now) ==> due_from(
                rs,
                i,
                now,
            ).contains(rs[m].pid),
        forall|j: int|
            #![trigger due_from(rs, i, now)[j]]
            0 <= j < due_from(rs, i, now).len() ==> exists|m: int|
                #![trigger rs[m]]
                i <= m < rs.len() && is_due(rs[m], now) && due_from(rs, i, now)[j] == rs[m].pid,
    decreases rs.len() - i,
{
    assert forall|j: int|
        #![trigger due_from(rs, i, now)[j]]
        0 <= j < due_from(rs, i, now).len() implies exists|m: int|
        #![trigger rs[m]]
        i <= m < rs.len() && is_due(rs[m], now) && due_from(rs, i, now)[j] == rs[m].pid by {
        lemma_due_witness(rs, i, now, j);
    }
    if i < rs.len() {
        lemma_sweep_selects(rs, i + 1, now);
        let live = live_from(rs, i, now);
        let due = due_from(rs, i, now);
        let live_rest = live_from(rs, i + 1, now);
        let due_rest = due_from(rs, i + 1, now);
        if is_due(rs[i], now) {
            assert forall|m: int|
                i <= m < rs.len() && is_due(#[trigger] rs[m], now) implies due.contains(
                rs[m].pid,
            ) by {
                if m == i {
                    assert(due[0] == rs[i].pid);
                } else {
                    assert(due_rest.contains(rs[m].pid));
                    let j = choose|j: int| 0 <= j < due_rest.len() && due_rest[j] == rs[m].pid;
                    assert(due[j + 1] == rs[m].pid);
                }
            }
        } else {
            assert forall|j: int| 0 <= j < live.len() implies !is_due(
                #[trigger] live[j],
                now,
            ) by {
                if j > 0 {
                    assert(live[j] == live_rest[j - 1]);
                }
            }
            assert forall|m: int|
                i <= m < rs.len() && !is_due(#[trigger] rs[m], now) implies live.contains(
                rs[m],
            ) by {
                if m == i {
                    assert(live[0] == rs[i]);
                } else {
                    assert(live_rest.contains(rs[m]));
                    let j = choose|j: int| 0 <= j < live_rest.len() && live_rest[j] == rs[m];
                    assert(live[j + 1] == rs[m]);
                }
            }
        }
    }
}

/// Relies on `nix::sys::wait::waitpid` with `WNOHANG`: a non-blocking probe
/// of one child. The answer depends on the state of the machine, so nothing
/// is promised of it.
#[verifier::external_body]
fn probe_alive(pid: u32) -> bool {
    let probe = nix::sys::wait::waitpid(
        nix::unistd::Pid::from_raw(pid as i32),
        Some(nix::sys::wait::WaitPidFlag::WNOHANG),
    );
    if let Ok(nix::sys::wait::WaitStatus::StillAlive) = probe {
        true
    } else {
        false
    }
}

/// Relies on `nix::sys::signal::kill`: sends SIGKILL to one child; a failure
/// to deliver it is ignored, as the sweep is best-effort.
#[verifier::external_body]
fn send_kill(pid: u32) {
    let _ = nix::sys::signal::kill(
        nix::unistd::Pid::from_raw(pid as i32),
        nix::sys::signal::Signal::SIGKILL,
    );
}

/// The process-wide deadline table.
pub struct PidPool {
    records: Vec<DeadlineRecord>,
}

impl PidPool {
    /// The recorded children, in the order they were recorded.
    pub closed spec fn records_seq(&self) -> Seq<DeadlineRecord> {
        self.records@
    }

    /// An empty table.
    pub fn new() -> (r: PidPool)
        ensures
            r.records_seq() == Seq::<DeadlineRecord>::empty(),
    {
        PidPool { records: Vec::new() }
    }

    /// Records one spawned child. Only spawns enter the table.
    pub fn record_spawn(&mut self, pid: u32, now: u64, wall_limit: u64)
        ensures
            final(self).records_seq() == old(self).records_seq().push(
                DeadlineRecord { pid, started_at: now, wall_limit },
            ),
    {
        self.records.push(DeadlineRecord { pid, started_at: now, wall_limit });
    }

    /// Removes every record whose deadline has passed at `now` and hands
    /// back their process ids; everything not yet due stays, in order.
    #[verifier::loop_isolation(false)]
    pub fn take_due(&mut self, now: u64) -> (due: Vec<u32>)
        ensures
            final(self).records_seq() == live_from(old(self).records_seq(), 0, now),
            due@ == due_from(old(self).records_seq(), 0, now),
    {
        let ghost o = self.records@;
        let mut kept: Vec<DeadlineRecord> = Vec::new();
        let mut due: Vec<u32> = Vec::new();
        let ghost mut i: int = 0;
        while self.records.len() > 0
            invariant
                0 <= i <= o.len(),
                self.records@ == o.skip(i),
                kept@ + live_from(o, i, now) == live_from(o, 0, now),
                due@ + due_from(o, i, now) == due_from(o, 0, now),
            decreases self.records@.len(),
        {
            let rec = self.records.remove(0);
            proof {
                assert(rec == o[i]);
                assert(self.records@ =~= o.skip(i + 1));
            }
            let overdue = now > rec.started_at && now - rec.started_at > rec.wall_limit;
            proof {
                assert(overdue == is_due(o[i], now));
            }
            if overdue {
                due.push(rec.pid);
            } else {
                kept.push(rec);
            }
            proof {
                assert(kept@ + live_from(o, i + 1, now) =~= live_from(o, 0, now));
                assert(due@ + due_from(o, i + 1, now) =~= due_from(o, 0, now));
                i = i + 1;
            }
        }
        self.records = kept;
        proof {
            assert(self.records@ =~= live_from(o, 0, now));
            assert(due@ =~= due_from(o, 0, now));
        }
        due
    }

}

/// The signalling half of a sweep: probes each collected child and sends the
/// terminating signal to the ones still alive. It takes the process ids that
/// `take_due` handed out, after the table's lock has been released.
#[verifier::loop_isolation(false)]
pub fn signal_overdue(due: &Vec<u32>) {
    let n = due.len();
    let mut k: usize = 0;
    while k < n
        invariant
            k <= n,
            n == due@.len(),
        decreases n - k,
    {
        let pid = due[k];
        if probe_alive(pid) {
            send_kill(pid);
        }
        k = k + 1;
    }
}

} // verus!

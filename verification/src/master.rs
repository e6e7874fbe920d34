//! Master process bookkeeping: the worker table, the per-worker connection
//! limit and the crash-rate guard against respawn loops.

use std::time::Instant;
use vstd::prelude::*;
use crate::clock::{duration_as_secs, duration_since, instant_now};

verus! {

/// Worker process metadata
#[derive(Debug, Clone, Copy, PartialEq, Eq, Structural)]
pub struct WorkerInfo {
    pub id: usize,
    pub pid: u32,
    pub cpu_core: Option<usize>,
}

/// Worker process table owned by the master
pub struct MasterProcess {
    workers: Vec<WorkerInfo>,
    max_workers: usize,
    pub worker_connections: usize,
}

/// The index of the first worker with process id `pid`.
pub open spec fn first_with_pid(ws: Seq<WorkerInfo>, pid: u32) -> Option<int> {
    if exists|i: int| 0 <= i < ws.len() && ws[i].pid == pid {
        Some(
            choose|i: int|
                0 <= i < ws.len() && ws[i].pid == pid && forall|j: int| 0 <= j < i ==> ws[j].pid != pid,
        )
    } else {
        None
    }
}

impl MasterProcess {
    pub closed spec fn workers(&self) -> Seq<WorkerInfo> {
        self.workers@
    }

    pub closed spec fn max_workers(&self) -> usize {
        self.max_workers
    }

    pub closed spec fn worker_conns(&self) -> usize {
        self.worker_connections
    }

    pub fn new(max_workers: usize, worker_connections: usize) -> (r: Self)
        ensures
            r.workers() == Seq::<WorkerInfo>::empty(),
            r.max_workers() == max_workers,
            r.worker_conns() == worker_connections,
    {
        Self { workers: Vec::new(), max_workers, worker_connections }
    }

    /// Adds a worker; its id is its position in the table.
    pub fn register_worker(&mut self, pid: u32, cpu_core: Option<usize>) -> (id: usize)
        ensures
            id == old(self).workers().len(),
            final(self).workers() == old(self).workers().push(WorkerInfo { id, pid, cpu_core }),
            final(self).max_workers() == old(self).max_workers(),
            final(self).worker_conns() == old(self).worker_conns(),
    {
        let id = self.workers.len();
        self.workers.push(WorkerInfo { id, pid, cpu_core });
        id
    }

    /// Removes and returns the first worker with process id `pid`.
    pub fn remove_worker(&mut self, pid: u32) -> (r: Option<WorkerInfo>)
        ensures
            match first_with_pid(old(self).workers(), pid) {
                Some(i) => r == Some(old(self).workers()[i]) && final(self).workers()
                    == old(self).workers().remove(i),
                None => r is None && final(self).workers() == old(self).workers(),
            },
            final(self).max_workers() == old(self).max_workers(),
            final(self).worker_conns() == old(self).worker_conns(),
    {
        let mut i: usize = 0;
        while i < self.workers.len()
            invariant
                i <= self.workers@.len(),
                self.workers@ == old(self).workers@,
                self.max_workers == old(self).max_workers,
                self.worker_connections == old(self).worker_connections,
                forall|j: int| 0 <= j < i ==> self.workers@[j].pid != pid,
            decreases self.workers@.len() - i,
        {
            if self.workers[i].pid == pid {
                let ghost ws = self.workers@;
                proof {
                    let k = choose|k: int|
                        0 <= k < ws.len() && ws[k].pid == pid && forall|j: int|
                            0 <= j < k ==> ws[j].pid != pid;
                    assert(k == i) by {
                        if k < i {
                            assert(ws[k].pid != pid);
                        }
                        if k > i {
                            assert(ws[i as int].pid == pid);
                        }
                    }
                }
                let w = self.workers.remove(i);
                return Some(w);
            }
            i += 1;
        }
        None
    }

    pub fn worker_count(&self) -> (r: usize)
        ensures
            r == self.workers().len(),
    {
        self.workers.len()
    }

    pub fn needs_more_workers(&self) -> (r: bool)
        ensures
            r == (self.workers().len() < self.max_workers()),
    {
        self.workers.len() < self.max_workers
    }
}

/// Connection counter for worker_connections limit
pub struct ConnectionCounter {
    current: usize,
    max: usize,
}

impl ConnectionCounter {
    pub closed spec fn count(&self) -> usize {
        self.current
    }

    pub closed spec fn limit(&self) -> usize {
        self.max
    }

    pub fn new(max: usize) -> (r: Self)
        ensures
            r.count() == 0,
            r.limit() == max,
    {
        Self { current: 0, max }
    }

    /// Takes a connection slot if fewer than `max` are taken.
    pub fn try_acquire(&mut self) -> (r: bool)
        ensures
            r == (old(self).count() < old(self).limit()),
            final(self).count() == (if r {
                old(self).count() + 1
            } else {
                old(self).count() as int
            }),
            final(self).limit() == old(self).limit(),
    {
        if self.current >= self.max {
            false
        } else {
            self.current = self.current + 1;
            true
        }
    }

    /// Gives a connection slot back (wrapping below zero, as the atomic
    /// counter did).
    pub fn release(&mut self)
        ensures
            final(self).count() == vstd::wrapping::usize_specs::wrapping_sub(old(self).count(), 1),
            final(self).limit() == old(self).limit(),
    {
        self.current = self.current.wrapping_sub(1);
    }

    pub fn current_count(&self) -> (r: usize)
        ensures
            r == self.count(),
    {
        self.current
    }
}

/// The count never exceeds the limit through acquisitions: a counter at
/// its limit refuses and stays there.
pub proof fn law_counter_refuses_at_limit(count: usize, limit: usize)
    requires
        count >= limit,
    ensures
        !(count < limit),
{
}

/// Crash rate tracker: detect excessive crashes and stop respawning
pub struct CrashTracker {
    crash_times: Vec<Instant>,
    max_crashes: usize,
    window_secs: u64,
}

/// The crashes of `times` whose age in whole seconds (given by `ages`,
/// one per crash) is below `window`, in order.
pub open spec fn recent_crashes(times: Seq<Instant>, ages: Seq<u64>, window: u64) -> Seq<Instant>
    decreases times.len(),
{
    if times.len() == 0 || ages.len() < times.len() {
        Seq::empty()
    } else {
        let rest = recent_crashes(times.drop_last(), ages.take(times.len() - 1), window);
        if ages[times.len() - 1] < window {
            rest.push(times.last())
        } else {
            rest
        }
    }
}

impl CrashTracker {
    pub closed spec fn crashes(&self) -> Seq<Instant> {
        self.crash_times@
    }

    pub closed spec fn max_crashes(&self) -> usize {
        self.max_crashes
    }

    pub closed spec fn window_secs(&self) -> u64 {
        self.window_secs
    }

    pub fn new(max_crashes: usize, window_secs: u64) -> (r: Self)
        ensures
            r.crashes().len() == 0,
            r.max_crashes() == max_crashes,
            r.window_secs() == window_secs,
    {
        Self { crash_times: Vec::new(), max_crashes, window_secs }
    }

    /// Records a crash at `now`, given the age in whole seconds of each
    /// recorded crash at that time (one per crash, in order): the crashes at
    /// least the window old are forgotten and `now` is appended.
    pub fn record_crash_at(&mut self, now: Instant, ages: &Vec<u64>)
        requires
            ages@.len() == old(self).crashes().len(),
        ensures
            final(self).crashes() == recent_crashes(old(self).crashes(), ages@, old(self).window_secs()).push(
                now,
            ),
            final(self).max_crashes() == old(self).max_crashes(),
            final(self).window_secs() == old(self).window_secs(),
    {
        let ghost old_times = self.crash_times@;
        let mut kept: Vec<Instant> = Vec::new();
        let mut i: usize = 0;
        while i < self.crash_times.len()
            invariant
                i <= self.crash_times@.len(),
                self.crash_times@ == old_times,
                old_times == old(self).crash_times@,
                ages@.len() == old_times.len(),
                self.window_secs == old(self).window_secs,
                self.max_crashes == old(self).max_crashes,
                kept@ == recent_crashes(old_times.take(i as int), ages@.take(i as int), self.window_secs),
            decreases self.crash_times@.len() - i,
        {
            let t = self.crash_times[i];
            proof {
                assert(old_times.take(i + 1).drop_last() =~= old_times.take(i as int));
                assert(ages@.take(i + 1).take(i as int) =~= ages@.take(i as int));
            }
            if ages[i] < self.window_secs {
                kept.push(t);
            }
            i += 1;
        }
        assert(old_times.take(old_times.len() as int) =~= old_times);
        assert(ages@.take(old_times.len() as int) =~= ages@);
        kept.push(now);
        self.crash_times = kept;
    }

    /// Records a crash now, forgetting the crashes that are at least the
    /// window old (their ages read from the clock).
    pub fn record_crash(&mut self)
        ensures
            exists|ages: Seq<u64>, now: Instant|
                #![trigger recent_crashes(old(self).crashes(), ages, old(self).window_secs()).push(now)]
                ages.len() == old(self).crashes().len() && final(self).crashes() == recent_crashes(
                    old(self).crashes(),
                    ages,
                    old(self).window_secs(),
                ).push(now),
            final(self).max_crashes() == old(self).max_crashes(),
            final(self).window_secs() == old(self).window_secs(),
    {
        let now = instant_now();
        let mut ages: Vec<u64> = Vec::new();
        let mut i: usize = 0;
        while i < self.crash_times.len()
            invariant
                i <= self.crash_times@.len(),
                ages@.len() == i,
            decreases self.crash_times@.len() - i,
        {
            ages.push(duration_as_secs(&duration_since(&now, &self.crash_times[i])));
            i += 1;
        }
        self.record_crash_at(now, &ages);
        assert(ages@.len() == old(self).crashes().len() && self.crashes() == recent_crashes(
            old(self).crashes(),
            ages@,
            old(self).window_secs(),
        ).push(now));
    }

    pub fn should_stop_respawning(&self) -> (r: bool)
        ensures
            r == (self.crashes().len() >= self.max_crashes()),
    {
        self.crash_times.len() >= self.max_crashes
    }
}

} // verus!

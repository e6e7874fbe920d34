//! Priorities of carbon-aware deferred jobs and how long each may wait for
//! a low-carbon window.

use vstd::prelude::*;

verus! {

/// Priority level for deferred jobs, from most to least urgent.
#[derive(Debug, Clone, Copy, PartialEq, Eq, Structural, PartialOrd, Ord, Default)]
pub enum JobPriority {
    /// Must execute immediately regardless of carbon intensity
    Critical,
    /// Can wait up to 5 minutes for green window
    High,
    /// Can wait up to 30 minutes for green window
    #[default]
    Normal,
    /// Can wait up to 2 hours for green window
    Low,
    /// Can wait up to a day for the optimal green window
    Background,
}

/// The rank of a priority: 0 for the most urgent.
pub open spec fn rank(p: JobPriority) -> int {
    match p {
        JobPriority::Critical => 0,
        JobPriority::High => 1,
        JobPriority::Normal => 2,
        JobPriority::Low => 3,
        JobPriority::Background => 4,
    }
}

/// The longest a job of priority `p` may wait, in seconds.
pub open spec fn max_wait_secs(p: JobPriority) -> u64 {
    match p {
        JobPriority::Critical => 0u64,
        JobPriority::High => 300u64,
        JobPriority::Normal => 1800u64,
        JobPriority::Low => 7200u64,
        JobPriority::Background => 86400u64,
    }
}

impl JobPriority {
    /// Maximum wait time for this priority level, in whole seconds.
    pub fn max_wait_duration(&self) -> (r: u64)
        ensures
            r == max_wait_secs(*self),
    {
        match self {
            JobPriority::Critical => 0,
            JobPriority::High => 5 * 60,
            JobPriority::Normal => 30 * 60,
            JobPriority::Low => 2 * 60 * 60,
            JobPriority::Background => 24 * 60 * 60,
        }
    }

    /// The rank of the priority, 0 for `Critical` up to 4 for `Background`.
    pub fn rank(&self) -> (r: u8)
        ensures
            r as int == rank(*self),
    {
        match self {
            JobPriority::Critical => 0,
            JobPriority::High => 1,
            JobPriority::Normal => 2,
            JobPriority::Low => 3,
            JobPriority::Background => 4,
        }
    }
}

/// A less urgent priority never waits less: the maximum wait grows with
/// the rank.
pub proof fn law_wait_grows_with_rank(a: JobPriority, b: JobPriority)
    requires
        rank(a) <= rank(b),
    ensures
        max_wait_secs(a) <= max_wait_secs(b),
{
}

/// Result of attempting to schedule a job
#[derive(Debug, Clone, Copy, PartialEq, Eq, Structural)]
pub enum ScheduleResult {
    /// Job executed immediately (carbon is low or priority is critical)
    ExecutedImmediately,
    /// Job was queued for later execution
    Queued { position: usize },
    /// Queue is full, job rejected
    QueueFull,
    /// Scheduler is disabled
    Disabled,
}

/// Queue statistics of the scheduler.
#[derive(Debug, Clone, Copy)]
pub struct GreenWaitStats {
    /// Total jobs in queue
    pub total_queued: usize,
    /// Jobs that have exceeded their wait time
    pub expired_count: usize,
    /// Jobs by priority level [Critical, High, Normal, Low, Background]
    pub by_priority: [usize; 5],
}

// ---------------------------------------------------------------------------
// Scheduling decisions
// ---------------------------------------------------------------------------

/// What the scheduler does with a submitted job.
#[derive(Debug, Clone, Copy, PartialEq, Eq, Structural)]
pub enum SubmitAction {
    /// Answer at once.
    Reply(ScheduleResult),
    /// Store the job in the queue; it will stand at this position.
    Persist { position: usize },
}

/// A submitted job: nothing while the scheduler is off; critical jobs, and
/// jobs whose region is green now (its known intensity is within the job's
/// threshold), run at once; otherwise the job is stored at the back of the
/// queue, unless the queue is full.
pub fn submit_action(
    enabled: bool,
    priority: JobPriority,
    green_now: bool,
    queue_len: usize,
    max_queue_size: usize,
) -> (r: SubmitAction)
    ensures
        r == (if !enabled {
            SubmitAction::Reply(ScheduleResult::Disabled)
        } else if priority == JobPriority::Critical || green_now {
            SubmitAction::Reply(ScheduleResult::ExecutedImmediately)
        } else if queue_len >= max_queue_size {
            SubmitAction::Reply(ScheduleResult::QueueFull)
        } else {
            SubmitAction::Persist { position: queue_len }
        }),
{
    if !enabled {
        SubmitAction::Reply(ScheduleResult::Disabled)
    } else if priority == JobPriority::Critical || green_now {
        SubmitAction::Reply(ScheduleResult::ExecutedImmediately)
    } else if queue_len >= max_queue_size {
        SubmitAction::Reply(ScheduleResult::QueueFull)
    } else {
        SubmitAction::Persist { position: queue_len }
    }
}

/// The answer once storing the job ended: queued at its position, or, where
/// it could not be stored, refused as if the queue were full.
pub fn on_persisted(position: usize, stored: bool) -> (r: ScheduleResult)
    ensures
        r == (if stored {
            ScheduleResult::Queued { position }
        } else {
            ScheduleResult::QueueFull
        }),
{
    if stored {
        ScheduleResult::Queued { position }
    } else {
        ScheduleResult::QueueFull
    }
}

/// Whether a queued job runs now: when it has waited too long, or its region
/// is green.
pub open spec fn job_ready(expired: bool, green: bool) -> bool {
    expired || green
}

/// The jobs that run now (first) and those that stay queued (second), each
/// in queue order; `expired[i]` and `green[i]` describe `jobs[i]`.
pub open spec fn split_ready<T>(jobs: Seq<T>, expired: Seq<bool>, green: Seq<bool>) -> (Seq<T>, Seq<T>)
    decreases jobs.len(),
{
    if jobs.len() == 0 {
        (Seq::empty(), Seq::empty())
    } else {
        let (r, k) = split_ready(jobs.drop_last(), expired.take(jobs.len() - 1), green.take(jobs.len() - 1));
        if job_ready(expired[jobs.len() - 1], green[jobs.len() - 1]) {
            (r.push(jobs.last()), k)
        } else {
            (r, k.push(jobs.last()))
        }
    }
}

/// Sorts the popped jobs into those to run and those to put back.
pub fn partition_ready<T>(jobs: Vec<T>, expired: &Vec<bool>, green: &Vec<bool>) -> (r: (Vec<T>, Vec<T>))
    requires
        expired@.len() == jobs@.len(),
        green@.len() == jobs@.len(),
    ensures
        (r.0@, r.1@) == split_ready(jobs@, expired@, green@),
{
    let ghost all = jobs@;
    let mut jobs = jobs;
    let mut ready: Vec<T> = Vec::new();
    let mut remaining: Vec<T> = Vec::new();
    let mut i: usize = 0;
    let n: usize = expired.len();
    assert(all.take(0) =~= Seq::<T>::empty());
    assert(expired@.take(0) =~= Seq::<bool>::empty());
    assert(green@.take(0) =~= Seq::<bool>::empty());
    while i < n
        invariant
            i <= n,
            n == all.len(),
            expired@.len() == n,
            green@.len() == n,
            jobs@ == all.skip(i as int),
            (ready@, remaining@) == split_ready(all.take(i as int), expired@.take(i as int), green@.take(i as int)),
        decreases n - i,
    {
        assert(jobs@.len() > 0);
        let job = jobs.remove(0);
        assert(job == all[i as int]);
        assert(all.skip(i as int).drop_first() =~= all.skip(i + 1));
        assert(all.take(i + 1).drop_last() =~= all.take(i as int));
        assert(all.take(i + 1).last() == all[i as int]);
        assert(expired@.take(i + 1).take(i as int) =~= expired@.take(i as int));
        assert(green@.take(i + 1).take(i as int) =~= green@.take(i as int));
        if expired[i] || green[i] {
            ready.push(job);
        } else {
            remaining.push(job);
        }
        i += 1;
    }
    assert(all.take(n as int) =~= all);
    assert(expired@.take(n as int) =~= expired@);
    assert(green@.take(n as int) =~= green@);
    (ready, remaining)
}

/// How many jobs of each kind the queue holds.
pub open spec fn count_where<T>(s: Seq<T>, p: spec_fn(T) -> bool) -> nat
    decreases s.len(),
{
    if s.len() == 0 {
        0
    } else {
        count_where(s.drop_last(), p) + if p(s.last()) { 1nat } else { 0nat }
    }
}

/// The queue's statistics from each stored job's expiry and priority: the
/// total, the expired, and the count of each priority.
pub fn queue_stats(jobs: &Vec<(bool, JobPriority)>) -> (r: GreenWaitStats)
    ensures
        r.total_queued == jobs@.len(),
        r.expired_count == count_where(jobs@, |j: (bool, JobPriority)| j.0),
        forall|k: int|
            0 <= k < 5 ==> r.by_priority[k] == count_where(jobs@, |j: (bool, JobPriority)| rank(j.1) == k),
{
    let ghost s = jobs@;
    let mut expired: usize = 0;
    let mut by_priority: [usize; 5] = [0, 0, 0, 0, 0];
    let mut i: usize = 0;
    assert(s.take(0) =~= Seq::<(bool, JobPriority)>::empty());
    while i < jobs.len()
        invariant
            i <= s.len(),
            s == jobs@,
            expired == count_where(s.take(i as int), |j: (bool, JobPriority)| j.0),
            forall|k: int|
                0 <= k < 5 ==> by_priority[k] == count_where(
                    s.take(i as int),
                    |j: (bool, JobPriority)| rank(j.1) == k,
                ),
            forall|k: int| 0 <= k < 5 ==> #[trigger] by_priority[k] <= i,
            expired <= i,
        decreases s.len() - i,
    {
        assert(s.take(i + 1).drop_last() =~= s.take(i as int));
        assert(s.take(i + 1).last() == s[i as int]);
        let (e, p) = jobs[i];
        if e {
            expired += 1;
        }
        let k = p.rank() as usize;
        by_priority.set(k, by_priority[k] + 1);
        i += 1;
    }
    assert(s.take(s.len() as int) =~= s);
    GreenWaitStats { total_queued: jobs.len(), expired_count: expired, by_priority }
}

/// Whether a job that has waited `elapsed_secs` seconds and
/// `elapsed_nanos` nanoseconds (a signed span, nanoseconds below a second)
/// has waited longer than its priority allows.
pub open spec fn waited_too_long(elapsed_secs: i64, elapsed_nanos: u32, p: JobPriority) -> bool {
    elapsed_secs > max_wait_secs(p) || (elapsed_secs == max_wait_secs(p) && elapsed_nanos > 0)
}

/// `DeferredJob::is_expired` on the time the job has waited.
pub fn wait_expired(elapsed_secs: i64, elapsed_nanos: u32, priority: JobPriority) -> (r: bool)
    requires
        elapsed_nanos < 1000000000,
    ensures
        r == waited_too_long(elapsed_secs, elapsed_nanos, priority),
{
    let max = priority.max_wait_duration() as i64;
    elapsed_secs > max || (elapsed_secs == max && elapsed_nanos > 0)
}

/// `DeferredJob::time_remaining` on the time the job has waited: the
/// seconds and nanoseconds left before it expires, zero once the wait is
/// used up.
pub fn wait_remaining(elapsed_secs: i64, elapsed_nanos: u32, priority: JobPriority) -> (r: (u64, u32))
    requires
        elapsed_nanos < 1000000000,
    ensures
        r.1 < 1000000000,
        (elapsed_secs >= max_wait_secs(priority)) ==> r == (0u64, 0u32),
        (elapsed_secs < max_wait_secs(priority)) ==> r.0 * 1000000000 + r.1 == (max_wait_secs(priority) - elapsed_secs)
            * 1000000000 - elapsed_nanos,
{
    let max = priority.max_wait_duration() as i64;
    if elapsed_secs >= max {
        return (0, 0);
    }
    let whole = (max as i128 - elapsed_secs as i128) as u64;
    if elapsed_nanos > 0 {
        (whole - 1, 1000000000 - elapsed_nanos)
    } else {
        (whole, 0)
    }
}

} // verus!

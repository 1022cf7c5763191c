//! The transfer queue: a list of plain values that survives a restart, walked
//! from the top by whoever drives it.
use vstd::prelude::*;

use crate::endpoint::EndpointId;
use crate::error::Error;
use crate::text::str_eq;
use crate::transfer::{ConflictPolicy, JobState, ResumeMarker};

verus! {

/// One file waiting to move, or moving.
#[derive(Debug, Clone)]
pub struct QueuedJob {
    pub id: String,
    pub source_endpoint: EndpointId,
    pub source_path: String,
    pub target_endpoint: EndpointId,
    pub target_path: String,
    /// What the row shows.
    pub name: String,
    pub state: JobState,
    pub conflict_policy: ConflictPolicy,
    pub total_bytes: Option<u64>,
    pub done_bytes: u64,
    pub resume: Option<ResumeMarker>,
    pub keep_modified: bool,
    pub keep_permissions: bool,
    pub use_temporary_name: bool,
    /// How many attempts have already failed.
    pub attempts: u8,
    /// Attempts this job gets before it is paused.
    pub retries: Option<u8>,
    /// Why it last failed, for the row to explain itself.
    pub failure: Option<Error>,
    /// Seconds since the epoch, for stable ordering of equals.
    pub added: i64,
}

impl QueuedJob {
    /// Whether both sides sit on the same connection.
    pub fn is_within_one_endpoint(&self) -> (b: bool)
        ensures
            b == (self.source_endpoint.0@ == self.target_endpoint.0@),
    {
        self.source_endpoint == self.target_endpoint
    }

    /// Whether neither side is the local disk: a copy between two servers.
    pub fn is_between_two_endpoints(&self, local: &EndpointId) -> (b: bool)
        ensures
            b == (self.source_endpoint.0@ != local.0@ && self.target_endpoint.0@ != local.0@),
    {
        !(self.source_endpoint == *local) && !(self.target_endpoint == *local)
    }
}

/// How many connections one endpoint may have, or has, as `(endpoint, number)`
/// pairs. The first pair naming an endpoint is the one that counts.
pub open spec fn lookup(pairs: Seq<(EndpointId, u32)>, id: Seq<char>, default: u32) -> u32
    decreases pairs.len(),
{
    if pairs.len() == 0 {
        default
    } else if pairs[0].0.0@ == id {
        pairs[0].1
    } else {
        lookup(pairs.drop_first(), id, default)
    }
}

pub fn lookup_exec(pairs: &[(EndpointId, u32)], id: &EndpointId, default: u32) -> (n: u32)
    ensures
        n == lookup(pairs@, id.0@, default),
{
    let mut i: usize = 0;
    assert(pairs@.skip(0) =~= pairs@);
    while i < pairs.len()
        invariant
            i <= pairs@.len(),
            lookup(pairs@, id.0@, default) == lookup(pairs@.skip(i as int), id.0@, default),
        decreases pairs@.len() - i,
    {
        assert(pairs@.skip(i as int).drop_first() =~= pairs@.skip(i + 1));
        if pairs[i].0 == *id {
            return pairs[i].1;
        }
        i = i + 1;
    }
    default
}

/// Whether a job may start, given the limits and what is already running.
/// Both ends count, and a copy within one connection counts against it twice.
pub open spec fn fits(
    job: QueuedJob,
    limits: Seq<(EndpointId, u32)>,
    running: Seq<(EndpointId, u32)>,
) -> bool {
    let s = job.source_endpoint.0@;
    let t = job.target_endpoint.0@;
    if s == t {
        lookup(running, s, 0) + 2 <= lookup(limits, s, 1)
    } else {
        lookup(running, s, 0) + 1 <= lookup(limits, s, 1) && lookup(running, t, 0) + 1 <= lookup(
            limits,
            t,
            1,
        )
    }
}

pub open spec fn startable(
    job: QueuedJob,
    limits: Seq<(EndpointId, u32)>,
    running: Seq<(EndpointId, u32)>,
) -> bool {
    job.state == JobState::Queued && fits(job, limits, running)
}

/// The index of the first job with this identifier.
pub open spec fn first_with_id(jobs: Seq<QueuedJob>, id: Seq<char>) -> int
    decreases jobs.len(),
{
    if jobs.len() == 0 {
        -1
    } else if jobs[0].id@ == id {
        0
    } else {
        let r = first_with_id(jobs.drop_first(), id);
        if r < 0 {
            -1
        } else {
            r + 1
        }
    }
}

pub proof fn lemma_first_with_id(jobs: Seq<QueuedJob>, id: Seq<char>)
    ensures
        -1 <= first_with_id(jobs, id) < jobs.len(),
        first_with_id(jobs, id) >= 0 ==> jobs[first_with_id(jobs, id)].id@ == id,
        forall|k: int|
            0 <= k < jobs.len() && (first_with_id(jobs, id) < 0 || k < first_with_id(jobs, id))
                ==> jobs[k].id@ != id,
    decreases jobs.len(),
{
    if jobs.len() > 0 && jobs[0].id@ != id {
        lemma_first_with_id(jobs.drop_first(), id);
        assert forall|k: int|
            0 <= k < jobs.len() && (first_with_id(jobs, id) < 0 || k < first_with_id(jobs, id))
                implies jobs[k].id@ != id by {
            if k > 0 {
                assert(jobs[k] == jobs.drop_first()[k - 1]);
            }
        }
    }
}

/// Where a job moves to when it is moved by `delta` places.
pub open spec fn clamped_target(from: int, delta: int, len: int) -> int {
    let want = from + delta;
    if want < 0 {
        0
    } else if want > len - 1 {
        len - 1
    } else {
        want
    }
}

/// The list with the element at `from` taken out and put back at `to`.
pub open spec fn moved<A>(s: Seq<A>, from: int, to: int) -> Seq<A> {
    s.remove(from).insert(to, s[from])
}

/// The queue as a whole.
#[derive(Debug, Clone)]
pub struct Queue {
    pub jobs: Vec<QueuedJob>,
    /// While true, nothing new starts. Running jobs are left to finish.
    pub paused: bool,
}

/// What the queue adds up to.
#[derive(Debug, Clone, Copy, Default, PartialEq, Eq, Structural)]
pub struct Totals {
    pub waiting_jobs: u32,
    pub asking_jobs: u32,
    pub running_jobs: u32,
    pub paused_jobs: u32,
    pub done_jobs: u32,
    pub failed_jobs: u32,
    pub done_bytes: u64,
    pub total_bytes: u64,
}

/// How many jobs are in a state.
pub open spec fn count_in(jobs: Seq<QueuedJob>, state: JobState) -> nat
    decreases jobs.len(),
{
    if jobs.len() == 0 {
        0
    } else {
        count_in(jobs.drop_last(), state) + if jobs.last().state == state {
            1nat
        } else {
            0nat
        }
    }
}

pub open spec fn sum_done(jobs: Seq<QueuedJob>) -> nat
    decreases jobs.len(),
{
    if jobs.len() == 0 {
        0
    } else {
        sum_done(jobs.drop_last()) + jobs.last().done_bytes as nat
    }
}

/// A job's size, or what it has done where no size is known.
pub open spec fn size_of(job: QueuedJob) -> nat {
    match job.total_bytes {
        Some(t) => t as nat,
        None => job.done_bytes as nat,
    }
}

/// Every job's size, or what it has done where no size is known.
pub open spec fn sum_total(jobs: Seq<QueuedJob>) -> nat
    decreases jobs.len(),
{
    if jobs.len() == 0 {
        0
    } else {
        sum_total(jobs.drop_last()) + size_of(jobs.last())
    }
}

pub proof fn lemma_sums_grow(jobs: Seq<QueuedJob>, i: int)
    requires
        0 <= i <= jobs.len(),
    ensures
        sum_done(jobs.take(i)) <= sum_done(jobs),
        sum_total(jobs.take(i)) <= sum_total(jobs),
        count_in(jobs.take(i), JobState::Queued) <= jobs.len(),
    decreases jobs.len() - i,
{
    if i < jobs.len() {
        lemma_sums_grow(jobs, i + 1);
        assert(jobs.take(i + 1).drop_last() =~= jobs.take(i));
    } else {
        assert(jobs.take(i) =~= jobs);
    }
    lemma_count_bound(jobs.take(i), JobState::Queued);
}

pub proof fn lemma_count_bound(jobs: Seq<QueuedJob>, state: JobState)
    ensures
        count_in(jobs, state) <= jobs.len(),
    decreases jobs.len(),
{
    if jobs.len() > 0 {
        lemma_count_bound(jobs.drop_last(), state);
    }
}

/// Every job is in exactly one state, so the counts of all the states add up
/// to the number of jobs.
pub proof fn lemma_counts_cover(jobs: Seq<QueuedJob>)
    ensures
        count_in(jobs, JobState::Queued) + count_in(jobs, JobState::Asking) + count_in(jobs, JobState::Running)
            + count_in(jobs, JobState::Paused) + count_in(jobs, JobState::Done) + count_in(jobs, JobState::Failed)
            + count_in(jobs, JobState::Skipped) == jobs.len(),
    decreases jobs.len(),
{
    if jobs.len() > 0 {
        lemma_counts_cover(jobs.drop_last());
    }
}

impl Default for Queue {
    fn default() -> (q: Self)
        ensures
            q.jobs@.len() == 0,
            !q.paused,
    {
        Queue { jobs: Vec::new(), paused: false }
    }
}

impl Queue {
    pub fn add(&mut self, job: QueuedJob)
        ensures
            final(self).jobs@ == old(self).jobs@.push(job),
            final(self).paused == old(self).paused,
    {
        self.jobs.push(job);
    }

    /// The position of the first job with this identifier.
    pub fn position(&self, id: &str) -> (r: Option<usize>)
        ensures
            match r {
                Some(i) => i as int == first_with_id(self.jobs@, id@) && i < self.jobs@.len(),
                None => first_with_id(self.jobs@, id@) == -1,
            },
    {
        proof {
            lemma_first_with_id(self.jobs@, id@);
        }
        let mut i: usize = 0;
        while i < self.jobs.len()
            invariant
                i <= self.jobs@.len(),
                forall|k: int| 0 <= k < i ==> self.jobs@[k].id@ != id@,
                -1 <= first_with_id(self.jobs@, id@) < self.jobs@.len(),
                first_with_id(self.jobs@, id@) >= 0 ==> self.jobs@[first_with_id(self.jobs@, id@)].id@ == id@,
                forall|k: int|
                    0 <= k < self.jobs@.len() && (first_with_id(self.jobs@, id@) < 0 || k
                        < first_with_id(self.jobs@, id@)) ==> self.jobs@[k].id@ != id@,
            decreases self.jobs@.len() - i,
        {
            if str_eq(self.jobs[i].id.as_str(), id) {
                return Some(i);
            }
            i = i + 1;
        }
        None
    }

    pub fn get(&self, id: &str) -> (r: Option<&QueuedJob>)
        ensures
            match r {
                Some(j) => first_with_id(self.jobs@, id@) >= 0 && *j == self.jobs@[first_with_id(
                    self.jobs@,
                    id@,
                )],
                None => first_with_id(self.jobs@, id@) == -1,
            },
    {
        match self.position(id) {
            Some(i) => Some(&self.jobs[i]),
            None => None,
        }
    }

    /// Removes every job with this identifier. A running one has to be stopped
    /// first; that is the caller's business.
    pub fn remove(&mut self, id: &str)
        ensures
            final(self).jobs@ == old(self).jobs@.filter(|j: QueuedJob| j.id@ != id@),
            final(self).paused == old(self).paused,
    {
        let ghost before = self.jobs@;
        let mut rest: Vec<QueuedJob> = Vec::new();
        std::mem::swap(&mut rest, &mut self.jobs);
        let mut kept: Vec<QueuedJob> = Vec::new();
        let ghost mut k: int = 0;
        while rest.len() > 0
            invariant
                0 <= k <= before.len(),
                rest@ == before.skip(k),
                kept@ == before.take(k).filter(|j: QueuedJob| j.id@ != id@),
            decreases rest@.len(),
        {
            let job = rest.remove(0);
            proof {
                assert(before.take(k + 1).drop_last() =~= before.take(k));
                reveal_with_fuel(Seq::filter, 1);
                assert(job == before[k]);
            }
            if !str_eq(job.id.as_str(), id) {
                kept.push(job);
            }
            proof {
                k = k + 1;
                assert(rest@ =~= before.skip(k));
            }
        }
        assert(before.take(k) =~= before);
        self.jobs = kept;
    }
}


/// The index of the first job that may start, or -1.
pub open spec fn first_startable(
    jobs: Seq<QueuedJob>,
    limits: Seq<(EndpointId, u32)>,
    running: Seq<(EndpointId, u32)>,
) -> int
    decreases jobs.len(),
{
    if jobs.len() == 0 {
        -1
    } else if startable(jobs[0], limits, running) {
        0
    } else {
        let r = first_startable(jobs.drop_first(), limits, running);
        if r < 0 {
            -1
        } else {
            r + 1
        }
    }
}

pub proof fn lemma_first_startable(
    jobs: Seq<QueuedJob>,
    limits: Seq<(EndpointId, u32)>,
    running: Seq<(EndpointId, u32)>,
)
    ensures
        -1 <= first_startable(jobs, limits, running) < jobs.len(),
        first_startable(jobs, limits, running) >= 0 ==> startable(
            jobs[first_startable(jobs, limits, running)],
            limits,
            running,
        ),
        forall|k: int|
            0 <= k < jobs.len() && (first_startable(jobs, limits, running) < 0 || k
                < first_startable(jobs, limits, running)) ==> !startable(jobs[k], limits, running),
    decreases jobs.len(),
{
    if jobs.len() > 0 && !startable(jobs[0], limits, running) {
        lemma_first_startable(jobs.drop_first(), limits, running);
        assert forall|k: int|
            0 <= k < jobs.len() && (first_startable(jobs, limits, running) < 0 || k
                < first_startable(jobs, limits, running)) implies !startable(
            jobs[k],
            limits,
            running,
        ) by {
            if k > 0 {
                assert(jobs[k] == jobs.drop_first()[k - 1]);
            }
        }
    }
}

/// Whether a job fits beside what is running; `fits` computed.
fn fits_exec(job: &QueuedJob, limits: &[(EndpointId, u32)], running: &[(EndpointId, u32)]) -> (b:
    bool)
    ensures
        b == fits(*job, limits@, running@),
{
    let s = &job.source_endpoint;
    let t = &job.target_endpoint;
    let busy_s = lookup_exec(running, s, 0) as u64;
    let limit_s = lookup_exec(limits, s, 1) as u64;
    if *s == *t {
        busy_s + 2 <= limit_s
    } else {
        let busy_t = lookup_exec(running, t, 0) as u64;
        let limit_t = lookup_exec(limits, t, 1) as u64;
        busy_s + 1 <= limit_s && busy_t + 1 <= limit_t
    }
}

/// Whether a state is the one that finished jobs have.
pub open spec fn is_done(job: QueuedJob) -> bool {
    job.state == JobState::Done
}

/// The state a job is in after the program starts again: nothing runs across
/// a restart, so what was running waits again, with its offset intact.
pub open spec fn after_restart(job: QueuedJob) -> QueuedJob {
    if job.state == JobState::Running {
        QueuedJob { state: JobState::Queued, ..job }
    } else {
        job
    }
}

impl Queue {
    /// The first job with this identifier, to change in place.
    pub fn get_mut(&mut self, id: &str) -> (r: Option<&mut QueuedJob>)
        ensures
            match r {
                Some(j) => {
                    let i = first_with_id(old(self).jobs@, id@);
                    &&& 0 <= i < old(self).jobs@.len()
                    &&& *j == old(self).jobs@[i]
                    &&& final(self).jobs@ == old(self).jobs@.update(i, *final(j))
                    &&& final(self).paused == old(self).paused
                },
                None => first_with_id(old(self).jobs@, id@) == -1 && *final(self) == *old(self),
            },
    {
        match self.position(id) {
            Some(i) => Some(&mut self.jobs[i]),
            None => None,
        }
    }

    /// Clears out everything that will not run again.
    pub fn clear_finished(&mut self)
        ensures
            final(self).jobs@ == old(self).jobs@.filter(|j: QueuedJob| !is_done(j)),
            final(self).paused == old(self).paused,
    {
        let ghost before = self.jobs@;
        let mut rest: Vec<QueuedJob> = Vec::new();
        std::mem::swap(&mut rest, &mut self.jobs);
        let mut kept: Vec<QueuedJob> = Vec::new();
        let ghost mut k: int = 0;
        while rest.len() > 0
            invariant
                0 <= k <= before.len(),
                rest@ == before.skip(k),
                kept@ == before.take(k).filter(|j: QueuedJob| !is_done(j)),
            decreases rest@.len(),
        {
            let job = rest.remove(0);
            proof {
                assert(before.take(k + 1).drop_last() =~= before.take(k));
                reveal_with_fuel(Seq::filter, 1);
                assert(job == before[k]);
            }
            if job.state != JobState::Done {
                kept.push(job);
            }
            proof {
                k = k + 1;
                assert(rest@ =~= before.skip(k));
            }
        }
        assert(before.take(k) =~= before);
        self.jobs = kept;
    }

    /// Takes the job at `from` out and puts it back at `to`.
    fn shift(&mut self, from: usize, to: usize)
        requires
            from < old(self).jobs@.len(),
            to < old(self).jobs@.len(),
        ensures
            final(self).jobs@ == moved(old(self).jobs@, from as int, to as int),
            final(self).paused == old(self).paused,
    {
        if from == to {
            assert(moved(self.jobs@, from as int, to as int) =~= self.jobs@);
            return;
        }
        let job = self.jobs.remove(from);
        self.jobs.insert(to, job);
    }

    /// Moves a job one place up or down, which is what the buttons do. Past
    /// the ends it simply stops there.
    pub fn move_by(&mut self, id: &str, delta: isize)
        ensures
            final(self).paused == old(self).paused,
            first_with_id(old(self).jobs@, id@) == -1 ==> final(self).jobs@ == old(self).jobs@,
            first_with_id(old(self).jobs@, id@) >= 0 ==> final(self).jobs@ == moved(
                old(self).jobs@,
                first_with_id(old(self).jobs@, id@),
                clamped_target(
                    first_with_id(old(self).jobs@, id@),
                    delta as int,
                    old(self).jobs@.len() as int,
                ),
            ),
    {
        let from = match self.position(id) {
            Some(i) => i,
            None => return ,
        };
        let len = self.jobs.len();
        let want: i128 = from as i128 + delta as i128;
        let to: usize = if want < 0 {
            0
        } else if want > (len - 1) as i128 {
            len - 1
        } else {
            want as usize
        };
        self.shift(from, to);
    }

    /// Moves a job to an exact place, which is what dragging does. A place past
    /// the end means the last one.
    pub fn move_to(&mut self, id: &str, index: usize)
        ensures
            final(self).paused == old(self).paused,
            first_with_id(old(self).jobs@, id@) == -1 ==> final(self).jobs@ == old(self).jobs@,
            first_with_id(old(self).jobs@, id@) >= 0 ==> final(self).jobs@ == moved(
                old(self).jobs@,
                first_with_id(old(self).jobs@, id@),
                if index < old(self).jobs@.len() {
                    index as int
                } else {
                    old(self).jobs@.len() - 1
                },
            ),
    {
        let from = match self.position(id) {
            Some(i) => i,
            None => return ,
        };
        let last = self.jobs.len() - 1;
        let to = if index < last {
            index
        } else {
            last
        };
        self.shift(from, to);
    }

    /// The next job that may start, given the limits of each endpoint and what
    /// is already running there. The list is walked from the top, and a job
    /// whose endpoint is busy is skipped rather than holding up the rest.
    pub fn next_startable(&self, limits: &[(EndpointId, u32)], running: &[(EndpointId, u32)]) -> (r:
        Option<&QueuedJob>)
        ensures
            self.paused ==> r is None,
            !self.paused ==> match r {
                Some(j) => first_startable(self.jobs@, limits@, running@) >= 0 && *j
                    == self.jobs@[first_startable(self.jobs@, limits@, running@)],
                None => first_startable(self.jobs@, limits@, running@) == -1,
            },
    {
        if self.paused {
            return None;
        }
        proof {
            lemma_first_startable(self.jobs@, limits@, running@);
        }
        let mut i: usize = 0;
        while i < self.jobs.len()
            invariant
                !self.paused,
                i <= self.jobs@.len(),
                forall|k: int| 0 <= k < i ==> !startable(self.jobs@[k], limits@, running@),
                -1 <= first_startable(self.jobs@, limits@, running@) < self.jobs@.len(),
                first_startable(self.jobs@, limits@, running@) >= 0 ==> startable(
                    self.jobs@[first_startable(self.jobs@, limits@, running@)],
                    limits@,
                    running@,
                ),
                forall|k: int|
                    0 <= k < self.jobs@.len() && (first_startable(self.jobs@, limits@, running@)
                        < 0 || k < first_startable(self.jobs@, limits@, running@)) ==> !startable(
                        self.jobs@[k],
                        limits@,
                        running@,
                    ),
            decreases self.jobs@.len() - i,
        {
            let job = &self.jobs[i];
            if job.state == JobState::Queued && fits_exec(job, limits, running) {
                return Some(job);
            }
            i = i + 1;
        }
        None
    }

    /// Everything still to do, for the progress shown over the whole queue.
    pub fn totals(&self) -> (t: Totals)
        requires
            self.jobs@.len() <= u32::MAX,
            sum_done(self.jobs@) <= u64::MAX,
            sum_total(self.jobs@) <= u64::MAX,
        ensures
            t.waiting_jobs == count_in(self.jobs@, JobState::Queued),
            t.asking_jobs == count_in(self.jobs@, JobState::Asking),
            t.running_jobs == count_in(self.jobs@, JobState::Running),
            t.paused_jobs == count_in(self.jobs@, JobState::Paused),
            t.done_jobs == count_in(self.jobs@, JobState::Done),
            t.failed_jobs == count_in(self.jobs@, JobState::Failed),
            t.done_bytes == sum_done(self.jobs@),
            t.total_bytes == sum_total(self.jobs@),
            t.waiting_jobs + t.asking_jobs + t.running_jobs + t.paused_jobs + t.done_jobs + t.failed_jobs
                == self.jobs@.len() - count_in(self.jobs@, JobState::Skipped),
    {
        proof {
            lemma_counts_cover(self.jobs@);
        }
        let mut t = Totals {
            waiting_jobs: 0,
            asking_jobs: 0,
            running_jobs: 0,
            paused_jobs: 0,
            done_jobs: 0,
            failed_jobs: 0,
            done_bytes: 0,
            total_bytes: 0,
        };
        let mut i: usize = 0;
        while i < self.jobs.len()
            invariant
                i <= self.jobs@.len(),
                self.jobs@.len() <= u32::MAX,
                sum_done(self.jobs@) <= u64::MAX,
                sum_total(self.jobs@) <= u64::MAX,
                t.waiting_jobs == count_in(self.jobs@.take(i as int), JobState::Queued),
                t.asking_jobs == count_in(self.jobs@.take(i as int), JobState::Asking),
                t.running_jobs == count_in(self.jobs@.take(i as int), JobState::Running),
                t.paused_jobs == count_in(self.jobs@.take(i as int), JobState::Paused),
                t.done_jobs == count_in(self.jobs@.take(i as int), JobState::Done),
                t.failed_jobs == count_in(self.jobs@.take(i as int), JobState::Failed),
                t.done_bytes == sum_done(self.jobs@.take(i as int)),
                t.total_bytes == sum_total(self.jobs@.take(i as int)),
            decreases self.jobs@.len() - i,
        {
            let ghost next = self.jobs@.take(i + 1);
            proof {
                assert(next.drop_last() =~= self.jobs@.take(i as int));
                lemma_sums_grow(self.jobs@, i + 1);
                lemma_sums_below(next);
                lemma_count_bound(self.jobs@.take(i as int), JobState::Queued);
                lemma_count_bound(self.jobs@.take(i as int), JobState::Asking);
                lemma_count_bound(self.jobs@.take(i as int), JobState::Running);
                lemma_count_bound(self.jobs@.take(i as int), JobState::Paused);
                lemma_count_bound(self.jobs@.take(i as int), JobState::Done);
                lemma_count_bound(self.jobs@.take(i as int), JobState::Failed);
            }
            let job = &self.jobs[i];
            match job.state {
                JobState::Done => t.done_jobs = t.done_jobs + 1,
                JobState::Failed => t.failed_jobs = t.failed_jobs + 1,
                JobState::Running => t.running_jobs = t.running_jobs + 1,
                JobState::Queued => t.waiting_jobs = t.waiting_jobs + 1,
                JobState::Paused => t.paused_jobs = t.paused_jobs + 1,
                JobState::Asking => t.asking_jobs = t.asking_jobs + 1,
                JobState::Skipped => {},
            }
            t.done_bytes = t.done_bytes + job.done_bytes;
            let size = match job.total_bytes {
                Some(n) => n,
                None => job.done_bytes,
            };
            t.total_bytes = t.total_bytes + size;
            i = i + 1;
        }
        assert(self.jobs@.take(self.jobs@.len() as int) =~= self.jobs@);
        t
    }

    /// Settles the queue as it is read back after a restart: whatever claimed
    /// to be running was not, and waits again with its offset intact.
    pub fn settle_after_restart(&mut self)
        ensures
            final(self).paused == old(self).paused,
            final(self).jobs@ == old(self).jobs@.map_values(|j: QueuedJob| after_restart(j)),
    {
        let ghost before = self.jobs@;
        let mut i: usize = 0;
        while i < self.jobs.len()
            invariant
                i <= self.jobs@.len(),
                self.jobs@.len() == before.len(),
                forall|k: int| 0 <= k < i ==> self.jobs@[k] == after_restart(before[k]),
                forall|k: int| i <= k < before.len() ==> self.jobs@[k] == before[k],
                self.paused == old(self).paused,
            decreases self.jobs@.len() - i,
        {
            if self.jobs[i].state == JobState::Running {
                self.jobs[i].state = JobState::Queued;
            }
            i = i + 1;
        }
        assert(self.jobs@ =~= before.map_values(|j: QueuedJob| after_restart(j)));
    }
}

/// A sum over a prefix never exceeds the sum over the whole.
pub proof fn lemma_sums_below(jobs: Seq<QueuedJob>)
    ensures
        jobs.len() > 0 ==> sum_done(jobs.drop_last()) + jobs.last().done_bytes == sum_done(jobs),
        jobs.len() > 0 ==> sum_total(jobs.drop_last()) + size_of(jobs.last()) == sum_total(jobs),
{
}

/// After a restart nothing is running, and nothing is lost: every job keeps
/// its place, its identifier, what it had done and where it would resume.
pub proof fn a_restart_runs_nothing_and_loses_nothing(jobs: Seq<QueuedJob>)
    ensures
        count_in(jobs.map_values(|j: QueuedJob| after_restart(j)), JobState::Running) == 0,
        jobs.map_values(|j: QueuedJob| after_restart(j)).len() == jobs.len(),
        forall|k: int|
            #![trigger jobs[k]]
            0 <= k < jobs.len() ==> {
                let j = jobs.map_values(|j: QueuedJob| after_restart(j))[k];
                &&& j.id == jobs[k].id
                &&& j.done_bytes == jobs[k].done_bytes
                &&& j.resume == jobs[k].resume
                &&& (jobs[k].state == JobState::Running ==> j.state == JobState::Queued)
                &&& (jobs[k].state != JobState::Running ==> j.state == jobs[k].state)
            },
    decreases jobs.len(),
{
    if jobs.len() > 0 {
        let m = jobs.map_values(|j: QueuedJob| after_restart(j));
        a_restart_runs_nothing_and_loses_nothing(jobs.drop_last());
        assert(m.drop_last() =~= jobs.drop_last().map_values(|j: QueuedJob| after_restart(j)));
    }
}

/// How many channels an endpoint is using for the running jobs: each running
/// job uses one at each of its two ends, and a job within one endpoint uses
/// two there.
pub open spec fn uses(jobs: Seq<QueuedJob>, running: Seq<String>, e: Seq<char>) -> nat
    decreases running.len(),
{
    if running.len() == 0 {
        0
    } else {
        let k = first_with_id(jobs, running.last()@);
        let here: nat = if k >= 0 {
            (if jobs[k].source_endpoint.0@ == e { 1nat } else { 0nat }) + (if jobs[k].target_endpoint.0@ == e {
                1nat
            } else {
                0nat
            })
        } else {
            0nat
        };
        uses(jobs, running.drop_last(), e) + here
    }
}

proof fn lemma_uses_bound(jobs: Seq<QueuedJob>, running: Seq<String>, e: Seq<char>)
    ensures
        uses(jobs, running, e) <= 2 * running.len(),
    decreases running.len(),
{
    if running.len() > 0 {
        lemma_uses_bound(jobs, running.drop_last(), e);
    }
}

proof fn lemma_lookup_absent(p: Seq<(EndpointId, u32)>, x: Seq<char>, d: u32)
    requires
        forall|i: int| 0 <= i < p.len() ==> (#[trigger] p[i]).0.0@ != x,
    ensures
        lookup(p, x, d) == d,
    decreases p.len(),
{
    if p.len() > 0 {
        assert(p[0].0.0@ != x);
        assert forall|i: int| 0 <= i < p.drop_first().len() implies (#[trigger] p.drop_first()[i]).0.0@ != x by {
            assert(p.drop_first()[i] == p[i + 1]);
        }
        lemma_lookup_absent(p.drop_first(), x, d);
    }
}

/// Whether some pair names an endpoint.
pub open spec fn has_key(p: Seq<(EndpointId, u32)>, x: Seq<char>) -> bool {
    exists|i: int| 0 <= i < p.len() && (#[trigger] p[i]).0.0@ == x
}

proof fn lemma_lookup_push(p: Seq<(EndpointId, u32)>, a: (EndpointId, u32), x: Seq<char>)
    ensures
        lookup(p.push(a), x, 0) == if has_key(p, x) {
            lookup(p, x, 0)
        } else if a.0.0@ == x {
            a.1
        } else {
            0
        },
    decreases p.len(),
{
    let r = p.push(a);
    if p.len() > 0 {
        let q = p.drop_first();
        assert(r.drop_first() =~= q.push(a));
        assert(r[0] == p[0]);
        lemma_lookup_push(q, a, x);
        assert(lookup(r, x, 0) == if p[0].0.0@ == x { p[0].1 } else { lookup(q.push(a), x, 0) });
        assert(lookup(p, x, 0) == if p[0].0.0@ == x { p[0].1 } else { lookup(q, x, 0) });
        if p[0].0.0@ == x {
            assert(has_key(p, x));
        } else {
            if has_key(p, x) {
                let i = choose|i: int| 0 <= i < p.len() && (#[trigger] p[i]).0.0@ == x;
                assert(q[i - 1] == p[i]);
                assert(has_key(q, x));
            }
            if has_key(q, x) {
                let i = choose|i: int| 0 <= i < q.len() && (#[trigger] q[i]).0.0@ == x;
                assert(p[i + 1] == q[i]);
                assert(has_key(p, x));
            }
        }
    } else {
        assert(r.drop_first() =~= Seq::<(EndpointId, u32)>::empty());
        assert(r[0] == a);
        assert(!has_key(p, x));
        assert(lookup(r, x, 0) == if a.0.0@ == x { a.1 } else { lookup(r.drop_first(), x, 0) });
    }
}

proof fn lemma_lookup_update(p: Seq<(EndpointId, u32)>, i: int, k: EndpointId, v: u32, x: Seq<char>)
    requires
        0 <= i < p.len(),
        k.0@ == p[i].0.0@,
        forall|j: int| 0 <= j < i ==> (#[trigger] p[j]).0.0@ != p[i].0.0@,
    ensures
        lookup(p, p[i].0.0@, 0) == p[i].1,
        lookup(p.update(i, (k, v)), x, 0) == if x == p[i].0.0@ { v } else { lookup(p, x, 0) },
    decreases i,
{
    if i > 0 {
        let q = p.drop_first();
        assert forall|j: int| 0 <= j < i - 1 implies (#[trigger] q[j]).0.0@ != q[i - 1].0.0@ by {
            assert(q[j] == p[j + 1]);
        }
        lemma_lookup_update(q, i - 1, k, v, x);
        assert(p.update(i, (k, v)).drop_first() =~= q.update(i - 1, (k, v)));
        assert(p[0].0.0@ != p[i].0.0@);
    } else {
        assert(p.update(i, (k, v)).drop_first() =~= p.drop_first());
    }
}

/// Counts one more channel in use at an endpoint.
fn bump(counts: &mut Vec<(EndpointId, u32)>, e: &EndpointId)
    requires
        lookup(old(counts)@, e.0@, 0) < u32::MAX,
    ensures
        forall|x: Seq<char>| #[trigger] lookup(final(counts)@, x, 0) == lookup(old(counts)@, x, 0) + if x == e.0@ {
            1int
        } else {
            0int
        },
{
    let mut i: usize = 0;
    while i < counts.len()
        invariant
            i <= counts@.len(),
            counts@ == old(counts)@,
            lookup(old(counts)@, e.0@, 0) < u32::MAX,
            forall|j: int| 0 <= j < i ==> (#[trigger] counts@[j]).0.0@ != e.0@,
        decreases counts@.len() - i,
    {
        if counts[i].0 == *e {
            let ghost before = counts@;
            proof {
                assert(before[i as int].0.0@ == e.0@);
                lemma_lookup_update(before, i as int, before[i as int].0, 0, e.0@);
                assert(counts[i as int].1 == lookup(old(counts)@, e.0@, 0));
            }
            let n = counts[i].1 + 1;
            let key = counts[i].0.copied();
            let ghost k = key;
            counts.set(i, (key, n));
            proof {
                assert(counts@ == before.update(i as int, (k, n)));
                assert forall|x: Seq<char>| #[trigger] lookup(counts@, x, 0) == lookup(before, x, 0) + if x == e.0@ {
                    1int
                } else {
                    0int
                } by {
                    lemma_lookup_update(before, i as int, k, n, x);
                }
            }
            return;
        }
        i = i + 1;
    }
    let ghost before = counts@;
    counts.push((e.copied(), 1));
    proof {
        assert forall|x: Seq<char>| #[trigger] lookup(counts@, x, 0) == lookup(before, x, 0) + if x == e.0@ {
            1int
        } else {
            0int
        } by {
            assert(counts@ =~= before.push(counts@.last()));
            lemma_lookup_push(before, counts@.last(), x);
            lemma_lookup_absent(before, e.0@, 0);
            if !has_key(before, x) {
                lemma_lookup_absent(before, x, 0);
            }
        }
    }
}

impl Queue {
    /// How many channels each endpoint is using for the jobs named running:
    /// one pair per endpoint, the count under it.
    pub fn busy(&self, running: &[String]) -> (counts: Vec<(EndpointId, u32)>)
        requires
            running@.len() < 0x8000_0000,
        ensures
            forall|e: Seq<char>| #[trigger] lookup(counts@, e, 0) == uses(self.jobs@, running@, e),
    {
        let mut counts: Vec<(EndpointId, u32)> = Vec::new();
        let mut i: usize = 0;
        assert(running@.take(0) =~= Seq::<String>::empty());
        while i < running.len()
            invariant
                i <= running@.len() < 0x8000_0000,
                forall|e: Seq<char>| #[trigger] lookup(counts@, e, 0) == uses(self.jobs@, running@.take(i as int), e),
            decreases running@.len() - i,
        {
            let ghost prefix = running@.take(i as int);
            assert(running@.take(i + 1).drop_last() =~= prefix);
            assert(running@.take(i + 1).last() == running@[i as int]);
            match self.get(running[i].as_str()) {
                Some(job) => {
                    proof {
                        lemma_uses_bound(self.jobs@, prefix, job.source_endpoint.0@);
                        lemma_uses_bound(self.jobs@, prefix, job.target_endpoint.0@);
                    }
                    let ghost mid = counts@;
                    bump(&mut counts, &job.source_endpoint);
                    bump(&mut counts, &job.target_endpoint);
                    assert forall|e: Seq<char>| #[trigger] lookup(counts@, e, 0) == uses(self.jobs@, running@.take(i + 1), e) by {
                        assert(lookup(mid, e, 0) == uses(self.jobs@, prefix, e));
                    }
                },
                None => {
                    assert forall|e: Seq<char>| #[trigger] lookup(counts@, e, 0) == uses(self.jobs@, running@.take(i + 1), e) by {
                        assert(lookup(counts@, e, 0) == uses(self.jobs@, prefix, e));
                    }
                },
            }
            i = i + 1;
        }
        assert(running@.take(running@.len() as int) =~= running@);
        counts
    }
}

} // verus!

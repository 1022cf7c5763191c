//! Working through the queue: the decisions that move a job from one state to
//! the next. Whoever drives the queue performs the transfers and the waits;
//! what happens to a job before and after is decided here.
//!
//! What has to hold: a failure is retried a few times with growing pauses,
//! and then the job is paused, not discarded; the offset is worth more than
//! the attempt.
use vstd::prelude::*;

use crate::endpoint::EndpointId;
use crate::error::Error;
use crate::queue::{first_with_id, Queue, QueuedJob};
use crate::registry::Transferred;
use crate::text::{append_chars, chars_of, contains_char, decimal, decimal_of, has_char, rsplit_once, rsplit_once_exec, string_of};
use crate::transfer::{ConflictPolicy, JobState, ResumeMarker};

verus! {

/// The pause before the next attempt, in seconds: one, then two, four, eight,
/// sixteen, and no longer than that.
pub open spec fn spec_backoff(attempt: u8) -> u64 {
    if attempt == 0 {
        1
    } else if attempt == 1 {
        2
    } else if attempt == 2 {
        4
    } else if attempt == 3 {
        8
    } else {
        16
    }
}

pub fn backoff(attempt: u8) -> (seconds: u64)
    ensures
        seconds == spec_backoff(attempt),
{
    let capped: u64 = if attempt < 4 {
        attempt as u64
    } else {
        4
    };
    let s = 1u64 << capped;
    assert(capped == 0 ==> 1u64 << capped == 1) by (bit_vector);
    assert(capped == 1 ==> 1u64 << capped == 2) by (bit_vector);
    assert(capped == 2 ==> 1u64 << capped == 4) by (bit_vector);
    assert(capped == 3 ==> 1u64 << capped == 8) by (bit_vector);
    assert(capped == 4 ==> 1u64 << capped == 16) by (bit_vector);
    s
}

/// How many attempts a job gets: what it carries, five when it carries
/// nothing, and never fewer than one.
pub open spec fn spec_job_retries(job: QueuedJob) -> u8 {
    let n = match job.retries {
        Some(n) => n,
        None => 5u8,
    };
    if n < 1 {
        1
    } else {
        n
    }
}

pub fn job_retries(job: &QueuedJob) -> (n: u8)
    ensures
        n == spec_job_retries(*job),
{
    let n = match job.retries {
        Some(n) => n,
        None => 5,
    };
    if n < 1 {
        1
    } else {
        n
    }
}

/// What to do about a file that is already at the target.
#[derive(Debug, Clone)]
pub enum ConflictOutcome {
    /// Run the job, as it now stands.
    Run(QueuedJob),
    /// The user has to answer first.
    Ask,
    /// Leave the file alone.
    Skip,
}

/// A file's size and modification time, as a `stat` reports them.
pub type Stat = (u64, Option<i64>);

/// Whether a failure is one that trying again cannot fix.
pub open spec fn is_hopeless(error: Error) -> bool {
    error matches Error::SourceChanged || error matches Error::AuthenticationFailed { .. }
        || error matches Error::HostKeyChanged { .. }
}

/// Decides what happens to a job whose target may already exist.
///
/// `existing` is what a `stat` of the target found (`None`: nothing there, or
/// the target could not be asked), `source` what a `stat` of the source found,
/// and `free_target` a target name nothing is using yet, for the policy that
/// renames. Without both times there is no "newer", and a file is never
/// overwritten on a guess.
pub fn resolve_conflict(
    job: QueuedJob,
    existing: Option<Stat>,
    source: Option<Stat>,
    free_target: String,
) -> (o: ConflictOutcome)
    ensures
        existing is None ==> o == ConflictOutcome::Run(job),
        existing is Some ==> match job.conflict_policy {
            ConflictPolicy::Ask => o == ConflictOutcome::Ask,
            ConflictPolicy::Overwrite => o == ConflictOutcome::Run(job),
            ConflictPolicy::Skip => o == ConflictOutcome::Skip,
            ConflictPolicy::OverwriteIfNewer => match (source, existing) {
                (Some((_, Some(s))), Some((_, Some(t)))) => if s > t {
                    o == ConflictOutcome::Run(job)
                } else {
                    o == ConflictOutcome::Skip
                },
                _ => o == ConflictOutcome::Skip,
            },
            ConflictPolicy::Rename => o == ConflictOutcome::Run(
                QueuedJob { target_path: free_target, ..job },
            ),
            ConflictPolicy::Resume => {
                let existing_size = existing->Some_0.0;
                let (size, modified) = match source {
                    Some(s) => s,
                    None => (existing_size, None),
                };
                o == ConflictOutcome::Run(
                    QueuedJob {
                        resume: Some(
                            ResumeMarker {
                                offset: existing_size,
                                source_size: size,
                                source_modified: modified,
                            },
                        ),
                        done_bytes: existing_size,
                        ..job
                    },
                )
            },
        },
{
    let (existing_size, existing_modified) = match existing {
        None => return ConflictOutcome::Run(job),
        Some(stat) => stat,
    };
    match job.conflict_policy {
        ConflictPolicy::Ask => ConflictOutcome::Ask,
        ConflictPolicy::Overwrite => ConflictOutcome::Run(job),
        ConflictPolicy::Skip => ConflictOutcome::Skip,
        ConflictPolicy::OverwriteIfNewer => {
            let source_modified = match source {
                Some((_, when)) => when,
                None => None,
            };
            match (source_modified, existing_modified) {
                (Some(s), Some(t)) => if s > t {
                    ConflictOutcome::Run(job)
                } else {
                    ConflictOutcome::Skip
                },
                _ => ConflictOutcome::Skip,
            }
        },
        ConflictPolicy::Rename => ConflictOutcome::Run(QueuedJob { target_path: free_target, ..job }),
        ConflictPolicy::Resume => {
            let (size, modified) = match source {
                Some(s) => s,
                None => (existing_size, None),
            };
            ConflictOutcome::Run(
                QueuedJob {
                    resume: Some(
                        ResumeMarker {
                            offset: existing_size,
                            source_size: size,
                            source_modified: modified,
                        },
                    ),
                    done_bytes: existing_size,
                    ..job
                },
            )
        },
    }
}

/// The stem and the extension (with its dot) of a target path. A dot in the
/// directory rather than the name is no extension.
pub open spec fn stem_and_extension(path: Seq<char>) -> (Seq<char>, Seq<char>) {
    match rsplit_once(path, '.') {
        Some((stem, extension)) => if !contains_char(extension, '/') && !(stem.len() > 0
            && stem.last() == '/') {
            (stem, seq!['.'] + extension)
        } else {
            (path, Seq::<char>::empty())
        },
        None => (path, Seq::<char>::empty()),
    }
}

/// The `index`th name tried for a file that is already there:
/// `name-1.ext`, `name-2.ext`, and so on.
pub open spec fn spec_free_name_candidate(path: Seq<char>, index: nat) -> Seq<char> {
    stem_and_extension(path).0 + seq!['-'] + decimal(index) + stem_and_extension(path).1
}

pub fn free_name_candidate(path: &str, index: u64) -> (s: String)
    ensures
        s@ == spec_free_name_candidate(path@, index as nat),
{
    let v = chars_of(path);
    let (stem, extension): (Vec<char>, Vec<char>) = match rsplit_once_exec(&v, '.') {
        Some((stem, extension)) => {
            let slash_in_extension = has_char(&extension, '/');
            let stem_ends_in_slash = stem.len() > 0 && stem[stem.len() - 1] == '/';
            if !slash_in_extension && !stem_ends_in_slash {
                let mut dotted: Vec<char> = vec!['.'];
                append_chars(&mut dotted, &extension);
                (stem, dotted)
            } else {
                (v.clone(), Vec::new())
            }
        },
        None => (v.clone(), Vec::new()),
    };
    let mut out = stem;
    out.push('-');
    let digits = decimal_of(index);
    append_chars(&mut out, &digits);
    append_chars(&mut out, &extension);
    proof {
        let (s, e) = stem_and_extension(path@);
        assert(out@ =~= s + seq!['-'] + decimal(index as nat) + e);
    }
    string_of(&out)
}

/// What happens to a job when an attempt failed.
///
/// The offset reached is kept, and so is the failure; the attempt is counted.
/// A failure no retry can fix, or one attempt too many, pauses the job. Any
/// other puts it back in line, and the answer is the pause in seconds before
/// it may run again.
pub fn after_failure(entry: &mut QueuedJob, done: u64, error: Error, retries: u8) -> (wait: Option<u64>)
    ensures
        final(entry).done_bytes == done,
        final(entry).resume == Some(
            ResumeMarker {
                offset: done,
                source_size: match old(entry).total_bytes {
                    Some(t) => t,
                    None => done,
                },
                source_modified: match old(entry).resume {
                    Some(m) => m.source_modified,
                    None => None,
                },
            },
        ),
        final(entry).failure == Some(error),
        final(entry).attempts == (if old(entry).attempts == u8::MAX {
            u8::MAX
        } else {
            (old(entry).attempts + 1) as u8
        }),
        (is_hopeless(error) || final(entry).attempts >= retries) ==> final(entry).state
            == JobState::Paused && wait is None,
        !(is_hopeless(error) || final(entry).attempts >= retries) ==> final(entry).state
            == JobState::Queued && wait == Some(spec_backoff(final(entry).attempts)),
        final(entry).id == old(entry).id,
        final(entry).source_endpoint == old(entry).source_endpoint,
        final(entry).source_path == old(entry).source_path,
        final(entry).target_endpoint == old(entry).target_endpoint,
        final(entry).target_path == old(entry).target_path,
        final(entry).total_bytes == old(entry).total_bytes,
        final(entry).conflict_policy == old(entry).conflict_policy,
        *final(entry) == (QueuedJob {
            done_bytes: final(entry).done_bytes,
            resume: final(entry).resume,
            failure: final(entry).failure,
            attempts: final(entry).attempts,
            state: final(entry).state,
            ..*old(entry)
        }),
{
    let hopeless = match &error {
        Error::SourceChanged => true,
        Error::AuthenticationFailed { .. } => true,
        Error::HostKeyChanged { .. } => true,
        _ => false,
    };
    let source_size = match entry.total_bytes {
        Some(t) => t,
        None => done,
    };
    let source_modified = match &entry.resume {
        Some(m) => m.source_modified,
        None => None,
    };
    entry.done_bytes = done;
    entry.resume = Some(ResumeMarker { offset: done, source_size, source_modified });
    entry.failure = Some(error);
    entry.attempts = if entry.attempts == u8::MAX {
        u8::MAX
    } else {
        entry.attempts + 1
    };
    if hopeless || entry.attempts >= retries {
        entry.state = JobState::Paused;
        None
    } else {
        entry.state = JobState::Queued;
        Some(backoff(entry.attempts))
    }
}

/// What happens to a job when its transfer came back without an error. A
/// finished one is done, with its size known now; a stopped one (held or
/// removed) keeps its offset so continuing costs nothing.
pub fn after_transfer(entry: &mut QueuedJob, done: u64, outcome: Transferred)
    ensures
        outcome.complete ==> {
            &&& final(entry).state == JobState::Done
            &&& final(entry).done_bytes == done
            &&& final(entry).total_bytes == Some(done)
            &&& final(entry).resume is None
            &&& final(entry).failure is None
        },
        !outcome.complete ==> {
            &&& final(entry).done_bytes == done
            &&& final(entry).resume == outcome.resume
            &&& final(entry).state == (if old(entry).state == JobState::Running {
                JobState::Paused
            } else {
                old(entry).state
            })
            &&& final(entry).total_bytes == old(entry).total_bytes
            &&& final(entry).failure == old(entry).failure
        },
        final(entry).id == old(entry).id,
        final(entry).attempts == old(entry).attempts,
        final(entry).target_path == old(entry).target_path,
        *final(entry) == (QueuedJob {
            state: final(entry).state,
            done_bytes: final(entry).done_bytes,
            total_bytes: final(entry).total_bytes,
            resume: final(entry).resume,
            failure: final(entry).failure,
            ..*old(entry)
        }),
{
    if outcome.complete {
        entry.state = JobState::Done;
        entry.done_bytes = done;
        entry.total_bytes = Some(done);
        entry.resume = None;
        entry.failure = None;
    } else {
        entry.done_bytes = done;
        entry.resume = outcome.resume;
        if entry.state == JobState::Running {
            entry.state = JobState::Paused;
        }
    }
}

/// Holds one job: it waits, paused, until it is resumed. Stopping a running
/// transfer is the driver's part; the offset stays with the job.
pub fn hold(queue: &mut Queue, id: &str)
    ensures
        final(queue).paused == old(queue).paused,
        first_with_id(old(queue).jobs@, id@) < 0 ==> final(queue).jobs@ == old(queue).jobs@,
        first_with_id(old(queue).jobs@, id@) >= 0 ==> final(queue).jobs@ == old(queue).jobs@.update(
            first_with_id(old(queue).jobs@, id@),
            QueuedJob {
                state: JobState::Paused,
                ..old(queue).jobs@[first_with_id(old(queue).jobs@, id@)]
            },
        ),
{
    match queue.get_mut(id) {
        Some(job) => {
            job.state = JobState::Paused;
        },
        None => {},
    }
}

/// Puts a held or failed job back in line, with a clean slate of attempts.
pub fn resume(queue: &mut Queue, id: &str)
    ensures
        final(queue).paused == old(queue).paused,
        first_with_id(old(queue).jobs@, id@) < 0 ==> final(queue).jobs@ == old(queue).jobs@,
        first_with_id(old(queue).jobs@, id@) >= 0 ==> final(queue).jobs@ == old(queue).jobs@.update(
            first_with_id(old(queue).jobs@, id@),
            QueuedJob {
                state: JobState::Queued,
                attempts: 0,
                failure: None,
                ..old(queue).jobs@[first_with_id(old(queue).jobs@, id@)]
            },
        ),
{
    match queue.get_mut(id) {
        Some(job) => {
            job.state = JobState::Queued;
            job.attempts = 0;
            job.failure = None;
        },
        None => {},
    }
}

/// Whether a job still waits: what "for all remaining" applies to.
pub open spec fn still_waiting(job: QueuedJob) -> bool {
    job.state == JobState::Asking || job.state == JobState::Queued
}

/// The policy a job ends up with when `policy` was chosen for everything
/// still waiting.
pub open spec fn with_policy_if_waiting(job: QueuedJob, policy: ConflictPolicy) -> QueuedJob {
    if still_waiting(job) {
        QueuedJob { conflict_policy: policy, ..job }
    } else {
        job
    }
}

/// Answers a job that was waiting on a conflict. With `for_all`, every job
/// still waiting gets the same answer; the job asked about is put back in line.
pub fn decide(queue: &mut Queue, id: &str, policy: ConflictPolicy, for_all: bool)
    ensures
        final(queue).paused == old(queue).paused,
        ({
            let mid = if for_all {
                old(queue).jobs@.map_values(|j: QueuedJob| with_policy_if_waiting(j, policy))
            } else {
                old(queue).jobs@
            };
            let i = first_with_id(mid, id@);
            &&& i < 0 ==> final(queue).jobs@ == mid
            &&& i >= 0 ==> final(queue).jobs@ == mid.update(
                i,
                QueuedJob { conflict_policy: policy, state: JobState::Queued, ..mid[i] },
            )
        }),
{
    if for_all {
        let ghost before = queue.jobs@;
        let mut i: usize = 0;
        while i < queue.jobs.len()
            invariant
                i <= queue.jobs@.len(),
                queue.jobs@.len() == before.len(),
                queue.paused == old(queue).paused,
                before == old(queue).jobs@,
                forall|k: int|
                    0 <= k < i ==> queue.jobs@[k] == with_policy_if_waiting(before[k], policy),
                forall|k: int| i <= k < before.len() ==> queue.jobs@[k] == before[k],
            decreases queue.jobs@.len() - i,
        {
            if queue.jobs[i].state == JobState::Asking || queue.jobs[i].state == JobState::Queued {
                queue.jobs[i].conflict_policy = policy;
            }
            i = i + 1;
        }
        assert(queue.jobs@ =~= before.map_values(|j: QueuedJob| with_policy_if_waiting(j, policy)));
    }
    match queue.get_mut(id) {
        Some(job) => {
            job.conflict_policy = policy;
            job.state = JobState::Queued;
        },
        None => {},
    }
}

/// What the window asks for when something is dragged or the button is used.
#[derive(Debug, Clone)]
pub struct EnqueueRequest {
    pub source_endpoint: EndpointId,
    pub source_directory: String,
    pub names: Vec<String>,
    pub target_endpoint: EndpointId,
    pub target_directory: String,
    pub conflict_policy: ConflictPolicy,
    pub keep_modified: bool,
    pub keep_permissions: bool,
    pub use_temporary_name: bool,
    pub retries: Option<u8>,
}

/// The identifier of the `index`th job put in at `added`.
pub open spec fn job_id(added: u64, index: u64) -> Seq<char> {
    decimal(added as nat) + seq!['-'] + decimal(index as nat)
}

/// The job a request makes of one file found below what was selected.
pub fn job_for(
    request: &EnqueueRequest,
    source_path: String,
    relative: String,
    size: u64,
    target_path: String,
    added: u64,
    index: u64,
) -> (job: QueuedJob)
    requires
        added <= i64::MAX,
    ensures
        job.id@ == job_id(added, index),
        job.source_endpoint.0@ == request.source_endpoint.0@,
        job.target_endpoint.0@ == request.target_endpoint.0@,
        job.source_path == source_path,
        job.target_path == target_path,
        job.name == relative,
        job.state == JobState::Queued,
        job.conflict_policy == request.conflict_policy,
        job.total_bytes == Some(size),
        job.done_bytes == 0,
        job.resume is None,
        job.keep_modified == request.keep_modified,
        job.keep_permissions == request.keep_permissions,
        job.use_temporary_name == request.use_temporary_name,
        job.attempts == 0,
        job.retries == request.retries,
        job.failure is None,
        job.added == added as i64,
{
    let mut id = decimal_of(added);
    id.push('-');
    let tail = decimal_of(index);
    append_chars(&mut id, &tail);
    QueuedJob {
        id: string_of(&id),
        source_endpoint: request.source_endpoint.copied(),
        source_path,
        target_endpoint: request.target_endpoint.copied(),
        target_path,
        name: relative,
        state: JobState::Queued,
        conflict_policy: request.conflict_policy,
        total_bytes: Some(size),
        done_bytes: 0,
        resume: None,
        keep_modified: request.keep_modified,
        keep_permissions: request.keep_permissions,
        use_temporary_name: request.use_temporary_name,
        attempts: 0,
        retries: request.retries,
        failure: None,
        added: added as i64,
    }
}

/// The parts of a relative path, in order, without the empty ones that
/// doubled or trailing slashes leave.
pub open spec fn relative_parts(relative: Seq<char>) -> Seq<Seq<char>> {
    crate::text::split(relative, '/').filter(|p: Seq<char>| p.len() > 0)
}

pub fn relative_parts_of(relative: &str) -> (parts: Vec<String>)
    ensures
        parts@.map_values(|p: String| p@) == relative_parts(relative@),
{
    let v = chars_of(relative);
    let pieces = crate::text::split_pieces(&v, '/');
    let ghost all = crate::text::views(pieces@);
    let mut parts: Vec<String> = Vec::new();
    let mut i: usize = 0;
    while i < pieces.len()
        invariant
            i <= pieces@.len(),
            all == crate::text::views(pieces@),
            all == crate::text::split(relative@, '/'),
            parts@.map_values(|p: String| p@) == all.take(i as int).filter(
                |p: Seq<char>| p.len() > 0,
            ),
        decreases pieces@.len() - i,
    {
        proof {
            assert(all.take(i + 1).drop_last() =~= all.take(i as int));
            reveal_with_fuel(Seq::filter, 1);
            assert(all[i as int] == pieces@[i as int]@);
        }
        if pieces[i].len() > 0 {
            let ghost before = parts@;
            parts.push(string_of(&pieces[i]));
            proof {
                assert(parts@.map_values(|p: String| p@) =~= before.map_values(|p: String| p@).push(
                    all[i as int],
                ));
            }
        }
        i = i + 1;
    }
    assert(all.take(pieces@.len() as int) =~= all);
    parts
}

} // verus!

//! Transfer jobs: two sides, each an endpoint plus a path. Which of them is the
//! local disk is of no interest here.
use vstd::prelude::*;

use crate::endpoint::EndpointId;

verus! {

/// One side of a transfer: where on which endpoint.
#[derive(Debug, Clone)]
pub struct TransferSide {
    pub endpoint: EndpointId,
    /// Absolute path on that endpoint, in the endpoint's own notation.
    pub path: String,
}

impl TransferSide {
    pub fn new(endpoint: EndpointId, path: &str) -> (s: Self)
        ensures
            s.endpoint == endpoint,
            s.path@ == path@,
    {
        TransferSide { endpoint, path: path.to_string() }
    }
}

/// What the queue does with a job whose target already exists.
#[derive(Debug, Clone, Copy, PartialEq, Eq, Structural)]
pub enum ConflictPolicy {
    Ask,
    Overwrite,
    Skip,
    OverwriteIfNewer,
    Rename,
    Resume,
}

/// Where a job stands.
#[derive(Debug, Clone, Copy, PartialEq, Eq, Structural)]
pub enum JobState {
    Queued,
    Running,
    /// Held by the user, or by the core after the retry limit was reached. A
    /// job is never silently dropped.
    Paused,
    Done,
    Failed,
    /// Waiting for the user to say what to do about a file already there.
    Asking,
    /// Left alone because of a file already there, as the policy said.
    Skipped,
}

/// What a broken off transfer has to remember in order to be continued
/// safely: the offset, and the size and time of the source at the break.
#[derive(Debug, Clone, PartialEq, Eq, Structural)]
pub struct ResumeMarker {
    /// Bytes already written to the target.
    pub offset: u64,
    /// Size of the source when the transfer broke off.
    pub source_size: u64,
    /// Modification time of the source when the transfer broke off, as seconds
    /// since the Unix epoch. `None` when the endpoint reports no usable time.
    pub source_modified: Option<i64>,
}

/// Whether a source of this size and time is the one a marker saw. A missing
/// time on either side is never a match.
pub open spec fn spec_matches_source(m: ResumeMarker, size: u64, modified: Option<i64>) -> bool {
    match (m.source_modified, modified) {
        (Some(then), Some(now)) => m.source_size == size && then == now,
        _ => false,
    }
}

impl ResumeMarker {
    /// Whether the source still matches what was seen at the break.
    pub fn matches_source(&self, size: u64, modified: Option<i64>) -> (b: bool)
        ensures
            b == spec_matches_source(*self, size, modified),
    {
        match (self.source_modified, modified) {
            (Some(then), Some(now)) => self.source_size == size && then == now,
            _ => false,
        }
    }
}

/// A single file on its way from one endpoint to another.
#[derive(Debug, Clone)]
pub struct TransferJob {
    pub id: String,
    pub source: TransferSide,
    pub target: TransferSide,
    pub state: JobState,
    pub conflict_policy: ConflictPolicy,
    /// Size of the source in bytes, as far as the endpoint reports it.
    pub total_bytes: Option<u64>,
    /// Bytes transferred so far.
    pub done_bytes: u64,
    /// Present once the job has broken off at least one time.
    pub resume: Option<ResumeMarker>,
}

impl TransferJob {
    pub fn new(id: &str, source: TransferSide, target: TransferSide) -> (j: Self)
        ensures
            j.id@ == id@,
            j.source == source,
            j.target == target,
            j.state == JobState::Queued,
            j.conflict_policy == ConflictPolicy::Ask,
            j.total_bytes is None,
            j.done_bytes == 0,
            j.resume is None,
    {
        TransferJob {
            id: id.to_string(),
            source,
            target,
            state: JobState::Queued,
            conflict_policy: ConflictPolicy::Ask,
            total_bytes: None,
            done_bytes: 0,
            resume: None,
        }
    }

    /// Whether both sides sit on the same endpoint, as with copying inside one
    /// server.
    pub fn is_within_one_endpoint(&self) -> (b: bool)
        ensures
            b == (self.source.endpoint.0@ == self.target.endpoint.0@),
    {
        self.source.endpoint == self.target.endpoint
    }
}

} // verus!

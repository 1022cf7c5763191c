//! The rules of moving bytes: when a broken transfer may carry on, what a
//! half download is called, and what a running transfer reports.
use vstd::prelude::*;

use crate::transfer::{spec_matches_source, ResumeMarker};

verus! {

/// The suffix a download wears until it is complete.
pub const PARTIAL_SUFFIX: &'static str = ".ampart";

/// The suffix as characters.
pub open spec fn partial_suffix() -> Seq<char> {
    seq!['.', 'a', 'm', 'p', 'a', 'r', 't']
}

/// The constant and the characters are one suffix.
pub proof fn partial_suffix_is_the_constant()
    ensures
        PARTIAL_SUFFIX@ == partial_suffix(),
{
    reveal_strlit(".ampart");
    assert(PARTIAL_SUFFIX@ =~= partial_suffix());
}

/// What a running transfer reports, and how it is stopped.
#[derive(Debug, Default)]
pub struct Progress {
    /// Bytes written so far, including anything a resume started from.
    done: u64,
    /// Size of the source, when it is known.
    total: u64,
    cancelled: bool,
}

impl Progress {
    pub closed spec fn spec_done(&self) -> u64 {
        self.done
    }

    pub closed spec fn spec_total(&self) -> u64 {
        self.total
    }

    pub closed spec fn spec_cancelled(&self) -> bool {
        self.cancelled
    }

    pub fn new(total: Option<u64>, already: u64) -> (p: Self)
        ensures
            p.spec_done() == already,
            p.spec_total() == match total {
                Some(t) => t,
                None => 0u64,
            },
            !p.spec_cancelled(),
    {
        Progress {
            done: already,
            total: match total {
                Some(t) => t,
                None => 0,
            },
            cancelled: false,
        }
    }

    pub fn set_total(&mut self, total: u64)
        ensures
            final(self).spec_total() == total,
            final(self).spec_done() == old(self).spec_done(),
            final(self).spec_cancelled() == old(self).spec_cancelled(),
    {
        self.total = total;
    }

    pub fn set_done(&mut self, done: u64)
        ensures
            final(self).spec_done() == done,
            final(self).spec_total() == old(self).spec_total(),
            final(self).spec_cancelled() == old(self).spec_cancelled(),
    {
        self.done = done;
    }

    /// Counts bytes that were just moved.
    pub fn add_done(&mut self, moved: u64)
        requires
            old(self).spec_done() + moved <= u64::MAX,
        ensures
            final(self).spec_done() == old(self).spec_done() + moved,
            final(self).spec_total() == old(self).spec_total(),
            final(self).spec_cancelled() == old(self).spec_cancelled(),
    {
        self.done = self.done + moved;
    }

    pub fn done(&self) -> (d: u64)
        ensures
            d == self.spec_done(),
    {
        self.done
    }

    pub fn total(&self) -> (t: u64)
        ensures
            t == self.spec_total(),
    {
        self.total
    }

    /// Asks a running transfer to stop at the next chunk.
    pub fn cancel(&mut self)
        ensures
            final(self).spec_cancelled(),
            final(self).spec_done() == old(self).spec_done(),
            final(self).spec_total() == old(self).spec_total(),
    {
        self.cancelled = true;
    }

    pub fn is_cancelled(&self) -> (b: bool)
        ensures
            b == self.spec_cancelled(),
    {
        self.cancelled
    }
}

/// What the caller has to know about the source before continuing.
#[derive(Debug, Clone, Copy, PartialEq, Eq, Structural)]
pub enum ResumeVerdict {
    /// The source is as it was; appending is safe.
    Safe,
    /// The source has changed. Ask before doing anything.
    Changed,
    /// Nothing was written before; there is nothing to continue.
    Fresh,
}

pub open spec fn spec_may_resume(marker: Option<ResumeMarker>, size: u64, modified: Option<i64>) -> ResumeVerdict {
    match marker {
        None => ResumeVerdict::Fresh,
        Some(m) => if m.offset == 0 {
            ResumeVerdict::Fresh
        } else if spec_matches_source(m, size, modified) {
            ResumeVerdict::Safe
        } else {
            ResumeVerdict::Changed
        },
    }
}

/// Decides whether a broken transfer may simply carry on. Without both a size
/// and a timestamp on both sides, the answer is "changed".
pub fn may_resume(marker: Option<&ResumeMarker>, size: u64, modified: Option<i64>) -> (v: ResumeVerdict)
    ensures
        v == spec_may_resume(
            match marker {
                Some(m) => Some(*m),
                None => None,
            },
            size,
            modified,
        ),
{
    match marker {
        None => ResumeVerdict::Fresh,
        Some(marker) => {
            if marker.offset == 0 {
                ResumeVerdict::Fresh
            } else if marker.matches_source(size, modified) {
                ResumeVerdict::Safe
            } else {
                ResumeVerdict::Changed
            }
        },
    }
}

/// A source that changed is never continued: a marker that says "safe" saw
/// exactly this size and a time on both sides.
pub proof fn resume_is_safe_only_for_the_same_source(m: ResumeMarker, size: u64, modified: Option<i64>)
    ensures
        spec_may_resume(Some(m), size, modified) == ResumeVerdict::Safe ==> (m.offset > 0
            && m.source_size == size && m.source_modified is Some && modified
            == m.source_modified),
        modified is None ==> spec_may_resume(Some(m), size, modified) != ResumeVerdict::Safe,
{
}

/// The name a download carries while it is incomplete.
pub fn partial_name(name: &str) -> (s: String)
    ensures
        s@ == name@ + partial_suffix(),
{
    let mut s = name.to_string();
    let ghost start = s@;
    crate::text::push_char(&mut s, '.');
    crate::text::push_char(&mut s, 'a');
    crate::text::push_char(&mut s, 'm');
    crate::text::push_char(&mut s, 'p');
    crate::text::push_char(&mut s, 'a');
    crate::text::push_char(&mut s, 'r');
    crate::text::push_char(&mut s, 't');
    assert(s@ =~= start + partial_suffix());
    s
}

} // verus!

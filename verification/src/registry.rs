//! The open sessions and what moves between them: the values a transfer is
//! described by, and the decisions a transfer makes before and after the bytes
//! move.
use vstd::prelude::*;

use crate::endpoint::{spec_rename_is_dependable, EndpointId, Protocol};
use crate::engine::{may_resume, partial_name, partial_suffix, spec_may_resume, ResumeVerdict};
use crate::error::Error;
use crate::fs::{DirEntry, EntryKind};
use crate::text::{chars_of, string_of};
use crate::transfer::ResumeMarker;

verus! {

/// The identifier the local file system always has.
pub const LOCAL: &'static str = "local";

/// One transfer, as the engine needs it.
#[derive(Debug, Clone)]
pub struct TransferRun {
    pub source_endpoint: EndpointId,
    pub source_path: String,
    pub target_endpoint: EndpointId,
    pub target_path: String,
    /// Where a previous attempt stopped, when there was one.
    pub resume: Option<ResumeMarker>,
    pub keep_modified: bool,
    pub keep_permissions: bool,
    /// Whether to write through a temporary name. The endpoint and the protocol
    /// can still say no.
    pub use_temporary_name: bool,
    /// The source's bits, when they are to be carried across.
    pub source_permissions: Option<u32>,
}

/// One thing a search turned up.
#[derive(Debug, Clone, PartialEq, Eq)]
pub struct Match {
    pub path: String,
    pub name: String,
    pub kind: EntryKind,
    pub size: Option<u64>,
    pub modified: Option<i64>,
}

/// What a search found, and whether it got to the end.
#[derive(Debug, Clone, PartialEq, Eq)]
pub struct SearchResult {
    pub matches: Vec<Match>,
    /// How many directories were read.
    pub directories: usize,
    /// True when a bound was reached rather than the tree ending.
    pub truncated: bool,
}

/// One file found while resolving what was selected.
#[derive(Debug, Clone, PartialEq, Eq)]
pub struct Expanded {
    pub source_path: String,
    /// Path relative to what was selected, so the structure is kept at the
    /// other end. `None` size means a directory that exists only to be created.
    pub relative: String,
    pub size: Option<u64>,
}

/// How a transfer ended.
#[derive(Debug, Clone, PartialEq, Eq)]
pub struct Transferred {
    pub complete: bool,
    /// Bytes moved in this run. After a resume that is the remainder.
    pub moved: u64,
    /// Where to pick up, when it was stopped rather than finished.
    pub resume: Option<ResumeMarker>,
}

/// What a freshly opened session reports back.
#[derive(Debug, Clone, PartialEq, Eq)]
pub struct Connected {
    pub endpoint: EndpointId,
    pub protocol: Protocol,
    /// Directory the pane should open, canonical.
    pub home: String,
    /// Whether this connection stands on a certificate somebody accepted by
    /// hand rather than one an authority vouches for.
    pub certificate_accepted: bool,
}

/// Where a transfer starts and under which name it writes.
#[derive(Debug, Clone, PartialEq, Eq)]
pub struct TransferPlan {
    /// Bytes both sides skip: what an earlier attempt already wrote.
    pub offset: u64,
    /// Whether the file is written under a temporary name and renamed at the end.
    pub use_partial: bool,
    /// The name written to while the bytes move.
    pub write_path: String,
}

/// The verdict a transfer acts on: a resume is considered only where both ends
/// can continue a file.
pub open spec fn verdict_for(job: TransferRun, size: u64, modified: Option<i64>, resumable: bool) -> ResumeVerdict {
    if resumable {
        spec_may_resume(job.resume, size, modified)
    } else {
        ResumeVerdict::Fresh
    }
}

/// Decides, before a byte moves, where a transfer starts and where it writes.
///
/// Nothing is appended to before the source has been shown to be what it was:
/// a source that changed since the break is refused. A temporary name is used
/// only where the job, the endpoint and the protocol all agree to it.
pub fn plan_transfer(
    job: &TransferRun,
    size: u64,
    modified: Option<i64>,
    resumable: bool,
    target_temporary_name: bool,
    target_protocol: Protocol,
) -> (r: Result<TransferPlan, Error>)
    ensures
        verdict_for(*job, size, modified, resumable) == ResumeVerdict::Changed <==> r
            == Err::<TransferPlan, Error>(Error::SourceChanged),
        r is Ok ==> {
            let plan = r->Ok_0;
            &&& plan.offset == (if verdict_for(*job, size, modified, resumable)
                == ResumeVerdict::Safe {
                job.resume->Some_0.offset
            } else {
                0
            })
            &&& plan.use_partial == (job.use_temporary_name && target_temporary_name
                && spec_rename_is_dependable(target_protocol))
            &&& plan.write_path@ == (if plan.use_partial {
                job.target_path@ + partial_suffix()
            } else {
                job.target_path@
            })
        },
{
    let verdict = if resumable {
        may_resume(job.resume.as_ref(), size, modified)
    } else {
        ResumeVerdict::Fresh
    };
    let offset = match verdict {
        ResumeVerdict::Safe => match &job.resume {
            Some(marker) => marker.offset,
            None => 0,
        },
        ResumeVerdict::Changed => return Err(Error::SourceChanged),
        ResumeVerdict::Fresh => 0,
    };
    let use_partial = job.use_temporary_name && target_temporary_name
        && target_protocol.rename_is_dependable();
    let write_path = if use_partial {
        partial_name(job.target_path.as_str())
    } else {
        job.target_path.clone()
    };
    Ok(TransferPlan { offset, use_partial, write_path })
}

/// How a transfer that was stopped part way reports back. It hands back a
/// marker only where something can act on one: where both ends can resume.
pub fn stopped_transfer(moved: u64, resumable: bool, done: u64, size: u64, modified: Option<i64>) -> (t: Transferred)
    ensures
        !t.complete,
        t.moved == moved,
        resumable ==> t.resume == Some(
            ResumeMarker { offset: done, source_size: size, source_modified: modified },
        ),
        !resumable ==> t.resume is None,
{
    let resume = if resumable {
        Some(ResumeMarker { offset: done, source_size: size, source_modified: modified })
    } else {
        None
    };
    Transferred { complete: false, moved, resume }
}

/// How a transfer that went through reports back.
pub fn finished_transfer(moved: u64) -> (t: Transferred)
    ensures
        t.complete,
        t.moved == moved,
        t.resume is None,
{
    Transferred { complete: true, moved, resume: None }
}

/// Whether a listing of the directory above shows `name` as a directory: how
/// a directory whose own listing came back empty is told apart from one that
/// is not there.
pub fn listed_as_directory(entries: &[DirEntry], name: &str) -> (b: bool)
    ensures
        b == exists|k: int|
            0 <= k < entries@.len() && entries@[k].name@ == name@
                && crate::fs::spec_is_directory(entries@[k]),
{
    let mut i: usize = 0;
    while i < entries.len()
        invariant
            i <= entries@.len(),
            forall|k: int|
                0 <= k < i ==> !(entries@[k].name@ == name@ && crate::fs::spec_is_directory(
                    entries@[k],
                )),
        decreases entries@.len() - i,
    {
        if crate::text::str_eq(entries[i].name.as_str(), name) && entries[i].is_directory() {
            return true;
        }
        i = i + 1;
    }
    false
}

/// The path of an entry below a selected folder, relative to that folder.
pub open spec fn child_relative(relative: Seq<char>, name: Seq<char>) -> Seq<char> {
    relative + seq!['/'] + name
}

pub fn child_relative_of(relative: &str, name: &str) -> (s: String)
    ensures
        s@ == child_relative(relative@, name@),
{
    let mut s = relative.to_string();
    crate::text::push_char(&mut s, '/');
    let n = crate::text::chars_of(name);
    let mut i: usize = 0;
    let ghost start = s@;
    while i < n.len()
        invariant
            i <= n@.len(),
            n@ == name@,
            s@ == start + n@.take(i as int),
        decreases n@.len() - i,
    {
        crate::text::push_char(&mut s, n[i]);
        i = i + 1;
        assert(n@.take(i as int) =~= n@.take(i - 1).push(n@[i - 1]));
    }
    assert(n@.take(n@.len() as int) =~= n@);
    s
}

/// Enough directories that an honest search finishes, few enough that a
/// wrong turn does not run all night.
pub const SEARCH_DIRECTORIES: usize = 2000;

/// The most matches one search may be asked for.
pub const MOST_MATCHES: usize = 2000;

/// How many matches a search is run for when a window asks for `asked`: at
/// least one, and no more than [`MOST_MATCHES`].
pub fn search_limit(asked: usize) -> (n: usize)
    ensures
        n == (if asked < 1 {
            1
        } else if asked > MOST_MATCHES {
            MOST_MATCHES
        } else {
            asked
        }),
{
    if asked < 1 {
        1
    } else if asked > MOST_MATCHES {
        MOST_MATCHES
    } else {
        asked
    }
}

/// One thing a search turned up, as plain values.
pub struct MatchView {
    pub path: Seq<char>,
    pub name: Seq<char>,
    pub kind: EntryKind,
    pub size: Option<u64>,
    pub modified: Option<i64>,
}

pub open spec fn match_view(m: Match) -> MatchView {
    MatchView { path: m.path@, name: m.name@, kind: m.kind, size: m.size, modified: m.modified }
}

pub open spec fn match_views(s: Seq<Match>) -> Seq<MatchView> {
    s.map_values(|m: Match| match_view(m))
}

pub open spec fn texts_of(s: Seq<String>) -> Seq<Seq<char>> {
    s.map_values(|t: String| t@)
}

/// A path below a directory, in the notation of the endpoint: this
/// machine's, or a server's.
pub open spec fn path_below(directory: Seq<char>, name: Seq<char>, local: bool) -> Seq<char> {
    if local {
        crate::local::spec_join(directory, name)
    } else {
        crate::fs::spec_join_remote(directory, name)
    }
}

/// Whether a name is what is looked for, without regard to case.
pub open spec fn name_hits(name: Seq<char>, needle: Seq<char>) -> bool {
    crate::text::contains(crate::editing::lower_case(name), needle)
}

/// What the entries of one listing add, in order: every hit, every
/// directory still to be read, and whether the hits reached the limit, in
/// which case the rest of the listing is not looked at. Links are not
/// followed.
pub open spec fn absorb(
    ms: Seq<MatchView>,
    ps: Seq<Seq<char>>,
    entries: Seq<DirEntry>,
    directory: Seq<char>,
    local: bool,
    needle: Seq<char>,
    limit: usize,
) -> (Seq<MatchView>, Seq<Seq<char>>, bool)
    decreases entries.len(),
{
    if entries.len() == 0 {
        (ms, ps, false)
    } else {
        let e = entries[0];
        let path = path_below(directory, e.name@, local);
        let hit = name_hits(e.name@, needle);
        let ms2 = if hit {
            ms.push(MatchView { path, name: e.name@, kind: e.kind, size: e.size, modified: e.modified })
        } else {
            ms
        };
        if hit && ms2.len() >= limit {
            (ms2, ps, true)
        } else {
            let ps2 = if e.kind == EntryKind::Directory { ps.push(path) } else { ps };
            absorb(ms2, ps2, entries.drop_first(), directory, local, needle, limit)
        }
    }
}

/// A search going on: the needle, the directories still to be read, and
/// what was found so far. Reading a directory is the caller's.
pub struct Search {
    pub needle: String,
    pub limit: usize,
    pub pending: Vec<String>,
    pub visited: usize,
    pub found: SearchResult,
}

impl Search {
    /// A search below `root` for names holding `needle`, trimmed and in
    /// lower case. Nothing to look for is refused.
    pub fn start(root: &str, needle: &str, limit: usize) -> (r: Result<Search, Error>)
        ensures
            ({
                let n = crate::editing::lower_case(crate::text::trim(needle@));
                &&& n.len() == 0 ==> (r matches Err(Error::Other { detail }) && detail@ == "nothing to look for"@)
                &&& n.len() > 0 ==> (r matches Ok(s) && s.needle@ == n && s.limit == limit && texts_of(s.pending@)
                    == seq![root@] && s.visited == 0 && s.found.matches@.len() == 0 && !s.found.truncated
                    && s.found.directories == 0)
            }),
    {
        let trimmed = string_of(&crate::text::trimmed(&chars_of(needle)));
        let lowered = crate::editing::to_lower(trimmed.as_str());
        if lowered.as_str().is_empty() {
            return Err(Error::other("nothing to look for"));
        }
        let mut pending: Vec<String> = Vec::new();
        pending.push(root.to_string());
        assert(texts_of(pending@) =~= seq![root@]);
        Ok(
            Search {
                needle: lowered,
                limit,
                pending,
                visited: 0,
                found: SearchResult { matches: Vec::new(), directories: 0, truncated: false },
            },
        )
    }

    /// The next directory to read, or `None` when the search is over: when
    /// nothing is left, or when a bound was reached, which is then noted.
    pub fn next_directory(&mut self) -> (d: Option<String>)
        ensures
            final(self).needle == old(self).needle,
            final(self).limit == old(self).limit,
            final(self).found.matches == old(self).found.matches,
            final(self).found.directories == old(self).found.directories,
            old(self).pending@.len() == 0 ==> d is None && final(self).pending@ == old(self).pending@
                && final(self).visited == old(self).visited && final(self).found.truncated == old(self).found.truncated,
            old(self).pending@.len() > 0 && (old(self).found.matches@.len() >= old(self).limit || old(self).visited
                >= SEARCH_DIRECTORIES) ==> d is None && final(self).found.truncated && final(self).pending@
                == old(self).pending@ && final(self).visited == old(self).visited,
            old(self).pending@.len() > 0 && old(self).found.matches@.len() < old(self).limit && old(self).visited
                < SEARCH_DIRECTORIES ==> d == Some(old(self).pending@.last()) && final(self).pending@ == old(
                self,
            ).pending@.drop_last() && final(self).visited == old(self).visited + 1 && final(self).found.truncated
                == old(self).found.truncated,
    {
        if self.pending.len() == 0 {
            return None;
        }
        if self.found.matches.len() >= self.limit || self.visited >= SEARCH_DIRECTORIES {
            self.found.truncated = true;
            return None;
        }
        self.visited = self.visited + 1;
        self.pending.pop()
    }

    /// Takes in the entries of a directory just read.
    pub fn take_listing(&mut self, directory: &str, entries: &[DirEntry], local: bool)
        ensures
            ({
                let r = absorb(
                    match_views(old(self).found.matches@),
                    texts_of(old(self).pending@),
                    entries@,
                    directory@,
                    local,
                    old(self).needle@,
                    old(self).limit,
                );
                &&& match_views(final(self).found.matches@) == r.0
                &&& texts_of(final(self).pending@) == r.1
                &&& final(self).found.truncated == (old(self).found.truncated || r.2)
            }),
            final(self).needle == old(self).needle,
            final(self).limit == old(self).limit,
            final(self).visited == old(self).visited,
            final(self).found.directories == old(self).found.directories,
    {
        let ghost start = absorb(
            match_views(self.found.matches@),
            texts_of(self.pending@),
            entries@,
            directory@,
            local,
            self.needle@,
            self.limit,
        );
        let needle = chars_of(self.needle.as_str());
        let mut i: usize = 0;
        assert(entries@.skip(0) =~= entries@);
        while i < entries.len()
            invariant
                i <= entries@.len(),
                needle@ == self.needle@,
                self.needle == old(self).needle,
                self.limit == old(self).limit,
                self.visited == old(self).visited,
                self.found.directories == old(self).found.directories,
                self.found.truncated == old(self).found.truncated,
                start == absorb(
                    match_views(old(self).found.matches@),
                    texts_of(old(self).pending@),
                    entries@,
                    directory@,
                    local,
                    old(self).needle@,
                    old(self).limit,
                ),
                start == absorb(
                    match_views(self.found.matches@),
                    texts_of(self.pending@),
                    entries@.skip(i as int),
                    directory@,
                    local,
                    self.needle@,
                    self.limit,
                ),
            decreases entries@.len() - i,
        {
            let e = &entries[i];
            assert(entries@.skip(i as int)[0] == entries@[i as int]);
            assert(entries@.skip(i as int).drop_first() =~= entries@.skip(i + 1));
            let path = if local {
                crate::local::LocalSession::new().join(directory, e.name.as_str())
            } else {
                crate::fs::join_remote(directory, e.name.as_str())
            };
            let lower = chars_of(crate::editing::to_lower(e.name.as_str()).as_str());
            let hit = crate::text::contains_seq(&lower, &needle);
            assert(path@ == path_below(directory@, e.name@, local));
            assert(hit == name_hits(e.name@, self.needle@));
            if hit {
                let ghost before = self.found.matches@;
                let m = Match {
                    path: path.clone(),
                    name: e.name.clone(),
                    kind: e.kind,
                    size: e.size,
                    modified: e.modified,
                };
                self.found.matches.push(m);
                assert(match_views(self.found.matches@) =~= match_views(before).push(
                    MatchView { path: path@, name: e.name@, kind: e.kind, size: e.size, modified: e.modified },
                ));
                if self.found.matches.len() >= self.limit {
                    assert(match_views(self.found.matches@).len() == self.found.matches@.len());
                    assert(absorb(
                        match_views(before),
                        texts_of(self.pending@),
                        entries@.skip(i as int),
                        directory@,
                        local,
                        self.needle@,
                        self.limit,
                    ) == (match_views(self.found.matches@), texts_of(self.pending@), true));
                    self.found.truncated = true;
                    return;
                }
            }
            if e.kind == EntryKind::Directory {
                let ghost before = self.pending@;
                self.pending.push(path);
                assert(texts_of(self.pending@) =~= texts_of(before).push(path@));
            }
            i = i + 1;
        }
        assert(entries@.skip(i as int) =~= Seq::<DirEntry>::empty());
    }

    /// What the search found, with how many directories it read.
    pub fn finish(self) -> (r: SearchResult)
        ensures
            r.matches@ == self.found.matches@,
            r.truncated == self.found.truncated,
            r.directories == self.visited,
    {
        SearchResult { matches: self.found.matches, directories: self.visited, truncated: self.found.truncated }
    }
}

/// One file found while resolving a selection, as plain values.
pub struct ExpandedView {
    pub source_path: Seq<char>,
    pub relative: Seq<char>,
    pub size: Option<u64>,
}

pub open spec fn expanded_view(e: Expanded) -> ExpandedView {
    ExpandedView { source_path: e.source_path@, relative: e.relative@, size: e.size }
}

pub open spec fn expanded_views(s: Seq<Expanded>) -> Seq<ExpandedView> {
    s.map_values(|e: Expanded| expanded_view(e))
}

pub open spec fn pair_views(s: Seq<(String, String)>) -> Seq<(Seq<char>, Seq<char>)> {
    s.map_values(|p: (String, String)| (p.0@, p.1@))
}

/// What the entries of one directory add: each file with its path on both
/// sides, and each directory to be read in turn.
pub open spec fn unfold(
    out: Seq<ExpandedView>,
    pending: Seq<(Seq<char>, Seq<char>)>,
    entries: Seq<DirEntry>,
    directory: Seq<char>,
    relative: Seq<char>,
    local: bool,
) -> (Seq<ExpandedView>, Seq<(Seq<char>, Seq<char>)>)
    decreases entries.len(),
{
    if entries.len() == 0 {
        (out, pending)
    } else {
        let e = entries[0];
        let child = path_below(directory, e.name@, local);
        let inner = child_relative(relative, e.name@);
        if crate::fs::spec_is_directory(e) {
            unfold(out, pending.push((child, inner)), entries.drop_first(), directory, relative, local)
        } else {
            unfold(
                out.push(ExpandedView { source_path: child, relative: inner, size: e.size }),
                pending,
                entries.drop_first(),
                directory,
                relative,
                local,
            )
        }
    }
}

/// Everything below a selected directory, resolved one directory at a time:
/// what was found so far, and the directories still to be read. Reading a
/// directory is the caller's.
pub struct Expansion {
    pub out: Vec<Expanded>,
    pub pending: Vec<(String, String)>,
}

impl Expansion {
    /// Resolving a directory at `source`, selected under the name `name`.
    pub fn start(source: &str, name: &str) -> (x: Expansion)
        ensures
            x.out@.len() == 0,
            pair_views(x.pending@) == seq![(source@, name@)],
    {
        let mut pending: Vec<(String, String)> = Vec::new();
        pending.push((source.to_string(), name.to_string()));
        assert(pair_views(pending@) =~= seq![(source@, name@)]);
        Expansion { out: Vec::new(), pending }
    }

    /// The next directory to read, with its path relative to the selection;
    /// the last one found comes first.
    pub fn next(&mut self) -> (d: Option<(String, String)>)
        ensures
            final(self).out@ == old(self).out@,
            old(self).pending@.len() == 0 ==> d is None && final(self).pending@ == old(self).pending@,
            old(self).pending@.len() > 0 ==> d == Some(old(self).pending@.last()) && final(self).pending@ == old(
                self,
            ).pending@.drop_last(),
    {
        self.pending.pop()
    }

    /// Takes in the entries of a directory just read. A directory with
    /// nothing in it is carried across on its own.
    pub fn take_listing(&mut self, directory: &str, relative: &str, entries: &[DirEntry], local: bool)
        ensures
            ({
                let first = if entries@.len() == 0 {
                    expanded_views(old(self).out@).push(ExpandedView { source_path: directory@, relative: relative@, size: None })
                } else {
                    expanded_views(old(self).out@)
                };
                let r = unfold(first, pair_views(old(self).pending@), entries@, directory@, relative@, local);
                &&& expanded_views(final(self).out@) == r.0
                &&& pair_views(final(self).pending@) == r.1
            }),
    {
        if entries.len() == 0 {
            let ghost before = self.out@;
            self.out.push(Expanded { source_path: directory.to_string(), relative: relative.to_string(), size: None });
            assert(expanded_views(self.out@) =~= expanded_views(before).push(
                ExpandedView { source_path: directory@, relative: relative@, size: None },
            ));
            return;
        }
        let ghost start = unfold(
            expanded_views(self.out@),
            pair_views(self.pending@),
            entries@,
            directory@,
            relative@,
            local,
        );
        let mut i: usize = 0;
        assert(entries@.skip(0) =~= entries@);
        while i < entries.len()
            invariant
                i <= entries@.len(),
                start == unfold(
                    expanded_views(self.out@),
                    pair_views(self.pending@),
                    entries@.skip(i as int),
                    directory@,
                    relative@,
                    local,
                ),
            decreases entries@.len() - i,
        {
            let e = &entries[i];
            assert(entries@.skip(i as int)[0] == entries@[i as int]);
            assert(entries@.skip(i as int).drop_first() =~= entries@.skip(i + 1));
            let child = if local {
                crate::local::LocalSession::new().join(directory, e.name.as_str())
            } else {
                crate::fs::join_remote(directory, e.name.as_str())
            };
            let inner = child_relative_of(relative, e.name.as_str());
            assert(child@ == path_below(directory@, e.name@, local));
            if e.is_directory() {
                let ghost before = self.pending@;
                self.pending.push((child, inner));
                assert(pair_views(self.pending@) =~= pair_views(before).push((child@, inner@)));
            } else {
                let ghost before = self.out@;
                self.out.push(Expanded { source_path: child, relative: inner, size: e.size });
                assert(expanded_views(self.out@) =~= expanded_views(before).push(
                    ExpandedView { source_path: child@, relative: inner@, size: e.size },
                ));
            }
            i = i + 1;
        }
        assert(entries@.skip(i as int) =~= Seq::<DirEntry>::empty());
    }

    /// Everything found.
    pub fn finish(self) -> (out: Vec<Expanded>)
        ensures
            out@ == self.out@,
    {
        self.out
    }
}

} // verus!

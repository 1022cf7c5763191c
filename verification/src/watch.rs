//! Watching a directory on this machine and sending up what changes.
//!
//! One direction only: the local side is watched by the operating system,
//! the far side cannot be watched at all. What arrives from the system is not
//! one event per save, so changes are collected and acted on once the noise
//! stops. The operating system's watcher, the clock and the queue are the
//! caller's; what a change leads to, and when a batch goes, is decided here.
//!
//! Paths are read the way the standard library reads them on this kind of
//! machine: pieces between `/`, where empty pieces and `.` pieces say
//! nothing, except a `.` that starts a relative path.
use vstd::prelude::*;

use crate::compare::{excluded, spec_excluded};
use crate::endpoint::EndpointId;
use crate::fs::{trailing_slashes_off, without_trailing_slashes};
use crate::import::filezilla::{join_exec, joined};
use crate::runner::EnqueueRequest;
use crate::text::{
    append_chars, chars_of, opt_text, rsplit_once, rsplit_once_exec, same_chars, split, split_pieces,
    string_of, views,
};
use crate::transfer::ConflictPolicy;

verus! {

/// A piece of a path that names something.
pub open spec fn names_something(p: Seq<char>) -> bool {
    p.len() > 0 && p != seq!['.']
}

/// The pieces that name something, in order.
pub open spec fn named(s: Seq<Seq<char>>) -> Seq<Seq<char>>
    decreases s.len(),
{
    if s.len() == 0 {
        s
    } else if names_something(s.last()) {
        named(s.drop_last()).push(s.last())
    } else {
        named(s.drop_last())
    }
}

/// The components of a path after where it starts.
pub open spec fn parts(p: Seq<char>) -> Seq<Seq<char>> {
    named(split(p, '/'))
}

/// Where a path starts: `/` at the root, `.` for a path that says it starts
/// here, nothing for any other relative path.
pub open spec fn start_of(p: Seq<char>) -> Seq<char> {
    if p.len() > 0 && p[0] == '/' {
        seq!['/']
    } else if p == seq!['.'] || (p.len() >= 2 && p[0] == '.' && p[1] == '/') {
        seq!['.']
    } else {
        Seq::empty()
    }
}

/// A text with every backslash written as a forward slash.
pub open spec fn forward_slashes(s: Seq<char>) -> Seq<char> {
    s.map_values(|c: char| if c == '\\' { '/' } else { c })
}

/// Where a path sits below a directory, with forward slashes: `None` for
/// the directory itself and for anything not inside it.
pub open spec fn spec_below(root: Seq<char>, path: Seq<char>) -> Option<Seq<char>> {
    let r = parts(root);
    let q = parts(path);
    if start_of(root) == start_of(path) && r.len() < q.len() && q.take(r.len() as int) == r {
        Some(forward_slashes(joined(q.skip(r.len() as int), '/')))
    } else {
        None
    }
}

pub(crate) fn parts_exec(p: &[char]) -> (out: Vec<Vec<char>>)
    ensures
        views(out@) == parts(p@),
{
    let pieces = split_pieces(p, '/');
    let ghost pv = views(pieces@);
    let mut out: Vec<Vec<char>> = Vec::new();
    let mut i: usize = 0;
    assert(pv.take(0) =~= Seq::<Seq<char>>::empty());
    assert(views(out@) =~= Seq::<Seq<char>>::empty());
    while i < pieces.len()
        invariant
            i <= pieces@.len(),
            pv == views(pieces@),
            views(out@) == named(pv.take(i as int)),
        decreases pieces@.len() - i,
    {
        assert(pv.take(i + 1).drop_last() =~= pv.take(i as int));
        assert(pv.take(i + 1).last() == pieces@[i as int]@);
        let piece = &pieces[i];
        let dot = piece.len() == 1 && piece[0] == '.';
        proof {
            if piece@.len() == 1 {
                assert(dot == (piece@ =~= seq!['.']));
            } else {
                assert(piece@ != seq!['.']);
            }
        }
        if piece.len() > 0 && !dot {
            let ghost before = out@;
            out.push(piece.clone());
            assert(views(out@) =~= views(before).push(pieces@[i as int]@));
        }
        i = i + 1;
    }
    assert(pv.take(pieces@.len() as int) =~= pv);
    out
}

pub(crate) fn start_exec(p: &[char]) -> (out: Vec<char>)
    ensures
        out@ == start_of(p@),
{
    if p.len() > 0 && p[0] == '/' {
        let mut v = Vec::new();
        v.push('/');
        assert(v@ =~= seq!['/']);
        v
    } else if (p.len() == 1 && p[0] == '.') || (p.len() >= 2 && p[0] == '.' && p[1] == '/') {
        let mut v = Vec::new();
        v.push('.');
        assert(v@ =~= seq!['.']);
        proof {
            if p@.len() == 1 {
                assert(p@ =~= seq!['.']);
            }
        }
        v
    } else {
        proof {
            if p@.len() == 1 {
                assert(p@ != seq!['.']);
            }
        }
        let v: Vec<char> = Vec::new();
        assert(v@ =~= Seq::<char>::empty());
        v
    }
}

fn forward_slashes_exec(v: &[char]) -> (out: Vec<char>)
    ensures
        out@ == forward_slashes(v@),
{
    let mut out: Vec<char> = Vec::new();
    let mut i: usize = 0;
    while i < v.len()
        invariant
            i <= v@.len(),
            out@ == forward_slashes(v@.take(i as int)),
        decreases v@.len() - i,
    {
        let c = if v[i] == '\\' { '/' } else { v[i] };
        out.push(c);
        assert(forward_slashes(v@.take(i + 1)) =~= forward_slashes(v@.take(i as int)).push(c));
        i = i + 1;
    }
    assert(v@.take(v@.len() as int) =~= v@);
    out
}

/// Whether the pieces of `r` are the first pieces of `q`.
fn leads(r: &Vec<Vec<char>>, q: &Vec<Vec<char>>) -> (b: bool)
    requires
        r@.len() <= q@.len(),
    ensures
        b == (views(q@).take(r@.len() as int) == views(r@)),
{
    let mut i: usize = 0;
    while i < r.len()
        invariant
            r@.len() <= q@.len(),
            i <= r@.len(),
            forall|j: int| 0 <= j < i ==> q@[j]@ == r@[j]@,
        decreases r@.len() - i,
    {
        if !same_chars(&r[i], &q[i]) {
            proof {
                assert(views(q@).take(r@.len() as int)[i as int] != views(r@)[i as int]);
            }
            return false;
        }
        i = i + 1;
    }
    assert(views(q@).take(r@.len() as int) =~= views(r@));
    true
}

fn skipped(q: &Vec<Vec<char>>, from: usize) -> (out: Vec<Vec<char>>)
    requires
        from <= q@.len(),
    ensures
        views(out@) == views(q@).skip(from as int),
{
    let mut out: Vec<Vec<char>> = Vec::new();
    let mut i: usize = from;
    while i < q.len()
        invariant
            from <= i <= q@.len(),
            views(out@) == views(q@).subrange(from as int, i as int),
        decreases q@.len() - i,
    {
        let ghost before = out@;
        out.push(q[i].clone());
        assert(views(out@) =~= views(before).push(q@[i as int]@));
        assert(views(out@) =~= views(q@).subrange(from as int, i + 1));
        i = i + 1;
    }
    assert(views(q@).subrange(from as int, q@.len() as int) =~= views(q@).skip(from as int));
    out
}

/// Where a path sits below the watched directory, with forward slashes.
pub fn below(root: &str, path: &str) -> (r: Option<String>)
    ensures
        opt_text(r) == spec_below(root@, path@),
{
    let rv = chars_of(root);
    let pv = chars_of(path);
    let rs = start_exec(&rv);
    let ps = start_exec(&pv);
    let r = parts_exec(&rv);
    let q = parts_exec(&pv);
    if !same_chars(&rs, &ps) || r.len() >= q.len() {
        return None;
    }
    if !leads(&r, &q) {
        return None;
    }
    let rest = skipped(&q, r.len());
    let text = join_exec(&rest, '/');
    Some(string_of(&forward_slashes_exec(&text)))
}

/// Whether a change is out of a watch's sight: every part of the way down
/// counts, so a rule naming a directory hides what is inside it.
pub open spec fn spec_hidden(relative: Seq<char>, patterns: Seq<String>) -> bool {
    exists|i: int| 0 <= i < split(relative, '/').len() && spec_excluded(#[trigger] split(relative, '/')[i], patterns)
}

/// Whether a change is out of a watch's sight.
pub fn hidden(relative: &str, patterns: &[String]) -> (b: bool)
    ensures
        b == spec_hidden(relative@, patterns@),
{
    let pieces = split_pieces(&chars_of(relative), '/');
    let ghost pv = views(pieces@);
    let mut i: usize = 0;
    while i < pieces.len()
        invariant
            i <= pieces@.len(),
            pv == views(pieces@),
            pv == split(relative@, '/'),
            forall|j: int| 0 <= j < i ==> !spec_excluded(#[trigger] pv[j], patterns@),
        decreases pieces@.len() - i,
    {
        let part = string_of(&pieces[i]);
        if excluded(part.as_str(), patterns) {
            assert(pv[i as int] == pieces@[i as int]@);
            return true;
        }
        assert(pv[i as int] == pieces@[i as int]@);
        i = i + 1;
    }
    false
}

/// The directory on the far side a change goes into: the target root, and
/// below it the directories the change sits in here.
pub open spec fn spec_into(relative: Seq<char>, target_root: Seq<char>) -> Seq<char> {
    match rsplit_once(relative, '/') {
        Some((inner, _)) => without_trailing_slashes(target_root) + seq!['/'] + inner,
        None => target_root,
    }
}

/// The directory a path is in, written as the standard library writes a
/// parent: the start and every component but the last.
pub open spec fn directory_of(start: Seq<char>, q: Seq<Seq<char>>) -> Seq<char> {
    if start == seq!['/'] {
        seq!['/'] + joined(q.drop_last(), '/')
    } else if start == seq!['.'] {
        if q.len() <= 1 {
            seq!['.']
        } else {
            seq!['.', '/'] + joined(q.drop_last(), '/')
        }
    } else {
        joined(q.drop_last(), '/')
    }
}

/// What one changed path leads to.
pub enum WatchStep {
    /// Nothing: outside the watch, a directory, excluded, or a removal the
    /// watch was not started to carry across.
    Nothing,
    /// Take the file away on the far side, in whatever way the server entry
    /// says removing works there.
    Remove { endpoint: String, path: String },
    /// Put this into the queue.
    Send(EnqueueRequest),
}

/// Whether `step` is what a changed path leads to. A removal goes straight
/// to the far side, never through the queue; anything else goes through the
/// queue with nobody there to answer a question, so the local file wins.
pub open spec fn step_is(
    step: WatchStep,
    root: Seq<char>,
    path: Seq<char>,
    gone: bool,
    is_file: bool,
    patterns: Seq<String>,
    delete_along: bool,
    target_endpoint: Seq<char>,
    target_root: Seq<char>,
) -> bool {
    match spec_below(root, path) {
        None => step is Nothing,
        Some(relative) => {
            let q = parts(path);
            let name = q.last();
            let into = spec_into(relative, target_root);
            if (!gone && !is_file) || spec_hidden(relative, patterns) || name == seq!['.', '.'] {
                step is Nothing
            } else if gone {
                if !delete_along {
                    step is Nothing
                } else {
                    step matches WatchStep::Remove { endpoint, path: there } && endpoint@ == target_endpoint
                        && there@ == without_trailing_slashes(into) + seq!['/'] + name
                }
            } else {
                step matches WatchStep::Send(request) && {
                    &&& request.source_endpoint.0@ == crate::registry::LOCAL@
                    &&& request.source_directory@ == directory_of(start_of(path), q)
                    &&& request.names@.len() == 1
                    &&& request.names@[0]@ == name
                    &&& request.target_endpoint.0@ == target_endpoint
                    &&& request.target_directory@ == into
                    &&& request.conflict_policy == ConflictPolicy::Overwrite
                    &&& request.keep_modified
                    &&& !request.keep_permissions
                    &&& request.use_temporary_name
                    &&& request.retries is None
                }
            }
        },
    }
}

fn into_exec(relative: &[char], target_root: &str) -> (out: Vec<char>)
    ensures
        out@ == spec_into(relative@, target_root@),
{
    match rsplit_once_exec(relative, '/') {
        Some((inner, _)) => {
            let mut v = trailing_slashes_off(&chars_of(target_root));
            v.push('/');
            append_chars(&mut v, &inner);
            v
        },
        None => chars_of(target_root),
    }
}

pub(crate) fn directory_exec(start: &Vec<char>, q: &Vec<Vec<char>>) -> (out: Vec<char>)
    requires
        q@.len() >= 1,
    ensures
        out@ == directory_of(start@, views(q@)),
{
    let ghost qv = views(q@);
    let up = skipped_last(q);
    let inner = join_exec(&up, '/');
    let mut v: Vec<char> = Vec::new();
    let slash = start.len() == 1 && start[0] == '/';
    let dot = start.len() == 1 && start[0] == '.';
    proof {
        if start@.len() == 1 {
            assert(slash == (start@ =~= seq!['/']));
            assert(dot == (start@ =~= seq!['.']));
        } else {
            assert(start@ != seq!['/']);
            assert(start@ != seq!['.']);
        }
    }
    if slash {
        v.push('/');
        append_chars(&mut v, &inner);
        assert(v@ =~= seq!['/'] + inner@);
    } else if dot {
        v.push('.');
        if q.len() > 1 {
            v.push('/');
            append_chars(&mut v, &inner);
            assert(v@ =~= seq!['.', '/'] + inner@);
        } else {
            assert(v@ =~= seq!['.']);
        }
    } else {
        append_chars(&mut v, &inner);
        assert(v@ =~= inner@);
    }
    v
}

fn skipped_last(q: &Vec<Vec<char>>) -> (out: Vec<Vec<char>>)
    requires
        q@.len() >= 1,
    ensures
        views(out@) == views(q@).drop_last(),
{
    let mut out: Vec<Vec<char>> = Vec::new();
    let mut i: usize = 0;
    while i < q.len() - 1
        invariant
            q@.len() >= 1,
            i + 1 <= q@.len(),
            views(out@) == views(q@).take(i as int),
        decreases q@.len() - i,
    {
        let ghost before = out@;
        out.push(q[i].clone());
        assert(views(out@) =~= views(before).push(q@[i as int]@));
        assert(views(out@) =~= views(q@).take(i + 1));
        i = i + 1;
    }
    assert(views(q@).take(i as int) =~= views(q@).drop_last());
    out
}

/// What one changed path leads to, given whether it is gone and whether it
/// is a file.
pub fn step_for(
    root: &str,
    path: &str,
    gone: bool,
    is_file: bool,
    patterns: &[String],
    delete_along: bool,
    target_endpoint: &str,
    target_root: &str,
) -> (step: WatchStep)
    ensures
        step_is(step, root@, path@, gone, is_file, patterns@, delete_along, target_endpoint@, target_root@),
{
    let relative = match below(root, path) {
        Some(r) => r,
        None => return WatchStep::Nothing,
    };
    if !gone && !is_file {
        return WatchStep::Nothing;
    }
    if hidden(relative.as_str(), patterns) {
        return WatchStep::Nothing;
    }
    let pv = chars_of(path);
    let q = parts_exec(&pv);
    let ghost qv = views(q@);
    assert(q@.len() >= 1);
    let name = &q[q.len() - 1];
    assert(name@ == qv.last());
    let up = name.len() == 2 && name[0] == '.' && name[1] == '.';
    proof {
        if name@.len() == 2 {
            assert(up == (name@ =~= seq!['.', '.']));
        } else {
            assert(name@ != seq!['.', '.']);
        }
    }
    if up {
        return WatchStep::Nothing;
    }
    let rel = chars_of(relative.as_str());
    let into = into_exec(&rel, target_root);
    if gone {
        if !delete_along {
            return WatchStep::Nothing;
        }
        let mut there = trailing_slashes_off(&into);
        there.push('/');
        append_chars(&mut there, name);
        assert(there@ =~= without_trailing_slashes(into@) + seq!['/'] + qv.last());
        let endpoint = target_endpoint.to_string();
        assert(endpoint@ == target_endpoint@);
        return WatchStep::Remove { endpoint, path: string_of(&there) };
    }
    let start = start_exec(&pv);
    let directory = directory_exec(&start, &q);
    let mut names: Vec<String> = Vec::new();
    names.push(string_of(name));
    WatchStep::Send(
        EnqueueRequest {
            source_endpoint: EndpointId::new(crate::registry::LOCAL),
            source_directory: string_of(&directory),
            names,
            target_endpoint: EndpointId::new(target_endpoint),
            target_directory: string_of(&into),
            conflict_policy: ConflictPolicy::Overwrite,
            keep_modified: true,
            keep_permissions: false,
            use_temporary_name: true,
            retries: None,
        },
    )
}

/// How long the noise has to stop before anything is sent, in milliseconds:
/// an editor saving a file writes, renames and touches it within a few.
pub const SETTLE_MS: u64 = 400;

/// And the longest a steady stream of changes may hold everything back, so
/// that something writing continuously still gets sent.
pub const AT_LATEST_MS: u64 = 3000;

/// The texts of a list of strings.
pub open spec fn texts(s: Seq<String>) -> Seq<Seq<char>> {
    s.map_values(|t: String| t@)
}

/// Whether no text occurs twice.
pub open spec fn no_repeats(s: Seq<Seq<char>>) -> bool {
    forall|i: int, j: int| 0 <= i < j < s.len() ==> s[i] != s[j]
}

/// Changes collected until the noise stops: each changed path once, and
/// since when anything has been waiting.
pub struct Settle {
    pub waiting: Vec<String>,
    pub oldest: Option<u64>,
}

impl Settle {
    /// Nothing twice, and a time exactly while something waits.
    pub open spec fn wf(&self) -> bool {
        &&& no_repeats(texts(self.waiting@))
        &&& (self.oldest is Some <==> self.waiting@.len() > 0)
    }

    pub fn new() -> (s: Settle)
        ensures
            s.wf(),
            s.waiting@.len() == 0,
    {
        Settle { waiting: Vec::new(), oldest: None }
    }

    /// How long to wait for the next change before acting: a short while
    /// once something waits, otherwise the longest wait.
    pub fn wait_ms(&self) -> (ms: u64)
        ensures
            ms == (if self.waiting@.len() == 0 { AT_LATEST_MS } else { SETTLE_MS }),
    {
        if self.waiting.len() == 0 {
            AT_LATEST_MS
        } else {
            SETTLE_MS
        }
    }

    /// Takes note of a changed path at `now`, and says whether the batch
    /// has to go at once because changes have kept coming for too long.
    pub fn arrived(&mut self, path: String, now: u64) -> (go: bool)
        requires
            old(self).wf(),
        ensures
            final(self).wf(),
            texts(final(self).waiting@) == (if texts(old(self).waiting@).contains(path@) {
                texts(old(self).waiting@)
            } else {
                texts(old(self).waiting@).push(path@)
            }),
            final(self).oldest == Some(
                match old(self).oldest {
                    Some(t) => t,
                    None => now,
                },
            ),
            go == (now >= final(self).oldest.unwrap() + AT_LATEST_MS),
    {
        let ghost before = texts(self.waiting@);
        let mut i: usize = 0;
        let mut seen = false;
        while i < self.waiting.len() && !seen
            invariant
                i <= self.waiting@.len(),
                before == texts(self.waiting@),
                seen ==> before.contains(path@),
                !seen ==> forall|j: int| 0 <= j < i ==> before[j] != path@,
            decreases self.waiting@.len() - i + (if seen { 0int } else { 1int }),
        {
            if crate::text::str_eq(self.waiting[i].as_str(), path.as_str()) {
                seen = true;
                assert(before[i as int] == path@);
            } else {
                i = i + 1;
            }
        }
        if !seen {
            assert(!before.contains(path@));
            self.waiting.push(path);
            assert(texts(self.waiting@) =~= before.push(path@));
        }
        let since = match self.oldest {
            Some(t) => t,
            None => now,
        };
        self.oldest = Some(since);
        now >= since && now - since >= AT_LATEST_MS
    }

    /// Hands out what has been waiting and starts over.
    pub fn take(&mut self) -> (batch: Vec<String>)
        ensures
            batch@ == old(self).waiting@,
            final(self).waiting@.len() == 0,
            final(self).oldest is None,
            final(self).wf(),
    {
        self.oldest = None;
        let mut batch: Vec<String> = Vec::new();
        std::mem::swap(&mut batch, &mut self.waiting);
        batch
    }
}

/// One directory being watched.
#[derive(Debug, Clone, PartialEq, Eq)]
pub struct Watch {
    pub id: String,
    /// The endpoint the watched directory is on: always the local one.
    pub endpoint: String,
    pub root: String,
    pub target_endpoint: String,
    pub target_root: String,
    /// Where the files are going, as the window shows it.
    pub target_title: Option<String>,
    /// How many files have been sent since this started.
    pub sent: usize,
    pub started: i64,
}

impl Watch {
    /// The same watch, field for field.
    pub fn copy(&self) -> (w: Watch)
        ensures
            w == *self,
    {
        Watch {
            id: self.id.clone(),
            endpoint: self.endpoint.clone(),
            root: self.root.clone(),
            target_endpoint: self.target_endpoint.clone(),
            target_root: self.target_root.clone(),
            target_title: match &self.target_title {
                Some(t) => Some(t.clone()),
                None => None,
            },
            sent: self.sent,
            started: self.started,
        }
    }
}

/// The first place from `i` on where `f` holds, or the length.
pub open spec fn index_from(s: Seq<Watch>, f: spec_fn(Watch) -> bool, i: int) -> int
    decreases s.len() - i,
{
    if i < 0 || i >= s.len() {
        s.len() as int
    } else if f(s[i]) {
        i
    } else {
        index_from(s, f, i + 1)
    }
}

pub open spec fn has_root(root: Seq<char>) -> spec_fn(Watch) -> bool {
    |w: Watch| w.root@ == root
}

pub open spec fn has_id(id: Seq<char>) -> spec_fn(Watch) -> bool {
    |w: Watch| w.id@ == id
}

pub proof fn lemma_index_from(s: Seq<Watch>, f: spec_fn(Watch) -> bool, i: int)
    requires
        0 <= i <= s.len(),
    ensures
        i <= index_from(s, f, i) <= s.len(),
        index_from(s, f, i) < s.len() ==> f(s[index_from(s, f, i)]),
        forall|j: int| i <= j < index_from(s, f, i) ==> !f(#[trigger] s[j]),
    decreases s.len() - i,
{
    if i < s.len() && !f(s[i]) {
        lemma_index_from(s, f, i + 1);
    }
}

fn find_exec(open: &Vec<Watch>, text: &str, by_root: bool) -> (k: usize)
    ensures
        k == index_from(open@, if by_root { has_root(text@) } else { has_id(text@) }, 0),
{
    let ghost f = if by_root { has_root(text@) } else { has_id(text@) };
    let mut i: usize = 0;
    while i < open.len()
        invariant
            i <= open@.len(),
            f == (if by_root { has_root(text@) } else { has_id(text@) }),
            index_from(open@, f, 0) == index_from(open@, f, i as int),
        decreases open@.len() - i,
    {
        let field = if by_root { open[i].root.as_str() } else { open[i].id.as_str() };
        assert(f(open@[i as int]) == (field@ == text@));
        assert(index_from(open@, f, i as int) == if f(open@[i as int]) { i as int } else { index_from(open@, f, i + 1) });
        if crate::text::str_eq(field, text) {
            return i;
        }
        i = i + 1;
    }
    i
}

/// Whether no two watches are of the same directory.
pub open spec fn one_per_directory(s: Seq<Watch>) -> bool {
    forall|i: int, j: int| 0 <= i < j < s.len() ==> s[i].root@ != s[j].root@
}

/// Where a watch goes among others ordered by when they started: after
/// every one that started at the same time or earlier.
pub open spec fn place_by_start(s: Seq<Watch>, x: Watch) -> int
    decreases s.len(),
{
    if s.len() == 0 {
        0
    } else if s.last().started <= x.started {
        s.len() as int
    } else {
        place_by_start(s.drop_last(), x)
    }
}

/// Watches in the order they started; those started at the same time in
/// the order they are held.
pub open spec fn by_start(s: Seq<Watch>) -> Seq<Watch>
    decreases s.len(),
{
    if s.len() == 0 {
        s
    } else {
        let rest = by_start(s.drop_last());
        let k = place_by_start(rest, s.last());
        rest.take(k) + seq![s.last()] + rest.skip(k)
    }
}

pub open spec fn earliest_first(s: Seq<Watch>) -> bool {
    forall|i: int, j: int| 0 <= i < j < s.len() ==> s[i].started <= s[j].started
}

proof fn lemma_place_by_start(s: Seq<Watch>, x: Watch)
    requires
        earliest_first(s),
    ensures
        0 <= place_by_start(s, x) <= s.len(),
        forall|i: int| 0 <= i < place_by_start(s, x) ==> s[i].started <= x.started,
        forall|i: int| place_by_start(s, x) <= i < s.len() ==> s[i].started > x.started,
    decreases s.len(),
{
    if s.len() > 0 && s.last().started > x.started {
        let d = s.drop_last();
        lemma_place_by_start(d, x);
        assert forall|i: int| place_by_start(s, x) <= i < s.len() implies s[i].started > x.started by {
            if i < s.len() - 1 {
                assert(s[i] == d[i]);
            }
        }
        assert forall|i: int| 0 <= i < place_by_start(s, x) implies s[i].started <= x.started by {
            assert(s[i] == d[i]);
        }
    } else if s.len() > 0 {
        assert forall|i: int| 0 <= i < place_by_start(s, x) implies s[i].started <= x.started by {
            if i < s.len() - 1 {
                assert(s[i].started <= s[s.len() - 1].started);
            }
        }
    }
}

/// The list of watches comes earliest first.
pub proof fn watches_are_listed_earliest_first(s: Seq<Watch>)
    ensures
        earliest_first(by_start(s)),
    decreases s.len(),
{
    if s.len() > 0 {
        let rest = by_start(s.drop_last());
        watches_are_listed_earliest_first(s.drop_last());
        lemma_place_by_start(rest, s.last());
        let k = place_by_start(rest, s.last());
        let r = by_start(s);
        assert forall|i: int, j: int| 0 <= i < j < r.len() implies r[i].started <= r[j].started by {
            if i < k {
                assert(r[i] == rest[i]);
            } else if i == k {
                assert(r[i] == s.last());
            } else {
                assert(r[i] == rest[i - 1]);
            }
            if j < k {
                assert(r[j] == rest[j]);
            } else if j == k {
                assert(r[j] == s.last());
            } else {
                assert(r[j] == rest[j - 1]);
            }
        }
    }
}

/// The directories being watched.
pub struct Watches {
    pub open: Vec<Watch>,
}

impl Watches {
    pub fn new() -> (w: Watches)
        ensures
            one_per_directory(w.open@),
            w.open@.len() == 0,
    {
        Watches { open: Vec::new() }
    }

    /// The watch already running on a directory, if any.
    pub fn watching(&self, root: &str) -> (r: Option<Watch>)
        ensures
            ({
                let k = index_from(self.open@, has_root(root@), 0);
                &&& k < self.open@.len() ==> r == Some(self.open@[k])
                &&& k >= self.open@.len() ==> r is None
            }),
    {
        let k = find_exec(&self.open, root, true);
        if k < self.open.len() {
            Some(self.open[k].copy())
        } else {
            None
        }
    }

    /// Takes a watch in, unless its directory is watched already: two
    /// watchers on one tree would send every change twice. What is running
    /// on the directory afterwards comes back.
    pub fn add(&mut self, watch: Watch) -> (r: Watch)
        requires
            one_per_directory(old(self).open@),
        ensures
            one_per_directory(final(self).open@),
            ({
                let k = index_from(old(self).open@, has_root(watch.root@), 0);
                &&& k < old(self).open@.len() ==> r == old(self).open@[k] && final(self).open@ == old(self).open@
                &&& k >= old(self).open@.len() ==> r == watch && final(self).open@ == old(self).open@.push(watch)
            }),
    {
        let k = find_exec(&self.open, watch.root.as_str(), true);
        proof {
            lemma_index_from(self.open@, has_root(watch.root@), 0);
        }
        if k < self.open.len() {
            return self.open[k].copy();
        }
        let kept = watch.copy();
        self.open.push(watch);
        kept
    }

    /// Stops one watch and hands it back. Nothing already in the queue is
    /// taken back.
    pub fn stop(&mut self, id: &str) -> (r: Option<Watch>)
        ensures
            one_per_directory(old(self).open@) ==> one_per_directory(final(self).open@),
            ({
                let k = index_from(old(self).open@, has_id(id@), 0);
                &&& k < old(self).open@.len() ==> r == Some(old(self).open@[k]) && final(self).open@ == old(self).open@.remove(k)
                &&& k >= old(self).open@.len() ==> r is None && final(self).open@ == old(self).open@
            }),
    {
        let k = find_exec(&self.open, id, false);
        if k < self.open.len() {
            Some(self.open.remove(k))
        } else {
            None
        }
    }

    /// Stops every watch and hands them all back.
    pub fn stop_all(&mut self) -> (r: Vec<Watch>)
        ensures
            one_per_directory(final(self).open@),
            r@ == old(self).open@,
            final(self).open@.len() == 0,
    {
        let mut all: Vec<Watch> = Vec::new();
        std::mem::swap(&mut all, &mut self.open);
        all
    }

    /// Counts files sent by a watch; the count wraps as a machine word does.
    pub fn count_sent(&mut self, id: &str, n: usize)
        ensures
            one_per_directory(old(self).open@) ==> one_per_directory(final(self).open@),
            ({
                let k = index_from(old(self).open@, has_id(id@), 0);
                &&& k < old(self).open@.len() ==> final(self).open@ == old(self).open@.update(
                    k,
                    Watch {
                        sent: vstd::wrapping::usize_specs::wrapping_add(old(self).open@[k].sent, n),
                        ..old(self).open@[k]
                    },
                )
                &&& k >= old(self).open@.len() ==> final(self).open@ == old(self).open@
            }),
    {
        let k = find_exec(&self.open, id, false);
        if k < self.open.len() {
            let mut w = self.open[k].copy();
            w.sent = w.sent.wrapping_add(n);
            self.open.set(k, w);
        }
    }

    /// The watches, earliest started first.
    pub fn list(&self) -> (out: Vec<Watch>)
        ensures
            out@ == by_start(self.open@),
    {
        let ghost s = self.open@;
        let mut out: Vec<Watch> = Vec::new();
        let mut i: usize = 0;
        assert(s.take(0) =~= Seq::<Watch>::empty());
        while i < self.open.len()
            invariant
                i <= s.len(),
                s == self.open@,
                out@ == by_start(s.take(i as int)),
            decreases s.len() - i,
        {
            assert(s.take(i + 1).drop_last() =~= s.take(i as int));
            assert(s.take(i + 1).last() == s[i as int]);
            let x = self.open[i].copy();
            let mut k = out.len();
            assert(out@.take(k as int) =~= out@);
            while k > 0 && out[k - 1].started > x.started
                invariant
                    k <= out@.len(),
                    place_by_start(out@, x) == place_by_start(out@.take(k as int), x),
                decreases k,
            {
                assert(out@.take(k as int).drop_last() =~= out@.take(k - 1));
                k = k - 1;
            }
            proof {
                if k > 0 {
                    assert(out@.take(k as int).last() == out@[k - 1]);
                }
            }
            let ghost before = out@;
            out.insert(k, x);
            assert(out@ =~= before.take(k as int) + seq![x] + before.skip(k as int));
            i = i + 1;
        }
        assert(s.take(s.len() as int) =~= s);
        out
    }
}

/// A file sent across lands in the same place below the target root as it
/// sits below the watched root: for a relative path made of the directories
/// `dirs` and a last name without a slash, the target directory is the
/// target root without its trailing slashes, a slash, and all of `dirs`; a
/// file directly below the watched root goes to the target root itself.
pub proof fn files_land_in_the_same_place(dirs: Seq<char>, name: Seq<char>, target_root: Seq<char>)
    requires
        forall|k: int| 0 <= k < name.len() ==> name[k] != '/',
    ensures
        spec_into(dirs + seq!['/'] + name, target_root) == without_trailing_slashes(target_root) + seq!['/']
            + dirs,
        spec_into(name, target_root) == target_root,
{
    let rel = dirs + seq!['/'] + name;
    let n = rel.len() as int;
    crate::text::lemma_rfind_before(rel, '/', n);
    let r = crate::text::rfind_before(rel, '/', n);
    assert(rel[dirs.len() as int] == '/');
    if r > dirs.len() {
        assert(rel[r] == name[r - dirs.len() - 1]);
    }
    assert(r == dirs.len());
    assert(rel.take(r) =~= dirs);
    crate::text::lemma_rfind_before(name, '/', name.len() as int);
}

} // verus!

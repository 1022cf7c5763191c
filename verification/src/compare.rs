//! Telling two directories apart. Both sides are listed, matched up by name,
//! and every pair is judged; what comes out is a list somebody can look at
//! before anything moves. The listing and the reading are done by whoever
//! drives the walk; what one directory's two listings amount to is decided
//! here.
use vstd::prelude::*;

use crate::editing::lower_case;
use crate::endpoint::EndpointId;
use crate::error::Error;
use crate::fs::{spec_is_directory, DirEntry, EntryKind, Listing};
use crate::sites::{text_le, text_le_exec};
use crate::text::{chars_of, string_of, trim};

verus! {

/// How much two modification times may differ and still count as one moment.
pub const TOLERANCE: i64 = 2;

/// The most directories one comparison will read.
pub const MOST_DIRECTORIES: usize = 5_000;

/// What the two sides are judged by.
#[derive(Debug, Clone, Copy, PartialEq, Eq, Structural)]
pub enum How {
    /// Size alone.
    Size,
    /// Size, and then the modification time within [`TOLERANCE`].
    SizeAndTime,
    /// Size, and then what the bytes actually are.
    Checksum,
}

/// What was found about one name.
#[derive(Debug, Clone, Copy, PartialEq, Eq, Structural)]
pub enum Difference {
    /// On the left only.
    OnlyHere,
    /// On the right only.
    OnlyThere,
    /// On both, and not the same.
    Different,
    /// On both, as far as the chosen rule can tell.
    Same,
}

/// One side of one row.
#[derive(Debug, Clone, Copy, PartialEq, Eq, Structural)]
pub struct Seen {
    pub size: Option<u64>,
    pub modified: Option<i64>,
}

/// One name, as both sides have it.
#[derive(Debug, Clone, PartialEq, Eq)]
pub struct Row {
    /// Where it sits below the two directories being compared, with forward
    /// slashes.
    pub path: String,
    pub name: String,
    pub kind: EntryKind,
    pub state: Difference,
    pub here: Option<Seen>,
    pub there: Option<Seen>,
}

/// What a comparison found.
#[derive(Debug, Clone, Default, PartialEq, Eq)]
pub struct Comparison {
    pub rows: Vec<Row>,
    /// How many directories were listed, on both sides together.
    pub directories: usize,
    /// True when the walk stopped at [`MOST_DIRECTORIES`] rather than at the end.
    pub cut_short: bool,
}

/// What one comparison was asked to do.
#[derive(Debug)]
pub struct Asking {
    pub here: (EndpointId, String),
    pub there: (EndpointId, String),
    pub recursive: bool,
    pub how: How,
    /// Names never looked at, as patterns. See [`excluded`].
    pub excludes: Vec<String>,
}

/// The judgement as far as the two listings can take it: a different size
/// is different; with size alone that settles it, with times they have to
/// lie within the tolerance when both sides report one; a checksum can only
/// be settled by reading (`None`).
pub open spec fn spec_by_listing(how: How, here: DirEntry, there: DirEntry) -> Option<Difference> {
    if here.size != there.size {
        Some(Difference::Different)
    } else {
        match how {
            How::Size => Some(Difference::Same),
            How::SizeAndTime => Some(
                match (here.modified, there.modified) {
                    (Some(one), Some(other)) => if one - other > TOLERANCE || other - one
                        > TOLERANCE {
                        Difference::Different
                    } else {
                        Difference::Same
                    },
                    _ => Difference::Same,
                },
            ),
            How::Checksum => None,
        }
    }
}

pub fn by_listing(how: How, here: &DirEntry, there: &DirEntry) -> (d: Option<Difference>)
    ensures
        d == spec_by_listing(how, *here, *there),
{
    if here.size != there.size {
        return Some(Difference::Different);
    }
    match how {
        How::Size => Some(Difference::Same),
        How::SizeAndTime => Some(
            match (here.modified, there.modified) {
                (Some(one), Some(other)) => {
                    let apart: i128 = one as i128 - other as i128;
                    if apart > TOLERANCE as i128 || -apart > TOLERANCE as i128 {
                        Difference::Different
                    } else {
                        Difference::Same
                    }
                },
                _ => Difference::Same,
            },
        ),
        How::Checksum => None,
    }
}

/// Whether a name matches a pattern in which `*` stands for any run of
/// characters, and nothing else is special.
pub open spec fn spec_matches(name: Seq<char>, pattern: Seq<char>) -> bool {
    crate::text::wild(pattern, name, false)
}

fn matches(name: &[char], pattern: &[char]) -> (b: bool)
    ensures
        b == spec_matches(name@, pattern@),
{
    crate::text::wild_match(pattern, name, false)
}

/// Whether a name matches any of the patterns somebody typed, case ignored;
/// an empty line is no pattern.
pub open spec fn spec_excluded(name: Seq<char>, patterns: Seq<String>) -> bool {
    exists|i: int|
        0 <= i < patterns.len() && ({
            let p = lower_case(trim(#[trigger] patterns[i]@));
            p.len() > 0 && spec_matches(lower_case(name), p)
        })
}

/// `str::to_lowercase`, for this module's callers.
fn lowered_text(s: &str) -> (r: Vec<char>)
    ensures
        r@ == lower_case(s@),
{
    let l = crate::editing::to_lower(s);
    chars_of(l.as_str())
}

pub fn excluded(name: &str, patterns: &[String]) -> (b: bool)
    ensures
        b == spec_excluded(name@, patterns@),
{
    let lower = lowered_text(name);
    let mut i: usize = 0;
    while i < patterns.len()
        invariant
            i <= patterns@.len(),
            lower@ == lower_case(name@),
            forall|k: int|
                0 <= k < i ==> !({
                    let p = lower_case(trim(#[trigger] patterns@[k]@));
                    p.len() > 0 && spec_matches(lower_case(name@), p)
                }),
        decreases patterns@.len() - i,
    {
        let raw = chars_of(patterns[i].as_str());
        let t = crate::text::trimmed(&raw);
        let ts = string_of(&t);
        let p = lowered_text(ts.as_str());
        if p.len() > 0 && matches(&lower, &p) {
            return true;
        }
        i = i + 1;
    }
    false
}

/// Whether an entry takes part at all: sockets, fifos and devices do not,
/// and neither does an excluded name.
pub open spec fn spec_worth_it(entry: DirEntry, excludes: Seq<String>) -> bool {
    entry.kind != EntryKind::Other && !spec_excluded(entry.name@, excludes)
}

pub fn worth_it(entry: &DirEntry, excludes: &[String]) -> (b: bool)
    ensures
        b == spec_worth_it(*entry, excludes@),
{
    match entry.kind {
        EntryKind::Other => false,
        _ => !excluded(entry.name.as_str(), excludes),
    }
}

/// The path of a name below a place already reached.
pub open spec fn spec_join(below: Seq<char>, name: Seq<char>) -> Seq<char> {
    if below.len() == 0 {
        name
    } else {
        below + seq!['/'] + name
    }
}

pub fn join(below: &str, name: &str) -> (s: String)
    ensures
        s@ == spec_join(below@, name@),
{
    if below.is_empty() {
        name.to_string()
    } else {
        crate::registry::child_relative_of(below, name)
    }
}

pub open spec fn seen_of(e: DirEntry) -> Seen {
    Seen { size: e.size, modified: e.modified }
}

/// The first entry on the other side with this name that takes part, or -1.
pub open spec fn twin_of(there: Seq<DirEntry>, name: Seq<char>, excludes: Seq<String>, i: int) -> int
    decreases there.len() - i,
{
    if i < 0 || i >= there.len() {
        -1
    } else if there[i].name@ == name && spec_worth_it(there[i], excludes) {
        i
    } else {
        twin_of(there, name, excludes, i + 1)
    }
}

/// What one row says, before any file is read: its difference, and whether
/// it can only be settled by reading both files.
pub struct RowView {
    pub path: Seq<char>,
    pub name: Seq<char>,
    pub kind: EntryKind,
    pub state: Difference,
    pub here: Option<Seen>,
    pub there: Option<Seen>,
}

pub open spec fn row_view(r: Row) -> RowView {
    RowView {
        path: r.path@,
        name: r.name@,
        kind: r.kind,
        state: r.state,
        here: r.here,
        there: r.there,
    }
}

/// The row for an entry on this side, paired with its twin if there is one.
/// A pair that needs reading is `Same` until it is read.
pub open spec fn here_row(
    e: DirEntry,
    there: Seq<DirEntry>,
    below: Seq<char>,
    how: How,
    excludes: Seq<String>,
) -> RowView {
    let t = twin_of(there, e.name@, excludes, 0);
    let path = spec_join(below, e.name@);
    if t < 0 {
        RowView {
            path,
            name: e.name@,
            kind: e.kind,
            state: Difference::OnlyHere,
            here: Some(seen_of(e)),
            there: None,
        }
    } else {
        let twin = there[t];
        let state = if spec_is_directory(e) && spec_is_directory(twin) {
            Difference::Same
        } else if spec_is_directory(e) != spec_is_directory(twin) {
            Difference::Different
        } else {
            match spec_by_listing(how, e, twin) {
                Some(d) => d,
                None => Difference::Same,
            }
        };
        RowView {
            path,
            name: e.name@,
            kind: e.kind,
            state,
            here: Some(seen_of(e)),
            there: Some(seen_of(twin)),
        }
    }
}

/// Whether the walk goes on below an entry of this side: when it is a
/// directory and the other side has no file in its place.
pub open spec fn goes_deeper(e: DirEntry, there: Seq<DirEntry>, recursive: bool, excludes: Seq<String>) -> bool {
    let t = twin_of(there, e.name@, excludes, 0);
    recursive && spec_is_directory(e) && (t < 0 || spec_is_directory(there[t]))
}

/// Whether some entry of this side, taking part or not, has this name.
pub open spec fn named_here(here: Seq<DirEntry>, name: Seq<char>) -> bool {
    exists|k: int| 0 <= k < here.len() && #[trigger] here[k].name@ == name
}

/// The row for an entry only the other side has.
pub open spec fn there_row(e: DirEntry, below: Seq<char>) -> RowView {
    RowView {
        path: spec_join(below, e.name@),
        name: e.name@,
        kind: e.kind,
        state: Difference::OnlyThere,
        here: None,
        there: Some(seen_of(e)),
    }
}

/// What one directory's two listings amount to: the rows, which of them
/// still need both files read, and where the walk goes on.
pub struct Paired {
    pub rows: Vec<Row>,
    /// Rows whose files have to be read before they are settled.
    pub unsettled: Vec<usize>,
    /// Places below this one to walk next, in order.
    pub deeper: Vec<String>,
}

fn seen(e: &DirEntry) -> (s: Seen)
    ensures
        s == seen_of(*e),
{
    Seen { size: e.size, modified: e.modified }
}

fn twin_exec(there: &[DirEntry], name: &str, excludes: &[String]) -> (r: Option<usize>)
    ensures
        match r {
            Some(i) => i < there@.len() && i as int == twin_of(there@, name@, excludes@, 0),
            None => twin_of(there@, name@, excludes@, 0) == -1,
        },
{
    let mut i: usize = 0;
    while i < there.len()
        invariant
            i <= there@.len(),
            twin_of(there@, name@, excludes@, 0) == twin_of(there@, name@, excludes@, i as int),
        decreases there@.len() - i,
    {
        if crate::text::str_eq(there[i].name.as_str(), name) && worth_it(&there[i], excludes) {
            return Some(i);
        }
        i = i + 1;
    }
    None
}

fn named_here_exec(here: &[DirEntry], name: &str) -> (b: bool)
    ensures
        b == named_here(here@, name@),
{
    let mut i: usize = 0;
    while i < here.len()
        invariant
            i <= here@.len(),
            forall|k: int| 0 <= k < i ==> #[trigger] here@[k].name@ != name@,
        decreases here@.len() - i,
    {
        if crate::text::str_eq(here[i].name.as_str(), name) {
            return true;
        }
        i = i + 1;
    }
    false
}

/// Which entries take part.
pub open spec fn taking_part(excludes: Seq<String>) -> spec_fn(DirEntry) -> bool {
    |e: DirEntry| spec_worth_it(e, excludes)
}

/// Which entries of this side the walk goes on below.
pub open spec fn walked_below(there: Seq<DirEntry>, recursive: bool, excludes: Seq<String>) -> spec_fn(
    DirEntry,
) -> bool {
    |e: DirEntry| spec_worth_it(e, excludes) && goes_deeper(e, there, recursive, excludes)
}

/// Which entries of the other side are there only.
pub open spec fn there_only(here: Seq<DirEntry>, excludes: Seq<String>) -> spec_fn(DirEntry) -> bool {
    |e: DirEntry| spec_worth_it(e, excludes) && !named_here(here, e.name@)
}

pub open spec fn rows_here(there: Seq<DirEntry>, below: Seq<char>, how: How, excludes: Seq<String>) -> spec_fn(
    DirEntry,
) -> RowView {
    |e: DirEntry| here_row(e, there, below, how, excludes)
}

pub open spec fn rows_there(below: Seq<char>) -> spec_fn(DirEntry) -> RowView {
    |e: DirEntry| there_row(e, below)
}

pub open spec fn paths_below(below: Seq<char>) -> spec_fn(DirEntry) -> Seq<char> {
    |e: DirEntry| spec_join(below, e.name@)
}

pub open spec fn row_views(rows: Seq<Row>) -> Seq<RowView> {
    rows.map_values(|r: Row| row_view(r))
}

pub open spec fn texts(v: Seq<String>) -> Seq<Seq<char>> {
    v.map_values(|s: String| s@)
}

/// Whether a row of this side can only be settled by reading both files: it
/// has a twin, neither is a directory, and the listings do not decide.
pub open spec fn needs_reading(e: DirEntry, there: Seq<DirEntry>, how: How, excludes: Seq<String>) -> bool {
    let t = twin_of(there, e.name@, excludes, 0);
    t >= 0 && !spec_is_directory(e) && !spec_is_directory(there[t]) && spec_by_listing(how, e, there[t]) is None
}

/// The places, among the rows of the entries `s`, of those rows that need
/// both files read, in order.
pub open spec fn reading_rows(s: Seq<DirEntry>, there: Seq<DirEntry>, how: How, excludes: Seq<String>) -> Seq<int>
    decreases s.len(),
{
    if s.len() == 0 {
        Seq::empty()
    } else {
        let r = reading_rows(s.drop_last(), there, how, excludes);
        if needs_reading(s.last(), there, how, excludes) {
            r.push(s.len() - 1)
        } else {
            r
        }
    }
}

pub open spec fn places(v: Seq<usize>) -> Seq<int> {
    v.map_values(|k: usize| k as int)
}

/// Pairs up one directory's two listings. Every entry of this side that
/// takes part gives a row, in order; then every entry of the other side that
/// takes part and whose name this side does not have at all.
pub fn pair_up(below: &str, here: &[DirEntry], there: &[DirEntry], how: How, recursive: bool, excludes: &[String]) -> (p: Paired)
    ensures
        row_views(p.rows@) == here@.filter(taking_part(excludes@)).map_values(
            rows_here(there@, below@, how, excludes@),
        ) + there@.filter(there_only(here@, excludes@)).map_values(rows_there(below@)),
        places(p.unsettled@) == reading_rows(here@.filter(taking_part(excludes@)), there@, how, excludes@),
        texts(p.deeper@) == here@.filter(walked_below(there@, recursive, excludes@)).map_values(
            paths_below(below@),
        ),
{
    let mut rows: Vec<Row> = Vec::new();
    let mut unsettled: Vec<usize> = Vec::new();
    let mut deeper: Vec<String> = Vec::new();
    let mut i: usize = 0;
    assert(row_views(rows@) =~= Seq::<RowView>::empty());
    assert(texts(deeper@) =~= Seq::<Seq<char>>::empty());
    assert(here@.take(0) =~= Seq::<DirEntry>::empty());
    while i < here.len()
        invariant
            i <= here@.len(),
            row_views(rows@) == here@.take(i as int).filter(taking_part(excludes@)).map_values(
                rows_here(there@, below@, how, excludes@),
            ),
            texts(deeper@) == here@.take(i as int).filter(
                walked_below(there@, recursive, excludes@),
            ).map_values(paths_below(below@)),
            places(unsettled@) == reading_rows(here@.take(i as int).filter(taking_part(excludes@)), there@, how, excludes@),
            rows@.len() == here@.take(i as int).filter(taking_part(excludes@)).len(),
        decreases here@.len() - i,
    {
        let e = &here[i];
        let ghost before_rows = rows@;
        let ghost before_deeper = deeper@;
        let ghost before_unsettled = unsettled@;
        proof {
            assert(here@.take(i + 1).drop_last() =~= here@.take(i as int));
            assert(here@.take(i + 1).last() == *e);
            reveal_with_fuel(Seq::filter, 1);
        }
        let takes_part = worth_it(e, excludes);
        if takes_part {
            let path = join(below, e.name.as_str());
            let twin = twin_exec(there, e.name.as_str(), excludes);
            let row = match twin {
                None => {
                    if recursive && e.is_directory() {
                        deeper.push(join(below, e.name.as_str()));
                    }
                    Row {
                        path,
                        name: e.name.clone(),
                        kind: e.kind,
                        state: Difference::OnlyHere,
                        here: Some(seen(e)),
                        there: None,
                    }
                },
                Some(t) => {
                    let other = &there[t];
                    let state = if e.is_directory() && other.is_directory() {
                        if recursive {
                            deeper.push(join(below, e.name.as_str()));
                        }
                        Difference::Same
                    } else if e.is_directory() != other.is_directory() {
                        Difference::Different
                    } else {
                        match by_listing(how, e, other) {
                            Some(d) => d,
                            None => {
                                unsettled.push(rows.len());
                                Difference::Same
                            },
                        }
                    };
                    Row {
                        path,
                        name: e.name.clone(),
                        kind: e.kind,
                        state,
                        here: Some(seen(e)),
                        there: Some(seen(other)),
                    }
                },
            };
            proof {
                assert(row_view(row) == here_row(*e, there@, below@, how, excludes@));
            }
            rows.push(row);
            proof {
                let f = here@.take(i + 1).filter(taking_part(excludes@));
                assert(f == here@.take(i as int).filter(taking_part(excludes@)).push(*e));
                assert(f.drop_last() =~= here@.take(i as int).filter(taking_part(excludes@)));
                if needs_reading(*e, there@, how, excludes@) {
                    assert(places(unsettled@) =~= places(before_unsettled).push(before_rows.len() as int));
                } else {
                    assert(unsettled@ == before_unsettled);
                }
                assert(row_views(rows@) =~= row_views(before_rows).push(
                    rows_here(there@, below@, how, excludes@)(*e),
                ));
                if walked_below(there@, recursive, excludes@)(*e) {
                    assert(texts(deeper@) =~= texts(before_deeper).push(paths_below(below@)(*e)));
                } else {
                    assert(deeper@ == before_deeper);
                }
            }
        } else {
            proof {
                assert(!walked_below(there@, recursive, excludes@)(*e));
            }
        }
        i = i + 1;
    }
    assert(here@.take(here@.len() as int) =~= here@);
    let ghost first_part = row_views(rows@);
    let mut j: usize = 0;
    assert(there@.take(0) =~= Seq::<DirEntry>::empty());
    assert(first_part + Seq::<DirEntry>::empty().filter(there_only(here@, excludes@)).map_values(
        rows_there(below@),
    ) =~= first_part);
    while j < there.len()
        invariant
            j <= there@.len(),
            first_part == here@.filter(taking_part(excludes@)).map_values(
                rows_here(there@, below@, how, excludes@),
            ),
            row_views(rows@) == first_part + there@.take(j as int).filter(
                there_only(here@, excludes@),
            ).map_values(rows_there(below@)),
            texts(deeper@) == here@.filter(walked_below(there@, recursive, excludes@)).map_values(
                paths_below(below@),
            ),
            places(unsettled@) == reading_rows(here@.filter(taking_part(excludes@)), there@, how, excludes@),
        decreases there@.len() - j,
    {
        let e = &there[j];
        let ghost before_rows = rows@;
        let ghost before_tail = there@.take(j as int).filter(there_only(here@, excludes@)).map_values(
            rows_there(below@),
        );
        proof {
            assert(there@.take(j + 1).drop_last() =~= there@.take(j as int));
            assert(there@.take(j + 1).last() == *e);
            reveal_with_fuel(Seq::filter, 1);
        }
        if worth_it(e, excludes) && !named_here_exec(here, e.name.as_str()) {
            let row = Row {
                path: join(below, e.name.as_str()),
                name: e.name.clone(),
                kind: e.kind,
                state: Difference::OnlyThere,
                here: None,
                there: Some(seen(e)),
            };
            proof {
                assert(row_view(row) == there_row(*e, below@));
            }
            rows.push(row);
            proof {
                assert(row_views(rows@) =~= row_views(before_rows).push(rows_there(below@)(*e)));
                assert(there@.take(j + 1).filter(there_only(here@, excludes@)).map_values(
                    rows_there(below@),
                ) =~= before_tail.push(rows_there(below@)(*e)));
            }
        }
        j = j + 1;
    }
    assert(there@.take(there@.len() as int) =~= there@);
    Paired { rows, unsettled, deeper }
}

/// Settles a row whose two files were read: the same bytes are the same.
pub fn settle(row: &mut Row, same_bytes: bool)
    ensures
        final(row).state == (if same_bytes {
            Difference::Same
        } else {
            Difference::Different
        }),
        final(row).path == old(row).path,
        final(row).name == old(row).name,
        final(row).kind == old(row).kind,
        final(row).here == old(row).here,
        final(row).there == old(row).there,
{
    row.state = if same_bytes {
        Difference::Same
    } else {
        Difference::Different
    };
}

/// Whether the walk has to stop before reading another directory: it
/// already stopped, or it has read as many as it may.
pub fn must_stop(found: &mut Comparison) -> (stop: bool)
    ensures
        stop == (old(found).cut_short || old(found).directories >= MOST_DIRECTORIES),
        final(found).cut_short == stop,
        final(found).directories == old(found).directories,
        final(found).rows == old(found).rows,
{
    if found.cut_short {
        return true;
    }
    if found.directories >= MOST_DIRECTORIES {
        found.cut_short = true;
        return true;
    }
    false
}

/// What the far side of one directory amounts to. A listing that came back
/// is taken as it is. A path that could not be listed there is a directory
/// not made yet, so it is read as empty, at the path asked for. Any other
/// failure stays a failure: a side that cannot be read is not an empty side.
pub fn far_side(listed: Result<Listing, Error>, path: String) -> (r: Result<Listing, Error>)
    ensures
        listed is Ok ==> r == listed,
        listed matches Err(Error::Path { .. }) ==> (r matches Ok(l) && l.path == path
            && l.entries@.len() == 0),
        (listed is Err && !(listed matches Err(Error::Path { .. }))) ==> r == listed,
{
    match listed {
        Err(Error::Path { .. }) => Ok(Listing { path, entries: Vec::new() }),
        other => other,
    }
}

/// Where a row goes among others in order: after every one whose path in
/// lower case comes before its own or equals it.
pub open spec fn row_place(s: Seq<Row>, x: Row) -> int
    decreases s.len(),
{
    if s.len() == 0 {
        0
    } else if text_le(lower_case(s.last().path@), lower_case(x.path@)) {
        s.len() as int
    } else {
        row_place(s.drop_last(), x)
    }
}

/// Rows in the order of their paths in lower case; rows whose paths tie keep
/// the order they were found in.
pub open spec fn row_order(s: Seq<Row>) -> Seq<Row>
    decreases s.len(),
{
    if s.len() == 0 {
        s
    } else {
        let rest = row_order(s.drop_last());
        let k = row_place(rest, s.last());
        rest.take(k) + seq![s.last()] + rest.skip(k)
    }
}

/// The rows of a finished comparison in the order they are shown: by path in
/// lower case, so a directory's contents follow it and names read
/// alphabetically; ties keep the order of the walk.
pub fn rows_in_order(found: Vec<Row>) -> (out: Vec<Row>)
    ensures
        out@ == row_order(found@),
{
    let ghost s = found@;
    let mut rest = found;
    let total = rest.len();
    assert(s.len() == total);
    let mut out: Vec<Row> = Vec::new();
    let mut keys: Vec<Vec<char>> = Vec::new();
    let mut i: usize = 0;
    assert(s.take(0) =~= Seq::<Row>::empty());
    assert(s.skip(0) =~= s);
    while rest.len() > 0
        invariant
            i <= s.len(),
            i + rest@.len() == s.len(),
            s.len() <= usize::MAX,
            rest@ == s.skip(i as int),
            out@ == row_order(s.take(i as int)),
            keys@.len() == out@.len(),
            forall|j: int| 0 <= j < out@.len() ==> (#[trigger] keys@[j])@ == lower_case(out@[j].path@),
        decreases rest@.len(),
    {
        assert(s.take(i + 1).drop_last() =~= s.take(i as int));
        assert(s.take(i + 1).last() == s[i as int]);
        let x = rest.remove(0);
        assert(rest@ =~= s.skip(i + 1));
        let kx = chars_of(crate::editing::to_lower(x.path.as_str()).as_str());
        let mut k = out.len();
        assert(out@.take(k as int) =~= out@);
        while k > 0 && !text_le_exec(&keys[k - 1], &kx)
            invariant
                k <= out@.len(),
                keys@.len() == out@.len(),
                forall|j: int| 0 <= j < out@.len() ==> (#[trigger] keys@[j])@ == lower_case(out@[j].path@),
                kx@ == lower_case(x.path@),
                row_place(out@, x) == row_place(out@.take(k as int), x),
            decreases k,
        {
            assert(out@.take(k as int).drop_last() =~= out@.take(k - 1));
            assert(out@.take(k as int).last() == out@[k - 1]);
            k = k - 1;
        }
        proof {
            if k > 0 {
                assert(out@.take(k as int).last() == out@[k - 1]);
            }
        }
        let ghost before = out@;
        let ghost keys_before = keys@;
        out.insert(k, x);
        keys.insert(k, kx);
        assert(out@ =~= before.take(k as int) + seq![x] + before.skip(k as int));
        assert forall|j: int| 0 <= j < out@.len() implies (#[trigger] keys@[j])@ == lower_case(out@[j].path@) by {
            if j < k {
                assert(keys@[j] == keys_before[j] && out@[j] == before[j]);
            } else if j > k {
                assert(keys@[j] == keys_before[j - 1] && out@[j] == before[j - 1]);
            }
        }
        i = i + 1;
    }
    assert(s.take(i as int) =~= s);
    out
}

/// Judging two entries by their listings does not depend on which side is
/// which. Different sizes always differ; by size alone equal sizes are the
/// same; with times, equal sizes differ exactly when both times are known
/// and lie more than two seconds apart, whichever side is newer; a checksum
/// leaves equal sizes to be read.
pub proof fn judging_is_symmetric_and_tolerant(how: How, a: DirEntry, b: DirEntry)
    ensures
        spec_by_listing(how, a, b) == spec_by_listing(how, b, a),
        a.size != b.size ==> spec_by_listing(how, a, b) == Some(Difference::Different),
        (a.size == b.size && how is Size) ==> spec_by_listing(how, a, b) == Some(Difference::Same),
        (a.size == b.size && how is Checksum) ==> spec_by_listing(how, a, b) is None,
        (a.size == b.size && how is SizeAndTime) ==> spec_by_listing(how, a, b) == Some(
            if a.modified is Some && b.modified is Some && (a.modified->0 - b.modified->0 > 2
                || b.modified->0 - a.modified->0 > 2) {
                Difference::Different
            } else {
                Difference::Same
            },
        ),
{
}

} // verus!

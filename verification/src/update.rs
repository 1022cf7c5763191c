//! Noticing that a newer release exists. The asking is done elsewhere; what
//! lives here is reading the answer and comparing versions, which is where
//! this sort of thing usually goes wrong.
use vstd::prelude::*;

use crate::text::{chars_of, contains_char, has_char, parse_u32, parse_unsigned, split, split_pieces, string_of, trim, trimmed, views};

verus! {

/// What a check found.
#[derive(Debug, Clone, PartialEq, Eq)]
pub struct Release {
    /// The tag as GitHub reports it, `v0.2.0` or `0.2.0`.
    pub tag: String,
    /// Version without the leading `v`, for showing.
    pub version: String,
    /// Where to read about it.
    pub url: String,
    /// What the release says about itself, as written.
    pub notes: String,
}

/// The address the check asks: the list of releases, since every release is
/// a pre-release until 1.0 and "latest" leaves those out.
pub const LATEST_RELEASE: &'static str = "https://api.github.com/repos/sphings79/amberbeam/releases?per_page=20";

/// Where to read about releases when an entry names no page of its own.
pub const RELEASES_PAGE: &'static str = "https://github.com/sphings79/amberbeam/releases";

/// `s.trim_start_matches(c)`: every leading `c` taken off.
pub open spec fn strip_leading(s: Seq<char>, c: char) -> Seq<char>
    decreases s.len(),
{
    if s.len() > 0 && s[0] == c {
        strip_leading(s.drop_first(), c)
    } else {
        s
    }
}

/// A tag without its leading `v`s and `V`s.
pub open spec fn without_v(s: Seq<char>) -> Seq<char> {
    strip_leading(strip_leading(s, 'v'), 'V')
}

/// A piece of a version that is missing reads as zero.
pub open spec fn piece_or_zero(parts: Seq<Seq<char>>, i: int) -> Seq<char> {
    if i < parts.len() {
        parts[i]
    } else {
        seq!['0']
    }
}

/// Reads `1.2.3`, `v1.2.3` or `1.2`. A pre-release suffix, a fourth number or
/// anything that is not a number is no version this program can compare.
pub open spec fn parse_version(text: Seq<char>) -> Option<(nat, nat, nat)> {
    let body = without_v(trim(text));
    let parts = split(body, '.');
    if contains_char(body, '-') || contains_char(body, '+') || parts.len() > 3 {
        None
    } else {
        match (
            parse_unsigned(parts[0], u32::MAX as nat),
            parse_unsigned(piece_or_zero(parts, 1), u32::MAX as nat),
            parse_unsigned(piece_or_zero(parts, 2), u32::MAX as nat),
        ) {
            (Some(a), Some(b), Some(c)) => Some((a, b, c)),
            _ => None,
        }
    }
}

/// Whether version `a` comes before version `b`.
pub open spec fn version_less(a: (nat, nat, nat), b: (nat, nat, nat)) -> bool {
    a.0 < b.0 || (a.0 == b.0 && (a.1 < b.1 || (a.1 == b.1 && a.2 < b.2)))
}

/// Whether `latest` is worth telling the user about: both versions read, and
/// the latest is higher. Anything unparseable answers no.
pub open spec fn spec_is_newer(current: Seq<char>, latest: Seq<char>) -> bool {
    match (parse_version(current), parse_version(latest)) {
        (Some(c), Some(l)) => version_less(c, l),
        _ => false,
    }
}

/// Newer is an order: no version is newer than itself, of two versions at
/// most one is newer than the other, and newer than newer is newer.
pub proof fn newer_is_an_order(a: Seq<char>, b: Seq<char>, c: Seq<char>)
    ensures
        !spec_is_newer(a, a),
        spec_is_newer(a, b) ==> !spec_is_newer(b, a),
        spec_is_newer(a, b) && spec_is_newer(b, c) ==> spec_is_newer(a, c),
{
}

fn strip_leading_exec(v: &[char], c: char) -> (out: Vec<char>)
    ensures
        out@ == strip_leading(v@, c),
{
    let mut i: usize = 0;
    assert(v@.skip(0) =~= v@);
    while i < v.len() && v[i] == c
        invariant
            i <= v@.len(),
            strip_leading(v@, c) == strip_leading(v@.skip(i as int), c),
        decreases v@.len() - i,
    {
        assert(v@.skip(i as int).drop_first() =~= v@.skip(i + 1));
        i = i + 1;
    }
    let out = crate::text::slice_range(v, i, v.len());
    assert(out@ =~= v@.skip(i as int));
    out
}

fn without_v_exec(v: &[char]) -> (out: Vec<char>)
    ensures
        out@ == without_v(v@),
{
    let a = strip_leading_exec(v, 'v');
    strip_leading_exec(&a, 'V')
}

/// A version as three numbers.
fn parse_version_exec(text: &[char]) -> (r: Option<(u32, u32, u32)>)
    ensures
        match r {
            Some((a, b, c)) => parse_version(text@) == Some((a as nat, b as nat, c as nat)),
            None => parse_version(text@) is None,
        },
{
    let t = trimmed(text);
    let body = without_v_exec(&t);
    let parts = split_pieces(&body, '.');
    proof {
        crate::text::lemma_split_not_empty(body@, '.');
    }
    if has_char(&body, '-') || has_char(&body, '+') || parts.len() > 3 {
        return None;
    }
    let zero: Vec<char> = vec!['0'];
    assert(zero@ =~= seq!['0']);
    let major = parse_u32(&parts[0]);
    let minor = if parts.len() > 1 {
        parse_u32(&parts[1])
    } else {
        parse_u32(&zero)
    };
    let patch = if parts.len() > 2 {
        parse_u32(&parts[2])
    } else {
        parse_u32(&zero)
    };
    proof {
        assert(views(parts@)[0] == parts@[0]@);
        if parts@.len() > 1 {
            assert(views(parts@)[1] == parts@[1]@);
        }
        if parts@.len() > 2 {
            assert(views(parts@)[2] == parts@[2]@);
        }
    }
    match (major, minor, patch) {
        (Some(a), Some(b), Some(c)) => Some((a, b, c)),
        _ => None,
    }
}

/// Whether `latest` is worth telling the user about.
pub fn is_newer(current: &str, latest: &str) -> (b: bool)
    ensures
        b == spec_is_newer(current@, latest@),
{
    let c = chars_of(current);
    let l = chars_of(latest);
    match (parse_version_exec(&c), parse_version_exec(&l)) {
        (Some(c), Some(l)) => c.0 < l.0 || (c.0 == l.0 && (c.1 < l.1 || (c.1 == l.1 && c.2 < l.2))),
        _ => false,
    }
}

/// One entry of the answer, as far as a release is read out of it.
#[derive(Debug, Clone)]
pub struct ReleaseEntry {
    /// `draft`, where it is a boolean.
    pub draft: Option<bool>,
    /// `tag_name`, where it is text.
    pub tag: Option<String>,
    /// `body`, where it is text.
    pub notes: Option<String>,
    /// `html_url`, where it is text.
    pub url: Option<String>,
}

/// An entry as plain values: draft flag, tag, notes, page.
pub type EntryFields = (Option<bool>, Option<Seq<char>>, Option<Seq<char>>, Option<Seq<char>>);

/// A release as plain values: tag, version, page, notes.
pub type ReleaseFields = (Seq<char>, Seq<char>, Seq<char>, Seq<char>);

pub open spec fn text_of(s: Option<String>) -> Option<Seq<char>> {
    match s {
        Some(t) => Some(t@),
        None => None,
    }
}

pub open spec fn entry_fields(e: ReleaseEntry) -> EntryFields {
    (e.draft, text_of(e.tag), text_of(e.notes), text_of(e.url))
}

pub open spec fn release_fields(r: Release) -> ReleaseFields {
    (r.tag@, r.version@, r.url@, r.notes@)
}

/// The entries of a GitHub answer, read as JSON: those of the list, or the one
/// object when the answer is a single release. `None` where the text is not
/// JSON at all.
pub uninterp spec fn json_release_entries(text: Seq<char>) -> Option<Seq<EntryFields>>;

/// Parses the answer with `serde_json::from_str` into a `serde_json::Value`,
/// takes its elements when it is an array (else the value itself), and reads
/// `draft` with `as_bool` and `tag_name`, `body` and `html_url` with `as_str`.
/// Claimed: the result is `json_release_entries` of the text, a function of
/// the text alone; nothing is claimed about which texts are JSON.
#[verifier::external_body]
fn release_entries(json: &str) -> (r: Option<Vec<ReleaseEntry>>)
    ensures
        match r {
            Some(v) => json_release_entries(json@) == Some(
                v@.map_values(|e: ReleaseEntry| entry_fields(e)),
            ),
            None => json_release_entries(json@) is None,
        },
{
    let value: serde_json::Value = serde_json::from_str(json).ok()?;
    let items: Vec<&serde_json::Value> = match value.as_array() {
        Some(list) => list.iter().collect(),
        None => vec![&value],
    };
    let text = |e: &serde_json::Value, key: &str| e.get(key).and_then(|t| t.as_str()).map(String::from);
    Some(items.iter().map(|e| ReleaseEntry {
        draft: e.get("draft").and_then(|d| d.as_bool()),
        tag: text(e, "tag_name"),
        notes: text(e, "body"),
        url: text(e, "html_url"),
    }).collect())
}

/// The release an entry describes: not a draft, with a tag, and a tag this
/// program can compare. Missing notes read as nothing, a missing page as the
/// page of all releases.
pub open spec fn release_of(e: EntryFields) -> Option<ReleaseFields> {
    match e.1 {
        None => None,
        Some(tag) => if e.0 == Some(true) || parse_version(without_v(tag)) is None {
            None
        } else {
            Some(
                (
                    tag,
                    without_v(tag),
                    match e.3 {
                        Some(u) => u,
                        None => RELEASES_PAGE@,
                    },
                    match e.2 {
                        Some(n) => n,
                        None => Seq::<char>::empty(),
                    },
                ),
            )
        },
    }
}

/// The newest release among the entries: the highest version, and of equal
/// ones the last. The order of the list is not trusted.
pub open spec fn newest_of(entries: Seq<EntryFields>) -> Option<ReleaseFields>
    decreases entries.len(),
{
    if entries.len() == 0 {
        None
    } else {
        let best = newest_of(entries.drop_last());
        match release_of(entries.last()) {
            None => best,
            Some(r) => match best {
                None => Some(r),
                Some(b) => if version_less(
                    parse_version(r.1)->Some_0,
                    parse_version(b.1)->Some_0,
                ) {
                    Some(b)
                } else {
                    Some(r)
                },
            },
        }
    }
}

/// Every release `newest_of` picks carries a version that reads.
proof fn lemma_newest_reads(entries: Seq<EntryFields>)
    ensures
        newest_of(entries) is Some ==> parse_version(newest_of(entries)->Some_0.1) is Some,
    decreases entries.len(),
{
    if entries.len() > 0 {
        lemma_newest_reads(entries.drop_last());
    }
}

fn text_or(s: &Option<String>, fallback: &str) -> (r: String)
    ensures
        r@ == match text_of(*s) {
            Some(t) => t,
            None => fallback@,
        },
{
    match s {
        Some(t) => t.clone(),
        None => fallback.to_string(),
    }
}

/// Picks the newest release out of the entries of an answer.
pub fn newest_release(entries: &[ReleaseEntry]) -> (r: Option<Release>)
    ensures
        match r {
            Some(rel) => newest_of(entries@.map_values(|e: ReleaseEntry| entry_fields(e))) == Some(
                release_fields(rel),
            ),
            None => newest_of(entries@.map_values(|e: ReleaseEntry| entry_fields(e))) is None,
        },
{
    let ghost all = entries@.map_values(|e: ReleaseEntry| entry_fields(e));
    let mut best: Option<(Release, (u32, u32, u32))> = None;
    let mut i: usize = 0;
    while i < entries.len()
        invariant
            i <= entries@.len(),
            all == entries@.map_values(|e: ReleaseEntry| entry_fields(e)),
            match best {
                Some((rel, key)) => newest_of(all.take(i as int)) == Some(release_fields(rel))
                    && parse_version(rel.version@) == Some((key.0 as nat, key.1 as nat, key.2 as nat)),
                None => newest_of(all.take(i as int)) is None,
            },
        decreases entries@.len() - i,
    {
        proof {
            assert(all.take(i + 1).drop_last() =~= all.take(i as int));
            assert(all.take(i + 1).last() == entry_fields(entries@[i as int]));
        }
        let e = &entries[i];
        let draft = match e.draft {
            Some(true) => true,
            _ => false,
        };
        if !draft {
            if let Some(tag) = &e.tag {
                let tv = chars_of(tag.as_str());
                let version = without_v_exec(&tv);
                if let Some(key) = parse_version_exec(&version) {
                    let rel = Release {
                        tag: tag.clone(),
                        version: string_of(&version),
                        url: text_or(&e.url, RELEASES_PAGE),
                        notes: text_or(&e.notes, ""),
                    };
                    proof {
                        reveal_strlit("");
                        assert(release_of(entry_fields(*e)) == Some(release_fields(rel)));
                    }
                    let keep_old = match &best {
                        Some((_, old)) => key.0 < old.0 || (key.0 == old.0 && (key.1 < old.1 || (
                        key.1 == old.1 && key.2 < old.2))),
                        None => false,
                    };
                    if !keep_old {
                        best = Some((rel, key));
                    }
                }
            }
        }
        i = i + 1;
    }
    assert(all.take(entries@.len() as int) =~= all);
    match best {
        Some((rel, _)) => Some(rel),
        None => None,
    }
}

/// Reads the newest release out of what GitHub answered: drafts are passed
/// over, tags that cannot be compared are not offered, and the highest version
/// wins whatever its place in the list.
pub fn read_answer(json: &str) -> (r: Option<Release>)
    ensures
        match json_release_entries(json@) {
            None => r is None,
            Some(entries) => match r {
                Some(rel) => newest_of(entries) == Some(release_fields(rel)),
                None => newest_of(entries) is None,
            },
        },
{
    match release_entries(json) {
        Some(entries) => newest_release(&entries),
        None => None,
    }
}

} // verus!

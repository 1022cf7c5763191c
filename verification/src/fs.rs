//! What a directory listing looks like, wherever it came from.
use vstd::prelude::*;

use crate::text::{chars_of, push_char, rfind_before, rfind_char_before, lemma_rfind_before, slice_range, string_of, string_of_range};

verus! {

/// What an entry is.
#[derive(Debug, Clone, Copy, PartialEq, Eq, Structural)]
pub enum EntryKind {
    File,
    Directory,
    /// A symbolic link; where it points is in [`DirEntry::link_target`].
    Symlink,
    /// Sockets, fifos, devices. Listed, never transferred.
    Other,
}

/// Access bits as a server reports them, in the shape `ls` prints.
#[derive(Debug, Clone, Copy, PartialEq, Eq, Structural)]
pub struct Permissions(pub u32);

pub open spec fn flag(on: bool, letter: char) -> char {
    if on {
        letter
    } else {
        '-'
    }
}

/// The nine rwx letters of a mode, owner first.
pub open spec fn rwx(mode: u32) -> Seq<char> {
    seq![
        flag(mode & 0o400 != 0, 'r'),
        flag(mode & 0o200 != 0, 'w'),
        flag(mode & 0o100 != 0, 'x'),
        flag(mode & 0o040 != 0, 'r'),
        flag(mode & 0o020 != 0, 'w'),
        flag(mode & 0o010 != 0, 'x'),
        flag(mode & 0o004 != 0, 'r'),
        flag(mode & 0o002 != 0, 'w'),
        flag(mode & 0o001 != 0, 'x'),
    ]
}

fn flag_of(on: bool, letter: char) -> (c: char)
    ensures
        c == flag(on, letter),
{
    if on {
        letter
    } else {
        '-'
    }
}

impl Permissions {
    /// The nine rwx bits as text, without the leading type character.
    pub fn to_rwx(self) -> (s: String)
        ensures
            s@ == rwx(self.0),
    {
        let m = self.0;
        let mut s = String::new();
        push_char(&mut s, flag_of(m & 0o400 != 0, 'r'));
        push_char(&mut s, flag_of(m & 0o200 != 0, 'w'));
        push_char(&mut s, flag_of(m & 0o100 != 0, 'x'));
        push_char(&mut s, flag_of(m & 0o040 != 0, 'r'));
        push_char(&mut s, flag_of(m & 0o020 != 0, 'w'));
        push_char(&mut s, flag_of(m & 0o010 != 0, 'x'));
        push_char(&mut s, flag_of(m & 0o004 != 0, 'r'));
        push_char(&mut s, flag_of(m & 0o002 != 0, 'w'));
        push_char(&mut s, flag_of(m & 0o001 != 0, 'x'));
        assert(s@ =~= rwx(m));
        s
    }
}

/// One row in a file list.
#[derive(Debug, Clone, PartialEq, Eq)]
pub struct DirEntry {
    /// File name only, never a path. Kept as the server sent it.
    pub name: String,
    pub kind: EntryKind,
    /// Size in bytes, where the endpoint reports one.
    pub size: Option<u64>,
    /// Modification time in seconds since the Unix epoch.
    pub modified: Option<i64>,
    pub permissions: Option<Permissions>,
    /// Owner as text where the endpoint gives a name, otherwise the numeric id.
    pub owner: Option<String>,
    pub group: Option<String>,
    /// Where a symlink points, verbatim.
    pub link_target: Option<String>,
    /// What a symlink points at, when that is known.
    pub kind_of_target: Option<EntryKind>,
}

/// A row as plain values.
pub struct EntryView {
    pub name: Seq<char>,
    pub kind: EntryKind,
    pub size: Option<u64>,
    pub modified: Option<i64>,
    pub permissions: Option<Permissions>,
    pub owner: Option<Seq<char>>,
    pub group: Option<Seq<char>>,
    pub link_target: Option<Seq<char>>,
    pub kind_of_target: Option<EntryKind>,
}

impl View for DirEntry {
    type V = EntryView;

    open spec fn view(&self) -> EntryView {
        EntryView {
            name: self.name@,
            kind: self.kind,
            size: self.size,
            modified: self.modified,
            permissions: self.permissions,
            owner: crate::text::opt_text(self.owner),
            group: crate::text::opt_text(self.group),
            link_target: crate::text::opt_text(self.link_target),
            kind_of_target: self.kind_of_target,
        }
    }
}

/// An optional row as plain values.
pub open spec fn entry_opt(e: Option<DirEntry>) -> Option<EntryView> {
    match e {
        Some(x) => Some(x@),
        None => None,
    }
}

pub open spec fn spec_is_directory(e: DirEntry) -> bool {
    match e.kind {
        EntryKind::Directory => true,
        EntryKind::Symlink => e.kind_of_target == Some(EntryKind::Directory),
        _ => false,
    }
}

impl DirEntry {
    /// Whether entering this row leads into a directory.
    pub fn is_directory(&self) -> (b: bool)
        ensures
            b == spec_is_directory(*self),
    {
        match self.kind {
            EntryKind::Directory => true,
            EntryKind::Symlink => match self.kind_of_target {
                Some(EntryKind::Directory) => true,
                _ => false,
            },
            _ => false,
        }
    }

    /// Whether the entry is hidden by convention: its name starts with a dot.
    pub fn is_hidden(&self) -> (b: bool)
        ensures
            b == (self.name@.len() > 0 && self.name@[0] == '.'),
    {
        let name = chars_of(self.name.as_str());
        name.len() > 0 && name[0] == '.'
    }
}

/// A finished listing of one directory.
#[derive(Debug, Clone)]
pub struct Listing {
    /// Absolute path that was read, in the endpoint's own notation.
    pub path: String,
    pub entries: Vec<DirEntry>,
}

/// A directory and a name joined with exactly one `/` between them.
pub open spec fn spec_join_remote(directory: Seq<char>, name: Seq<char>) -> Seq<char> {
    if directory.len() > 0 && directory.last() == '/' {
        directory + name
    } else {
        directory.push('/') + name
    }
}

/// Joins a directory and a name the way a server expects it.
pub fn join_remote(directory: &str, name: &str) -> (s: String)
    ensures
        s@ == spec_join_remote(directory@, name@),
{
    let d = chars_of(directory);
    let n = chars_of(name);
    let mut all = d.clone();
    if !(d.len() > 0 && d[d.len() - 1] == '/') {
        all.push('/');
    }
    let ghost before = all@;
    let mut i: usize = 0;
    while i < n.len()
        invariant
            i <= n@.len(),
            all@ == before + n@.take(i as int),
        decreases n@.len() - i,
    {
        all.push(n[i]);
        i = i + 1;
        assert(before + n@.take(i as int) =~= (before + n@.take(i - 1)).push(n@[i - 1]));
    }
    assert(n@.take(n@.len() as int) =~= n@);
    string_of(&all)
}

/// One past the last character before `j` that is not `c`, or zero.
pub open spec fn back_while(s: Seq<char>, c: char, j: int) -> int
    decreases j,
{
    if j <= 0 {
        0
    } else if s[j - 1] == c {
        back_while(s, c, j - 1)
    } else {
        j
    }
}

pub proof fn lemma_back_while(s: Seq<char>, c: char, j: int)
    requires
        0 <= j <= s.len(),
    ensures
        0 <= back_while(s, c, j) <= j,
    decreases j,
{
    if j > 0 && s[j - 1] == c {
        lemma_back_while(s, c, j - 1);
    }
}

/// The path with every trailing `/` taken off.
pub open spec fn without_trailing_slashes(s: Seq<char>) -> Seq<char> {
    s.take(back_while(s, '/', s.len() as int))
}

/// A path without its trailing slashes.
pub fn trailing_slashes_off(p: &[char]) -> (t: Vec<char>)
    ensures
        t@ == without_trailing_slashes(p@),
{
    let mut end = p.len();
    while end > 0 && p[end - 1] == '/'
        invariant
            end <= p@.len(),
            back_while(p@, '/', p@.len() as int) == back_while(p@, '/', end as int),
        decreases end,
    {
        end = end - 1;
    }
    proof {
        lemma_back_while(p@, '/', p@.len() as int);
    }
    let t = slice_range(p, 0, end);
    assert(t@ =~= without_trailing_slashes(p@));
    t
}

/// The directory above a POSIX path, or `None` at the root.
pub open spec fn spec_parent_remote(path: Seq<char>) -> Option<Seq<char>> {
    let t = without_trailing_slashes(path);
    if t.len() == 0 {
        None
    } else {
        let i = rfind_before(t, '/', t.len() as int);
        if i == 0 {
            Some(seq!['/'])
        } else if i > 0 {
            Some(t.take(i))
        } else {
            None
        }
    }
}

/// The directory above a POSIX path, or `None` at the root.
pub fn parent_remote(path: &str) -> (r: Option<String>)
    ensures
        match r {
            Some(s) => spec_parent_remote(path@) == Some(s@),
            None => spec_parent_remote(path@) is None,
        },
{
    let p = chars_of(path);
    let mut end = p.len();
    while end > 0 && p[end - 1] == '/'
        invariant
            end <= p@.len(),
            back_while(p@, '/', p@.len() as int) == back_while(p@, '/', end as int),
        decreases end,
    {
        end = end - 1;
    }
    proof {
        lemma_back_while(p@, '/', p@.len() as int);
    }
    let t = slice_range(&p, 0, end);
    assert(t@ =~= without_trailing_slashes(p@));
    if t.len() == 0 {
        return None;
    }
    match rfind_char_before(&t, '/', t.len()) {
        Some(0) => {
            let mut v = Vec::new();
            v.push('/');
            assert(v@ =~= seq!['/']);
            Some(string_of(&v))
        },
        Some(i) => {
            proof {
                lemma_rfind_before(t@, '/', t@.len() as int);
            }
            Some(string_of_range(&t, 0, i))
        },
        None => None,
    }
}

} // verus!

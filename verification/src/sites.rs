//! The server list: one readable JSON file per entry, in folders that are
//! folders. The tree on screen is the tree on disk, so what lives here is how
//! an entry and a folder are named on disk and how the list is ordered; the
//! reading and writing of the files is the caller's.
//!
//! Never a password in any of these files: a site refers to its secrets by
//! [`Site::id`].
use vstd::prelude::*;

use crate::config::AuthKind;
use crate::endpoint::Protocol;
use crate::ftp::Encryption;
use crate::text::{chars_of, string_of, trim};

verus! {

/// A site entry as it lands on disk: everything a connection needs, and no
/// password, passphrase, or field that might one day hold either.
#[derive(Debug, Clone, PartialEq, Eq)]
pub struct Site {
    /// Stable for the life of the entry; what the credential store files the
    /// password under.
    pub id: String,
    pub name: String,
    pub protocol: Protocol,
    pub host: String,
    pub port: u16,
    pub user: String,
    pub auth: AuthKind,
    pub key_path: Option<String>,
    /// Directory the server side opens in.
    pub remote_path: Option<String>,
    /// Open where this server was last left instead of at `remote_path`.
    pub remember_path: bool,
    /// Directory the local side opens in.
    pub local_path: Option<String>,
    pub concurrency: u8,
    pub retries: Option<u8>,
    pub temporary_name: Option<bool>,
    /// FTP only: how the connection is encrypted.
    pub encryption: Option<Encryption>,
    /// FTP only.
    pub passive: Option<bool>,
    /// FTP only: the server does not speak UTF-8.
    pub latin1: Option<bool>,
    /// FTP only: seconds between keep-alive commands on an idle connection.
    pub keep_alive: Option<u32>,
    /// Whether this entry's password is kept in the credential store at all.
    pub remember_password: bool,
    /// A directory on the server that deleted files are moved into instead.
    pub wastebasket: Option<String>,
    /// Whether to count what a delete would take before asking about it.
    pub count_before_delete: bool,
    /// What a program driving this one may do on this server.
    pub mcp_see: bool,
    pub mcp_upload: bool,
    pub mcp_download: bool,
    pub mcp_create: bool,
    pub mcp_rename: bool,
    pub mcp_remove: bool,
    /// Names a comparison and a watch never look at, as patterns.
    pub excludes: Vec<String>,
    /// Colour marking in the list.
    pub colour: Option<String>,
}

/// One entry together with where it sits in the tree: `""` for the top
/// level, otherwise `Kunden/Müller`.
#[derive(Debug, Clone, PartialEq, Eq)]
pub struct Filed {
    pub folder: String,
    pub site: Site,
}

/// A lower-case hexadecimal digit.
pub open spec fn hex_char(d: nat) -> char {
    if d < 10 {
        (d + 48) as char
    } else {
        (d + 87) as char
    }
}

/// A number in lower-case hexadecimal, as `{:x}` prints it.
pub open spec fn hex(n: nat) -> Seq<char>
    decreases n,
{
    if n < 16 {
        seq![hex_char(n)]
    } else {
        hex(n / 16).push(hex_char(n % 16))
    }
}

fn hex_of(n: u64) -> (v: Vec<char>)
    ensures
        v@ == hex(n as nat),
    decreases n,
{
    let d = (n % 16) as u32;
    let c = if d < 10 {
        crate::text::char_from(d + 48)
    } else {
        crate::text::char_from(d + 87)
    };
    if n < 16 {
        let mut v = Vec::new();
        v.push(c);
        assert(v@ =~= seq![hex_char(n as nat)]);
        v
    } else {
        let mut v = hex_of(n / 16);
        v.push(c);
        v
    }
}

/// The identifier made of a time in milliseconds and a count: both in
/// hexadecimal, a dash between.
pub open spec fn spec_id_from(millis: nat, count: nat) -> Seq<char> {
    hex(millis) + seq!['-'] + hex(count)
}

impl Site {
    /// An identifier from a time and a count: unique among one person's
    /// entries, and sorting by age.
    pub fn id_from(millis: u64, count: u32) -> (id: String)
        ensures
            id@ == spec_id_from(millis as nat, count as nat),
    {
        let mut v = hex_of(millis);
        v.push('-');
        let c = hex_of(count as u64);
        crate::text::append_chars(&mut v, &c);
        string_of(&v)
    }
}

fn copy_text(s: &Option<String>) -> (r: Option<String>)
    ensures
        r == *s,
{
    match s {
        Some(t) => Some(t.clone()),
        None => None,
    }
}

fn copy_texts(v: &Vec<String>) -> (r: Vec<String>)
    ensures
        r@ == v@,
{
    let mut out: Vec<String> = Vec::new();
    let mut i: usize = 0;
    while i < v.len()
        invariant
            i <= v@.len(),
            out@ == v@.take(i as int),
        decreases v@.len() - i,
    {
        out.push(v[i].clone());
        i = i + 1;
        assert(out@ =~= v@.take(i as int));
    }
    assert(v@.take(v@.len() as int) =~= v@);
    out
}

impl Site {
    /// The same entry, field for field.
    pub fn copy(&self) -> (s: Site)
        ensures
            s == (Site { excludes: s.excludes, ..*self }),
            s.excludes@ == self.excludes@,
    {
        let excludes = copy_texts(&self.excludes);
        Site {
            id: self.id.clone(),
            name: self.name.clone(),
            protocol: self.protocol,
            host: self.host.clone(),
            port: self.port,
            user: self.user.clone(),
            auth: self.auth,
            key_path: copy_text(&self.key_path),
            remote_path: copy_text(&self.remote_path),
            remember_path: self.remember_path,
            local_path: copy_text(&self.local_path),
            concurrency: self.concurrency,
            retries: self.retries,
            temporary_name: self.temporary_name,
            encryption: self.encryption,
            passive: self.passive,
            latin1: self.latin1,
            keep_alive: self.keep_alive,
            remember_password: self.remember_password,
            wastebasket: copy_text(&self.wastebasket),
            count_before_delete: self.count_before_delete,
            mcp_see: self.mcp_see,
            mcp_upload: self.mcp_upload,
            mcp_download: self.mcp_download,
            mcp_create: self.mcp_create,
            mcp_rename: self.mcp_rename,
            mcp_remove: self.mcp_remove,
            excludes,
            colour: copy_text(&self.colour),
        }
    }
}

/// Whether a character is one a file system refuses in a name.
pub open spec fn refused(c: char) -> bool {
    c == '/' || c == '\\' || c == ':' || c == '*' || c == '?' || c == '"' || c == '<' || c == '>'
        || c == '|' || (c as u32) < 0x20
}

/// Every leading or trailing dot off, after the white space.
pub open spec fn trim_dots_end(s: Seq<char>) -> Seq<char>
    decreases s.len(),
{
    if s.len() > 0 && s.last() == '.' {
        trim_dots_end(s.drop_last())
    } else {
        s
    }
}

/// A name usable as one path segment: the characters a file system would
/// refuse made dashes, white space and trailing dots off, and `unnamed` for
/// what is left empty or means something else.
pub open spec fn spec_safe_segment(name: Seq<char>) -> Seq<char> {
    let cleaned = name.map_values(|c: char| if refused(c) { '-' } else { c });
    let t = trim_dots_end(trim(cleaned));
    if t.len() == 0 || t == seq!['.'] || t == seq!['.', '.'] {
        "unnamed"@
    } else {
        t
    }
}

/// Keeps a name usable as one path segment without inventing a different one.
pub fn safe_segment(name: &str) -> (out: String)
    ensures
        out@ == spec_safe_segment(name@),
{
    let v = chars_of(name);
    let mut cleaned: Vec<char> = Vec::new();
    let mut i: usize = 0;
    while i < v.len()
        invariant
            i <= v@.len(),
            cleaned@ == v@.take(i as int).map_values(|c: char| if refused(c) { '-' } else { c }),
        decreases v@.len() - i,
    {
        let c = v[i];
        let d = if c == '/' || c == '\\' || c == ':' || c == '*' || c == '?' || c == '"' || c
            == '<' || c == '>' || c == '|' || (c as u32) < 0x20 {
            '-'
        } else {
            c
        };
        cleaned.push(d);
        i = i + 1;
        assert(v@.take(i as int).map_values(|c: char| if refused(c) { '-' } else { c })
            =~= v@.take(i - 1).map_values(|c: char| if refused(c) { '-' } else { c }).push(d));
    }
    assert(v@.take(v@.len() as int) =~= v@);
    let t = crate::text::trimmed(&cleaned);
    let mut end = t.len();
    assert(t@.take(end as int) =~= t@);
    while end > 0 && t[end - 1] == '.'
        invariant
            end <= t@.len(),
            trim_dots_end(t@) == trim_dots_end(t@.take(end as int)),
        decreases end,
    {
        assert(t@.take(end as int).drop_last() =~= t@.take(end - 1));
        end = end - 1;
    }
    let out = crate::text::slice_range(&t, 0, end);
    assert(out@ =~= t@.take(end as int));
    proof {
        if out@.len() > 0 {
            assert(out@.last() == t@[end - 1]);
        }
    }
    if out.len() == 0 || (out.len() == 1 && out[0] == '.') || (out.len() == 2 && out[0] == '.'
        && out[1] == '.') {
        proof {
            if out@.len() == 1 {
                assert(out@ =~= seq!['.']);
            }
            if out@.len() == 2 {
                assert(out@ =~= seq!['.', '.']);
            }
        }
        "unnamed".to_string()
    } else {
        proof {
            if out@ == seq!['.'] {
                assert(out@.len() == 1 && out@[0] == '.');
            }
            if out@ == seq!['.', '.'] {
                assert(out@.len() == 2 && out@[0] == '.' && out@[1] == '.');
            }
        }
        string_of(&out)
    }
}

/// The non-empty segments of a folder written with slashes.
pub open spec fn folder_parts(folder: Seq<char>) -> Seq<Seq<char>> {
    crate::import::filezilla::non_empty(crate::text::split(folder, '/'))
}

/// Each segment of a folder as it is named on disk.
pub open spec fn spec_folder_segments(folder: Seq<char>) -> Seq<Seq<char>> {
    folder_parts(folder).map_values(|p: Seq<char>| spec_safe_segment(p))
}

/// The server list, at a directory of its own.
#[derive(Debug, Clone)]
pub struct Sites {
    pub root: String,
}

impl Sites {
    pub fn at(root: &str) -> (s: Sites)
        ensures
            s.root@ == root@,
    {
        Sites { root: root.to_string() }
    }

    /// The directories under the root that a folder is, each made safe.
    pub fn folder_segments(folder: &str) -> (out: Vec<String>)
        ensures
            out@.map_values(|s: String| s@) == spec_folder_segments(folder@),
    {
        let f = chars_of(folder);
        let pieces = crate::text::split_pieces(&f, '/');
        let ghost pv = crate::text::views(pieces@);
        let mut out: Vec<String> = Vec::new();
        let mut i: usize = 0;
        while i < pieces.len()
            invariant
                i <= pieces@.len(),
                pv == crate::text::views(pieces@),
                pv == crate::text::split(folder@, '/'),
                out@.map_values(|s: String| s@) == crate::import::filezilla::non_empty(
                    pv.take(i as int),
                ).map_values(|p: Seq<char>| spec_safe_segment(p)),
            decreases pieces@.len() - i,
        {
            assert(pv.take(i + 1).drop_last() =~= pv.take(i as int));
            assert(pv.take(i + 1).last() == pieces@[i as int]@);
            if pieces[i].len() > 0 {
                let ghost before = out@;
                let piece = string_of(&pieces[i]);
                let seg = safe_segment(piece.as_str());
                out.push(seg);
                assert(out@.map_values(|s: String| s@) =~= before.map_values(|s: String| s@).push(
                    seg@,
                ));
                assert(crate::import::filezilla::non_empty(pv.take(i + 1)) == crate::import::filezilla::non_empty(
                    pv.take(i as int),
                ).push(pieces@[i as int]@));
                assert(crate::import::filezilla::non_empty(pv.take(i + 1)).map_values(
                    |p: Seq<char>| spec_safe_segment(p),
                ) =~= crate::import::filezilla::non_empty(pv.take(i as int)).map_values(
                    |p: Seq<char>| spec_safe_segment(p),
                ).push(spec_safe_segment(pieces@[i as int]@)));
            }
            i = i + 1;
        }
        assert(pv.take(pieces@.len() as int) =~= pv);
        out
    }

    /// The file name an entry of a given name gets.
    pub fn file_name(name: &str) -> (out: String)
        ensures
            out@ == spec_safe_segment(name@) + ".json"@,
    {
        let s = safe_segment(name);
        let mut v = chars_of(s.as_str());
        let ext = chars_of(".json");
        crate::text::append_chars(&mut v, &ext);
        string_of(&v)
    }
}

/// Whether one text comes before another or is the same, the way `str`s
/// compare: character by character, a shorter text before a longer one it
/// begins. Comparing the bytes of UTF-8 and the characters gives one order.
pub open spec fn text_le(a: Seq<char>, b: Seq<char>) -> bool
    decreases a.len(),
{
    if a.len() == 0 {
        true
    } else if b.len() == 0 {
        false
    } else if a[0] != b[0] {
        a[0] < b[0]
    } else {
        text_le(a.drop_first(), b.drop_first())
    }
}

/// What the list is ordered by: the folder, then the name, both in lower
/// case.
pub open spec fn list_key(f: Filed) -> (Seq<char>, Seq<char>) {
    (crate::editing::lower_case(f.folder@), crate::editing::lower_case(f.site.name@))
}

/// Whether one key comes before another or ties with it.
pub open spec fn key_le(x: (Seq<char>, Seq<char>), y: (Seq<char>, Seq<char>)) -> bool {
    (text_le(x.0, y.0) && x.0 != y.0) || (x.0 == y.0 && text_le(x.1, y.1))
}

/// Where an entry goes among others in list order: after every one that
/// comes before it or ties with it.
pub open spec fn list_place(s: Seq<Filed>, x: Filed) -> int
    decreases s.len(),
{
    if s.len() == 0 {
        0
    } else if key_le(list_key(s.last()), list_key(x)) {
        s.len() as int
    } else {
        list_place(s.drop_last(), x)
    }
}

/// The entries in list order; entries that tie keep the order they came in.
pub open spec fn list_order(s: Seq<Filed>) -> Seq<Filed>
    decreases s.len(),
{
    if s.len() == 0 {
        s
    } else {
        let rest = list_order(s.drop_last());
        let k = list_place(rest, s.last());
        rest.take(k) + seq![s.last()] + rest.skip(k)
    }
}

pub open spec fn in_list_order(s: Seq<Filed>) -> bool {
    forall|i: int, j: int| 0 <= i < j < s.len() ==> key_le(list_key(s[i]), list_key(s[j]))
}

proof fn lemma_text_le_total(a: Seq<char>, b: Seq<char>)
    ensures
        text_le(a, b) || text_le(b, a),
        text_le(a, b) && text_le(b, a) ==> a == b,
    decreases a.len(),
{
    if a.len() > 0 && b.len() > 0 && a[0] == b[0] {
        lemma_text_le_total(a.drop_first(), b.drop_first());
        if text_le(a, b) && text_le(b, a) {
            assert(a =~= seq![a[0]] + a.drop_first());
            assert(b =~= seq![b[0]] + b.drop_first());
        }
    } else if a.len() == 0 && b.len() == 0 {
        assert(a =~= b);
    }
}

proof fn lemma_text_le_transitive(a: Seq<char>, b: Seq<char>, c: Seq<char>)
    requires
        text_le(a, b),
        text_le(b, c),
    ensures
        text_le(a, c),
    decreases a.len(),
{
    if a.len() > 0 && b.len() > 0 && c.len() > 0 && a[0] == b[0] && b[0] == c[0] {
        lemma_text_le_transitive(a.drop_first(), b.drop_first(), c.drop_first());
    }
}

proof fn lemma_key_le(x: (Seq<char>, Seq<char>), y: (Seq<char>, Seq<char>), z: (Seq<char>, Seq<char>))
    ensures
        key_le(x, y) || key_le(y, x),
        key_le(x, y) && key_le(y, z) ==> key_le(x, z),
{
    lemma_text_le_total(x.0, y.0);
    lemma_text_le_total(x.1, y.1);
    lemma_text_le_total(y.0, z.0);
    lemma_text_le_total(x.0, z.0);
    if key_le(x, y) && key_le(y, z) {
        if text_le(x.0, y.0) && text_le(y.0, z.0) {
            lemma_text_le_transitive(x.0, y.0, z.0);
        }
        if x.0 == y.0 && y.0 == z.0 {
            lemma_text_le_transitive(x.1, y.1, z.1);
        }
    }
}

proof fn lemma_list_place(s: Seq<Filed>, x: Filed)
    requires
        in_list_order(s),
    ensures
        0 <= list_place(s, x) <= s.len(),
        forall|i: int| 0 <= i < list_place(s, x) ==> key_le(list_key(s[i]), list_key(x)),
        forall|i: int| list_place(s, x) <= i < s.len() ==> !key_le(list_key(s[i]), list_key(x)),
    decreases s.len(),
{
    if s.len() > 0 && !key_le(list_key(s.last()), list_key(x)) {
        let d = s.drop_last();
        lemma_list_place(d, x);
        assert forall|i: int| list_place(s, x) <= i < s.len() implies !key_le(list_key(s[i]), list_key(x)) by {
            if i < s.len() - 1 {
                assert(s[i] == d[i]);
            }
        }
        assert forall|i: int| 0 <= i < list_place(s, x) implies key_le(list_key(s[i]), list_key(x)) by {
            assert(s[i] == d[i]);
        }
    } else if s.len() > 0 {
        assert forall|i: int| 0 <= i < list_place(s, x) implies key_le(list_key(s[i]), list_key(x)) by {
            if i < s.len() - 1 {
                lemma_key_le(list_key(s[i]), list_key(s[s.len() - 1]), list_key(x));
            }
        }
    }
}

/// The server list comes in order: by folder, then by name, neither minding
/// case.
pub proof fn the_list_comes_by_folder_then_name(s: Seq<Filed>)
    ensures
        in_list_order(list_order(s)),
    decreases s.len(),
{
    if s.len() > 0 {
        let rest = list_order(s.drop_last());
        let x = s.last();
        the_list_comes_by_folder_then_name(s.drop_last());
        lemma_list_place(rest, x);
        let k = list_place(rest, x);
        let r = list_order(s);
        assert forall|i: int, j: int| 0 <= i < j < r.len() implies key_le(list_key(r[i]), list_key(r[j])) by {
            if j < k {
                assert(r[i] == rest[i] && r[j] == rest[j]);
            } else if j == k {
                assert(r[i] == rest[i] && r[j] == x);
            } else if i < k {
                assert(r[i] == rest[i] && r[j] == rest[j - 1]);
            } else if i == k {
                assert(r[i] == x && r[j] == rest[j - 1]);
                lemma_key_le(list_key(rest[j - 1]), list_key(x), list_key(x));
            } else {
                assert(r[i] == rest[i - 1] && r[j] == rest[j - 1]);
            }
        }
    }
}

pub(crate) fn text_le_exec(a: &[char], b: &[char]) -> (r: bool)
    ensures
        r == text_le(a@, b@),
{
    let mut i: usize = 0;
    assert(a@.skip(0) =~= a@);
    assert(b@.skip(0) =~= b@);
    while i < a.len() && i < b.len() && a[i] == b[i]
        invariant
            i <= a@.len(),
            i <= b@.len(),
            text_le(a@, b@) == text_le(a@.skip(i as int), b@.skip(i as int)),
        decreases a@.len() - i,
    {
        assert(a@.skip(i as int).drop_first() =~= a@.skip(i + 1));
        assert(b@.skip(i as int).drop_first() =~= b@.skip(i + 1));
        i = i + 1;
    }
    if i == a.len() {
        true
    } else if i == b.len() {
        false
    } else {
        a[i] < b[i]
    }
}

fn key_of(f: &Filed) -> (k: (Vec<char>, Vec<char>))
    ensures
        k.0@ == list_key(*f).0,
        k.1@ == list_key(*f).1,
{
    let folder = crate::editing::to_lower(f.folder.as_str());
    let name = crate::editing::to_lower(f.site.name.as_str());
    (chars_of(folder.as_str()), chars_of(name.as_str()))
}

fn key_le_exec(x: &(Vec<char>, Vec<char>), y: &(Vec<char>, Vec<char>)) -> (r: bool)
    ensures
        r == key_le((x.0@, x.1@), (y.0@, y.1@)),
{
    let same = crate::text::same_chars(&x.0, &y.0);
    if same {
        text_le_exec(&x.1, &y.1)
    } else {
        text_le_exec(&x.0, &y.0)
    }
}

impl Sites {
    /// The entries found on disk, in the order the list shows them.
    pub fn in_order(found: Vec<Filed>) -> (out: Vec<Filed>)
        ensures
            out@ == list_order(found@),
    {
        let ghost s = found@;
        let mut rest = found;
        let total = rest.len();
        assert(s.len() == total);
        let mut out: Vec<Filed> = Vec::new();
        let mut keys: Vec<(Vec<char>, Vec<char>)> = Vec::new();
        let mut i: usize = 0;
        assert(s.take(0) =~= Seq::<Filed>::empty());
        assert(s.skip(0) =~= s);
        while rest.len() > 0
            invariant
                i <= s.len(),
                i + rest@.len() == s.len(),
                s.len() <= usize::MAX,
                rest@ == s.skip(i as int),
                out@ == list_order(s.take(i as int)),
                keys@.len() == out@.len(),
                forall|j: int| 0 <= j < out@.len() ==> (#[trigger] keys@[j]).0@ == list_key(out@[j]).0 && keys@[j].1@ == list_key(out@[j]).1,
            decreases rest@.len(),
        {
            assert(s.take(i + 1).drop_last() =~= s.take(i as int));
            assert(s.take(i + 1).last() == s[i as int]);
            let x = rest.remove(0);
            assert(rest@ =~= s.skip(i + 1));
            let kx = key_of(&x);
            let mut k = out.len();
            assert(out@.take(k as int) =~= out@);
            while k > 0 && !key_le_exec(&keys[k - 1], &kx)
                invariant
                    k <= out@.len(),
                    keys@.len() == out@.len(),
                    forall|j: int| 0 <= j < out@.len() ==> (#[trigger] keys@[j]).0@ == list_key(out@[j]).0 && keys@[j].1@ == list_key(out@[j]).1,
                    kx.0@ == list_key(x).0,
                    kx.1@ == list_key(x).1,
                    list_place(out@, x) == list_place(out@.take(k as int), x),
                decreases k,
            {
                assert(out@.take(k as int).drop_last() =~= out@.take(k - 1));
                assert(out@.take(k as int).last() == out@[k - 1]);
                k = k - 1;
            }
            proof {
                if k > 0 {
                    assert(out@.take(k as int).last() == out@[k - 1]);
                }
            }
            let ghost before = out@;
            let ghost keys_before = keys@;
            out.insert(k, x);
            keys.insert(k, kx);
            assert(out@ =~= before.take(k as int) + seq![x] + before.skip(k as int));
            assert forall|j: int| 0 <= j < out@.len() implies (#[trigger] keys@[j]).0@ == list_key(out@[j]).0 && keys@[j].1@ == list_key(out@[j]).1 by {
                if j < k {
                    assert(keys@[j] == keys_before[j] && out@[j] == before[j]);
                } else if j > k {
                    assert(keys@[j] == keys_before[j - 1] && out@[j] == before[j - 1]);
                }
            }
            i = i + 1;
        }
        assert(s.take(i as int) =~= s);
        out
    }
}

/// A directory with each segment put below the one before.
pub open spec fn below_all(root: Seq<char>, segments: Seq<Seq<char>>) -> Seq<char>
    decreases segments.len(),
{
    if segments.len() == 0 {
        root
    } else {
        crate::local::spec_join(below_all(root, segments.drop_last()), segments.last())
    }
}

impl Sites {
    /// The directory a folder is on disk.
    pub fn folder_path(&self, folder: &str) -> (p: String)
        ensures
            p@ == below_all(self.root@, spec_folder_segments(folder@)),
    {
        let segments = Sites::folder_segments(folder);
        let ghost sv = segments@.map_values(|s: String| s@);
        let local = crate::local::LocalSession::new();
        let mut path = self.root.clone();
        let mut i: usize = 0;
        assert(sv.take(0) =~= Seq::<Seq<char>>::empty());
        while i < segments.len()
            invariant
                i <= segments@.len(),
                sv == segments@.map_values(|s: String| s@),
                path@ == below_all(self.root@, sv.take(i as int)),
            decreases segments@.len() - i,
        {
            assert(sv.take(i + 1).drop_last() =~= sv.take(i as int));
            assert(sv.take(i + 1).last() == segments@[i as int]@);
            path = local.join(path.as_str(), segments[i].as_str());
            i = i + 1;
        }
        assert(sv.take(segments@.len() as int) =~= sv);
        path
    }

    /// The file an entry of a given name in a given folder is.
    pub fn path_for(&self, folder: &str, name: &str) -> (p: String)
        ensures
            p@ == crate::local::spec_join(
                below_all(self.root@, spec_folder_segments(folder@)),
                spec_safe_segment(name@) + ".json"@,
            ),
    {
        let directory = self.folder_path(folder);
        let file = Sites::file_name(name);
        crate::local::LocalSession::new().join(directory.as_str(), file.as_str())
    }
}

/// Where a folder goes among others in order: after every one whose lower
/// case comes before its own or equals it.
pub open spec fn folder_place(s: Seq<String>, x: String) -> int
    decreases s.len(),
{
    if s.len() == 0 {
        0
    } else if text_le(crate::editing::lower_case(s.last()@), crate::editing::lower_case(x@)) {
        s.len() as int
    } else {
        folder_place(s.drop_last(), x)
    }
}

/// Folders in the order of their lower case; ties keep the order found.
pub open spec fn folder_order(s: Seq<String>) -> Seq<String>
    decreases s.len(),
{
    if s.len() == 0 {
        s
    } else {
        let rest = folder_order(s.drop_last());
        let k = folder_place(rest, s.last());
        rest.take(k) + seq![s.last()] + rest.skip(k)
    }
}

impl Sites {
    /// The folders found on disk, in the order the list shows them.
    pub fn folders_in_order(found: Vec<String>) -> (out: Vec<String>)
        ensures
            out@ == folder_order(found@),
    {
        let ghost s = found@;
        let mut rest = found;
        let total = rest.len();
        assert(s.len() == total);
        let mut out: Vec<String> = Vec::new();
        let mut keys: Vec<Vec<char>> = Vec::new();
        let mut i: usize = 0;
        assert(s.take(0) =~= Seq::<String>::empty());
        assert(s.skip(0) =~= s);
        while rest.len() > 0
            invariant
                i <= s.len(),
                i + rest@.len() == s.len(),
                s.len() <= usize::MAX,
                rest@ == s.skip(i as int),
                out@ == folder_order(s.take(i as int)),
                keys@.len() == out@.len(),
                forall|j: int| 0 <= j < out@.len() ==> (#[trigger] keys@[j])@ == crate::editing::lower_case(out@[j]@),
            decreases rest@.len(),
        {
            assert(s.take(i + 1).drop_last() =~= s.take(i as int));
            assert(s.take(i + 1).last() == s[i as int]);
            let x = rest.remove(0);
            assert(rest@ =~= s.skip(i + 1));
            let kx = chars_of(crate::editing::to_lower(x.as_str()).as_str());
            let mut k = out.len();
            assert(out@.take(k as int) =~= out@);
            while k > 0 && !text_le_exec(&keys[k - 1], &kx)
                invariant
                    k <= out@.len(),
                    keys@.len() == out@.len(),
                    forall|j: int| 0 <= j < out@.len() ==> (#[trigger] keys@[j])@ == crate::editing::lower_case(out@[j]@),
                    kx@ == crate::editing::lower_case(x@),
                    folder_place(out@, x) == folder_place(out@.take(k as int), x),
                decreases k,
            {
                assert(out@.take(k as int).drop_last() =~= out@.take(k - 1));
                assert(out@.take(k as int).last() == out@[k - 1]);
                k = k - 1;
            }
            proof {
                if k > 0 {
                    assert(out@.take(k as int).last() == out@[k - 1]);
                }
            }
            let ghost before = out@;
            let ghost keys_before = keys@;
            out.insert(k, x);
            keys.insert(k, kx);
            assert(out@ =~= before.take(k as int) + seq![x] + before.skip(k as int));
            assert forall|j: int| 0 <= j < out@.len() implies (#[trigger] keys@[j])@ == crate::editing::lower_case(out@[j]@) by {
                if j < k {
                    assert(keys@[j] == keys_before[j] && out@[j] == before[j]);
                } else if j > k {
                    assert(keys@[j] == keys_before[j - 1] && out@[j] == before[j - 1]);
                }
            }
            i = i + 1;
        }
        assert(s.take(i as int) =~= s);
        out
    }
}

impl Sites {
    /// Where among the entries found the one with this identifier is: the
    /// first such, or `None`.
    pub fn position_of(found: &[Filed], id: &str) -> (r: Option<usize>)
        ensures
            match r {
                Some(k) => k < found@.len() && found@[k as int].site.id@ == id@ && forall|j: int|
                    0 <= j < k ==> (#[trigger] found@[j]).site.id@ != id@,
                None => forall|j: int| 0 <= j < found@.len() ==> (#[trigger] found@[j]).site.id@ != id@,
            },
    {
        let mut i: usize = 0;
        while i < found.len()
            invariant
                i <= found@.len(),
                forall|j: int| 0 <= j < i ==> (#[trigger] found@[j]).site.id@ != id@,
            decreases found@.len() - i,
        {
            if crate::text::str_eq(found[i].site.id.as_str(), id) {
                return Some(i);
            }
            i = i + 1;
        }
        None
    }
}

} // verus!

//! `sitemanager.xml`.
//!
//! Folders nest as elements, and a folder's name is loose text inside it,
//! sitting in front of the servers it holds. The password is Base64; with a
//! master password it is really encrypted, and the reader says so rather than
//! handing over something that will not log in.
use vstd::prelude::*;

use super::ini::value_in;
use super::winscp::{master_warning, spec_default_port};
use super::xml::{element_view, spec_from_base64, spec_walk, steps_view, Step, StepView};
use super::{imported_view, imported_views, with_password_view, Found, Imported, ImportedView, Source};
use crate::config::AuthKind;
use crate::endpoint::Protocol;
use crate::ftp::Encryption;
use crate::text::{all_digits, chars_of, digits_value, is_digit, parse_i32, parse_unsigned, string_of, trim};

verus! {

/// A server as the file describes it, field by field.
pub struct Server {
    pub host: String,
    pub port: Option<u16>,
    pub protocol: i32,
    pub logon_type: i32,
    pub user: String,
    pub password: Option<String>,
    pub master_password: bool,
    pub name: String,
    pub key_file: Option<String>,
    pub remote_dir: Option<String>,
}

pub struct ServerView {
    pub host: Seq<char>,
    pub port: Option<u16>,
    pub protocol: int,
    pub logon_type: int,
    pub user: Seq<char>,
    pub password: Option<Seq<char>>,
    pub master_password: bool,
    pub name: Seq<char>,
    pub key_file: Option<Seq<char>>,
    pub remote_dir: Option<Seq<char>>,
}

pub open spec fn server_view(s: Server) -> ServerView {
    ServerView {
        host: s.host@,
        port: s.port,
        protocol: s.protocol as int,
        logon_type: s.logon_type as int,
        user: s.user@,
        password: crate::text::opt_text(s.password),
        master_password: s.master_password,
        name: s.name@,
        key_file: crate::text::opt_text(s.key_file),
        remote_dir: crate::text::opt_text(s.remote_dir),
    }
}

/// A server nothing has been said about yet.
pub open spec fn blank_server() -> ServerView {
    ServerView {
        host: Seq::empty(),
        port: None,
        protocol: 0,
        logon_type: 0,
        user: Seq::empty(),
        password: None,
        master_password: false,
        name: Seq::empty(),
        key_file: None,
        remote_dir: None,
    }
}

/// What one field of the file says about a server.
pub open spec fn spec_set(s: ServerView, field: Seq<char>, value: Seq<char>, encoding: Option<Seq<char>>) -> ServerView {
    if field == "Host"@ {
        ServerView { host: value, ..s }
    } else if field == "Port"@ {
        ServerView {
            port: match parse_unsigned(value, u16::MAX as nat) {
                Some(n) => Some(n as u16),
                None => None,
            },
            ..s
        }
    } else if field == "Protocol"@ {
        ServerView {
            protocol: match parse_i32(value) {
                Some(n) => n,
                None => 0,
            },
            ..s
        }
    } else if field == "Logontype"@ {
        ServerView {
            logon_type: match parse_i32(value) {
                Some(n) => n,
                None => 1,
            },
            ..s
        }
    } else if field == "User"@ {
        ServerView { user: value, ..s }
    } else if field == "Name"@ {
        ServerView { name: value, ..s }
    } else if field == "Keyfile"@ {
        ServerView {
            key_file: if value.len() > 0 {
                Some(value)
            } else {
                None
            },
            ..s
        }
    } else if field == "RemoteDir"@ {
        ServerView { remote_dir: spec_safe_path(value), ..s }
    } else if field == "Pass"@ {
        if encoding == Some("crypt"@) {
            ServerView { master_password: true, ..s }
        } else if encoding == Some("base64"@) {
            ServerView {
                password: match spec_from_base64(value) {
                    Some(b) => Some(super::spec_decode(b)),
                    None => None,
                },
                ..s
            }
        } else {
            ServerView {
                password: if value.len() > 0 {
                    Some(value)
                } else {
                    None
                },
                ..s
            }
        }
    } else {
        s
    }
}

impl Server {
    pub fn blank() -> (s: Server)
        ensures
            server_view(s) == blank_server(),
    {
        Server {
            host: String::new(),
            port: None,
            protocol: 0,
            logon_type: 0,
            user: String::new(),
            password: None,
            master_password: false,
            name: String::new(),
            key_file: None,
            remote_dir: None,
        }
    }

    /// Takes in one field of the file.
    pub fn set(&mut self, field: &str, value: &str, encoding: Option<&str>)
        ensures
            server_view(*final(self)) == spec_set(
                server_view(*old(self)),
                field@,
                value@,
                match encoding {
                    Some(e) => Some(e@),
                    None => None,
                },
            ),
    {
        let f = chars_of(field);
        let v = chars_of(value);
        if crate::text::is_text(&f, "Host") {
            self.host = value.to_string();
        } else if crate::text::is_text(&f, "Port") {
            self.port = crate::text::parse_u16(&v);
        } else if crate::text::is_text(&f, "Protocol") {
            self.protocol = match crate::text::parse_i32_exec(&v) {
                Some(n) => n,
                None => 0,
            };
        } else if crate::text::is_text(&f, "Logontype") {
            self.logon_type = match crate::text::parse_i32_exec(&v) {
                Some(n) => n,
                None => 1,
            };
        } else if crate::text::is_text(&f, "User") {
            self.user = value.to_string();
        } else if crate::text::is_text(&f, "Name") {
            self.name = value.to_string();
        } else if crate::text::is_text(&f, "Keyfile") {
            self.key_file = if value.is_empty() {
                None
            } else {
                Some(value.to_string())
            };
        } else if crate::text::is_text(&f, "RemoteDir") {
            self.remote_dir = safe_path(value);
        } else if crate::text::is_text(&f, "Pass") {
            let kind = match encoding {
                Some(e) => chars_of(e),
                None => Vec::new(),
            };
            if encoding.is_some() && crate::text::is_text(&kind, "crypt") {
                self.master_password = true;
            } else if encoding.is_some() && crate::text::is_text(&kind, "base64") {
                self.password = match super::xml::from_base64(value) {
                    Some(bytes) => Some(super::decode(&bytes)),
                    None => None,
                };
            } else {
                self.password = if value.is_empty() {
                    None
                } else {
                    Some(value.to_string())
                };
            }
        }
    }
}

/// The texts that are not empty, in order.
pub open spec fn non_empty(s: Seq<Seq<char>>) -> Seq<Seq<char>>
    decreases s.len(),
{
    if s.len() == 0 {
        s
    } else if s.last().len() == 0 {
        non_empty(s.drop_last())
    } else {
        non_empty(s.drop_last()).push(s.last())
    }
}

/// Texts joined with a separator between each two.
pub open spec fn joined(s: Seq<Seq<char>>, sep: char) -> Seq<char>
    decreases s.len(),
{
    if s.len() == 0 {
        Seq::empty()
    } else if s.len() == 1 {
        s[0]
    } else {
        joined(s.drop_last(), sep) + seq![sep] + s.last()
    }
}

pub fn join_exec(parts: &Vec<Vec<char>>, sep: char) -> (out: Vec<char>)
    ensures
        out@ == joined(crate::text::views(parts@), sep),
{
    let ghost pv = crate::text::views(parts@);
    let mut out: Vec<char> = Vec::new();
    let mut i: usize = 0;
    while i < parts.len()
        invariant
            i <= parts@.len(),
            pv == crate::text::views(parts@),
            out@ == joined(pv.take(i as int), sep),
        decreases parts@.len() - i,
    {
        assert(pv.take(i + 1).drop_last() =~= pv.take(i as int));
        assert(pv.take(i + 1).last() == parts@[i as int]@);
        if i > 0 {
            out.push(sep);
        }
        crate::text::append_chars(&mut out, &parts[i]);
        proof {
            if i == 0 {
                assert(pv.take(1)[0] == parts@[0]@);
                assert(out@ =~= parts@[0]@);
            } else {
                assert(out@ =~= joined(pv.take(i as int), sep) + seq![sep] + parts@[i as int]@);
            }
        }
        i = i + 1;
    }
    assert(pv.take(parts@.len() as int) =~= pv);
    out
}

/// The protocol and encryption of FileZilla's own numbers, where this
/// program speaks it.
pub open spec fn kind_of(protocol: int) -> Option<(Protocol, Option<Encryption>)> {
    if protocol == 1 {
        Some((Protocol::Sftp, None))
    } else if protocol == 3 {
        Some((Protocol::Ftps, Some(Encryption::Implicit)))
    } else if protocol == 4 {
        Some((Protocol::Ftps, Some(Encryption::Explicit)))
    } else if protocol == 6 {
        Some((Protocol::Ftp, None))
    } else if protocol == 0 {
        Some((Protocol::Ftps, Some(Encryption::Explicit)))
    } else {
        None
    }
}

/// The entry a server becomes under the folders it sits in.
pub open spec fn spec_into_entry(s: ServerView, folders: Seq<Seq<char>>) -> Option<ImportedView> {
    if s.host.len() == 0 || kind_of(s.protocol) is None {
        None
    } else {
        let (protocol, encryption) = kind_of(s.protocol)->Some_0;
        let entry = ImportedView {
            name: if s.name.len() == 0 {
                s.host
            } else {
                s.name
            },
            folder: joined(non_empty(folders), '/'),
            protocol,
            host: s.host,
            port: match s.port {
                Some(p) => p,
                None => spec_default_port(protocol),
            },
            user: if s.logon_type == 0 {
                "anonymous"@
            } else {
                s.user
            },
            auth: if s.logon_type == 5 {
                AuthKind::KeyFile
            } else {
                AuthKind::Password
            },
            key_path: s.key_file,
            remote_path: s.remote_dir,
            encryption,
            has_password: false,
            password: None,
        };
        Some(with_password_view(entry, s.password))
    }
}

fn folder_views(folders: &Vec<String>) -> (out: Vec<Vec<char>>)
    ensures
        crate::text::views(out@) == non_empty(folders@.map_values(|f: String| f@)),
{
    let ghost fv = folders@.map_values(|f: String| f@);
    let mut out: Vec<Vec<char>> = Vec::new();
    let mut i: usize = 0;
    while i < folders.len()
        invariant
            i <= folders@.len(),
            fv == folders@.map_values(|f: String| f@),
            crate::text::views(out@) == non_empty(fv.take(i as int)),
        decreases folders@.len() - i,
    {
        assert(fv.take(i + 1).drop_last() =~= fv.take(i as int));
        assert(fv.take(i + 1).last() == folders@[i as int]@);
        let c = chars_of(folders[i].as_str());
        if c.len() > 0 {
            let ghost before = out@;
            out.push(c);
            assert(crate::text::views(out@) =~= crate::text::views(before).push(c@));
        }
        i = i + 1;
    }
    assert(fv.take(folders@.len() as int) =~= fv);
    out
}

fn into_entry(s: Server, folders: &Vec<String>) -> (r: Option<Imported>)
    ensures
        super::opt_view(r) == spec_into_entry(server_view(s), folders@.map_values(|f: String| f@)),
{
    let ghost sv = server_view(s);
    if s.host.as_str().is_empty() {
        return None;
    }
    let (protocol, encryption) = if s.protocol == 1 {
        (Protocol::Sftp, None)
    } else if s.protocol == 3 {
        (Protocol::Ftps, Some(Encryption::Implicit))
    } else if s.protocol == 4 {
        (Protocol::Ftps, Some(Encryption::Explicit))
    } else if s.protocol == 6 {
        (Protocol::Ftp, None)
    } else if s.protocol == 0 {
        (Protocol::Ftps, Some(Encryption::Explicit))
    } else {
        return None;
    };
    let parts = folder_views(folders);
    let folder = string_of(&join_exec(&parts, '/'));
    let name = if s.name.as_str().is_empty() {
        s.host.clone()
    } else {
        s.name
    };
    let mut entry = Imported::named(name.as_str());
    entry.folder = folder;
    entry.protocol = protocol;
    entry.encryption = encryption;
    entry.port = match s.port {
        Some(p) => p,
        None => super::winscp::default_port(protocol),
    };
    entry.host = s.host;
    entry.user = if s.logon_type == 0 {
        "anonymous".to_string()
    } else {
        s.user
    };
    entry.auth = if s.logon_type == 5 {
        AuthKind::KeyFile
    } else {
        AuthKind::Password
    };
    entry.key_path = s.key_file;
    entry.remote_path = s.remote_dir;
    let done = entry.with_password(s.password);
    proof {
        let want = spec_into_entry(sv, folders@.map_values(|f: String| f@))->Some_0;
        let d = imported_view(done);
        assert(d.name == want.name);
        assert(d.folder == want.folder);
        assert(d.protocol == want.protocol);
        assert(d.host == want.host);
        assert(d.port == want.port);
        assert(d.user == want.user);
        assert(d.auth == want.auth);
        assert(d.key_path == want.key_path);
        assert(d.remote_path == want.remote_path);
        assert(d.encryption == want.encryption);
        assert(d.has_password == want.has_password);
        assert(d.password == want.password);
    }
    Some(done)
}

/// The first index at or after `i` that does not hold an ASCII digit.
pub open spec fn digits_end(s: Seq<char>, i: int) -> int
    decreases s.len() - i,
{
    if i < 0 || i >= s.len() {
        if i < 0 {
            i
        } else {
            s.len() as int
        }
    } else if is_digit(s[i]) {
        digits_end(s, i + 1)
    } else {
        i
    }
}

pub proof fn lemma_digits_end(s: Seq<char>, i: int)
    requires
        0 <= i <= s.len(),
    ensures
        i <= digits_end(s, i) <= s.len(),
        all_digits(s.subrange(i, digits_end(s, i))),
        digits_end(s, i) < s.len() ==> !is_digit(s[digits_end(s, i)]),
    decreases s.len() - i,
{
    if i < s.len() && is_digit(s[i]) {
        lemma_digits_end(s, i + 1);
        let e = digits_end(s, i);
        assert forall|k: int| 0 <= k < e - i implies is_digit(#[trigger] s.subrange(i, e)[k]) by {
            if k > 0 {
                assert(s.subrange(i, e)[k] == s.subrange(i + 1, e)[k - 1]);
            }
        }
    }
}

/// A number in FileZilla's notation for a directory, where one starts at
/// `i`: its value, and where reading goes on, past one space after it.
pub open spec fn number_at(s: Seq<char>, i: int) -> Option<(nat, int)> {
    let e = digits_end(s, i);
    if e == i || digits_value(s.subrange(i, e)) > usize::MAX {
        None
    } else {
        Some(
            (
                digits_value(s.subrange(i, e)),
                if e < s.len() && s[e] == ' ' {
                    e + 1
                } else {
                    e
                },
            ),
        )
    }
}

/// The segments from `at` on, each a length and that many characters.
pub open spec fn segments_from(s: Seq<char>, at: int) -> Option<Seq<Seq<char>>>
    decreases s.len() - at,
{
    if at < 0 || at >= s.len() {
        Some(Seq::empty())
    } else {
        match number_at(s, at) {
            None => None,
            Some((len, j)) => {
                proof {
                    lemma_digits_end(s, at);
                }
                if j + len > s.len() {
                    None
                } else {
                    let end = j + len;
                    let next = if end < s.len() && s[end] == ' ' {
                        end + 1
                    } else {
                        end
                    };
                    match segments_from(s, next) {
                        None => None,
                        Some(rest) => Some(seq![s.subrange(j, end)] + rest),
                    }
                }
            },
        }
    }
}

/// The path that segments make, where there are any.
pub open spec fn path_of(x: Option<Seq<Seq<char>>>) -> Option<Seq<char>> {
    match x {
        None => None,
        Some(segs) => if segs.len() == 0 {
            None
        } else {
            Some(seq!['/'] + joined(segs, '/'))
        },
    }
}

/// FileZilla's own notation for a remote directory: a type, a prefix
/// length and prefix, then a length and a segment for each part.
pub open spec fn spec_safe_path(value: Seq<char>) -> Option<Seq<char>> {
    let s = trim(value);
    if s.len() == 0 {
        None
    } else {
        match number_at(s, 0) {
            None => None,
            Some((_, a1)) => match number_at(s, a1) {
                None => None,
                Some((prefix, a2)) => if a2 + prefix > s.len() {
                    None
                } else {
                    let p = a2 + prefix;
                    let a3 = if prefix > 0 && p < s.len() && s[p] == ' ' {
                        p + 1
                    } else {
                        p
                    };
                    path_of(segments_from(s, a3))
                },
            },
        }
    }
}

fn number_exec(s: &Vec<char>, i: usize) -> (r: Option<(usize, usize)>)
    requires
        i <= s@.len(),
    ensures
        match r {
            Some((v, j)) => number_at(s@, i as int) == Some((v as nat, j as int)),
            None => number_at(s@, i as int) is None,
        },
        r matches Some((v, j)) ==> i < j <= s@.len(),
{
    proof {
        lemma_digits_end(s@, i as int);
    }
    let mut e = i;
    while e < s.len() && '0' <= s[e] && s[e] <= '9'
        invariant
            i <= e <= s@.len(),
            digits_end(s@, i as int) == digits_end(s@, e as int),
        decreases s@.len() - e,
    {
        e = e + 1;
    }
    if e == i {
        return None;
    }
    match crate::text::digits_up_to(s, i, e, usize::MAX as u64) {
        Some(n) => {
            let next = if e < s.len() && s[e] == ' ' {
                e + 1
            } else {
                e
            };
            Some((n as usize, next))
        },
        None => None,
    }
}

/// A remote directory in FileZilla's notation as a path, where it is one.
pub fn safe_path(value: &str) -> (r: Option<String>)
    ensures
        crate::text::opt_text(r) == spec_safe_path(value@),
{
    let c = chars_of(value);
    let s = crate::text::trimmed(&c);
    if s.len() == 0 {
        return None;
    }
    let a1 = match number_exec(&s, 0) {
        Some((_, j)) => j,
        None => {
            return None;
        },
    };
    let (prefix, a2) = match number_exec(&s, a1) {
        Some(p) => p,
        None => {
            return None;
        },
    };
    if prefix > s.len() - a2 {
        return None;
    }
    let p = a2 + prefix;
    let mut at = if prefix > 0 && p < s.len() && s[p] == ' ' {
        p + 1
    } else {
        p
    };
    let ghost a3 = at as int;
    assert(spec_safe_path(value@) == path_of(segments_from(s@, a3)));
    let mut segments: Vec<Vec<char>> = Vec::new();
    assert(crate::text::views(segments@) =~= Seq::<Seq<char>>::empty());
    while at < s.len()
        invariant
            at <= s@.len(),
            spec_safe_path(value@) == path_of(segments_from(s@, a3)),
            a3 <= at,
            segments_from(s@, a3 as int) == match segments_from(s@, at as int) {
                Some(rest) => Some(crate::text::views(segments@) + rest),
                None => None,
            },
        decreases s@.len() - at,
    {
        let (length, j) = match number_exec(&s, at) {
            Some(n) => n,
            None => {
                assert(segments_from(s@, at as int) is None);
                assert(segments_from(s@, a3) is None);
                return None;
            },
        };
        if length > s.len() - j {
            assert(segments_from(s@, at as int) is None);
            assert(segments_from(s@, a3) is None);
            return None;
        }
        let end = j + length;
        let seg = crate::text::slice_range(&s, j, end);
        let ghost before = segments@;
        segments.push(seg);
        at = if end < s.len() && s[end] == ' ' {
            end + 1
        } else {
            end
        };
        proof {
            assert(crate::text::views(segments@) =~= crate::text::views(before).push(seg@));
            match segments_from(s@, at as int) {
                Some(rest) => {
                    assert(crate::text::views(segments@) + rest =~= crate::text::views(before) + (
                    seq![seg@] + rest));
                },
                None => {},
            }
        }
    }
    assert(segments_from(s@, at as int) == Some(Seq::<Seq<char>>::empty()));
    assert(crate::text::views(segments@) + Seq::<Seq<char>>::empty() =~= crate::text::views(segments@));
    if segments.len() == 0 {
        return None;
    }
    let joined_parts = join_exec(&segments, '/');
    let mut out: Vec<char> = vec!['/'];
    crate::text::append_chars(&mut out, &joined_parts);
    assert(out@ =~= seq!['/'] + joined_parts@);
    Some(string_of(&out))
}

/// Where the reading of a file stands.
pub struct FzState {
    pub folders: Seq<Seq<char>>,
    pub current: Option<ServerView>,
    pub entries: Seq<ImportedView>,
    pub warned: bool,
}

/// What one step of the walk does to the reading.
pub open spec fn fz_step(st: FzState, step: StepView) -> FzState {
    match step {
        StepView::Open(e) => if e.name == "Folder"@ {
            FzState { folders: st.folders.push(trim(e.text)), ..st }
        } else if e.name == "Server"@ {
            FzState { current: Some(blank_server()), ..st }
        } else {
            match st.current {
                Some(sv) => FzState {
                    current: Some(spec_set(sv, e.name, trim(e.text), value_in(e.attributes, "encoding"@, 0))),
                    ..st
                },
                None => st,
            }
        },
        StepView::Close(n) => if n == "Folder"@ {
            FzState {
                folders: if st.folders.len() > 0 {
                    st.folders.drop_last()
                } else {
                    st.folders
                },
                ..st
            }
        } else if n == "Server"@ {
            match st.current {
                None => st,
                Some(sv) => FzState {
                    folders: st.folders,
                    current: None,
                    entries: match spec_into_entry(sv, st.folders) {
                        Some(entry) => st.entries.push(entry),
                        None => st.entries,
                    },
                    warned: st.warned || sv.master_password,
                },
            }
        } else {
            st
        },
    }
}

pub open spec fn fz_steps(steps: Seq<StepView>) -> FzState
    decreases steps.len(),
{
    if steps.len() == 0 {
        FzState { folders: Seq::empty(), current: None, entries: Seq::empty(), warned: false }
    } else {
        fz_step(fz_steps(steps.drop_last()), steps.last())
    }
}

pub open spec fn opt_server_view(s: Option<Server>) -> Option<ServerView> {
    match s {
        Some(x) => Some(server_view(x)),
        None => None,
    }
}

/// Reads the steps of a walk over a file into its servers.
pub fn from_steps(steps: &Vec<Step>, path: &str) -> (found: Found)
    ensures
        found.source == Source::FileZilla,
        found.path@ == path@,
        imported_views(found.entries@) == fz_steps(steps_view(steps@)).entries,
        found.warnings@.len() == (if fz_steps(steps_view(steps@)).warned {
            1int
        } else {
            0int
        }),
        fz_steps(steps_view(steps@)).warned ==> found.warnings@[0]@ == master_warning(),
{
    let ghost sv = steps_view(steps@);
    let mut found = Found::new(Source::FileZilla, path);
    let mut folders: Vec<String> = Vec::new();
    let mut current: Option<Server> = None;
    let mut warned = false;
    let mut i: usize = 0;
    assert(sv.take(0) =~= Seq::<StepView>::empty());
    assert(imported_views(found.entries@) =~= Seq::<ImportedView>::empty());
    assert(folders@.map_values(|f: String| f@) =~= Seq::<Seq<char>>::empty());
    while i < steps.len()
        invariant
            i <= steps@.len(),
            sv == steps_view(steps@),
            found.source == Source::FileZilla,
            found.path@ == path@,
            ({
                let st = fz_steps(sv.take(i as int));
                &&& folders@.map_values(|f: String| f@) == st.folders
                &&& opt_server_view(current) == st.current
                &&& imported_views(found.entries@) == st.entries
                &&& warned == st.warned
            }),
            found.warnings@.len() == (if warned {
                1int
            } else {
                0int
            }),
            warned ==> found.warnings@[0]@ == master_warning(),
        decreases steps@.len() - i,
    {
        assert(sv.take(i + 1).drop_last() =~= sv.take(i as int));
        assert(sv.take(i + 1).last() == super::xml::step_view(steps@[i as int]));
        let ghost st = fz_steps(sv.take(i as int));
        match &steps[i] {
            Step::Open(element) => {
                let name = chars_of(element.name.as_str());
                let tc = chars_of(element.text.as_str());
                let text = string_of(&crate::text::trimmed(&tc));
                if crate::text::is_text(&name, "Folder") {
                    let ghost before = folders@;
                    folders.push(text);
                    assert(folders@.map_values(|f: String| f@) =~= before.map_values(|f: String| f@).push(text@));
                } else if crate::text::is_text(&name, "Server") {
                    current = Some(Server::blank());
                } else {
                    match current {
                        Some(mut server) => {
                            server.set(element.name.as_str(), text.as_str(), element.attribute("encoding"));
                            current = Some(server);
                        },
                        None => {},
                    }
                }
            },
            Step::Close(n) => {
                let name = chars_of(n.as_str());
                if crate::text::is_text(&name, "Folder") {
                    let ghost before = folders@;
                    if folders.len() > 0 {
                        folders.pop();
                        assert(folders@.map_values(|f: String| f@) =~= before.map_values(|f: String| f@).drop_last());
                    }
                } else if crate::text::is_text(&name, "Server") {
                    match current {
                        Some(server) => {
                            current = None;
                            if server.master_password && !warned {
                                found.warnings.push("import.warning.master-password".to_string());
                            }
                            if server.master_password {
                                warned = true;
                            }
                            let ghost entries_before = found.entries@;
                            match into_entry(server, &folders) {
                                Some(entry) => {
                                    found.entries.push(entry);
                                    assert(imported_views(found.entries@) =~= imported_views(entries_before).push(imported_view(entry)));
                                },
                                None => {},
                            }
                        },
                        None => {},
                    }
                }
            },
        }
        i = i + 1;
    }
    assert(sv.take(steps@.len() as int) =~= sv);
    found
}

/// Reads a file into its servers.
pub fn parse(text: &str, path: &str) -> (found: Found)
    ensures
        found.source == Source::FileZilla,
        found.path@ == path@,
        imported_views(found.entries@) == fz_steps(spec_walk(text@)).entries,
        found.warnings@.len() == (if fz_steps(spec_walk(text@)).warned {
            1int
        } else {
            0int
        }),
        fz_steps(spec_walk(text@)).warned ==> found.warnings@[0]@ == master_warning(),
{
    let steps = super::xml::walk(text);
    from_steps(&steps, path)
}

} // verus!

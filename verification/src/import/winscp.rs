//! `WinSCP.ini`.
//!
//! Sessions live in sections called `Sessions\name`, where the name carries
//! the folder as well: `Sessions\Kunden/Müller` is an entry filed under
//! `Kunden`. The stored password is obscured rather than encrypted, and the
//! method is published; with a master password it really is encrypted, and
//! the reader says so instead of producing nonsense.
use vstd::prelude::*;
use vstd::utf8::encode_utf8;

use super::ini::{
    number_value, says_one, section_view, sections_view, unescaped, value_in, value_is_one,
    Section, SectionView,
};
use super::{gathered, imported_view, imported_views, opt_view, with_password_view, Found, Imported, ImportedView, Source};
use crate::config::AuthKind;
use crate::endpoint::Protocol;
use crate::ftp::Encryption;
use crate::text::{chars_of, hex_val, rsplit_once, starts_with, string_of, trim};

verus! {

/// The constant every byte is exclusive-ored with.
pub const MAGIC: u8 = 0xA3;

/// The first byte of the newer form, which puts the user and host in front.
pub const FLAG: u8 = 0xFF;

/// The warning for a file whose passwords sit behind a master password.
pub open spec fn master_warning() -> Seq<char> {
    "import.warning.master-password"@
}

/// Whether every character is a hexadecimal digit.
pub open spec fn all_hex(t: Seq<char>) -> bool {
    forall|i: int| 0 <= i < t.len() ==> (#[trigger] hex_val(t[i])) is Some
}

pub open spec fn nibble(t: Seq<char>, i: int) -> nat {
    hex_val(t[i])->Some_0
}

/// The stored bytes: each pair of digits a byte, exclusive-ored with
/// [`MAGIC`] and complemented. A last digit without a partner is no byte.
pub open spec fn unmasked(t: Seq<char>) -> Seq<u8> {
    Seq::new(
        t.len() / 2,
        |k: int| !(((nibble(t, 2 * k) * 16 + nibble(t, 2 * k + 1)) as u8) ^ MAGIC),
    )
}

/// What a stored value holds for a user on a host: a length, a run of
/// filler whose length is stored, then the value; in the newer form the
/// value begins with the user and host, which have to match.
pub open spec fn spec_decode(stored: Seq<char>, user: Seq<char>, host: Seq<char>) -> Option<Seq<char>> {
    let t = trim(stored);
    if !all_hex(t) || t.len() < 2 {
        None
    } else {
        let b = unmasked(t);
        let newer = b[0] == FLAG;
        let skip_at: int = if newer {
            3
        } else {
            1
        };
        if b.len() <= skip_at {
            None
        } else {
            let length: int = if newer {
                b[2] as int
            } else {
                b[0] as int
            };
            let start = skip_at + 1 + b[skip_at] as int;
            if b.len() < start + length {
                None
            } else {
                let text = super::spec_decode(b.subrange(start, start + length));
                if newer {
                    if starts_with(text, user + host) {
                        Some(text.skip((user + host).len() as int))
                    } else {
                        None
                    }
                } else {
                    Some(text)
                }
            }
        }
    }
}

/// Turns a stored password back into the password.
pub fn decode(stored: &str, user: &str, host: &str) -> (r: Option<String>)
    ensures
        match r {
            Some(p) => spec_decode(stored@, user@, host@) == Some(p@),
            None => spec_decode(stored@, user@, host@) is None,
        },
{
    let c = chars_of(stored);
    let t = crate::text::trimmed(&c);
    let mut nibbles: Vec<u8> = Vec::new();
    let mut i: usize = 0;
    while i < t.len()
        invariant
            i <= t@.len(),
            t@ == trim(stored@),
            nibbles@.len() == i,
            forall|j: int| 0 <= j < i ==> (#[trigger] hex_val(t@[j])) is Some,
            forall|j: int| 0 <= j < i ==> nibbles@[j] as nat == nibble(t@, j) && #[trigger] nibbles@[j] < 16,
        decreases t@.len() - i,
    {
        match crate::text::hex_digit(t[i]) {
            Some(d) => {
                nibbles.push(d);
            },
            None => {
                return None;
            },
        }
        i = i + 1;
    }
    if nibbles.len() < 2 {
        return None;
    }
    let count = nibbles.len() / 2;
    let mut b: Vec<u8> = Vec::new();
    let mut k: usize = 0;
    while k < count
        invariant
            k <= count,
            count == nibbles@.len() / 2,
            nibbles@.len() == t@.len(),
            forall|j: int| 0 <= j < nibbles@.len() ==> nibbles@[j] as nat == nibble(t@, j) && #[trigger] nibbles@[j] < 16,
            b@.len() == k,
            forall|j: int| 0 <= j < k ==> #[trigger] b@[j] == unmasked(t@)[j],
        decreases count - k,
    {
        let n = nibbles.len();
        assert(2 * k + 1 < n);
        let at = k + k;
        let high = nibbles[at];
        let low = nibbles[at + 1];
        b.push(!((high * 16 + low) ^ MAGIC));
        k = k + 1;
    }
    assert(b@ =~= unmasked(t@));
    let newer = b[0] == FLAG;
    let skip_at: usize = if newer {
        3
    } else {
        1
    };
    if b.len() <= skip_at {
        return None;
    }
    let length: usize = if newer {
        b[2] as usize
    } else {
        b[0] as usize
    };
    let start = skip_at + 1 + b[skip_at] as usize;
    if b.len() < start || b.len() - start < length {
        return None;
    }
    let end = start + length;
    let mut bytes: Vec<u8> = Vec::new();
    let mut j = start;
    while j < end
        invariant
            start <= j <= end,
            end == start + length,
            end <= b@.len(),
            bytes@ == b@.subrange(start as int, j as int),
        decreases end - j,
    {
        bytes.push(b[j]);
        j = j + 1;
    }
    let text = super::decode(&bytes);
    if newer {
        let tc = chars_of(text.as_str());
        let mut key = chars_of(user);
        let hc = chars_of(host);
        crate::text::append_chars(&mut key, &hc);
        if crate::text::starts_with_exec(&tc, &key) {
            let rest = crate::text::slice_range(&tc, key.len(), tc.len());
            assert(rest@ =~= tc@.skip(key@.len() as int));
            Some(string_of(&rest))
        } else {
            None
        }
    } else {
        Some(text)
    }
}

/// A value read the way session files escape it: `%XX` undone, as text.
pub open spec fn unescaped_text(v: Seq<char>) -> Seq<char> {
    super::spec_decode(unescaped(encode_utf8(v)))
}

/// A value unescaped, where it is there and not empty.
pub open spec fn unescaped_value(entries: Seq<(Seq<char>, Seq<char>)>, key: Seq<char>) -> Option<Seq<char>> {
    match value_in(entries, key, 0) {
        Some(v) => if unescaped_text(v).len() > 0 {
            Some(unescaped_text(v))
        } else {
            None
        },
        None => None,
    }
}

/// Whether any section turns the master password on.
pub open spec fn uses_master(secs: Seq<SectionView>) -> bool {
    exists|i: int| 0 <= i < secs.len() && says_one(value_in(#[trigger] secs[i].entries, "UseMasterPassword"@, 0))
}

/// The protocol a session names, where it is one this program speaks: the
/// three SSH kinds as SFTP, and FTP with or without security.
pub open spec fn protocol_of(entries: Seq<(Seq<char>, Seq<char>)>) -> Option<Protocol> {
    let fs = match number_value(entries, "FSProtocol"@, u8::MAX as nat) {
        Some(n) => n,
        None => 1,
    };
    if fs <= 2 {
        Some(Protocol::Sftp)
    } else if fs == 5 {
        if secure_of(entries) == 0 {
            Some(Protocol::Ftp)
        } else {
            Some(Protocol::Ftps)
        }
    } else {
        None
    }
}

pub open spec fn secure_of(entries: Seq<(Seq<char>, Seq<char>)>) -> nat {
    match number_value(entries, "FtpSecure"@, u8::MAX as nat) {
        Some(n) => n,
        None => 0,
    }
}

/// The port a protocol listens on unless told otherwise.
pub open spec fn spec_default_port(p: Protocol) -> u16 {
    match p {
        Protocol::Sftp => 22,
        _ => 21,
    }
}

pub fn default_port(protocol: Protocol) -> (port: u16)
    ensures
        port == spec_default_port(protocol),
{
    match protocol {
        Protocol::Sftp => 22,
        _ => 21,
    }
}

/// The server one section describes, if it is a session this program can
/// connect to.
pub open spec fn entry_of(s: SectionView, master: bool) -> Option<ImportedView> {
    if !starts_with(s.name, "Sessions\\"@) {
        None
    } else {
        let full = unescaped_text(s.name.skip(9));
        let (folder, name) = match rsplit_once(full, '/') {
            Some((f, n)) => (f, n),
            None => (Seq::empty(), full),
        };
        let host = match value_in(s.entries, "HostName"@, 0) {
            Some(h) => h,
            None => Seq::empty(),
        };
        if name.len() == 0 || protocol_of(s.entries) is None || host.len() == 0 {
            None
        } else {
            let protocol = protocol_of(s.entries)->Some_0;
            let key_path = unescaped_value(s.entries, "PublicKeyFile"@);
            let user = match value_in(s.entries, "UserName"@, 0) {
                Some(u) => unescaped_text(u),
                None => Seq::empty(),
            };
            let password = if master {
                None
            } else {
                match value_in(s.entries, "Password"@, 0) {
                    Some(p) => spec_decode(p, user, host),
                    None => None,
                }
            };
            let entry = ImportedView {
                name,
                folder,
                protocol,
                host,
                port: match number_value(s.entries, "PortNumber"@, u16::MAX as nat) {
                    Some(n) => n as u16,
                    None => spec_default_port(protocol),
                },
                user,
                auth: if key_path is Some {
                    AuthKind::KeyFile
                } else {
                    AuthKind::Password
                },
                key_path,
                remote_path: unescaped_value(s.entries, "RemoteDirectory"@),
                encryption: if protocol == Protocol::Ftps {
                    if secure_of(s.entries) == 1 {
                        Some(Encryption::Implicit)
                    } else {
                        Some(Encryption::Explicit)
                    }
                } else {
                    None
                },
                has_password: false,
                password: None,
            };
            Some(with_password_view(entry, password))
        }
    }
}

/// Every session a file describes that this program can connect to.
pub open spec fn spec_parse(text: Seq<char>) -> Seq<ImportedView> {
    let secs = super::ini::spec_parse(text);
    gathered(secs, |s: SectionView| entry_of(s, uses_master(secs)))
}

fn unescaped_exec(section: &Section, key: &str) -> (r: Option<String>)
    ensures
        opt_text_eq(r, unescaped_value(section_view(*section).entries, key@)),
{
    match section.get(key) {
        Some(v) => {
            let u = super::ini::unescape(v);
            if u.as_str().is_empty() {
                None
            } else {
                Some(u)
            }
        },
        None => None,
    }
}

pub open spec fn opt_text_eq(r: Option<String>, v: Option<Seq<char>>) -> bool {
    crate::text::opt_text(r) == v
}

fn number_exec(section: &Section, key: &str) -> (r: Option<u8>)
    ensures
        match r {
            Some(n) => number_value(section_view(*section).entries, key@, u8::MAX as nat) == Some(n as nat),
            None => number_value(section_view(*section).entries, key@, u8::MAX as nat) is None,
        },
{
    section.number::<u8>(key)
}

fn protocol_exec(section: &Section) -> (r: Option<Protocol>)
    ensures
        r == protocol_of(section_view(*section).entries),
{
    let fs = match number_exec(section, "FSProtocol") {
        Some(n) => n,
        None => 1,
    };
    if fs <= 2 {
        Some(Protocol::Sftp)
    } else if fs == 5 {
        let secure = match number_exec(section, "FtpSecure") {
            Some(n) => n,
            None => 0,
        };
        if secure == 0 {
            Some(Protocol::Ftp)
        } else {
            Some(Protocol::Ftps)
        }
    } else {
        None
    }
}

fn entry_exec(section: &Section, master: bool) -> (r: Option<Imported>)
    ensures
        opt_view(r) == entry_of(section_view(*section), master),
{
    let ghost sv = section_view(*section);
    let name_chars = chars_of(section.name.as_str());
    if !crate::text::starts_with_text(&name_chars, "Sessions\\") {
        return None;
    }
    proof {
        reveal_strlit("Sessions\\");
    }
    let raw = crate::text::string_of_range(&name_chars, 9, name_chars.len());
    assert(raw@ =~= sv.name.skip(9));
    let full = super::ini::unescape(raw.as_str());
    let fc = chars_of(full.as_str());
    let (folder, name) = match crate::text::rsplit_once_exec(&fc, '/') {
        Some((f, n)) => (string_of(&f), string_of(&n)),
        None => (String::new(), full),
    };
    let host = match section.get("HostName") {
        Some(h) => h.to_string(),
        None => String::new(),
    };
    let protocol = match protocol_exec(section) {
        Some(p) => p,
        None => {
            return None;
        },
    };
    if name.as_str().is_empty() || host.as_str().is_empty() {
        return None;
    }
    let secure = match number_exec(section, "FtpSecure") {
        Some(n) => n,
        None => 0,
    };
    let encryption = match protocol {
        Protocol::Ftps => if secure == 1 {
            Some(Encryption::Implicit)
        } else {
            Some(Encryption::Explicit)
        },
        _ => None,
    };
    let key_path = unescaped_exec(section, "PublicKeyFile");
    let user = match section.get("UserName") {
        Some(u) => super::ini::unescape(u),
        None => String::new(),
    };
    let password = if master {
        None
    } else {
        match section.get("Password") {
            Some(stored) => decode(stored, user.as_str(), host.as_str()),
            None => None,
        }
    };
    let mut entry = Imported::named(name.as_str());
    entry.folder = folder;
    entry.protocol = protocol;
    entry.encryption = encryption;
    entry.port = match section.number::<u16>("PortNumber") {
        Some(n) => n,
        None => default_port(protocol),
    };
    entry.host = host;
    entry.user = user;
    entry.auth = if key_path.is_some() {
        AuthKind::KeyFile
    } else {
        AuthKind::Password
    };
    entry.key_path = key_path;
    entry.remote_path = unescaped_exec(section, "RemoteDirectory");
    let done = entry.with_password(password);
    proof {
        let want = entry_of(sv, master)->Some_0;
        let d = imported_view(done);
        assert(d.name == want.name);
        assert(d.folder == want.folder);
        assert(d.protocol == want.protocol);
        assert(d.host == want.host);
        assert(d.port == want.port);
        assert(d.user == want.user);
        assert(d.auth == want.auth);
        assert(d.key_path == want.key_path);
        assert(d.remote_path == want.remote_path);
        assert(d.encryption == want.encryption);
        assert(d.has_password == want.has_password);
        assert(d.password == want.password);
    }
    Some(done)
}

/// Reads a file into its sessions, with a warning where the passwords sit
/// behind a master password and were therefore not read.
pub fn parse(text: &str, path: &str) -> (found: Found)
    ensures
        found.source == Source::WinScp,
        found.path@ == path@,
        imported_views(found.entries@) == spec_parse(text@),
        found.warnings@.len() == (if uses_master(super::ini::spec_parse(text@)) {
            1int
        } else {
            0int
        }),
        uses_master(super::ini::spec_parse(text@)) ==> found.warnings@[0]@ == master_warning(),
{
    let sections = super::ini::parse(text);
    let ghost secs = sections_view(sections@);
    let mut master = false;
    let mut i: usize = 0;
    while i < sections.len()
        invariant
            i <= sections@.len(),
            secs == sections_view(sections@),
            master == exists|j: int| 0 <= j < i && says_one(value_in(#[trigger] secs[j].entries, "UseMasterPassword"@, 0)),
        decreases sections@.len() - i,
    {
        assert(secs[i as int] == section_view(sections@[i as int]));
        if value_is_one(&sections[i], "UseMasterPassword") {
            master = true;
        }
        i = i + 1;
    }
    let mut found = Found::new(Source::WinScp, path);
    if master {
        found.warnings.push("import.warning.master-password".to_string());
    }
    let mut i: usize = 0;
    assert(imported_views(found.entries@) =~= Seq::<ImportedView>::empty());
    assert(secs.take(0) =~= Seq::<SectionView>::empty());
    while i < sections.len()
        invariant
            i <= sections@.len(),
            secs == sections_view(sections@),
            secs == super::ini::spec_parse(text@),
            master == uses_master(secs),
            found.source == Source::WinScp,
            found.path@ == path@,
            found.warnings@.len() == (if master {
                1int
            } else {
                0int
            }),
            master ==> found.warnings@[0]@ == master_warning(),
            imported_views(found.entries@) == gathered(secs.take(i as int), |s: SectionView| entry_of(s, master)),
        decreases sections@.len() - i,
    {
        assert(secs.take(i + 1).drop_last() =~= secs.take(i as int));
        assert(secs.take(i + 1).last() == section_view(sections@[i as int]));
        let ghost before = found.entries@;
        match entry_exec(&sections[i], master) {
            Some(e) => {
                found.entries.push(e);
                assert(imported_views(found.entries@) =~= imported_views(before).push(imported_view(e)));
            },
            None => {},
        }
        i = i + 1;
    }
    assert(secs.take(i as int) =~= secs);
    found
}

} // verus!

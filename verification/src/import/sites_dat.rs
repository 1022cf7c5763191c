//! `Sites.dat` of an older Windows client.
//!
//! An INI file despite the extension: one section per server, with `IP`,
//! `user` and `pass` among the keys. The password is hex, obscured against a
//! fixed string that ships with the program. It is read as well as it can be:
//! a value that does not come back as text is dropped rather than guessed at,
//! and the file's warnings say so.
use vstd::prelude::*;
use vstd::utf8::{decode_utf8, encode_utf8, valid_utf8};

use super::commander::{readable, readable_exec};
use super::ini::{
    hex_bytes, number_value, section_view, sections_view, value_in, without_ws, Section,
    SectionView,
};
use super::{gathered, imported_view, imported_views, opt_view, with_password_view, Found, Imported, ImportedView, Source};
use crate::config::AuthKind;
use crate::endpoint::Protocol;
use crate::ftp::Encryption;
use crate::text::{chars_of, rsplit_once, string_of};

verus! {

/// The fixed string the method runs against, the same in every copy of the
/// program.
pub open spec fn scramble() -> Seq<u8> {
    seq![
        121u8, 65, 51, 54, 122, 65, 52, 56, 100, 69, 104, 102, 114, 118, 103, 104, 71, 82, 103,
        53, 55, 104, 53, 85, 108, 68, 118, 51,
    ]
}

fn scramble_at(i: usize) -> (r: Option<u8>)
    ensures
        r == (if i < scramble().len() {
            Some(scramble()[i as int])
        } else {
            None
        }),
{
    let s: Vec<u8> = vec![
        121u8, 65, 51, 54, 122, 65, 52, 56, 100, 69, 104, 102, 114, 118, 103, 104, 71, 82, 103,
        53, 55, 104, 53, 85, 108, 68, 118, 51,
    ];
    assert(s@ =~= scramble());
    if i < s.len() {
        Some(s[i])
    } else {
        None
    }
}

/// The warning for a file some of whose passwords could not be read.
pub open spec fn some_passwords_warning() -> Seq<char> {
    "import.warning.some-passwords"@
}

/// Each byte worked out from its neighbour and the fixed string; `None`
/// where the value is longer than the string reaches.
pub open spec fn unscrambled(cipher: Seq<u8>) -> Option<Seq<u8>> {
    if cipher.len() - 1 > scramble().len() {
        None
    } else {
        Some(
            Seq::new(
                (cipher.len() - 1) as nat,
                |i: int| (cipher[i + 1] ^ scramble()[i]).wrapping_sub(cipher[i]),
            ),
        )
    }
}

/// What a stored value holds, where it reads back as text that can be a
/// password.
pub open spec fn spec_decode(stored: Seq<char>) -> Option<Seq<char>> {
    let hex = encode_utf8(without_ws(stored));
    if hex.len() < 4 || hex.len() % 2 != 0 {
        None
    } else {
        match hex_bytes(hex) {
            None => None,
            Some(cipher) => match unscrambled(cipher) {
                None => None,
                Some(plain) => if valid_utf8(plain) && readable(decode_utf8(plain)) {
                    Some(decode_utf8(plain))
                } else {
                    None
                },
            },
        }
    }
}

/// Turns a stored password back into the password, or `None`.
pub fn decode(stored: &str) -> (r: Option<String>)
    ensures
        match r {
            Some(p) => spec_decode(stored@) == Some(p@),
            None => spec_decode(stored@) is None,
        },
{
    let stripped = super::ini::strip_ws(stored);
    let hex = stripped.as_str().as_bytes();
    if hex.len() < 4 || hex.len() % 2 != 0 {
        return None;
    }
    let cipher = match super::ini::hex_bytes_exec(hex) {
        Some(c) => c,
        None => {
            return None;
        },
    };
    proof {
        super::ini::lemma_hex_bytes_len(hex@);
    }
    let mut bytes: Vec<u8> = Vec::new();
    let mut i: usize = 0;
    while i < cipher.len() - 1
        invariant
            hex_bytes(encode_utf8(without_ws(stored@))) == Some(cipher@),
            encode_utf8(without_ws(stored@)).len() >= 4,
            encode_utf8(without_ws(stored@)).len() % 2 == 0,
            cipher@.len() >= 1,
            i <= cipher@.len() - 1,
            i <= scramble().len(),
            bytes@.len() == i,
            forall|j: int| 0 <= j < i ==> #[trigger] bytes@[j] == (cipher@[j + 1] ^ scramble()[j]).wrapping_sub(cipher@[j]),
        decreases cipher@.len() - 1 - i,
    {
        let key = match scramble_at(i) {
            Some(k) => k,
            None => {
                return None;
            },
        };
        bytes.push((cipher[i + 1] ^ key).wrapping_sub(cipher[i]));
        i = i + 1;
    }
    assert(bytes@ =~= unscrambled(cipher@)->Some_0);
    if !crate::editing::utf8_ok(&bytes) {
        return None;
    }
    let text = crate::editing::utf8_text(&bytes);
    if readable_exec(text.as_str()) {
        Some(text)
    } else {
        None
    }
}

/// A text with every leading and trailing `c` taken off.
pub open spec fn trim_char(s: Seq<char>, c: char) -> Seq<char>
    decreases s.len(),
{
    if s.len() > 0 && s[0] == c {
        trim_char(s.drop_first(), c)
    } else if s.len() > 0 && s.last() == c {
        trim_char(s.drop_last(), c)
    } else {
        s
    }
}

fn trim_char_exec(v: &[char], c: char) -> (out: Vec<char>)
    ensures
        out@ == trim_char(v@, c),
{
    let mut i: usize = 0;
    assert(v@.subrange(0, v@.len() as int) =~= v@);
    while i < v.len() && v[i] == c
        invariant
            i <= v@.len(),
            trim_char(v@, c) == trim_char(v@.subrange(i as int, v@.len() as int), c),
        decreases v@.len() - i,
    {
        assert(v@.subrange(i as int, v@.len() as int).drop_first() =~= v@.subrange(i + 1, v@.len() as int));
        i = i + 1;
    }
    let mut j: usize = v.len();
    while j > i && v[j - 1] == c
        invariant
            i <= j <= v@.len(),
            i < v@.len() ==> v@[i as int] != c,
            trim_char(v@, c) == trim_char(v@.subrange(i as int, j as int), c),
        decreases j - i,
    {
        let ghost s = v@.subrange(i as int, j as int);
        assert(s[0] == v@[i as int]);
        assert(s.last() == v@[j - 1]);
        assert(s.drop_last() =~= v@.subrange(i as int, j - 1));
        j = j - 1;
    }
    proof {
        let s = v@.subrange(i as int, j as int);
        if s.len() > 0 {
            assert(s[0] == v@[i as int]);
            assert(s.last() == v@[j - 1]);
        }
    }
    crate::text::slice_range(v, i, j)
}

/// A section name with its back slashes turned into slashes.
pub open spec fn slashed(s: Seq<char>) -> Seq<char> {
    s.map_values(|ch: char| if ch == '\\' { '/' } else { ch })
}

/// The folder and the name a section's name gives.
pub open spec fn filed(section_name: Seq<char>) -> (Seq<char>, Seq<char>) {
    let t = trim_char(slashed(section_name), '/');
    match rsplit_once(t, '/') {
        Some((f, n)) => (f, n),
        None => (Seq::empty(), t),
    }
}

/// The stored password of a section, where it has a non-empty one.
pub open spec fn stored_of(s: SectionView) -> Option<Seq<char>> {
    match value_in(s.entries, "pass"@, 0) {
        Some(p) => if p.len() > 0 {
            Some(p)
        } else {
            None
        },
        None => None,
    }
}

/// The server one section describes, if it names one.
pub open spec fn entry_of(s: SectionView) -> Option<ImportedView> {
    let host = match value_in(s.entries, "IP"@, 0) {
        Some(h) => h,
        None => Seq::empty(),
    };
    let (folder, name) = filed(s.name);
    if s.name.len() == 0 || host.len() == 0 || name.len() == 0 {
        None
    } else {
        let secure = match number_value(s.entries, "SSL"@, u8::MAX as nat) {
            Some(n) => n != 0,
            None => false,
        };
        let password = match stored_of(s) {
            Some(p) => spec_decode(p),
            None => None,
        };
        let entry = ImportedView {
            name,
            folder,
            protocol: if secure {
                Protocol::Ftps
            } else {
                Protocol::Ftp
            },
            host,
            port: match number_value(s.entries, "port"@, u16::MAX as nat) {
                Some(n) => n as u16,
                None => 21,
            },
            user: match value_in(s.entries, "user"@, 0) {
                Some(u) => u,
                None => Seq::empty(),
            },
            auth: AuthKind::Password,
            key_path: None,
            remote_path: match value_in(s.entries, "path"@, 0) {
                Some(p) => if p.len() > 0 {
                    Some(p)
                } else {
                    None
                },
                None => None,
            },
            encryption: if secure {
                Some(Encryption::Explicit)
            } else {
                None
            },
            has_password: false,
            password: None,
        };
        Some(with_password_view(entry, password))
    }
}

/// Whether a section gave a server whose stored password could not be read.
pub open spec fn lost_password(s: SectionView) -> bool {
    entry_of(s) is Some && stored_of(s) is Some && spec_decode(stored_of(s)->Some_0) is None
}

/// Every server a file describes.
pub open spec fn spec_parse(text: Seq<char>) -> Seq<ImportedView> {
    gathered(super::ini::spec_parse(text), |s: SectionView| entry_of(s))
}

/// Whether any password in a file could not be read.
pub open spec fn any_lost(text: Seq<char>) -> bool {
    let secs = super::ini::spec_parse(text);
    exists|i: int| 0 <= i < secs.len() && lost_password(#[trigger] secs[i])
}

fn entry_exec(section: &Section) -> (r: (Option<Imported>, bool))
    ensures
        opt_view(r.0) == entry_of(section_view(*section)),
        r.1 == lost_password(section_view(*section)),
{
    let ghost sv = section_view(*section);
    let host = match section.get("IP") {
        Some(h) => h.to_string(),
        None => String::new(),
    };
    let nc = chars_of(section.name.as_str());
    let mut sl: Vec<char> = Vec::new();
    let mut k: usize = 0;
    while k < nc.len()
        invariant
            k <= nc@.len(),
            sl@ == slashed(nc@.take(k as int)),
        decreases nc@.len() - k,
    {
        let ch = if nc[k] == '\\' {
            '/'
        } else {
            nc[k]
        };
        sl.push(ch);
        k = k + 1;
        assert(slashed(nc@.take(k as int)) =~= slashed(nc@.take(k - 1)).push(ch));
    }
    assert(nc@.take(nc@.len() as int) =~= nc@);
    let t = trim_char_exec(&sl, '/');
    let (folder, name) = match crate::text::rsplit_once_exec(&t, '/') {
        Some((f, n)) => (string_of(&f), string_of(&n)),
        None => (String::new(), string_of(&t)),
    };
    if nc.len() == 0 || host.as_str().is_empty() || name.as_str().is_empty() {
        return (None, false);
    }
    let secure = match section.number::<u8>("SSL") {
        Some(n) => n != 0,
        None => false,
    };
    let stored = match section.get("pass") {
        Some(p) => if p.is_empty() {
            None
        } else {
            Some(p)
        },
        None => None,
    };
    let password = match stored {
        Some(p) => decode(p),
        None => None,
    };
    let lost = stored.is_some() && password.is_none();
    let mut entry = Imported::named(name.as_str());
    entry.folder = folder;
    entry.protocol = if secure {
        Protocol::Ftps
    } else {
        Protocol::Ftp
    };
    entry.encryption = if secure {
        Some(Encryption::Explicit)
    } else {
        None
    };
    entry.host = host;
    entry.port = match section.number::<u16>("port") {
        Some(n) => n,
        None => 21,
    };
    entry.user = match section.get("user") {
        Some(u) => u.to_string(),
        None => String::new(),
    };
    entry.auth = AuthKind::Password;
    entry.remote_path = match section.get("path") {
        Some(p) => if p.is_empty() {
            None
        } else {
            Some(p.to_string())
        },
        None => None,
    };
    let done = entry.with_password(password);
    proof {
        let want = entry_of(sv)->Some_0;
        let d = imported_view(done);
        assert(d.name == want.name);
        assert(d.folder == want.folder);
        assert(d.protocol == want.protocol);
        assert(d.host == want.host);
        assert(d.port == want.port);
        assert(d.user == want.user);
        assert(d.auth == want.auth);
        assert(d.key_path == want.key_path);
        assert(d.remote_path == want.remote_path);
        assert(d.encryption == want.encryption);
        assert(d.has_password == want.has_password);
        assert(d.password == want.password);
    }
    (Some(done), lost)
}

/// Reads a file into its servers, with a warning where some password could
/// not be read.
pub fn parse(text: &str, path: &str) -> (found: Found)
    ensures
        found.source == Source::SitesDat,
        found.path@ == path@,
        imported_views(found.entries@) == spec_parse(text@),
        found.warnings@.len() == (if any_lost(text@) {
            1int
        } else {
            0int
        }),
        any_lost(text@) ==> found.warnings@[0]@ == some_passwords_warning(),
{
    let sections = super::ini::parse(text);
    let ghost secs = sections_view(sections@);
    let mut found = Found::new(Source::SitesDat, path);
    let mut unreadable = false;
    let mut i: usize = 0;
    assert(imported_views(found.entries@) =~= Seq::<ImportedView>::empty());
    assert(secs.take(0) =~= Seq::<SectionView>::empty());
    while i < sections.len()
        invariant
            i <= sections@.len(),
            secs == sections_view(sections@),
            secs == super::ini::spec_parse(text@),
            found.source == Source::SitesDat,
            found.path@ == path@,
            found.warnings@.len() == 0,
            unreadable == exists|j: int| 0 <= j < i && lost_password(#[trigger] secs[j]),
            imported_views(found.entries@) == gathered(secs.take(i as int), |s: SectionView| entry_of(s)),
        decreases sections@.len() - i,
    {
        assert(secs.take(i + 1).drop_last() =~= secs.take(i as int));
        assert(secs.take(i + 1).last() == section_view(sections@[i as int]));
        assert(secs[i as int] == section_view(sections@[i as int]));
        let ghost before = found.entries@;
        let (entry, lost) = entry_exec(&sections[i]);
        match entry {
            Some(e) => {
                found.entries.push(e);
                assert(imported_views(found.entries@) =~= imported_views(before).push(imported_view(e)));
            },
            None => {},
        }
        if lost {
            unreadable = true;
        }
        i = i + 1;
    }
    assert(secs.take(i as int) =~= secs);
    if unreadable {
        found.warnings.push("import.warning.some-passwords".to_string());
    }
    found
}

} // verus!

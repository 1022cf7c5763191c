//! Reading somebody else's server list. Every source is read into the same
//! shape, [`Imported`], and nothing is written until the user has seen it.
pub mod commander;
pub mod filezilla;
pub mod ini;
pub mod openssh;
pub mod sites_dat;
pub mod sites_xml;
pub mod winscp;
pub mod xml;

use vstd::prelude::*;
use vstd::utf8::{decode_utf8, valid_utf8};

use crate::config::AuthKind;
use crate::endpoint::Protocol;
use crate::ftp::Encryption;
use crate::local::{spec_join, LocalSession};
use crate::text::{chars_of, string_of};

verus! {

/// Where a list came from.
#[derive(Debug, Clone, Copy, PartialEq, Eq, Structural)]
pub enum Source {
    /// `~/.ssh/config`
    SshConfig,
    /// `WinSCP.ini`
    WinScp,
    /// `wcx_ftp.ini`, the FTP plug-in of Total Commander.
    WcxFtp,
    /// `sitemanager.xml`
    FileZilla,
    /// `Sites.dat` of an older Windows client.
    SitesDat,
    /// The XML site export of an older Windows client.
    SitesXml,
}

pub open spec fn source_key(s: Source) -> Seq<char> {
    match s {
        Source::SshConfig => "import.source.ssh-config"@,
        Source::WinScp => "import.source.winscp"@,
        Source::WcxFtp => "import.source.wcx-ftp"@,
        Source::FileZilla => "import.source.filezilla"@,
        Source::SitesDat => "import.source.sites-dat"@,
        Source::SitesXml => "import.source.sites-xml"@,
    }
}

impl Source {
    /// The translation key naming this source in the window.
    pub fn message_key(self) -> (k: &'static str)
        ensures
            k@ == source_key(self),
    {
        match self {
            Source::SshConfig => "import.source.ssh-config",
            Source::WinScp => "import.source.winscp",
            Source::WcxFtp => "import.source.wcx-ftp",
            Source::FileZilla => "import.source.filezilla",
            Source::SitesDat => "import.source.sites-dat",
            Source::SitesXml => "import.source.sites-xml",
        }
    }
}

/// Every source has a key of its own beginning with `import.source.`.
pub proof fn every_source_has_its_own_key(a: Source, b: Source)
    ensures
        crate::text::starts_with(source_key(a), "import.source."@),
        a != b ==> source_key(a) != source_key(b),
{
    reveal_strlit("import.source.");
    reveal_strlit("import.source.ssh-config");
    reveal_strlit("import.source.winscp");
    reveal_strlit("import.source.wcx-ftp");
    reveal_strlit("import.source.filezilla");
    reveal_strlit("import.source.sites-dat");
    reveal_strlit("import.source.sites-xml");
    assert(source_key(a).take(14) =~= "import.source."@);
    if a != b {
        let ka = source_key(a);
        let kb = source_key(b);
        if ka.len() == kb.len() {
            assert(ka[14] != kb[14] || ka[20] != kb[20] || ka[22] != kb[22]);
        }
    }
}

/// Which source a file name gives away, compared without regard to case.
pub open spec fn spec_source_of(name: Seq<char>) -> Option<Source> {
    if crate::text::same_ignoring_case("WinSCP.ini"@, name) {
        Some(Source::WinScp)
    } else if crate::text::same_ignoring_case("wcx_ftp.ini"@, name) {
        Some(Source::WcxFtp)
    } else if crate::text::same_ignoring_case("sitemanager.xml"@, name) {
        Some(Source::FileZilla)
    } else if crate::text::same_ignoring_case("Sites.dat"@, name) {
        Some(Source::SitesDat)
    } else {
        None
    }
}

fn named(name: &[char], telling: &str) -> (b: bool)
    ensures
        b == crate::text::same_ignoring_case(telling@, name@),
{
    let t = chars_of(telling);
    crate::text::eq_ignore_case(&t, name)
}

pub fn source_of(name: &str) -> (r: Option<Source>)
    ensures
        r == spec_source_of(name@),
{
    let n = chars_of(name);
    if named(&n, "WinSCP.ini") {
        Some(Source::WinScp)
    } else if named(&n, "wcx_ftp.ini") {
        Some(Source::WcxFtp)
    } else if named(&n, "sitemanager.xml") {
        Some(Source::FileZilla)
    } else if named(&n, "Sites.dat") {
        Some(Source::SitesDat)
    } else {
        None
    }
}

/// One server, as it was read out of somebody else's file.
#[derive(Clone, PartialEq, Eq)]
pub struct Imported {
    pub name: String,
    /// Where the source filed it, if it had folders.
    pub folder: String,
    pub protocol: Protocol,
    pub host: String,
    pub port: u16,
    pub user: String,
    pub auth: AuthKind,
    pub key_path: Option<String>,
    pub remote_path: Option<String>,
    pub encryption: Option<Encryption>,
    /// Whether a password was found and could be read.
    pub has_password: bool,
    /// The password, when the source only obscured it.
    pub password: Option<String>,
}

impl Imported {
    /// A blank entry of the given name, for a reader to fill in: SFTP on
    /// port 22 with a password.
    pub fn named(name: &str) -> (e: Self)
        ensures
            e.name@ == name@,
            e.folder@.len() == 0,
            e.protocol == Protocol::Sftp,
            e.host@.len() == 0,
            e.port == 22,
            e.user@.len() == 0,
            e.auth == AuthKind::Password,
            e.key_path is None,
            e.remote_path is None,
            e.encryption is None,
            !e.has_password,
            e.password is None,
    {
        Imported {
            name: name.to_string(),
            folder: String::new(),
            protocol: Protocol::Sftp,
            host: String::new(),
            port: 22,
            user: String::new(),
            auth: AuthKind::Password,
            key_path: None,
            remote_path: None,
            encryption: None,
            has_password: false,
            password: None,
        }
    }

    /// The entry with a password; an empty one is no password.
    pub fn with_password(self, password: Option<String>) -> (e: Self)
        ensures
            e.has_password == (password matches Some(p) && p@.len() > 0),
            e.password == (if password matches Some(p) && p@.len() > 0 {
                password
            } else {
                None
            }),
            e == (Imported { has_password: e.has_password, password: e.password, ..self }),
    {
        let mut e = self;
        let keep = match &password {
            Some(p) => !p.as_str().is_empty(),
            None => false,
        };
        e.has_password = keep;
        e.password = if keep {
            password
        } else {
            None
        };
        e
    }
}

/// An imported entry as plain values.
pub struct ImportedView {
    pub name: Seq<char>,
    pub folder: Seq<char>,
    pub protocol: Protocol,
    pub host: Seq<char>,
    pub port: u16,
    pub user: Seq<char>,
    pub auth: AuthKind,
    pub key_path: Option<Seq<char>>,
    pub remote_path: Option<Seq<char>>,
    pub encryption: Option<Encryption>,
    pub has_password: bool,
    pub password: Option<Seq<char>>,
}

pub open spec fn imported_view(e: Imported) -> ImportedView {
    ImportedView {
        name: e.name@,
        folder: e.folder@,
        protocol: e.protocol,
        host: e.host@,
        port: e.port,
        user: e.user@,
        auth: e.auth,
        key_path: crate::text::opt_text(e.key_path),
        remote_path: crate::text::opt_text(e.remote_path),
        encryption: e.encryption,
        has_password: e.has_password,
        password: crate::text::opt_text(e.password),
    }
}

pub open spec fn imported_views(v: Seq<Imported>) -> Seq<ImportedView> {
    v.map_values(|e: Imported| imported_view(e))
}

pub open spec fn opt_view(e: Option<Imported>) -> Option<ImportedView> {
    match e {
        Some(x) => Some(imported_view(x)),
        None => None,
    }
}

/// What a reader makes of a list of sections, each read on its own into at
/// most one entry, in the order of the file.
pub open spec fn gathered(
    secs: Seq<ini::SectionView>,
    f: spec_fn(ini::SectionView) -> Option<ImportedView>,
) -> Seq<ImportedView>
    decreases secs.len(),
{
    if secs.len() == 0 {
        Seq::empty()
    } else {
        let before = gathered(secs.drop_last(), f);
        match f(secs.last()) {
            Some(e) => before.push(e),
            None => before,
        }
    }
}

/// An entry as `with_password` leaves it.
pub open spec fn with_password_view(e: ImportedView, password: Option<Seq<char>>) -> ImportedView {
    let keep = password matches Some(p) && p.len() > 0;
    ImportedView { has_password: keep, password: if keep { password } else { None }, ..e }
}

/// What one file turned out to hold.
#[derive(Clone)]
pub struct Found {
    pub source: Source,
    pub path: String,
    pub entries: Vec<Imported>,
    /// Translation keys for anything the reader could not do.
    pub warnings: Vec<String>,
}

impl Found {
    pub fn new(source: Source, path: &str) -> (f: Self)
        ensures
            f.source == source,
            f.path@ == path@,
            f.entries@.len() == 0,
            f.warnings@.len() == 0,
    {
        Found { source, path: path.to_string(), entries: Vec::new(), warnings: Vec::new() }
    }
}

/// A file that looks like one of these lists.
#[derive(Debug, Clone)]
pub struct Candidate {
    pub source: Source,
    pub path: String,
}

/// Adds a candidate unless its path is already on the list.
pub fn add(into: &mut Vec<Candidate>, source: Source, path: &str)
    ensures
        (exists|k: int| 0 <= k < old(into)@.len() && #[trigger] old(into)@[k].path@ == path@)
            ==> final(into)@ == old(into)@,
        !(exists|k: int| 0 <= k < old(into)@.len() && #[trigger] old(into)@[k].path@ == path@)
            ==> final(into)@.len() == old(into)@.len() + 1 && final(into)@.drop_last() == old(
            into,
        )@ && final(into)@.last().source == source && final(into)@.last().path@ == path@,
{
    let mut i: usize = 0;
    while i < into.len()
        invariant
            i <= into@.len(),
            into@ == old(into)@,
            forall|k: int| 0 <= k < i ==> #[trigger] into@[k].path@ != path@,
        decreases into@.len() - i,
    {
        if crate::text::str_eq(into[i].path.as_str(), path) {
            return ;
        }
        i = i + 1;
    }
    into.push(Candidate { source, path: path.to_string() });
}

/// One byte of windows-1252 as a character: Latin-1, except for the
/// thirty-two between 0x80 and 0x9F, where windows-1252 has punctuation.
pub open spec fn windows_1252(b: u8) -> char {
    if b == 0x80 { '\u{20AC}' } else if b == 0x81 { '\u{FFFD}' } else if b == 0x82 { '\u{201A}' }
    else if b == 0x83 { '\u{0192}' } else if b == 0x84 { '\u{201E}' } else if b == 0x85 { '\u{2026}' }
    else if b == 0x86 { '\u{2020}' } else if b == 0x87 { '\u{2021}' } else if b == 0x88 { '\u{02C6}' }
    else if b == 0x89 { '\u{2030}' } else if b == 0x8A { '\u{0160}' } else if b == 0x8B { '\u{2039}' }
    else if b == 0x8C { '\u{0152}' } else if b == 0x8D { '\u{FFFD}' } else if b == 0x8E { '\u{017D}' }
    else if b == 0x8F { '\u{FFFD}' } else if b == 0x90 { '\u{FFFD}' } else if b == 0x91 { '\u{2018}' }
    else if b == 0x92 { '\u{2019}' } else if b == 0x93 { '\u{201C}' } else if b == 0x94 { '\u{201D}' }
    else if b == 0x95 { '\u{2022}' } else if b == 0x96 { '\u{2013}' } else if b == 0x97 { '\u{2014}' }
    else if b == 0x98 { '\u{02DC}' } else if b == 0x99 { '\u{2122}' } else if b == 0x9A { '\u{0161}' }
    else if b == 0x9B { '\u{203A}' } else if b == 0x9C { '\u{0153}' } else if b == 0x9D { '\u{FFFD}' }
    else if b == 0x9E { '\u{017E}' } else if b == 0x9F { '\u{0178}' } else { (b as u32) as char }
}

pub fn latin(b: u8) -> (c: char)
    ensures
        c == windows_1252(b),
{
    if b == 0x80 { '\u{20AC}' } else if b == 0x81 { '\u{FFFD}' } else if b == 0x82 { '\u{201A}' }
    else if b == 0x83 { '\u{0192}' } else if b == 0x84 { '\u{201E}' } else if b == 0x85 { '\u{2026}' }
    else if b == 0x86 { '\u{2020}' } else if b == 0x87 { '\u{2021}' } else if b == 0x88 { '\u{02C6}' }
    else if b == 0x89 { '\u{2030}' } else if b == 0x8A { '\u{0160}' } else if b == 0x8B { '\u{2039}' }
    else if b == 0x8C { '\u{0152}' } else if b == 0x8D { '\u{FFFD}' } else if b == 0x8E { '\u{017D}' }
    else if b == 0x8F { '\u{FFFD}' } else if b == 0x90 { '\u{FFFD}' } else if b == 0x91 { '\u{2018}' }
    else if b == 0x92 { '\u{2019}' } else if b == 0x93 { '\u{201C}' } else if b == 0x94 { '\u{201D}' }
    else if b == 0x95 { '\u{2022}' } else if b == 0x96 { '\u{2013}' } else if b == 0x97 { '\u{2014}' }
    else if b == 0x98 { '\u{02DC}' } else if b == 0x99 { '\u{2122}' } else if b == 0x9A { '\u{0161}' }
    else if b == 0x9B { '\u{203A}' } else if b == 0x9C { '\u{0153}' } else if b == 0x9D { '\u{FFFD}' }
    else if b == 0x9E { '\u{017E}' } else if b == 0x9F { '\u{0178}' } else {
        crate::text::char_from(b as u32)
    }
}

/// Text out of bytes that may not be UTF-8: without a leading byte order
/// mark, UTF-8 where the rest is UTF-8, and windows-1252 where it is not.
pub open spec fn spec_decode(bytes: Seq<u8>) -> Seq<char> {
    let body = crate::editing::body_of(bytes);
    if valid_utf8(body) {
        decode_utf8(body)
    } else {
        body.map_values(|b: u8| windows_1252(b))
    }
}

pub fn decode(bytes: &[u8]) -> (s: String)
    ensures
        s@ == spec_decode(bytes@),
{
    let body = crate::editing::body_bytes(bytes);
    if crate::editing::utf8_ok(&body) {
        crate::editing::utf8_text(&body)
    } else {
        let mut out: Vec<char> = Vec::new();
        let mut i: usize = 0;
        while i < body.len()
            invariant
                i <= body@.len(),
                out@ == body@.take(i as int).map_values(|b: u8| windows_1252(b)),
            decreases body@.len() - i,
        {
            let c = latin(body[i]);
            out.push(c);
            i = i + 1;
            assert(body@.take(i as int).map_values(|b: u8| windows_1252(b)) =~= body@.take(
                i - 1,
            ).map_values(|b: u8| windows_1252(b)).push(c));
        }
        assert(body@.take(body@.len() as int) =~= body@);
        string_of(&out)
    }
}

/// Below each directory somebody drops files into, how deep to look.
pub const SCAN_DEPTH: u8 = 2;

/// Where each program keeps its own file, below a home directory, on the
/// system it runs on.
pub open spec fn spec_native_places(home: Seq<char>) -> Seq<(Source, Seq<char>)> {
    let roaming = spec_join(spec_join(home, "AppData"@), "Roaming"@);
    seq![
        (Source::SshConfig, spec_join(spec_join(home, ".ssh"@), "config"@)),
        (Source::FileZilla, spec_join(spec_join(spec_join(home, ".config"@), "filezilla"@), "sitemanager.xml"@)),
        (Source::FileZilla, spec_join(spec_join(roaming, "FileZilla"@), "sitemanager.xml"@)),
        (Source::WinScp, spec_join(roaming, "WinSCP.ini"@)),
        (Source::WcxFtp, spec_join(spec_join(roaming, "GHISLER"@), "wcx_ftp.ini"@)),
    ]
}

pub open spec fn place_views(s: Seq<(Source, String)>) -> Seq<(Source, Seq<char>)> {
    s.map_values(|p: (Source, String)| (p.0, p.1@))
}

/// Where each program keeps its own file below `home`.
pub fn native_places(home: &str) -> (out: Vec<(Source, String)>)
    ensures
        place_views(out@) == spec_native_places(home@),
{
    let local = LocalSession::new();
    let ssh = local.join(home, ".ssh");
    let config = local.join(home, ".config");
    let filezilla = local.join(config.as_str(), "filezilla");
    let appdata = local.join(home, "AppData");
    let roaming = local.join(appdata.as_str(), "Roaming");
    let roaming_fz = local.join(roaming.as_str(), "FileZilla");
    let ghisler = local.join(roaming.as_str(), "GHISLER");
    let mut out: Vec<(Source, String)> = Vec::new();
    out.push((Source::SshConfig, local.join(ssh.as_str(), "config")));
    out.push((Source::FileZilla, local.join(filezilla.as_str(), "sitemanager.xml")));
    out.push((Source::FileZilla, local.join(roaming_fz.as_str(), "sitemanager.xml")));
    out.push((Source::WinScp, local.join(roaming.as_str(), "WinSCP.ini")));
    out.push((Source::WcxFtp, local.join(ghisler.as_str(), "wcx_ftp.ini")));
    assert(place_views(out@) =~= spec_native_places(home@));
    out
}

/// The directories, below `home`, where somebody may have dropped such a
/// file after changing computers.
pub fn scan_roots(home: &str) -> (out: Vec<String>)
    ensures
        out@.len() == 3,
        out@[0]@ == spec_join(home@, "Downloads"@),
        out@[1]@ == spec_join(home@, "Desktop"@),
        out@[2]@ == spec_join(home@, "Documents"@),
{
    let local = LocalSession::new();
    let mut out: Vec<String> = Vec::new();
    out.push(local.join(home, "Downloads"));
    out.push(local.join(home, "Desktop"));
    out.push(local.join(home, "Documents"));
    out
}

} // verus!

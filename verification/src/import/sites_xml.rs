//! The XML site export of an older Windows client, usually saved as `.ftp`.
//!
//! The password is written out in the clear, which the reader reads and says
//! out loud while importing. `<GROUP>\Kunden\Müller\</GROUP>` carries the
//! folder.
use vstd::prelude::*;

use super::filezilla::{join_exec, joined};
use super::ini::value_in;
use super::winscp::spec_default_port;
use super::xml::{spec_walk, steps_view, Step, StepView};
use super::{imported_view, imported_views, with_password_view, Found, Imported, ImportedView, Source};
use crate::config::AuthKind;
use crate::endpoint::Protocol;
use crate::ftp::Encryption;
use crate::text::{chars_of, contains, parse_unsigned, same_ignoring_case, split, string_of, trim, upper_ascii, views};

verus! {

/// The warning for a file that holds passwords in the clear.
pub open spec fn cleartext_warning() -> Seq<char> {
    "import.warning.cleartext"@
}

/// One site as the file describes it.
pub struct Site {
    pub name: String,
    pub group: String,
    pub protocol: String,
    pub address: String,
    pub port: Option<u16>,
    pub user: String,
    pub password: Option<String>,
    pub remote_path: Option<String>,
    pub ssl: String,
}

pub struct SiteView {
    pub name: Seq<char>,
    pub group: Seq<char>,
    pub protocol: Seq<char>,
    pub address: Seq<char>,
    pub port: Option<u16>,
    pub user: Seq<char>,
    pub password: Option<Seq<char>>,
    pub remote_path: Option<Seq<char>>,
    pub ssl: Seq<char>,
}

pub open spec fn site_view(s: Site) -> SiteView {
    SiteView {
        name: s.name@,
        group: s.group@,
        protocol: s.protocol@,
        address: s.address@,
        port: s.port,
        user: s.user@,
        password: crate::text::opt_text(s.password),
        remote_path: crate::text::opt_text(s.remote_path),
        ssl: s.ssl@,
    }
}

/// A site of the given name that nothing else has been said about.
pub open spec fn named_site(name: Seq<char>) -> SiteView {
    SiteView {
        name,
        group: Seq::empty(),
        protocol: Seq::empty(),
        address: Seq::empty(),
        port: None,
        user: Seq::empty(),
        password: None,
        remote_path: None,
        ssl: Seq::empty(),
    }
}

pub open spec fn non_empty_value(value: Seq<char>) -> Option<Seq<char>> {
    if value.len() > 0 {
        Some(value)
    } else {
        None
    }
}

/// What one field says about a site; field names in any case.
pub open spec fn spec_set(s: SiteView, field: Seq<char>, value: Seq<char>) -> SiteView {
    let f = upper_ascii(field);
    if f == "GROUP"@ {
        SiteView { group: value, ..s }
    } else if f == "PROTOCOL"@ {
        SiteView { protocol: upper_ascii(value), ..s }
    } else if f == "ADDRESS"@ {
        SiteView { address: value, ..s }
    } else if f == "PORT"@ {
        SiteView {
            port: match parse_unsigned(value, u16::MAX as nat) {
                Some(n) => Some(n as u16),
                None => None,
            },
            ..s
        }
    } else if f == "USERNAME"@ {
        SiteView { user: value, ..s }
    } else if f == "PASSWORD"@ {
        SiteView { password: non_empty_value(value), ..s }
    } else if f == "REMOTEPATH"@ {
        SiteView { remote_path: non_empty_value(value), ..s }
    } else if f == "SSL"@ {
        SiteView { ssl: upper_ascii(value), ..s }
    } else {
        s
    }
}

impl Site {
    pub fn named(name: String) -> (s: Site)
        ensures
            site_view(s) == named_site(name@),
    {
        Site {
            name,
            group: String::new(),
            protocol: String::new(),
            address: String::new(),
            port: None,
            user: String::new(),
            password: None,
            remote_path: None,
            ssl: String::new(),
        }
    }

    /// Takes in one field of the file.
    pub fn set(&mut self, field: &str, value: &str)
        ensures
            site_view(*final(self)) == spec_set(site_view(*old(self)), field@, value@),
    {
        let fc = chars_of(field);
        let f = crate::text::uppered(&fc);
        let v = chars_of(value);
        let owned = if value.is_empty() {
            None
        } else {
            Some(value.to_string())
        };
        if crate::text::is_text(&f, "GROUP") {
            self.group = value.to_string();
        } else if crate::text::is_text(&f, "PROTOCOL") {
            self.protocol = string_of(&crate::text::uppered(&v));
        } else if crate::text::is_text(&f, "ADDRESS") {
            self.address = value.to_string();
        } else if crate::text::is_text(&f, "PORT") {
            self.port = crate::text::parse_u16(&v);
        } else if crate::text::is_text(&f, "USERNAME") {
            self.user = value.to_string();
        } else if crate::text::is_text(&f, "PASSWORD") {
            self.password = owned;
        } else if crate::text::is_text(&f, "REMOTEPATH") {
            self.remote_path = owned;
        } else if crate::text::is_text(&f, "SSL") {
            self.ssl = string_of(&crate::text::uppered(&v));
        }
    }
}

/// The parts of a group that have anything but white space in them.
pub open spec fn group_parts(parts: Seq<Seq<char>>) -> Seq<Seq<char>>
    decreases parts.len(),
{
    if parts.len() == 0 {
        parts
    } else if trim(parts.last()).len() == 0 {
        group_parts(parts.drop_last())
    } else {
        group_parts(parts.drop_last()).push(parts.last())
    }
}

/// The protocol and encryption a site names.
pub open spec fn kind_of(s: SiteView) -> (Protocol, Option<Encryption>) {
    if contains(s.protocol, "SFTP"@) {
        (Protocol::Sftp, None)
    } else if s.ssl.len() == 0 || s.ssl == "NONE"@ {
        (Protocol::Ftp, None)
    } else if s.ssl == "IMPLICIT"@ {
        (Protocol::Ftps, Some(Encryption::Implicit))
    } else {
        (Protocol::Ftps, Some(Encryption::Explicit))
    }
}

/// The entry a site becomes, where it has an address.
pub open spec fn spec_into_entry(s: SiteView) -> Option<ImportedView> {
    if s.address.len() == 0 {
        None
    } else {
        let (protocol, encryption) = kind_of(s);
        let entry = ImportedView {
            name: if s.name.len() == 0 {
                s.address
            } else {
                s.name
            },
            folder: joined(group_parts(split(s.group, '\\')), '/'),
            protocol,
            host: s.address,
            port: match s.port {
                Some(p) => p,
                None => spec_default_port(protocol),
            },
            user: s.user,
            auth: AuthKind::Password,
            key_path: None,
            remote_path: s.remote_path,
            encryption,
            has_password: false,
            password: None,
        };
        Some(with_password_view(entry, s.password))
    }
}

fn kind_exec(s: &Site) -> (r: (Protocol, Option<Encryption>))
    ensures
        r == kind_of(site_view(*s)),
{
    let p = chars_of(s.protocol.as_str());
    let sftp = chars_of("SFTP");
    let ssl = chars_of(s.ssl.as_str());
    if crate::text::contains_seq(&p, &sftp) {
        (Protocol::Sftp, None)
    } else if ssl.len() == 0 || crate::text::is_text(&ssl, "NONE") {
        (Protocol::Ftp, None)
    } else if crate::text::is_text(&ssl, "IMPLICIT") {
        (Protocol::Ftps, Some(Encryption::Implicit))
    } else {
        (Protocol::Ftps, Some(Encryption::Explicit))
    }
}

fn group_exec(group: &str) -> (out: String)
    ensures
        out@ == joined(group_parts(split(group@, '\\')), '/'),
{
    let g = chars_of(group);
    let pieces = crate::text::split_pieces(&g, '\\');
    let ghost pv = views(pieces@);
    let mut kept: Vec<Vec<char>> = Vec::new();
    let mut i: usize = 0;
    while i < pieces.len()
        invariant
            i <= pieces@.len(),
            pv == views(pieces@),
            pv == split(group@, '\\'),
            views(kept@) == group_parts(pv.take(i as int)),
        decreases pieces@.len() - i,
    {
        assert(pv.take(i + 1).drop_last() =~= pv.take(i as int));
        assert(pv.take(i + 1).last() == pieces@[i as int]@);
        let t = crate::text::trimmed(&pieces[i]);
        if t.len() > 0 {
            let ghost before = kept@;
            let piece = crate::text::slice_range(&pieces[i], 0, pieces[i].len());
            assert(piece@ =~= pieces@[i as int]@);
            kept.push(piece);
            assert(views(kept@) =~= views(before).push(piece@));
        }
        i = i + 1;
    }
    assert(pv.take(pieces@.len() as int) =~= pv);
    string_of(&join_exec(&kept, '/'))
}

fn into_entry(s: Site) -> (r: Option<Imported>)
    ensures
        super::opt_view(r) == spec_into_entry(site_view(s)),
{
    let ghost sv = site_view(s);
    if s.address.as_str().is_empty() {
        return None;
    }
    let (protocol, encryption) = kind_exec(&s);
    let name = if s.name.as_str().is_empty() {
        s.address.clone()
    } else {
        s.name.clone()
    };
    let mut entry = Imported::named(name.as_str());
    entry.folder = group_exec(s.group.as_str());
    entry.protocol = protocol;
    entry.encryption = encryption;
    entry.port = match s.port {
        Some(p) => p,
        None => super::winscp::default_port(protocol),
    };
    entry.host = s.address;
    entry.user = s.user;
    entry.auth = AuthKind::Password;
    entry.remote_path = s.remote_path;
    let done = entry.with_password(s.password);
    proof {
        let want = spec_into_entry(sv)->Some_0;
        let d = imported_view(done);
        assert(d.name == want.name);
        assert(d.folder == want.folder);
        assert(d.protocol == want.protocol);
        assert(d.host == want.host);
        assert(d.port == want.port);
        assert(d.user == want.user);
        assert(d.auth == want.auth);
        assert(d.key_path == want.key_path);
        assert(d.remote_path == want.remote_path);
        assert(d.encryption == want.encryption);
        assert(d.has_password == want.has_password);
        assert(d.password == want.password);
    }
    Some(done)
}

/// Where the reading of a file stands.
pub struct SxState {
    pub current: Option<SiteView>,
    pub entries: Seq<ImportedView>,
    pub cleartext: bool,
}

/// What one step of the walk does to the reading.
pub open spec fn sx_step(st: SxState, step: StepView) -> SxState {
    match step {
        StepView::Open(e) => if same_ignoring_case(e.name, "SITE"@) {
            SxState {
                current: Some(
                    named_site(
                        trim(
                            match value_in(e.attributes, "NAME"@, 0) {
                                Some(n) => n,
                                None => Seq::empty(),
                            },
                        ),
                    ),
                ),
                ..st
            }
        } else {
            match st.current {
                Some(s) => SxState { current: Some(spec_set(s, e.name, trim(e.text))), ..st },
                None => st,
            }
        },
        StepView::Close(n) => if same_ignoring_case(n, "SITE"@) {
            match st.current {
                None => st,
                Some(s) => SxState {
                    current: None,
                    entries: match spec_into_entry(s) {
                        Some(entry) => st.entries.push(entry),
                        None => st.entries,
                    },
                    cleartext: st.cleartext || s.password is Some,
                },
            }
        } else {
            st
        },
    }
}

pub open spec fn sx_steps(steps: Seq<StepView>) -> SxState
    decreases steps.len(),
{
    if steps.len() == 0 {
        SxState { current: None, entries: Seq::empty(), cleartext: false }
    } else {
        sx_step(sx_steps(steps.drop_last()), steps.last())
    }
}

pub open spec fn opt_site_view(s: Option<Site>) -> Option<SiteView> {
    match s {
        Some(x) => Some(site_view(x)),
        None => None,
    }
}

/// Reads the steps of a walk over an export into its sites, with a warning
/// where a password was in the clear.
pub fn from_steps(steps: &Vec<Step>, path: &str) -> (found: Found)
    ensures
        found.source == Source::SitesXml,
        found.path@ == path@,
        imported_views(found.entries@) == sx_steps(steps_view(steps@)).entries,
        found.warnings@.len() == (if sx_steps(steps_view(steps@)).cleartext {
            1int
        } else {
            0int
        }),
        sx_steps(steps_view(steps@)).cleartext ==> found.warnings@[0]@ == cleartext_warning(),
{
    let ghost sv = steps_view(steps@);
    let mut found = Found::new(Source::SitesXml, path);
    let mut current: Option<Site> = None;
    let mut cleartext = false;
    let mut i: usize = 0;
    assert(sv.take(0) =~= Seq::<StepView>::empty());
    assert(imported_views(found.entries@) =~= Seq::<ImportedView>::empty());
    while i < steps.len()
        invariant
            i <= steps@.len(),
            sv == steps_view(steps@),
            found.source == Source::SitesXml,
            found.path@ == path@,
            found.warnings@.len() == 0,
            ({
                let st = sx_steps(sv.take(i as int));
                &&& opt_site_view(current) == st.current
                &&& imported_views(found.entries@) == st.entries
                &&& cleartext == st.cleartext
            }),
        decreases steps@.len() - i,
    {
        assert(sv.take(i + 1).drop_last() =~= sv.take(i as int));
        assert(sv.take(i + 1).last() == super::xml::step_view(steps@[i as int]));
        let site_word = chars_of("SITE");
        match &steps[i] {
            Step::Open(element) => {
                let name = chars_of(element.name.as_str());
                if crate::text::eq_ignore_case(&name, &site_word) {
                    let given = match element.attribute("NAME") {
                        Some(n) => chars_of(n),
                        None => Vec::new(),
                    };
                    let trimmed = string_of(&crate::text::trimmed(&given));
                    current = Some(Site::named(trimmed));
                } else {
                    match current {
                        Some(mut site) => {
                            let tc = chars_of(element.text.as_str());
                            let text = string_of(&crate::text::trimmed(&tc));
                            site.set(element.name.as_str(), text.as_str());
                            current = Some(site);
                        },
                        None => {},
                    }
                }
            },
            Step::Close(n) => {
                let name = chars_of(n.as_str());
                if crate::text::eq_ignore_case(&name, &site_word) {
                    match current {
                        Some(site) => {
                            current = None;
                            if site.password.is_some() {
                                cleartext = true;
                            }
                            let ghost entries_before = found.entries@;
                            match into_entry(site) {
                                Some(entry) => {
                                    found.entries.push(entry);
                                    assert(imported_views(found.entries@) =~= imported_views(entries_before).push(imported_view(entry)));
                                },
                                None => {},
                            }
                        },
                        None => {},
                    }
                }
            },
        }
        i = i + 1;
    }
    assert(sv.take(steps@.len() as int) =~= sv);
    if cleartext {
        found.warnings.push("import.warning.cleartext".to_string());
    }
    found
}

/// Reads an export into its sites.
pub fn parse(text: &str, path: &str) -> (found: Found)
    ensures
        found.source == Source::SitesXml,
        found.path@ == path@,
        imported_views(found.entries@) == sx_steps(spec_walk(text@)).entries,
        found.warnings@.len() == (if sx_steps(spec_walk(text@)).cleartext {
            1int
        } else {
            0int
        }),
        sx_steps(spec_walk(text@)).cleartext ==> found.warnings@[0]@ == cleartext_warning(),
{
    let steps = super::xml::walk(text);
    from_steps(&steps, path)
}

} // verus!

//! What is kept between starts: the settings, the quick connect history, the
//! places sites were left, and the certificates accepted by hand. Reading and
//! writing the files is the caller's part; what each change does to what is
//! kept is decided here. Never a password.
use vstd::prelude::*;

use crate::editing::EditRule;
use crate::endpoint::{spec_default_concurrency, Protocol};
use crate::error::{Error, PathProblem};
use crate::ftp::tls::{filed, not_under, Exceptions};
use crate::ftp::Encryption;
use crate::sites::Site;
use crate::text::{opt_text, string_of};
use crate::transfer::ConflictPolicy;

verus! {

/// How a quick connect entry authenticates. No secret is part of this.
#[derive(Debug, Clone, Copy, PartialEq, Eq, Structural)]
pub enum AuthKind {
    Password,
    KeyFile,
    Agent,
}

/// The settings that apply when a connection says nothing of its own.
#[derive(Debug, Clone, PartialEq, Eq)]
pub struct Settings {
    /// Transfers at once; `None` lets the protocol decide.
    pub concurrency: Option<u8>,
    /// Attempts before a broken job is paused rather than retried again.
    pub retries: u8,
    /// Carry the source's modification time across.
    pub keep_modified: bool,
    /// Carry the source's permission bits across.
    pub keep_permissions: bool,
    /// Write to a temporary name and rename when the file is whole.
    pub temporary_name: bool,
    /// Ask now and then whether a newer release exists.
    pub check_for_updates: bool,
    /// What to do when a file is already there, decided once; `None` asks.
    pub conflict_policy: Option<ConflictPolicy>,
    /// Show what a comparison found before anything is queued.
    pub review_comparison: bool,
    /// Carry a deletion across.
    pub delete_along: bool,
    /// Whether a program driving this one may connect to a server that is
    /// not in the list.
    pub mcp_quick_connect: bool,
    /// Whether such a program may write new entries into the server list.
    pub mcp_create_sites: bool,
    /// What may be edited where it lies, and what opens it.
    pub editing: Vec<EditRule>,
    /// Take a finished line out of the queue by itself.
    pub clear_finished: bool,
}

impl Default for Settings {
    fn default() -> (s: Self)
        ensures
            s.concurrency is None,
            s.retries == 5,
            s.keep_modified,
            !s.keep_permissions,
            s.temporary_name,
            s.check_for_updates,
            s.conflict_policy is None,
            s.review_comparison,
            !s.delete_along,
            !s.mcp_quick_connect,
            !s.mcp_create_sites,
            !s.clear_finished,
            s.editing@.len() == 1,
            s.editing@[0].open_with == crate::editing::OpenWith::Own,
            s.editing@[0].program is None,
            crate::editing::views_of(s.editing@[0].extensions@) == crate::editing::shipped_kinds(),
    {
        Settings {
            concurrency: None,
            retries: 5,
            keep_modified: true,
            keep_permissions: false,
            temporary_name: true,
            check_for_updates: true,
            conflict_policy: None,
            clear_finished: false,
            editing: EditRule::shipped(),
            review_comparison: true,
            delete_along: false,
            mcp_quick_connect: false,
            mcp_create_sites: false,
        }
    }
}

/// One server reached through quick connect.
#[derive(Debug, Clone, PartialEq, Eq)]
pub struct QuickConnectEntry {
    /// `user@host:port`: one entry per login.
    pub id: String,
    pub protocol: Protocol,
    pub host: String,
    pub port: u16,
    pub user: String,
    pub auth: AuthKind,
    pub key_path: Option<String>,
    /// The directory this server was last showing.
    pub last_path: Option<String>,
    /// Seconds since the Unix epoch, for sorting the list.
    pub last_used: i64,
    /// Whether this login has already been written to the site manager.
    pub saved_as_site: bool,
    pub concurrency: Option<u8>,
    pub retries: Option<u8>,
    pub temporary_name: Option<bool>,
    pub encryption: Option<Encryption>,
    pub passive: Option<bool>,
    pub latin1: Option<bool>,
    pub keep_alive: Option<u32>,
}

/// An entry as plain values.
pub struct EntryView {
    pub id: Seq<char>,
    pub protocol: Protocol,
    pub host: Seq<char>,
    pub port: u16,
    pub user: Seq<char>,
    pub auth: AuthKind,
    pub key_path: Option<Seq<char>>,
    pub last_path: Option<Seq<char>>,
    pub last_used: i64,
    pub saved_as_site: bool,
    pub concurrency: Option<u8>,
    pub retries: Option<u8>,
    pub temporary_name: Option<bool>,
    pub encryption: Option<Encryption>,
    pub passive: Option<bool>,
    pub latin1: Option<bool>,
    pub keep_alive: Option<u32>,
}

pub open spec fn entry_view(e: QuickConnectEntry) -> EntryView {
    EntryView {
        id: e.id@,
        protocol: e.protocol,
        host: e.host@,
        port: e.port,
        user: e.user@,
        auth: e.auth,
        key_path: opt_text(e.key_path),
        last_path: opt_text(e.last_path),
        last_used: e.last_used,
        saved_as_site: e.saved_as_site,
        concurrency: e.concurrency,
        retries: e.retries,
        temporary_name: e.temporary_name,
        encryption: e.encryption,
        passive: e.passive,
        latin1: e.latin1,
        keep_alive: e.keep_alive,
    }
}

pub open spec fn entry_views(v: Seq<QuickConnectEntry>) -> Seq<EntryView> {
    v.map_values(|e: QuickConnectEntry| entry_view(e))
}

/// The identifier of a login: `user@host:port`.
pub open spec fn spec_id_for(user: Seq<char>, host: Seq<char>, port: u16) -> Seq<char> {
    user + seq!['@'] + host + seq![':'] + crate::text::decimal(port as nat)
}

fn copy_text(s: &Option<String>) -> (r: Option<String>)
    ensures
        opt_text(r) == opt_text(*s),
{
    match s {
        Some(t) => Some(t.clone()),
        None => None,
    }
}

impl QuickConnectEntry {
    pub fn id_for(user: &str, host: &str, port: u16) -> (id: String)
        ensures
            id@ == spec_id_for(user@, host@, port),
    {
        let mut v = crate::text::chars_of(user);
        v.push('@');
        let h = crate::text::chars_of(host);
        crate::text::append_chars(&mut v, &h);
        v.push(':');
        let p = crate::text::decimal_of(port as u64);
        crate::text::append_chars(&mut v, &p);
        string_of(&v)
    }

    /// The same entry, field for field.
    pub fn copy(&self) -> (e: QuickConnectEntry)
        ensures
            entry_view(e) == entry_view(*self),
    {
        QuickConnectEntry {
            id: self.id.clone(),
            protocol: self.protocol,
            host: self.host.clone(),
            port: self.port,
            user: self.user.clone(),
            auth: self.auth,
            key_path: copy_text(&self.key_path),
            last_path: copy_text(&self.last_path),
            last_used: self.last_used,
            saved_as_site: self.saved_as_site,
            concurrency: self.concurrency,
            retries: self.retries,
            temporary_name: self.temporary_name,
            encryption: self.encryption,
            passive: self.passive,
            latin1: self.latin1,
            keep_alive: self.keep_alive,
        }
    }
}

/// Where `x` goes among entries already in order, most recent first: after
/// every entry used at the same time or later, so that entries used at the
/// same time keep the order they came in.
pub open spec fn place_of(s: Seq<EntryView>, x: EntryView) -> int
    decreases s.len(),
{
    if s.len() == 0 {
        0
    } else if s.last().last_used >= x.last_used {
        s.len() as int
    } else {
        place_of(s.drop_last(), x)
    }
}

pub open spec fn insert_recent(s: Seq<EntryView>, x: EntryView) -> Seq<EntryView> {
    let k = place_of(s, x);
    s.take(k) + seq![x] + s.skip(k)
}

/// The history most recently used first; entries used at the same time in
/// the order they were kept.
pub open spec fn sort_recent(s: Seq<EntryView>) -> Seq<EntryView>
    decreases s.len(),
{
    if s.len() == 0 {
        s
    } else {
        insert_recent(sort_recent(s.drop_last()), s.last())
    }
}

/// Whether entries are in order, most recently used first.
pub open spec fn recent_first(s: Seq<EntryView>) -> bool {
    forall|i: int, j: int| 0 <= i < j < s.len() ==> s[i].last_used >= s[j].last_used
}

/// The first entry for a login.
pub open spec fn first_with_id(s: Seq<EntryView>, id: Seq<char>) -> Option<EntryView>
    decreases s.len(),
{
    if s.len() == 0 {
        None
    } else if s[0].id == id {
        Some(s[0])
    } else {
        first_with_id(s.drop_first(), id)
    }
}

/// Whether an entry belongs to some other login than `id`.
pub open spec fn other_login(id: Seq<char>) -> spec_fn(EntryView) -> bool {
    |e: EntryView| e.id != id
}

/// The history after a connection: the new entry first, carrying the
/// saved flag of the entry it replaces, and every entry of another login
/// after it, most recent first.
pub open spec fn remembered(h: Seq<EntryView>, e: EntryView) -> Seq<EntryView> {
    let sorted = sort_recent(h);
    let prior_saved = match first_with_id(sorted, e.id) {
        Some(p) => p.saved_as_site,
        None => false,
    };
    seq![EntryView { saved_as_site: e.saved_as_site || prior_saved, ..e }] + sorted.filter(
        other_login(e.id),
    )
}

/// The history without a login, most recent first.
pub open spec fn forgotten(h: Seq<EntryView>, id: Seq<char>) -> Seq<EntryView> {
    sort_recent(h).filter(other_login(id))
}

/// The site a history entry becomes: its own name of `user@host`, at the
/// top level, without a password and with the entry's own numbers.
pub open spec fn site_fits(s: Site, e: EntryView, new_id: Seq<char>) -> bool {
    &&& s.id@ == new_id
    &&& s.name@ == e.user + seq!['@'] + e.host
    &&& s.protocol == e.protocol
    &&& s.host@ == e.host
    &&& s.port == e.port
    &&& s.user@ == e.user
    &&& s.auth == e.auth
    &&& opt_text(s.key_path) == e.key_path
    &&& opt_text(s.remote_path) == e.last_path
    &&& !s.remember_path
    &&& s.local_path is None
    &&& s.concurrency == match e.concurrency {
        Some(n) => n,
        None => spec_default_concurrency(e.protocol),
    }
    &&& s.retries == e.retries
    &&& s.temporary_name == e.temporary_name
    &&& s.encryption == e.encryption
    &&& s.passive == e.passive
    &&& s.latin1 == e.latin1
    &&& s.keep_alive == e.keep_alive
    &&& !s.remember_password
    &&& s.wastebasket is None
    &&& s.count_before_delete
    &&& !s.mcp_see && !s.mcp_upload && !s.mcp_download
    &&& !s.mcp_create && !s.mcp_rename && !s.mcp_remove
    &&& s.excludes@.len() == 0
    &&& s.colour is None
}

/// What is kept, as it stands once read: the history in the order it was
/// written, where each site was left (one pair per site, the first pair for
/// an identifier deciding), the settings and the accepted certificates.
pub struct Config {
    pub root: String,
    pub history: Vec<QuickConnectEntry>,
    pub visits: Vec<(String, String)>,
    pub settings: Settings,
    pub exceptions: Exceptions,
}

fn place_exec(s: &Vec<QuickConnectEntry>, x: &QuickConnectEntry) -> (k: usize)
    ensures
        k == place_of(entry_views(s@), entry_view(*x)),
        k <= s@.len(),
{
    let ghost sv = entry_views(s@);
    let mut k = s.len();
    assert(sv.take(k as int) =~= sv);
    while k > 0 && s[k - 1].last_used < x.last_used
        invariant
            k <= s@.len(),
            sv == entry_views(s@),
            place_of(sv, entry_view(*x)) == place_of(sv.take(k as int), entry_view(*x)),
        decreases k,
    {
        assert(sv.take(k as int).drop_last() =~= sv.take(k - 1));
        assert(sv.take(k as int).last() == entry_view(s@[k - 1]));
        k = k - 1;
    }
    proof {
        if k > 0 {
            assert(sv.take(k as int).last() == entry_view(s@[k - 1]));
        }
    }
    k
}

/// The history, most recently used first.
pub fn sorted_recent(history: &Vec<QuickConnectEntry>) -> (out: Vec<QuickConnectEntry>)
    ensures
        entry_views(out@) == sort_recent(entry_views(history@)),
{
    let ghost hv = entry_views(history@);
    let mut out: Vec<QuickConnectEntry> = Vec::new();
    let mut i: usize = 0;
    assert(hv.take(0) =~= Seq::<EntryView>::empty());
    assert(entry_views(out@) =~= Seq::<EntryView>::empty());
    while i < history.len()
        invariant
            i <= history@.len(),
            hv == entry_views(history@),
            entry_views(out@) == sort_recent(hv.take(i as int)),
        decreases history@.len() - i,
    {
        assert(hv.take(i + 1).drop_last() =~= hv.take(i as int));
        assert(hv.take(i + 1).last() == entry_view(history@[i as int]));
        let x = history[i].copy();
        let k = place_exec(&out, &x);
        let ghost before = out@;
        out.insert(k, x);
        assert(entry_views(out@) =~= insert_recent(entry_views(before), entry_view(x)));
        i = i + 1;
    }
    assert(hv.take(history@.len() as int) =~= hv);
    out
}

fn without_login(entries: &Vec<QuickConnectEntry>, id: &str) -> (out: Vec<QuickConnectEntry>)
    ensures
        entry_views(out@) == entry_views(entries@).filter(other_login(id@)),
{
    let ghost ev = entry_views(entries@);
    let mut out: Vec<QuickConnectEntry> = Vec::new();
    let mut i: usize = 0;
    assert(ev.take(0).filter(other_login(id@)) =~= Seq::<EntryView>::empty());
    assert(entry_views(out@) =~= Seq::<EntryView>::empty());
    while i < entries.len()
        invariant
            i <= entries@.len(),
            ev == entry_views(entries@),
            entry_views(out@) == ev.take(i as int).filter(other_login(id@)),
        decreases entries@.len() - i,
    {
        assert(ev.take(i + 1).drop_last() =~= ev.take(i as int));
        assert(ev.take(i + 1).last() == entry_view(entries@[i as int]));
        reveal_with_fuel(Seq::filter, 1);
        if !crate::text::str_eq(entries[i].id.as_str(), id) {
            let ghost before = out@;
            let e = entries[i].copy();
            out.push(e);
            assert(entry_views(out@) =~= entry_views(before).push(entry_view(e)));
        }
        i = i + 1;
    }
    assert(ev.take(entries@.len() as int) =~= ev);
    out
}

fn first_saved(entries: &Vec<QuickConnectEntry>, id: &str) -> (r: Option<usize>)
    ensures
        match r {
            Some(k) => k < entries@.len() && first_with_id(entry_views(entries@), id@) == Some(
                entry_view(entries@[k as int]),
            ),
            None => first_with_id(entry_views(entries@), id@) is None,
        },
{
    let ghost ev = entry_views(entries@);
    let mut i: usize = 0;
    assert(ev.skip(0) =~= ev);
    while i < entries.len()
        invariant
            i <= entries@.len(),
            ev == entry_views(entries@),
            first_with_id(ev, id@) == first_with_id(ev.skip(i as int), id@),
        decreases entries@.len() - i,
    {
        assert(ev.skip(i as int)[0] == entry_view(entries@[i as int]));
        assert(ev.skip(i as int).drop_first() =~= ev.skip(i + 1));
        if crate::text::str_eq(entries[i].id.as_str(), id) {
            return Some(i);
        }
        i = i + 1;
    }
    None
}

impl Config {
    /// Nothing kept yet, at a directory.
    pub fn at(root: &str) -> (c: Config)
        ensures
            c.root@ == root@,
            c.history@.len() == 0,
            c.visits@.len() == 0,
            c.exceptions.accepted@.len() == 0,
    {
        Config {
            root: root.to_string(),
            history: Vec::new(),
            visits: Vec::new(),
            settings: Settings::default(),
            exceptions: Exceptions { accepted: Vec::new() },
        }
    }

    /// The quick connect history, most recently used first.
    pub fn quick_connect(&self) -> (out: Vec<QuickConnectEntry>)
        ensures
            entry_views(out@) == sort_recent(entry_views(self.history@)),
    {
        sorted_recent(&self.history)
    }

    /// Records a connection, replacing the entry for the same login.
    pub fn remember_quick_connect(&mut self, entry: QuickConnectEntry)
        ensures
            entry_views(final(self).history@) == remembered(entry_views(old(self).history@), entry_view(entry)),
            final(self).visits@ == old(self).visits@,
            final(self).exceptions == old(self).exceptions,
            final(self).root == old(self).root,
    {
        let entries = self.quick_connect();
        let saved = match first_saved(&entries, entry.id.as_str()) {
            Some(k) => entries[k].saved_as_site,
            None => false,
        };
        let rest = without_login(&entries, entry.id.as_str());
        let mut first = entry;
        first.saved_as_site = first.saved_as_site || saved;
        let mut out = rest;
        let ghost tail = out@;
        out.insert(0, first);
        assert(entry_views(out@) =~= seq![entry_view(first)] + entry_views(tail));
        self.history = out;
    }

    /// Forgets a login.
    pub fn forget_quick_connect(&mut self, id: &str)
        ensures
            entry_views(final(self).history@) == forgotten(entry_views(old(self).history@), id@),
            final(self).visits@ == old(self).visits@,
            final(self).exceptions == old(self).exceptions,
            final(self).root == old(self).root,
    {
        let entries = self.quick_connect();
        self.history = without_login(&entries, id);
    }

    /// The site a history entry becomes, marking the entry as taken over;
    /// the caller writes the site file at the top level, then the history.
    pub fn save_as_site(&mut self, id: &str, new_id: &str) -> (r: Result<Site, Error>)
        ensures
            match r {
                Ok(site) => {
                    let e = first_with_id(sort_recent(entry_views(old(self).history@)), id@);
                    &&& e is Some
                    &&& site_fits(site, e->Some_0, new_id@)
                    &&& entry_views(final(self).history@) == remembered(
                        entry_views(old(self).history@),
                        EntryView { saved_as_site: true, ..e->Some_0 },
                    )
                },
                Err(err) => {
                    &&& first_with_id(sort_recent(entry_views(old(self).history@)), id@) is None
                    &&& err matches Error::Path { path, reason } && path@ == id@ && reason
                        == PathProblem::NotFound
                    &&& final(self).history@ == old(self).history@
                },
            },
            final(self).visits@ == old(self).visits@,
            final(self).exceptions == old(self).exceptions,
    {
        let entries = self.quick_connect();
        let k = match first_saved(&entries, id) {
            Some(k) => k,
            None => {
                return Err(Error::Path { path: id.to_string(), reason: PathProblem::NotFound });
            },
        };
        let entry = entries[k].copy();
        let mut name = crate::text::chars_of(entry.user.as_str());
        name.push('@');
        let h = crate::text::chars_of(entry.host.as_str());
        crate::text::append_chars(&mut name, &h);
        assert(name@ =~= entry.user@ + seq!['@'] + entry.host@);
        let site = Site {
            id: new_id.to_string(),
            name: string_of(&name),
            protocol: entry.protocol,
            host: entry.host.clone(),
            port: entry.port,
            user: entry.user.clone(),
            auth: entry.auth,
            key_path: copy_text(&entry.key_path),
            remote_path: copy_text(&entry.last_path),
            remember_path: false,
            local_path: None,
            concurrency: match entry.concurrency {
                Some(n) => n,
                None => entry.protocol.default_concurrency(),
            },
            retries: entry.retries,
            temporary_name: entry.temporary_name,
            encryption: entry.encryption,
            passive: entry.passive,
            latin1: entry.latin1,
            keep_alive: entry.keep_alive,
            remember_password: false,
            wastebasket: None,
            count_before_delete: true,
            mcp_see: false,
            mcp_upload: false,
            mcp_download: false,
            mcp_create: false,
            mcp_rename: false,
            mcp_remove: false,
            excludes: Vec::new(),
            colour: None,
        };
        let ghost e = entry_view(entry);
        let mut marked = entry;
        marked.saved_as_site = true;
        assert(entry_view(marked) == EntryView { saved_as_site: true, ..e });
        self.remember_quick_connect(marked);
        assert(site_fits(site, e, new_id@));
        Ok(site)
    }

    /// Where a site was last left, or `None` if it has not been anywhere.
    pub fn visited(&self, id: &str) -> (r: Option<String>)
        ensures
            opt_text(r) == filed(self.visits@, id@),
    {
        let mut i: usize = 0;
        let ghost v = self.visits@;
        assert(v.skip(0) =~= v);
        while i < self.visits.len()
            invariant
                i <= v.len(),
                v == self.visits@,
                filed(v, id@) == filed(v.skip(i as int), id@),
            decreases v.len() - i,
        {
            assert(v.skip(i as int)[0] == v[i as int]);
            assert(v.skip(i as int).drop_first() =~= v.skip(i + 1));
            if crate::text::str_eq(self.visits[i].0.as_str(), id) {
                return Some(self.visits[i].1.clone());
            }
            i = i + 1;
        }
        None
    }

    fn drop_visit(&mut self, id: &str)
        ensures
            final(self).visits@ == old(self).visits@.filter(not_under(id@)),
            final(self).history@ == old(self).history@,
            final(self).exceptions == old(self).exceptions,
            final(self).root == old(self).root,
    {
        let ghost before = self.visits@;
        let mut kept: Vec<(String, String)> = Vec::new();
        let mut i: usize = 0;
        assert(before.take(0).filter(not_under(id@)) =~= Seq::<(String, String)>::empty());
        while i < self.visits.len()
            invariant
                i <= before.len(),
                before == self.visits@,
                kept@ == before.take(i as int).filter(not_under(id@)),
            decreases before.len() - i,
        {
            assert(before.take(i + 1).drop_last() =~= before.take(i as int));
            reveal_with_fuel(Seq::filter, 1);
            if !crate::text::str_eq(self.visits[i].0.as_str(), id) {
                let pair = (self.visits[i].0.clone(), self.visits[i].1.clone());
                assert(pair == before[i as int]);
                kept.push(pair);
            }
            i = i + 1;
        }
        assert(before.take(before.len() as int) =~= before);
        self.visits = kept;
    }

    /// Records where a site is now. `false` where nothing changed, so there
    /// is nothing to write.
    pub fn remember_visit(&mut self, id: &str, path: &str) -> (changed: bool)
        ensures
            changed == (filed(old(self).visits@, id@) != Some(path@)),
            !changed ==> final(self).visits@ == old(self).visits@,
            changed ==> final(self).visits@.len() > 0 && final(self).visits@.last().0@ == id@
                && final(self).visits@.last().1@ == path@ && final(self).visits@.drop_last()
                == old(self).visits@.filter(not_under(id@)),
            final(self).history@ == old(self).history@,
            final(self).exceptions == old(self).exceptions,
    {
        match self.visited(id) {
            Some(p) => {
                if crate::text::str_eq(p.as_str(), path) {
                    return false;
                }
            },
            None => {},
        }
        self.drop_visit(id);
        self.visits.push((id.to_string(), path.to_string()));
        true
    }

    /// Drops what was remembered for a site. `false` where there was nothing.
    pub fn forget_visit(&mut self, id: &str) -> (changed: bool)
        ensures
            changed == (filed(old(self).visits@, id@) is Some),
            final(self).visits@ == old(self).visits@.filter(not_under(id@)),
            final(self).history@ == old(self).history@,
            final(self).exceptions == old(self).exceptions,
    {
        let had = self.visited(id).is_some();
        self.drop_visit(id);
        had
    }

    /// The settings that apply where a connection says nothing.
    pub fn settings(&self) -> (s: &Settings)
        ensures
            *s == self.settings,
    {
        &self.settings
    }

    pub fn set_settings(&mut self, settings: Settings)
        ensures
            final(self).settings == settings,
            final(self).history@ == old(self).history@,
            final(self).visits@ == old(self).visits@,
            final(self).exceptions == old(self).exceptions,
    {
        self.settings = settings;
    }

    /// Certificates the user accepted by hand.
    pub fn certificate_exceptions(&self) -> (e: &Exceptions)
        ensures
            *e == self.exceptions,
    {
        &self.exceptions
    }

    /// Records one accepted certificate for one host and port.
    pub fn accept_certificate(&mut self, host: &str, port: u16, fingerprint: &str)
        ensures
            final(self).exceptions.accepted@.len() > 0,
            final(self).exceptions.accepted@.last().0@ == crate::ftp::tls::exception_key(host@, port),
            final(self).exceptions.accepted@.last().1@ == fingerprint@,
            final(self).exceptions.accepted@.drop_last() == old(self).exceptions.accepted@.filter(
                not_under(crate::ftp::tls::exception_key(host@, port)),
            ),
            final(self).history@ == old(self).history@,
            final(self).visits@ == old(self).visits@,
    {
        self.exceptions.accept(host, port, fingerprint);
    }

    pub fn forget_certificate(&mut self, host: &str, port: u16)
        ensures
            final(self).exceptions.accepted@ == old(self).exceptions.accepted@.filter(
                not_under(crate::ftp::tls::exception_key(host@, port)),
            ),
            final(self).history@ == old(self).history@,
            final(self).visits@ == old(self).visits@,
    {
        self.exceptions.forget(host, port);
    }
}


proof fn lemma_place(s: Seq<EntryView>, x: EntryView)
    requires
        recent_first(s),
    ensures
        0 <= place_of(s, x) <= s.len(),
        forall|i: int| 0 <= i < place_of(s, x) ==> s[i].last_used >= x.last_used,
        forall|i: int| place_of(s, x) <= i < s.len() ==> s[i].last_used < x.last_used,
    decreases s.len(),
{
    if s.len() > 0 && s.last().last_used < x.last_used {
        let d = s.drop_last();
        assert(recent_first(d));
        lemma_place(d, x);
        assert forall|i: int| place_of(s, x) <= i < s.len() implies s[i].last_used < x.last_used by {
            if i < s.len() - 1 {
                assert(s[i] == d[i]);
            }
        }
        assert forall|i: int| 0 <= i < place_of(s, x) implies s[i].last_used >= x.last_used by {
            assert(s[i] == d[i]);
        }
    } else if s.len() > 0 {
        assert forall|i: int| 0 <= i < place_of(s, x) implies s[i].last_used >= x.last_used by {
            if i < s.len() - 1 {
                assert(s[i].last_used >= s[s.len() - 1].last_used);
            }
        }
    }
}

proof fn lemma_insert_keeps_order(s: Seq<EntryView>, x: EntryView)
    requires
        recent_first(s),
    ensures
        recent_first(insert_recent(s, x)),
{
    lemma_place(s, x);
    let k = place_of(s, x);
    let r = insert_recent(s, x);
    assert forall|i: int, j: int| 0 <= i < j < r.len() implies r[i].last_used >= r[j].last_used by {
        if i < k {
            assert(r[i] == s[i]);
        } else if i == k {
            assert(r[i] == x);
        } else {
            assert(r[i] == s[i - 1]);
        }
        if j < k {
            assert(r[j] == s[j]);
        } else if j == k {
            assert(r[j] == x);
        } else {
            assert(r[j] == s[j - 1]);
        }
    }
}

/// The history comes most recently used first: no entry is preceded by one
/// used earlier.
pub proof fn the_most_recent_login_comes_first(h: Seq<EntryView>)
    ensures
        recent_first(sort_recent(h)),
    decreases h.len(),
{
    if h.len() > 0 {
        the_most_recent_login_comes_first(h.drop_last());
        lemma_insert_keeps_order(sort_recent(h.drop_last()), h.last());
    }
}

/// Putting the history in order loses no entry and adds none.
pub proof fn ordering_keeps_every_entry(h: Seq<EntryView>)
    ensures
        sort_recent(h).to_multiset() == h.to_multiset(),
    decreases h.len(),
{
    broadcast use vstd::seq_lib::group_to_multiset_ensures;

    if h.len() > 0 {
        let d = h.drop_last();
        ordering_keeps_every_entry(d);
        let s = sort_recent(d);
        the_most_recent_login_comes_first(d);
        lemma_place(s, h.last());
        let k = place_of(s, h.last());
        vstd::seq_lib::lemma_multiset_commutative(s.take(k) + seq![h.last()], s.skip(k));
        vstd::seq_lib::lemma_multiset_commutative(s.take(k), seq![h.last()]);
        vstd::seq_lib::lemma_multiset_commutative(s.take(k), s.skip(k));
        assert(s.take(k) + s.skip(k) =~= s);
        assert(d.push(h.last()) =~= h);
        assert(seq![h.last()].to_multiset() =~= vstd::multiset::Multiset::empty().insert(h.last()));
        assert(sort_recent(h).to_multiset() =~= h.to_multiset());
    }
}

/// One login, one entry: after a connection the history holds that login
/// exactly once, first, with what the connection brought, and still marked
/// as taken into the site manager if it already was.
pub proof fn the_same_login_updates_instead_of_piling_up(h: Seq<EntryView>, e: EntryView)
    ensures
        remembered(h, e).len() >= 1,
        remembered(h, e)[0] == (EntryView {
            saved_as_site: e.saved_as_site || (first_with_id(sort_recent(h), e.id) matches Some(
                p,
            ) && p.saved_as_site),
            ..e
        }),
        forall|i: int| 1 <= i < remembered(h, e).len() ==> #[trigger] remembered(h, e)[i].id != e.id,
{
    broadcast use vstd::seq_lib::group_filter_ensures;

    let rest = sort_recent(h).filter(other_login(e.id));
    assert forall|i: int| 1 <= i < remembered(h, e).len() implies #[trigger] remembered(h, e)[i].id
        != e.id by {
        assert(remembered(h, e)[i] == rest[i - 1]);
        assert(other_login(e.id)(rest[i - 1]));
    }
}

/// A forgotten login is gone, and every entry of another login stays.
pub proof fn a_forgotten_login_is_gone(h: Seq<EntryView>, id: Seq<char>, x: EntryView)
    ensures
        forall|i: int| 0 <= i < forgotten(h, id).len() ==> #[trigger] forgotten(h, id)[i].id != id,
        h.contains(x) && x.id != id ==> forgotten(h, id).contains(x),
{
    broadcast use vstd::seq_lib::group_filter_ensures;
    broadcast use vstd::seq_lib::group_to_multiset_ensures;

    let s = sort_recent(h);
    assert forall|i: int| 0 <= i < forgotten(h, id).len() implies #[trigger] forgotten(h, id)[i].id
        != id by {
        assert(other_login(id)(s.filter(other_login(id))[i]));
    }
    if h.contains(x) && x.id != id {
        ordering_keeps_every_entry(h);
        assert(h.to_multiset().count(x) > 0);
        assert(s.contains(x));
        let j = choose|j: int| 0 <= j < s.len() && s[j] == x;
        assert(other_login(id)(s[j]));
    }
}

/// Where a site was left belongs to that site: once recorded it is what the
/// site finds, once forgotten the site finds nothing, and every other site
/// finds what it found before.
pub proof fn a_visit_belongs_to_one_site(
    before: Seq<(String, String)>,
    id: Seq<char>,
    path: Seq<char>,
    other: Seq<char>,
    recorded: Seq<(String, String)>,
    dropped: Seq<(String, String)>,
)
    requires
        recorded.len() > 0,
        recorded.last().0@ == id,
        recorded.last().1@ == path,
        recorded.drop_last() == before.filter(not_under(id)),
        dropped == before.filter(not_under(id)),
    ensures
        filed(recorded, id) == Some(path),
        filed(dropped, id) is None,
        other != id ==> filed(recorded, other) == filed(before, other),
        other != id ==> filed(dropped, other) == filed(before, other),
{
    let rest = recorded.drop_last();
    crate::ftp::tls::lemma_filed_without(before, id, id);
    crate::ftp::tls::lemma_filed_without(before, id, other);
    assert(recorded =~= rest.push(recorded.last()));
    crate::ftp::tls::lemma_filed_push(rest, recorded.last(), id);
    crate::ftp::tls::lemma_filed_push(rest, recorded.last(), other);
}

} // verus!

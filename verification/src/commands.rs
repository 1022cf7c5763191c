//! The commands every shell offers, as far as they decide anything: what a
//! window sends, and what the core makes of it. How a command is reached,
//! and the awaiting of the work it starts, belong to the shell.
use vstd::prelude::*;

use crate::config::{entry_view, spec_id_for, AuthKind, Config, EntryView, QuickConnectEntry, Settings};
use crate::error::Error;
use crate::endpoint::{spec_default_concurrency, EndpointId, Protocol};
use crate::ftp::tls::{exception_key, filed, trusted_print, CertificateDecision, Exceptions};
use crate::ftp::{Encryption, FtpParams};
use crate::runner::EnqueueRequest;
use crate::secrets::{spec_account, MemoryStore, Secret, SecretStore};
use crate::sftp::{AuthMethod, ConnectParams, HostKeyDecision};
use crate::sites::{Filed, Site};
use crate::text::opt_text;
use crate::transfer::ConflictPolicy;

verus! {

/// One row of the site list, as a window needs it: never the password, but
/// whether there is one.
pub struct SiteRow {
    pub folder: String,
    pub site: Site,
    /// Whether the entry keeps its password in the credential store.
    pub has_password: bool,
    /// Whether one was typed for this run only.
    pub has_session_password: bool,
}

/// The row of one entry: whether it has a password goes by the entry's own
/// wish to have it remembered, so the list opens without asking the
/// credential store once.
pub fn site_row(entry: Filed, session: &MemoryStore) -> (row: SiteRow)
    ensures
        row.folder == entry.folder,
        row.site == entry.site,
        row.has_password == entry.site.remember_password,
        row.has_session_password == (filed(session.held@, spec_account(entry.site.id@, Secret::Password)) is Some),
{
    let kept = match session.get(entry.site.id.as_str(), Secret::Password) {
        Ok(v) => v.is_some(),
        Err(_) => false,
    };
    SiteRow {
        has_password: entry.site.remember_password,
        has_session_password: kept,
        folder: entry.folder,
        site: entry.site,
    }
}

/// Which secret of an entry a command means.
#[derive(Debug, Clone, Copy, PartialEq, Eq, Structural)]
pub enum SecretKind {
    Password,
    Passphrase,
}

pub open spec fn secret_of(kind: SecretKind) -> Secret {
    match kind {
        SecretKind::Password => Secret::Password,
        SecretKind::Passphrase => Secret::Passphrase,
    }
}

impl From<SecretKind> for Secret {
    fn from(kind: SecretKind) -> (s: Secret) {
        match kind {
            SecretKind::Password => Secret::Password,
            SecretKind::Passphrase => Secret::Passphrase,
        }
    }
}

impl vstd::std_specs::convert::FromSpecImpl<SecretKind> for Secret {
    open spec fn obeys_from_spec() -> bool {
        true
    }

    open spec fn from_spec(kind: SecretKind) -> Secret {
        secret_of(kind)
    }
}

/// What a window sends to open a connection. The password travels from the
/// window to the core and no further.
pub struct ConnectRequest {
    pub endpoint: String,
    /// Set when the connection comes from a site entry; it is how the stored
    /// password is found.
    pub site_id: Option<String>,
    /// Which protocol to speak; SFTP where the window says nothing.
    pub protocol: Protocol,
    pub host: String,
    pub port: u16,
    pub user: String,
    pub auth: AuthKind,
    pub password: Option<String>,
    pub key_path: Option<String>,
    pub passphrase: Option<String>,
    /// The fingerprint the user was shown and accepted, on a second attempt.
    pub accept_fingerprint: Option<String>,
    pub concurrency: Option<u8>,
    pub retries: Option<u8>,
    pub temporary_name: Option<bool>,
    /// FTP only: how the connection is encrypted.
    pub encryption: Encryption,
    /// FTP only; passive is what works behind a router.
    pub passive: Option<bool>,
    /// FTP only: the server does not speak UTF-8.
    pub latin1: Option<bool>,
    /// FTP only: seconds between keep-alive commands.
    pub keep_alive: Option<u32>,
    /// The certificate fingerprint the user accepted, on a second attempt.
    pub accept_certificate: Option<String>,
}

/// A number the request gives, else the settings', else the protocol's.
pub open spec fn concurrency_for(asked: Option<u8>, settings: Option<u8>, p: Protocol) -> u8 {
    match asked {
        Some(n) => n,
        None => match settings {
            Some(n) => n,
            None => spec_default_concurrency(p),
        },
    }
}

fn text_or_empty(s: Option<String>) -> (t: String)
    ensures
        t@ == match s {
            Some(x) => x@,
            None => Seq::<char>::empty(),
        },
{
    match s {
        Some(x) => x,
        None => String::new(),
    }
}

impl ConnectRequest {
    /// The parameters of an SFTP attempt.
    pub fn into_params(self, settings: &Settings) -> (p: ConnectParams)
        ensures
            p.host@ == self.host@,
            p.port == self.port,
            p.user@ == self.user@,
            match self.auth {
                AuthKind::Password => p.method matches AuthMethod::Password { password } && password@
                    == match self.password {
                    Some(x) => x@,
                    None => Seq::<char>::empty(),
                },
                AuthKind::KeyFile => p.method matches AuthMethod::KeyFile { path, passphrase } && path@
                    == match self.key_path {
                    Some(x) => x@,
                    None => Seq::<char>::empty(),
                } && opt_text(passphrase) == opt_text(self.passphrase),
                AuthKind::Agent => p.method is Agent,
            },
            match self.accept_fingerprint {
                Some(f) => p.host_key matches HostKeyDecision::Trust { fingerprint } && fingerprint@ == f@,
                None => p.host_key is KnownOnly,
            },
            p.known_hosts is None,
            p.concurrency == concurrency_for(self.concurrency, settings.concurrency, Protocol::Sftp),
            p.retries == match self.retries {
                Some(n) => n,
                None => settings.retries,
            },
            p.temporary_name == match self.temporary_name {
                Some(b) => b,
                None => settings.temporary_name,
            },
    {
        let method = match self.auth {
            AuthKind::Password => AuthMethod::Password { password: text_or_empty(self.password) },
            AuthKind::KeyFile => AuthMethod::KeyFile {
                path: text_or_empty(self.key_path),
                passphrase: self.passphrase,
            },
            AuthKind::Agent => AuthMethod::Agent,
        };
        ConnectParams {
            host: self.host,
            port: self.port,
            user: self.user,
            method,
            host_key: match self.accept_fingerprint {
                Some(fingerprint) => HostKeyDecision::Trust { fingerprint },
                None => HostKeyDecision::KnownOnly,
            },
            known_hosts: None,
            concurrency: match self.concurrency {
                Some(n) => n,
                None => match settings.concurrency {
                    Some(n) => n,
                    None => Protocol::Sftp.default_concurrency(),
                },
            },
            retries: match self.retries {
                Some(n) => n,
                None => settings.retries,
            },
            temporary_name: match self.temporary_name {
                Some(b) => b,
                None => settings.temporary_name,
            },
        }
    }

    /// The parameters of an FTP attempt. Plain FTP is plain whatever else
    /// the request says, and without a fingerprint accepted now, what was
    /// accepted for this host and port before still counts.
    pub fn into_ftp_params(self, settings: &Settings, stored: &Exceptions) -> (p: FtpParams)
        ensures
            p.host@ == self.host@,
            p.port == self.port,
            p.user@ == self.user@,
            p.password@ == match self.password {
                Some(x) => x@,
                None => Seq::<char>::empty(),
            },
            p.encryption == (if self.protocol == Protocol::Ftp {
                Encryption::Plain
            } else {
                self.encryption
            }),
            p.passive == match self.passive {
                Some(b) => b,
                None => true,
            },
            p.concurrency == concurrency_for(self.concurrency, settings.concurrency, self.protocol),
            p.retries == match self.retries {
                Some(n) => n,
                None => settings.retries,
            },
            p.temporary_name == match self.temporary_name {
                Some(b) => b,
                None => settings.temporary_name,
            },
            p.keep_alive == self.keep_alive,
            p.latin1 == match self.latin1 {
                Some(b) => b,
                None => false,
            },
            trusted_print(p.certificate) == match self.accept_certificate {
                Some(f) => Some(f@),
                None => filed(stored.accepted@, exception_key(self.host@, self.port)),
            },
    {
        let protocol = self.protocol;
        let certificate = match self.accept_certificate {
            Some(fingerprint) => CertificateDecision::Trust { fingerprint },
            None => stored.decision_for(self.host.as_str(), self.port),
        };
        FtpParams {
            host: self.host,
            port: self.port,
            user: self.user,
            password: text_or_empty(self.password),
            encryption: match protocol {
                Protocol::Ftp => Encryption::Plain,
                _ => self.encryption,
            },
            passive: match self.passive {
                Some(b) => b,
                None => true,
            },
            concurrency: match self.concurrency {
                Some(n) => n,
                None => match settings.concurrency {
                    Some(n) => n,
                    None => protocol.default_concurrency(),
                },
            },
            retries: match self.retries {
                Some(n) => n,
                None => settings.retries,
            },
            temporary_name: match self.temporary_name {
                Some(b) => b,
                None => settings.temporary_name,
            },
            keep_alive: self.keep_alive,
            latin1: match self.latin1 {
                Some(b) => b,
                None => false,
            },
            certificate,
        }
    }

    /// The history entry a connection leaves: one per login, and the FTP
    /// settings only where they mean something.
    pub fn history_entry(&self, now: i64) -> (e: QuickConnectEntry)
        ensures
            ({
                let v = entry_view(e);
                let ftp = self.protocol == Protocol::Ftp || self.protocol == Protocol::Ftps;
                &&& v.id == spec_id_for(self.user@, self.host@, self.port)
                &&& v.protocol == self.protocol
                &&& v.host == self.host@
                &&& v.port == self.port
                &&& v.user == self.user@
                &&& v.auth == self.auth
                &&& v.key_path == opt_text(self.key_path)
                &&& v.last_path is None
                &&& v.last_used == now
                &&& !v.saved_as_site
                &&& v.concurrency == self.concurrency
                &&& v.retries == self.retries
                &&& v.temporary_name == self.temporary_name
                &&& v.encryption == (if self.protocol == Protocol::Ftps {
                    Some(self.encryption)
                } else {
                    None
                })
                &&& v.passive == (if ftp {
                    Some(
                        match self.passive {
                            Some(b) => b,
                            None => true,
                        },
                    )
                } else {
                    None
                })
                &&& v.latin1 == (if ftp {
                    Some(
                        match self.latin1 {
                            Some(b) => b,
                            None => false,
                        },
                    )
                } else {
                    None
                })
                &&& v.keep_alive == self.keep_alive
            }),
    {
        let ftp = match self.protocol {
            Protocol::Ftp | Protocol::Ftps => true,
            _ => false,
        };
        QuickConnectEntry {
            id: QuickConnectEntry::id_for(self.user.as_str(), self.host.as_str(), self.port),
            protocol: self.protocol,
            host: self.host.clone(),
            port: self.port,
            user: self.user.clone(),
            auth: self.auth,
            key_path: match &self.key_path {
                Some(k) => Some(k.clone()),
                None => None,
            },
            last_path: None,
            last_used: now,
            saved_as_site: false,
            concurrency: self.concurrency,
            retries: self.retries,
            temporary_name: self.temporary_name,
            encryption: match self.protocol {
                Protocol::Ftps => Some(self.encryption),
                _ => None,
            },
            passive: if ftp {
                Some(
                    match self.passive {
                        Some(b) => b,
                        None => true,
                    },
                )
            } else {
                None
            },
            latin1: if ftp {
                Some(
                    match self.latin1 {
                        Some(b) => b,
                        None => false,
                    },
                )
            } else {
                None
            },
            keep_alive: self.keep_alive,
        }
    }
}

/// What a window sends when something is dragged or the button is used.
pub struct EnqueueBody {
    pub source_endpoint: String,
    pub source_directory: String,
    pub names: Vec<String>,
    pub target_endpoint: String,
    pub target_directory: String,
}

impl EnqueueBody {
    /// The request it makes under the settings: asking where a file is
    /// already there, and the settings' own numbers.
    pub fn into_request(self, settings: &Settings) -> (r: EnqueueRequest)
        ensures
            r.source_endpoint.0@ == self.source_endpoint@,
            r.source_directory@ == self.source_directory@,
            r.names@ == self.names@,
            r.target_endpoint.0@ == self.target_endpoint@,
            r.target_directory@ == self.target_directory@,
            r.conflict_policy == ConflictPolicy::Ask,
            r.keep_modified == settings.keep_modified,
            r.keep_permissions == settings.keep_permissions,
            r.use_temporary_name == settings.temporary_name,
            r.retries == Some(settings.retries),
    {
        EnqueueRequest {
            source_endpoint: EndpointId(self.source_endpoint),
            source_directory: self.source_directory,
            names: self.names,
            target_endpoint: EndpointId(self.target_endpoint),
            target_directory: self.target_directory,
            conflict_policy: ConflictPolicy::Ask,
            keep_modified: settings.keep_modified,
            keep_permissions: settings.keep_permissions,
            use_temporary_name: settings.temporary_name,
            retries: Some(settings.retries),
        }
    }
}

/// Records where a history entry's server was left: the entry moves to the
/// top with that path and time; a login the history does not hold is left
/// alone. `true` where the history changed.
pub fn remember_path(config: &mut Config, id: &str, path: &str, now: i64) -> (changed: bool)
    ensures
        ({
            let e = crate::config::first_with_id(
                crate::config::sort_recent(crate::config::entry_views(old(config).history@)),
                id@,
            );
            &&& changed == e is Some
            &&& !changed ==> final(config).history@ == old(config).history@
            &&& changed ==> crate::config::entry_views(final(config).history@) == crate::config::remembered(
                crate::config::entry_views(old(config).history@),
                EntryView { last_path: Some(path@), last_used: now, ..e->Some_0 },
            )
        }),
{
    let entries = config.quick_connect();
    let mut i: usize = 0;
    let ghost ev = crate::config::entry_views(entries@);
    assert(ev.skip(0) =~= ev);
    while i < entries.len()
        invariant
            i <= entries@.len(),
            ev == crate::config::entry_views(entries@),
            ev == crate::config::sort_recent(crate::config::entry_views(old(config).history@)),
            *config == *old(config),
            crate::config::first_with_id(ev, id@) == crate::config::first_with_id(ev.skip(i as int), id@),
        decreases entries@.len() - i,
    {
        assert(ev.skip(i as int)[0] == entry_view(entries@[i as int]));
        assert(ev.skip(i as int).drop_first() =~= ev.skip(i + 1));
        if crate::text::str_eq(entries[i].id.as_str(), id) {
            let mut e = entries[i].copy();
            let ghost before = entry_view(e);
            e.last_path = Some(path.to_string());
            e.last_used = now;
            assert(entry_view(e) == EntryView { last_path: Some(path@), last_used: now, ..before });
            config.remember_quick_connect(e);
            return true;
        }
        i = i + 1;
    }
    false
}

/// A site as it is about to be written: a new entry gets its identifier
/// here, and whether its secrets must go is said, since an entry that no
/// longer wants its password remembered loses it now.
pub fn prepare_site(site: Site, new_id: &str) -> (r: (Site, bool))
    ensures
        r.0.id@ == (if site.id@.len() == 0 {
            new_id@
        } else {
            site.id@
        }),
        r.0 == (Site { id: r.0.id, ..site }),
        r.1 == !site.remember_password,
{
    let mut s = site;
    if s.id.as_str().is_empty() {
        s.id = new_id.to_string();
    }
    let forget = !s.remember_password;
    (s, forget)
}

/// The secret a connection to a site entry goes with. One the window sent
/// is used as it is. Otherwise the one kept in the store is asked for first,
/// and only where it has none, the one typed for this run; a store that
/// cannot be read is the answer.
pub fn fill_secret<S: SecretStore>(
    given: Option<String>,
    site_id: &str,
    secret: Secret,
    kept: &S,
    session: &MemoryStore,
) -> (r: Result<Option<String>, Error>)
    ensures
        given is Some ==> r == Ok::<Option<String>, Error>(given),
        given is None ==> exists|a: Result<Option<String>, Error>|
            #[trigger] S::gets(*kept, site_id@, secret, a) && match a {
                Err(e) => r == Err::<Option<String>, Error>(e),
                Ok(Some(v)) => r == Ok::<Option<String>, Error>(Some(v)),
                Ok(None) => r matches Ok(x) && opt_text(x) == filed(
                    session.held@,
                    spec_account(site_id@, secret),
                ),
            },
{
    if given.is_some() {
        return Ok(given);
    }
    let a = kept.get(site_id, secret);
    assert(S::gets(*kept, site_id@, secret, a));
    match a {
        Err(e) => Err(e),
        Ok(Some(v)) => Ok(Some(v)),
        Ok(None) => session.get(site_id, secret),
    }
}

/// The certificate fingerprint to write down after a connection attempt: the
/// one accepted for this attempt, and only once the connection worked. A
/// fingerprint accepted for a server that then refused the login is not kept.
pub fn certificate_to_keep<T>(connected: &Result<T, Error>, accepted_now: Option<String>) -> (r: Option<String>)
    ensures
        connected is Ok ==> r == accepted_now,
        connected is Err ==> r is None,
{
    match connected {
        Ok(_) => accepted_now,
        Err(_) => None,
    }
}

} // verus!

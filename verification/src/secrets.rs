//! Where passwords live, which is never a file of ours.
//!
//! A password is referenced from a site entry by the entry's identifier and
//! fetched from a store when a connection is opened: the system's credential
//! store, one held in memory for the length of the program, or one encrypted
//! file for a machine with neither.
use vstd::prelude::*;

use crate::error::Error;
use crate::ftp::tls::{filed, not_under};
use crate::text::{chars_of, string_of};

verus! {

/// Which secret of an entry is meant.
#[derive(Debug, Clone, Copy, PartialEq, Eq, Structural)]
pub enum Secret {
    /// The account password.
    Password,
    /// The passphrase of a key file.
    Passphrase,
}

pub open spec fn spec_suffix(s: Secret) -> Seq<char> {
    match s {
        Secret::Password => "password"@,
        Secret::Passphrase => "passphrase"@,
    }
}

impl Secret {
    pub fn suffix(self) -> (s: &'static str)
        ensures
            s@ == spec_suffix(self),
    {
        match self {
            Secret::Password => "password",
            Secret::Passphrase => "passphrase",
        }
    }
}

/// The name one secret is filed under: the site's identifier and which
/// secret it is, and nothing about the site's name or address.
pub open spec fn spec_account(site_id: Seq<char>, secret: Secret) -> Seq<char> {
    site_id + seq![':'] + spec_suffix(secret)
}

pub fn account(site_id: &str, secret: Secret) -> (a: String)
    ensures
        a@ == spec_account(site_id@, secret),
{
    let mut v = chars_of(site_id);
    v.push(':');
    let s = chars_of(secret.suffix());
    crate::text::append_chars(&mut v, &s);
    string_of(&v)
}

/// Two secrets share a name only when they are the same secret of the same
/// site: the two secrets of one entry never collide, and no entry's secret
/// is filed where another entry's is.
pub proof fn every_secret_has_its_own_name(a: Seq<char>, s: Secret, b: Seq<char>, t: Secret)
    ensures
        spec_account(a, s) == spec_account(b, t) ==> a == b && s == t,
{
    reveal_strlit("password");
    reveal_strlit("passphrase");
    if spec_account(a, s) == spec_account(b, t) {
        let x = spec_account(a, s);
        let (sa, sb) = (spec_suffix(s), spec_suffix(t));
        assert(x.len() == a.len() + 1 + sa.len());
        assert(x.len() == b.len() + 1 + sb.len());
        if s != t {
            assert(x.last() == sa.last());
            assert(x.last() == sb.last());
            assert(false);
        }
        assert(sa == sb);
        assert(a.len() == b.len());
        assert forall|i: int| 0 <= i < a.len() implies a[i] == b[i] by {
            assert(x[i] == a[i]);
            assert(x[i] == b[i]);
        }
        assert(a =~= b);
    }
}

/// Somewhere to keep secrets. Every method may fail, and a caller must be
/// able to carry on when it does.
pub trait SecretStore: Sized {
    /// Whether forgetting `secret` of `site_id` may take a store from
    /// `before` to `after` with the answer `r`: what each kind of store
    /// promises of one forgetting.
    spec fn forgets(before: Self, after: Self, site_id: Seq<char>, secret: Secret, r: Result<(), Error>) -> bool;

    /// Whether a store may answer `r` when asked for `secret` of `site_id`:
    /// what each kind of store promises of one reading.
    spec fn gets(store: Self, site_id: Seq<char>, secret: Secret, r: Result<Option<String>, Error>) -> bool;

    fn get(&self, site_id: &str, secret: Secret) -> (r: Result<Option<String>, Error>)
        ensures
            Self::gets(*self, site_id@, secret, r),
    ;

    fn set(&mut self, site_id: &str, secret: Secret, value: &str) -> Result<(), Error>;

    fn forget(&mut self, site_id: &str, secret: Secret) -> (r: Result<(), Error>)
        ensures
            Self::forgets(*old(self), *final(self), site_id@, secret, r),
    ;

    /// Removes everything filed under a site: the password, then, where that
    /// worked, the passphrase; the first failure is the answer.
    fn forget_all(&mut self, site_id: &str) -> (r: Result<(), Error>)
        ensures
            (r is Err && Self::forgets(*old(self), *final(self), site_id@, Secret::Password, r)) || exists|
                mid: Self,
                first: Result<(), Error>,
            |
                first is Ok && #[trigger] Self::forgets(*old(self), mid, site_id@, Secret::Password, first)
                    && #[trigger] Self::forgets(mid, *final(self), site_id@, Secret::Passphrase, r),
    {
        let ghost before = *self;
        let first = self.forget(site_id, Secret::Password);
        let ghost mid = *self;
        assert(Self::forgets(before, mid, site_id@, Secret::Password, first));
        match first {
            Ok(()) => {
                let r = self.forget(site_id, Secret::Passphrase);
                assert(Self::forgets(mid, *self, site_id@, Secret::Passphrase, r));
                r
            },
            Err(e) => Err(e),
        }
    }
}

fn lookup(held: &Vec<(String, String)>, key: &str) -> (r: Option<String>)
    ensures
        crate::text::opt_text(r) == filed(held@, key@),
{
    let mut i: usize = 0;
    let ghost v = held@;
    assert(v.skip(0) =~= v);
    while i < held.len()
        invariant
            i <= v.len(),
            v == held@,
            filed(v, key@) == filed(v.skip(i as int), key@),
        decreases v.len() - i,
    {
        assert(v.skip(i as int)[0] == v[i as int]);
        assert(v.skip(i as int).drop_first() =~= v.skip(i + 1));
        if crate::text::str_eq(held[i].0.as_str(), key) {
            return Some(held[i].1.clone());
        }
        i = i + 1;
    }
    None
}

fn without(held: &Vec<(String, String)>, key: &str) -> (out: Vec<(String, String)>)
    ensures
        out@ == held@.filter(not_under(key@)),
{
    let ghost before = held@;
    let mut kept: Vec<(String, String)> = Vec::new();
    let mut i: usize = 0;
    assert(before.take(0).filter(not_under(key@)) =~= Seq::<(String, String)>::empty());
    while i < held.len()
        invariant
            i <= before.len(),
            before == held@,
            kept@ == before.take(i as int).filter(not_under(key@)),
        decreases before.len() - i,
    {
        assert(before.take(i + 1).drop_last() =~= before.take(i as int));
        reveal_with_fuel(Seq::filter, 1);
        if !crate::text::str_eq(held[i].0.as_str(), key) {
            let pair = (held[i].0.clone(), held[i].1.clone());
            assert(pair == before[i as int]);
            kept.push(pair);
        }
        i = i + 1;
    }
    assert(before.take(before.len() as int) =~= before);
    kept
}

/// A store that keeps nothing past the end of the program: each secret under
/// its name, the first pair for a name deciding.
#[derive(Debug, Default)]
pub struct MemoryStore {
    pub held: Vec<(String, String)>,
}

impl SecretStore for MemoryStore {
    /// A reading always works and gives what is filed under the name.
    open spec fn gets(store: MemoryStore, site_id: Seq<char>, secret: Secret, r: Result<Option<String>, Error>) -> bool {
        r matches Ok(v) && crate::text::opt_text(v) == filed(store.held@, spec_account(site_id, secret))
    }

    /// Forgetting always works and takes exactly the pairs under the name.
    open spec fn forgets(
        before: MemoryStore,
        after: MemoryStore,
        site_id: Seq<char>,
        secret: Secret,
        r: Result<(), Error>,
    ) -> bool {
        r is Ok && after.held@ == before.held@.filter(not_under(spec_account(site_id, secret)))
    }

    fn get(&self, site_id: &str, secret: Secret) -> (r: Result<Option<String>, Error>)
        ensures
            r matches Ok(v) && crate::text::opt_text(v) == filed(self.held@, spec_account(site_id@, secret)),
    {
        let key = account(site_id, secret);
        Ok(lookup(&self.held, key.as_str()))
    }

    fn set(&mut self, site_id: &str, secret: Secret, value: &str) -> (r: Result<(), Error>)
        ensures
            r is Ok,
            final(self).held@.len() > 0,
            final(self).held@.last().0@ == spec_account(site_id@, secret),
            final(self).held@.last().1@ == value@,
            final(self).held@.drop_last() == old(self).held@.filter(not_under(spec_account(site_id@, secret))),
    {
        let key = account(site_id, secret);
        let mut kept = without(&self.held, key.as_str());
        kept.push((key, value.to_string()));
        self.held = kept;
        Ok(())
    }

    fn forget(&mut self, site_id: &str, secret: Secret) -> (r: Result<(), Error>)
        ensures
            r is Ok,
            final(self).held@ == old(self).held@.filter(not_under(spec_account(site_id@, secret))),
    {
        let key = account(site_id, secret);
        self.held = without(&self.held, key.as_str());
        Ok(())
    }
}

impl MemoryStore {
    /// Removes both secrets of a site.
    pub fn forget_both(&mut self, site_id: &str) -> (r: Result<(), Error>)
        ensures
            r is Ok,
            final(self).held@ == old(self).held@.filter(not_under(spec_account(site_id@, Secret::Password))).filter(
                not_under(spec_account(site_id@, Secret::Passphrase)),
            ),
    {
        let _ = self.forget(site_id, Secret::Password);
        self.forget(site_id, Secret::Passphrase)
    }
}

/// Removing a site's secrets takes both of them and nobody else's.
pub proof fn deleting_an_entry_takes_both_its_secrets(
    held: Seq<(String, String)>,
    site_id: Seq<char>,
    other: Seq<char>,
    s: Secret,
)
    ensures
        ({
            let after = held.filter(not_under(spec_account(site_id, Secret::Password))).filter(
                not_under(spec_account(site_id, Secret::Passphrase)),
            );
            &&& filed(after, spec_account(site_id, s)) is None
            &&& other != site_id ==> filed(after, spec_account(other, s)) == filed(
                held,
                spec_account(other, s),
            )
        }),
{
    let pw = spec_account(site_id, Secret::Password);
    let pp = spec_account(site_id, Secret::Passphrase);
    let first = held.filter(not_under(pw));
    let key = spec_account(site_id, s);
    let okey = spec_account(other, s);
    crate::ftp::tls::lemma_filed_without(held, pw, key);
    crate::ftp::tls::lemma_filed_without(first, pp, key);
    crate::ftp::tls::lemma_filed_without(held, pw, okey);
    crate::ftp::tls::lemma_filed_without(first, pp, okey);
    every_secret_has_its_own_name(other, s, site_id, Secret::Password);
    every_secret_has_its_own_name(other, s, site_id, Secret::Passphrase);
}

/// The credential store of the operating system, under a service name.
#[derive(Debug)]
pub struct SystemStore {
    pub service: String,
}

/// `keyring::Entry::new` and `get_password`: the password filed under the
/// service and account, `None` where the store reports `NoEntry`, and any
/// other failure as its text. What the store holds is the machine's, so
/// nothing is claimed of the outcome.
#[verifier::external_body]
fn keyring_get(service: &str, account: &str) -> (r: Result<Option<String>, String>) {
    match keyring::Entry::new(service, account).and_then(|entry| entry.get_password()) {
        Ok(value) => Ok(Some(value)),
        Err(keyring::Error::NoEntry) => Ok(None),
        Err(other) => Err(other.to_string()),
    }
}

/// `keyring::Entry::new` and `set_password`; any failure as its text.
/// Nothing is claimed of the outcome.
#[verifier::external_body]
fn keyring_set(service: &str, account: &str, value: &str) -> (r: Result<(), String>) {
    keyring::Entry::new(service, account).and_then(|entry| entry.set_password(value)).map_err(
        |why| why.to_string(),
    )
}

/// `keyring::Entry::new` and `delete_credential`, `NoEntry` counting as
/// done; any other failure as its text. Nothing is claimed of the outcome.
#[verifier::external_body]
fn keyring_delete(service: &str, account: &str) -> (r: Result<(), String>) {
    match keyring::Entry::new(service, account).and_then(|entry| entry.delete_credential()) {
        Ok(()) | Err(keyring::Error::NoEntry) => Ok(()),
        Err(other) => Err(other.to_string()),
    }
}

impl SystemStore {
    /// The store under a service name: the program's name, which is what
    /// the user sees beside the entry.
    pub fn new(service: &str) -> (s: SystemStore)
        ensures
            s.service@ == service@,
    {
        SystemStore { service: service.to_string() }
    }
}

impl Default for SystemStore {
    fn default() -> (s: Self)
        ensures
            s.service@ == "AmberBeam"@,
    {
        SystemStore::new("AmberBeam")
    }
}

/// The answer of the system store to a reading, as the library gives it on:
/// what was filed, nothing where nothing is, and a failure as its text.
pub fn found_answer(raw: Result<Option<String>, String>) -> (r: Result<Option<String>, Error>)
    ensures
        match raw {
            Ok(v) => r == Ok::<Option<String>, Error>(v),
            Err(why) => r matches Err(Error::Other { detail }) && detail@ == why@,
        },
{
    match raw {
        Ok(v) => Ok(v),
        Err(why) => Err(Error::other(why.as_str())),
    }
}

/// The answer of the system store to a change, as the library gives it on.
pub fn done_answer(raw: Result<(), String>) -> (r: Result<(), Error>)
    ensures
        match raw {
            Ok(()) => r is Ok,
            Err(why) => r matches Err(Error::Other { detail }) && detail@ == why@,
        },
{
    match raw {
        Ok(()) => Ok(()),
        Err(why) => Err(Error::other(why.as_str())),
    }
}

impl SecretStore for SystemStore {
    /// What the system store gives is the machine's; a failure is said as
    /// text.
    open spec fn gets(store: SystemStore, site_id: Seq<char>, secret: Secret, r: Result<Option<String>, Error>) -> bool {
        r matches Err(e) ==> e is Other
    }

    /// What the system store holds is the machine's: a forgetting leaves the
    /// service name as it was, and a failure is said as text.
    open spec fn forgets(
        before: SystemStore,
        after: SystemStore,
        site_id: Seq<char>,
        secret: Secret,
        r: Result<(), Error>,
    ) -> bool {
        after.service@ == before.service@ && (r matches Err(e) ==> e is Other)
    }

    /// The secret filed under the site's account, asked of the system store:
    /// its answer passed on by [`found_answer`].
    fn get(&self, site_id: &str, secret: Secret) -> (r: Result<Option<String>, Error>)
        ensures
            r matches Err(e) ==> e is Other,
    {
        let key = account(site_id, secret);
        found_answer(keyring_get(self.service.as_str(), key.as_str()))
    }

    /// Files a secret under the site's account in the system store: its
    /// answer passed on by [`done_answer`].
    fn set(&mut self, site_id: &str, secret: Secret, value: &str) -> (r: Result<(), Error>)
        ensures
            r matches Err(e) ==> e is Other,
            final(self).service@ == old(self).service@,
    {
        let key = account(site_id, secret);
        done_answer(keyring_set(self.service.as_str(), key.as_str(), value))
    }

    /// Removes the site's account from the system store, nothing there
    /// counting as done: its answer passed on by [`done_answer`].
    fn forget(&mut self, site_id: &str, secret: Secret) -> (r: Result<(), Error>)
        ensures
            r matches Err(e) ==> e is Other,
            final(self).service@ == old(self).service@,
    {
        let key = account(site_id, secret);
        done_answer(keyring_delete(self.service.as_str(), key.as_str()))
    }
}

/// One encrypted file, for a machine with no credential store of its own:
/// what it holds once opened, each secret under its name. Opening, sealing
/// and writing the file are the caller's; every change says whether the
/// file has to be written again.
#[derive(Debug)]
pub struct FileStore {
    pub path: String,
    pub passphrase: String,
    pub held: Vec<(String, String)>,
}

/// What the refusal of a store without a passphrase says.
pub open spec fn refusal_of(r: Result<FileStore, Error>) -> Option<Seq<char>> {
    match r {
        Err(Error::Other { detail }) => Some(detail@),
        _ => None,
    }
}

impl FileStore {
    /// A store at a path, before anything is read into it: refused without a
    /// passphrase, since a file sealed under nothing would open for anybody.
    pub fn start(path: &str, passphrase: &str) -> (r: Result<FileStore, Error>)
        ensures
            passphrase@.len() == 0 ==> refusal_of(r) == Some("a passphrase is needed to open the password file"@),
            passphrase@.len() > 0 ==> (r matches Ok(store) && store.path@ == path@ && store.passphrase@
                == passphrase@ && store.held@.len() == 0),
    {
        if passphrase.is_empty() {
            return Err(Error::other("a passphrase is needed to open the password file"));
        }
        Ok(FileStore { path: path.to_string(), passphrase: passphrase.to_string(), held: Vec::new() })
    }

    /// How many secrets it holds.
    pub fn count(&self) -> (n: usize)
        ensures
            n == self.held@.len(),
    {
        self.held.len()
    }

    /// A secret, where one is filed.
    pub fn get(&self, site_id: &str, secret: Secret) -> (r: Option<String>)
        ensures
            crate::text::opt_text(r) == filed(self.held@, spec_account(site_id@, secret)),
    {
        let key = account(site_id, secret);
        lookup(&self.held, key.as_str())
    }

    /// Files a secret, replacing what was filed under its name.
    pub fn set(&mut self, site_id: &str, secret: Secret, value: &str)
        ensures
            final(self).held@.len() > 0,
            final(self).held@.last().0@ == spec_account(site_id@, secret),
            final(self).held@.last().1@ == value@,
            final(self).held@.drop_last() == old(self).held@.filter(not_under(spec_account(site_id@, secret))),
            final(self).path == old(self).path,
            final(self).passphrase == old(self).passphrase,
    {
        let key = account(site_id, secret);
        let mut kept = without(&self.held, key.as_str());
        kept.push((key, value.to_string()));
        self.held = kept;
    }

    /// Forgets a secret. `false` where nothing was filed, so nothing has to
    /// be written.
    pub fn forget(&mut self, site_id: &str, secret: Secret) -> (changed: bool)
        ensures
            changed == (filed(old(self).held@, spec_account(site_id@, secret)) is Some),
            final(self).held@ == old(self).held@.filter(not_under(spec_account(site_id@, secret))),
            final(self).path == old(self).path,
            final(self).passphrase == old(self).passphrase,
    {
        let key = account(site_id, secret);
        let had = lookup(&self.held, key.as_str()).is_some();
        self.held = without(&self.held, key.as_str());
        had
    }
}

} // verus!

//! The server list as one file. Without passwords it is plain JSON anybody
//! can read; with passwords it is sealed under a passphrase, and there is no
//! third shape. Turning a bundle into JSON and back is the caller's; which
//! shape a file gets, and what may be read back, is decided here.
use vstd::prelude::*;

use crate::error::Error;
use crate::secrets::{Secret, SecretStore};
use crate::sites::{Filed, Site};
use crate::text::{chars_of, opt_text, string_of, trim};

verus! {

/// What the file says it is, so a later version can tell.
pub const VERSION: u32 = 1;

/// One entry in a bundle.
#[derive(Clone, PartialEq, Eq)]
pub struct Entry {
    pub folder: String,
    pub site: Site,
    /// Only ever present in a sealed file.
    pub password: Option<String>,
    /// Likewise.
    pub passphrase: Option<String>,
}

/// A whole exported list.
#[derive(Clone, PartialEq, Eq)]
pub struct Bundle {
    pub version: u32,
    pub entries: Vec<Entry>,
}

pub open spec fn has_secret(e: Entry) -> bool {
    e.password is Some || e.passphrase is Some
}

impl Bundle {
    /// Whether any entry carries a password or a passphrase.
    pub fn carries_secrets(&self) -> (b: bool)
        ensures
            b == exists|i: int| 0 <= i < self.entries@.len() && has_secret(#[trigger] self.entries@[i]),
    {
        let mut i: usize = 0;
        while i < self.entries.len()
            invariant
                i <= self.entries@.len(),
                forall|j: int| 0 <= j < i ==> !has_secret(#[trigger] self.entries@[j]),
            decreases self.entries@.len() - i,
        {
            if self.entries[i].password.is_some() || self.entries[i].passphrase.is_some() {
                return true;
            }
            i = i + 1;
        }
        false
    }
}

/// What a secret reads as in a bundle: what the store gave, and nothing
/// where it failed.
pub open spec fn read_as(r: Result<Option<String>, Error>) -> Option<String> {
    match r {
        Ok(v) => v,
        Err(_) => None,
    }
}

/// Whether `e` is the bundle entry of `f`, with the secrets `store` may
/// give for it where secrets are asked for, and none otherwise.
pub open spec fn gathered<S: SecretStore>(e: Entry, f: Filed, store: S, with_secrets: bool) -> bool {
    &&& e.folder@ == f.folder@
    &&& e.site == (Site { excludes: e.site.excludes, ..f.site })
    &&& e.site.excludes@ == f.site.excludes@
    &&& !with_secrets ==> e.password is None && e.passphrase is None
    &&& with_secrets ==> exists|p: Result<Option<String>, Error>, q: Result<Option<String>, Error>|
        #[trigger] S::gets(store, f.site.id@, Secret::Password, p) && #[trigger] S::gets(
            store,
            f.site.id@,
            Secret::Passphrase,
            q,
        ) && e.password == read_as(p) && e.passphrase == read_as(q)
}

/// The entry of one site, given what the store answered for its password
/// and its passphrase: a failure reads as nothing.
pub fn entry_of(f: &Filed, password: Result<Option<String>, Error>, passphrase: Result<Option<String>, Error>) -> (e:
    Entry)
    ensures
        e.folder@ == f.folder@,
        e.site == (Site { excludes: e.site.excludes, ..f.site }),
        e.site.excludes@ == f.site.excludes@,
        e.password == read_as(password),
        e.passphrase == read_as(passphrase),
{
    let password = match password {
        Ok(v) => v,
        Err(_) => None,
    };
    let passphrase = match passphrase {
        Ok(v) => v,
        Err(_) => None,
    };
    Entry { folder: f.folder.clone(), site: f.site.copy(), password, passphrase }
}

/// Gathers the list into a bundle: the credential store is consulted only
/// where secrets were asked for, and then a secret it cannot give is left
/// out.
pub fn gather<S: SecretStore>(filed: &[Filed], secrets: &S, with_secrets: bool) -> (b: Bundle)
    ensures
        b.version == VERSION,
        b.entries@.len() == filed@.len(),
        forall|i: int| 0 <= i < filed@.len() ==> gathered(#[trigger] b.entries@[i], filed@[i], *secrets, with_secrets),
{
    let mut entries: Vec<Entry> = Vec::new();
    let mut i: usize = 0;
    while i < filed.len()
        invariant
            i <= filed@.len(),
            entries@.len() == i,
            forall|j: int| 0 <= j < i ==> gathered(#[trigger] entries@[j], filed@[j], *secrets, with_secrets),
        decreases filed@.len() - i,
    {
        let entry = if with_secrets {
            let id = filed[i].site.id.as_str();
            let p = secrets.get(id, Secret::Password);
            let q = secrets.get(id, Secret::Passphrase);
            let ghost gp = p;
            let ghost gq = q;
            let e = entry_of(&filed[i], p, q);
            assert(S::gets(*secrets, filed@[i as int].site.id@, Secret::Password, gp));
            assert(S::gets(*secrets, filed@[i as int].site.id@, Secret::Passphrase, gq));
            e
        } else {
            entry_of(&filed[i], Ok(None), Ok(None))
        };
        entries.push(entry);
        i = i + 1;
    }
    Bundle { version: VERSION, entries }
}

pub open spec fn result_bytes(r: Result<Vec<u8>, Error>) -> Result<Seq<u8>, Seq<char>> {
    crate::sealed::result_view(r)
}

/// The bytes of an export, given the bundle's JSON: sealed where a
/// passphrase is given, refused where secrets would go out unsealed, and the
/// JSON as it is otherwise.
pub fn to_bytes(bundle: &Bundle, text: &[u8], passphrase: Option<&str>) -> (r: Result<Vec<u8>, Error>)
    ensures
        passphrase is None && (exists|i: int| 0 <= i < bundle.entries@.len() && has_secret(#[trigger] bundle.entries@[i]))
            ==> result_bytes(r) == Err::<Seq<u8>, Seq<char>>("an export with passwords needs a passphrase to seal it"@),
        passphrase is None && !(exists|i: int| 0 <= i < bundle.entries@.len() && has_secret(#[trigger] bundle.entries@[i]))
            ==> result_bytes(r) == Ok::<Seq<u8>, Seq<char>>(text@),
        passphrase matches Some(p) ==> (r matches Ok(out) ==> exists|salt: Seq<u8>, nonce: Seq<u8>| crate::sealed::seals(out@, text@, p@, salt, nonce)),
        passphrase matches Some(p) && p@.len() == 0 ==> r is Err,
        passphrase matches Some(p) && p@.len() > 0 ==> r is Ok || crate::sealed::sealing_failed(result_bytes(r)),
        passphrase matches Some(p) && p@.len() > 0 && text@.len() <= crate::sealed::MAX_SEALED && r is Err
            ==> result_bytes(r) == Err::<Seq<u8>, Seq<char>>("no randomness"@),
{
    match passphrase {
        Some(p) => crate::sealed::seal(text, p),
        None => {
            if bundle.carries_secrets() {
                Err(Error::other("an export with passwords needs a passphrase to seal it"))
            } else {
                let mut out: Vec<u8> = Vec::new();
                let mut i: usize = 0;
                while i < text.len()
                    invariant
                        i <= text@.len(),
                        out@ == text@.take(i as int),
                    decreases text@.len() - i,
                {
                    out.push(text[i]);
                    i = i + 1;
                    assert(out@ =~= text@.take(i as int));
                }
                assert(text@.take(text@.len() as int) =~= text@);
                Ok(out)
            }
        },
    }
}

/// The JSON inside a file, sealed or not: a sealed one needs its passphrase
/// and opens as [`crate::sealed::open`] opens it; a plain one is its bytes.
pub fn text_of(bytes: &[u8], passphrase: Option<&str>) -> (r: Result<Vec<u8>, Error>)
    ensures
        !crate::sealed::spec_is_sealed(bytes@) ==> result_bytes(r) == Ok::<Seq<u8>, Seq<char>>(bytes@),
        crate::sealed::spec_is_sealed(bytes@) && passphrase is None ==> result_bytes(r) == Err::<
            Seq<u8>,
            Seq<char>,
        >("this export is sealed"@),
        crate::sealed::spec_is_sealed(bytes@) ==> (passphrase matches Some(p) ==> result_bytes(r)
            == crate::sealed::spec_open(bytes@, p@)),
{
    if crate::sealed::is_sealed(bytes) {
        match passphrase {
            Some(p) => crate::sealed::open(bytes, p),
            None => Err(Error::other("this export is sealed")),
        }
    } else {
        let mut out: Vec<u8> = Vec::new();
        let mut i: usize = 0;
        while i < bytes.len()
            invariant
                i <= bytes@.len(),
                out@ == bytes@.take(i as int),
            decreases bytes@.len() - i,
        {
            out.push(bytes[i]);
            i = i + 1;
            assert(out@ =~= bytes@.take(i as int));
        }
        assert(bytes@.take(bytes@.len() as int) =~= bytes@);
        Ok(out)
    }
}

/// What a refusal says.
pub open spec fn refusal(r: Result<(), Error>) -> Option<Seq<char>> {
    match r {
        Err(Error::Other { detail }) => Some(detail@),
        _ => None,
    }
}

/// A bundle read back is taken only from this version or an earlier one.
pub fn accept_version(bundle: &Bundle) -> (r: Result<(), Error>)
    ensures
        bundle.version <= VERSION ==> r is Ok,
        bundle.version > VERSION ==> refusal(r) == Some("this export was made by a newer version"@),
{
    if bundle.version > VERSION {
        Err(Error::other("this export was made by a newer version"))
    } else {
        Ok(())
    }
}

/// The folder an entry lands in under the folder it is imported into.
pub open spec fn landing(into: Seq<char>, inner: Seq<char>) -> Seq<char> {
    let outer = trim(into);
    if outer.len() == 0 {
        inner
    } else if inner.len() == 0 {
        outer
    } else {
        outer + seq!['/'] + inner
    }
}

/// Where an entry goes and what is written for it: a fresh identifier, so
/// the same list imported twice never has two entries sharing a password,
/// and its password remembered exactly where the file carried one.
pub fn placed(entry: &Entry, into: &str, new_id: &str) -> (r: (String, Site))
    ensures
        r.0@ == landing(into@, entry.folder@),
        r.1 == (Site { id: r.1.id, remember_password: r.1.remember_password, excludes: r.1.excludes, ..entry.site }),
        r.1.excludes@ == entry.site.excludes@,
        r.1.id@ == new_id@,
        r.1.remember_password == entry.password is Some,
{
    let i = chars_of(into);
    let outer = crate::text::trimmed(&i);
    let inner = chars_of(entry.folder.as_str());
    let folder = if outer.len() == 0 {
        string_of(&inner)
    } else if inner.len() == 0 {
        string_of(&outer)
    } else {
        let mut v = outer;
        v.push('/');
        crate::text::append_chars(&mut v, &inner);
        string_of(&v)
    };
    let mut site = entry.site.copy();
    site.id = new_id.to_string();
    site.remember_password = entry.password.is_some();
    (folder, site)
}

/// Whether an index names an entry of a bundle of `count` entries.
pub open spec fn names_an_entry(count: nat) -> spec_fn(usize) -> bool {
    |i: usize| i < count
}

/// The chosen entries a bundle is read in with: each index that names one of
/// its entries, in the order chosen; an index past the end is passed over.
pub fn taken_indices(bundle: &Bundle, chosen: &[usize]) -> (v: Vec<usize>)
    ensures
        v@ == chosen@.filter(names_an_entry(bundle.entries@.len())),
{
    let count = bundle.entries.len();
    let ghost keep = names_an_entry(bundle.entries@.len());
    let mut v: Vec<usize> = Vec::new();
    let mut i: usize = 0;
    assert(chosen@.take(0) =~= Seq::<usize>::empty());
    while i < chosen.len()
        invariant
            i <= chosen@.len(),
            count == bundle.entries@.len(),
            keep == names_an_entry(bundle.entries@.len()),
            v@ == chosen@.take(i as int).filter(keep),
        decreases chosen@.len() - i,
    {
        let index = chosen[i];
        proof {
            reveal_with_fuel(Seq::filter, 1);
            assert(chosen@.take(i + 1).drop_last() =~= chosen@.take(i as int));
            assert(chosen@.take(i + 1).last() == index);
        }
        if index < count {
            v.push(index);
        }
        i = i + 1;
    }
    assert(chosen@.take(chosen@.len() as int) =~= chosen@);
    v
}

} // verus!

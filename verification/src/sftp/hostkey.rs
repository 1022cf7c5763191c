//! Checking the server's key against what `known_hosts` records.
//!
//! Three outcomes, and only the first connects on its own: known and
//! matching connects; unknown stops and shows the fingerprint, connecting
//! only after the user says so; changed is refused, whatever the user just
//! clicked.
use vstd::prelude::*;

use crate::error::Error;
use crate::ftp::tls::sha256;

verus! {

/// What the user has already agreed to for this attempt.
#[derive(Debug, Clone, PartialEq, Eq)]
pub enum HostKeyDecision {
    /// Connect only if the key is already recorded.
    KnownOnly,
    /// The user was shown this fingerprint and accepted it; the decision
    /// belongs to one key, not to one host.
    Trust { fingerprint: String },
}

impl Default for HostKeyDecision {
    fn default() -> (d: Self)
        ensures
            d == HostKeyDecision::KnownOnly,
    {
        HostKeyDecision::KnownOnly
    }
}

/// A server's public key, by its bytes in the SSH wire format. Two keys are
/// the same key when their bytes are the same.
#[derive(Debug, Clone, PartialEq, Eq)]
pub struct PublicKey {
    pub blob: Vec<u8>,
}

/// A character of the standard Base64 alphabet.
pub open spec fn b64_char(v: nat) -> char {
    if v < 26 {
        (v + 65) as char
    } else if v < 52 {
        (v + 71) as char
    } else if v < 62 {
        (v - 4) as char
    } else if v == 62 {
        '+'
    } else {
        '/'
    }
}

/// Bytes in Base64 without padding, three bytes to four characters.
pub open spec fn b64_unpadded(b: Seq<u8>) -> Seq<char>
    decreases b.len(),
{
    if b.len() == 0 {
        Seq::empty()
    } else if b.len() == 1 {
        seq![b64_char(b[0] as nat / 4), b64_char((b[0] as nat % 4) * 16)]
    } else if b.len() == 2 {
        seq![
            b64_char(b[0] as nat / 4),
            b64_char((b[0] as nat % 4) * 16 + b[1] as nat / 16),
            b64_char((b[1] as nat % 16) * 4),
        ]
    } else {
        seq![
            b64_char(b[0] as nat / 4),
            b64_char((b[0] as nat % 4) * 16 + b[1] as nat / 16),
            b64_char((b[1] as nat % 16) * 4 + b[2] as nat / 64),
            b64_char(b[2] as nat % 64),
        ] + b64_unpadded(b.skip(3))
    }
}

fn b64_char_exec(v: u8) -> (c: char)
    requires
        v < 64,
    ensures
        c == b64_char(v as nat),
{
    if v < 26 {
        crate::text::char_from(v as u32 + 65)
    } else if v < 52 {
        crate::text::char_from(v as u32 + 71)
    } else if v < 62 {
        crate::text::char_from(v as u32 - 4)
    } else if v == 62 {
        '+'
    } else {
        '/'
    }
}

fn b64_unpadded_exec(b: &[u8]) -> (out: Vec<char>)
    ensures
        out@ == b64_unpadded(b@),
{
    let mut out: Vec<char> = Vec::new();
    let mut i: usize = 0;
    assert(b@.skip(0) =~= b@);
    while i < b.len()
        invariant
            i <= b@.len(),
            out@ + b64_unpadded(b@.skip(i as int)) == b64_unpadded(b@),
        decreases b@.len() - i,
    {
        let ghost rest = b@.skip(i as int);
        let ghost before = out@;
        let left = b.len() - i;
        let x = b[i];
        assert(rest[0] == x);
        out.push(b64_char_exec(x / 4));
        if left == 1 {
            out.push(b64_char_exec((x % 4) * 16));
            assert(out@ =~= before + b64_unpadded(rest));
            assert(b@.skip(i + 1).len() == 0);
            assert(out@ + b64_unpadded(b@.skip(i + 1)) =~= out@);
            i = i + 1;
        } else {
            let y = b[i + 1];
            assert(rest[1] == y);
            out.push(b64_char_exec((x % 4) * 16 + y / 16));
            if left == 2 {
                out.push(b64_char_exec((y % 16) * 4));
                assert(out@ =~= before + b64_unpadded(rest));
                assert(b@.skip(i + 2).len() == 0);
                assert(out@ + b64_unpadded(b@.skip(i + 2)) =~= out@);
                i = i + 2;
            } else {
                let z = b[i + 2];
                assert(rest[2] == z);
                out.push(b64_char_exec((y % 16) * 4 + z / 64));
                out.push(b64_char_exec(z % 64));
                assert(rest.skip(3) =~= b@.skip(i + 3));
                assert(out@ + b64_unpadded(b@.skip(i + 3)) =~= before + b64_unpadded(rest));
                i = i + 3;
            }
        }
    }
    assert(b@.skip(i as int).len() == 0);
    assert(out@ + b64_unpadded(b@.skip(i as int)) =~= out@);
    out
}

/// The fingerprint in the notation OpenSSH prints: `SHA256:` and the digest
/// of the key in Base64 without padding.
pub open spec fn spec_fingerprint(key: Seq<u8>) -> Seq<char> {
    "SHA256:"@ + b64_unpadded(sha256(key))
}

pub fn fingerprint(key: &PublicKey) -> (s: String)
    ensures
        s@ == spec_fingerprint(key.blob@),
{
    let digest = crate::ftp::tls::sha256_digest(key.blob.as_slice());
    let mut v = crate::text::chars_of("SHA256:");
    let tail = b64_unpadded_exec(&digest);
    crate::text::append_chars(&mut v, &tail);
    crate::text::string_of(&v)
}

/// What the check decided, kept aside so the connection can explain itself
/// after it was closed.
pub struct Verdict {
    /// Why the key was refused, if it was.
    pub refusal: Option<Error>,
    /// A key the user accepted, to be recorded once the rest of the
    /// connection worked.
    pub to_learn: Option<PublicKey>,
}

impl Verdict {
    pub fn shared() -> (v: Verdict)
        ensures
            v.refusal is None,
            v.to_learn is None,
    {
        Verdict { refusal: None, to_learn: None }
    }

    pub fn take_refusal(&mut self) -> (r: Option<Error>)
        ensures
            r == old(self).refusal,
            final(self).refusal is None,
            final(self).to_learn == old(self).to_learn,
    {
        let r = self.refusal.take();
        r
    }

    pub fn take_to_learn(&mut self) -> (r: Option<PublicKey>)
        ensures
            r == old(self).to_learn,
            final(self).to_learn is None,
            final(self).refusal == old(self).refusal,
    {
        let r = self.to_learn.take();
        r
    }
}

fn copy_bytes(b: &[u8]) -> (out: Vec<u8>)
    ensures
        out@ == b@,
{
    let mut out: Vec<u8> = Vec::new();
    let mut i: usize = 0;
    while i < b.len()
        invariant
            i <= b@.len(),
            out@ == b@.take(i as int),
        decreases b@.len() - i,
    {
        out.push(b[i]);
        i = i + 1;
        assert(out@ =~= b@.take(i as int));
    }
    assert(b@.take(b@.len() as int) =~= b@);
    out
}

fn same_bytes(a: &[u8], b: &[u8]) -> (r: bool)
    ensures
        r == (a@ == b@),
{
    if a.len() != b.len() {
        return false;
    }
    let mut i: usize = 0;
    while i < a.len()
        invariant
            i <= a@.len(),
            a@.len() == b@.len(),
            forall|j: int| 0 <= j < i ==> a@[j] == b@[j],
        decreases a@.len() - i,
    {
        if a[i] != b[i] {
            return false;
        }
        i = i + 1;
    }
    assert(a@ =~= b@);
    true
}

/// Whether a key is among the recorded ones.
pub open spec fn is_recorded(key: Seq<u8>, recorded: Seq<PublicKey>) -> bool {
    exists|i: int| 0 <= i < recorded.len() && recorded[i].blob@ == key
}

/// Whether the user accepted exactly this key's fingerprint.
pub open spec fn trusts(d: HostKeyDecision, key: Seq<u8>) -> bool {
    match d {
        HostKeyDecision::Trust { fingerprint } => fingerprint@ == spec_fingerprint(key),
        HostKeyDecision::KnownOnly => false,
    }
}

/// A refusal as a changed key, naming both fingerprints.
pub open spec fn refused_as_changed(r: Option<Error>, host: Seq<char>, key: Seq<u8>, known: Seq<u8>) -> bool {
    match r {
        Some(Error::HostKeyChanged { host: h, fingerprint: f, known_fingerprint: k }) => h@ == host && f@
            == spec_fingerprint(key) && k@ == spec_fingerprint(known),
        _ => false,
    }
}

/// A refusal as an unknown key, naming its fingerprint.
pub open spec fn refused_as_unknown(r: Option<Error>, host: Seq<char>, key: Seq<u8>) -> bool {
    match r {
        Some(Error::HostKeyUnknown { host: h, fingerprint: f }) => h@ == host && f@ == spec_fingerprint(key),
        _ => false,
    }
}

/// Whether a key is kept to be recorded.
pub open spec fn learns(k: Option<PublicKey>, key: Seq<u8>) -> bool {
    match k {
        Some(x) => x.blob@ == key,
        None => false,
    }
}

/// Decides whether this key may be used, and records why not: a recorded
/// key connects; with another key on record it is refused as changed; with
/// none it connects only where the user accepted exactly its fingerprint,
/// and is then kept to be recorded, and is refused as unknown otherwise.
pub fn verify(
    host: &str,
    key: &PublicKey,
    decision: &HostKeyDecision,
    verdict: &mut Verdict,
    recorded: &[PublicKey],
) -> (ok: bool)
    ensures
        ok == (is_recorded(key.blob@, recorded@) || (recorded@.len() == 0 && trusts(*decision, key.blob@))),
        is_recorded(key.blob@, recorded@) ==> *final(verdict) == *old(verdict),
        !is_recorded(key.blob@, recorded@) && recorded@.len() > 0 ==> final(verdict).to_learn
            == old(verdict).to_learn && refused_as_changed(final(verdict).refusal, host@, key.blob@, recorded@[0].blob@),
        !is_recorded(key.blob@, recorded@) && recorded@.len() == 0 && ok ==> final(verdict).refusal
            == old(verdict).refusal && learns(final(verdict).to_learn, key.blob@),
        !is_recorded(key.blob@, recorded@) && recorded@.len() == 0 && !ok ==> final(verdict).to_learn
            == old(verdict).to_learn && refused_as_unknown(final(verdict).refusal, host@, key.blob@),
{
    let offered = fingerprint(key);
    let mut i: usize = 0;
    while i < recorded.len()
        invariant
            i <= recorded@.len(),
            forall|j: int| 0 <= j < i ==> recorded@[j].blob@ != key.blob@,
        decreases recorded@.len() - i,
    {
        if same_bytes(recorded[i].blob.as_slice(), key.blob.as_slice()) {
            return true;
        }
        i = i + 1;
    }
    if recorded.len() > 0 {
        let known = fingerprint(&recorded[0]);
        verdict.refusal = Some(Error::HostKeyChanged { host: host.to_string(), fingerprint: offered, known_fingerprint: known });
        return false;
    }
    match decision {
        HostKeyDecision::Trust { fingerprint: accepted } => {
            if crate::text::str_eq(accepted.as_str(), offered.as_str()) {
                verdict.to_learn = Some(PublicKey { blob: copy_bytes(key.blob.as_slice()) });
                return true;
            }
        },
        HostKeyDecision::KnownOnly => {},
    }
    verdict.refusal = Some(Error::HostKeyUnknown { host: host.to_string(), fingerprint: offered });
    false
}

} // verus!

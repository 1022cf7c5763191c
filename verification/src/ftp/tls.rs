//! Deciding whether to trust an FTPS server's certificate: strict by default,
//! an exception only for one certificate on one server. What the user accepts
//! is the fingerprint of that one certificate; a different certificate on the
//! same host asks again.
use vstd::prelude::*;

use crate::text::{decimal, decimal_of, opt_text};

verus! {

/// Why a certificate was not accepted on its own.
#[derive(Debug, Clone, Copy, PartialEq, Eq, Structural)]
pub enum CertificateProblem {
    /// Signed by itself or by an authority the system does not know.
    UnknownIssuer,
    /// Valid once, not any more.
    Expired,
    /// Withdrawn by the authority that issued it.
    Revoked,
    /// The signature does not hold, or the certificate cannot be read at all.
    Broken,
    /// Not yet valid: a clock is wrong somewhere.
    NotYetValid,
    /// A valid certificate, for a different name than the one connected to.
    WrongName,
    /// Refused for a reason that has no better name.
    Other,
}

pub open spec fn problem_key(p: CertificateProblem) -> Seq<char> {
    match p {
        CertificateProblem::UnknownIssuer => "certificate.unknown-issuer"@,
        CertificateProblem::Expired => "certificate.expired"@,
        CertificateProblem::Revoked => "certificate.revoked"@,
        CertificateProblem::Broken => "certificate.broken"@,
        CertificateProblem::NotYetValid => "certificate.not-yet-valid"@,
        CertificateProblem::WrongName => "certificate.wrong-name"@,
        CertificateProblem::Other => "certificate.other"@,
    }
}

impl CertificateProblem {
    /// The translation key naming this problem in the window.
    pub fn message_key(self) -> (k: &'static str)
        ensures
            k@ == problem_key(self),
    {
        match self {
            CertificateProblem::UnknownIssuer => "certificate.unknown-issuer",
            CertificateProblem::Expired => "certificate.expired",
            CertificateProblem::Revoked => "certificate.revoked",
            CertificateProblem::Broken => "certificate.broken",
            CertificateProblem::NotYetValid => "certificate.not-yet-valid",
            CertificateProblem::WrongName => "certificate.wrong-name",
            CertificateProblem::Other => "certificate.other",
        }
    }
}

/// Every problem has its own key, and every key begins with `certificate.`.
pub proof fn every_problem_has_its_own_key(a: CertificateProblem, b: CertificateProblem)
    ensures
        crate::text::starts_with(problem_key(a), "certificate."@),
        a != b ==> problem_key(a) != problem_key(b),
{
    reveal_strlit("certificate.");
    reveal_strlit("certificate.unknown-issuer");
    reveal_strlit("certificate.expired");
    reveal_strlit("certificate.revoked");
    reveal_strlit("certificate.broken");
    reveal_strlit("certificate.not-yet-valid");
    reveal_strlit("certificate.wrong-name");
    reveal_strlit("certificate.other");
    assert(problem_key(a).take(12) =~= "certificate."@);
    if a != b {
        let ka = problem_key(a);
        let kb = problem_key(b);
        if ka.len() == kb.len() {
            assert(ka[12] != kb[12] || ka[13] != kb[13]);
        }
    }
}

/// What the window shows when it asks.
#[derive(Debug, Clone, PartialEq, Eq)]
pub struct CertificateFacts {
    pub host: String,
    /// SHA-256 over the certificate, in the notation `openssl` prints.
    pub fingerprint: String,
    pub problem: CertificateProblem,
    /// What the TLS library said, word for word.
    pub detail: String,
}

/// The SHA-256 digest of some bytes.
pub uninterp spec fn sha256(data: Seq<u8>) -> Seq<u8>;

/// `sha2::Sha256::digest`. Claimed: the result is `sha256` of the bytes, and
/// it is 32 bytes long, as the digest's output size says.
#[verifier::external_body]
pub(crate) fn sha256_digest(data: &[u8]) -> (d: Vec<u8>)
    ensures
        d@ == sha256(data@),
        d@.len() == 32,
{
    <sha2::Sha256 as sha2::Digest>::digest(data).to_vec()
}

/// An upper-case hexadecimal digit.
pub open spec fn hex_upper(n: nat) -> char {
    if n < 10 {
        ((n + 48) as u32) as char
    } else {
        ((n + 55) as u32) as char
    }
}

/// A byte as two upper-case hexadecimal digits, as `{:02X}` prints it.
pub open spec fn byte_hex(b: u8) -> Seq<char> {
    seq![hex_upper((b / 16) as nat), hex_upper((b % 16) as nat)]
}

/// Bytes as colon separated pairs of hexadecimal digits.
pub open spec fn colon_hex(bytes: Seq<u8>) -> Seq<char>
    decreases bytes.len(),
{
    if bytes.len() == 0 {
        Seq::empty()
    } else if bytes.len() == 1 {
        byte_hex(bytes[0])
    } else {
        colon_hex(bytes.drop_last()) + seq![':'] + byte_hex(bytes.last())
    }
}

fn hex_upper_exec(n: u8) -> (c: char)
    requires
        n < 16,
    ensures
        c == hex_upper(n as nat),
{
    if n < 10 {
        crate::text::char_from(n as u32 + 48)
    } else {
        crate::text::char_from(n as u32 + 55)
    }
}

/// `colon_hex`, computed.
pub fn colon_hex_of(bytes: &[u8]) -> (s: String)
    ensures
        s@ == colon_hex(bytes@),
{
    let mut out: Vec<char> = Vec::new();
    let mut i: usize = 0;
    while i < bytes.len()
        invariant
            i <= bytes@.len(),
            out@ == colon_hex(bytes@.take(i as int)),
        decreases bytes@.len() - i,
    {
        let b = bytes[i];
        let ghost before = out@;
        if i > 0 {
            out.push(':');
        }
        out.push(hex_upper_exec(b / 16));
        out.push(hex_upper_exec(b % 16));
        proof {
            let t = bytes@.take(i + 1);
            assert(t.drop_last() =~= bytes@.take(i as int));
            assert(t.last() == b);
            if i > 0 {
                assert(out@ =~= before + seq![':'] + byte_hex(b));
            } else {
                assert(out@ =~= byte_hex(b));
            }
        }
        i = i + 1;
    }
    assert(bytes@.take(bytes@.len() as int) =~= bytes@);
    crate::text::string_of(&out)
}

/// The fingerprint of a certificate: SHA-256 as colon separated hex, the
/// notation `openssl x509 -fingerprint -sha256` prints.
pub open spec fn spec_fingerprint(der: Seq<u8>) -> Seq<char> {
    colon_hex(sha256(der))
}

pub fn fingerprint(der: &[u8]) -> (s: String)
    ensures
        s@ == spec_fingerprint(der@),
{
    let digest = sha256_digest(der);
    colon_hex_of(&digest)
}

/// What the user has already agreed to for this attempt.
#[derive(Debug, Clone, PartialEq, Eq, Default)]
pub enum CertificateDecision {
    /// Accept only what the system already trusts. Every first attempt.
    #[default]
    TrustedOnly,
    /// The user was shown this fingerprint and accepted it. Anything else is
    /// still refused.
    Trust { fingerprint: String },
}

/// Where a refusal is put down, so the connection can explain itself after the
/// TLS layer has closed; and whether a certificate was seen at all.
#[derive(Debug, Default)]
pub struct Verdict {
    pub refusal: Option<CertificateFacts>,
    pub seen: bool,
}

impl Verdict {
    /// The refusal, taken out.
    pub fn take(&mut self) -> (r: Option<CertificateFacts>)
        ensures
            r == old(self).refusal,
            final(self).refusal is None,
            final(self).seen == old(self).seen,
    {
        let r = self.refusal.take();
        r
    }

    pub fn refuse(&mut self, facts: CertificateFacts)
        ensures
            final(self).refusal == Some(facts),
            final(self).seen == old(self).seen,
    {
        self.refusal = Some(facts);
    }

    /// Noted whichever way the certificate was judged.
    pub fn saw_certificate(&mut self)
        ensures
            final(self).seen,
            final(self).refusal == old(self).refusal,
    {
        self.seen = true;
    }

    /// True once the server has presented a certificate.
    pub fn handshaked(&self) -> (b: bool)
        ensures
            b == self.seen,
    {
        self.seen
    }
}

/// Decides what happens to a certificate the system did not vouch for: it
/// passes only when the user accepted exactly its fingerprint, and a refusal
/// is written down with the fingerprint, the problem and the library's words.
pub fn accept_untrusted(
    host: &str,
    der: &[u8],
    problem: CertificateProblem,
    detail: &str,
    decision: &CertificateDecision,
    verdict: &mut Verdict,
) -> (ok: bool)
    ensures
        ok == (decision matches CertificateDecision::Trust { fingerprint }
            && fingerprint@ == spec_fingerprint(der@)),
        ok ==> final(verdict).refusal == old(verdict).refusal,
        !ok ==> (final(verdict).refusal matches Some(f) && f.host@ == host@ && f.fingerprint@
            == spec_fingerprint(der@) && f.problem == problem && f.detail@ == detail@),
        final(verdict).seen == old(verdict).seen,
{
    let offered = fingerprint(der);
    let matches = match decision {
        CertificateDecision::Trust { fingerprint: accepted } => crate::text::str_eq(
            accepted.as_str(),
            offered.as_str(),
        ),
        CertificateDecision::TrustedOnly => false,
    };
    if matches {
        true
    } else {
        verdict.refuse(
            CertificateFacts {
                host: host.to_string(),
                fingerprint: offered,
                problem,
                detail: detail.to_string(),
            },
        );
        false
    }
}

/// The key an exception is filed under: `host:port`.
pub open spec fn exception_key(host: Seq<char>, port: u16) -> Seq<char> {
    host + seq![':'] + decimal(port as nat)
}

/// The fingerprint filed under a key: the first pair with that key.
pub open spec fn filed(pairs: Seq<(String, String)>, key: Seq<char>) -> Option<Seq<char>>
    decreases pairs.len(),
{
    if pairs.len() == 0 {
        None
    } else if pairs[0].0@ == key {
        Some(pairs[0].1@)
    } else {
        filed(pairs.drop_first(), key)
    }
}

/// Whether a pair is filed under some other key than `key`.
pub open spec fn not_under(key: Seq<char>) -> spec_fn((String, String)) -> bool {
    |p: (String, String)| p.0@ != key
}

/// Exceptions the user has agreed to, as `host:port` and fingerprint pairs.
#[derive(Debug, Clone, Default, PartialEq, Eq)]
pub struct Exceptions {
    pub accepted: Vec<(String, String)>,
}

/// What a decision trusts, as text: `None` for what the system trusts alone.
pub open spec fn trusted_print(d: CertificateDecision) -> Option<Seq<char>> {
    match d {
        CertificateDecision::TrustedOnly => None,
        CertificateDecision::Trust { fingerprint } => Some(fingerprint@),
    }
}

impl Exceptions {
    pub fn key(host: &str, port: u16) -> (k: String)
        ensures
            k@ == exception_key(host@, port),
    {
        let mut v = crate::text::chars_of(host);
        v.push(':');
        let digits = decimal_of(port as u64);
        crate::text::append_chars(&mut v, &digits);
        crate::text::string_of(&v)
    }

    fn find(&self, key: &str) -> (r: Option<usize>)
        ensures
            match r {
                Some(i) => i < self.accepted@.len() && filed(self.accepted@, key@) == Some(
                    self.accepted@[i as int].1@,
                ),
                None => filed(self.accepted@, key@) is None,
            },
    {
        let mut i: usize = 0;
        assert(self.accepted@.skip(0) =~= self.accepted@);
        while i < self.accepted.len()
            invariant
                i <= self.accepted@.len(),
                filed(self.accepted@, key@) == filed(self.accepted@.skip(i as int), key@),
            decreases self.accepted@.len() - i,
        {
            assert(self.accepted@.skip(i as int).drop_first() =~= self.accepted@.skip(i + 1));
            if crate::text::str_eq(self.accepted[i].0.as_str(), key) {
                return Some(i);
            }
            i = i + 1;
        }
        None
    }

    /// What was accepted for this host and port, if anything.
    pub fn decision_for(&self, host: &str, port: u16) -> (d: CertificateDecision)
        ensures
            trusted_print(d) == filed(self.accepted@, exception_key(host@, port)),
    {
        let key = Self::key(host, port);
        match self.find(key.as_str()) {
            Some(i) => CertificateDecision::Trust { fingerprint: self.accepted[i].1.clone() },
            None => CertificateDecision::TrustedOnly,
        }
    }

    /// Takes out every pair filed under a key.
    fn drop_key(&mut self, key: &str)
        ensures
            final(self).accepted@ == old(self).accepted@.filter(not_under(key@)),
    {
        let ghost before = self.accepted@;
        let mut rest: Vec<(String, String)> = Vec::new();
        std::mem::swap(&mut rest, &mut self.accepted);
        let mut kept: Vec<(String, String)> = Vec::new();
        let ghost mut k: int = 0;
        while rest.len() > 0
            invariant
                0 <= k <= before.len(),
                rest@ == before.skip(k),
                kept@ == before.take(k).filter(not_under(key@)),
            decreases rest@.len(),
        {
            let pair = rest.remove(0);
            proof {
                assert(before.take(k + 1).drop_last() =~= before.take(k));
                reveal_with_fuel(Seq::filter, 1);
                assert(pair == before[k]);
            }
            if !crate::text::str_eq(pair.0.as_str(), key) {
                kept.push(pair);
            }
            proof {
                k = k + 1;
                assert(rest@ =~= before.skip(k));
            }
        }
        assert(before.take(k) =~= before);
        self.accepted = kept;
    }

    /// Accepts one fingerprint for one host and port, replacing what was there.
    pub fn accept(&mut self, host: &str, port: u16, fingerprint: &str)
        ensures
            final(self).accepted@.len() > 0,
            final(self).accepted@.last().0@ == exception_key(host@, port),
            final(self).accepted@.last().1@ == fingerprint@,
            final(self).accepted@.drop_last() == old(self).accepted@.filter(not_under(exception_key(host@, port))),
    {
        let key = Self::key(host, port);
        self.drop_key(key.as_str());
        self.accepted.push((key, fingerprint.to_string()));
        assert(self.accepted@.drop_last() =~= old(self).accepted@.filter(
            not_under(exception_key(host@, port)),
        ));
    }

    /// Forgets what was accepted for this host and port.
    pub fn forget(&mut self, host: &str, port: u16)
        ensures
            final(self).accepted@ == old(self).accepted@.filter(not_under(exception_key(host@, port))),
    {
        let key = Self::key(host, port);
        self.drop_key(key.as_str());
    }
}

/// What a key finds after the pairs filed under another key are taken out is
/// what it found before; under that key it finds nothing.
pub proof fn lemma_filed_without(pairs: Seq<(String, String)>, gone: Seq<char>, key: Seq<char>)
    ensures
        filed(pairs.filter(not_under(gone)), key) == (if key == gone {
            None
        } else {
            filed(pairs, key)
        }),
    decreases pairs.len(),
{
    let f = not_under(gone);
    if pairs.len() > 0 {
        lemma_filed_without(pairs.drop_first(), gone, key);
        assert(pairs =~= seq![pairs[0]] + pairs.drop_first());
        Seq::filter_distributes_over_add(seq![pairs[0]], pairs.drop_first(), f);
        reveal_with_fuel(Seq::filter, 2);
        if f(pairs[0]) {
            assert(seq![pairs[0]].filter(f) =~= seq![pairs[0]]);
            assert((seq![pairs[0]] + pairs.drop_first().filter(f)).drop_first()
                =~= pairs.drop_first().filter(f));
        } else {
            assert(seq![pairs[0]].filter(f) =~= Seq::<(String, String)>::empty());
            assert(Seq::<(String, String)>::empty() + pairs.drop_first().filter(f)
                =~= pairs.drop_first().filter(f));
        }
    } else {
        assert(pairs.filter(f) =~= pairs);
    }
}

/// What a key finds once one pair is put at the end: that pair where the key
/// is its own, otherwise what it found before.
pub proof fn lemma_filed_push(pairs: Seq<(String, String)>, p: (String, String), key: Seq<char>)
    requires
        filed(pairs, p.0@) is None,
    ensures
        filed(pairs.push(p), key) == (if key == p.0@ {
            Some(p.1@)
        } else {
            filed(pairs, key)
        }),
    decreases pairs.len(),
{
    reveal_with_fuel(filed, 2);
    if pairs.len() > 0 {
        assert(pairs.push(p)[0] == pairs[0]);
        assert(pairs.push(p).drop_first() =~= pairs.drop_first().push(p));
        assert(pairs[0].0@ != p.0@);
        lemma_filed_push(pairs.drop_first(), p, key);
    } else {
        assert(pairs.push(p)[0] == p);
        assert(pairs.push(p).drop_first() =~= Seq::<(String, String)>::empty());
    }
}

/// Two different hosts or ports never share a key: the port is the digits
/// after the last colon, and digits hold no colon.
pub proof fn keys_belong_to_one_host_and_port(h1: Seq<char>, p1: u16, h2: Seq<char>, p2: u16)
    ensures
        exception_key(h1, p1) == exception_key(h2, p2) ==> h1 == h2 && p1 == p2,
{
    if exception_key(h1, p1) == exception_key(h2, p2) {
        let k = exception_key(h1, p1);
        let d1 = decimal(p1 as nat);
        let d2 = decimal(p2 as nat);
        crate::text::lemma_decimal_digits(p1 as nat);
        crate::text::lemma_decimal_digits(p2 as nat);
        if h1.len() < h2.len() {
            assert(false) by {
                assert(k == h1 + seq![':'] + d1);
                assert(k == h2 + seq![':'] + d2);
                assert(k.len() == h1.len() + 1 + d1.len());
                assert(k.len() == h2.len() + 1 + d2.len());
                let j = h2.len() as int - h1.len() as int - 1;
                assert(0 <= j < d1.len());
                assert(k[h2.len() as int] == ':');
                assert(k[h2.len() as int] == d1[j]);
            }
        } else if h2.len() < h1.len() {
            assert(false) by {
                assert(k == h1 + seq![':'] + d1);
                assert(k == h2 + seq![':'] + d2);
                assert(k.len() == h1.len() + 1 + d1.len());
                assert(k.len() == h2.len() + 1 + d2.len());
                let j = h1.len() as int - h2.len() as int - 1;
                assert(0 <= j < d2.len());
                assert(k[h1.len() as int] == ':');
                assert(k[h1.len() as int] == d2[j]);
            }
        }
        assert(h1 =~= k.take(h1.len() as int));
        assert(h2 =~= k.take(h2.len() as int));
        assert(d1 =~= k.skip(h1.len() + 1int));
        assert(d2 =~= k.skip(h2.len() + 1int));
        crate::text::lemma_decimal_injective(p1 as nat, p2 as nat);
    }
}

/// An exception belongs to one host and port: once accepted, that host and
/// port are trusted with exactly that fingerprint and every other host and
/// port decides as before; once forgotten, that host and port trust only what
/// the system trusts, and every other one decides as before.
pub proof fn an_exception_belongs_to_one_host_and_port(
    before: Seq<(String, String)>,
    host: Seq<char>,
    port: u16,
    fingerprint: Seq<char>,
    other_host: Seq<char>,
    other_port: u16,
    accepted: Seq<(String, String)>,
    forgotten: Seq<(String, String)>,
)
    requires
        accepted.len() > 0,
        accepted.last().0@ == exception_key(host, port),
        accepted.last().1@ == fingerprint,
        accepted.drop_last() == before.filter(not_under(exception_key(host, port))),
        forgotten == before.filter(not_under(exception_key(host, port))),
    ensures
        filed(accepted, exception_key(host, port)) == Some(fingerprint),
        filed(forgotten, exception_key(host, port)) is None,
        (other_host != host || other_port != port) ==> filed(
            accepted,
            exception_key(other_host, other_port),
        ) == filed(before, exception_key(other_host, other_port)),
        (other_host != host || other_port != port) ==> filed(
            forgotten,
            exception_key(other_host, other_port),
        ) == filed(before, exception_key(other_host, other_port)),
{
    let gone = exception_key(host, port);
    let other = exception_key(other_host, other_port);
    let rest = accepted.drop_last();
    lemma_filed_without(before, gone, gone);
    lemma_filed_without(before, gone, other);
    assert(accepted =~= rest.push(accepted.last()));
    lemma_filed_push(rest, accepted.last(), gone);
    lemma_filed_push(rest, accepted.last(), other);
    keys_belong_to_one_host_and_port(host, port, other_host, other_port);
}

} // verus!

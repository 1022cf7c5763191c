//! FTP and FTPS: what a connection is opened with, what the server says it
//! can do, and how its answers are read.
pub mod list;
pub mod tls;

use vstd::prelude::*;

use crate::error::{Error, PathProblem};
use crate::text::{chars_of, contains, folded, folded_chars, is_text, same_ignoring_case};

verus! {

/// How a connection encrypts, and whether it insists on it.
#[derive(Debug, Clone, Copy, PartialEq, Eq, Default, Structural)]
pub enum Encryption {
    /// Plain FTP, marked as such wherever the connection is shown. (Written
    /// `none` in files.)
    Plain,
    /// `AUTH TLS` on the ordinary port. The default for new entries.
    #[default]
    Explicit,
    /// TLS from the first byte, historically on port 990.
    Implicit,
}

/// Everything one FTP connection needs.
#[derive(Debug, Clone)]
pub struct FtpParams {
    pub host: String,
    pub port: u16,
    pub user: String,
    pub password: String,
    pub encryption: Encryption,
    /// Passive is what works behind a router.
    pub passive: bool,
    pub concurrency: u8,
    pub retries: u8,
    pub temporary_name: bool,
    /// Seconds between keep-alive commands, or `None` to let an idle
    /// connection be dropped and opened again when it is next needed.
    pub keep_alive: Option<u32>,
    /// Fallback when the server cannot speak UTF-8.
    pub latin1: bool,
    /// What the user has already agreed to about this server's certificate.
    pub certificate: tls::CertificateDecision,
}

/// What the server said it can do.
#[derive(Debug, Clone, Copy, Default, PartialEq, Eq, Structural)]
pub struct Abilities {
    /// Machine readable listings. Preferred whenever offered.
    pub mlsd: bool,
    /// Continuing a transfer from an offset.
    pub rest: bool,
    pub utf8: bool,
    pub size: bool,
    /// Setting a file's modification time.
    pub mfmt: bool,
    /// Asking for a data connection in the way that works over IPv6.
    pub epsv: bool,
}

/// A text in upper case, as `str::to_uppercase` makes it.
pub uninterp spec fn upper_case(s: Seq<char>) -> Seq<char>;

/// `str::to_uppercase`. Claimed: the result is `upper_case` of the text, a
/// function of the text alone. Unicode's full mapping is not stated.
#[verifier::external_body]
fn to_upper(s: &str) -> (r: String)
    ensures
        r@ == upper_case(s@),
{
    s.to_uppercase()
}

/// Whether the features name `name`, in any case.
pub open spec fn has_feature(features: Seq<(String, Option<String>)>, name: Seq<char>) -> bool {
    exists|i: int| 0 <= i < features.len() && same_ignoring_case(features[i].0@, name)
}

/// The first feature named `REST`, in any case.
pub open spec fn first_rest(features: Seq<(String, Option<String>)>, i: int) -> int
    decreases features.len() - i,
{
    if i >= features.len() || i < 0 {
        -1
    } else if same_ignoring_case(features[i].0@, "REST"@) {
        i
    } else {
        first_rest(features, i + 1)
    }
}

/// What the features say, as `FEAT` lists them: a name and what follows it.
/// Machine readable listings count when either `MLSD` or `MLST` is named, and
/// byte offsets only when the first `REST` line says `STREAM`.
pub open spec fn abilities_of(features: Seq<(String, Option<String>)>) -> Abilities {
    let r = first_rest(features, 0);
    Abilities {
        mlsd: has_feature(features, "MLSD"@) || has_feature(features, "MLST"@),
        rest: r >= 0 && match features[r].1 {
            Some(v) => contains(upper_case(v@), "STREAM"@),
            None => false,
        },
        utf8: has_feature(features, "UTF8"@),
        size: has_feature(features, "SIZE"@),
        mfmt: has_feature(features, "MFMT"@),
        epsv: has_feature(features, "EPSV"@),
    }
}

fn has_feature_exec(features: &[(String, Option<String>)], name: &str) -> (b: bool)
    ensures
        b == has_feature(features@, name@),
{
    let n = chars_of(name);
    let mut i: usize = 0;
    while i < features.len()
        invariant
            i <= features@.len(),
            n@ == name@,
            forall|k: int| 0 <= k < i ==> !same_ignoring_case(features@[k].0@, name@),
        decreases features@.len() - i,
    {
        let k = chars_of(features[i].0.as_str());
        if crate::text::eq_ignore_case(&k, &n) {
            return true;
        }
        i = i + 1;
    }
    false
}

fn first_rest_exec(features: &[(String, Option<String>)]) -> (r: Option<usize>)
    ensures
        match r {
            Some(i) => i < features@.len() && i as int == first_rest(features@, 0),
            None => first_rest(features@, 0) < 0,
        },
{
    let rest_name = chars_of("REST");
    let mut i: usize = 0;
    while i < features.len()
        invariant
            i <= features@.len(),
            rest_name@ == "REST"@,
            first_rest(features@, 0) == first_rest(features@, i as int),
        decreases features@.len() - i,
    {
        let k = chars_of(features[i].0.as_str());
        if crate::text::eq_ignore_case(&k, &rest_name) {
            return Some(i);
        }
        i = i + 1;
    }
    None
}

impl Abilities {
    /// Reads what `FEAT` answered.
    pub fn from_features(features: &[(String, Option<String>)]) -> (a: Self)
        ensures
            a == abilities_of(features@),
    {
        let rest = match first_rest_exec(features) {
            Some(i) => match &features[i].1 {
                Some(v) => {
                    let upper = to_upper(v.as_str());
                    let u = chars_of(upper.as_str());
                    let stream = chars_of("STREAM");
                    crate::text::contains_seq(&u, &stream)
                },
                None => false,
            },
            None => false,
        };
        Abilities {
            mlsd: has_feature_exec(features, "MLSD") || has_feature_exec(features, "MLST"),
            rest,
            utf8: has_feature_exec(features, "UTF8"),
            size: has_feature_exec(features, "SIZE"),
            mfmt: has_feature_exec(features, "MFMT"),
            epsv: has_feature_exec(features, "EPSV"),
        }
    }
}

/// What the server answered a hand-typed command.
#[derive(Debug, Clone, PartialEq, Eq)]
pub struct RawReply {
    pub code: u32,
    pub text: String,
    /// Whether this command wanted a data connection, and the control
    /// connection was therefore thrown away afterwards.
    pub connection_dropped: bool,
}

/// The commands that open a second connection.
pub open spec fn data_verbs() -> Seq<Seq<char>> {
    seq![
        "RETR"@,
        "STOR"@,
        "STOU"@,
        "APPE"@,
        "LIST"@,
        "NLST"@,
        "MLSD"@,
        "PASV"@,
        "EPSV"@,
        "PORT"@,
        "EPRT"@,
    ]
}

/// The first word of a command, as `split_whitespace` finds it; nothing when
/// there is none.
pub open spec fn first_word(command: Seq<char>) -> Seq<char> {
    let s = crate::text::skip_ws(command, 0);
    command.subrange(s, crate::text::next_ws(command, s))
}

/// Whether a command expects a second connection to be opened for it: its
/// first word is one of those verbs, in any case. A word that merely starts
/// like one is not one.
pub open spec fn spec_wants_data_channel(command: Seq<char>) -> bool {
    exists|i: int| 0 <= i < 11 && same_ignoring_case(first_word(command), data_verbs()[i])
}

fn verb_at(i: usize) -> (v: &'static str)
    requires
        i < 11,
    ensures
        v@ == data_verbs()[i as int],
{
    if i == 0 {
        "RETR"
    } else if i == 1 {
        "STOR"
    } else if i == 2 {
        "STOU"
    } else if i == 3 {
        "APPE"
    } else if i == 4 {
        "LIST"
    } else if i == 5 {
        "NLST"
    } else if i == 6 {
        "MLSD"
    } else if i == 7 {
        "PASV"
    } else if i == 8 {
        "EPSV"
    } else if i == 9 {
        "PORT"
    } else {
        "EPRT"
    }
}

pub fn wants_data_channel(command: &str) -> (b: bool)
    ensures
        b == spec_wants_data_channel(command@),
{
    let c = chars_of(command);
    let s = crate::text::skip_ws_at(&c, 0);
    proof {
        crate::text::lemma_skip_ws(c@, 0);
    }
    let e = crate::text::next_ws_at(&c, s);
    proof {
        crate::text::lemma_next_ws(c@, s as int);
    }
    let word = crate::text::slice_range(&c, s, e);
    let mut i: usize = 0;
    while i < 11
        invariant
            i <= 11,
            word@ == first_word(command@),
            forall|k: int| 0 <= k < i ==> !same_ignoring_case(word@, data_verbs()[k]),
        decreases 11 - i,
    {
        let verb = chars_of(verb_at(i));
        if crate::text::eq_ignore_case(&word, &verb) {
            return true;
        }
        i = i + 1;
    }
    false
}

/// What the server's own words say the problem was, where they say anything:
/// refusals first, then absence. Compared without regard to case.
pub open spec fn spec_said(text: Seq<char>) -> Option<PathProblem> {
    let t = folded(text);
    if contains(t, "permission"@) || contains(t, "denied"@) || contains(t, "not allowed"@) {
        Some(PathProblem::PermissionDenied)
    } else if contains(t, "no such"@) || contains(t, "not found"@) || contains(
        t,
        "does not exist"@,
    ) {
        Some(PathProblem::NotFound)
    } else {
        None
    }
}

fn mentions(t: &[char], word: &str) -> (b: bool)
    ensures
        b == contains(t@, word@),
{
    let w = chars_of(word);
    crate::text::contains_seq(t, &w)
}

/// What a reply's text says the problem was.
pub fn said(text: &str) -> (r: Option<PathProblem>)
    ensures
        r == spec_said(text@),
{
    let raw = chars_of(text);
    let t = folded_chars(&raw);
    if mentions(&t, "permission") || mentions(&t, "denied") || mentions(&t, "not allowed") {
        Some(PathProblem::PermissionDenied)
    } else if mentions(&t, "no such") || mentions(&t, "not found") || mentions(&t, "does not exist") {
        Some(PathProblem::NotFound)
    } else {
        None
    }
}

/// Why a path did not work, from a refusal's code and text. 550 and 553 are
/// told apart by what the server wrote after the number; 530 is a refusal.
pub open spec fn spec_reply_problem(code: u32, text: Seq<char>) -> PathProblem {
    if code == 550 {
        match spec_said(text) {
            Some(p) => p,
            None => PathProblem::NotFound,
        }
    } else if code == 553 {
        match spec_said(text) {
            Some(p) => p,
            None => PathProblem::Unknown,
        }
    } else if code == 530 {
        PathProblem::PermissionDenied
    } else {
        PathProblem::Unknown
    }
}

pub fn reply_problem(code: u32, text: &str) -> (p: PathProblem)
    ensures
        p == spec_reply_problem(code, text@),
{
    if code == 550 {
        match said(text) {
            Some(p) => p,
            None => PathProblem::NotFound,
        }
    } else if code == 553 {
        match said(text) {
            Some(p) => p,
            None => PathProblem::Unknown,
        }
    } else if code == 530 {
        PathProblem::PermissionDenied
    } else {
        PathProblem::Unknown
    }
}

/// Whether a refused login is the server demanding encryption: it speaks of
/// TLS or SSL, and of requiring it.
pub open spec fn demands_tls(text: Seq<char>) -> bool {
    let t = crate::text::lower_ascii(text);
    (contains(t, "tls"@) || contains(t, "ssl"@)) && (contains(t, "requir"@) || contains(
        t,
        "must"@,
    ) || contains(t, "only"@))
}

/// What a refused login means. A server that refuses because it wants TLS
/// first says so in its words, and that is not a wrong password.
pub fn login_failure(reply: Option<&str>, params: &FtpParams) -> (e: Error)
    ensures
        match reply {
            Some(text) => demands_tls(text@) ==> (e matches Error::EncryptionRequired {
                host,
                detail,
            } && host@ == params.host@ && detail@ == crate::text::trim(text@)),
            None => false,
        } || (e matches Error::AuthenticationFailed { user } && user@ == params.user@ && !(
        reply matches Some(text) && demands_tls(text@))),
{
    if let Some(text) = reply {
        let raw = chars_of(text);
        let t = crate::text::lowered(&raw);
        let speaks = mentions(&t, "tls") || mentions(&t, "ssl");
        let insists = mentions(&t, "requir") || mentions(&t, "must") || mentions(&t, "only");
        if speaks && insists {
            let detail = crate::text::trimmed(&raw);
            return Error::EncryptionRequired {
                host: params.host.clone(),
                detail: crate::text::string_of(&detail),
            };
        }
    }
    Error::AuthenticationFailed { user: params.user.clone() }
}

/// How many connections remain when a server refused another login: half
/// are given up, and one always stays.
pub open spec fn spec_lowered(allowed: u32) -> u32 {
    if allowed <= 1 {
        allowed
    } else {
        (allowed - allowed / 2) as u32
    }
}

pub fn lowered_limit(allowed: u32) -> (n: u32)
    ensures
        n == spec_lowered(allowed),
        allowed >= 1 ==> 1 <= n <= allowed,
{
    if allowed <= 1 {
        allowed
    } else {
        allowed - allowed / 2
    }
}

/// A wanted number of connections, kept within one and the largest allowed.
pub fn clamped_connections(wanted: u32) -> (n: u32)
    ensures
        n == (if wanted < 1 {
            1
        } else if wanted > crate::endpoint::Protocol::MAX_CONCURRENCY as u32 {
            crate::endpoint::Protocol::MAX_CONCURRENCY as u32
        } else {
            wanted
        }),
{
    let most = crate::endpoint::Protocol::MAX_CONCURRENCY as u32;
    if wanted < 1 {
        1
    } else if wanted > most {
        most
    } else {
        wanted
    }
}

} // verus!

//! What can go wrong, in a form the user interface can translate. No variant
//! carries a finished sentence: a kind plus the details that belong in it.
use vstd::prelude::*;

verus! {

/// The kind of failure, which is what a translation key is chosen by.
#[derive(Debug, Clone, PartialEq, Eq)]
pub enum Error {
    /// The address could not be reached at all.
    Unreachable { host: String, port: u16 },
    /// The server refused every credential offered.
    AuthenticationFailed { user: String },
    /// A key file could not be read or parsed.
    KeyFile { path: String },
    /// A key file is encrypted and the passphrase was wrong or missing.
    KeyPassphrase { path: String },
    /// No agent was reachable, or it held nothing the server accepted.
    Agent,
    /// The server is not in `known_hosts`. The connection waits for a decision.
    HostKeyUnknown { host: String, fingerprint: String },
    /// The server's key differs from the one in `known_hosts`. Blocked.
    HostKeyChanged { host: String, fingerprint: String, known_fingerprint: String },
    /// The server's TLS certificate was not accepted, and why.
    CertificateUntrusted { host: String, fingerprint: String, reason: String, detail: String },
    /// The server took the connection and then said nothing.
    TimedOut { host: String, port: u16, seconds: u64 },
    /// The server would not encrypt at all, or would not encrypt the data channel.
    EncryptionRefused { detail: String },
    /// The server will not talk at all without TLS, and this connection has none.
    EncryptionRequired { host: String, detail: String },
    /// A path could not be listed, read or written.
    Path { path: String, reason: PathProblem },
    /// The source changed since the transfer broke off.
    SourceChanged,
    /// The connection was lost while something was in flight.
    Disconnected,
    /// The endpoint asked for is not connected.
    NotConnected,
    /// The table of editable kinds does not cover this file.
    TypeNotEdited { path: String, extension: String },
    /// The file is larger than editing is offered for.
    TooBigToEdit { path: String, megabytes: u64 },
    /// The file turned out not to be text.
    NotTextToEdit { path: String },
    /// The file on the server changed since the copy was taken.
    EditChangedOnServer { path: String },
    /// A character that the file's encoding cannot hold.
    TextDoesNotFit { character: String },
    /// Anything the core did not foresee. `detail` is for the log.
    Other { detail: String },
}

/// Why a path did not work out.
#[derive(Debug, Clone, Copy, PartialEq, Eq, Structural)]
pub enum PathProblem {
    NotFound,
    PermissionDenied,
    NotADirectory,
    AlreadyExists,
    Unknown,
}

/// The translation key of each kind of failure.
pub open spec fn spec_message_key(e: Error) -> Seq<char> {
    match e {
        Error::Unreachable { .. } => "error.unreachable"@,
        Error::AuthenticationFailed { .. } => "error.authentication-failed"@,
        Error::KeyFile { .. } => "error.key-file"@,
        Error::KeyPassphrase { .. } => "error.key-passphrase"@,
        Error::Agent => "error.agent"@,
        Error::HostKeyUnknown { .. } => "error.host-key-unknown"@,
        Error::HostKeyChanged { .. } => "error.host-key-changed"@,
        Error::CertificateUntrusted { .. } => "error.certificate-untrusted"@,
        Error::TimedOut { .. } => "error.timed-out"@,
        Error::EncryptionRefused { .. } => "error.encryption-refused"@,
        Error::EncryptionRequired { .. } => "error.encryption-required"@,
        Error::Path { .. } => "error.path"@,
        Error::SourceChanged => "error.source-changed"@,
        Error::Disconnected => "error.disconnected"@,
        Error::NotConnected => "error.not-connected"@,
        Error::TypeNotEdited { .. } => "error.type-not-edited"@,
        Error::TooBigToEdit { .. } => "error.too-big-to-edit"@,
        Error::NotTextToEdit { .. } => "error.not-text-to-edit"@,
        Error::EditChangedOnServer { .. } => "error.edit-changed-on-server"@,
        Error::TextDoesNotFit { .. } => "error.text-does-not-fit"@,
        Error::Other { .. } => "error.other"@,
    }
}

impl Error {
    /// Wraps anything that has no better variant.
    pub fn other(detail: &str) -> (e: Self)
        ensures
            e matches Error::Other { detail: d } && d@ == detail@,
    {
        Error::Other { detail: detail.to_string() }
    }

    /// The translation key the user interface looks up for this failure.
    pub fn message_key(&self) -> (k: &'static str)
        ensures
            k@ == spec_message_key(*self),
    {
        match self {
            Error::Unreachable { .. } => "error.unreachable",
            Error::AuthenticationFailed { .. } => "error.authentication-failed",
            Error::KeyFile { .. } => "error.key-file",
            Error::KeyPassphrase { .. } => "error.key-passphrase",
            Error::Agent => "error.agent",
            Error::HostKeyUnknown { .. } => "error.host-key-unknown",
            Error::HostKeyChanged { .. } => "error.host-key-changed",
            Error::CertificateUntrusted { .. } => "error.certificate-untrusted",
            Error::TimedOut { .. } => "error.timed-out",
            Error::EncryptionRefused { .. } => "error.encryption-refused",
            Error::EncryptionRequired { .. } => "error.encryption-required",
            Error::Path { .. } => "error.path",
            Error::SourceChanged => "error.source-changed",
            Error::Disconnected => "error.disconnected",
            Error::NotConnected => "error.not-connected",
            Error::TypeNotEdited { .. } => "error.type-not-edited",
            Error::TooBigToEdit { .. } => "error.too-big-to-edit",
            Error::NotTextToEdit { .. } => "error.not-text-to-edit",
            Error::EditChangedOnServer { .. } => "error.edit-changed-on-server",
            Error::TextDoesNotFit { .. } => "error.text-does-not-fit",
            Error::Other { .. } => "error.other",
        }
    }
}

/// Every translation key of a failure begins with `error.`.
pub proof fn every_key_begins_with_error(e: Error)
    ensures
        crate::text::starts_with(spec_message_key(e), "error."@),
{
    reveal_strlit("error.");
    reveal_strlit("error.unreachable");
    reveal_strlit("error.authentication-failed");
    reveal_strlit("error.key-file");
    reveal_strlit("error.key-passphrase");
    reveal_strlit("error.agent");
    reveal_strlit("error.host-key-unknown");
    reveal_strlit("error.host-key-changed");
    reveal_strlit("error.certificate-untrusted");
    reveal_strlit("error.timed-out");
    reveal_strlit("error.encryption-refused");
    reveal_strlit("error.encryption-required");
    reveal_strlit("error.path");
    reveal_strlit("error.source-changed");
    reveal_strlit("error.disconnected");
    reveal_strlit("error.not-connected");
    reveal_strlit("error.type-not-edited");
    reveal_strlit("error.too-big-to-edit");
    reveal_strlit("error.not-text-to-edit");
    reveal_strlit("error.edit-changed-on-server");
    reveal_strlit("error.text-does-not-fit");
    reveal_strlit("error.other");
    let k = spec_message_key(e);
    assert(k.take(6) =~= "error."@);
}

/// Which kind of failure an error is, whatever it carries: its place in the
/// list of variants.
pub open spec fn failure_kind(e: Error) -> int {
    match e {
        Error::Unreachable { .. } => 0,
        Error::AuthenticationFailed { .. } => 1,
        Error::KeyFile { .. } => 2,
        Error::KeyPassphrase { .. } => 3,
        Error::Agent => 4,
        Error::HostKeyUnknown { .. } => 5,
        Error::HostKeyChanged { .. } => 6,
        Error::CertificateUntrusted { .. } => 7,
        Error::TimedOut { .. } => 8,
        Error::EncryptionRefused { .. } => 9,
        Error::EncryptionRequired { .. } => 10,
        Error::Path { .. } => 11,
        Error::SourceChanged => 12,
        Error::Disconnected => 13,
        Error::NotConnected => 14,
        Error::TypeNotEdited { .. } => 15,
        Error::TooBigToEdit { .. } => 16,
        Error::NotTextToEdit { .. } => 17,
        Error::EditChangedOnServer { .. } => 18,
        Error::TextDoesNotFit { .. } => 19,
        Error::Other { .. } => 20,
    }
}

/// No two kinds of failure share a translation key, and every failure of
/// one kind has the same key.
pub proof fn every_failure_has_its_own_key(a: Error, b: Error)
    ensures
        spec_message_key(a) == spec_message_key(b) <==> failure_kind(a) == failure_kind(b),
{
    reveal_strlit("error.unreachable");
    reveal_strlit("error.authentication-failed");
    reveal_strlit("error.key-file");
    reveal_strlit("error.key-passphrase");
    reveal_strlit("error.agent");
    reveal_strlit("error.host-key-unknown");
    reveal_strlit("error.host-key-changed");
    reveal_strlit("error.certificate-untrusted");
    reveal_strlit("error.timed-out");
    reveal_strlit("error.encryption-refused");
    reveal_strlit("error.encryption-required");
    reveal_strlit("error.path");
    reveal_strlit("error.source-changed");
    reveal_strlit("error.disconnected");
    reveal_strlit("error.not-connected");
    reveal_strlit("error.type-not-edited");
    reveal_strlit("error.too-big-to-edit");
    reveal_strlit("error.not-text-to-edit");
    reveal_strlit("error.edit-changed-on-server");
    reveal_strlit("error.text-does-not-fit");
    reveal_strlit("error.other");
    let ka = spec_message_key(a);
    let kb = spec_message_key(b);
    if failure_kind(a) != failure_kind(b) && ka.len() == kb.len() {
        assert(ka[6] != kb[6] || ka[7] != kb[7] || ka[15] != kb[15]);
    }
}

/// `std::io::Error`, carried through without looking inside.
#[verifier::external_type_specification]
#[verifier::external_body]
pub struct ExIoError(std::io::Error);

/// The kinds of failed input or output that a path problem tells apart; any
/// other kind is `Unlisted`.
#[derive(Debug, Clone, Copy, PartialEq, Eq, Structural)]
pub enum IoKind {
    NotFound,
    PermissionDenied,
    NotADirectory,
    AlreadyExists,
    Unlisted,
}

/// `std::io::Error::kind`, each kind that `IoKind` lists read as its
/// namesake and every other kind as `Unlisted`. Nothing is claimed of the
/// result: an `std::io::Error` is opaque here, so which kind it carries is
/// not stated.
#[verifier::external_body]
fn kind_of(source: &std::io::Error) -> IoKind {
    match source.kind() {
        std::io::ErrorKind::NotFound => IoKind::NotFound,
        std::io::ErrorKind::PermissionDenied => IoKind::PermissionDenied,
        std::io::ErrorKind::NotADirectory => IoKind::NotADirectory,
        std::io::ErrorKind::AlreadyExists => IoKind::AlreadyExists,
        _ => IoKind::Unlisted,
    }
}

/// What a kind of failed input or output means for a path.
pub open spec fn spec_problem_of(kind: IoKind) -> PathProblem {
    match kind {
        IoKind::NotFound => PathProblem::NotFound,
        IoKind::PermissionDenied => PathProblem::PermissionDenied,
        IoKind::NotADirectory => PathProblem::NotADirectory,
        IoKind::AlreadyExists => PathProblem::AlreadyExists,
        IoKind::Unlisted => PathProblem::Unknown,
    }
}

impl PathProblem {
    /// What a kind of failed input or output means for a path.
    pub fn from_kind(kind: IoKind) -> (p: PathProblem)
        ensures
            p == spec_problem_of(kind),
    {
        match kind {
            IoKind::NotFound => PathProblem::NotFound,
            IoKind::PermissionDenied => PathProblem::PermissionDenied,
            IoKind::NotADirectory => PathProblem::NotADirectory,
            IoKind::AlreadyExists => PathProblem::AlreadyExists,
            IoKind::Unlisted => PathProblem::Unknown,
        }
    }
}

impl Error {
    /// A failed operation on a path that is named. The reason is
    /// `PathProblem::from_kind` of the kind the operating system gave; which
    /// kind that was is not stated, the error being opaque here.
    pub fn from_io_at(path: &str, source: std::io::Error) -> (e: Error)
        ensures
            e matches Error::Path { path: p, .. } && p@ == path@,
    {
        let reason = PathProblem::from_kind(kind_of(&source));
        Error::Path { path: path.to_string(), reason }
    }

    /// A failed operation on no particular path, with the reason the
    /// operating system gave, as `from_io_at` reads it.
    pub fn from_io(source: std::io::Error) -> (e: Error)
        ensures
            e matches Error::Path { path: p, .. } && p@.len() == 0,
    {
        proof {
            reveal_strlit("");
        }
        Error::from_io_at("", source)
    }
}

} // verus!

//! Endpoints a transfer can read from or write to.
//!
//! An endpoint is a place with a protocol, nothing more. The local disk is one
//! protocol among several, not a special case, which is why server-to-server
//! copying and copying within a single server need no separate code path.
use vstd::prelude::*;

verus! {

/// Protocol an endpoint speaks.
#[derive(Debug, Clone, Copy, PartialEq, Eq, Hash, Structural)]
pub enum Protocol {
    /// The file system the core itself runs on.
    Local,
    Sftp,
    Ftp,
    Ftps,
}

pub open spec fn spec_default_concurrency(p: Protocol) -> u8 {
    match p {
        Protocol::Local => 4,
        Protocol::Sftp => 8,
        Protocol::Ftp | Protocol::Ftps => 4,
    }
}

pub open spec fn spec_default_port(p: Protocol) -> Option<u16> {
    match p {
        Protocol::Local => None,
        Protocol::Sftp => Some(22),
        Protocol::Ftp | Protocol::Ftps => Some(21),
    }
}

pub open spec fn spec_is_encrypted(p: Protocol) -> bool {
    p != Protocol::Ftp
}

pub open spec fn spec_rename_is_dependable(p: Protocol) -> bool {
    p == Protocol::Local || p == Protocol::Sftp
}

pub open spec fn protocol_name(p: Protocol) -> Seq<char> {
    match p {
        Protocol::Local => seq!['l', 'o', 'c', 'a', 'l'],
        Protocol::Sftp => seq!['s', 'f', 't', 'p'],
        Protocol::Ftp => seq!['f', 't', 'p'],
        Protocol::Ftps => seq!['f', 't', 'p', 's'],
    }
}

impl Protocol {
    /// The largest concurrency a user may configure per site.
    pub const MAX_CONCURRENCY: u8 = 64;

    /// How many transfers run at the same time unless a site entry says
    /// otherwise: eight for SFTP, which stays under OpenSSH's default of ten
    /// sessions, and four for FTP, where every transfer is a login of its own.
    pub fn default_concurrency(self) -> (n: u8)
        ensures
            n == spec_default_concurrency(self),
    {
        match self {
            Protocol::Local => 4,
            Protocol::Sftp => 8,
            Protocol::Ftp | Protocol::Ftps => 4,
        }
    }

    /// Port used when a site entry names none.
    pub fn default_port(self) -> (port: Option<u16>)
        ensures
            port == spec_default_port(self),
    {
        match self {
            Protocol::Local => None,
            Protocol::Sftp => Some(22),
            Protocol::Ftp | Protocol::Ftps => Some(21),
        }
    }

    /// Whether traffic is encrypted. Plain FTP is the one protocol that is not.
    pub fn is_encrypted(self) -> (b: bool)
        ensures
            b == spec_is_encrypted(self),
    {
        match self {
            Protocol::Local => true,
            Protocol::Sftp | Protocol::Ftps => true,
            Protocol::Ftp => false,
        }
    }

    /// Whether a half written file can safely be given a temporary name and
    /// renamed when it is whole. Over FTP renaming needs a right plenty of
    /// accounts do not have.
    pub fn rename_is_dependable(self) -> (b: bool)
        ensures
            b == spec_rename_is_dependable(self),
    {
        match self {
            Protocol::Local | Protocol::Sftp => true,
            Protocol::Ftp | Protocol::Ftps => false,
        }
    }

    /// Stable identifier, used in configuration files and towards the frontend.
    pub fn as_str(self) -> (s: &'static str)
        ensures
            s@ == protocol_name(self),
    {
        match self {
            Protocol::Local => {
                proof {
                    reveal_strlit("local");
                }
                "local"
            },
            Protocol::Sftp => {
                proof {
                    reveal_strlit("sftp");
                }
                "sftp"
            },
            Protocol::Ftp => {
                proof {
                    reveal_strlit("ftp");
                }
                "ftp"
            },
            Protocol::Ftps => {
                proof {
                    reveal_strlit("ftps");
                }
                "ftps"
            },
        }
    }
}

/// How an FTP connection negotiates TLS.
#[derive(Debug, Clone, Copy, PartialEq, Eq, Structural)]
pub enum FtpSecurity {
    /// Plain FTP. Possible, but marked in the window. (Called `none` in
    /// files; the name `None` is taken in this crate's language.)
    Plain,
    /// `AUTH TLS` on the regular port. The default for new site entries.
    Explicit,
    /// TLS from the first byte, historically on port 990.
    Implicit,
}

/// Identifier of an endpoint within one running core.
#[derive(Debug, Clone, Eq, Hash)]
pub struct EndpointId(pub String);

impl PartialEq for EndpointId {
    fn eq(&self, other: &Self) -> (r: bool) {
        self.0 == other.0
    }
}

impl vstd::std_specs::cmp::PartialEqSpecImpl for EndpointId {
    open spec fn obeys_eq_spec() -> bool {
        true
    }

    open spec fn eq_spec(&self, other: &Self) -> bool {
        self.0@ == other.0@
    }
}

impl EndpointId {
    pub fn new(id: &str) -> (e: Self)
        ensures
            e.0@ == id@,
    {
        EndpointId(id.to_string())
    }

    pub fn as_str(&self) -> (s: &str)
        ensures
            s@ == self.0@,
    {
        self.0.as_str()
    }

    /// A copy of this identifier.
    pub fn copied(&self) -> (e: Self)
        ensures
            e.0@ == self.0@,
    {
        EndpointId(self.0.clone())
    }
}

/// A place transfers move data from or to.
#[derive(Debug, Clone)]
pub struct Endpoint {
    pub id: EndpointId,
    pub protocol: Protocol,
    /// Host name or address. Empty for [`Protocol::Local`].
    pub host: Option<String>,
    pub port: Option<u16>,
    pub user: Option<String>,
    /// TLS negotiation, only meaningful for FTP and FTPS.
    pub security: Option<FtpSecurity>,
    /// Transfers running at the same time against this endpoint.
    pub concurrency: u8,
}

impl Endpoint {
    /// An endpoint on the file system the core runs on.
    pub fn local(id: &str) -> (e: Self)
        ensures
            e.id.0@ == id@,
            e.protocol == Protocol::Local,
            e.host is None,
            e.port is None,
            e.user is None,
            e.security is None,
            e.concurrency == spec_default_concurrency(Protocol::Local),
    {
        Endpoint {
            id: EndpointId::new(id),
            protocol: Protocol::Local,
            host: None,
            port: None,
            user: None,
            security: None,
            concurrency: Protocol::Local.default_concurrency(),
        }
    }

    /// A remote endpoint with the protocol's default port and concurrency.
    /// FTP endpoints start out encrypted.
    pub fn remote(id: &str, protocol: Protocol, host: &str) -> (e: Self)
        ensures
            e.id.0@ == id@,
            e.protocol == protocol,
            e.host matches Some(h) && h@ == host@,
            e.port == spec_default_port(protocol),
            e.user is None,
            e.security == (if protocol == Protocol::Ftp || protocol == Protocol::Ftps {
                Some(FtpSecurity::Explicit)
            } else {
                None
            }),
            e.concurrency == spec_default_concurrency(protocol),
    {
        Endpoint {
            id: EndpointId::new(id),
            protocol,
            host: Some(host.to_string()),
            port: protocol.default_port(),
            user: None,
            security: match protocol {
                Protocol::Ftp | Protocol::Ftps => Some(FtpSecurity::Explicit),
                _ => None,
            },
            concurrency: protocol.default_concurrency(),
        }
    }

    /// Clamps a user supplied concurrency into `1..=Protocol::MAX_CONCURRENCY`.
    pub fn set_concurrency(&mut self, requested: u8)
        ensures
            final(self).concurrency == (if requested < 1 {
                1
            } else if requested > Protocol::MAX_CONCURRENCY {
                Protocol::MAX_CONCURRENCY
            } else {
                requested
            }),
            final(self).id == old(self).id,
            final(self).protocol == old(self).protocol,
            final(self).host == old(self).host,
            final(self).port == old(self).port,
            final(self).user == old(self).user,
            final(self).security == old(self).security,
    {
        self.concurrency = if requested < 1 {
            1
        } else if requested > Protocol::MAX_CONCURRENCY {
            Protocol::MAX_CONCURRENCY
        } else {
            requested
        };
    }
}

} // verus!

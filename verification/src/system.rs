//! What the core can say about itself: its version, where it runs, and the
//! protocols it carries with the defaults they start out with.
use vstd::prelude::*;

use crate::endpoint::{spec_default_concurrency, spec_default_port, spec_is_encrypted, Protocol};

verus! {

/// A protocol the core carries, along with the defaults it starts out with.
#[derive(Debug, Clone, PartialEq, Eq)]
pub struct ProtocolInfo {
    pub protocol: Protocol,
    pub default_port: Option<u16>,
    pub default_concurrency: u8,
    pub encrypted: bool,
}

/// What the core reports of a protocol.
pub open spec fn info_of(p: Protocol) -> ProtocolInfo {
    ProtocolInfo {
        protocol: p,
        default_port: spec_default_port(p),
        default_concurrency: spec_default_concurrency(p),
        encrypted: spec_is_encrypted(p),
    }
}

/// The protocols of version one, in the order they are shown.
pub open spec fn carried() -> Seq<Protocol> {
    seq![Protocol::Sftp, Protocol::Ftp, Protocol::Ftps, Protocol::Local]
}

impl ProtocolInfo {
    pub fn of(protocol: Protocol) -> (info: ProtocolInfo)
        ensures
            info == info_of(protocol),
    {
        ProtocolInfo {
            protocol,
            default_port: protocol.default_port(),
            default_concurrency: protocol.default_concurrency(),
            encrypted: protocol.is_encrypted(),
        }
    }
}

/// Version and capabilities of the running core.
#[derive(Debug, Clone, PartialEq, Eq)]
pub struct CoreInfo {
    /// Version of the core, not of the shell around it.
    pub version: &'static str,
    /// Architecture the core was compiled for, such as `aarch64`.
    pub arch: &'static str,
    /// Operating system the core runs on, such as `macos`.
    pub os: &'static str,
    pub protocols: Vec<ProtocolInfo>,
}

impl CoreInfo {
    /// What the core reports, given its version and where it was built to
    /// run: every protocol of version one with its defaults.
    pub fn of(version: &'static str, arch: &'static str, os: &'static str) -> (info: CoreInfo)
        ensures
            info.version == version,
            info.arch == arch,
            info.os == os,
            info.protocols@ == carried().map_values(|p: Protocol| info_of(p)),
    {
        let mut protocols: Vec<ProtocolInfo> = Vec::new();
        protocols.push(ProtocolInfo::of(Protocol::Sftp));
        protocols.push(ProtocolInfo::of(Protocol::Ftp));
        protocols.push(ProtocolInfo::of(Protocol::Ftps));
        protocols.push(ProtocolInfo::of(Protocol::Local));
        assert(protocols@ =~= carried().map_values(|p: Protocol| info_of(p)));
        CoreInfo { version, arch, os, protocols }
    }
}

} // verus!

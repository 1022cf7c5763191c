//! Core of AmberBeam: endpoints, listings, the queue and the rules around them.
pub mod endpoint;
pub mod text;

pub use endpoint::{Endpoint, EndpointId, FtpSecurity, Protocol};
pub mod engine;
pub mod transfer;
pub use transfer::{ConflictPolicy, JobState, ResumeMarker, TransferJob, TransferSide};
pub mod error;
pub use error::{Error, PathProblem};
pub mod fs;
pub use fs::{DirEntry, EntryKind, Listing, Permissions};
pub mod ops;
pub use ops::{Measurement, PermissionBits};
pub mod queue;
pub use queue::{Queue, QueuedJob, Totals};
pub mod registry;
pub use registry::{Connected, Expanded, Match, SearchResult, TransferRun, Transferred};
pub mod runner;
pub use runner::EnqueueRequest;
pub mod update;
pub use update::{is_newer, read_answer, Release};
pub mod ftp;
pub mod editing;
pub mod compare;
pub mod config;
pub mod import;
pub mod sites;
pub mod sftp;
pub mod secrets;
pub mod events;
pub mod system;
pub mod commands;
pub mod sealed;
pub mod bundle;
pub mod watch;
pub mod local;
pub use system::{CoreInfo, ProtocolInfo};

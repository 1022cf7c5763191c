//! What the core tells the window while it works: the server log, the state
//! of connections, progress, and what happened to files open for editing.
//! Events carry no finished sentences; the language file writes them. Sending
//! them is the shell's part.
use vstd::prelude::*;

use crate::endpoint::EndpointId;
use crate::error::Error;

verus! {

/// Who said a line in the server log.
#[derive(Debug, Clone, Copy, PartialEq, Eq, Structural)]
pub enum LogDirection {
    /// AmberBeam asked.
    Sent,
    /// The server answered.
    Received,
    /// AmberBeam's own remark about what it is doing.
    Note,
}

/// Where a connection stands.
#[derive(Debug, Clone, PartialEq, Eq)]
pub enum ConnectionState {
    Connecting,
    Connected {
        /// What the server said about itself, for the log.
        banner: Option<String>,
    },
    Disconnected,
    Failed { error: Error },
}

/// Everything the core pushes towards the window.
#[derive(Debug, Clone, PartialEq, Eq)]
pub enum Event {
    /// One line for the server log, verbatim.
    Log { endpoint: EndpointId, direction: LogDirection, text: String },
    /// A connection changed state.
    Connection { endpoint: EndpointId, state: ConnectionState },
    /// A directory was read again.
    Listed { endpoint: EndpointId, path: String },
    /// How far the running transfers have come.
    Progress { jobs: Vec<JobProgress> },
    /// A server refused another channel and the connection now asks for fewer.
    ConcurrencyLowered { endpoint: EndpointId, allowed: u32 },
    /// The queue changed in a way progress alone does not show.
    Queue,
    /// How far a comparison has got.
    Comparing { directories: usize, rows: usize },
    /// A watched directory changed and something went up because of it.
    Watched { id: String, sent: usize },
    /// Something happened to a file that is open for editing.
    Edited { id: String, name: String, what: Edited },
}

/// What happened to a file that is open for editing.
#[derive(Debug, Clone, PartialEq, Eq)]
pub enum Edited {
    /// Saved somewhere else and sent up.
    Pushed,
    /// Saved, but the server's copy is no longer the one that was taken.
    Changed { path: String },
    /// Saved, and the write-back failed for some other reason.
    Failed { error: Error },
}

/// One running transfer, as the queue reports it.
#[derive(Debug, Clone, PartialEq, Eq)]
pub struct JobProgress {
    pub id: String,
    pub done_bytes: u64,
    pub total_bytes: Option<u64>,
    /// Bytes per second over the last stretch, once there is enough to say.
    pub rate: Option<u64>,
}

/// The most frequent event by far: one line for the server log.
pub fn log_line(endpoint: &EndpointId, direction: LogDirection, text: &str) -> (e: Event)
    ensures
        e matches Event::Log { endpoint: p, direction: d, text: t } && p.0@ == endpoint.0@ && d
            == direction && t@ == text@,
{
    Event::Log {
        endpoint: EndpointId(endpoint.0.clone()),
        direction,
        text: text.to_string(),
    }
}

} // verus!

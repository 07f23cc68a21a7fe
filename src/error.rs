//! What can go wrong while launching, listing or recording servers.
use vstd::prelude::*;

verus! {

#[derive(Debug, Clone, Copy, PartialEq, Eq, Structural)]
pub enum LauncherError {
    /// No unused port could be found for a new server.
    PortAllocationFailed,
    /// The server program could not be started.
    ProcessSpawnFailed,
    /// A session's link is not a URL.
    InvalidUrl,
    /// A session's folder has no final component to name it by.
    InvalidFolderPath,
    /// The status listing could not be run.
    StatusCommandFailed,
    /// The status listing's output is not UTF-8.
    InvalidUtf8,
}

} // verus!

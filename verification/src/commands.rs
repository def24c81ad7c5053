//! The subcommands as data, and what every subcommand offers.

use crate::errors::SyncError;
use vstd::prelude::*;

verus! {

/// One subcommand run: it either completes or reports the failure that
/// aborted it.
pub trait SubcommandDelegate {
    fn run(self) -> Result<(), SyncError>;
}

/// The listing command's configuration: which directory to list.
pub struct FilesCommand {
    pub path: Option<String>,
}

/// The init command's configuration: which directory to initialize.
pub struct InitCommand {
    pub path: Option<String>,
}

} // verus!

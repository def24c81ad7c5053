//! The one error shape the library surfaces: a message describing what the
//! surrounding runtime failed to do (read or write a file, reach the remote
//! store).

use vstd::prelude::*;

verus! {

/// A run-aborting failure, carrying its description.
#[derive(Debug)]
pub struct SyncError {
    pub message: String,
}

impl SyncError {
    pub fn new(message: String) -> (e: SyncError)
        ensures
            e.message@ == message@,
    {
        SyncError { message }
    }
}

} // verus!

//! Incremental synchronization of a local directory tree to a remote file
//! store.
//!
//! The library keeps a persisted snapshot of every tracked path and, on each
//! run, reconciles it against a fresh scan of the local tree with a
//! mark-and-sweep diff: every known path starts out presumed deleted, each
//! visited path overwrites that presumption with its freshly computed state,
//! and whatever is still marked deleted at the end is a path that truly
//! disappeared. The reconciled table is then projected to an ordered list of
//! remote operations (create/update or delete, per path) and to the snapshot
//! for the next run.

pub mod commands;
pub mod config;
pub mod deploy;
pub mod errors;
pub mod hash;
pub mod laws;
pub mod paths;
pub mod remote;
pub mod tracking;

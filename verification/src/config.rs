//! Connection and project configuration, as the data the sync core reads.
//! Loading these from disk is the surrounding runtime's business; the library
//! only states what it does with the values.

use crate::errors::SyncError;
use crate::paths::{join, join_spec};
use vstd::prelude::*;

verus! {

/// How configuration is brought in: created fresh (reporting whether a new
/// file was written), or loaded with creation as the fallback.
pub trait ConfigLoader where Self: Sized {
    fn create(base_path: &String) -> Result<(Self, bool), SyncError>;

    fn load_or_create(base_path: &String) -> Result<Self, SyncError>;
}

/// What every configuration shape names: the file it is stored under,
/// directly beneath the base path.
pub trait Config {
    fn file_name() -> &'static str;
}

/// Connection settings for the remote store: where it is, who logs in, and
/// under which remote directory the deployed tree lives.
#[derive(Debug)]
pub struct FtpCreds {
    pub server: String,
    pub base_path: String,
    pub username: String,
    pub password: String,
}

impl FtpCreds {
    /// Where a tracked path lives on the remote store: the path joined onto
    /// the configured base path.
    pub fn ftp_path(&self, path: &String) -> (r: String)
        ensures
            r@ == join_spec(self.base_path@, path@),
    {
        join(&self.base_path, path)
    }
}

impl Config for FtpCreds {
    fn file_name() -> (r: &'static str)
        ensures
            r@ == "ftp-deploy-creds.json"@,
    {
        "ftp-deploy-creds.json"
    }
}

impl Default for FtpCreds {
    /// A freshly created credentials file holds empty fields, to be filled
    /// in by hand.
    fn default() -> (c: Self)
        ensures
            c.server@.len() == 0,
            c.base_path@.len() == 0,
            c.username@.len() == 0,
            c.password@.len() == 0,
    {
        FtpCreds {
            server: String::new(),
            base_path: String::new(),
            username: String::new(),
            password: String::new(),
        }
    }
}

/// Per-project settings: the shell hooks to run before a deploy.
#[derive(Debug)]
pub struct FtpConfig {
    pub hooks: Vec<String>,
}

impl FtpConfig {
    /// The configured hooks, in order.
    pub fn hooks(&self) -> (r: &Vec<String>)
        ensures
            r@ == self.hooks@,
    {
        &self.hooks
    }
}

impl Config for FtpConfig {
    fn file_name() -> (r: &'static str)
        ensures
            r@ == "ftp-deploy.json"@,
    {
        "ftp-deploy.json"
    }
}

impl Default for FtpConfig {
    /// A fresh configuration has no hooks.
    fn default() -> (c: Self)
        ensures
            c.hooks@.len() == 0,
    {
        FtpConfig { hooks: Vec::new() }
    }
}

} // verus!

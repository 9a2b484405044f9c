//! The configuration the watcher runs from.
//!
//! Reading and decoding the configuration file is the loader's business,
//! outside the library; the library receives the decoded values.

use vstd::prelude::*;

verus! {

/// The decoded configuration: the messaging credentials, the platform
/// token, a working-data path, and the watched references.
#[derive(Debug, PartialEq, Eq)]
pub struct Config {
    pub slack_token: String,
    pub slack_channel: String,
    pub github_token: String,
    pub github_data: String,
    pub repos: Vec<String>,
    pub projects: Vec<String>,
}

/// The working-data path used when the configuration names none.
pub fn default_github_data() -> (r: String)
    ensures
        r@ == "~/.issues-watcher"@,
{
    "~/.issues-watcher".to_owned()
}

} // verus!

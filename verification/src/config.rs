//! The configuration values the tracker client and storage run on.
//!
//! Loading, persistence and credential storage are the embedding
//! application's business; the library only consumes the plain values.

use vstd::prelude::*;

verus! {

/// Connection and storage settings, as plain values.
#[derive(Debug, Clone)]
pub struct AppConfig {
    pub jira_url: String,
    pub email: String,
    pub api_token: String,
    pub download_dir: String,
}

impl AppConfig {
    pub fn new(jira_url: String, email: String, api_token: String, download_dir: String) -> (r:
        AppConfig)
        ensures
            r.jira_url@ == jira_url@,
            r.email@ == email@,
            r.api_token@ == api_token@,
            r.download_dir@ == download_dir@,
    {
        AppConfig { jira_url, email, api_token, download_dir }
    }
}

} // verus!

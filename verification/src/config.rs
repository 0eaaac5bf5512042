//! User-level configuration data. Reading and writing the configuration
//! file is the caller's concern; the types here are plain values.

use vstd::prelude::*;

use crate::sync::{GitHubConfig, JiraConfig};

verus! {

/// Agent provider configuration.
#[derive(Debug, Clone)]
pub struct OpenAiConfig {
    pub api_key: Option<String>,
    pub model: Option<String>,
    pub endpoint: Option<String>,
}

/// User-level configuration.
#[derive(Debug, Clone)]
pub struct Config {
    /// Override for the data directory holding the encrypted store.
    pub data_dir: Option<String>,
    /// Agent provider configuration.
    pub openai: Option<OpenAiConfig>,
    /// Remote issue-tracker configuration.
    pub jira: Option<JiraConfig>,
    /// Remote repository-host configuration.
    pub github: Option<GitHubConfig>,
}

impl Default for Config {
    /// The default configuration: everything unset.
    fn default() -> (r: Self)
        ensures
            r.data_dir is None,
            r.openai is None,
            r.jira is None,
            r.github is None,
    {
        Config { data_dir: None, openai: None, jira: None, github: None }
    }
}

} // verus!

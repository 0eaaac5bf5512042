//! Remote task-sync configuration and provider selection. The remote
//! connectors themselves do network I/O and live outside this crate; here
//! are their plain configuration values, the no-op provider, and the rule
//! choosing a provider from the configuration.

use vstd::prelude::*;

use crate::config::Config;
use crate::tasks::Task;

verus! {

/// Remote issue-tracker configuration.
#[derive(Debug, Clone)]
pub struct JiraConfig {
    pub site: String,
    pub project_key: String,
    pub api_token: String,
    pub email: String,
    pub base_url: Option<String>,
}

/// Remote repository-host configuration.
#[derive(Debug, Clone)]
pub struct GitHubConfig {
    pub owner: String,
    pub repo: String,
    pub token: String,
    pub api_base: Option<String>,
}

/// No-op sync provider used as a placeholder: pulls nothing, pushes
/// nowhere.
pub struct NoopSync;

impl NoopSync {
    pub fn name(&self) -> (r: &'static str)
        ensures
            r@ == "noop"@,
    {
        "noop"
    }

    pub fn pull(&self) -> (r: Result<Vec<Task>, String>)
        ensures
            r matches Ok(ts) && ts@.len() == 0,
    {
        Ok(Vec::new())
    }

    pub fn push(&self, _tasks: &Vec<Task>) -> (r: Result<(), String>)
        ensures
            r is Ok,
    {
        Ok(())
    }
}

/// Which sync provider the configuration selects: the repository host when
/// configured, else the issue tracker when configured, else the no-op
/// provider.
pub fn select_provider_name(config: &Config) -> (r: &'static str)
    ensures
        config.github is Some ==> r@ == "github"@,
        config.github is None && config.jira is Some ==> r@ == "jira"@,
        config.github is None && config.jira is None ==> r@ == "noop"@,
{
    if config.github.is_some() {
        "github"
    } else if config.jira.is_some() {
        "jira"
    } else {
        "noop"
    }
}

} // verus!

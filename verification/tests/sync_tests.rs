use frodo::config::Config;
use frodo::sync::{select_provider_name, GitHubConfig, JiraConfig, NoopSync};

#[test]
fn noop_round_trips() {
    let sync = NoopSync;
    assert_eq!(sync.name(), "noop");
    assert!(sync.pull().unwrap().is_empty());
    sync.push(&vec![]).unwrap();
}

#[test]
fn selects_github_when_configured() {
    let cfg = Config {
        data_dir: None,
        openai: None,
        jira: None,
        github: Some(GitHubConfig {
            owner: "o".into(),
            repo: "r".into(),
            token: "t".into(),
            api_base: None,
        }),
    };
    assert_eq!(select_provider_name(&cfg), "github");
}

#[test]
fn selects_jira_when_configured() {
    let cfg = Config {
        data_dir: None,
        openai: None,
        jira: Some(JiraConfig {
            site: "s".into(),
            project_key: "P".into(),
            api_token: "t".into(),
            email: "e".into(),
            base_url: None,
        }),
        github: None,
    };
    assert_eq!(select_provider_name(&cfg), "jira");
}

#[test]
fn defaults_to_noop() {
    assert_eq!(select_provider_name(&Config::default()), "noop");
}

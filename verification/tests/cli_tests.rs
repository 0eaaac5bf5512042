use frodo::cli::{Cli, Command, ConfigCommand, TaskCommand};

fn argv(args: &[&str]) -> Vec<String> {
    args.iter().map(|s| s.to_string()).collect()
}

#[test]
fn parses_tui_subcommand() {
    let cli = Cli::try_parse_from(&argv(&["frodo", "tui"])).expect("parse should succeed");
    assert_eq!(cli.command, Some(Command::Tui));
}

#[test]
fn defaults_to_tui_when_missing_subcommand() {
    let cli = Cli::try_parse_from(&argv(&["frodo"])).expect("parse should succeed");
    assert_eq!(cli.command, None);
}

#[test]
fn parses_health_subcommand() {
    let cli = Cli::try_parse_from(&argv(&["frodo", "health"])).expect("parse should succeed");
    assert_eq!(cli.command, Some(Command::Health));
}

#[test]
fn parses_config_init_subcommand() {
    let cli = Cli::try_parse_from(&argv(&["frodo", "config", "init"])).expect("parse should succeed");
    assert_eq!(cli.command, Some(Command::Config(ConfigCommand::Init)));
}

#[test]
fn parses_ask_subcommand() {
    let cli = Cli::try_parse_from(&argv(&["frodo", "ask", "hello", "world"])).expect("parse ok");
    assert_eq!(
        cli.command,
        Some(Command::Ask {
            prompt: vec!["hello".into(), "world".into()]
        })
    );
}

#[test]
fn parses_task_add() {
    let cli = Cli::try_parse_from(&argv(&[
        "frodo",
        "task",
        "add",
        "title",
        "--description",
        "desc",
        "--tag",
        "one",
        "--tag",
        "two",
    ]))
    .expect("parse ok");
    assert_eq!(
        cli.command,
        Some(Command::Task(TaskCommand::Add {
            title: "title".into(),
            description: Some("desc".into()),
            tag: vec!["one".into(), "two".into()],
        }))
    );
}

#[test]
fn parses_task_done() {
    let cli = Cli::try_parse_from(&argv(&["frodo", "task", "done", "123"])).expect("parse ok");
    assert_eq!(
        cli.command,
        Some(Command::Task(TaskCommand::Done { id: "123".into() }))
    );
}

#[test]
fn parses_sync_subcommand() {
    let cli = Cli::try_parse_from(&argv(&["frodo", "sync"])).expect("parse ok");
    assert_eq!(cli.command, Some(Command::Sync));
}

#[test]
fn rejects_ask_without_prompt() {
    let r = Cli::try_parse_from(&argv(&["frodo", "ask"]));
    assert!(r.is_err());
}

#[test]
fn rejects_unknown_subcommand() {
    let r = Cli::try_parse_from(&argv(&["frodo", "dance"]));
    assert!(r.is_err());
}

#[test]
fn rejects_add_without_title() {
    let r = Cli::try_parse_from(&argv(&["frodo", "task", "add", "--tag", "one"]));
    assert!(r.is_err());
}

#[test]
fn rejects_duplicate_description() {
    let r = Cli::try_parse_from(&argv(&[
        "frodo", "task", "add", "title", "-d", "a", "-d", "b",
    ]));
    assert!(r.is_err());
}

#[test]
fn accepts_short_flags_in_add() {
    let cli = Cli::try_parse_from(&argv(&["frodo", "task", "add", "t", "-d", "x", "-t", "y"]))
        .expect("parse ok");
    assert_eq!(
        cli.command,
        Some(Command::Task(TaskCommand::Add {
            title: "t".into(),
            description: Some("x".into()),
            tag: vec!["y".into()],
        }))
    );
}

#[test]
fn rejects_trailing_argument_after_tui() {
    let r = Cli::try_parse_from(&argv(&["frodo", "tui", "extra"]));
    assert!(r.is_err());
}
